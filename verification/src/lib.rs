//! A single-process service host: a registry of path-addressed services,
//! request dispatch, a topic-based event bus and lifecycle enforcement.

pub mod address;
pub mod demo;
pub mod error;
pub mod event_bus;
pub mod gateway;
pub mod ids;
pub mod lifecycle;
pub mod node;
pub mod node_model;
pub mod registry;
pub mod rest_api;
pub mod sequences;
pub mod service;
pub mod text;
pub mod value;
pub mod wire;
pub mod wire_format;
