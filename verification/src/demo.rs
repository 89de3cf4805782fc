//! Services that come with the host: a data processor and an event
//! handler, each in two styles.

pub mod actions;
pub mod handlers;
