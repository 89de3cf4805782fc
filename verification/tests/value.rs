use node_core::value::{get_bool, get_number, get_string, Value};

fn sample() -> Value {
    let mut v = Value::mapping();
    v.set("name", Value::text("alice"));
    v.set("age", Value::Number(30));
    v.set("admin", Value::Bool(true));
    v
}

#[test]
fn get_string_reads_a_text_field() {
    assert_eq!(get_string(&sample(), "name", "none"), "alice");
}

#[test]
fn get_string_gives_the_default_for_a_missing_field() {
    assert_eq!(get_string(&sample(), "email", "none"), "none");
}

#[test]
fn get_string_gives_the_default_for_a_field_of_another_kind() {
    assert_eq!(get_string(&sample(), "age", "none"), "none");
}

#[test]
fn get_string_gives_the_default_for_a_value_that_is_no_mapping() {
    assert_eq!(get_string(&Value::text("alice"), "name", "none"), "none");
    assert_eq!(get_string(&Value::Null, "name", ""), "");
}

#[test]
fn get_number_reads_a_number_or_gives_the_default() {
    assert_eq!(get_number(&sample(), "age", -1), 30);
    assert_eq!(get_number(&sample(), "name", -1), -1);
    assert_eq!(get_number(&sample(), "missing", -1), -1);
    assert_eq!(get_number(&Value::Number(5), "age", -1), -1);
}

#[test]
fn get_bool_reads_a_boolean_or_gives_the_default() {
    assert!(get_bool(&sample(), "admin", false));
    assert!(!get_bool(&sample(), "age", false));
    assert!(get_bool(&sample(), "missing", true));
}

#[test]
fn direct_projections_give_the_default_for_another_kind() {
    assert_eq!(Value::text("x").string_or("d"), "x");
    assert_eq!(Value::Number(1).string_or("d"), "d");
    assert_eq!(Value::Number(1).number_or(9), 1);
    assert_eq!(Value::Null.number_or(9), 9);
    assert!(Value::Bool(true).bool_or(false));
    assert!(!Value::text("true").bool_or(false));
}

#[test]
fn strict_fields_are_there_or_not() {
    assert_eq!(sample().text_field("name"), Some("alice"));
    assert_eq!(sample().text_field("age"), None);
    assert_eq!(sample().number_field("age"), Some(30));
    assert_eq!(sample().number_field("name"), None);
    assert_eq!(Value::Null.text_field("name"), None);
}

#[test]
fn set_keeps_the_order_of_the_keys() {
    match sample() {
        Value::Mapping(entries) => {
            let keys: Vec<&str> = entries.iter().map(|e| e.0.as_str()).collect();
            assert_eq!(keys, vec!["name", "age", "admin"]);
        }
        _ => panic!("a mapping"),
    }
}

#[test]
fn set_replaces_the_value_of_a_key_in_its_place() {
    let mut v = sample();
    v.set("age", Value::Number(31));
    match &v {
        Value::Mapping(entries) => {
            assert_eq!(entries.len(), 3);
            assert_eq!(entries[1].0, "age");
            assert_eq!(entries[1].1, Value::Number(31));
        }
        _ => panic!("a mapping"),
    }
}

#[test]
fn set_turns_another_value_into_a_mapping() {
    let mut v = Value::Number(1);
    v.set("a", Value::Null);
    assert_eq!(v, Value::single("a", Value::Null));
}

#[test]
fn get_finds_a_field() {
    assert_eq!(sample().get("age"), Some(&Value::Number(30)));
    assert_eq!(sample().get("missing"), None);
    assert_eq!(Value::Array(vec![]).get("age"), None);
}

#[test]
fn merged_puts_the_entries_of_the_second_into_the_first() {
    let mut extra = Value::mapping();
    extra.set("age", Value::Number(31));
    extra.set("city", Value::text("x"));
    let mut expected = Value::mapping();
    expected.set("name", Value::text("alice"));
    expected.set("age", Value::Number(31));
    expected.set("admin", Value::Bool(true));
    expected.set("city", Value::text("x"));
    assert_eq!(sample().merged(&extra), expected);
}

#[test]
fn merged_counts_what_is_no_mapping_as_empty() {
    assert_eq!(Value::Null.merged(&sample()), sample());
    assert_eq!(sample().merged(&Value::Null), sample());
    assert_eq!(Value::Number(1).merged(&Value::text("x")), Value::mapping());
}

#[test]
fn equality_is_structural() {
    assert_eq!(sample(), sample());
    assert_eq!(sample().clone(), sample());
    assert_ne!(Value::Number(1), Value::Number(2));
    assert_ne!(Value::Number(1), Value::text("1"));
    assert_ne!(Value::Null, Value::Bool(false));
    assert_eq!(Value::Bytes(vec![1, 2]), Value::Bytes(vec![1, 2]));
    assert_ne!(Value::Bytes(vec![1, 2]), Value::Bytes(vec![1]));
    assert_eq!(
        Value::Document(Box::new(Value::Array(vec![Value::Null]))),
        Value::Document(Box::new(Value::Array(vec![Value::Null])))
    );
    assert_ne!(Value::Document(Box::new(Value::Null)), Value::Null);
}

#[test]
fn equality_looks_at_the_order_of_items_and_keys() {
    assert_ne!(
        Value::Array(vec![Value::Number(1), Value::Number(2)]),
        Value::Array(vec![Value::Number(2), Value::Number(1)])
    );
    let mut ab = Value::mapping();
    ab.set("a", Value::Null);
    ab.set("b", Value::Null);
    let mut ba = Value::mapping();
    ba.set("b", Value::Null);
    ba.set("a", Value::Null);
    assert_ne!(ab, ba);
    assert!(!ab.equals(&ba));
}

#[test]
fn scalars_are_booleans_numbers_texts_and_bytes() {
    assert!(Value::Bool(false).is_scalar());
    assert!(Value::Number(0).is_scalar());
    assert!(Value::text("").is_scalar());
    assert!(Value::Bytes(vec![]).is_scalar());
    assert!(!Value::Null.is_scalar());
    assert!(!Value::Array(vec![]).is_scalar());
    assert!(!Value::mapping().is_scalar());
    assert!(!Value::Document(Box::new(Value::Number(1))).is_scalar());
}

#[test]
fn render_writes_a_value_out() {
    assert_eq!(Value::Null.render(), "null");
    assert_eq!(Value::Bool(true).render(), "true");
    assert_eq!(Value::Bool(false).render(), "false");
    assert_eq!(Value::Number(-42).render(), "-42");
    assert_eq!(Value::text("hi").render(), "\"hi\"");
    assert_eq!(Value::Bytes(vec![1, 2, 3]).render(), "bytes(3)");
    assert_eq!(Value::Array(vec![]).render(), "[]");
    assert_eq!(Value::Array(vec![Value::Number(1), Value::Null]).render(), "[1, null]");
    assert_eq!(Value::mapping().render(), "{}");
    assert_eq!(sample().render(), "{name: \"alice\", age: 30, admin: true}");
    assert_eq!(Value::Document(Box::new(Value::Array(vec![sample()]))).render(),
        "[{name: \"alice\", age: 30, admin: true}]");
}
