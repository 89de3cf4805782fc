use node_core::address::parse_address;
use node_core::error::DispatchError;
use node_core::text::{chars_of, decimal, digits_of, joined, normalized, same_text};

fn parts(text: &str) -> Option<(String, String)> {
    parse_address(text).ok().map(|a| (a.path, a.operation))
}

#[test]
fn normal_form_drops_the_slashes_at_both_ends() {
    assert_eq!(normalized("/services/data/"), "services/data");
    assert_eq!(normalized("///a//b///"), "a//b");
    assert_eq!(normalized("data"), "data");
}

#[test]
fn normal_form_of_slashes_is_empty() {
    assert_eq!(normalized(""), "");
    assert_eq!(normalized("/"), "");
    assert_eq!(normalized("////"), "");
}

#[test]
fn normal_form_is_its_own_normal_form() {
    for path in ["", "/", "a", "/a/", "//a/b//", "a/b"] {
        let once = normalized(path);
        assert_eq!(normalized(&once), once);
    }
}

#[test]
fn normal_form_keeps_characters_outside_ascii() {
    assert_eq!(normalized("/größe/ß/"), "größe/ß");
}

#[test]
fn address_is_path_and_operation() {
    assert_eq!(parts("data/transform"), Some(("data".to_string(), "transform".to_string())));
}

#[test]
fn address_ignores_slashes_at_its_ends() {
    assert_eq!(parts("/data/transform/"), Some(("data".to_string(), "transform".to_string())));
}

#[test]
fn operation_is_the_segment_behind_the_last_slash() {
    assert_eq!(
        parts("internal/registry/list_services"),
        Some(("internal/registry".to_string(), "list_services".to_string()))
    );
}

#[test]
fn path_of_an_address_is_in_normal_form() {
    assert_eq!(parts("a//b"), Some(("a".to_string(), "b".to_string())));
    assert_eq!(parts("/a/b///c/"), Some(("a/b".to_string(), "c".to_string())));
}

#[test]
fn address_without_an_inner_slash_is_refused() {
    for text in ["", "/", "//", "data", "/data", "data/", "/data/"] {
        assert_eq!(parse_address(text).err(), Some(DispatchError::AddressFormatError), "{}", text);
    }
}

#[test]
fn every_dispatch_error_has_a_message() {
    assert_eq!(
        DispatchError::AddressFormatError.message(),
        "address is not of the form <service>/<operation>"
    );
    assert_eq!(DispatchError::ServiceNotFound.message(), "service not found");
    assert_eq!(DispatchError::OperationNotFound.message(), "operation not found");
    assert_eq!(DispatchError::ServiceNotRunning.message(), "service is not running");
}

#[test]
fn decimal_writes_numbers_in_base_ten() {
    assert_eq!(decimal(0), "0");
    assert_eq!(decimal(7), "7");
    assert_eq!(decimal(10), "10");
    assert_eq!(decimal(-1), "-1");
    assert_eq!(decimal(1234567890), "1234567890");
    assert_eq!(decimal(i64::MAX), "9223372036854775807");
    assert_eq!(decimal(i64::MIN), "-9223372036854775808");
}

#[test]
fn digits_of_the_largest_number() {
    assert_eq!(digits_of(u64::MAX), "18446744073709551615");
    assert_eq!(digits_of(0), "0");
}

#[test]
fn same_text_compares_characters() {
    assert!(same_text("", ""));
    assert!(same_text("größe", "größe"));
    assert!(!same_text("a", "b"));
    assert!(!same_text("a", "ab"));
    assert!(!same_text("ab", "a"));
}

#[test]
fn chars_of_gives_the_characters_in_order() {
    assert_eq!(chars_of("aß/"), vec!['a', 'ß', '/']);
    assert!(chars_of("").is_empty());
}

#[test]
fn joined_puts_two_texts_together() {
    assert_eq!(joined("ab", "cd"), "abcd");
    assert_eq!(joined("", ""), "");
}
