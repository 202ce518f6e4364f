use std::cell::Cell;

use sgmlish::entities::{expand_characters, expand_entities, expand_parameter_entities, EntityError};
use sgmlish::Text;

fn assert_noop(s: &str) {
    let result = expand_characters(s);
    assert_eq!(result, Ok(s.into()));
}

#[test]
fn test_invalid_refs() {
    assert_noop("foo&");
    assert_noop("foo&&");
    assert_noop("foo&;bar");
    assert_noop("foo&&;bar");
    assert_noop("foo&#");
    assert_noop("foo&#;");
    assert_noop("foo&#;bar");
    assert_noop("foo&##bar");
}

#[test]
fn test_invalid_character_ref() {
    let result = expand_characters("foo&#x110000;bar");
    assert_eq!(
        result,
        Err(EntityError {
            entity: "#x110000".to_owned(),
            position: 3..13,
        })
    );
}

#[test]
fn test_expand_characters() {
    let result = expand_characters("f&#111o bar &#128523;");
    assert_eq!(result, Ok("foo bar \u{1f60b}".into()));
}

#[test]
fn test_expand_characters_hex() {
    let result = expand_characters("fo&#x6f; bar &#xFeFf;");
    assert_eq!(result, Ok("foo bar \u{feff}".into()));
}

#[test]
fn test_expand_characters_missing_semicolon() {
    let result = expand_characters("fo&#x6f bar &#xFeFf");
    assert_eq!(result, Ok("foo bar \u{feff}".into()));
}

#[test]
fn test_expand_entities_noop() {
    let result = expand_entities("this string has no references", |_| -> Option<String> {
        unreachable!()
    });
    assert!(matches!(result.unwrap(), Text::Borrowed(_)));
}

#[test]
fn test_expand_entities_lookup() {
    let result = expand_entities("test &foo;&bar.x; &baz&qu-ux\n", |key| match key {
        "foo" => Some("x".to_string()),
        "bar.x" => Some("y".to_string()),
        "baz" => Some("z".to_string()),
        "qu-ux" => Some("w".to_string()),
        x => panic!("unexpected reference: {:?}", x),
    });
    assert_eq!(result, Ok("test xy zw\n".into()));
}

#[test]
fn test_expand_entities_delegates_invalid_char_refs_to_closure() {
    let result = expand_entities(
        "test &#12345678&#x12345678 ok &#x &#xhello; &#xdeal",
        |key| Some(format!("({})", key)),
    );
    assert_eq!(
        result,
        Ok("test (#12345678)(#x12345678) ok (#x) (#xhello) (#xdeal)".into())
    );
}

#[test]
fn test_expand_entities_invalid_entity() {
    let result = expand_entities("test &foo;&bar;", |key| match key {
        "foo" => Some("x".to_string()),
        "bar" => None,
        x => panic!("unexpected reference: {:?}", x),
    });
    assert_eq!(
        result,
        Err(EntityError {
            entity: "bar".into(),
            position: 10..15,
        })
    );
}

#[test]
fn test_expand_entities_invalid_function() {
    let called = Cell::new(false);
    let result = expand_entities("foo&#test;bar", |x| {
        called.set(true);
        assert_eq!(x, "#test");
        None
    });
    assert!(called.get());
    assert_eq!(
        result,
        Err(EntityError {
            entity: "#test".into(),
            position: 3..10,
        })
    );
}

#[test]
fn test_expand_parameter_entities() {
    let result = expand_parameter_entities("CDATA %bar.baz ", |name| {
        assert_eq!(name, "bar.baz");
        Some("IGNORE".to_string())
    });
    assert_eq!(result, Ok("CDATA IGNORE ".into()));
}

#[test]
fn test_expand_parameter_entities_ignores_general_entities() {
    let result = expand_parameter_entities("foo &bar;", |_| -> Option<String> { unreachable!() });
    assert_eq!(result, Ok("foo &bar;".into()));
}

#[test]
fn test_expand_parameter_entities_does_not_work_on_character_references() {
    let result = expand_parameter_entities("foo %#32;", |_| None);
    assert_eq!(result, Ok("foo %#32;".into()));
}

#[test]
fn numeric_round_trip_decimal() {
    let result = expand_characters("&#60;hello&#44; world&#33;&#62;");
    assert_eq!(result, Ok("<hello, world!>".into()));
}

#[test]
fn named_entity_resolution() {
    let result = expand_entities("caf&eacute; &#9749;", |name| {
        if name == "eacute" {
            Some("é".to_string())
        } else {
            None
        }
    });
    assert_eq!(result, Ok("café ☕".into()));
}

#[test]
fn text_without_trigger_is_borrowed() {
    let input = "plain text; no references here";
    let result = expand_parameter_entities(input, |_| -> Option<String> { unreachable!() }).unwrap();
    assert!(result.is_borrowed());
    assert_eq!(result.as_str(), input);
    let result = expand_entities(input, |_| -> Option<String> { unreachable!() }).unwrap();
    assert!(matches!(result, Text::Borrowed(s) if std::ptr::eq(s, input)));
}

#[test]
fn trigger_without_reference_allocates_same_text() {
    for s in ["foo&&;bar", "foo&#;bar", "foo&##bar", "&", "a & b"] {
        let result = expand_characters(s).unwrap();
        assert!(!result.is_borrowed());
        assert_eq!(result.as_str(), s);
    }
}

#[test]
fn uppercase_hex_marker_and_surrogate() {
    assert_eq!(expand_characters("&#X41;"), Ok("A".into()));
    let result = expand_entities("&#xD800;", |n| Some(format!("[{}]", n)));
    assert_eq!(result, Ok("[#xD800]".into()));
}

#[test]
fn error_span_counts_bytes() {
    let result = expand_characters("é&x;");
    assert_eq!(
        result,
        Err(EntityError {
            entity: "x".into(),
            position: 2..5,
        })
    );
}

#[test]
fn parameter_reference_with_missing_entity() {
    let result = expand_parameter_entities("a %b; c", |_| None);
    assert_eq!(
        result,
        Err(EntityError {
            entity: "b".into(),
            position: 2..5,
        })
    );
}
