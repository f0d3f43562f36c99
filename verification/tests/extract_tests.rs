//! Tests for the token extractor and the response normalizer.

use facebook_totem::extract_page_id_from_html;
use facebook_totem::normalize_response;
use facebook_totem::TotemError;

#[test]
fn test_extract_page_id_from_html() {
    let html = r#"<html>some content[{"pageID":"123456789","other":"data"}]more content</html>"#;
    let result = extract_page_id_from_html(html).unwrap();
    assert_eq!(result, "123456789");
}

#[test]
fn test_extract_page_id_from_html_not_found() {
    let html = r#"<html>no page id here</html>"#;
    let result = extract_page_id_from_html(html);
    assert!(result.is_err());
}

#[test]
fn test_extract_page_id_error_cases() {
    // Test with empty string
    let result = extract_page_id_from_html("");
    assert!(result.is_err());

    // Test with invalid HTML
    let result = extract_page_id_from_html("<html>no page id</html>");
    assert!(result.is_err());

    // Test with malformed page ID
    let result = extract_page_id_from_html(r#"[{"pageID":""#);
    assert!(result.is_err());
}

#[test]
fn test_extract_error_kind_and_message() {
    let err = extract_page_id_from_html("nothing here").unwrap_err();
    assert_eq!(err, TotemError::NotFound);
    assert_eq!(err.message(), "could not find the requested token");
}

#[test]
fn test_extract_empty_value() {
    // The marker immediately followed by the closing quote yields an empty
    // span, which is not an error.
    let html = r#"prefix[{"pageID":""}]suffix"#;
    let result = extract_page_id_from_html(html).unwrap();
    assert_eq!(result, "");
}

#[test]
fn test_extract_takes_first_marker() {
    let html = r#"[{"pageID":"first"} and [{"pageID":"second"}"#;
    let result = extract_page_id_from_html(html).unwrap();
    assert_eq!(result, "first");
}

#[test]
fn test_extract_with_multibyte_text_around_marker() {
    let html = "caf\u{e9} \u{1f600} [{\"pageID\":\"42\"} caf\u{e9}";
    let result = extract_page_id_from_html(html).unwrap();
    assert_eq!(result, "42");
}

#[test]
fn test_normalize_strips_prefix() {
    let text = r#"for (;;);{"payload":{}}"#;
    assert_eq!(normalize_response(text), r#"{"payload":{}}"#);
}

#[test]
fn test_normalize_strips_all_occurrences() {
    let text = "for (;;);abcfor (;;);def";
    assert_eq!(normalize_response(text), "abcdef");
}

#[test]
fn test_normalize_without_prefix_unchanged() {
    let text = r#"{"payload":{"results":[]}}"#;
    assert_eq!(normalize_response(text), text);
}

#[test]
fn test_normalize_idempotent_concrete() {
    let text = r#"for (;;);{"a":"for once"}"#;
    let once = normalize_response(text);
    let twice = normalize_response(&once);
    assert_eq!(twice, once);
}

#[test]
fn test_normalize_can_splice_new_occurrence() {
    // Removing an occurrence can splice a fresh one together out of its
    // surroundings; one pass removes only what it finds in a single scan.
    let text = "fofor (;;);r (;;);";
    let once = normalize_response(text);
    assert_eq!(once, "for (;;);");
    let twice = normalize_response(&once);
    assert_eq!(twice, "");
}
