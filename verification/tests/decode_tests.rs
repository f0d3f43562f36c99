//! Tests for the two typed decoders.

use facebook_totem::parse_facebook_ads_response;
use facebook_totem::parse_facebook_search_response;
use facebook_totem::FacebookPage;
use facebook_totem::JsonValue;
use facebook_totem::TotemError;

fn create_test_facebook_page() -> FacebookPage {
    FacebookPage {
        page_id: Some("123456789".to_string()),
        page_name: Some("Test Page".to_string()),
        page_profile_picture_uri: Some("https://example.com/pic.jpg".to_string()),
        page_uri: Some("https://facebook.com/testpage".to_string()),
    }
}

#[test]
fn test_create_test_facebook_page() {
    let page = create_test_facebook_page();
    assert_eq!(page.page_id, Some("123456789".to_string()));
    assert_eq!(page.page_name, Some("Test Page".to_string()));
}

#[test]
fn test_parse_facebook_search_response() {
    let response_text = r#"for (;;);{"payload":{"pageResults":[{"pageID":"123","pageName":"Test Page","pageProfilePictureURI":"test.jpg","pageURI":"test"}]}}"#;
    let result = parse_facebook_search_response(response_text).unwrap();

    assert_eq!(result.len(), 1);
    assert_eq!(result[0].page_id, Some("123".to_string()));
    assert_eq!(result[0].page_name, Some("Test Page".to_string()));
}

#[test]
fn test_parse_facebook_ads_response() {
    let response_text = r#"for (;;);{"payload":{"results":[[{"ad_id":"123","content":"test ad"}]]}}"#;
    let result = parse_facebook_ads_response(response_text).unwrap();

    assert_eq!(result.len(), 1);
    let expected = JsonValue::Obj(vec![
        ("ad_id".to_string(), JsonValue::Str("123".to_string())),
        ("content".to_string(), JsonValue::Str("test ad".to_string())),
    ]);
    assert_eq!(result[0], expected);
}

#[test]
fn test_parse_responses_with_mock_data() {
    // Parsing without actual HTTP calls.
    let mock_search_response = r#"for (;;);{"payload":{"pageResults":[{"pageID":"123","pageName":"Test Page","pageProfilePictureURI":"test.jpg","pageURI":"test"}]}}"#;
    let result = parse_facebook_search_response(mock_search_response);
    assert!(result.is_ok());
    let pages = result.unwrap();
    assert_eq!(pages.len(), 1);
    assert_eq!(pages[0].page_id, Some("123".to_string()));

    let mock_ads_response = r#"for (;;);{"payload":{"results":[[{"ad_id":"123","content":"test ad"}]]}}"#;
    let result = parse_facebook_ads_response(mock_ads_response);
    assert!(result.is_ok());
    let ads = result.unwrap();
    assert_eq!(ads.len(), 1);
    match &ads[0] {
        JsonValue::Obj(fields) => {
            assert_eq!(fields[0].0, "ad_id");
            assert_eq!(fields[0].1, JsonValue::Str("123".to_string()));
        }
        other => panic!("expected an object record, got {:?}", other),
    }
}

#[test]
fn test_parse_facebook_responses_error_cases() {
    // Test with invalid JSON
    let result = parse_facebook_search_response("invalid json");
    assert!(result.is_err());

    // Test with missing fields
    let result = parse_facebook_search_response(r#"{"payload":{}}"#);
    assert!(result.is_err());

    // Test ads response with invalid JSON
    let result = parse_facebook_ads_response("invalid json");
    assert!(result.is_err());
}

#[test]
fn test_decode_errors_are_decode_error() {
    assert_eq!(
        parse_facebook_search_response("invalid json").unwrap_err(),
        TotemError::DecodeError
    );
    assert_eq!(
        parse_facebook_search_response(r#"{"payload":{}}"#).unwrap_err(),
        TotemError::DecodeError
    );
    assert_eq!(
        parse_facebook_ads_response(r#"{"payload":{}}"#).unwrap_err(),
        TotemError::DecodeError
    );
    // A wrongly typed page field is also a decode error.
    assert_eq!(
        parse_facebook_search_response(r#"{"payload":{"pageResults":[{"pageID":5}]}}"#)
            .unwrap_err(),
        TotemError::DecodeError
    );
}

#[test]
fn test_search_decode_preserves_order_and_optional_fields() {
    let text = r#"{"payload":{"pageResults":[{"pageName":"A"},{"pageID":"2","pageName":"B"},{"pageID":null}]}}"#;
    let pages = parse_facebook_search_response(text).unwrap();
    assert_eq!(pages.len(), 3);
    assert_eq!(pages[0].page_id, None);
    assert_eq!(pages[0].page_name, Some("A".to_string()));
    assert_eq!(pages[1].page_id, Some("2".to_string()));
    assert_eq!(pages[1].page_name, Some("B".to_string()));
    assert_eq!(pages[2].page_id, None);
    assert_eq!(pages[2].page_name, None);
}

#[test]
fn test_search_decode_empty_results() {
    // A present but empty list decodes to an empty sequence, not an error.
    let pages = parse_facebook_search_response(r#"{"payload":{"pageResults":[]}}"#).unwrap();
    assert_eq!(pages.len(), 0);
}

#[test]
fn test_ads_flatten_group_order() {
    // Groups of sizes [2, 1, 3] flatten to six records, group order first.
    let text = r#"{"payload":{"results":[["a","b"],["c"],["d","e","f"]]}}"#;
    let ads = parse_facebook_ads_response(text).unwrap();
    assert_eq!(ads.len(), 6);
    let expected: Vec<JsonValue> = vec!["a", "b", "c", "d", "e", "f"]
        .into_iter()
        .map(|s| JsonValue::Str(s.to_string()))
        .collect();
    assert_eq!(ads, expected);
}

#[test]
fn test_ads_group_must_be_array() {
    let text = r#"{"payload":{"results":["not a group"]}}"#;
    assert_eq!(
        parse_facebook_ads_response(text).unwrap_err(),
        TotemError::DecodeError
    );
}

#[test]
fn test_full_workflow_with_mocks() {
    let html = r#"<html>some content[{"pageID":"123456789","other":"data"}]more content</html>"#;
    let id = facebook_totem::extract_page_id_from_html(html).unwrap();
    assert_eq!(id, "123456789");

    let ads_response = r#"for (;;);{"payload":{"results":[[{"ad_id":"123"}]]}}"#;
    let ads = parse_facebook_ads_response(ads_response).unwrap();
    match &ads[0] {
        JsonValue::Obj(fields) => {
            assert_eq!(fields[0].0, "ad_id");
            assert_eq!(fields[0].1, JsonValue::Str("123".to_string()));
        }
        other => panic!("expected an object record, got {:?}", other),
    }
}
