//! Tests for the tabular exporter, the form data, and the CSV round trip.

use facebook_totem::build_facebook_form_data;
use facebook_totem::json_to_csv_text;
use facebook_totem::page_from_json;
use facebook_totem::pages_to_csv_text;
use facebook_totem::pages_to_records;
use facebook_totem::parse_facebook_ads_response;
use facebook_totem::FacebookPage;
use facebook_totem::JsonValue;

fn obj(fields: Vec<(&str, JsonValue)>) -> JsonValue {
    JsonValue::Obj(
        fields
            .into_iter()
            .map(|(k, v)| (k.to_string(), v))
            .collect(),
    )
}

#[test]
fn test_write_json_to_csv() {
    let data = vec![
        obj(vec![
            ("name", JsonValue::Str("John".to_string())),
            ("age", JsonValue::Num("30".to_string())),
        ]),
        obj(vec![
            ("name", JsonValue::Str("Jane".to_string())),
            ("age", JsonValue::Num("25".to_string())),
        ]),
    ];

    let file_content = json_to_csv_text(&data);

    assert!(file_content.contains("name,age") || file_content.contains("age,name"));
    assert!(file_content.contains("John,30") || file_content.contains("30,John"));
    assert!(file_content.contains("Jane,25") || file_content.contains("25,Jane"));
}

#[test]
fn test_write_facebook_pages_to_csv() {
    let pages = vec![FacebookPage {
        page_id: Some("123".to_string()),
        page_name: Some("Test Page".to_string()),
        page_profile_picture_uri: Some("test.jpg".to_string()),
        page_uri: Some("test_uri".to_string()),
    }];

    let file_content = pages_to_csv_text(&pages);

    assert!(file_content.contains("123"));
    assert!(file_content.contains("Test Page"));
}

#[test]
fn test_csv_writing_with_empty_data() {
    // Test with empty data
    let empty_data: Vec<JsonValue> = vec![];
    let content = json_to_csv_text(&empty_data);

    // The output should be empty: no header, no rows.
    assert!(content.is_empty());
}

#[test]
fn test_build_facebook_form_data() {
    let data = build_facebook_form_data();
    let map: std::collections::HashMap<String, String> = data.into_iter().collect();

    assert_eq!(map.get("__user"), Some(&"0".to_string()));
    assert_eq!(map.get("__a"), Some(&"1".to_string()));
    assert_eq!(map.get("__spin_b"), Some(&"trunk".to_string()));
    assert!(map.contains_key("__dyn"));
    assert!(map.contains_key("lsd"));
}

#[test]
fn test_facebook_page_serialization() {
    let page = FacebookPage {
        page_id: Some("123".to_string()),
        page_name: Some("Test Page".to_string()),
        page_profile_picture_uri: Some("test.jpg".to_string()),
        page_uri: Some("test_uri".to_string()),
    };

    let records = pages_to_records(&vec![page.clone()]);
    let deserialized = page_from_json(&records[0]).unwrap();

    assert_eq!(page, deserialized);
}

#[test]
fn test_export_exact_text_and_cell_coercion() {
    // One record with every scalar shape: string, number, boolean, null.
    let data = vec![obj(vec![
        ("s", JsonValue::Str("plain".to_string())),
        ("n", JsonValue::Num("30".to_string())),
        ("b", JsonValue::Bool(true)),
        ("z", JsonValue::Null),
    ])];
    let text = json_to_csv_text(&data);
    assert_eq!(text, "s,n,b,z\nplain,30,true,\n");
}

#[test]
fn test_export_quotes_special_fields() {
    let data = vec![obj(vec![
        ("a", JsonValue::Str("with,comma".to_string())),
        ("b", JsonValue::Str("with \"quote\"".to_string())),
        ("c", JsonValue::Str("with\nnewline".to_string())),
        ("d", JsonValue::Str("with\rreturn".to_string())),
    ])];
    let text = json_to_csv_text(&data);
    assert_eq!(
        text,
        "a,b,c,d\n\"with,comma\",\"with \"\"quote\"\"\",\"with\nnewline\",\"with\rreturn\"\n"
    );
}

#[test]
fn test_export_drops_extra_columns() {
    // The first record fixes the columns; a later extra field is dropped and
    // a missing one renders as an empty cell.
    let data = vec![
        obj(vec![
            ("a", JsonValue::Str("1".to_string())),
            ("b", JsonValue::Str("2".to_string())),
        ]),
        obj(vec![
            ("a", JsonValue::Str("3".to_string())),
            ("b", JsonValue::Str("4".to_string())),
            ("c", JsonValue::Str("5".to_string())),
        ]),
        obj(vec![("b", JsonValue::Str("6".to_string()))]),
    ];
    let text = json_to_csv_text(&data);
    assert_eq!(text, "a,b\n1,2\n3,4\n,6\n");
}

#[test]
fn test_export_skips_non_object_records() {
    let data = vec![
        obj(vec![("a", JsonValue::Str("1".to_string()))]),
        JsonValue::Str("not an object".to_string()),
        obj(vec![("a", JsonValue::Str("2".to_string()))]),
    ];
    let text = json_to_csv_text(&data);
    assert_eq!(text, "a\n1\n2\n");
}

#[test]
fn test_export_non_object_first_record() {
    let data = vec![
        JsonValue::Str("not an object".to_string()),
        obj(vec![("a", JsonValue::Str("1".to_string()))]),
    ];
    let text = json_to_csv_text(&data);
    assert!(text.is_empty());
}

#[test]
fn test_export_structured_cell_reencoded() {
    // An array value is re-encoded as its JSON text in the cell. The parser
    // hands object fields over in sorted key order.
    let text = r#"{"payload":{"results":[[{"xs":[1,2],"o":{"k":"v"}}]]}}"#;
    let ads = parse_facebook_ads_response(text).unwrap();
    let out = json_to_csv_text(&ads);
    assert_eq!(out, "o,xs\n\"{\"\"k\"\":\"\"v\"\"}\",\"[1,2]\"\n");
}

#[test]
fn test_export_then_reimport_round_trip() {
    // Export one mapping with only scalar fields, then parse the CSV back
    // and compare the string-coerced values.
    let data = vec![obj(vec![
        ("s", JsonValue::Str("hello, \"world\"".to_string())),
        ("n", JsonValue::Num("-2.5".to_string())),
        ("b", JsonValue::Bool(false)),
        ("z", JsonValue::Null),
    ])];
    let text = json_to_csv_text(&data);

    let mut rdr = csv::ReaderBuilder::new()
        .has_headers(true)
        .from_reader(text.as_bytes());
    let headers: Vec<String> = rdr
        .headers()
        .unwrap()
        .iter()
        .map(|h| h.to_string())
        .collect();
    assert_eq!(headers, vec!["s", "n", "b", "z"]);

    let rows: Vec<Vec<String>> = rdr
        .records()
        .map(|r| r.unwrap().iter().map(|f| f.to_string()).collect())
        .collect();
    assert_eq!(rows.len(), 1);
    assert_eq!(
        rows[0],
        vec![
            "hello, \"world\"".to_string(),
            "-2.5".to_string(),
            "false".to_string(),
            "".to_string(),
        ]
    );
}

#[test]
fn test_export_single_empty_cell_is_quoted() {
    // A row that is one single empty cell is written as an explicitly
    // quoted empty field, so the line is not blank.
    let data = vec![obj(vec![("a", JsonValue::Null)])];
    let text = json_to_csv_text(&data);
    assert_eq!(text, "a\n\"\"\n");
}

#[test]
fn test_export_empty_object_record() {
    let data = vec![JsonValue::Obj(vec![])];
    let text = json_to_csv_text(&data);
    assert_eq!(text, "\"\"\n\"\"\n");
}

#[test]
fn test_number_rendering_through_parse() {
    // Numbers keep their canonical decimal text through parse and export.
    let text = r#"{"payload":{"results":[[{"count":30,"ratio":0.5}]]}}"#;
    let ads = parse_facebook_ads_response(text).unwrap();
    let out = json_to_csv_text(&ads);
    assert_eq!(out, "count,ratio\n30,0.5\n");
}
