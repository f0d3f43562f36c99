//! Client library for a social-media ads-library endpoint: extracting a page
//! identifier from raw HTML, stripping the anti-hijacking prefix from JSON
//! responses, decoding the search and ads payload shapes, and exporting
//! record sequences to CSV text.

mod csv_out;
mod csv_parse;
mod decode;
mod error;
mod extract;
mod form;
mod json;
mod normalize;
mod text;

pub use csv_out::cell_of;
pub use csv_out::cell_of_lookup;
pub use csv_out::lemma_view_strings_index;
pub use csv_out::opt_str_val;
pub use csv_out::view_strings;
pub use csv_out::csv_escape;
pub use csv_out::csv_field_enc;
pub use csv_out::csv_joined;
pub use csv_out::csv_line_spec;
pub use csv_out::csv_needs_quotes;
pub use csv_out::csv_text_of;
pub use csv_out::headers_of;
pub use csv_out::json_to_csv_text;
pub use csv_out::lemma_export_empty;
pub use csv_out::lemma_extra_field_dropped;
pub use csv_out::lemma_page_record_round_trip;
pub use csv_out::lemma_row_matches_headers;
pub use csv_out::page_record_of;
pub use csv_out::pages_to_csv_text;
pub use csv_out::pages_to_records;
pub use csv_out::records_of_pages;
pub use csv_out::row_of;
pub use csv_out::rows_text;
pub use csv_parse::lemma_csv_line_round_trip;
pub use csv_parse::lemma_export_single_record_round_trip;
pub use csv_parse::parse_csv_line;
pub use csv_parse::parse_fields;
pub use csv_parse::parse_quoted;
pub use csv_parse::parse_unquoted;
pub use csv_parse::scalar;
pub use decode::ads_groups_of;
pub use decode::groups_of_items;
pub use decode::lemma_view_groups_index;
pub use decode::lemma_view_pages_index;
pub use decode::page_field_of;
pub use decode::view_groups;
pub use decode::view_opt_string;
pub use decode::decode_ads;
pub use decode::decode_search;
pub use decode::flatten_ads;
pub use decode::lemma_ads_flatten_three_groups;
pub use decode::lemma_search_preserves_pages;
pub use decode::page_from_json;
pub use decode::page_of_json;
pub use decode::pages_of_items;
pub use decode::parse_facebook_ads_response;
pub use decode::parse_facebook_search_response;
pub use decode::search_pages_of;
pub use decode::view_pages;
pub use decode::FacebookAdsPayload;
pub use decode::FacebookAdsResponse;
pub use decode::FacebookPage;
pub use decode::FacebookPageSearchPayload;
pub use decode::FacebookPageSearchResponse;
pub use decode::PageV;
pub use error::TotemError;
pub use extract::extract_page_id_from_html;
pub use extract::extract_spec;
pub use extract::find_char_from;
pub use extract::find_marker_from;
pub use extract::has_marker;
pub use extract::marker_at;
pub use extract::lemma_extract_finds_value;
pub use extract::lemma_extract_without_marker;
pub use extract::page_id_marker;
pub use form::build_facebook_form_data;
pub use form::form_data_model;
pub use form::lemma_view_string_pairs_index;
pub use form::view_string_pairs;
pub use json::json_of;
pub use json::lemma_obj_lookup_hit;
pub use json::lemma_view_fields_index;
pub use json::lemma_view_items_index;
pub use json::view_fields;
pub use json::view_items;
pub use json::json_text_of;
pub use json::obj_get;
pub use json::obj_lookup;
pub use json::JVal;
pub use json::JsonValue;
pub use normalize::contains_hijack;
pub use normalize::hijack_at;
pub use normalize::hijack_prefix;
pub use normalize::lemma_strip_idempotent;
pub use normalize::lemma_strip_no_hijack;
pub use normalize::normalize_response;
pub use normalize::strip_spec;
