//! File-backed mappings: content parsing, freshness, and the error taxonomy
//! of the on-disk format.

use viceroy_lib::error::GeoIPConfigError;
use viceroy_lib::geoip::{ConfigValue, GeoIPMapping};
use viceroy_lib::ip::parse_ip_address;

fn json_mapping() -> GeoIPMapping {
    let t: Vec<(String, ConfigValue)> = vec![
        (
            "format".to_string(),
            ConfigValue::Str("json".to_string()),
        ),
        (
            "file".to_string(),
            ConfigValue::Str("geoip.json".to_string()),
        ),
    ];
    GeoIPMapping::from_config(&t).unwrap()
}

#[test]
fn empty_object_has_no_entries() {
    let entries = GeoIPMapping::read_json_contents("{}").unwrap();
    assert_eq!(entries.len(), 0);
    let mapping = json_mapping();
    let key = parse_ip_address("127.0.0.1").unwrap();
    assert!(mapping.get(&key, Some("{}")).unwrap().is_none());
}

#[test]
fn lookup_reflects_an_edit_without_restart() {
    // The mapping stores only the path: each lookup is a function of the
    // text read for that call, so an edit shows up in the next lookup.
    let mapping = json_mapping();
    let key = parse_ip_address("10.0.0.1").unwrap();
    let before = "{}";
    let after = "{\"10.0.0.1\": {\"animal\": \"dog\"}}";
    assert!(mapping.get(&key, Some(before)).unwrap().is_none());
    let record = mapping.get(&key, Some(after)).unwrap().unwrap();
    assert_eq!(record.to_string(), "{\"animal\":\"dog\"}");
    assert!(mapping.get(&key, Some(before)).unwrap().is_none());
}

#[test]
fn unreadable_file_is_an_error_not_stale_data() {
    let mapping = json_mapping();
    let key = parse_ip_address("10.0.0.1").unwrap();
    assert_eq!(
        mapping.get(&key, None).unwrap_err(),
        GeoIPConfigError::IoError
    );
}

#[test]
fn malformed_file_errors() {
    for bad in ["", "not json", "[1, 2]", "\"text\"", "{\"10.0.0.1\": {}",
        "{} trailing"] {
        assert_eq!(
            GeoIPMapping::read_json_contents(bad).unwrap_err(),
            GeoIPConfigError::GeoIPFileWrongFormat,
            "content: {bad}"
        );
    }
}

#[test]
fn non_object_entry_is_invalid() {
    let r = GeoIPMapping::read_json_contents("{\"10.0.0.1\": 5}");
    assert_eq!(r.unwrap_err(), GeoIPConfigError::InvalidInlineEntryType);
    let r = GeoIPMapping::read_json_contents("{\"10.0.0.1\": null}");
    assert_eq!(r.unwrap_err(), GeoIPConfigError::InvalidInlineEntryType);
    let r = GeoIPMapping::read_json_contents("{\"10.0.0.1\": {\"f\": [1]}}");
    assert_eq!(r.unwrap_err(), GeoIPConfigError::InvalidInlineEntryType);
}

#[test]
fn bad_address_key_is_invalid() {
    let r = GeoIPMapping::read_json_contents("{\"localhost\": {}}");
    assert_eq!(r.unwrap_err(), GeoIPConfigError::InvalidAddressEntry);
}

#[test]
fn file_scalars_round_trip() {
    let content = "{\"2001:db8::1\": {\"s\": \"a\\\"b\\\\c\\nd\", \"n\": -1.5e3, \"t\": true, \"f\": false}}";
    let key = parse_ip_address("2001:db8::1").unwrap();
    let mapping = json_mapping();
    let record = mapping.get(&key, Some(content)).unwrap().unwrap();
    assert_eq!(
        record.to_string(),
        "{\"s\":\"a\\\"b\\\\c\\u000ad\",\"n\":-1.5e3,\"t\":true,\"f\":false}"
    );
}

#[test]
fn unicode_escapes_decode_and_reencode() {
    let content = "{\"10.0.0.1\": {\"s\": \"caf\\u00e9\"}}";
    let key = parse_ip_address("10.0.0.1").unwrap();
    let record = json_mapping().get(&key, Some(content)).unwrap().unwrap();
    assert_eq!(record.to_string(), "{\"s\":\"caf\\u00e9\"}");
}
