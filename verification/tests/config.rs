//! Configuration-fragment loading and lookups against the built mappings.

use viceroy_lib::error::{FastlyConfigError, GeoIPConfigError};
use viceroy_lib::geoip::{ConfigValue, GeoIPMapping};
use viceroy_lib::ip::{parse_ip_address, IpKey};
use viceroy_lib::scalar::ScalarValue;

fn table(entries: Vec<(&str, ConfigValue)>) -> Vec<(String, ConfigValue)> {
    entries.into_iter().map(|(k, v)| (k.to_string(), v)).collect()
}

fn err_of(r: Result<GeoIPMapping, FastlyConfigError>) -> GeoIPConfigError {
    match r {
        Err(FastlyConfigError::InvalidGeoIPDefinition { name, err }) => {
            assert_eq!(name, "geoip_mapping");
            err
        }
        Ok(_) => panic!("expected a configuration error"),
    }
}

fn animal_record(animal: &str, sound: &str) -> ConfigValue {
    ConfigValue::Table(table(vec![
        ("animal", ConfigValue::Str(animal.to_string())),
        ("sound", ConfigValue::Str(sound.to_string())),
    ]))
}

fn inline_animals() -> Vec<(String, ConfigValue)> {
    table(vec![
        ("format", ConfigValue::Str("inline-toml".to_string())),
        (
            "addresses",
            ConfigValue::Table(table(vec![
                ("127.0.0.1", animal_record("dog", "woof")),
                ("192.168.0.2", animal_record("cat", "meow")),
            ])),
        ),
    ])
}

#[test]
fn inline_toml_config_store_lookup_works() {
    let mapping = GeoIPMapping::from_config(&inline_animals()).unwrap();
    let key = parse_ip_address("127.0.0.1").unwrap();
    let record = mapping.get(&key, None).unwrap().unwrap();
    assert_eq!(record.to_string(), "{\"animal\":\"dog\",\"sound\":\"woof\"}");
    let key2 = parse_ip_address("192.168.0.2").unwrap();
    let record2 = mapping.get(&key2, None).unwrap().unwrap();
    assert_eq!(record2.to_string(), "{\"animal\":\"cat\",\"sound\":\"meow\"}");
}

#[test]
fn json_config_store_lookup_works() {
    let mapping = GeoIPMapping::from_config(&table(vec![
        ("format", ConfigValue::Str("json".to_string())),
        ("file", ConfigValue::Str("geoip.json".to_string())),
    ]))
    .unwrap();
    let content = "{\"10.0.0.1\": {\"animal\": \"dog\", \"sound\": \"woof\"}}";
    let key = parse_ip_address("10.0.0.1").unwrap();
    let record = mapping.get(&key, Some(content)).unwrap().unwrap();
    assert_eq!(record.to_string(), "{\"animal\":\"dog\",\"sound\":\"woof\"}");
}

#[test]
fn missing_config_store_works() {
    // A fragment with no discriminator activates no mapping: the module that
    // requires it observes the failure through its own error path.
    let r = GeoIPMapping::from_config(&table(vec![]));
    assert_eq!(err_of(r), GeoIPConfigError::MissingFormat);
}

#[test]
fn inline_lookup_by_each_key_and_absence() {
    let mapping = GeoIPMapping::from_config(&inline_animals()).unwrap();
    for (text, expected) in [
        ("127.0.0.1", "{\"animal\":\"dog\",\"sound\":\"woof\"}"),
        ("192.168.0.2", "{\"animal\":\"cat\",\"sound\":\"meow\"}"),
    ] {
        let key = parse_ip_address(text).unwrap();
        let record = mapping.get(&key, None).unwrap().unwrap();
        assert_eq!(record.to_string(), expected);
    }
    let other = parse_ip_address("10.9.9.9").unwrap();
    assert!(mapping.get(&other, None).unwrap().is_none());
}

#[test]
fn repeated_lookups_return_the_same_record() {
    // The context is immutable after construction: every one of many
    // lookups observes the identical, unmutated value.
    let mapping = GeoIPMapping::from_config(&inline_animals()).unwrap();
    let key = parse_ip_address("127.0.0.1").unwrap();
    for _ in 0..100 {
        let record = mapping.get(&key, None).unwrap().unwrap();
        assert_eq!(record.to_string(), "{\"animal\":\"dog\",\"sound\":\"woof\"}");
    }
}

#[test]
fn format_errors() {
    let r = GeoIPMapping::from_config(&table(vec![("format", ConfigValue::Int(3))]));
    assert_eq!(err_of(r), GeoIPConfigError::InvalidFormatEntry);
    let r = GeoIPMapping::from_config(&table(vec![("format", ConfigValue::Str("".into()))]));
    assert_eq!(err_of(r), GeoIPConfigError::EmptyFormatEntry);
    let r = GeoIPMapping::from_config(&table(vec![(
        "format",
        ConfigValue::Str("yaml".to_string()),
    )]));
    assert_eq!(err_of(r), GeoIPConfigError::InvalidGeoIPMappingFormat);
}

#[test]
fn inline_errors() {
    let r = GeoIPMapping::from_config(&table(vec![(
        "format",
        ConfigValue::Str("inline-toml".to_string()),
    )]));
    assert_eq!(err_of(r), GeoIPConfigError::MissingAddresses);

    let r = GeoIPMapping::from_config(&table(vec![
        ("format", ConfigValue::Str("inline-toml".to_string())),
        ("addresses", ConfigValue::Str("nope".to_string())),
    ]));
    assert_eq!(err_of(r), GeoIPConfigError::InvalidAddressesType);

    let r = GeoIPMapping::from_config(&table(vec![
        ("format", ConfigValue::Str("inline-toml".to_string())),
        (
            "addresses",
            ConfigValue::Table(table(vec![(
                "127.0.0.1",
                ConfigValue::Str("not a record".to_string()),
            )])),
        ),
    ]));
    assert_eq!(err_of(r), GeoIPConfigError::InvalidInlineEntryType);

    let nested = ConfigValue::Table(table(vec![(
        "inner",
        ConfigValue::Table(table(vec![("x", ConfigValue::Int(1))])),
    )]));
    let r = GeoIPMapping::from_config(&table(vec![
        ("format", ConfigValue::Str("inline-toml".to_string())),
        (
            "addresses",
            ConfigValue::Table(table(vec![("127.0.0.1", nested)])),
        ),
    ]));
    assert_eq!(err_of(r), GeoIPConfigError::InvalidInlineEntryType);

    let r = GeoIPMapping::from_config(&table(vec![
        ("format", ConfigValue::Str("inline-toml".to_string())),
        (
            "addresses",
            ConfigValue::Table(table(vec![("not-an-ip", animal_record("dog", "woof"))])),
        ),
    ]));
    assert_eq!(err_of(r), GeoIPConfigError::InvalidAddressEntry);
}

#[test]
fn file_entry_errors() {
    let r = GeoIPMapping::from_config(&table(vec![(
        "format",
        ConfigValue::Str("json".to_string()),
    )]));
    assert_eq!(err_of(r), GeoIPConfigError::MissingFile);

    let r = GeoIPMapping::from_config(&table(vec![
        ("format", ConfigValue::Str("json".to_string())),
        ("file", ConfigValue::Str("".to_string())),
    ]));
    assert_eq!(err_of(r), GeoIPConfigError::EmptyFileEntry);

    let r = GeoIPMapping::from_config(&table(vec![
        ("format", ConfigValue::Str("json".to_string())),
        ("file", ConfigValue::Bool(true)),
    ]));
    assert_eq!(err_of(r), GeoIPConfigError::InvalidFileEntry);
}

#[test]
fn inline_scalar_kinds_serialize() {
    let fields = ConfigValue::Table(table(vec![
        ("name", ConfigValue::Str("x".to_string())),
        ("count", ConfigValue::Int(-3)),
        ("ratio", ConfigValue::Float("3.25".to_string())),
        ("good", ConfigValue::Bool(true)),
    ]));
    let mapping = GeoIPMapping::from_config(&table(vec![
        ("format", ConfigValue::Str("inline-toml".to_string())),
        (
            "addresses",
            ConfigValue::Table(table(vec![("10.0.0.1", fields)])),
        ),
    ]))
    .unwrap();
    let key = parse_ip_address("10.0.0.1").unwrap();
    let record = mapping.get(&key, None).unwrap().unwrap();
    assert_eq!(
        record.to_string(),
        "{\"name\":\"x\",\"count\":-3,\"ratio\":3.25,\"good\":true}"
    );
}

#[test]
fn inline_unrenderable_number_is_rejected() {
    let fields = ConfigValue::Table(table(vec![(
        "ratio",
        ConfigValue::Float("NaN".to_string()),
    )]));
    let r = GeoIPMapping::from_config(&table(vec![
        ("format", ConfigValue::Str("inline-toml".to_string())),
        (
            "addresses",
            ConfigValue::Table(table(vec![("10.0.0.1", fields)])),
        ),
    ]));
    assert_eq!(err_of(r), GeoIPConfigError::InvalidInlineEntryType);
}

#[test]
fn record_insert_replaces_by_name() {
    let mut record = viceroy_lib::geoip::GeoIPData::new();
    record.insert("a".to_string(), ScalarValue::Str("1".to_string()));
    record.insert("b".to_string(), ScalarValue::Bool(false));
    record.insert("a".to_string(), ScalarValue::Str("2".to_string()));
    assert_eq!(record.to_string(), "{\"a\":\"2\",\"b\":false}");
}

#[test]
fn mapping_key_kinds() {
    assert_eq!(parse_ip_address("127.0.0.1").unwrap(), IpKey::V4(0x7F000001));
    assert_eq!(parse_ip_address("::1").unwrap(), IpKey::V6(1));
    assert!(parse_ip_address("256.1.1.1").is_err());
}
