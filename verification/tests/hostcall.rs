//! The geolocation hostcall against guest memory: decode, lookup, serialize,
//! capacity check, commit — and the status codes crossing the boundary.

use viceroy_lib::error::Error;
use viceroy_lib::geo_impl::{FastlyStatus, GeolocationError};
use viceroy_lib::geoip::{ConfigValue, GeoIPMapping};
use viceroy_lib::ip::{format_ip, parse_ip_address, IpKey};
use viceroy_lib::memory::GuestMemory;
use viceroy_lib::session::{ExecuteCtx, Session};
use viceroy_lib::service::ViceroyService;

fn table(entries: Vec<(&str, ConfigValue)>) -> Vec<(String, ConfigValue)> {
    entries.into_iter().map(|(k, v)| (k.to_string(), v)).collect()
}

/// A context with one inline record for 127.0.0.1: {"animal":"dog"}.
fn ctx() -> ExecuteCtx {
    let mapping = GeoIPMapping::from_config(&table(vec![
        ("format", ConfigValue::Str("inline-toml".to_string())),
        (
            "addresses",
            ConfigValue::Table(table(vec![(
                "127.0.0.1",
                ConfigValue::Table(table(vec![(
                    "animal",
                    ConfigValue::Str("dog".to_string()),
                )])),
            )])),
        ),
    ]))
    .unwrap();
    ExecuteCtx::new(mapping)
}

fn session() -> Session {
    Session::new(ctx(), IpKey::V4(0x7F000001))
}

/// Memory whose first four bytes name 127.0.0.1, the rest zero.
fn memory(size: usize) -> GuestMemory {
    let mut bytes = vec![0u8; size];
    bytes[0] = 127;
    bytes[3] = 1;
    GuestMemory::from_bytes(bytes)
}

const EXPECTED: &str = "{\"animal\":\"dog\"}";

#[test]
fn lookup_commits_bytes_and_length() {
    let s = session();
    let mut mem = memory(64);
    let r = s.lookup(&mut mem, 0, 4, 10, 40, 4, None);
    assert!(r.is_ok());
    let bytes = mem.into_bytes();
    let n = EXPECTED.len();
    assert_eq!(&bytes[10..10 + n], EXPECTED.as_bytes());
    assert_eq!(
        u32::from_le_bytes([bytes[4], bytes[5], bytes[6], bytes[7]]),
        n as u32
    );
}

#[test]
fn buffer_too_small_leaves_memory_untouched() {
    let s = session();
    let mut mem = memory(64);
    let before = memory(64).into_bytes();
    let r = s.lookup(&mut mem, 0, 4, 10, 5, 4, None);
    assert!(matches!(r, Err(Error::BufferLengthError { .. })));
    assert_eq!(mem.into_bytes(), before);
}

#[test]
fn invalid_input_length_fails_before_any_lookup() {
    let s = session();
    let mut mem = memory(64);
    let before = memory(64).into_bytes();
    for bad_len in [0u32, 3, 5, 15, 17] {
        let r = s.lookup(&mut mem, 0, bad_len, 10, 40, 4, None);
        assert!(matches!(r, Err(Error::InvalidArgument)), "len {bad_len}");
    }
    assert_eq!(mem.into_bytes(), before);
}

#[test]
fn out_of_bounds_descriptor_is_a_structured_error() {
    let s = session();
    let mut mem = memory(8);
    let r = s.lookup(&mut mem, 6, 4, 0, 0, 0, None);
    assert!(matches!(r, Err(Error::OutOfBounds)));
    let r = s.lookup(&mut mem, 0, 4, 100, 40, 4, None);
    assert!(matches!(r, Err(Error::OutOfBounds)));
}

#[test]
fn absent_address_is_no_data() {
    let s = session();
    let mut mem = memory(64);
    let mut bytes = mem.into_bytes();
    bytes[0] = 10;
    mem = GuestMemory::from_bytes(bytes);
    let r = s.lookup(&mut mem, 0, 4, 10, 40, 4, None);
    match r {
        Err(Error::Geolocation(ge)) => {
            let GeolocationError::NoGeolocationData(addr) = &ge;
            assert_eq!(addr, "10.0.0.1");
            assert_eq!(ge.to_fastly_status(), FastlyStatus::NoData);
        }
        other => panic!("expected no geolocation data, got {other:?}"),
    }
}

#[test]
fn ipv6_key_decodes_from_sixteen_bytes() {
    let mapping = GeoIPMapping::from_config(&table(vec![
        ("format", ConfigValue::Str("inline-toml".to_string())),
        (
            "addresses",
            ConfigValue::Table(table(vec![(
                "::1",
                ConfigValue::Table(table(vec![(
                    "animal",
                    ConfigValue::Str("cat".to_string()),
                )])),
            )])),
        ),
    ]))
    .unwrap();
    let s = Session::new(ExecuteCtx::new(mapping), IpKey::V6(1));
    let mut bytes = vec![0u8; 64];
    bytes[15] = 1;
    let mut mem = GuestMemory::from_bytes(bytes);
    let r = s.lookup(&mut mem, 0, 16, 20, 40, 16, None);
    assert!(r.is_ok());
    let out = mem.into_bytes();
    let expected = "{\"animal\":\"cat\"}";
    assert_eq!(&out[20..20 + expected.len()], expected.as_bytes());
}

#[test]
fn unreadable_backing_file_surfaces_as_structured_error() {
    let mapping = GeoIPMapping::from_config(&table(vec![
        ("format", ConfigValue::Str("json".to_string())),
        ("file", ConfigValue::Str("geoip.json".to_string())),
    ]))
    .unwrap();
    let s = Session::new(ExecuteCtx::new(mapping), IpKey::V4(0x7F000001));
    let mut mem = memory(64);
    let r = s.lookup(&mut mem, 0, 4, 10, 40, 4, None);
    assert!(matches!(
        r,
        Err(Error::GeoIPConfig(
            viceroy_lib::error::GeoIPConfigError::IoError
        ))
    ));
}

#[test]
fn service_derives_request_state() {
    let svc = ViceroyService::new(ctx());
    let remote = parse_ip_address("192.168.0.7").unwrap();
    let req = svc.make_service(remote);
    assert_eq!(req.remote_addr, remote);
    let s = Session::new(req.ctx, req.remote_addr);
    assert_eq!(s.remote_addr, IpKey::V4(0xC0A80007));
}

#[test]
fn address_text_forms() {
    assert_eq!(format_ip(&IpKey::V4(0x0A000001)), "10.0.0.1");
    assert_eq!(
        format_ip(&parse_ip_address("2001:db8::1").unwrap()),
        "2001:db8:0:0:0:0:0:1"
    );
    assert_eq!(format_ip(&IpKey::V6(1)), "0:0:0:0:0:0:0:1");
    assert!(parse_ip_address("01.2.3.4").is_err());
    assert!(parse_ip_address("1:2:3").is_err());
    assert_eq!(
        parse_ip_address("1:2:3:4:5:6:7:8").unwrap(),
        IpKey::V6(0x00010002000300040005000600070008)
    );
}
