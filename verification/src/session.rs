//! The execution context — the immutable, reference-counted bundle shared by
//! every request — and the per-request session, which the hostcall boundary
//! operates against.

use vstd::prelude::*;
use vstd::string::StrSliceExecFns;
use vstd::utf8::is_ascii_chars;
use std::sync::Arc;
use crate::error::{Error, GeoIPConfigError};
use crate::geo_impl::GeolocationError;
use crate::geoip::{GeoIPMapping, MappingSpec, mapping_get_spec};
use crate::ip::{IpKey, ip_chars, format_ip};
use crate::memory::{GuestMemory, write_region, le32};
use crate::serialize::{record_json, lemma_record_json_ascii};

verus! {

/// Relies on Arc::clone: the clone is the same shared value, no deep copy.
#[verifier::external_body]
fn arc_clone(m: &Arc<GeoIPMapping>) -> (r: Arc<GeoIPMapping>)
    ensures
        r == *m,
{
    Arc::clone(m)
}

/// The immutable execution context: built once before any listener starts,
/// then shared read-only across every connection and request for the life of
/// the process. Duplication hands out another reference-counted share.
pub struct ExecuteCtx {
    pub geoip: Arc<GeoIPMapping>,
}

impl ExecuteCtx {
    pub fn new(geoip: GeoIPMapping) -> (r: Self)
        ensures
            *r.geoip == geoip,
    {
        ExecuteCtx { geoip: Arc::new(geoip) }
    }

    pub open spec fn wf(&self) -> bool {
        self.geoip.wf()
    }

    /// Another share of the same context.
    pub fn duplicate(&self) -> (r: Self)
        ensures
            r == *self,
    {
        let r = ExecuteCtx { geoip: arc_clone(&self.geoip) };
        r
    }
}

/// The per-request handle: a share of the execution context and the
/// request's remote address. No session outlives its request.
pub struct Session {
    pub ctx: ExecuteCtx,
    pub remote_addr: IpKey,
}

/// What the geolocation lookup serializes: the record's compact JSON text on
/// a hit, absence on a miss, the mapping's own error otherwise.
pub open spec fn lookup_json_spec(m: MappingSpec, k: IpKey, c: Option<Seq<char>>) -> Result<
    Option<Seq<char>>,
    GeoIPConfigError,
> {
    match mapping_get_spec(m, k, c) {
        Err(e) => Err(e),
        Ok(None) => Ok(None),
        Ok(Some(rec)) => Ok(Some(record_json(rec))),
    }
}

/// The model of the optional file text handed to a lookup.
pub open spec fn content_view(c: Option<&str>) -> Option<Seq<char>> {
    match c {
        Some(t) => Some(t@),
        None => None,
    }
}

impl Session {
    pub fn new(ctx: ExecuteCtx, remote_addr: IpKey) -> (r: Self)
        ensures
            r.ctx == ctx,
            r.remote_addr == remote_addr,
    {
        Session { ctx, remote_addr }
    }

    pub open spec fn wf(&self) -> bool {
        self.ctx.wf()
    }

    /// Look up the serialized geolocation record for an address. For a
    /// file-backed mapping, `file_content` is the backing file's text read
    /// freshly for this call.
    pub fn geolocation_lookup(&self, addr: &IpKey, file_content: Option<&str>) -> (r: Result<
        Option<String>,
        GeoIPConfigError,
    >)
        ensures
            match lookup_json_spec(self.ctx.geoip@, *addr, content_view(file_content)) {
                Ok(Some(text)) => r matches Ok(o) && o matches Some(s) && s@ == text && (
                self.wf() ==> is_ascii_chars(s@)),
                Ok(None) => r matches Ok(o) && o is None,
                Err(e) => r matches Err(e2) && e2 == e,
            },
    {
        match self.ctx.geoip.get(addr, file_content) {
            Err(e) => Err(e),
            Ok(None) => Ok(None),
            Ok(Some(record)) => {
                let s = record.to_string();
                proof {
                    if self.wf() {
                        lemma_record_json_ascii(record@);
                    }
                }
                Ok(Some(s))
            },
        }
    }

    /// The geolocation hostcall: decode the input descriptor, look the
    /// address up, serialize, check the output capacity, and only then
    /// commit the bytes and the written length — never a partial write, and
    /// never a write before the capacity check passes.
    pub fn lookup(
        &self,
        memory: &mut GuestMemory,
        addr_octets: u32,
        addr_len: u32,
        buf: u32,
        buf_len: u32,
        nwritten_out: u32,
        file_content: Option<&str>,
    ) -> (r: Result<(), Error>)
        requires
            self.wf(),
        ensures
            ({
                let m0 = old(memory)@;
                if addr_octets + addr_len > m0.len() {
                    r matches Err(e) && e is OutOfBounds && final(memory)@ == m0
                } else if addr_len != 4 && addr_len != 16 {
                    r matches Err(e) && e is InvalidArgument && final(memory)@ == m0
                } else {
                    let key = match decode_addr(
                        m0.subrange(addr_octets as int, addr_octets + addr_len),
                    ) {
                        Some(kk) => kk,
                        None => IpKey::V4(0),
                    };
                    match lookup_json_spec(self.ctx.geoip@, key, content_view(file_content)) {
                        Err(e) => r matches Err(e2) && e2 matches Error::GeoIPConfig(e3) && e3
                            == e && final(memory)@ == m0,
                        Ok(None) => r matches Err(e2) && e2 matches Error::Geolocation(ge) && (
                        ge matches GeolocationError::NoGeolocationData(t) && t@ == ip_chars(key))
                            && final(memory)@ == m0,
                        Ok(Some(text)) => if text.len() > buf_len {
                            r matches Err(e2) && e2 matches Error::BufferLengthError { .. }
                                && final(memory)@ == m0
                        } else if buf + text.len() > m0.len() || nwritten_out + 4 > m0.len() {
                            r matches Err(e2) && e2 is OutOfBounds && final(memory)@ == m0
                        } else {
                            r matches Ok(u) && final(memory)@ == write_region(
                                write_region(m0, buf as int, ascii_bytes(text)),
                                nwritten_out as int,
                                le32(text.len() as u32),
                            )
                        },
                    }
                }
            }),
    {
        let ghost m0 = memory@;
        let octets = match memory.read_bytes(addr_octets, addr_len) {
            Err(e) => {
                return Err(e);
            },
            Ok(o) => o,
        };
        if addr_len != 4 && addr_len != 16 {
            return Err(Error::InvalidArgument);
        }
        let ip = match decode_addr_exec(&octets) {
            Some(k) => k,
            None => {
                proof {
                    assert(false);
                }
                return Err(Error::InvalidArgument);
            },
        };
        let result = match self.geolocation_lookup(&ip, file_content) {
            Err(e) => {
                return Err(Error::GeoIPConfig(e));
            },
            Ok(None) => {
                return Err(
                    Error::Geolocation(GeolocationError::NoGeolocationData(format_ip(&ip))),
                );
            },
            Ok(Some(s)) => s,
        };
        let rs = result.as_str();
        let result_len = rs.unicode_len();
        if result_len > buf_len as usize {
            return Err(
                Error::BufferLengthError {
                    buf: "geolocation_lookup",
                    len: "geolocation_lookup_max_len",
                },
            );
        }
        let mlen = memory.len();
        if result_len > mlen || buf as usize > mlen - result_len || mlen < 4 || nwritten_out
            as usize > mlen - 4 {
            return Err(Error::OutOfBounds);
        }
        let bytes: &[u8] = rs.as_bytes();
        proof {
            assert(bytes@ =~= ascii_bytes(result@)) by {
                broadcast use vstd::string::is_ascii_spec_bytes;

                assert(is_ascii_chars(rs@));
                assert(vstd::string::is_ascii(rs));
            }
        }
        match memory.write_bytes(buf, bytes) {
            Err(_) => {
                proof {
                    assert(false);
                }
                return Err(Error::OutOfBounds);
            },
            Ok(_) => {},
        }
        match memory.write_u32_le(nwritten_out, result_len as u32) {
            Err(_) => {
                proof {
                    assert(false);
                }
                return Err(Error::OutOfBounds);
            },
            Ok(_) => {},
        }
        Ok(())
    }
}

// ---------------------------------------------------------------------------
// Address decoding from raw guest bytes
// ---------------------------------------------------------------------------

/// Big-endian value of a byte sequence.
pub open spec fn be_bytes_val(b: Seq<u8>) -> nat
    decreases b.len(),
{
    if b.len() == 0 {
        0
    } else {
        be_bytes_val(b.drop_last()) * 0x100 + b.last() as nat
    }
}

pub open spec fn pow256(k: nat) -> nat
    decreases k,
{
    if k == 0 {
        1
    } else {
        0x100 * pow256((k - 1) as nat)
    }
}

pub proof fn lemma_be_bytes_bound(b: Seq<u8>)
    ensures
        be_bytes_val(b) < pow256(b.len()),
    decreases b.len(),
{
    if b.len() > 0 {
        lemma_be_bytes_bound(b.drop_last());
    }
}

pub proof fn lemma_pow256_mono(a: nat, b: nat)
    requires
        a <= b,
    ensures
        pow256(a) <= pow256(b),
    decreases b,
{
    if a < b {
        lemma_pow256_mono(a, (b - 1) as nat);
        assert(pow256(b) == 0x100 * pow256((b - 1) as nat));
    }
}

pub proof fn lemma_pow256_vals()
    ensures
        pow256(4) == 0x100000000,
        pow256(16) == 0x100000000000000000000000000000000,
{
    assert(pow256(0) == 1);
    assert(pow256(1) == 0x100);
    assert(pow256(2) == 0x10000);
    assert(pow256(3) == 0x1000000);
    assert(pow256(4) == 0x100000000);
    assert(pow256(5) == 0x10000000000);
    assert(pow256(6) == 0x1000000000000);
    assert(pow256(7) == 0x100000000000000);
    assert(pow256(8) == 0x10000000000000000);
    assert(pow256(9) == 0x1000000000000000000);
    assert(pow256(10) == 0x100000000000000000000);
    assert(pow256(11) == 0x10000000000000000000000);
    assert(pow256(12) == 0x1000000000000000000000000);
    assert(pow256(13) == 0x100000000000000000000000000);
    assert(pow256(14) == 0x10000000000000000000000000000);
    assert(pow256(15) == 0x1000000000000000000000000000000);
    assert(pow256(16) == 0x100000000000000000000000000000000);
}

/// The address named by raw guest bytes: four bytes are an IPv4 address,
/// sixteen an IPv6 address, both big-endian; no other length is accepted.
pub open spec fn decode_addr(octets: Seq<u8>) -> Option<IpKey> {
    if octets.len() == 4 {
        Some(IpKey::V4(be_bytes_val(octets) as u32))
    } else if octets.len() == 16 {
        Some(IpKey::V6(be_bytes_val(octets) as u128))
    } else {
        None
    }
}

/// The ASCII bytes of an ASCII text.
pub open spec fn ascii_bytes(text: Seq<char>) -> Seq<u8> {
    Seq::new(text.len(), |i: int| text[i] as u8)
}

pub fn decode_addr_exec(octets: &Vec<u8>) -> (r: Option<IpKey>)
    ensures
        r == decode_addr(octets@),
{
    let n = octets.len();
    if n != 4 && n != 16 {
        return None;
    }
    let mut v: u128 = 0;
    let mut k: usize = 0;
    while k < n
        invariant
            n == octets@.len(),
            n == 4 || n == 16,
            k <= n,
            v as nat == be_bytes_val(octets@.take(k as int)),
        decreases n - k,
    {
        proof {
            lemma_be_bytes_bound(octets@.take(k as int));
            lemma_pow256_mono(k as nat, 15);
            lemma_pow256_vals();
            assert(octets@.take((k + 1) as int).drop_last() =~= octets@.take(k as int));
            assert(octets@.take((k + 1) as int).last() == octets@[k as int]);
        }
        v = v * 0x100 + octets[k] as u128;
        k = k + 1;
    }
    proof {
        assert(octets@.take(n as int) =~= octets@);
        lemma_be_bytes_bound(octets@);
        lemma_pow256_vals();
    }
    if n == 4 {
        Some(IpKey::V4(v as u32))
    } else {
        Some(IpKey::V6(v))
    }
}

} // verus!
