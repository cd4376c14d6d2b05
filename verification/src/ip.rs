//! The library's address key type: a canonical IPv4 or IPv6 address held as
//! plain integers, with verified textual parsing and formatting.

use vstd::prelude::*;
use vstd::string::StrSliceExecFns;
use vstd::string::StringExecFns;
use crate::error::GeoIPConfigError;
use crate::text::{dec_digits, hex_digits, push_char, u64_to_dec_string, u64_to_hex_string};

verus! {

/// An IPv4 address as its 32-bit big-endian value, or an IPv6 address as its
/// 128-bit big-endian value.
#[derive(Clone, Copy, Debug, PartialEq, Eq, Structural)]
pub enum IpKey {
    V4(u32),
    V6(u128),
}

// ---------------------------------------------------------------------------
// Formatting
// ---------------------------------------------------------------------------

/// Dotted-decimal text of an IPv4 value.
pub open spec fn v4_chars(a: u32) -> Seq<char> {
    dec_digits(((a / 0x1000000) % 0x100) as nat) + seq!['.'] + dec_digits(
        ((a / 0x10000) % 0x100) as nat,
    ) + seq!['.'] + dec_digits(((a / 0x100) % 0x100) as nat) + seq!['.'] + dec_digits(
        (a % 0x100) as nat,
    )
}

/// The low `k` 16-bit groups of `a`, most significant group first.
pub open spec fn be_groups(a: nat, k: nat) -> Seq<u16>
    decreases k,
{
    if k == 0 {
        Seq::empty()
    } else {
        be_groups(a / 0x10000, (k - 1) as nat).push((a % 0x10000) as u16)
    }
}

/// Colon-separated lower-case hexadecimal text of a group sequence.
pub open spec fn groups_chars(gs: Seq<u16>) -> Seq<char>
    decreases gs.len(),
{
    if gs.len() == 0 {
        Seq::empty()
    } else if gs.len() == 1 {
        hex_digits(gs[0] as nat)
    } else {
        groups_chars(gs.drop_last()) + seq![':'] + hex_digits(gs.last() as nat)
    }
}

/// The textual form this library prints for an address: dotted decimal for
/// IPv4, eight uncompressed hexadecimal groups for IPv6.
pub open spec fn ip_chars(k: IpKey) -> Seq<char> {
    match k {
        IpKey::V4(a) => v4_chars(a),
        IpKey::V6(a) => groups_chars(be_groups(a as nat, 8)),
    }
}

pub proof fn lemma_be_groups_len(a: nat, k: nat)
    ensures
        be_groups(a, k).len() == k,
    decreases k,
{
    if k > 0 {
        lemma_be_groups_len(a / 0x10000, (k - 1) as nat);
    }
}

fn v6_string(a: u128, k: u32) -> (r: String)
    requires
        k <= 8,
    ensures
        r@ == groups_chars(be_groups(a as nat, k as nat)),
    decreases k,
{
    proof {
        lemma_be_groups_len(a as nat, k as nat);
    }
    if k == 0 {
        let r = String::new();
        assert(r@ =~= groups_chars(be_groups(a as nat, 0)));
        r
    } else if k == 1 {
        let g = (a % 0x10000) as u64;
        let r = u64_to_hex_string(g);
        proof {
            let gs = be_groups(a as nat, 1);
            assert(gs == Seq::<u16>::empty().push((a as nat % 0x10000) as u16));
            assert(gs[0] == (a as nat % 0x10000) as u16);
            assert(g as nat == gs[0] as nat);
        }
        r
    } else {
        let mut s = v6_string(a / 0x10000, k - 1);
        push_char(&mut s, ':');
        let t = u64_to_hex_string((a % 0x10000) as u64);
        s.append(t.as_str());
        proof {
            let gs = be_groups(a as nat, k as nat);
            lemma_be_groups_len((a / 0x10000) as nat, (k - 1) as nat);
            assert(gs.drop_last() =~= be_groups((a / 0x10000) as nat, (k - 1) as nat));
            assert(gs.last() == (a as nat % 0x10000) as u16);
            assert(s@ =~= groups_chars(gs));
        }
        s
    }
}

/// Render an address in the library's textual form.
pub fn format_ip(k: &IpKey) -> (r: String)
    ensures
        r@ == ip_chars(*k),
{
    match k {
        IpKey::V4(a) => {
            let a = *a;
            let mut s = String::new();
            let t0 = u64_to_dec_string(((a / 0x1000000) % 0x100) as u64);
            s.append(t0.as_str());
            push_char(&mut s, '.');
            let t1 = u64_to_dec_string(((a / 0x10000) % 0x100) as u64);
            s.append(t1.as_str());
            push_char(&mut s, '.');
            let t2 = u64_to_dec_string(((a / 0x100) % 0x100) as u64);
            s.append(t2.as_str());
            push_char(&mut s, '.');
            let t3 = u64_to_dec_string((a % 0x100) as u64);
            s.append(t3.as_str());
            assert(s@ =~= v4_chars(a));
            s
        },
        IpKey::V6(a) => v6_string(*a, 8),
    }
}

// ---------------------------------------------------------------------------
// Parsing: shared digit machinery
// ---------------------------------------------------------------------------

pub open spec fn is_dec_digit(c: char) -> bool {
    48 <= c as u32 <= 57
}

pub open spec fn dec_val(c: char) -> nat {
    (c as u32 - 48) as nat
}

pub open spec fn is_hex_digit(c: char) -> bool {
    is_dec_digit(c) || (97 <= c as u32 <= 102) || (65 <= c as u32 <= 70)
}

pub open spec fn hex_val(c: char) -> nat {
    if is_dec_digit(c) {
        dec_val(c)
    } else if 97 <= c as u32 {
        (c as u32 - 97 + 10) as nat
    } else {
        (c as u32 - 65 + 10) as nat
    }
}

/// First position at or after `i` that holds no decimal digit.
pub open spec fn dec_run_end(s: Seq<char>, i: int) -> int
    decreases s.len() - i when 0 <= i <= s.len()
{
    if i < s.len() && is_dec_digit(s[i]) {
        dec_run_end(s, i + 1)
    } else {
        i
    }
}

/// First position at or after `i` that holds no hexadecimal digit.
pub open spec fn hex_run_end(s: Seq<char>, i: int) -> int
    decreases s.len() - i when 0 <= i <= s.len()
{
    if i < s.len() && is_hex_digit(s[i]) {
        hex_run_end(s, i + 1)
    } else {
        i
    }
}

pub proof fn lemma_dec_run_end(s: Seq<char>, i: int)
    requires
        0 <= i <= s.len(),
    ensures
        i <= dec_run_end(s, i) <= s.len(),
        forall|j: int| i <= j < dec_run_end(s, i) ==> is_dec_digit(s[j]),
    decreases s.len() - i,
{
    if i < s.len() && is_dec_digit(s[i]) {
        lemma_dec_run_end(s, i + 1);
    }
}

pub proof fn lemma_hex_run_end(s: Seq<char>, i: int)
    requires
        0 <= i <= s.len(),
    ensures
        i <= hex_run_end(s, i) <= s.len(),
        forall|j: int| i <= j < hex_run_end(s, i) ==> is_hex_digit(s[j]),
    decreases s.len() - i,
{
    if i < s.len() && is_hex_digit(s[i]) {
        lemma_hex_run_end(s, i + 1);
    }
}

/// Value of the decimal digits at positions `i` (inclusive) to `j` (exclusive).
pub open spec fn dec_value(s: Seq<char>, i: int, j: int) -> nat
    decreases j - i when i <= j
{
    if j <= i {
        0
    } else {
        dec_value(s, i, j - 1) * 10 + dec_val(s[j - 1])
    }
}

/// Value of the hexadecimal digits at positions `i` (inclusive) to `j` (exclusive).
pub open spec fn hex_value(s: Seq<char>, i: int, j: int) -> nat
    decreases j - i when i <= j
{
    if j <= i {
        0
    } else {
        hex_value(s, i, j - 1) * 16 + hex_val(s[j - 1])
    }
}

pub proof fn lemma_hex_value_bound(s: Seq<char>, i: int, j: int)
    requires
        i <= j,
        forall|k: int| i <= k < j ==> is_hex_digit(s[k]),
    ensures
        j - i <= 1 ==> hex_value(s, i, j) < 0x10,
        j - i <= 2 ==> hex_value(s, i, j) < 0x100,
        j - i <= 3 ==> hex_value(s, i, j) < 0x1000,
        j - i <= 4 ==> hex_value(s, i, j) < 0x10000,
    decreases j - i,
{
    if j > i {
        lemma_hex_value_bound(s, i, j - 1);
        assert(hex_val(s[j - 1]) < 16);
    }
}

// ---------------------------------------------------------------------------
// Parsing: IPv4
// ---------------------------------------------------------------------------

/// One dotted-decimal octet starting at `i`: one to three digits, no leading
/// zero except a lone zero, value at most 255. Yields the value and the
/// position after the digits.
pub open spec fn parse_octet_spec(s: Seq<char>, i: int) -> Option<(u32, int)>
    recommends
        0 <= i <= s.len(),
{
    let j = dec_run_end(s, i);
    let d = j - i;
    if 1 <= d <= 3 && (d > 1 ==> s[i] != '0') && dec_value(s, i, j) <= 255 {
        Some((dec_value(s, i, j) as u32, j))
    } else {
        None
    }
}

/// Dotted-decimal IPv4 text: exactly four octets separated by `.`, consuming
/// the whole of `s`.
pub open spec fn parse_v4_spec(s: Seq<char>) -> Option<u32> {
    match parse_octet_spec(s, 0) {
        None => None,
        Some((a, p)) => if p < s.len() && s[p] == '.' {
            match parse_octet_spec(s, p + 1) {
                None => None,
                Some((b, q)) => if q < s.len() && s[q] == '.' {
                    match parse_octet_spec(s, q + 1) {
                        None => None,
                        Some((c, t)) => if t < s.len() && s[t] == '.' {
                            match parse_octet_spec(s, t + 1) {
                                None => None,
                                Some((d, u)) => if u == s.len() {
                                    Some((a * 0x1000000 + b * 0x10000 + c * 0x100 + d) as u32)
                                } else {
                                    None
                                },
                            }
                        } else {
                            None
                        },
                    }
                } else {
                    None
                },
            }
        } else {
            None
        },
    }
}

pub(crate) fn dec_run_end_exec(s: &str, n: usize, i: usize) -> (j: usize)
    requires
        n == s@.len(),
        i <= n,
    ensures
        j as int == dec_run_end(s@, i as int),
        i <= j <= n,
    decreases n - i,
{
    if i < n {
        let c = s.get_char(i);
        if 48 <= c as u32 && c as u32 <= 57 {
            dec_run_end_exec(s, n, i + 1)
        } else {
            i
        }
    } else {
        i
    }
}

fn hex_run_end_exec(s: &str, n: usize, i: usize) -> (j: usize)
    requires
        n == s@.len(),
        i <= n,
    ensures
        j as int == hex_run_end(s@, i as int),
        i <= j <= n,
    decreases n - i,
{
    if i < n {
        let c = s.get_char(i);
        let u = c as u32;
        if (48 <= u && u <= 57) || (97 <= u && u <= 102) || (65 <= u && u <= 70) {
            hex_run_end_exec(s, n, i + 1)
        } else {
            i
        }
    } else {
        i
    }
}

fn digit_at(s: &str, k: usize) -> (v: u32)
    requires
        k < s@.len(),
        is_dec_digit(s@[k as int]),
    ensures
        v as nat == dec_val(s@[k as int]),
        v < 10,
{
    let c = s.get_char(k);
    (c as u32) - 48
}

pub(crate) fn hex_digit_at(s: &str, k: usize) -> (v: u32)
    requires
        k < s@.len(),
        is_hex_digit(s@[k as int]),
    ensures
        v as nat == hex_val(s@[k as int]),
        v < 16,
{
    let c = s.get_char(k);
    let u = c as u32;
    if 48 <= u && u <= 57 {
        u - 48
    } else if 97 <= u {
        u - 97 + 10
    } else {
        u - 65 + 10
    }
}

fn parse_octet_exec(s: &str, n: usize, i: usize) -> (r: Option<(u32, usize)>)
    requires
        n == s@.len(),
        i <= n,
    ensures
        match parse_octet_spec(s@, i as int) {
            Some(p) => r matches Some(q) && q.0 == p.0 && q.1 as int == p.1 && q.0 <= 255 && i < q.1
                <= n,
            None => r is None,
        },
{
    proof {
        lemma_dec_run_end(s@, i as int);
    }
    let j = dec_run_end_exec(s, n, i);
    let d = j - i;
    if d < 1 || d > 3 {
        return None;
    }
    if d > 1 && s.get_char(i) == '0' {
        return None;
    }
    proof {
        assert(dec_value(s@, i as int, i as int) == 0);
    }
    let v0 = digit_at(s, i);
    let v: u32 = if d == 1 {
        proof {
            assert(dec_value(s@, i as int, i as int + 1) == dec_val(s@[i as int]));
        }
        v0
    } else if d == 2 {
        let v1 = digit_at(s, i + 1);
        proof {
            assert(dec_value(s@, i as int, i as int + 1) == dec_val(s@[i as int]));
            assert(dec_value(s@, i as int, i as int + 2) == dec_value(s@, i as int, i as int + 1)
                * 10 + dec_val(s@[i as int + 1]));
        }
        v0 * 10 + v1
    } else {
        let v1 = digit_at(s, i + 1);
        let v2 = digit_at(s, i + 2);
        proof {
            assert(dec_value(s@, i as int, i as int + 1) == dec_val(s@[i as int]));
            assert(dec_value(s@, i as int, i as int + 2) == dec_value(s@, i as int, i as int + 1)
                * 10 + dec_val(s@[i as int + 1]));
            assert(dec_value(s@, i as int, i as int + 3) == dec_value(s@, i as int, i as int + 2)
                * 10 + dec_val(s@[i as int + 2]));
        }
        v0 * 100 + v1 * 10 + v2
    };
    if v > 255 {
        None
    } else {
        Some((v, j))
    }
}

fn parse_v4_exec(s: &str, n: usize) -> (r: Option<u32>)
    requires
        n == s@.len(),
    ensures
        r == parse_v4_spec(s@),
{
    let o0 = parse_octet_exec(s, n, 0);
    match o0 {
        None => None,
        Some((a, p)) => {
            if p < n && s.get_char(p) == '.' {
                match parse_octet_exec(s, n, p + 1) {
                    None => None,
                    Some((b, q)) => {
                        if q < n && s.get_char(q) == '.' {
                            match parse_octet_exec(s, n, q + 1) {
                                None => None,
                                Some((c, t)) => {
                                    if t < n && s.get_char(t) == '.' {
                                        match parse_octet_exec(s, n, t + 1) {
                                            None => None,
                                            Some((d, u)) => {
                                                if u == n {
                                                    Some(
                                                        a * 0x1000000 + b * 0x10000 + c * 0x100
                                                            + d,
                                                    )
                                                } else {
                                                    None
                                                }
                                            },
                                        }
                                    } else {
                                        None
                                    }
                                },
                            }
                        } else {
                            None
                        }
                    },
                }
            } else {
                None
            }
        },
    }
}

// ---------------------------------------------------------------------------
// Parsing: IPv6
// ---------------------------------------------------------------------------

/// One hexadecimal group of one to four digits starting at `i`.
pub open spec fn parse_group_spec(s: Seq<char>, i: int) -> Option<(u16, int)>
    recommends
        0 <= i <= s.len(),
{
    let j = hex_run_end(s, i);
    let d = j - i;
    if 1 <= d <= 4 {
        Some((hex_value(s, i, j) as u16, j))
    } else {
        None
    }
}

/// Groups after a `::`, separated by single colons, consuming `s` to its end.
/// The fuel bounds the group count; eight is always enough for a valid text.
pub open spec fn parse_tail_spec(s: Seq<char>, i: int, fuel: nat) -> Option<Seq<u16>>
    decreases fuel,
{
    if fuel == 0 {
        None
    } else {
        match parse_group_spec(s, i) {
            None => None,
            Some((g, j)) => if j == s.len() {
                Some(seq![g])
            } else if 0 <= j < s.len() && s[j] == ':' {
                match parse_tail_spec(s, j + 1, (fuel - 1) as nat) {
                    None => None,
                    Some(gs) => Some(seq![g] + gs),
                }
            } else {
                None
            },
        }
    }
}

/// Groups before a `::` or a complete colon-separated address. Yields the
/// groups and, when a `::` was met, the position just after it.
pub open spec fn parse_head_spec(s: Seq<char>, i: int, fuel: nat) -> Option<(Seq<u16>, Option<
    int,
>)>
    decreases fuel,
{
    if fuel == 0 {
        None
    } else {
        match parse_group_spec(s, i) {
            None => None,
            Some((g, j)) => if j == s.len() {
                Some((seq![g], None))
            } else if 0 <= j < s.len() && s[j] == ':' {
                if j + 1 < s.len() && s[j + 1] == ':' {
                    Some((seq![g], Some(j + 2)))
                } else {
                    match parse_head_spec(s, j + 1, (fuel - 1) as nat) {
                        None => None,
                        Some((gs, t)) => Some((seq![g] + gs, t)),
                    }
                }
            } else {
                None
            },
        }
    }
}

/// Big-endian value of a group sequence.
pub open spec fn be_value(gs: Seq<u16>) -> nat
    decreases gs.len(),
{
    if gs.len() == 0 {
        0
    } else {
        be_value(gs.drop_last()) * 0x10000 + gs.last() as nat
    }
}

pub open spec fn zero_groups(k: nat) -> Seq<u16> {
    Seq::new(k, |i| 0u16)
}

pub proof fn lemma_be_value_bound(gs: Seq<u16>)
    ensures
        gs.len() <= 1 ==> be_value(gs) < 0x10000,
        gs.len() <= 2 ==> be_value(gs) < 0x100000000,
        gs.len() <= 3 ==> be_value(gs) < 0x1000000000000,
        gs.len() <= 4 ==> be_value(gs) < 0x10000000000000000,
        gs.len() <= 5 ==> be_value(gs) < 0x100000000000000000000,
        gs.len() <= 6 ==> be_value(gs) < 0x1000000000000000000000000,
        gs.len() <= 7 ==> be_value(gs) < 0x10000000000000000000000000000,
        gs.len() <= 8 ==> be_value(gs) < 0x100000000000000000000000000000000,
    decreases gs.len(),
{
    if gs.len() > 0 {
        lemma_be_value_bound(gs.drop_last());
    }
}

/// Textual IPv6: eight colon-separated hexadecimal groups, or fewer with one
/// `::` standing for the elided zero groups.
pub open spec fn parse_v6_spec(s: Seq<char>) -> Option<u128> {
    if s.len() >= 2 && s[0] == ':' && s[1] == ':' {
        if s.len() == 2 {
            Some(0u128)
        } else {
            match parse_tail_spec(s, 2, 8) {
                None => None,
                Some(tail) => if tail.len() <= 7 {
                    Some(be_value(zero_groups((8 - tail.len()) as nat) + tail) as u128)
                } else {
                    None
                },
            }
        }
    } else {
        match parse_head_spec(s, 0, 8) {
            None => None,
            Some((head, t)) => match t {
                None => if head.len() == 8 {
                    Some(be_value(head) as u128)
                } else {
                    None
                },
                Some(ti) => {
                    if ti == s.len() {
                        if head.len() <= 7 {
                            Some(be_value(head + zero_groups((8 - head.len()) as nat)) as u128)
                        } else {
                            None
                        }
                    } else {
                        match parse_tail_spec(s, ti, 8) {
                            None => None,
                            Some(tl) => if head.len() + tl.len() <= 7 {
                                Some(
                                    be_value(
                                        head + zero_groups((8 - head.len() - tl.len()) as nat)
                                            + tl,
                                    ) as u128,
                                )
                            } else {
                                None
                            },
                        }
                    }
                },
            },
        }
    }
}

fn parse_group_exec(s: &str, n: usize, i: usize) -> (r: Option<(u16, usize)>)
    requires
        n == s@.len(),
        i <= n,
    ensures
        match parse_group_spec(s@, i as int) {
            Some(p) => r matches Some(q) && q.0 == p.0 && q.1 as int == p.1 && i < q.1 <= n,
            None => r is None,
        },
{
    proof {
        lemma_hex_run_end(s@, i as int);
    }
    let j = hex_run_end_exec(s, n, i);
    let d = j - i;
    if d < 1 || d > 4 {
        return None;
    }
    proof {
        lemma_hex_value_bound(s@, i as int, j as int);
        assert(hex_value(s@, i as int, i as int) == 0);
    }
    let v0 = hex_digit_at(s, i);
    let v: u32 = if d == 1 {
        proof {
            assert(hex_value(s@, i as int, i as int + 1) == hex_val(s@[i as int]));
        }
        v0
    } else if d == 2 {
        let v1 = hex_digit_at(s, i + 1);
        proof {
            assert(hex_value(s@, i as int, i as int + 1) == hex_val(s@[i as int]));
            assert(hex_value(s@, i as int, i as int + 2) == hex_value(s@, i as int, i as int + 1)
                * 16 + hex_val(s@[i as int + 1]));
        }
        v0 * 16 + v1
    } else if d == 3 {
        let v1 = hex_digit_at(s, i + 1);
        let v2 = hex_digit_at(s, i + 2);
        proof {
            assert(hex_value(s@, i as int, i as int + 1) == hex_val(s@[i as int]));
            assert(hex_value(s@, i as int, i as int + 2) == hex_value(s@, i as int, i as int + 1)
                * 16 + hex_val(s@[i as int + 1]));
            assert(hex_value(s@, i as int, i as int + 3) == hex_value(s@, i as int, i as int + 2)
                * 16 + hex_val(s@[i as int + 2]));
        }
        v0 * 256 + v1 * 16 + v2
    } else {
        let v1 = hex_digit_at(s, i + 1);
        let v2 = hex_digit_at(s, i + 2);
        let v3 = hex_digit_at(s, i + 3);
        proof {
            assert(hex_value(s@, i as int, i as int + 1) == hex_val(s@[i as int]));
            assert(hex_value(s@, i as int, i as int + 2) == hex_value(s@, i as int, i as int + 1)
                * 16 + hex_val(s@[i as int + 1]));
            assert(hex_value(s@, i as int, i as int + 3) == hex_value(s@, i as int, i as int + 2)
                * 16 + hex_val(s@[i as int + 2]));
            assert(hex_value(s@, i as int, i as int + 4) == hex_value(s@, i as int, i as int + 3)
                * 16 + hex_val(s@[i as int + 3]));
        }
        v0 * 4096 + v1 * 256 + v2 * 16 + v3
    };
    Some((v as u16, j))
}

fn parse_tail_exec(s: &str, n: usize, i: usize, fuel: u32) -> (r: Option<Vec<u16>>)
    requires
        n == s@.len(),
        i <= n,
    ensures
        match parse_tail_spec(s@, i as int, fuel as nat) {
            Some(gs) => r matches Some(v) && v@ == gs,
            None => r is None,
        },
    decreases fuel,
{
    if fuel == 0 {
        return None;
    }
    match parse_group_exec(s, n, i) {
        None => None,
        Some((g, j)) => {
            if j == n {
                let mut v: Vec<u16> = Vec::new();
                v.push(g);
                proof {
                    assert(v@ =~= seq![g]);
                }
                Some(v)
            } else if s.get_char(j) == ':' {
                match parse_tail_exec(s, n, j + 1, fuel - 1) {
                    None => None,
                    Some(gs) => {
                        let mut gs = gs;
                        let ghost tail = gs@;
                        gs.insert(0, g);
                        proof {
                            assert(gs@ =~= seq![g] + tail);
                        }
                        Some(gs)
                    },
                }
            } else {
                None
            }
        },
    }
}

fn parse_head_exec(s: &str, n: usize, i: usize, fuel: u32) -> (r: Option<(Vec<u16>, Option<
    usize,
>)>)
    requires
        n == s@.len(),
        i <= n,
    ensures
        match parse_head_spec(s@, i as int, fuel as nat) {
            Some(p) => r matches Some(q) && q.0@ == p.0 && (match p.1 {
                Some(ti) => q.1 matches Some(te) && te as int == ti && te <= n,
                None => q.1 is None,
            }),
            None => r is None,
        },
    decreases fuel,
{
    if fuel == 0 {
        return None;
    }
    match parse_group_exec(s, n, i) {
        None => None,
        Some((g, j)) => {
            if j == n {
                let mut v: Vec<u16> = Vec::new();
                v.push(g);
                proof {
                    assert(v@ =~= seq![g]);
                }
                Some((v, None))
            } else if s.get_char(j) == ':' {
                if j + 1 < n && s.get_char(j + 1) == ':' {
                    let mut v: Vec<u16> = Vec::new();
                    v.push(g);
                    proof {
                        assert(v@ =~= seq![g]);
                    }
                    Some((v, Some(j + 2)))
                } else {
                    match parse_head_exec(s, n, j + 1, fuel - 1) {
                        None => None,
                        Some((gs, t)) => {
                            let mut gs = gs;
                            let ghost rest = gs@;
                            gs.insert(0, g);
                            proof {
                                assert(gs@ =~= seq![g] + rest);
                            }
                            Some((gs, t))
                        },
                    }
                }
            } else {
                None
            }
        },
    }
}

fn be_prefix_value(gs: &Vec<u16>, k: usize) -> (r: u128)
    requires
        k <= gs@.len() <= 8,
    ensures
        r as nat == be_value(gs@.take(k as int)),
    decreases k,
{
    if k == 0 {
        assert(gs@.take(0) =~= Seq::<u16>::empty());
        0
    } else {
        let prev = be_prefix_value(gs, k - 1);
        proof {
            lemma_be_value_bound(gs@.take(k - 1 as int));
            assert(gs@.take(k as int).drop_last() =~= gs@.take(k - 1 as int));
            assert(gs@.take(k as int).last() == gs@[k - 1 as int]);
        }
        prev * 0x10000 + gs[k - 1] as u128
    }
}

fn be_value_exec(gs: &Vec<u16>) -> (r: u128)
    requires
        gs@.len() <= 8,
    ensures
        r as nat == be_value(gs@),
{
    let k = gs.len();
    let r = be_prefix_value(gs, k);
    proof {
        assert(gs@.take(k as int) =~= gs@);
    }
    r
}

/// Pad `head` with zero groups up to eight, then append `tail`.
fn fill_groups(head: Vec<u16>, tail: Vec<u16>) -> (r: Vec<u16>)
    requires
        head@.len() + tail@.len() <= 8,
    ensures
        r@ == head@ + zero_groups((8 - head@.len() - tail@.len()) as nat) + tail@,
{
    let ghost h = head@;
    let ghost t = tail@;
    let pad: usize = 8 - head.len() - tail.len();
    let mut all = head;
    let mut k: usize = 0;
    while k < pad
        invariant
            k <= pad,
            pad == 8 - h.len() - t.len(),
            all@ =~= h + zero_groups(k as nat),
        decreases pad - k,
    {
        all.push(0u16);
        proof {
            assert(h + zero_groups((k + 1) as nat) =~= (h + zero_groups(k as nat)).push(0u16));
        }
        k = k + 1;
    }
    let mut tail = tail;
    all.append(&mut tail);
    proof {
        assert(all@ =~= h + zero_groups(pad as nat) + t);
    }
    all
}

fn parse_v6_exec(s: &str, n: usize) -> (r: Option<u128>)
    requires
        n == s@.len(),
    ensures
        r == parse_v6_spec(s@),
{
    if n >= 2 && s.get_char(0) == ':' && s.get_char(1) == ':' {
        if n == 2 {
            Some(0u128)
        } else {
            match parse_tail_exec(s, n, 2, 8) {
                None => None,
                Some(tail) => {
                    if tail.len() <= 7 {
                        let ghost t = tail@;
                        let all = fill_groups(Vec::new(), tail);
                        proof {
                            assert(all@ =~= zero_groups((8 - t.len()) as nat) + t);
                        }
                        Some(be_value_exec(&all))
                    } else {
                        None
                    }
                },
            }
        }
    } else {
        match parse_head_exec(s, n, 0, 8) {
            None => None,
            Some((head, t)) => {
                match t {
                    None => {
                        if head.len() == 8 {
                            Some(be_value_exec(&head))
                        } else {
                            None
                        }
                    },
                    Some(ti) => {
                        if ti == n {
                            if head.len() <= 7 {
                                let all = fill_groups(head, Vec::new());
                                Some(be_value_exec(&all))
                            } else {
                                None
                            }
                        } else {
                            match parse_tail_exec(s, n, ti, 8) {
                                None => None,
                                Some(tl) => {
                                    if head.len() <= 7 && tl.len() <= 7 - head.len() {
                                        let all = fill_groups(head, tl);
                                        Some(be_value_exec(&all))
                                    } else {
                                        None
                                    }
                                },
                            }
                        }
                    },
                }
            },
        }
    }
}

// ---------------------------------------------------------------------------
// The public textual parser
// ---------------------------------------------------------------------------

/// Textual address: dotted-decimal IPv4 if the text parses as one, else IPv6.
pub open spec fn parse_ip_spec(s: Seq<char>) -> Option<IpKey> {
    match parse_v4_spec(s) {
        Some(a) => Some(IpKey::V4(a)),
        None => match parse_v6_spec(s) {
            Some(b) => Some(IpKey::V6(b)),
            None => None,
        },
    }
}

/// Parse a textual IPv4 or IPv6 address; any other text is an invalid
/// address entry.
pub fn parse_ip_address(address: &str) -> (r: Result<IpKey, GeoIPConfigError>)
    ensures
        match parse_ip_spec(address@) {
            Some(k) => r == Ok::<IpKey, GeoIPConfigError>(k),
            None => r == Err::<IpKey, GeoIPConfigError>(GeoIPConfigError::InvalidAddressEntry),
        },
{
    let n = address.unicode_len();
    match parse_v4_exec(address, n) {
        Some(a) => Ok(IpKey::V4(a)),
        None => match parse_v6_exec(address, n) {
            Some(b) => Ok(IpKey::V6(b)),
            None => Err(GeoIPConfigError::InvalidAddressEntry),
        },
    }
}

} // verus!
