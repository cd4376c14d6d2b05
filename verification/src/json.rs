//! Parser for the on-disk format of a file-backed mapping: a single JSON
//! object whose keys are textual addresses and whose values are flat records
//! of scalar fields. The grammar is stated by spec functions; the executable
//! parser is proved to follow them exactly.

use vstd::prelude::*;
use vstd::string::StrSliceExecFns;
use vstd::string::StringExecFns;
use crate::error::GeoIPConfigError;
use crate::ip::{
    IpKey, is_dec_digit, is_hex_digit, hex_value, dec_run_end, lemma_dec_run_end, parse_ip_spec,
    dec_run_end_exec, hex_digit_at,
};
use crate::scalar::{ScalarSpec, ScalarValue, is_number_char};
use crate::serialize::{RecordSpec, fields_view};
use crate::text::{push_char, char_from_u32};

verus! {

pub open spec fn is_ws(c: char) -> bool {
    c == ' ' || c == '\t' || c == '\n' || c == '\r'
}

/// First position at or after `i` that holds no whitespace.
pub open spec fn ws_end(s: Seq<char>, i: int) -> int
    decreases s.len() - i when 0 <= i <= s.len()
{
    if i < s.len() && is_ws(s[i]) {
        ws_end(s, i + 1)
    } else {
        i
    }
}

pub proof fn lemma_ws_end(s: Seq<char>, i: int)
    requires
        0 <= i <= s.len(),
    ensures
        i <= ws_end(s, i) <= s.len(),
    decreases s.len() - i,
{
    if i < s.len() && is_ws(s[i]) {
        lemma_ws_end(s, i + 1);
    }
}

fn ws_end_exec(s: &str, n: usize, i: usize) -> (j: usize)
    requires
        n == s@.len(),
        i <= n,
    ensures
        j as int == ws_end(s@, i as int),
        i <= j <= n,
    decreases n - i,
{
    if i < n {
        let c = s.get_char(i);
        if c == ' ' || c == '\t' || c == '\n' || c == '\r' {
            ws_end_exec(s, n, i + 1)
        } else {
            i
        }
    } else {
        i
    }
}

/// The character with the given scalar value.
pub open spec fn char_of(v: nat) -> char {
    v as char
}

/// Decoding of a single-character escape.
pub open spec fn esc_decode(e: char) -> Option<char> {
    if e == '"' {
        Some('"')
    } else if e == '\\' {
        Some('\\')
    } else if e == '/' {
        Some('/')
    } else if e == 'b' {
        Some('\u{8}')
    } else if e == 'f' {
        Some('\u{c}')
    } else if e == 'n' {
        Some('\n')
    } else if e == 'r' {
        Some('\r')
    } else if e == 't' {
        Some('\t')
    } else {
        None
    }
}

/// Body of a JSON string from position `i` (just after the opening quote) to
/// its closing quote: raw characters, single-character escapes, and `\u`
/// escapes of scalar values outside the surrogate range. Yields the decoded
/// text and the position after the closing quote.
pub open spec fn str_chars(s: Seq<char>, i: int) -> Option<(Seq<char>, int)>
    decreases s.len() - i when 0 <= i <= s.len()
{
    if i >= s.len() {
        None
    } else if s[i] == '"' {
        Some((Seq::empty(), i + 1))
    } else if s[i] == '\\' {
        if i + 1 >= s.len() {
            None
        } else if s[i + 1] == 'u' {
            if i + 6 <= s.len() && is_hex_digit(s[i + 2]) && is_hex_digit(s[i + 3]) && is_hex_digit(
                s[i + 4],
            ) && is_hex_digit(s[i + 5]) {
                let v = hex_value(s, i + 2, i + 6);
                if v < 0xD800 || v >= 0xE000 {
                    match str_chars(s, i + 6) {
                        None => None,
                        Some((rest, j)) => Some((seq![char_of(v)] + rest, j)),
                    }
                } else {
                    None
                }
            } else {
                None
            }
        } else {
            match esc_decode(s[i + 1]) {
                None => None,
                Some(c) => match str_chars(s, i + 2) {
                    None => None,
                    Some((rest, j)) => Some((seq![c] + rest, j)),
                },
            }
        }
    } else if (s[i] as u32) < 0x20 {
        None
    } else {
        match str_chars(s, i + 1) {
            None => None,
            Some((rest, j)) => Some((seq![s[i]] + rest, j)),
        }
    }
}

fn str_chars_exec(s: &str, n: usize, i: usize) -> (r: Option<(String, usize)>)
    requires
        n == s@.len(),
        i <= n,
    ensures
        match str_chars(s@, i as int) {
            Some(p) => r matches Some(q) && q.0@ == p.0 && q.1 as int == p.1 && q.1 <= n,
            None => r is None,
        },
    decreases n - i,
{
    if i >= n {
        return None;
    }
    let c = s.get_char(i);
    if c == '"' {
        let out = String::new();
        assert(out@ =~= Seq::<char>::empty());
        Some((out, i + 1))
    } else if c == '\\' {
        if i + 1 >= n {
            return None;
        }
        let e = s.get_char(i + 1);
        if e == 'u' {
            if n - i >= 6 {
                let h2 = s.get_char(i + 2);
                let h3 = s.get_char(i + 3);
                let h4 = s.get_char(i + 4);
                let h5 = s.get_char(i + 5);
                if is_hex_digit_exec(h2) && is_hex_digit_exec(h3) && is_hex_digit_exec(h4)
                    && is_hex_digit_exec(h5) {
                    let v0 = hex_digit_at(s, i + 2);
                    let v1 = hex_digit_at(s, i + 3);
                    let v2 = hex_digit_at(s, i + 4);
                    let v3 = hex_digit_at(s, i + 5);
                    proof {
                        assert(hex_value(s@, i + 2, i + 2 as int) == 0);
                        assert(hex_value(s@, i + 2, i + 3 as int) == crate::ip::hex_val(
                            s@[i + 2 as int],
                        ));
                        assert(hex_value(s@, i + 2, i + 4 as int) == hex_value(s@, i + 2, i + 3)
                            * 16 + crate::ip::hex_val(s@[i + 3 as int]));
                        assert(hex_value(s@, i + 2, i + 5 as int) == hex_value(s@, i + 2, i + 4)
                            * 16 + crate::ip::hex_val(s@[i + 4 as int]));
                        assert(hex_value(s@, i + 2, i + 6 as int) == hex_value(s@, i + 2, i + 5)
                            * 16 + crate::ip::hex_val(s@[i + 5 as int]));
                    }
                    let v: u32 = v0 * 4096 + v1 * 256 + v2 * 16 + v3;
                    if v < 0xD800 || v >= 0xE000 {
                        match char_from_u32(v) {
                            None => {
                                proof {
                                    assert(false);
                                }
                                None
                            },
                            Some(ch) => {
                                proof {
                                    assert(ch as u32 == v);
                                    vstd::utf8::char_u32_cast(ch, v);
                                    assert(ch == char_of(v as nat));
                                }
                                match str_chars_exec(s, n, i + 6) {
                                    None => None,
                                    Some((rest, j)) => {
                                        let ghost restv = rest@;
                                        let mut out = String::new();
                                        push_char(&mut out, ch);
                                        out.append(rest.as_str());
                                        proof {
                                            assert(out@ =~= seq![char_of((v as nat))] + restv);
                                        }
                                        Some((out, j))
                                    },
                                }
                            },
                        }
                    } else {
                        None
                    }
                } else {
                    None
                }
            } else {
                None
            }
        } else {
            let d: Option<char> = if e == '"' {
                Some('"')
            } else if e == '\\' {
                Some('\\')
            } else if e == '/' {
                Some('/')
            } else if e == 'b' {
                Some('\u{8}')
            } else if e == 'f' {
                Some('\u{c}')
            } else if e == 'n' {
                Some('\n')
            } else if e == 'r' {
                Some('\r')
            } else if e == 't' {
                Some('\t')
            } else {
                None
            };
            match d {
                None => None,
                Some(dc) => match str_chars_exec(s, n, i + 2) {
                    None => None,
                    Some((rest, j)) => {
                        let ghost restv = rest@;
                        let mut out = String::new();
                        push_char(&mut out, dc);
                        out.append(rest.as_str());
                        proof {
                            assert(out@ =~= seq![dc] + restv);
                        }
                        Some((out, j))
                    },
                },
            }
        }
    } else if (c as u32) < 0x20 {
        None
    } else {
        match str_chars_exec(s, n, i + 1) {
            None => None,
            Some((rest, j)) => {
                let ghost restv = rest@;
                let mut out = String::new();
                push_char(&mut out, c);
                out.append(rest.as_str());
                proof {
                    assert(out@ =~= seq![s@[i as int]] + restv);
                }
                Some((out, j))
            },
        }
    }
}

fn is_hex_digit_exec(c: char) -> (r: bool)
    ensures
        r == is_hex_digit(c),
{
    let u = c as u32;
    (48 <= u && u <= 57) || (97 <= u && u <= 102) || (65 <= u && u <= 70)
}

// ---------------------------------------------------------------------------
// Numbers
// ---------------------------------------------------------------------------

/// First position at or after `i` that holds no number character.
pub open spec fn num_run_end(s: Seq<char>, i: int) -> int
    decreases s.len() - i when 0 <= i <= s.len()
{
    if i < s.len() && is_number_char(s[i]) {
        num_run_end(s, i + 1)
    } else {
        i
    }
}

pub proof fn lemma_num_run_end(s: Seq<char>, i: int)
    requires
        0 <= i <= s.len(),
    ensures
        i <= num_run_end(s, i) <= s.len(),
        forall|j: int| i <= j < num_run_end(s, i) ==> is_number_char(s[j]),
    decreases s.len() - i,
{
    if i < s.len() && is_number_char(s[i]) {
        lemma_num_run_end(s, i + 1);
    }
}

fn num_run_end_exec(s: &str, n: usize, i: usize) -> (j: usize)
    requires
        n == s@.len(),
        i <= n,
    ensures
        j as int == num_run_end(s@, i as int),
        i <= j <= n,
    decreases n - i,
{
    if i < n {
        let c = s.get_char(i);
        if ('0' <= c && c <= '9') || c == '-' || c == '+' || c == '.' || c == 'e' || c == 'E' {
            num_run_end_exec(s, n, i + 1)
        } else {
            i
        }
    } else {
        i
    }
}

/// Integer part from `p`: at least one digit, no leading zero unless lone.
pub open spec fn after_int(t: Seq<char>, p: int) -> Option<int>
    recommends
        0 <= p <= t.len(),
{
    let e = dec_run_end(t, p);
    if e > p && (t[p] == '0' ==> e == p + 1) {
        Some(e)
    } else {
        None
    }
}

/// Optional fraction from `i`: a point followed by at least one digit.
pub open spec fn after_frac(t: Seq<char>, i: int) -> Option<int>
    recommends
        0 <= i <= t.len(),
{
    if i < t.len() && t[i] == '.' {
        let e = dec_run_end(t, i + 1);
        if e > i + 1 {
            Some(e)
        } else {
            None
        }
    } else {
        Some(i)
    }
}

/// Optional exponent from `i`: a mark, an optional sign, at least one digit.
pub open spec fn after_exp(t: Seq<char>, i: int) -> Option<int>
    recommends
        0 <= i <= t.len(),
{
    if i < t.len() && (t[i] == 'e' || t[i] == 'E') {
        let p = if i + 1 < t.len() && (t[i + 1] == '+' || t[i + 1] == '-') {
            i + 2
        } else {
            i + 1
        };
        let e = dec_run_end(t, p);
        if e > p {
            Some(e)
        } else {
            None
        }
    } else {
        Some(i)
    }
}

/// The JSON numeral grammar, applied to a whole token.
pub open spec fn json_num_ok(t: Seq<char>) -> bool {
    let p: int = if t.len() > 0 && t[0] == '-' {
        1
    } else {
        0
    };
    match after_int(t, p) {
        None => false,
        Some(i1) => match after_frac(t, i1) {
            None => false,
            Some(i2) => match after_exp(t, i2) {
                None => false,
                Some(i3) => i3 == t.len(),
            },
        },
    }
}

fn dec_digit_exec(c: char) -> (r: bool)
    ensures
        r == is_dec_digit(c),
{
    let u = c as u32;
    48 <= u && u <= 57
}

/// Check a whole token against the numeral grammar.
fn json_num_ok_exec(t: &str) -> (r: bool)
    ensures
        r == json_num_ok(t@),
{
    let n = t.unicode_len();
    let p: usize = if n > 0 && t.get_char(0) == '-' {
        1
    } else {
        0
    };
    proof {
        lemma_dec_run_end(t@, p as int);
    }
    let e1 = dec_run_end_exec(t, n, p);
    if !(e1 > p && (!(t.get_char(p) == '0') || e1 == p + 1)) {
        return false;
    }
    let i1 = e1;
    let i2: usize;
    if i1 < n && t.get_char(i1) == '.' {
        proof {
            lemma_dec_run_end(t@, i1 + 1 as int);
        }
        let e2 = dec_run_end_exec(t, n, i1 + 1);
        if !(e2 > i1 + 1) {
            return false;
        }
        i2 = e2;
    } else {
        i2 = i1;
    }
    let i3: usize;
    if i2 < n && (t.get_char(i2) == 'e' || t.get_char(i2) == 'E') {
        let p2: usize = if i2 + 1 < n && (t.get_char(i2 + 1) == '+' || t.get_char(i2 + 1) == '-') {
            i2 + 2
        } else {
            i2 + 1
        };
        proof {
            lemma_dec_run_end(t@, p2 as int);
        }
        let e3 = dec_run_end_exec(t, n, p2);
        if !(e3 > p2) {
            return false;
        }
        i3 = e3;
    } else {
        i3 = i2;
    }
    i3 == n
}

// ---------------------------------------------------------------------------
// Scalars
// ---------------------------------------------------------------------------

/// True when `s` holds the exact characters of `tag` starting at `i`.
pub open spec fn tag_at(s: Seq<char>, i: int, tag: Seq<char>) -> bool {
    i + tag.len() <= s.len() && s.subrange(i, i + tag.len()) =~= tag
}

/// A scalar value at `i`: a string, a numeral, `true` or `false`. A nested
/// object, an array or `null` is not a scalar and marks an invalid entry.
pub open spec fn parse_scalar_spec(s: Seq<char>, i: int) -> Result<(ScalarSpec, int),
    GeoIPConfigError,
>
    recommends
        0 <= i <= s.len(),
{
    if i >= s.len() {
        Err(GeoIPConfigError::GeoIPFileWrongFormat)
    } else if s[i] == '"' {
        match str_chars(s, i + 1) {
            None => Err(GeoIPConfigError::GeoIPFileWrongFormat),
            Some((t, j)) => Ok((ScalarSpec::SStr(t), j)),
        }
    } else if s[i] == 't' {
        if tag_at(s, i, seq!['t', 'r', 'u', 'e']) {
            Ok((ScalarSpec::SBool(true), i + 4))
        } else {
            Err(GeoIPConfigError::GeoIPFileWrongFormat)
        }
    } else if s[i] == 'f' {
        if tag_at(s, i, seq!['f', 'a', 'l', 's', 'e']) {
            Ok((ScalarSpec::SBool(false), i + 5))
        } else {
            Err(GeoIPConfigError::GeoIPFileWrongFormat)
        }
    } else if s[i] == '-' || is_dec_digit(s[i]) {
        let j = num_run_end(s, i);
        if json_num_ok(s.subrange(i, j)) {
            Ok((ScalarSpec::SNum(s.subrange(i, j)), j))
        } else {
            Err(GeoIPConfigError::GeoIPFileWrongFormat)
        }
    } else if s[i] == '{' || s[i] == '[' || s[i] == 'n' {
        Err(GeoIPConfigError::InvalidInlineEntryType)
    } else {
        Err(GeoIPConfigError::GeoIPFileWrongFormat)
    }
}

fn tag_true_exec(s: &str, n: usize, i: usize) -> (r: bool)
    requires
        n == s@.len(),
        i <= n,
    ensures
        r == tag_at(s@, i as int, seq!['t', 'r', 'u', 'e']),
{
    if n - i >= 4 {
        let r = s.get_char(i) == 't' && s.get_char(i + 1) == 'r' && s.get_char(i + 2) == 'u'
            && s.get_char(i + 3) == 'e';
        proof {
            if r {
                assert(s@.subrange(i as int, i + 4 as int) =~= seq!['t', 'r', 'u', 'e']);
            } else {
                assert(!(s@.subrange(i as int, i + 4 as int) =~= seq!['t', 'r', 'u', 'e'])) by {
                    if s@.subrange(i as int, i + 4 as int) =~= seq!['t', 'r', 'u', 'e'] {
                        assert(s@[i as int] == 't' && s@[i + 1 as int] == 'r' && s@[i + 2 as int]
                            == 'u' && s@[i + 3 as int] == 'e') by {
                            assert(s@.subrange(i as int, i + 4 as int)[0] == s@[i as int]);
                            assert(s@.subrange(i as int, i + 4 as int)[1] == s@[i + 1 as int]);
                            assert(s@.subrange(i as int, i + 4 as int)[2] == s@[i + 2 as int]);
                            assert(s@.subrange(i as int, i + 4 as int)[3] == s@[i + 3 as int]);
                        }
                    }
                }
            }
        }
        r
    } else {
        false
    }
}

fn tag_false_exec(s: &str, n: usize, i: usize) -> (r: bool)
    requires
        n == s@.len(),
        i <= n,
    ensures
        r == tag_at(s@, i as int, seq!['f', 'a', 'l', 's', 'e']),
{
    if n - i >= 5 {
        let r = s.get_char(i) == 'f' && s.get_char(i + 1) == 'a' && s.get_char(i + 2) == 'l'
            && s.get_char(i + 3) == 's' && s.get_char(i + 4) == 'e';
        proof {
            if r {
                assert(s@.subrange(i as int, i + 5 as int) =~= seq!['f', 'a', 'l', 's', 'e']);
            } else {
                assert(!(s@.subrange(i as int, i + 5 as int) =~= seq!['f', 'a', 'l', 's', 'e']))
                    by {
                    if s@.subrange(i as int, i + 5 as int) =~= seq!['f', 'a', 'l', 's', 'e'] {
                        assert(s@.subrange(i as int, i + 5 as int)[0] == s@[i as int]);
                        assert(s@.subrange(i as int, i + 5 as int)[1] == s@[i + 1 as int]);
                        assert(s@.subrange(i as int, i + 5 as int)[2] == s@[i + 2 as int]);
                        assert(s@.subrange(i as int, i + 5 as int)[3] == s@[i + 3 as int]);
                        assert(s@.subrange(i as int, i + 5 as int)[4] == s@[i + 4 as int]);
                    }
                }
            }
        }
        r
    } else {
        false
    }
}

fn parse_scalar_exec(s: &str, n: usize, i: usize) -> (r: Result<(ScalarValue, usize),
    GeoIPConfigError,
>)
    requires
        n == s@.len(),
        i <= n,
    ensures
        match parse_scalar_spec(s@, i as int) {
            Ok(p) => r matches Ok(q) && q.0@ == p.0 && q.1 as int == p.1 && q.1 <= n,
            Err(e) => r matches Err(e2) && e2 == e,
        },
{
    if i >= n {
        return Err(GeoIPConfigError::GeoIPFileWrongFormat);
    }
    let c = s.get_char(i);
    if c == '"' {
        match str_chars_exec(s, n, i + 1) {
            None => Err(GeoIPConfigError::GeoIPFileWrongFormat),
            Some((t, j)) => Ok((ScalarValue::Str(t), j)),
        }
    } else if c == 't' {
        if tag_true_exec(s, n, i) {
            Ok((ScalarValue::Bool(true), i + 4))
        } else {
            Err(GeoIPConfigError::GeoIPFileWrongFormat)
        }
    } else if c == 'f' {
        if tag_false_exec(s, n, i) {
            Ok((ScalarValue::Bool(false), i + 5))
        } else {
            Err(GeoIPConfigError::GeoIPFileWrongFormat)
        }
    } else if c == '-' || dec_digit_exec(c) {
        proof {
            lemma_num_run_end(s@, i as int);
        }
        let j = num_run_end_exec(s, n, i);
        let tok = s.substring_char(i, j);
        if json_num_ok_exec(tok) {
            Ok((ScalarValue::Num(tok.to_owned()), j))
        } else {
            Err(GeoIPConfigError::GeoIPFileWrongFormat)
        }
    } else if c == '{' || c == '[' || c == 'n' {
        Err(GeoIPConfigError::InvalidInlineEntryType)
    } else {
        Err(GeoIPConfigError::GeoIPFileWrongFormat)
    }
}

// ---------------------------------------------------------------------------
// Records and the whole file
// ---------------------------------------------------------------------------

/// Members of a record object from the first name: `"name" ws : ws scalar ws`
/// separated by commas, ending at the closing brace. Yields the fields and
/// the position after the brace.
pub open spec fn parse_members_spec(s: Seq<char>, i: int, fuel: nat) -> Result<(RecordSpec, int),
    GeoIPConfigError,
>
    decreases fuel,
{
    if fuel == 0 {
        Err(GeoIPConfigError::GeoIPFileWrongFormat)
    } else if i >= s.len() || s[i] != '"' {
        Err(GeoIPConfigError::GeoIPFileWrongFormat)
    } else {
        match str_chars(s, i + 1) {
            None => Err(GeoIPConfigError::GeoIPFileWrongFormat),
            Some((name, j)) => {
                let p = ws_end(s, j);
                if p >= s.len() || s[p] != ':' {
                    Err(GeoIPConfigError::GeoIPFileWrongFormat)
                } else {
                    let q = ws_end(s, p + 1);
                    match parse_scalar_spec(s, q) {
                        Err(e) => Err(e),
                        Ok((v, r2)) => {
                            let w = ws_end(s, r2);
                            if w < s.len() && s[w] == ',' {
                                let x = ws_end(s, w + 1);
                                match parse_members_spec(s, x, (fuel - 1) as nat) {
                                    Err(e) => Err(e),
                                    Ok((rest, y)) => Ok((seq![(name, v)] + rest, y)),
                                }
                            } else if w < s.len() && s[w] == '}' {
                                Ok((seq![(name, v)], w + 1))
                            } else {
                                Err(GeoIPConfigError::GeoIPFileWrongFormat)
                            }
                        },
                    }
                }
            },
        }
    }
}

/// A record object at `i` (which must hold `{`): possibly empty member list.
pub open spec fn parse_record_spec(s: Seq<char>, i: int, fuel: nat) -> Result<(RecordSpec, int),
    GeoIPConfigError,
>
    recommends
        0 <= i < s.len(),
        s[i] == '{',
{
    let p = ws_end(s, i + 1);
    if p < s.len() && s[p] == '}' {
        Ok((Seq::empty(), p + 1))
    } else {
        parse_members_spec(s, p, fuel)
    }
}

fn parse_members_exec(s: &str, n: usize, i: usize, fuel: usize) -> (r: Result<(Vec<(
    String,
    ScalarValue,
)>, usize), GeoIPConfigError>)
    requires
        n == s@.len(),
        i <= n,
    ensures
        match parse_members_spec(s@, i as int, fuel as nat) {
            Ok(p) => r matches Ok(q) && fields_view(q.0@) == p.0 && q.1 as int == p.1 && q.1 <= n,
            Err(e) => r matches Err(e2) && e2 == e,
        },
    decreases fuel,
{
    if fuel == 0 {
        return Err(GeoIPConfigError::GeoIPFileWrongFormat);
    }
    if i >= n {
        return Err(GeoIPConfigError::GeoIPFileWrongFormat);
    }
    if !(s.get_char(i) == '"') {
        return Err(GeoIPConfigError::GeoIPFileWrongFormat);
    }
    match str_chars_exec(s, n, i + 1) {
        None => Err(GeoIPConfigError::GeoIPFileWrongFormat),
        Some((name, j)) => {
            let p = ws_end_exec(s, n, j);
            if p >= n || !(s.get_char(p) == ':') {
                return Err(GeoIPConfigError::GeoIPFileWrongFormat);
            }
            let q = ws_end_exec(s, n, p + 1);
            match parse_scalar_exec(s, n, q) {
                Err(e) => Err(e),
                Ok((v, r2)) => {
                    let w = ws_end_exec(s, n, r2);
                    if w < n && s.get_char(w) == ',' {
                        let x = ws_end_exec(s, n, w + 1);
                        match parse_members_exec(s, n, x, fuel - 1) {
                            Err(e) => Err(e),
                            Ok((rest, y)) => {
                                let mut rest = rest;
                                let ghost restv = rest@;
                                rest.insert(0, (name, v));
                                proof {
                                    assert(fields_view(rest@) =~= seq![(name@, v@)] + fields_view(
                                        restv,
                                    ));
                                }
                                Ok((rest, y))
                            },
                        }
                    } else if w < n && s.get_char(w) == '}' {
                        let mut one: Vec<(String, ScalarValue)> = Vec::new();
                        let ghost namev = name@;
                        let ghost vv = v@;
                        one.push((name, v));
                        proof {
                            assert(fields_view(one@) =~= seq![(namev, vv)]);
                        }
                        Ok((one, w + 1))
                    } else {
                        Err(GeoIPConfigError::GeoIPFileWrongFormat)
                    }
                },
            }
        },
    }
}

fn parse_record_exec(s: &str, n: usize, i: usize, fuel: usize) -> (r: Result<(Vec<(
    String,
    ScalarValue,
)>, usize), GeoIPConfigError>)
    requires
        n == s@.len(),
        i < n,
        s@[i as int] == '{',
    ensures
        match parse_record_spec(s@, i as int, fuel as nat) {
            Ok(p) => r matches Ok(q) && fields_view(q.0@) == p.0 && q.1 as int == p.1 && q.1 <= n,
            Err(e) => r matches Err(e2) && e2 == e,
        },
{
    let p = ws_end_exec(s, n, i + 1);
    if p < n && s.get_char(p) == '}' {
        let empty: Vec<(String, ScalarValue)> = Vec::new();
        proof {
            assert(fields_view(empty@) =~= Seq::<(Seq<char>, ScalarSpec)>::empty());
        }
        Ok((empty, p + 1))
    } else {
        parse_members_exec(s, n, p, fuel)
    }
}

/// Entries of the top-level object from the first key: each key is a textual
/// address, each value a record object.
pub open spec fn parse_entries_spec(s: Seq<char>, i: int, fuel: nat) -> Result<(Seq<(
    IpKey,
    RecordSpec,
)>, int), GeoIPConfigError>
    decreases fuel,
{
    if fuel == 0 {
        Err(GeoIPConfigError::GeoIPFileWrongFormat)
    } else if i >= s.len() || s[i] != '"' {
        Err(GeoIPConfigError::GeoIPFileWrongFormat)
    } else {
        match str_chars(s, i + 1) {
            None => Err(GeoIPConfigError::GeoIPFileWrongFormat),
            Some((ktext, j)) => match parse_ip_spec(ktext) {
                None => Err(GeoIPConfigError::InvalidAddressEntry),
                Some(k) => {
                    let p = ws_end(s, j);
                    if p >= s.len() || s[p] != ':' {
                        Err(GeoIPConfigError::GeoIPFileWrongFormat)
                    } else {
                        let q = ws_end(s, p + 1);
                        if q < s.len() && s[q] == '{' {
                            match parse_record_spec(s, q, fuel) {
                                Err(e) => Err(e),
                                Ok((rec, r2)) => {
                                    let w = ws_end(s, r2);
                                    if w < s.len() && s[w] == ',' {
                                        let x = ws_end(s, w + 1);
                                        match parse_entries_spec(s, x, (fuel - 1) as nat) {
                                            Err(e) => Err(e),
                                            Ok((rest, y)) => Ok((seq![(k, rec)] + rest, y)),
                                        }
                                    } else if w < s.len() && s[w] == '}' {
                                        Ok((seq![(k, rec)], w + 1))
                                    } else {
                                        Err(GeoIPConfigError::GeoIPFileWrongFormat)
                                    }
                                },
                            }
                        } else {
                            match parse_scalar_spec(s, q) {
                                Ok(_) => Err(GeoIPConfigError::InvalidInlineEntryType),
                                Err(e) => Err(e),
                            }
                        }
                    }
                },
            },
        }
    }
}

/// The whole file: optional whitespace around a single top-level object.
pub open spec fn parse_file_spec(s: Seq<char>) -> Result<Seq<(IpKey, RecordSpec)>,
    GeoIPConfigError,
> {
    let i = ws_end(s, 0);
    if i >= s.len() || s[i] != '{' {
        Err(GeoIPConfigError::GeoIPFileWrongFormat)
    } else {
        let p = ws_end(s, i + 1);
        if p < s.len() && s[p] == '}' {
            if ws_end(s, p + 1) == s.len() {
                Ok(Seq::empty())
            } else {
                Err(GeoIPConfigError::GeoIPFileWrongFormat)
            }
        } else {
            match parse_entries_spec(s, p, s.len() as nat) {
                Err(e) => Err(e),
                Ok((es, j)) => if ws_end(s, j) == s.len() {
                    Ok(es)
                } else {
                    Err(GeoIPConfigError::GeoIPFileWrongFormat)
                },
            }
        }
    }
}

/// The model of a parsed entry list.
pub open spec fn raw_entries_view(v: Seq<(IpKey, Vec<(String, ScalarValue)>)>) -> Seq<(
    IpKey,
    RecordSpec,
)> {
    v.map(|i: int, p: (IpKey, Vec<(String, ScalarValue)>)| (p.0, fields_view(p.1@)))
}

fn parse_entries_exec(s: &str, n: usize, i: usize, fuel: usize) -> (r: Result<(Vec<(
    IpKey,
    Vec<(String, ScalarValue)>,
)>, usize), GeoIPConfigError>)
    requires
        n == s@.len(),
        i <= n,
    ensures
        match parse_entries_spec(s@, i as int, fuel as nat) {
            Ok(p) => r matches Ok(q) && raw_entries_view(q.0@) == p.0 && q.1 as int == p.1 && q.1
                <= n,
            Err(e) => r matches Err(e2) && e2 == e,
        },
    decreases fuel,
{
    if fuel == 0 {
        return Err(GeoIPConfigError::GeoIPFileWrongFormat);
    }
    if i >= n || !(s.get_char(i) == '"') {
        return Err(GeoIPConfigError::GeoIPFileWrongFormat);
    }
    match str_chars_exec(s, n, i + 1) {
        None => Err(GeoIPConfigError::GeoIPFileWrongFormat),
        Some((ktext, j)) => {
            let key = match crate::ip::parse_ip_address(ktext.as_str()) {
                Err(_) => {
                    return Err(GeoIPConfigError::InvalidAddressEntry);
                },
                Ok(k) => k,
            };
            let p = ws_end_exec(s, n, j);
            if p >= n || !(s.get_char(p) == ':') {
                return Err(GeoIPConfigError::GeoIPFileWrongFormat);
            }
            let q = ws_end_exec(s, n, p + 1);
            if q < n && s.get_char(q) == '{' {
                match parse_record_exec(s, n, q, fuel) {
                    Err(e) => Err(e),
                    Ok((rec, r2)) => {
                        let w = ws_end_exec(s, n, r2);
                        if w < n && s.get_char(w) == ',' {
                            let x = ws_end_exec(s, n, w + 1);
                            match parse_entries_exec(s, n, x, fuel - 1) {
                                Err(e) => Err(e),
                                Ok((rest, y)) => {
                                    let mut rest = rest;
                                    let ghost restv = rest@;
                                    let ghost recv = fields_view(rec@);
                                    rest.insert(0, (key, rec));
                                    proof {
                                        assert(raw_entries_view(rest@) =~= seq![(key, recv)]
                                            + raw_entries_view(restv));
                                    }
                                    Ok((rest, y))
                                },
                            }
                        } else if w < n && s.get_char(w) == '}' {
                            let ghost recv = fields_view(rec@);
                            let mut one: Vec<(IpKey, Vec<(String, ScalarValue)>)> = Vec::new();
                            one.push((key, rec));
                            proof {
                                assert(raw_entries_view(one@) =~= seq![(key, recv)]);
                            }
                            Ok((one, w + 1))
                        } else {
                            Err(GeoIPConfigError::GeoIPFileWrongFormat)
                        }
                    },
                }
            } else {
                match parse_scalar_exec(s, n, q) {
                    Ok(_) => Err(GeoIPConfigError::InvalidInlineEntryType),
                    Err(e) => Err(e),
                }
            }
        },
    }
}

// ---------------------------------------------------------------------------
// Parsed values are well formed
// ---------------------------------------------------------------------------

pub proof fn lemma_str_chars_bounds(s: Seq<char>, i: int)
    requires
        0 <= i <= s.len(),
    ensures
        match str_chars(s, i) {
            Some(p) => i < p.1 <= s.len(),
            None => true,
        },
    decreases s.len() - i,
{
    if i >= s.len() {
    } else if s[i] == '"' {
    } else if s[i] == '\\' {
        if i + 1 >= s.len() {
        } else if s[i + 1] == 'u' {
            if i + 6 <= s.len() && is_hex_digit(s[i + 2]) && is_hex_digit(s[i + 3]) && is_hex_digit(
                s[i + 4],
            ) && is_hex_digit(s[i + 5]) {
                lemma_str_chars_bounds(s, i + 6);
            }
        } else {
            lemma_str_chars_bounds(s, i + 2);
        }
    } else {
        lemma_str_chars_bounds(s, i + 1);
    }
}

pub proof fn lemma_scalar_bounds_wf(s: Seq<char>, i: int)
    requires
        0 <= i <= s.len(),
    ensures
        match parse_scalar_spec(s, i) {
            Ok(p) => i < p.1 <= s.len() && crate::scalar::scalar_wf(p.0),
            Err(_) => true,
        },
{
    if i < s.len() {
        if s[i] == '"' {
            lemma_str_chars_bounds(s, i + 1);
        } else if s[i] == '-' || is_dec_digit(s[i]) {
            lemma_num_run_end(s, i);
            let j = num_run_end(s, i);
            let t = s.subrange(i, j);
            if json_num_ok(t) {
                lemma_dec_run_end(t, if t.len() > 0 && t[0] == '-' {
                    1int
                } else {
                    0int
                });
                assert(t.len() > 0);
                assert forall|m: int| 0 <= m < t.len() implies is_number_char(
                    #[trigger] t[m],
                ) by {
                    assert(t[m] == s[i + m]);
                }
                assert(crate::scalar::number_chars(t));
            }
        }
    }
}

pub proof fn lemma_members_bounds_wf(s: Seq<char>, i: int, fuel: nat)
    requires
        0 <= i <= s.len(),
    ensures
        match parse_members_spec(s, i, fuel) {
            Ok(p) => i < p.1 <= s.len() && crate::serialize::record_wf(p.0),
            Err(_) => true,
        },
    decreases fuel,
{
    if fuel == 0 || i >= s.len() || s[i] != '"' {
    } else {
        lemma_str_chars_bounds(s, i + 1);
        match str_chars(s, i + 1) {
            None => {},
            Some((name, j)) => {
                lemma_ws_end(s, j);
                let p = ws_end(s, j);
                if p >= s.len() || s[p] != ':' {
                } else {
                    lemma_ws_end(s, p + 1);
                    let q = ws_end(s, p + 1);
                    lemma_scalar_bounds_wf(s, q);
                    match parse_scalar_spec(s, q) {
                        Err(_) => {},
                        Ok((v, r2)) => {
                            lemma_ws_end(s, r2);
                            let w = ws_end(s, r2);
                            if w < s.len() && s[w] == ',' {
                                lemma_ws_end(s, w + 1);
                                let x = ws_end(s, w + 1);
                                lemma_members_bounds_wf(s, x, (fuel - 1) as nat);
                                match parse_members_spec(s, x, (fuel - 1) as nat) {
                                    Err(_) => {},
                                    Ok((rest, _)) => {
                                        let out = seq![(name, v)] + rest;
                                        assert forall|m: int|
                                            0 <= m < out.len() implies crate::scalar::scalar_wf(
                                            (#[trigger] out[m]).1,
                                        ) by {
                                            if m > 0 {
                                                assert(out[m] == rest[m - 1]);
                                            }
                                        }
                                    },
                                }
                            } else if w < s.len() && s[w] == '}' {
                                let out = seq![(name, v)];
                                assert(crate::serialize::record_wf(out));
                            }
                        },
                    }
                }
            },
        }
    }
}

pub proof fn lemma_record_bounds_wf(s: Seq<char>, i: int, fuel: nat)
    requires
        0 <= i < s.len(),
        s[i] == '{',
    ensures
        match parse_record_spec(s, i, fuel) {
            Ok(p) => i < p.1 <= s.len() && crate::serialize::record_wf(p.0),
            Err(_) => true,
        },
{
    lemma_ws_end(s, i + 1);
    let p = ws_end(s, i + 1);
    if p < s.len() && s[p] == '}' {
        assert(crate::serialize::record_wf(Seq::empty()));
    } else {
        lemma_members_bounds_wf(s, p, fuel);
    }
}

pub proof fn lemma_entries_bounds_wf(s: Seq<char>, i: int, fuel: nat)
    requires
        0 <= i <= s.len(),
    ensures
        match parse_entries_spec(s, i, fuel) {
            Ok(p) => i < p.1 <= s.len() && forall|m: int|
                0 <= m < p.0.len() ==> crate::serialize::record_wf((#[trigger] p.0[m]).1),
            Err(_) => true,
        },
    decreases fuel,
{
    if fuel == 0 || i >= s.len() || s[i] != '"' {
    } else {
        lemma_str_chars_bounds(s, i + 1);
        match str_chars(s, i + 1) {
            None => {},
            Some((ktext, j)) => {
                match parse_ip_spec(ktext) {
                    None => {},
                    Some(k) => {
                        lemma_ws_end(s, j);
                        let p = ws_end(s, j);
                        if p >= s.len() || s[p] != ':' {
                        } else {
                            lemma_ws_end(s, p + 1);
                            let q = ws_end(s, p + 1);
                            if q < s.len() && s[q] == '{' {
                                lemma_record_bounds_wf(s, q, fuel);
                                match parse_record_spec(s, q, fuel) {
                                    Err(_) => {},
                                    Ok((rec, r2)) => {
                                        lemma_ws_end(s, r2);
                                        let w = ws_end(s, r2);
                                        if w < s.len() && s[w] == ',' {
                                            lemma_ws_end(s, w + 1);
                                            let x = ws_end(s, w + 1);
                                            lemma_entries_bounds_wf(s, x, (fuel - 1) as nat);
                                            match parse_entries_spec(s, x, (fuel - 1) as nat) {
                                                Err(_) => {},
                                                Ok((rest, _)) => {
                                                    let out = seq![(k, rec)] + rest;
                                                    assert forall|m: int|
                                                        0 <= m < out.len()
                                                            implies crate::serialize::record_wf(
                                                        (#[trigger] out[m]).1,
                                                    ) by {
                                                        if m > 0 {
                                                            assert(out[m] == rest[m - 1]);
                                                        }
                                                    }
                                                },
                                            }
                                        }
                                    },
                                }
                            }
                        }
                    },
                }
            },
        }
    }
}

/// Every record of a successfully parsed file is fit to serialize.
pub proof fn lemma_parse_file_wf(s: Seq<char>)
    ensures
        match parse_file_spec(s) {
            Ok(es) => forall|m: int|
                0 <= m < es.len() ==> crate::serialize::record_wf((#[trigger] es[m]).1),
            Err(_) => true,
        },
{
    lemma_ws_end(s, 0);
    let i = ws_end(s, 0);
    if i >= s.len() || s[i] != '{' {
    } else {
        lemma_ws_end(s, i + 1);
        let p = ws_end(s, i + 1);
        if p < s.len() && s[p] == '}' {
        } else {
            lemma_entries_bounds_wf(s, p, s.len() as nat);
        }
    }
}

/// Parse a whole backing file's text.
pub fn parse_file(s: &str) -> (r: Result<Vec<(IpKey, Vec<(String, ScalarValue)>)>,
    GeoIPConfigError,
>)
    ensures
        match parse_file_spec(s@) {
            Ok(es) => r matches Ok(v) && raw_entries_view(v@) == es,
            Err(e) => r matches Err(e2) && e2 == e,
        },
{
    let n = s.unicode_len();
    let i = ws_end_exec(s, n, 0);
    if i >= n || !(s.get_char(i) == '{') {
        return Err(GeoIPConfigError::GeoIPFileWrongFormat);
    }
    let p = ws_end_exec(s, n, i + 1);
    if p < n && s.get_char(p) == '}' {
        if ws_end_exec(s, n, p + 1) == n {
            let empty: Vec<(IpKey, Vec<(String, ScalarValue)>)> = Vec::new();
            proof {
                assert(raw_entries_view(empty@) =~= Seq::<(IpKey, RecordSpec)>::empty());
            }
            Ok(empty)
        } else {
            Err(GeoIPConfigError::GeoIPFileWrongFormat)
        }
    } else {
        match parse_entries_exec(s, n, p, n) {
            Err(e) => Err(e),
            Ok((es, j)) => {
                if ws_end_exec(s, n, j) == n {
                    Ok(es)
                } else {
                    Err(GeoIPConfigError::GeoIPFileWrongFormat)
                }
            },
        }
    }
}

} // verus!
