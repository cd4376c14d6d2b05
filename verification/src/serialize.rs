//! Compact JSON serialization of a record, with an exact character-level
//! specification. The output is plain ASCII: anything outside printable
//! ASCII is written as an escape, so the byte length equals the character
//! length.

use vstd::prelude::*;
use vstd::string::StrSliceExecFns;
use vstd::string::StringExecFns;
use vstd::utf8::is_ascii_chars;
use crate::scalar::{ScalarSpec, ScalarValue, scalar_wf, is_number_char};
use crate::text::{hex_char, exec_hex_char, push_char};

verus! {

/// A record's spec-level model: its named fields, in order.
pub type RecordSpec = Seq<(Seq<char>, ScalarSpec)>;

/// The model of an executable field list.
pub open spec fn fields_view(v: Seq<(String, ScalarValue)>) -> RecordSpec {
    v.map(|i: int, p: (String, ScalarValue)| (p.0@, p.1@))
}

/// A record fit to serialize: every scalar is.
pub open spec fn record_wf(r: RecordSpec) -> bool {
    forall|i: int| 0 <= i < r.len() ==> scalar_wf((#[trigger] r[i]).1)
}

/// Four hexadecimal digits, most significant first.
pub open spec fn hex4(v: nat) -> Seq<char> {
    seq![
        hex_char((v / 0x1000) % 16),
        hex_char((v / 0x100) % 16),
        hex_char((v / 16) % 16),
        hex_char(v % 16),
    ]
}

/// JSON escape of one character. Quote and backslash take the two-character
/// escapes; control characters and everything above printable ASCII take
/// `\u` escapes, a surrogate pair above 0xFFFF.
pub open spec fn esc_char(c: char) -> Seq<char> {
    if c == '"' {
        seq!['\\', '"']
    } else if c == '\\' {
        seq!['\\', '\\']
    } else if (c as u32) < 0x20 {
        seq!['\\', 'u', '0', '0'] + seq![
            hex_char(((c as u32) / 16) as nat),
            hex_char(((c as u32) % 16) as nat),
        ]
    } else if (c as u32) < 0x80 {
        seq![c]
    } else if (c as u32) <= 0xFFFF {
        seq!['\\', 'u'] + hex4((c as u32) as nat)
    } else {
        seq!['\\', 'u'] + hex4((0xD800 + ((c as u32 - 0x10000) as nat) / 0x400) as nat) + seq![
            '\\',
            'u',
        ] + hex4((0xDC00 + ((c as u32 - 0x10000) as nat) % 0x400) as nat)
    }
}

/// Escaped body of a JSON string.
pub open spec fn str_body(s: Seq<char>) -> Seq<char>
    decreases s.len(),
{
    if s.len() == 0 {
        Seq::empty()
    } else {
        str_body(s.drop_last()) + esc_char(s.last())
    }
}

pub open spec fn quoted(s: Seq<char>) -> Seq<char> {
    seq!['"'] + str_body(s) + seq!['"']
}

pub open spec fn scalar_json(v: ScalarSpec) -> Seq<char> {
    match v {
        ScalarSpec::SStr(s) => quoted(s),
        ScalarSpec::SNum(t) => t,
        ScalarSpec::SBool(b) => if b {
            seq!['t', 'r', 'u', 'e']
        } else {
            seq!['f', 'a', 'l', 's', 'e']
        },
    }
}

pub open spec fn field_json(f: (Seq<char>, ScalarSpec)) -> Seq<char> {
    quoted(f.0) + seq![':'] + scalar_json(f.1)
}

/// The comma-separated field list.
pub open spec fn fields_json(r: RecordSpec) -> Seq<char>
    decreases r.len(),
{
    if r.len() == 0 {
        Seq::empty()
    } else if r.len() == 1 {
        field_json(r[0])
    } else {
        fields_json(r.drop_last()) + seq![','] + field_json(r.last())
    }
}

/// The compact (non-pretty) JSON document text of a record.
pub open spec fn record_json(r: RecordSpec) -> Seq<char> {
    seq!['{'] + fields_json(r) + seq!['}']
}

// ---------------------------------------------------------------------------
// The output is ASCII
// ---------------------------------------------------------------------------

pub proof fn lemma_ascii_concat(a: Seq<char>, b: Seq<char>)
    requires
        is_ascii_chars(a),
        is_ascii_chars(b),
    ensures
        is_ascii_chars(a + b),
{
    vstd::utf8::is_ascii_chars_concat(a + b, a, b);
}

pub proof fn lemma_hex4_ascii(v: nat)
    ensures
        is_ascii_chars(hex4(v)),
{
    assert forall|i: int| 0 <= i < hex4(v).len() implies '\0' <= #[trigger] hex4(v)[i]
        <= '\u{7f}' by {
        assert(hex4(v)[i] == hex_char(((if i == 0 {
            (v / 0x1000) % 16
        } else if i == 1 {
            (v / 0x100) % 16
        } else if i == 2 {
            (v / 16) % 16
        } else {
            v % 16
        })) as nat));
    }
}

pub proof fn lemma_esc_ascii(c: char)
    ensures
        is_ascii_chars(esc_char(c)),
{
    if c == '"' || c == '\\' {
    } else if (c as u32) < 0x20 {
    } else if (c as u32) < 0x80 {
    } else if (c as u32) <= 0xFFFF {
        lemma_hex4_ascii((c as u32) as nat);
        lemma_ascii_concat(seq!['\\', 'u'], hex4((c as u32) as nat));
    } else {
        let w = (c as u32 - 0x10000) as nat;
        lemma_hex4_ascii((0xD800 + w / 0x400) as nat);
        lemma_hex4_ascii((0xDC00 + w % 0x400) as nat);
        lemma_ascii_concat(seq!['\\', 'u'], hex4((0xD800 + w / 0x400) as nat));
        lemma_ascii_concat(seq!['\\', 'u'] + hex4((0xD800 + w / 0x400) as nat), seq!['\\', 'u']);
        lemma_ascii_concat(
            seq!['\\', 'u'] + hex4((0xD800 + w / 0x400) as nat) + seq!['\\', 'u'],
            hex4((0xDC00 + w % 0x400) as nat),
        );
    }
}

pub proof fn lemma_str_body_ascii(s: Seq<char>)
    ensures
        is_ascii_chars(str_body(s)),
    decreases s.len(),
{
    if s.len() > 0 {
        lemma_str_body_ascii(s.drop_last());
        lemma_esc_ascii(s.last());
        lemma_ascii_concat(str_body(s.drop_last()), esc_char(s.last()));
    }
}

pub proof fn lemma_quoted_ascii(s: Seq<char>)
    ensures
        is_ascii_chars(quoted(s)),
{
    lemma_str_body_ascii(s);
    lemma_ascii_concat(seq!['"'], str_body(s));
    lemma_ascii_concat(seq!['"'] + str_body(s), seq!['"']);
}

pub proof fn lemma_scalar_json_ascii(v: ScalarSpec)
    requires
        scalar_wf(v),
    ensures
        is_ascii_chars(scalar_json(v)),
{
    match v {
        ScalarSpec::SStr(s) => lemma_quoted_ascii(s),
        ScalarSpec::SNum(t) => {
            assert forall|i: int| 0 <= i < t.len() implies '\0' <= #[trigger] t[i] <= '\u{7f}' by {
                assert(is_number_char(t[i]));
            }
            assert(is_ascii_chars(t));
        },
        ScalarSpec::SBool(_) => {},
    }
}

pub proof fn lemma_field_json_ascii(f: (Seq<char>, ScalarSpec))
    requires
        scalar_wf(f.1),
    ensures
        is_ascii_chars(field_json(f)),
{
    lemma_quoted_ascii(f.0);
    lemma_scalar_json_ascii(f.1);
    lemma_ascii_concat(quoted(f.0), seq![':']);
    lemma_ascii_concat(quoted(f.0) + seq![':'], scalar_json(f.1));
}

pub proof fn lemma_fields_json_ascii(r: RecordSpec)
    requires
        record_wf(r),
    ensures
        is_ascii_chars(fields_json(r)),
    decreases r.len(),
{
    if r.len() == 0 {
    } else if r.len() == 1 {
        lemma_field_json_ascii(r[0]);
    } else {
        assert(record_wf(r.drop_last())) by {
            assert(forall|i: int|
                0 <= i < r.len() - 1 ==> (#[trigger] r.drop_last()[i]) == r[i]);
        }
        lemma_fields_json_ascii(r.drop_last());
        lemma_field_json_ascii(r.last());
        lemma_ascii_concat(fields_json(r.drop_last()), seq![',']);
        lemma_ascii_concat(fields_json(r.drop_last()) + seq![','], field_json(r.last()));
    }
}

/// The serialized text of a well-formed record is plain ASCII, so its byte
/// length equals its character length.
pub proof fn lemma_record_json_ascii(r: RecordSpec)
    requires
        record_wf(r),
    ensures
        is_ascii_chars(record_json(r)),
{
    lemma_fields_json_ascii(r);
    lemma_ascii_concat(seq!['{'], fields_json(r));
    lemma_ascii_concat(seq!['{'] + fields_json(r), seq!['}']);
}

// ---------------------------------------------------------------------------
// Executable serialization
// ---------------------------------------------------------------------------

fn push_hex4(out: &mut String, v: u32)
    requires
        v <= 0xFFFF,
    ensures
        final(out)@ == old(out)@ + hex4(v as nat),
{
    let ghost o0 = out@;
    push_char(out, exec_hex_char(((v / 0x1000) % 16) as u64));
    push_char(out, exec_hex_char(((v / 0x100) % 16) as u64));
    push_char(out, exec_hex_char(((v / 16) % 16) as u64));
    push_char(out, exec_hex_char((v % 16) as u64));
    assert(out@ =~= o0 + hex4(v as nat));
}

fn push_esc(out: &mut String, c: char)
    ensures
        final(out)@ == old(out)@ + esc_char(c),
{
    let ghost o0 = out@;
    let u = c as u32;
    if c == '"' {
        push_char(out, '\\');
        push_char(out, '"');
    } else if c == '\\' {
        push_char(out, '\\');
        push_char(out, '\\');
    } else if u < 0x20 {
        push_char(out, '\\');
        push_char(out, 'u');
        push_char(out, '0');
        push_char(out, '0');
        push_char(out, exec_hex_char((u / 16) as u64));
        push_char(out, exec_hex_char((u % 16) as u64));
    } else if u < 0x80 {
        push_char(out, c);
    } else if u <= 0xFFFF {
        push_char(out, '\\');
        push_char(out, 'u');
        push_hex4(out, u);
    } else {
        let w = u - 0x10000;
        push_char(out, '\\');
        push_char(out, 'u');
        push_hex4(out, 0xD800 + w / 0x400);
        push_char(out, '\\');
        push_char(out, 'u');
        push_hex4(out, 0xDC00 + w % 0x400);
    }
    assert(out@ =~= o0 + esc_char(c));
}

fn push_quoted(out: &mut String, s: &str)
    ensures
        final(out)@ == old(out)@ + quoted(s@),
{
    let ghost o0 = out@;
    push_char(out, '"');
    let n = s.unicode_len();
    let mut k: usize = 0;
    while k < n
        invariant
            n == s@.len(),
            k <= n,
            out@ =~= o0 + seq!['"'] + str_body(s@.take(k as int)),
        decreases n - k,
    {
        let c = s.get_char(k);
        push_esc(out, c);
        proof {
            assert(s@.take((k + 1) as int).drop_last() =~= s@.take(k as int));
            assert(s@.take((k + 1) as int).last() == s@[k as int]);
            assert(str_body(s@.take((k + 1) as int)) == str_body(s@.take(k as int)) + esc_char(
                s@[k as int],
            ));
        }
        k = k + 1;
    }
    push_char(out, '"');
    proof {
        assert(s@.take(n as int) =~= s@);
        assert(out@ =~= o0 + quoted(s@));
    }
}

fn push_scalar(out: &mut String, v: &ScalarValue)
    ensures
        final(out)@ == old(out)@ + scalar_json(v@),
{
    let ghost o0 = out@;
    match v {
        ScalarValue::Str(s) => {
            push_quoted(out, s.as_str());
        },
        ScalarValue::Num(t) => {
            out.append(t.as_str());
        },
        ScalarValue::Bool(b) => {
            if *b {
                out.append("true");
                proof {
                    reveal_strlit("true");
                    assert("true"@ =~= seq!['t', 'r', 'u', 'e']);
                }
            } else {
                out.append("false");
                proof {
                    reveal_strlit("false");
                    assert("false"@ =~= seq!['f', 'a', 'l', 's', 'e']);
                }
            }
        },
    }
    assert(out@ =~= o0 + scalar_json(v@));
}

/// Serialize a field list to its compact JSON document text.
pub fn record_json_string(fields: &Vec<(String, ScalarValue)>) -> (r: String)
    ensures
        r@ == record_json(fields_view(fields@)),
{
    let ghost rv = fields_view(fields@);
    let mut out = String::new();
    push_char(&mut out, '{');
    let n = fields.len();
    let mut k: usize = 0;
    while k < n
        invariant
            n == fields@.len(),
            k <= n,
            rv == fields_view(fields@),
            rv.len() == n,
            out@ =~= seq!['{'] + fields_json(rv.take(k as int)),
        decreases n - k,
    {
        if k > 0 {
            push_char(&mut out, ',');
        }
        let f = &fields[k];
        push_quoted(&mut out, f.0.as_str());
        push_char(&mut out, ':');
        push_scalar(&mut out, &f.1);
        proof {
            assert(rv.take((k + 1) as int).drop_last() =~= rv.take(k as int));
            assert(rv.take((k + 1) as int).last() == rv[k as int]);
            assert(rv[k as int] == (fields@[k as int].0@, fields@[k as int].1@));
            if k == 0 {
                assert(fields_json(rv.take(1)) == field_json(rv[0]));
            } else {
                assert(fields_json(rv.take((k + 1) as int)) == fields_json(rv.take(k as int))
                    + seq![','] + field_json(rv[k as int]));
            }
        }
        k = k + 1;
    }
    push_char(&mut out, '}');
    proof {
        assert(rv.take(n as int) =~= rv);
        assert(out@ =~= record_json(rv));
    }
    out
}

} // verus!
