//! Scalar record field values and their spec-level model.

use vstd::prelude::*;
use vstd::string::StrSliceExecFns;

verus! {

/// Spec-level model of a scalar value: strings and number tokens as their
/// character sequences.
pub enum ScalarSpec {
    SStr(Seq<char>),
    SNum(Seq<char>),
    SBool(bool),
}

/// A scalar record field value: a string, a number held as its numeral text,
/// or a boolean.
#[derive(Clone, Debug)]
pub enum ScalarValue {
    Str(String),
    Num(String),
    Bool(bool),
}

impl View for ScalarValue {
    type V = ScalarSpec;

    open spec fn view(&self) -> ScalarSpec {
        match self {
            ScalarValue::Str(s) => ScalarSpec::SStr(s@),
            ScalarValue::Num(s) => ScalarSpec::SNum(s@),
            ScalarValue::Bool(b) => ScalarSpec::SBool(*b),
        }
    }
}

/// Characters a numeral may hold: digits, signs, the point, an exponent mark.
pub open spec fn is_number_char(c: char) -> bool {
    ('0' <= c && c <= '9') || c == '-' || c == '+' || c == '.' || c == 'e' || c == 'E'
}

/// A plausible numeral: nonempty, built of number characters alone. The
/// parser of the on-disk format guarantees the full numeral grammar; this
/// shape is what serialization relies on (the token is plain ASCII).
pub open spec fn number_chars(s: Seq<char>) -> bool {
    s.len() > 0 && (forall|i: int| 0 <= i < s.len() ==> is_number_char(#[trigger] s[i]))
}

/// A scalar fit to serialize: a number's text is a plausible numeral.
pub open spec fn scalar_wf(v: ScalarSpec) -> bool {
    match v {
        ScalarSpec::SNum(t) => number_chars(t),
        _ => true,
    }
}

/// An equal copy of a scalar value.
impl ScalarValue {
    pub fn duplicate(&self) -> (r: ScalarValue)
        ensures
            r@ == self@,
    {
        match self {
            ScalarValue::Str(s) => ScalarValue::Str(s.clone()),
            ScalarValue::Num(s) => ScalarValue::Num(s.clone()),
            ScalarValue::Bool(b) => ScalarValue::Bool(*b),
        }
    }
}

pub proof fn lemma_dec_digits_number_chars(n: nat)
    ensures
        number_chars(crate::text::dec_digits(n)),
    decreases n,
{
    let d = crate::text::dec_digits(n);
    if n < 10 {
        assert(d == seq![crate::text::digit_char(n)]);
        assert(is_number_char(d[0]));
    } else {
        lemma_dec_digits_number_chars(n / 10);
        assert(d == crate::text::dec_digits(n / 10).push(crate::text::digit_char(n % 10)));
        assert(is_number_char(crate::text::digit_char(n % 10)));
        assert forall|i: int| 0 <= i < d.len() implies is_number_char(#[trigger] d[i]) by {
            if i < d.len() - 1 {
                assert(d[i] == crate::text::dec_digits(n / 10)[i]);
            }
        }
    }
}

/// The decimal numeral of any signed value is a plausible numeral.
pub proof fn lemma_int_dec_number_chars(v: int)
    ensures
        number_chars(crate::text::int_dec_digits(v)),
{
    if v < 0 {
        lemma_dec_digits_number_chars((-v) as nat);
        let d = crate::text::int_dec_digits(v);
        assert(d == seq!['-'] + crate::text::dec_digits((-v) as nat));
        assert(is_number_char('-'));
        assert forall|i: int| 0 <= i < d.len() implies is_number_char(#[trigger] d[i]) by {
            if i > 0 {
                assert(d[i] == crate::text::dec_digits((-v) as nat)[i - 1]);
            }
        }
    } else {
        lemma_dec_digits_number_chars(v as nat);
    }
}

/// Check a numeral's shape.
pub fn check_number_chars(s: &str) -> (r: bool)
    ensures
        r == number_chars(s@),
{
    let n = s.unicode_len();
    if n == 0 {
        return false;
    }
    let mut k: usize = 0;
    while k < n
        invariant
            n == s@.len(),
            k <= n,
            forall|i: int| 0 <= i < k ==> is_number_char(#[trigger] s@[i]),
        decreases n - k,
    {
        let c = s.get_char(k);
        if !(('0' <= c && c <= '9') || c == '-' || c == '+' || c == '.' || c == 'e' || c == 'E') {
            assert(!is_number_char(s@[k as int]));
            return false;
        }
        k = k + 1;
    }
    true
}

} // verus!
