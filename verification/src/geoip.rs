//! The external data mapping: a read-only key→record store with three
//! backing variants (empty, inline-configured, file-backed), its
//! configuration-fragment loader, and exact lookup contracts.
//!
//! A file-backed mapping stores only the path and never caches: each lookup
//! is a function of the backing file's text as freshly read for that call,
//! which the caller supplies.

use vstd::prelude::*;
use vstd::string::StrSliceExecFns;
use vstd::string::StringExecFns;
use crate::error::{FastlyConfigError, GeoIPConfigError};
use crate::ip::{IpKey, parse_ip_spec, parse_ip_address};
use crate::json::{parse_file_spec, parse_file, raw_entries_view};
use crate::scalar::{
    ScalarSpec, ScalarValue, scalar_wf, number_chars, check_number_chars,
    lemma_int_dec_number_chars,
};
use crate::serialize::{RecordSpec, fields_view, record_wf, record_json, record_json_string};
use crate::text::{str_eq, i64_to_dec_string, int_dec_digits};

verus! {

// ---------------------------------------------------------------------------
// Records
// ---------------------------------------------------------------------------

/// A record: named scalar fields, in order.
#[derive(Clone, Debug)]
pub struct GeoIPData {
    data: Vec<(String, ScalarValue)>,
}

impl View for GeoIPData {
    type V = RecordSpec;

    closed spec fn view(&self) -> RecordSpec {
        fields_view(self.data@)
    }
}

/// Insertion into a record: replace the first field of that name, else append.
pub open spec fn record_insert(r: RecordSpec, name: Seq<char>, v: ScalarSpec) -> RecordSpec
    decreases r.len(),
{
    if r.len() == 0 {
        seq![(name, v)]
    } else if r[0].0 == name {
        seq![(name, v)] + r.drop_first()
    } else {
        seq![r[0]] + record_insert(r.drop_first(), name, v)
    }
}

proof fn lemma_record_insert_update(r: RecordSpec, name: Seq<char>, v: ScalarSpec, idx: int)
    requires
        0 <= idx < r.len(),
        r[idx].0 == name,
        forall|j: int| 0 <= j < idx ==> (#[trigger] r[j]).0 != name,
    ensures
        record_insert(r, name, v) == r.update(idx, (name, v)),
    decreases idx,
{
    if idx == 0 {
        assert(seq![(name, v)] + r.drop_first() =~= r.update(0, (name, v)));
    } else {
        lemma_record_insert_update(r.drop_first(), name, v, idx - 1);
        assert(seq![r[0]] + r.drop_first().update(idx - 1, (name, v)) =~= r.update(
            idx,
            (name, v),
        ));
    }
}

proof fn lemma_record_insert_push(r: RecordSpec, name: Seq<char>, v: ScalarSpec)
    requires
        forall|j: int| 0 <= j < r.len() ==> (#[trigger] r[j]).0 != name,
    ensures
        record_insert(r, name, v) == r.push((name, v)),
    decreases r.len(),
{
    if r.len() == 0 {
        assert(seq![(name, v)] =~= r.push((name, v)));
    } else {
        lemma_record_insert_push(r.drop_first(), name, v);
        assert(seq![r[0]] + r.drop_first().push((name, v)) =~= r.push((name, v)));
    }
}

/// Insertion preserves well-formedness when the new scalar is well formed.
pub proof fn lemma_record_insert_wf(r: RecordSpec, name: Seq<char>, v: ScalarSpec)
    requires
        record_wf(r),
        scalar_wf(v),
    ensures
        record_wf(record_insert(r, name, v)),
    decreases r.len(),
{
    if r.len() == 0 {
    } else if r[0].0 == name {
        let out = seq![(name, v)] + r.drop_first();
        assert forall|i: int| 0 <= i < out.len() implies scalar_wf((#[trigger] out[i]).1) by {
            if i > 0 {
                assert(out[i] == r[i]);
            }
        }
    } else {
        assert(record_wf(r.drop_first())) by {
            assert(forall|i: int|
                0 <= i < r.len() - 1 ==> (#[trigger] r.drop_first()[i]) == r[i + 1]);
        }
        lemma_record_insert_wf(r.drop_first(), name, v);
        let out = seq![r[0]] + record_insert(r.drop_first(), name, v);
        assert forall|i: int| 0 <= i < out.len() implies scalar_wf((#[trigger] out[i]).1) by {
            if i > 0 {
                assert(out[i] == record_insert(r.drop_first(), name, v)[i - 1]);
            }
        }
    }
}

impl GeoIPData {
    /// An empty record.
    pub fn new() -> (r: Self)
        ensures
            r@ == Seq::<(Seq<char>, ScalarSpec)>::empty(),
    {
        let r = GeoIPData { data: Vec::new() };
        proof {
            assert(r@ =~= Seq::<(Seq<char>, ScalarSpec)>::empty());
        }
        r
    }

    /// A record over the given fields, in their order.
    pub fn from(data: Vec<(String, ScalarValue)>) -> (r: Self)
        ensures
            r@ == fields_view(data@),
    {
        GeoIPData { data }
    }

    /// Set a field: replace the first field of that name, else append.
    pub fn insert(&mut self, field: String, value: ScalarValue)
        ensures
            final(self)@ == record_insert(old(self)@, field@, value@),
    {
        let ghost r0 = self@;
        let n = self.data.len();
        let mut k: usize = 0;
        while k < n
            invariant
                n == self.data@.len(),
                self@ == r0,
                self.data@ == old(self).data@,
                k <= n,
                forall|j: int| 0 <= j < k ==> (#[trigger] r0[j]).0 != field@,
            decreases n - k,
        {
            if str_eq(self.data[k].0.as_str(), field.as_str()) {
                self.data.set(k, (field, value));
                proof {
                    lemma_record_insert_update(r0, field@, value@, k as int);
                    assert(self@ =~= r0.update(k as int, (field@, value@)));
                }
                return ;
            }
            proof {
                assert(r0[k as int].0 == self.data@[k as int].0@);
            }
            k = k + 1;
        }
        self.data.push((field, value));
        proof {
            lemma_record_insert_push(r0, field@, value@);
            assert(self@ =~= r0.push((field@, value@)));
        }
    }

    /// An equal copy.
    pub fn duplicate(&self) -> (r: Self)
        ensures
            r@ == self@,
    {
        let mut out: Vec<(String, ScalarValue)> = Vec::new();
        let n = self.data.len();
        let mut k: usize = 0;
        while k < n
            invariant
                n == self.data@.len(),
                k <= n,
                fields_view(out@) =~= self@.take(k as int),
            decreases n - k,
        {
            let name = self.data[k].0.clone();
            let val = self.data[k].1.duplicate();
            let ghost nv = name@;
            let ghost vv = val@;
            let ghost o0 = out@;
            out.push((name, val));
            proof {
                assert(fields_view(out@) =~= fields_view(o0).push((nv, vv)));
                assert(self@[k as int] == (self.data@[k as int].0@, self.data@[k as int].1@));
                assert(fields_view(out@) =~= self@.take((k + 1) as int));
            }
            k = k + 1;
        }
        let r = GeoIPData { data: out };
        proof {
            assert(self@.take(n as int) =~= self@);
        }
        r
    }

    /// The compact JSON document text of the record.
    pub fn to_string(&self) -> (r: String)
        ensures
            r@ == record_json(self@),
    {
        record_json_string(&self.data)
    }
}

impl Default for GeoIPData {
    fn default() -> (r: Self)
        ensures
            r@ == Seq::<(Seq<char>, ScalarSpec)>::empty(),
    {
        GeoIPData::new()
    }
}

// ---------------------------------------------------------------------------
// The mapping and its lookups
// ---------------------------------------------------------------------------

/// Spec-level model of a mapping.
pub enum MappingSpec {
    SEmpty,
    SInline(Seq<(IpKey, RecordSpec)>),
    SJson(Seq<char>),
}

/// A geolocation data mapping: empty, inline-configured records, or a backing
/// file path re-read on every lookup.
#[derive(Clone, Debug)]
pub enum GeoIPMapping {
    Empty,
    InlineToml { addresses: Vec<(IpKey, GeoIPData)> },
    Json { file: String },
}

/// The model of an executable entry list.
pub open spec fn mapping_entries_view(v: Seq<(IpKey, GeoIPData)>) -> Seq<(IpKey, RecordSpec)> {
    v.map(|i: int, p: (IpKey, GeoIPData)| (p.0, p.1@))
}

impl View for GeoIPMapping {
    type V = MappingSpec;

    open spec fn view(&self) -> MappingSpec {
        match self {
            GeoIPMapping::Empty => MappingSpec::SEmpty,
            GeoIPMapping::InlineToml { addresses } => MappingSpec::SInline(
                mapping_entries_view(addresses@),
            ),
            GeoIPMapping::Json { file } => MappingSpec::SJson(file@),
        }
    }
}

/// First record stored under a key.
pub open spec fn entries_lookup(es: Seq<(IpKey, RecordSpec)>, k: IpKey) -> Option<RecordSpec>
    decreases es.len(),
{
    if es.len() == 0 {
        None
    } else if es[0].0 == k {
        Some(es[0].1)
    } else {
        entries_lookup(es.drop_first(), k)
    }
}

pub proof fn lemma_entries_lookup_at(es: Seq<(IpKey, RecordSpec)>, k: IpKey, idx: int)
    requires
        0 <= idx < es.len(),
        es[idx].0 == k,
        forall|j: int| 0 <= j < idx ==> (#[trigger] es[j]).0 != k,
    ensures
        entries_lookup(es, k) == Some(es[idx].1),
    decreases idx,
{
    if idx > 0 {
        lemma_entries_lookup_at(es.drop_first(), k, idx - 1);
    }
}

pub proof fn lemma_entries_lookup_none(es: Seq<(IpKey, RecordSpec)>, k: IpKey)
    requires
        forall|j: int| 0 <= j < es.len() ==> (#[trigger] es[j]).0 != k,
    ensures
        entries_lookup(es, k) is None,
    decreases es.len(),
{
    if es.len() > 0 {
        lemma_entries_lookup_none(es.drop_first(), k);
    }
}

/// What a lookup returns: for a file-backed mapping the result is a function
/// of the content read for this very call — the mapping holds no cache.
pub open spec fn mapping_get_spec(m: MappingSpec, k: IpKey, content: Option<Seq<char>>) -> Result<
    Option<RecordSpec>,
    GeoIPConfigError,
> {
    match m {
        MappingSpec::SEmpty => Ok(None),
        MappingSpec::SInline(es) => Ok(entries_lookup(es, k)),
        MappingSpec::SJson(_) => match content {
            None => Err(GeoIPConfigError::IoError),
            Some(text) => match parse_file_spec(text) {
                Err(e) => Err(e),
                Ok(es) => Ok(entries_lookup(es, k)),
            },
        },
    }
}

/// Well-formed mapping: every inline record is fit to serialize.
pub open spec fn mapping_wf(m: MappingSpec) -> bool {
    match m {
        MappingSpec::SInline(es) => forall|i: int|
            0 <= i < es.len() ==> record_wf((#[trigger] es[i]).1),
        _ => true,
    }
}

impl GeoIPMapping {
    /// The empty mapping.
    pub fn new() -> (r: Self)
        ensures
            r@ == MappingSpec::SEmpty,
    {
        GeoIPMapping::Empty
    }

    pub open spec fn wf(&self) -> bool {
        mapping_wf(self@)
    }

    /// Parse and validate a backing file's text into its entries.
    pub fn read_json_contents(content: &str) -> (r: Result<Vec<(IpKey, GeoIPData)>,
        GeoIPConfigError,
    >)
        ensures
            match parse_file_spec(content@) {
                Ok(es) => r matches Ok(v) && mapping_entries_view(v@) == es,
                Err(e) => r matches Err(e2) && e2 == e,
            },
    {
        match parse_file(content) {
            Err(e) => Err(e),
            Ok(raw) => {
                let ghost raw0 = raw@;
                let mut raw = raw;
                let mut out: Vec<(IpKey, GeoIPData)> = Vec::new();
                while raw.len() > 0
                    invariant
                        mapping_entries_view(out@) + raw_entries_view(raw@) =~= raw_entries_view(
                            raw0,
                        ),
                    decreases raw.len(),
                {
                    let ghost rpre = raw@;
                    let (k, f) = raw.remove(0);
                    out.push((k, GeoIPData::from(f)));
                    proof {
                        assert(raw@ =~= rpre.drop_first());
                        assert(raw_entries_view(rpre) =~= seq![raw_entries_view(rpre)[0]]
                            + raw_entries_view(raw@));
                        assert(mapping_entries_view(out@) =~= mapping_entries_view(
                            out@.take(out@.len() - 1),
                        ).push(raw_entries_view(rpre)[0]));
                    }
                }
                proof {
                    assert(raw_entries_view(raw@) =~= Seq::<(IpKey, RecordSpec)>::empty());
                    assert(mapping_entries_view(out@) =~= raw_entries_view(raw0));
                }
                Ok(out)
            },
        }
    }

    /// Look up a record by address. A file-backed mapping reads nothing
    /// itself: `file_content` is the backing file's text as freshly read for
    /// this call, or `None` when the file could not be read; other variants
    /// ignore it. Absence of an entry is `Ok(None)`, never an error.
    pub fn get(&self, address: &IpKey, file_content: Option<&str>) -> (r: Result<
        Option<GeoIPData>,
        GeoIPConfigError,
    >)
        ensures
            ({
                let c = match file_content {
                    Some(t) => Some(t@),
                    None => None,
                };
                match mapping_get_spec(self@, *address, c) {
                    Ok(Some(rec)) => r matches Ok(o) && o matches Some(d) && d@ == rec && (
                    self.wf() ==> record_wf(rec)),
                    Ok(None) => r matches Ok(o) && o is None,
                    Err(e) => r matches Err(e2) && e2 == e,
                }
            }),
    {
        match self {
            GeoIPMapping::Empty => Ok(None),
            GeoIPMapping::InlineToml { addresses } => {
                let ghost es = mapping_entries_view(addresses@);
                let n = addresses.len();
                let mut k: usize = 0;
                while k < n
                    invariant
                        n == addresses@.len(),
                        k <= n,
                        es == mapping_entries_view(addresses@),
                        self@ == MappingSpec::SInline(es),
                        forall|j: int| 0 <= j < k ==> (#[trigger] es[j]).0 != *address,
                    decreases n - k,
                {
                    let hit = match (&addresses[k].0, address) {
                        (IpKey::V4(a), IpKey::V4(b)) => *a == *b,
                        (IpKey::V6(a), IpKey::V6(b)) => *a == *b,
                        _ => false,
                    };
                    if hit {
                        let d = addresses[k].1.duplicate();
                        proof {
                            lemma_entries_lookup_at(es, *address, k as int);
                            assert(es[k as int] == (addresses@[k as int].0, addresses@[
                                k as int].1@));
                            assert(self@ == MappingSpec::SInline(es));
                            if mapping_wf(self@) {
                                assert(record_wf(es[k as int].1));
                            }
                        }
                        return Ok(Some(d));
                    }
                    proof {
                        assert(es[k as int].0 == addresses@[k as int].0);
                    }
                    k = k + 1;
                }
                proof {
                    lemma_entries_lookup_none(es, *address);
                }
                Ok(None)
            },
            GeoIPMapping::Json { file: _ } => {
                match file_content {
                    None => Err(GeoIPConfigError::IoError),
                    Some(text) => {
                        match Self::read_json_contents(text) {
                            Err(e) => Err(e),
                            Ok(entries) => {
                                proof {
                                    crate::json::lemma_parse_file_wf(text@);
                                }
                                let ghost es = mapping_entries_view(entries@);
                                let n = entries.len();
                                let mut k: usize = 0;
                                while k < n
                                    invariant
                                        n == entries@.len(),
                                        k <= n,
                                        es == mapping_entries_view(entries@),
                                        self@ is SJson,
                                        (match file_content {
                                            Some(t2) => t2@ == text@,
                                            None => false,
                                        }),
                                        parse_file_spec(text@) == Ok::<
                                            Seq<(IpKey, RecordSpec)>,
                                            GeoIPConfigError,
                                        >(es),
                                        forall|m: int|
                                            0 <= m < es.len() ==> record_wf(
                                                (#[trigger] es[m]).1,
                                            ),
                                        forall|j: int|
                                            0 <= j < k ==> (#[trigger] es[j]).0 != *address,
                                    decreases n - k,
                                {
                                    let hit = match (&entries[k].0, address) {
                                        (IpKey::V4(a), IpKey::V4(b)) => *a == *b,
                                        (IpKey::V6(a), IpKey::V6(b)) => *a == *b,
                                        _ => false,
                                    };
                                    if hit {
                                        let d = entries[k].1.duplicate();
                                        proof {
                                            lemma_entries_lookup_at(es, *address, k as int);
                                            assert(es[k as int] == (entries@[k as int].0,
                                                entries@[k as int].1@));
                                            assert(record_wf(es[k as int].1));
                                        }
                                        return Ok(Some(d));
                                    }
                                    proof {
                                        assert(es[k as int].0 == entries@[k as int].0);
                                    }
                                    k = k + 1;
                                }
                                proof {
                                    lemma_entries_lookup_none(es, *address);
                                }
                                Ok(None)
                            },
                        }
                    },
                }
            },
        }
    }
}

impl Default for GeoIPMapping {
    fn default() -> (r: Self)
        ensures
            r@ == MappingSpec::SEmpty,
    {
        GeoIPMapping::new()
    }
}

// ---------------------------------------------------------------------------
// Configuration-fragment loading
// ---------------------------------------------------------------------------

/// A configuration value as the loader hands it to the library: the shapes a
/// TOML fragment can take, scalars as plain values. A `Float` holds the
/// numeral text of the configured floating-point value; `Other` stands for any
/// shape that is none of these (an array, a date).
pub enum ConfigValue {
    Str(String),
    Int(i64),
    Float(String),
    Bool(bool),
    Table(Vec<(String, ConfigValue)>),
    Other,
}

/// First value stored under a field name.
pub open spec fn table_find(t: Seq<(String, ConfigValue)>, name: Seq<char>) -> Option<ConfigValue>
    decreases t.len(),
{
    if t.len() == 0 {
        None
    } else if t[0].0@ == name {
        Some(t[0].1)
    } else {
        table_find(t.drop_first(), name)
    }
}

fn table_find_exec<'a>(t: &'a Vec<(String, ConfigValue)>, k: usize, name: &str) -> (r: Option<
    &'a ConfigValue,
>)
    requires
        k <= t@.len(),
    ensures
        match table_find(t@.skip(k as int), name@) {
            Some(v) => r matches Some(rv) && *rv == v,
            None => r is None,
        },
    decreases t@.len() - k,
{
    if k >= t.len() {
        proof {
            assert(t@.skip(k as int) =~= Seq::<(String, ConfigValue)>::empty());
        }
        None
    } else {
        proof {
            assert(t@.skip(k as int)[0] == t@[k as int]);
            assert(t@.skip(k as int).drop_first() =~= t@.skip((k + 1) as int));
        }
        if str_eq(t[k].0.as_str(), name) {
            Some(&t[k].1)
        } else {
            table_find_exec(t, k + 1, name)
        }
    }
}

/// Conversion of one configured field value to a record scalar: strings,
/// integers, renderable floating-point numerals and booleans; anything else
/// is not a scalar.
pub open spec fn convert_scalar(v: ConfigValue) -> Option<ScalarSpec> {
    match v {
        ConfigValue::Str(s) => Some(ScalarSpec::SStr(s@)),
        ConfigValue::Int(n) => Some(ScalarSpec::SNum(int_dec_digits(n as int))),
        ConfigValue::Float(t) => if number_chars(t@) {
            Some(ScalarSpec::SNum(t@))
        } else {
            None
        },
        ConfigValue::Bool(b) => Some(ScalarSpec::SBool(b)),
        _ => None,
    }
}

fn convert_scalar_exec(v: &ConfigValue) -> (r: Option<ScalarValue>)
    ensures
        match convert_scalar(*v) {
            Some(sv) => r matches Some(x) && x@ == sv && scalar_wf(sv),
            None => r is None,
        },
{
    match v {
        ConfigValue::Str(s) => Some(ScalarValue::Str(s.clone())),
        ConfigValue::Int(n) => {
            proof {
                lemma_int_dec_number_chars(*n as int);
            }
            Some(ScalarValue::Num(i64_to_dec_string(*n)))
        },
        ConfigValue::Float(t) => {
            if check_number_chars(t.as_str()) {
                Some(ScalarValue::Num(t.clone()))
            } else {
                None
            }
        },
        ConfigValue::Bool(b) => Some(ScalarValue::Bool(*b)),
        ConfigValue::Table(_) => None,
        ConfigValue::Other => None,
    }
}

/// Fold a configured table's fields into a record, first to last.
pub open spec fn convert_into(acc: RecordSpec, fields: Seq<(String, ConfigValue)>) -> Option<
    RecordSpec,
>
    decreases fields.len(),
{
    if fields.len() == 0 {
        Some(acc)
    } else {
        match convert_scalar(fields[0].1) {
            None => None,
            Some(sv) => convert_into(record_insert(acc, fields[0].0@, sv), fields.drop_first()),
        }
    }
}

proof fn lemma_convert_scalar_wf(v: ConfigValue)
    ensures
        match convert_scalar(v) {
            Some(sv) => scalar_wf(sv),
            None => true,
        },
{
    match v {
        ConfigValue::Int(n) => lemma_int_dec_number_chars(n as int),
        _ => {},
    }
}

proof fn lemma_convert_into_wf(acc: RecordSpec, fields: Seq<(String, ConfigValue)>)
    requires
        record_wf(acc),
    ensures
        match convert_into(acc, fields) {
            Some(rec) => record_wf(rec),
            None => true,
        },
    decreases fields.len(),
{
    if fields.len() > 0 {
        match convert_scalar(fields[0].1) {
            None => {},
            Some(sv) => {
                lemma_convert_scalar_wf(fields[0].1);
                lemma_record_insert_wf(acc, fields[0].0@, sv);
                lemma_convert_into_wf(record_insert(acc, fields[0].0@, sv), fields.drop_first());
            },
        }
    }
}

fn convert_into_exec(acc: GeoIPData, fields: &Vec<(String, ConfigValue)>, k: usize) -> (r: Option<
    GeoIPData,
>)
    requires
        k <= fields@.len(),
    ensures
        match convert_into(acc@, fields@.skip(k as int)) {
            Some(rec) => r matches Some(d) && d@ == rec,
            None => r is None,
        },
    decreases fields@.len() - k,
{
    if k >= fields.len() {
        proof {
            assert(fields@.skip(k as int) =~= Seq::<(String, ConfigValue)>::empty());
        }
        Some(acc)
    } else {
        proof {
            assert(fields@.skip(k as int)[0] == fields@[k as int]);
            assert(fields@.skip(k as int).drop_first() =~= fields@.skip((k + 1) as int));
        }
        match convert_scalar_exec(&fields[k].1) {
            None => None,
            Some(sv) => {
                let mut acc = acc;
                acc.insert(fields[k].0.clone(), sv);
                convert_into_exec(acc, fields, k + 1)
            },
        }
    }
}

/// Entries of an inline `addresses` table: each key a textual address, each
/// value a flat table of scalar fields.
pub open spec fn process_inline_spec(addresses: Seq<(String, ConfigValue)>) -> Result<
    Seq<(IpKey, RecordSpec)>,
    GeoIPConfigError,
>
    decreases addresses.len(),
{
    if addresses.len() == 0 {
        Ok(Seq::empty())
    } else {
        match parse_ip_spec(addresses[0].0@) {
            None => Err(GeoIPConfigError::InvalidAddressEntry),
            Some(k) => match addresses[0].1 {
                ConfigValue::Table(fields) => match convert_into(Seq::empty(), fields@) {
                    None => Err(GeoIPConfigError::InvalidInlineEntryType),
                    Some(rec) => match process_inline_spec(addresses.drop_first()) {
                        Err(e) => Err(e),
                        Ok(rest) => Ok(seq![(k, rec)] + rest),
                    },
                },
                _ => Err(GeoIPConfigError::InvalidInlineEntryType),
            },
        }
    }
}

proof fn lemma_process_inline_wf(addresses: Seq<(String, ConfigValue)>)
    ensures
        match process_inline_spec(addresses) {
            Ok(es) => forall|i: int| 0 <= i < es.len() ==> record_wf((#[trigger] es[i]).1),
            Err(_) => true,
        },
    decreases addresses.len(),
{
    if addresses.len() > 0 {
        match parse_ip_spec(addresses[0].0@) {
            None => {},
            Some(k) => match addresses[0].1 {
                ConfigValue::Table(fields) => {
                    assert(record_wf(Seq::empty()));
                    lemma_convert_into_wf(Seq::empty(), fields@);
                    lemma_process_inline_wf(addresses.drop_first());
                    match convert_into(Seq::empty(), fields@) {
                        None => {},
                        Some(rec) => match process_inline_spec(addresses.drop_first()) {
                            Err(_) => {},
                            Ok(rest) => {
                                let out = seq![(k, rec)] + rest;
                                assert forall|i: int| 0 <= i < out.len() implies record_wf(
                                    (#[trigger] out[i]).1,
                                ) by {
                                    if i > 0 {
                                        assert(out[i] == rest[i - 1]);
                                    }
                                }
                            },
                        },
                    }
                },
                _ => {},
            },
        }
    }
}

fn process_inline_exec(addresses: &Vec<(String, ConfigValue)>, k: usize) -> (r: Result<
    Vec<(IpKey, GeoIPData)>,
    GeoIPConfigError,
>)
    requires
        k <= addresses@.len(),
    ensures
        match process_inline_spec(addresses@.skip(k as int)) {
            Ok(es) => r matches Ok(v) && mapping_entries_view(v@) == es,
            Err(e) => r matches Err(e2) && e2 == e,
        },
    decreases addresses@.len() - k,
{
    if k >= addresses.len() {
        proof {
            assert(addresses@.skip(k as int) =~= Seq::<(String, ConfigValue)>::empty());
        }
        let empty: Vec<(IpKey, GeoIPData)> = Vec::new();
        proof {
            assert(mapping_entries_view(empty@) =~= Seq::<(IpKey, RecordSpec)>::empty());
        }
        Ok(empty)
    } else {
        proof {
            assert(addresses@.skip(k as int)[0] == addresses@[k as int]);
            assert(addresses@.skip(k as int).drop_first() =~= addresses@.skip((k + 1) as int));
        }
        let ghost sp = process_inline_spec(addresses@.skip(k as int));
        let key = match parse_ip_address(addresses[k].0.as_str()) {
            Err(_) => {
                proof {
                    assert(sp == Err::<Seq<(IpKey, RecordSpec)>, GeoIPConfigError>(
                        GeoIPConfigError::InvalidAddressEntry,
                    ));
                }
                return Err(GeoIPConfigError::InvalidAddressEntry);
            },
            Ok(key) => key,
        };
        match &addresses[k].1 {
            ConfigValue::Table(fields) => {
                match convert_into_exec(GeoIPData::new(), fields, 0) {
                    None => {
                        proof {
                            assert(fields@.skip(0) =~= fields@);
                            assert(sp == Err::<Seq<(IpKey, RecordSpec)>, GeoIPConfigError>(
                                GeoIPConfigError::InvalidInlineEntryType,
                            ));
                        }
                        Err(GeoIPConfigError::InvalidInlineEntryType)
                    },
                    Some(rec) => {
                        proof {
                            assert(fields@.skip(0) =~= fields@);
                        }
                        match process_inline_exec(addresses, k + 1) {
                            Err(e) => {
                                proof {
                                    assert(sp == Err::<Seq<(IpKey, RecordSpec)>,
                                        GeoIPConfigError>(e));
                                }
                                Err(e)
                            },
                            Ok(rest) => {
                                let mut rest = rest;
                                let ghost restv = rest@;
                                let ghost recv = rec@;
                                rest.insert(0, (key, rec));
                                proof {
                                    assert(mapping_entries_view(rest@) =~= seq![(key, recv)]
                                        + mapping_entries_view(restv));
                                    assert(sp == Ok::<Seq<(IpKey, RecordSpec)>,
                                        GeoIPConfigError>(seq![(key, recv)]
                                        + mapping_entries_view(restv)));
                                }
                                Ok(rest)
                            },
                        }
                    },
                }
            },
            _ => {
                proof {
                    assert(sp == Err::<Seq<(IpKey, RecordSpec)>, GeoIPConfigError>(
                        GeoIPConfigError::InvalidInlineEntryType,
                    ));
                }
                Err(GeoIPConfigError::InvalidInlineEntryType)
            },
        }
    }
}

/// The mapping a configuration fragment describes, or the exact error that
/// rejects it. The `format` discriminator selects the variant; `inline-toml`
/// requires an `addresses` table of records; `json` requires a nonempty
/// `file` path (whose content the caller validates by `read_json_contents`
/// before activating the mapping).
pub open spec fn from_config_spec(t: Seq<(String, ConfigValue)>) -> Result<
    MappingSpec,
    GeoIPConfigError,
> {
    match table_find(t, "format"@) {
        None => Err(GeoIPConfigError::MissingFormat),
        Some(fv) => match fv {
            ConfigValue::Str(f) => if f@ == "inline-toml"@ {
                match table_find(t, "addresses"@) {
                    None => Err(GeoIPConfigError::MissingAddresses),
                    Some(av) => match av {
                        ConfigValue::Table(addresses) => match process_inline_spec(addresses@) {
                            Err(e) => Err(e),
                            Ok(es) => Ok(MappingSpec::SInline(es)),
                        },
                        _ => Err(GeoIPConfigError::InvalidAddressesType),
                    },
                }
            } else if f@ == "json"@ {
                match table_find(t, "file"@) {
                    None => Err(GeoIPConfigError::MissingFile),
                    Some(fv2) => match fv2 {
                        ConfigValue::Str(file) => if file@.len() == 0 {
                            Err(GeoIPConfigError::EmptyFileEntry)
                        } else {
                            Ok(MappingSpec::SJson(file@))
                        },
                        _ => Err(GeoIPConfigError::InvalidFileEntry),
                    },
                }
            } else if f@.len() == 0 {
                Err(GeoIPConfigError::EmptyFormatEntry)
            } else {
                Err(GeoIPConfigError::InvalidGeoIPMappingFormat)
            },
            _ => Err(GeoIPConfigError::InvalidFormatEntry),
        },
    }
}

impl GeoIPMapping {
    /// Build a mapping from its configuration fragment. Every rejection is
    /// the distinct error of `from_config_spec`, wrapped with the section
    /// name; the built mapping is the model that spec describes, and its
    /// inline records are fit to serialize.
    pub fn from_config(table: &Vec<(String, ConfigValue)>) -> (r: Result<
        GeoIPMapping,
        FastlyConfigError,
    >)
        ensures
            match from_config_spec(table@) {
                Ok(ms) => r matches Ok(m) && m@ == ms && m.wf(),
                Err(e) => r matches Err(fe) && fe matches
                    FastlyConfigError::InvalidGeoIPDefinition { name, err } && err == e && name@
                    == "geoip_mapping"@,
            },
    {
        proof {
            assert(table@.skip(0) =~= table@);
        }
        let res: Result<GeoIPMapping, GeoIPConfigError> = match table_find_exec(
            table,
            0,
            "format",
        ) {
            None => Err(GeoIPConfigError::MissingFormat),
            Some(fv) => match fv {
                ConfigValue::Str(f) => {
                    if str_eq(f.as_str(), "inline-toml") {
                        match table_find_exec(table, 0, "addresses") {
                            None => Err(GeoIPConfigError::MissingAddresses),
                            Some(av) => match av {
                                ConfigValue::Table(addresses) => {
                                    proof {
                                        assert(addresses@.skip(0) =~= addresses@);
                                        lemma_process_inline_wf(addresses@);
                                    }
                                    match process_inline_exec(addresses, 0) {
                                        Err(e) => Err(e),
                                        Ok(es) => Ok(GeoIPMapping::InlineToml { addresses: es }),
                                    }
                                },
                                _ => Err(GeoIPConfigError::InvalidAddressesType),
                            },
                        }
                    } else if str_eq(f.as_str(), "json") {
                        match table_find_exec(table, 0, "file") {
                            None => Err(GeoIPConfigError::MissingFile),
                            Some(fv2) => match fv2 {
                                ConfigValue::Str(file) => {
                                    if file.as_str().unicode_len() == 0 {
                                        Err(GeoIPConfigError::EmptyFileEntry)
                                    } else {
                                        Ok(GeoIPMapping::Json { file: file.clone() })
                                    }
                                },
                                _ => Err(GeoIPConfigError::InvalidFileEntry),
                            },
                        }
                    } else if f.as_str().unicode_len() == 0 {
                        Err(GeoIPConfigError::EmptyFormatEntry)
                    } else {
                        Err(GeoIPConfigError::InvalidGeoIPMappingFormat)
                    }
                },
                _ => Err(GeoIPConfigError::InvalidFormatEntry),
            },
        };
        match res {
            Ok(m) => Ok(m),
            Err(e) => Err(
                FastlyConfigError::InvalidGeoIPDefinition {
                    name: String::from_str("geoip_mapping"),
                    err: e,
                },
            ),
        }
    }
}

// ---------------------------------------------------------------------------
// Laws
// ---------------------------------------------------------------------------

/// Law: in an inline mapping built from pairwise-distinct keys, a lookup by
/// a stored key returns exactly the record stored under it, and a lookup by
/// any other key returns absence.
pub proof fn lemma_inline_lookup(es: Seq<(IpKey, RecordSpec)>, k: IpKey)
    requires
        forall|i: int, j: int|
            0 <= i < j < es.len() ==> (#[trigger] es[i]).0 != (#[trigger] es[j]).0,
    ensures
        forall|i: int|
            0 <= i < es.len() && (#[trigger] es[i]).0 == k ==> mapping_get_spec(
                MappingSpec::SInline(es),
                k,
                None,
            ) == Ok::<Option<RecordSpec>, GeoIPConfigError>(Some(es[i].1)),
        (forall|i: int| 0 <= i < es.len() ==> (#[trigger] es[i]).0 != k) ==> mapping_get_spec(
            MappingSpec::SInline(es),
            k,
            None,
        ) == Ok::<Option<RecordSpec>, GeoIPConfigError>(None::<RecordSpec>),
{
    assert forall|i: int| 0 <= i < es.len() && (#[trigger] es[i]).0 == k implies mapping_get_spec(
        MappingSpec::SInline(es),
        k,
        None,
    ) == Ok::<Option<RecordSpec>, GeoIPConfigError>(Some(es[i].1)) by {
        lemma_entries_lookup_at(es, k, i);
    }
    if forall|i: int| 0 <= i < es.len() ==> (#[trigger] es[i]).0 != k {
        lemma_entries_lookup_none(es, k);
    }
}

/// Law: a file-backed lookup never returns stale data, because it is a
/// function of the content read at that very call alone — two file-backed
/// mappings handed the same current text agree, whatever either held or saw
/// before, and an edit to the backing file is reflected by the next lookup
/// through the content it reads.
pub proof fn lemma_file_lookup_fresh(
    f1: Seq<char>,
    f2: Seq<char>,
    k: IpKey,
    content: Option<Seq<char>>,
)
    ensures
        mapping_get_spec(MappingSpec::SJson(f1), k, content) == mapping_get_spec(
            MappingSpec::SJson(f2),
            k,
            content,
        ),
{
}

} // verus!
