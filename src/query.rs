//! Query/Retrieve identifiers at STUDY level, written in Implicit VR Little
//! Endian (the transfer syntax proposed for the query/retrieve contexts),
//! and the reading of a C-FIND match into a `StudyResult`.
use crate::dimse::{command_fits, text_value, uid_value};
use crate::message::{decode_elements, elements_bytes, elements_view, encode_elements, parse_elements, Element};
use crate::model::{QueryParams, StudyResult};
use vstd::prelude::*;
use vstd::string::StringSliceAdditionalSpecFns;
use vstd::utf8::{decode_utf8, encode_utf8, valid_utf8};

verus! {

/// "STUDY", the Query/Retrieve Level of every identifier here.
pub open spec fn study_level() -> Seq<u8> {
    seq![0x53u8, 0x54, 0x55, 0x44, 0x59]
}

/// "*", the universal match.
pub open spec fn wildcard() -> Seq<u8> {
    seq![0x2au8]
}

pub open spec fn key(group: u16, element: u16, v: Seq<u8>) -> (u16, u16, Seq<u8>) {
    (group, element, v)
}

pub open spec fn text_or(o: Option<String>, default: Seq<u8>) -> Seq<u8> {
    match o {
        Some(s) => text_value(encode_utf8(s@)),
        None => text_value(default),
    }
}

pub open spec fn optional_key(o: Option<String>, group: u16, element: u16) -> Seq<(u16, u16, Seq<u8>)> {
    match o {
        Some(s) => seq![key(group, element, text_value(encode_utf8(s@)))],
        None => Seq::empty(),
    }
}

/// The keys of a STUDY-level C-FIND, in tag order: a key that is not set
/// matches everything (patient name and id as "*", the others empty),
/// accession number and modality only when set, and empty return keys for
/// the study UID, description and counts.
pub open spec fn study_query_keys(p: QueryParams) -> Seq<(u16, u16, Seq<u8>)> {
    seq![key(0x0008, 0x0020, text_or(p.study_date, Seq::empty()))]
        + optional_key(p.accession_number, 0x0008, 0x0050)
        + seq![key(0x0008, 0x0052, text_value(study_level()))]
        + optional_key(p.modality, 0x0008, 0x0060)
        + seq![
            key(0x0008, 0x1030, Seq::empty()),
            key(0x0010, 0x0010, text_or(p.patient_name, wildcard())),
            key(0x0010, 0x0020, text_or(p.patient_id, wildcard())),
            key(0x0020, 0x000D, Seq::empty()),
            key(0x0020, 0x1206, Seq::empty()),
            key(0x0020, 0x1208, Seq::empty()),
        ]
}

/// The keys of a STUDY-level C-MOVE or C-GET: the level and the study UID.
pub open spec fn retrieve_keys(study_uid: Seq<u8>) -> Seq<(u16, u16, Seq<u8>)> {
    seq![key(0x0008, 0x0052, text_value(study_level())), key(0x0020, 0x000D, uid_value(study_uid))]
}

fn text_key(group: u16, element: u16, t: &[u8]) -> (r: Element)
    ensures
        r@ == key(group, element, text_value(t@)),
{
    let mut value: Vec<u8> = Vec::new();
    crate::wire::push_all(&mut value, t);
    if t.len() % 2 == 1 {
        value.push(0x20u8);
    }
    Element { group, element, value }
}

fn string_bytes(s: &String) -> (r: Vec<u8>)
    ensures
        r@ == encode_utf8(s@),
{
    crate::dimse::str_bytes(s.as_str())
}

fn push_text_or(out: &mut Vec<Element>, o: &Option<String>, default: &[u8], group: u16, element: u16)
    ensures
        elements_view(final(out)@) == elements_view(old(out)@).push(key(group, element, text_or(*o, default@))),
{
    let e = match o {
        Some(s) => {
            let b = string_bytes(s);
            text_key(group, element, b.as_slice())
        },
        None => text_key(group, element, default),
    };
    out.push(e);
    assert(elements_view(out@) =~= elements_view(old(out)@).push(e@));
}

fn push_optional(out: &mut Vec<Element>, o: &Option<String>, group: u16, element: u16)
    ensures
        elements_view(final(out)@) == elements_view(old(out)@) + optional_key(*o, group, element),
{
    match o {
        Some(s) => {
            let b = string_bytes(s);
            let e = text_key(group, element, b.as_slice());
            out.push(e);
            assert(elements_view(out@) =~= elements_view(old(out)@) + optional_key(*o, group, element));
        },
        None => {
            assert(elements_view(out@) =~= elements_view(old(out)@) + optional_key(*o, group, element));
        },
    }
}

/// The STUDY-level C-FIND identifier for these parameters.
pub fn study_query(params: &QueryParams) -> (r: Vec<Element>)
    ensures
        elements_view(r@) == study_query_keys(*params),
{
    let level: [u8; 5] = [0x53u8, 0x54, 0x55, 0x44, 0x59];
    let star: [u8; 1] = [0x2au8];
    let none: [u8; 0] = [];
    assert(level@ =~= study_level());
    assert(star@ =~= wildcard());
    assert(none@ =~= Seq::<u8>::empty());
    assert(text_value(Seq::<u8>::empty()) =~= Seq::<u8>::empty());
    let mut out: Vec<Element> = Vec::new();
    push_text_or(&mut out, &params.study_date, none.as_slice(), 0x0008, 0x0020);
    let ghost a = elements_view(out@);
    assert(a =~= seq![key(0x0008, 0x0020, text_or(params.study_date, Seq::empty()))]);
    push_optional(&mut out, &params.accession_number, 0x0008, 0x0050);
    let ghost b = elements_view(out@);
    out.push(text_key(0x0008, 0x0052, level.as_slice()));
    let ghost c = elements_view(out@);
    assert(c =~= b + seq![key(0x0008, 0x0052, text_value(study_level()))]);
    push_optional(&mut out, &params.modality, 0x0008, 0x0060);
    let ghost d = elements_view(out@);
    let e1 = text_key(0x0008, 0x1030, none.as_slice());
    out.push(e1);
    let ghost d1 = elements_view(out@);
    assert(d1 =~= d.push(e1@));
    push_text_or(&mut out, &params.patient_name, star.as_slice(), 0x0010, 0x0010);
    push_text_or(&mut out, &params.patient_id, star.as_slice(), 0x0010, 0x0020);
    let ghost d2 = elements_view(out@);
    let e2 = text_key(0x0020, 0x000D, none.as_slice());
    out.push(e2);
    let ghost d3 = elements_view(out@);
    assert(d3 =~= d2.push(e2@));
    let e3 = text_key(0x0020, 0x1206, none.as_slice());
    out.push(e3);
    let ghost d4 = elements_view(out@);
    assert(d4 =~= d3.push(e3@));
    let e4 = text_key(0x0020, 0x1208, none.as_slice());
    out.push(e4);
    assert(elements_view(out@) =~= d4.push(e4@));
    assert(elements_view(out@) =~= d + seq![
        key(0x0008, 0x1030, Seq::empty()),
        key(0x0010, 0x0010, text_or(params.patient_name, wildcard())),
        key(0x0010, 0x0020, text_or(params.patient_id, wildcard())),
        key(0x0020, 0x000D, Seq::empty()),
        key(0x0020, 0x1206, Seq::empty()),
        key(0x0020, 0x1208, Seq::empty()),
    ]);
    assert(elements_view(out@) =~= study_query_keys(*params));
    out
}

/// The encoded C-FIND identifier; `None` when a value is too long for its
/// length field.
pub fn query_dataset(params: &QueryParams) -> (r: Option<Vec<u8>>)
    ensures
        r is Some <==> command_fits(study_query_keys(*params)),
        r matches Some(d) ==> d@ == elements_bytes(study_query_keys(*params)),
{
    let keys = study_query(params);
    if !crate::dimse::fits(&keys) {
        return None;
    }
    Some(encode_elements(&keys))
}

/// The encoded C-MOVE / C-GET identifier for one study.
pub fn retrieve_dataset(study_uid: &str) -> (r: Option<Vec<u8>>)
    ensures
        r is Some <==> command_fits(retrieve_keys(study_uid.spec_bytes())),
        r matches Some(d) ==> d@ == elements_bytes(retrieve_keys(study_uid.spec_bytes())),
{
    let level: [u8; 5] = [0x53u8, 0x54, 0x55, 0x44, 0x59];
    assert(level@ =~= study_level());
    let uid = crate::dimse::str_bytes(study_uid);
    let mut keys: Vec<Element> = Vec::new();
    keys.push(text_key(0x0008, 0x0052, level.as_slice()));
    let mut value: Vec<u8> = Vec::new();
    crate::wire::push_all(&mut value, uid.as_slice());
    if uid.len() % 2 == 1 {
        value.push(0u8);
    }
    keys.push(Element { group: 0x0020, element: 0x000D, value });
    assert(elements_view(keys@) =~= retrieve_keys(study_uid.spec_bytes()));
    if !crate::dimse::fits(&keys) {
        return None;
    }
    Some(encode_elements(&keys))
}

/// The value of the first element with this tag.
pub open spec fn find_key(s: Seq<(u16, u16, Seq<u8>)>, group: u16, element: u16) -> Option<Seq<u8>>
    decreases s.len(),
{
    if s.len() == 0 {
        None
    } else if s[0].0 == group && s[0].1 == element {
        Some(s[0].2)
    } else {
        find_key(s.drop_first(), group, element)
    }
}

pub open spec fn is_padding(b: u8) -> bool {
    b == 0x20 || b == 0
}

/// A value without its trailing spaces and NULs.
pub open spec fn trim_end(v: Seq<u8>) -> Seq<u8>
    decreases v.len(),
{
    if v.len() > 0 && is_padding(v.last()) {
        trim_end(v.drop_last())
    } else {
        v
    }
}

/// A value without its leading spaces.
pub open spec fn trim_start(v: Seq<u8>) -> Seq<u8>
    decreases v.len(),
{
    if v.len() > 0 && v[0] == 0x20 {
        trim_start(v.drop_first())
    } else {
        v
    }
}

/// The number that a run of decimal digits writes.
pub open spec fn decimal(v: Seq<u8>) -> Option<int>
    decreases v.len(),
{
    if v.len() == 0 {
        None
    } else if !(0x30 <= v.last() <= 0x39) {
        None
    } else if v.len() == 1 {
        Some(v.last() - 0x30)
    } else {
        match decimal(v.drop_last()) {
            Some(n) => Some(n * 10 + (v.last() - 0x30)),
            None => None,
        }
    }
}

/// A text field of a match: the trimmed value, empty when absent.
pub open spec fn text_field(s: Seq<(u16, u16, Seq<u8>)>, group: u16, element: u16) -> Seq<u8> {
    match find_key(s, group, element) {
        Some(v) => trim_end(v),
        None => Seq::empty(),
    }
}

/// A count field of a match: its decimal value, 0 when absent, not a
/// number, or beyond `i32`.
pub open spec fn count_field(s: Seq<(u16, u16, Seq<u8>)>, group: u16, element: u16) -> i32 {
    match decimal(trim_start(text_field(s, group, element))) {
        Some(n) => if n <= i32::MAX {
            n as i32
        } else {
            0
        },
        None => 0,
    }
}

/// A text as read from bytes: the UTF-8 it decodes to, empty when invalid.
pub open spec fn text_of(b: Seq<u8>) -> Seq<char> {
    if valid_utf8(b) {
        decode_utf8(b)
    } else {
        Seq::empty()
    }
}

/// Relies on std's `String::from_utf8`: valid UTF-8 gives the string with
/// exactly those bytes, anything else an error.
#[verifier::external_body]
fn utf8_string(b: Vec<u8>) -> (r: Option<String>)
    ensures
        r is Some <==> valid_utf8(b@),
        r matches Some(s) ==> encode_utf8(s@) == b@,
{
    String::from_utf8(b).ok()
}

fn find_key_exec(s: &Vec<Element>, group: u16, element: u16) -> (r: Option<&Vec<u8>>)
    ensures
        match find_key(elements_view(s@), group, element) {
            Some(v) => r matches Some(b) && b@ == v,
            None => r is None,
        },
{
    let ghost sv = elements_view(s@);
    let mut i: usize = 0;
    assert(sv.subrange(0, sv.len() as int) =~= sv);
    while i < s.len()
        invariant
            i <= s@.len(),
            sv == elements_view(s@),
            find_key(sv, group, element) == find_key(sv.subrange(i as int, sv.len() as int), group, element),
        decreases s@.len() - i,
    {
        let ghost t = sv.subrange(i as int, sv.len() as int);
        assert(t[0] == s@[i as int]@);
        assert(t.drop_first() =~= sv.subrange(i + 1, sv.len() as int));
        if s[i].group == group && s[i].element == element {
            return Some(&s[i].value);
        }
        i = i + 1;
    }
    None
}

fn trimmed(v: &Vec<u8>) -> (r: Vec<u8>)
    ensures
        r@ == trim_end(v@),
{
    let mut n: usize = v.len();
    assert(v@.subrange(0, n as int) =~= v@);
    while n > 0 && (v[n - 1] == 0x20 || v[n - 1] == 0)
        invariant
            n <= v@.len(),
            trim_end(v@) == trim_end(v@.subrange(0, n as int)),
        decreases n,
    {
        assert(v@.subrange(0, n as int).drop_last() =~= v@.subrange(0, n - 1));
        n = n - 1;
    }
    crate::wire::copy_range(v.as_slice(), 0, n)
}

fn text(s: &Vec<Element>, group: u16, element: u16) -> (r: String)
    ensures
        r@ == text_of(text_field(elements_view(s@), group, element)),
{
    let bytes = match find_key_exec(s, group, element) {
        Some(v) => trimmed(v),
        None => Vec::new(),
    };
    match utf8_string(bytes) {
        Some(t) => {
            proof {
                vstd::utf8::encode_utf8_decode_utf8(t@);
            }
            t
        },
        None => String::new(),
    }
}

#[verifier::loop_isolation(false)]
fn count(s: &Vec<Element>, group: u16, element: u16) -> (r: i32)
    ensures
        r == count_field(elements_view(s@), group, element),
{
    let v = match find_key_exec(s, group, element) {
        Some(v) => trimmed(v),
        None => Vec::new(),
    };
    let mut start: usize = 0;
    assert(v@.subrange(0, v@.len() as int) =~= v@);
    while start < v.len() && v[start] == 0x20
        invariant
            start <= v@.len(),
            trim_start(v@) == trim_start(v@.subrange(start as int, v@.len() as int)),
        decreases v@.len() - start,
    {
        assert(v@.subrange(start as int, v@.len() as int).drop_first() =~= v@.subrange(start + 1, v@.len() as int));
        start = start + 1;
    }
    let ghost digits = v@.subrange(start as int, v@.len() as int);
    assert(digits.len() > 0 ==> digits[0] != 0x20);
    assert(trim_start(digits) == digits);
    if start == v.len() {
        return 0;
    }
    let mut n: i64 = 0;
    let mut i: usize = start;
    assert(v@.subrange(start as int, i as int) =~= Seq::<u8>::empty());
    while i < v.len()
        invariant
            start < v@.len(),
            start <= i <= v@.len(),
            digits == v@.subrange(start as int, v@.len() as int),
            i == start || decimal(v@.subrange(start as int, i as int)) == Some(n as int),
            i == start ==> n == 0,
            0 <= n <= i32::MAX,
        decreases v@.len() - i,
    {
        let c = v[i];
        proof {
            let pre = v@.subrange(start as int, i + 1);
            assert(pre.drop_last() =~= v@.subrange(start as int, i as int));
            assert(pre.last() == c);
        }
        if c < 0x30 || c > 0x39 {
            proof {
                lemma_decimal_prefix(digits, i - start + 1);
                assert(digits.subrange(0, i - start + 1) =~= v@.subrange(start as int, i + 1));
            }
            return 0;
        }
        let next = n * 10 + (c - 0x30) as i64;
        if next > i32::MAX as i64 {
            proof {
                lemma_decimal_prefix(digits, i - start + 1);
                assert(digits.subrange(0, i - start + 1) =~= v@.subrange(start as int, i + 1));
                lemma_decimal_grows(digits, i - start + 1);
            }
            return 0;
        }
        n = next;
        i = i + 1;
    }
    n as i32
}

/// A prefix that is not a number keeps the whole from being one.
pub proof fn lemma_decimal_prefix(v: Seq<u8>, j: int)
    requires
        0 < j <= v.len(),
    ensures
        decimal(v.subrange(0, j)) is None ==> decimal(v) is None,
    decreases v.len(),
{
    if j < v.len() {
        lemma_decimal_prefix(v.drop_last(), j);
        assert(v.drop_last().subrange(0, j) =~= v.subrange(0, j));
    } else {
        assert(v.subrange(0, j) =~= v);
    }
}

/// Further digits never make a number smaller.
pub proof fn lemma_decimal_grows(v: Seq<u8>, j: int)
    requires
        0 < j <= v.len(),
        decimal(v.subrange(0, j)) is Some,
    ensures
        decimal(v) matches Some(n) ==> n >= decimal(v.subrange(0, j))->Some_0,
    decreases v.len(),
{
    if j < v.len() {
        assert(v.drop_last().subrange(0, j) =~= v.subrange(0, j));
        lemma_decimal_grows(v.drop_last(), j);
        lemma_decimal_nonneg(v.drop_last());
    } else {
        assert(v.subrange(0, j) =~= v);
    }
}

pub proof fn lemma_decimal_nonneg(v: Seq<u8>)
    ensures
        decimal(v) matches Some(n) ==> n >= 0,
    decreases v.len(),
{
    if v.len() > 1 {
        lemma_decimal_nonneg(v.drop_last());
    }
}

/// The fields of a STUDY-level match, read from its identifier.
pub open spec fn study_result_of(s: Seq<(u16, u16, Seq<u8>)>, r: StudyResult) -> bool {
    &&& r.study_instance_uid@ == text_of(text_field(s, 0x0020, 0x000D))
    &&& r.patient_name@ == text_of(text_field(s, 0x0010, 0x0010))
    &&& r.patient_id@ == text_of(text_field(s, 0x0010, 0x0020))
    &&& r.study_date@ == text_of(text_field(s, 0x0008, 0x0020))
    &&& r.modality@ == text_of(text_field(s, 0x0008, 0x0060))
    &&& r.study_description@ == text_of(text_field(s, 0x0008, 0x1030))
    &&& r.number_of_series == count_field(s, 0x0020, 0x1206)
    &&& r.number_of_instances == count_field(s, 0x0020, 0x1208)
}

/// Reads a C-FIND match; `None` when the identifier is not a run of
/// Implicit VR Little Endian elements.
pub fn study_result(identifier: &[u8]) -> (r: Option<StudyResult>)
    ensures
        r is Some <==> parse_elements(identifier@) is Some,
        r matches Some(res) ==> study_result_of(parse_elements(identifier@)->Some_0, res),
{
    let s = match decode_elements(identifier) {
        Some(s) => s,
        None => {
            return None;
        },
    };
    Some(StudyResult {
        study_instance_uid: text(&s, 0x0020, 0x000D),
        patient_name: text(&s, 0x0010, 0x0010),
        patient_id: text(&s, 0x0010, 0x0020),
        study_date: text(&s, 0x0008, 0x0020),
        modality: text(&s, 0x0008, 0x0060),
        study_description: text(&s, 0x0008, 0x1030),
        number_of_series: count(&s, 0x0020, 0x1206),
        number_of_instances: count(&s, 0x0020, 0x1208),
    })
}

/// Reads every match of a C-FIND, in order; `None` when one of them is not
/// a run of Implicit VR Little Endian elements.
pub fn study_results(identifiers: &Vec<Vec<u8>>) -> (r: Option<Vec<StudyResult>>)
    ensures
        r is Some <==> forall|i: int| 0 <= i < identifiers@.len() ==> parse_elements(#[trigger] identifiers@[i]@) is Some,
        r matches Some(v) ==> v@.len() == identifiers@.len() && forall|i: int|
            0 <= i < v@.len() ==> study_result_of(parse_elements(identifiers@[i]@)->Some_0, #[trigger] v@[i]),
{
    let mut out: Vec<StudyResult> = Vec::new();
    let mut i: usize = 0;
    while i < identifiers.len()
        invariant
            i <= identifiers@.len(),
            out@.len() == i,
            forall|k: int| 0 <= k < i ==> parse_elements(#[trigger] identifiers@[k]@) is Some,
            forall|k: int|
                0 <= k < i ==> study_result_of(parse_elements(identifiers@[k]@)->Some_0, #[trigger] out@[k]),
        decreases identifiers@.len() - i,
    {
        match study_result(identifiers[i].as_slice()) {
            Some(res) => {
                out.push(res);
            },
            None => {
                return None;
            },
        }
        i = i + 1;
    }
    Some(out)
}

} // verus!
