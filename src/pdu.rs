//! The PDU codec: binary form of the upper-layer Protocol Data Units.
//!
//! Every PDU is a type byte, a reserved byte, a four-byte big-endian length and
//! a body of exactly that length. Decoding never trusts a length beyond the
//! bytes at hand, and accepts exactly the canonical forms that encoding produces.
use crate::error::ProtocolError;
use crate::pdv::{Pdv, PdvView};
use crate::wire::{be16, be16_of, be32, be32_of};
use vstd::prelude::*;

verus! {

pub const PDU_ASSOCIATE_RQ: u8 = 1;
pub const PDU_ASSOCIATE_AC: u8 = 2;
pub const PDU_ASSOCIATE_RJ: u8 = 3;
pub const PDU_P_DATA: u8 = 4;
pub const PDU_RELEASE_RQ: u8 = 5;
pub const PDU_RELEASE_RP: u8 = 6;
pub const PDU_ABORT: u8 = 7;

/// A variable item (or sub-item): type, reserved byte, two-byte length, data.
#[derive(Clone, Debug)]
pub struct Item {
    pub item_type: u8,
    pub data: Vec<u8>,
}

/// The fixed fields and the variable items of A-ASSOCIATE-RQ and -AC.
#[derive(Clone, Debug)]
pub struct AssociateFields {
    pub called_ae: Vec<u8>,
    pub calling_ae: Vec<u8>,
    pub items: Vec<Item>,
}

#[derive(Debug)]
pub enum Pdu {
    AssociateRq(AssociateFields),
    AssociateAc(AssociateFields),
    AssociateRj { result: u8, source: u8, reason: u8 },
    PData(Vec<Pdv>),
    ReleaseRq,
    ReleaseRp,
    Abort { source: u8, reason: u8 },
}

pub open spec fn item_bytes(i: Item) -> Seq<u8> {
    seq![i.item_type, 0u8] + be16(i.data@.len() as u16) + i.data@
}

pub open spec fn items_bytes(s: Seq<Item>) -> Seq<u8>
    decreases s.len(),
{
    if s.len() == 0 {
        Seq::empty()
    } else {
        item_bytes(s[0]) + items_bytes(s.drop_first())
    }
}

pub open spec fn control_byte(is_command: bool, is_last: bool) -> u8 {
    ((if is_command { 1u8 } else { 0u8 }) + (if is_last { 2u8 } else { 0u8 })) as u8
}

pub open spec fn pdv_bytes(p: PdvView) -> Seq<u8> {
    be32((p.data.len() + 2) as u32) + seq![p.context_id, control_byte(p.is_command, p.is_last)]
        + p.data
}

pub open spec fn pdvs_bytes(s: Seq<Pdv>) -> Seq<u8>
    decreases s.len(),
{
    if s.len() == 0 {
        Seq::empty()
    } else {
        pdv_bytes(s[0]@) + pdvs_bytes(s.drop_first())
    }
}

pub open spec fn zeros(n: nat) -> Seq<u8> {
    Seq::new(n, |i: int| 0u8)
}

pub open spec fn associate_body(f: AssociateFields) -> Seq<u8> {
    seq![0u8, 1u8, 0u8, 0u8] + f.called_ae@ + f.calling_ae@ + zeros(32) + items_bytes(f.items@)
}

pub open spec fn pdu_type(p: Pdu) -> u8 {
    match p {
        Pdu::AssociateRq(_) => PDU_ASSOCIATE_RQ,
        Pdu::AssociateAc(_) => PDU_ASSOCIATE_AC,
        Pdu::AssociateRj { .. } => PDU_ASSOCIATE_RJ,
        Pdu::PData(_) => PDU_P_DATA,
        Pdu::ReleaseRq => PDU_RELEASE_RQ,
        Pdu::ReleaseRp => PDU_RELEASE_RP,
        Pdu::Abort { .. } => PDU_ABORT,
    }
}

pub open spec fn pdu_body(p: Pdu) -> Seq<u8> {
    match p {
        Pdu::AssociateRq(f) => associate_body(f),
        Pdu::AssociateAc(f) => associate_body(f),
        Pdu::AssociateRj { result, source, reason } => seq![0u8, result, source, reason],
        Pdu::PData(v) => pdvs_bytes(v@),
        Pdu::ReleaseRq => zeros(4),
        Pdu::ReleaseRp => zeros(4),
        Pdu::Abort { source, reason } => seq![0u8, 0u8, source, reason],
    }
}

/// The wire form of a PDU.
pub open spec fn pdu_bytes(p: Pdu) -> Seq<u8> {
    seq![pdu_type(p), 0u8] + be32(pdu_body(p).len() as u32) + pdu_body(p)
}

pub open spec fn items_wf(s: Seq<Item>) -> bool {
    forall|i: int| 0 <= i < s.len() ==> (#[trigger] s[i]).data@.len() <= 0xffff
}

pub open spec fn pdvs_wf(s: Seq<Pdv>) -> bool {
    forall|i: int| 0 <= i < s.len() ==> (#[trigger] s[i]).data@.len() + 2 <= u32::MAX
}

/// A PDU that has a wire form: AE titles of sixteen bytes, lengths that fit
/// their fields.
pub open spec fn pdu_wf(p: Pdu) -> bool {
    &&& match p {
        Pdu::AssociateRq(f) => f.called_ae@.len() == 16 && f.calling_ae@.len() == 16 && items_wf(
            f.items@,
        ),
        Pdu::AssociateAc(f) => f.called_ae@.len() == 16 && f.calling_ae@.len() == 16 && items_wf(
            f.items@,
        ),
        Pdu::PData(v) => pdvs_wf(v@),
        _ => true,
    }
    &&& pdu_body(p).len() <= u32::MAX
}

pub proof fn lemma_items_bytes_push(s: Seq<Item>, e: Item)
    ensures
        items_bytes(s.push(e)) == items_bytes(s) + item_bytes(e),
    decreases s.len(),
{
    if s.len() == 0 {
        assert(s.push(e).drop_first() =~= Seq::<Item>::empty());
        assert(items_bytes(s.push(e).drop_first()) == Seq::<u8>::empty());
        assert(items_bytes(s) == Seq::<u8>::empty());
        assert(items_bytes(s) + item_bytes(e) =~= item_bytes(e));
        assert(items_bytes(s.push(e)) =~= item_bytes(e));
    } else {
        assert(s.push(e).drop_first() =~= s.drop_first().push(e));
        lemma_items_bytes_push(s.drop_first(), e);
        assert(items_bytes(s.push(e)) =~= items_bytes(s) + item_bytes(e));
    }
}

pub proof fn lemma_pdvs_bytes_push(s: Seq<Pdv>, e: Pdv)
    ensures
        pdvs_bytes(s.push(e)) == pdvs_bytes(s) + pdv_bytes(e@),
    decreases s.len(),
{
    if s.len() == 0 {
        assert(s.push(e).drop_first() =~= Seq::<Pdv>::empty());
        assert(pdvs_bytes(s.push(e).drop_first()) == Seq::<u8>::empty());
        assert(pdvs_bytes(s) == Seq::<u8>::empty());
        assert(pdvs_bytes(s) + pdv_bytes(e@) =~= pdv_bytes(e@));
        assert(pdvs_bytes(s.push(e)) =~= pdv_bytes(e@));
    } else {
        assert(s.push(e).drop_first() =~= s.drop_first().push(e));
        lemma_pdvs_bytes_push(s.drop_first(), e);
        assert(pdvs_bytes(s.push(e)) =~= pdvs_bytes(s) + pdv_bytes(e@));
    }
}

fn push_items(buf: &mut Vec<u8>, items: &Vec<Item>)
    requires
        items_wf(items@),
    ensures
        final(buf)@ == old(buf)@ + items_bytes(items@),
{
    let mut i: usize = 0;
    while i < items.len()
        invariant
            i <= items@.len(),
            items_wf(items@),
            buf@ == old(buf)@ + items_bytes(items@.subrange(0, i as int)),
        decreases items@.len() - i,
    {
        let it = &items[i];
        assert(it.data@.len() <= 0xffff);
        let ghost before = buf@;
        buf.push(it.item_type);
        buf.push(0u8);
        crate::wire::push_be16(buf, it.data.len() as u16);
        crate::wire::push_all(buf, it.data.as_slice());
        proof {
            lemma_items_bytes_push(items@.subrange(0, i as int), *it);
            assert(items@.subrange(0, i + 1) =~= items@.subrange(0, i as int).push(*it));
            assert(buf@ =~= before + item_bytes(*it));
        }
        i = i + 1;
    }
    assert(items@.subrange(0, items@.len() as int) =~= items@);
}

fn push_pdvs(buf: &mut Vec<u8>, pdvs: &Vec<Pdv>)
    requires
        pdvs_wf(pdvs@),
    ensures
        final(buf)@ == old(buf)@ + pdvs_bytes(pdvs@),
{
    let mut i: usize = 0;
    while i < pdvs.len()
        invariant
            i <= pdvs@.len(),
            pdvs_wf(pdvs@),
            buf@ == old(buf)@ + pdvs_bytes(pdvs@.subrange(0, i as int)),
        decreases pdvs@.len() - i,
    {
        let p = &pdvs[i];
        assert(p.data@.len() + 2 <= u32::MAX);
        let ghost before = buf@;
        crate::wire::push_be32(buf, (p.data.len() + 2) as u32);
        buf.push(p.context_id);
        let control: u8 = (if p.is_command { 1u8 } else { 0u8 }) + (if p.is_last { 2u8 } else { 0u8 });
        buf.push(control);
        crate::wire::push_all(buf, p.data.as_slice());
        proof {
            lemma_pdvs_bytes_push(pdvs@.subrange(0, i as int), *p);
            assert(pdvs@.subrange(0, i + 1) =~= pdvs@.subrange(0, i as int).push(*p));
            assert(buf@ =~= before + pdv_bytes(p@));
        }
        i = i + 1;
    }
    assert(pdvs@.subrange(0, pdvs@.len() as int) =~= pdvs@);
}

fn push_zeros(buf: &mut Vec<u8>, n: usize)
    ensures
        final(buf)@ == old(buf)@ + zeros(n as nat),
{
    let mut i: usize = 0;
    while i < n
        invariant
            i <= n,
            buf@ == old(buf)@ + zeros(i as nat),
        decreases n - i,
    {
        buf.push(0u8);
        i = i + 1;
        assert(buf@ =~= old(buf)@ + zeros(i as nat));
    }
}

fn encode_body(p: &Pdu) -> (r: Vec<u8>)
    requires
        pdu_wf(*p),
    ensures
        r@ == pdu_body(*p),
{
    let mut body: Vec<u8> = Vec::new();
    match p {
        Pdu::AssociateRq(f) | Pdu::AssociateAc(f) => {
            body.push(0u8);
            body.push(1u8);
            body.push(0u8);
            body.push(0u8);
            crate::wire::push_all(&mut body, f.called_ae.as_slice());
            crate::wire::push_all(&mut body, f.calling_ae.as_slice());
            push_zeros(&mut body, 32);
            push_items(&mut body, &f.items);
            assert(body@ =~= associate_body(*f));
        },
        Pdu::AssociateRj { result, source, reason } => {
            body.push(0u8);
            body.push(*result);
            body.push(*source);
            body.push(*reason);
            assert(body@ =~= pdu_body(*p));
        },
        Pdu::PData(v) => {
            push_pdvs(&mut body, v);
            assert(body@ =~= pdu_body(*p));
        },
        Pdu::ReleaseRq | Pdu::ReleaseRp => {
            push_zeros(&mut body, 4);
            assert(body@ =~= pdu_body(*p));
        },
        Pdu::Abort { source, reason } => {
            body.push(0u8);
            body.push(0u8);
            body.push(*source);
            body.push(*reason);
            assert(body@ =~= pdu_body(*p));
        },
    }
    body
}

/// Encodes a PDU; this never fails for a well-formed PDU.
pub fn encode_pdu(p: &Pdu) -> (r: Vec<u8>)
    requires
        pdu_wf(*p),
    ensures
        r@ == pdu_bytes(*p),
{
    let body = encode_body(p);
    let t: u8 = match p {
        Pdu::AssociateRq(_) => PDU_ASSOCIATE_RQ,
        Pdu::AssociateAc(_) => PDU_ASSOCIATE_AC,
        Pdu::AssociateRj { .. } => PDU_ASSOCIATE_RJ,
        Pdu::PData(_) => PDU_P_DATA,
        Pdu::ReleaseRq => PDU_RELEASE_RQ,
        Pdu::ReleaseRp => PDU_RELEASE_RP,
        Pdu::Abort { .. } => PDU_ABORT,
    };
    let mut out: Vec<u8> = Vec::new();
    out.push(t);
    out.push(0u8);
    crate::wire::push_be32(&mut out, body.len() as u32);
    crate::wire::push_all(&mut out, body.as_slice());
    assert(out@ =~= pdu_bytes(*p));
    out
}

} // verus!

verus! {

fn all_zero(b: &[u8], start: usize, end: usize) -> (r: bool)
    requires
        start <= end <= b@.len(),
    ensures
        r == (b@.subrange(start as int, end as int) == zeros((end - start) as nat)),
{
    let mut i: usize = start;
    while i < end
        invariant
            start <= i <= end <= b@.len(),
            b@.subrange(start as int, i as int) == zeros((i - start) as nat),
        decreases end - i,
    {
        if b[i] != 0 {
            assert(b@.subrange(start as int, end as int)[i - start] != zeros(
                (end - start) as nat,
            )[i - start]);
            return false;
        }
        i = i + 1;
        assert(b@.subrange(start as int, i as int) =~= zeros((i - start) as nat));
    }
    true
}

/// Bytes that are the encoding of some run of well-formed items.
pub open spec fn canonical_items(x: Seq<u8>) -> bool {
    exists|s: Seq<Item>| items_wf(s) && items_bytes(s) == x
}

/// Bytes that are the encoding of some run of well-formed PDVs.
pub open spec fn canonical_pdvs(x: Seq<u8>) -> bool {
    exists|s: Seq<Pdv>| pdvs_wf(s) && pdvs_bytes(s) == x
}

pub proof fn lemma_canonical_items_head(x: Seq<u8>)
    requires
        canonical_items(x),
        x.len() > 0,
    ensures
        x.len() >= 4,
        x[1] == 0,
        be16_of(x[2], x[3]) <= x.len() - 4,
        canonical_items(x.subrange(4 + be16_of(x[2], x[3]), x.len() as int)),
{
    let s = choose|s: Seq<Item>| items_wf(s) && items_bytes(s) == x;
    if s.len() == 0 {
        assert(items_bytes(s) == Seq::<u8>::empty());
    }
    let t = s[0];
    let rest = s.drop_first();
    assert(x == item_bytes(t) + items_bytes(rest));
    assert(t.data@.len() <= 0xffff);
    crate::wire::lemma_be16_of_be16(t.data@.len() as u16);
    assert(x[2] == be16(t.data@.len() as u16)[0] && x[3] == be16(t.data@.len() as u16)[1]);
    assert(x.subrange(4 + t.data@.len() as int, x.len() as int) =~= items_bytes(rest));
    assert(items_wf(rest)) by {
        assert forall|i: int| 0 <= i < rest.len() implies (#[trigger] rest[i]).data@.len() <= 0xffff by {
            assert(rest[i] == s[i + 1]);
        }
    }
}

pub proof fn lemma_canonical_pdvs_head(x: Seq<u8>)
    requires
        canonical_pdvs(x),
        x.len() > 0,
    ensures
        x.len() >= 6,
        2 <= be32_of(x[0], x[1], x[2], x[3]) <= x.len() - 4,
        x[5] <= 3,
        canonical_pdvs(x.subrange(4 + be32_of(x[0], x[1], x[2], x[3]), x.len() as int)),
{
    let s = choose|s: Seq<Pdv>| pdvs_wf(s) && pdvs_bytes(s) == x;
    if s.len() == 0 {
        assert(pdvs_bytes(s) == Seq::<u8>::empty());
    }
    let t = s[0];
    let rest = s.drop_first();
    assert(x == pdv_bytes(t@) + pdvs_bytes(rest));
    assert(t.data@.len() + 2 <= u32::MAX);
    let l = (t.data@.len() + 2) as u32;
    crate::wire::lemma_be32_of_be32(l);
    assert(x[0] == be32(l)[0] && x[1] == be32(l)[1] && x[2] == be32(l)[2] && x[3] == be32(l)[3]);
    assert(x[5] == control_byte(t.is_command, t.is_last));
    assert(x.subrange(4 + l as int, x.len() as int) =~= pdvs_bytes(rest));
    assert(pdvs_wf(rest)) by {
        assert forall|i: int| 0 <= i < rest.len() implies (#[trigger] rest[i]).data@.len() + 2 <= u32::MAX by {
            assert(rest[i] == s[i + 1]);
        }
    }
}

/// Two runs of items with the same types and data, place by place.
pub open spec fn same_items(s1: Seq<Item>, s2: Seq<Item>) -> bool {
    &&& s1.len() == s2.len()
    &&& forall|i: int|
        0 <= i < s1.len() ==> (#[trigger] s1[i]).item_type == s2[i].item_type && s1[i].data@
            == s2[i].data@
}

/// A run of well-formed items is determined by its encoding.
pub proof fn lemma_items_bytes_injective(s1: Seq<Item>, s2: Seq<Item>)
    requires
        items_wf(s1),
        items_wf(s2),
        items_bytes(s1) == items_bytes(s2),
    ensures
        same_items(s1, s2),
    decreases s1.len(),
{
    if s1.len() == 0 {
        if s2.len() > 0 {
            assert(items_bytes(s2).len() >= 4);
            assert(items_bytes(s1) == Seq::<u8>::empty());
        }
    } else {
        if s2.len() == 0 {
            assert(items_bytes(s1).len() >= 4);
            assert(items_bytes(s2) == Seq::<u8>::empty());
        }
        let x = items_bytes(s1);
        let a = s1[0];
        let b = s2[0];
        assert(x == item_bytes(a) + items_bytes(s1.drop_first()));
        assert(x == item_bytes(b) + items_bytes(s2.drop_first()));
        assert(a.data@.len() <= 0xffff && b.data@.len() <= 0xffff);
        crate::wire::lemma_be16_of_be16(a.data@.len() as u16);
        crate::wire::lemma_be16_of_be16(b.data@.len() as u16);
        assert(x[2] == be16(a.data@.len() as u16)[0] && x[3] == be16(a.data@.len() as u16)[1]);
        assert(x[2] == be16(b.data@.len() as u16)[0] && x[3] == be16(b.data@.len() as u16)[1]);
        let l = a.data@.len() as int;
        assert(x[0] == a.item_type);
        assert(x[0] == b.item_type);
        assert(b.data@.len() == l);
        assert(a.data@ =~= x.subrange(4, 4 + l));
        assert(b.data@ =~= x.subrange(4, 4 + l));
        assert(items_bytes(s1.drop_first()) =~= x.subrange(4 + l, x.len() as int));
        assert(items_bytes(s2.drop_first()) =~= x.subrange(4 + l, x.len() as int));
        assert(items_wf(s1.drop_first())) by {
            assert forall|i: int| 0 <= i < s1.drop_first().len() implies (#[trigger] s1.drop_first()[i]).data@.len() <= 0xffff by {
                assert(s1.drop_first()[i] == s1[i + 1]);
            }
        }
        assert(items_wf(s2.drop_first())) by {
            assert forall|i: int| 0 <= i < s2.drop_first().len() implies (#[trigger] s2.drop_first()[i]).data@.len() <= 0xffff by {
                assert(s2.drop_first()[i] == s2[i + 1]);
            }
        }
        lemma_items_bytes_injective(s1.drop_first(), s2.drop_first());
        assert forall|i: int| 0 <= i < s1.len() implies (#[trigger] s1[i]).item_type == s2[i].item_type
            && s1[i].data@ == s2[i].data@ by {
            if i > 0 {
                assert(s1[i] == s1.drop_first()[i - 1]);
                assert(s2[i] == s2.drop_first()[i - 1]);
            }
        }
    }
}

/// Reads the items that fill `b[start..end]` exactly.
pub fn parse_items(b: &[u8], start: usize, end: usize) -> (r: Option<Vec<Item>>)
    requires
        start <= end <= b@.len(),
    ensures
        r matches Some(v) ==> items_wf(v@) && items_bytes(v@) == b@.subrange(
            start as int,
            end as int,
        ),
        canonical_items(b@.subrange(start as int, end as int)) ==> r is Some,
{
    let mut out: Vec<Item> = Vec::new();
    let mut pos: usize = start;
    assert(items_bytes(out@) =~= b@.subrange(start as int, pos as int));
    while pos < end
        invariant
            start <= pos <= end <= b@.len(),
            items_wf(out@),
            items_bytes(out@) == b@.subrange(start as int, pos as int),
            canonical_items(b@.subrange(start as int, end as int)) ==> canonical_items(
                b@.subrange(pos as int, end as int),
            ),
        decreases end - pos,
    {
        let ghost x = b@.subrange(pos as int, end as int);
        proof {
            if canonical_items(x) {
                lemma_canonical_items_head(x);
            }
        }
        if end - pos < 4 || b[pos + 1] != 0 {
            return None;
        }
        let len = crate::wire::read_be16(b, pos + 2);
        if len as usize > end - pos - 4 {
            return None;
        }
        proof {
            if canonical_items(x) {
                assert(x.subrange(4 + len, x.len() as int) =~= b@.subrange(pos + 4 + len, end as int));
            }
        }
        let data = crate::wire::copy_range(b, pos + 4, pos + 4 + len as usize);
        let it = Item { item_type: b[pos], data };
        proof {
            crate::wire::lemma_be16_bytes(b@[pos + 2], b@[pos + 3]);
            assert(item_bytes(it) =~= b@.subrange(pos as int, pos + 4 + len));
            lemma_items_bytes_push(out@, it);
            assert(b@.subrange(start as int, pos as int) + b@.subrange(pos as int, pos + 4 + len)
                =~= b@.subrange(start as int, pos + 4 + len));
        }
        out.push(it);
        pos = pos + 4 + len as usize;
    }
    Some(out)
}

/// Reads the PDVs that fill `b[start..end]` exactly.
pub fn parse_pdvs(b: &[u8], start: usize, end: usize) -> (r: Option<Vec<Pdv>>)
    requires
        start <= end <= b@.len(),
    ensures
        r matches Some(v) ==> pdvs_wf(v@) && pdvs_bytes(v@) == b@.subrange(
            start as int,
            end as int,
        ),
        canonical_pdvs(b@.subrange(start as int, end as int)) ==> r is Some,
{
    let mut out: Vec<Pdv> = Vec::new();
    let mut pos: usize = start;
    assert(pdvs_bytes(out@) =~= b@.subrange(start as int, pos as int));
    while pos < end
        invariant
            start <= pos <= end <= b@.len(),
            pdvs_wf(out@),
            pdvs_bytes(out@) == b@.subrange(start as int, pos as int),
            canonical_pdvs(b@.subrange(start as int, end as int)) ==> canonical_pdvs(
                b@.subrange(pos as int, end as int),
            ),
        decreases end - pos,
    {
        let ghost x = b@.subrange(pos as int, end as int);
        proof {
            if canonical_pdvs(x) {
                lemma_canonical_pdvs_head(x);
            }
        }
        if end - pos < 6 {
            return None;
        }
        let len = crate::wire::read_be32(b, pos);
        let control = b[pos + 5];
        if len < 2 || len as usize > end - pos - 4 || control > 3 {
            return None;
        }
        proof {
            if canonical_pdvs(x) {
                assert(x.subrange(4 + len, x.len() as int) =~= b@.subrange(pos + 4 + len, end as int));
            }
        }
        let data = crate::wire::copy_range(b, pos + 6, pos + 4 + len as usize);
        let p = Pdv {
            context_id: b[pos + 4],
            is_command: control == 1 || control == 3,
            is_last: control >= 2,
            data,
        };
        proof {
            crate::wire::lemma_be32_bytes(b@[pos as int], b@[pos + 1], b@[pos + 2], b@[pos + 3]);
            assert(control_byte(p.is_command, p.is_last) == control);
            assert(pdv_bytes(p@) =~= b@.subrange(pos as int, pos + 4 + len));
            lemma_pdvs_bytes_push(out@, p);
            assert(b@.subrange(start as int, pos as int) + b@.subrange(pos as int, pos + 4 + len)
                =~= b@.subrange(start as int, pos + 4 + len));
        }
        out.push(p);
        pos = pos + 4 + len as usize;
    }
    Some(out)
}

pub open spec fn declared_length(b: Seq<u8>) -> int
    recommends
        b.len() >= 6,
{
    be32_of(b[2], b[3], b[4], b[5]) as int
}

/// Bytes that are the wire form of some well-formed PDU.
pub open spec fn canonical_pdu(b: Seq<u8>) -> bool {
    exists|p: Pdu| pdu_wf(p) && pdu_bytes(p) == b
}

/// What the decoder checks, as it holds of every wire form.
pub open spec fn canonical_shape(b: Seq<u8>) -> bool {
    &&& b.len() >= 6
    &&& b[1] == 0
    &&& 1 <= b[0] <= 7
    &&& declared_length(b) == b.len() - 6
    &&& (b[0] == PDU_ASSOCIATE_RQ || b[0] == PDU_ASSOCIATE_AC) ==> b.len() >= 74 && b[6] == 0 && b[7]
        == 1 && b[8] == 0 && b[9] == 0 && b.subrange(42, 74) == zeros(32) && canonical_items(
        b.subrange(74, b.len() as int),
    )
    &&& b[0] == PDU_P_DATA ==> canonical_pdvs(b.subrange(6, b.len() as int))
    &&& (b[0] == PDU_ASSOCIATE_RJ || b[0] == PDU_RELEASE_RQ || b[0] == PDU_RELEASE_RP || b[0]
        == PDU_ABORT) ==> b.len() == 10 && b[6] == 0
    &&& b[0] == PDU_ABORT ==> b[7] == 0
    &&& (b[0] == PDU_RELEASE_RQ || b[0] == PDU_RELEASE_RP) ==> b[7] == 0 && b[8] == 0 && b[9] == 0
}

pub proof fn lemma_canonical_pdu_shape(b: Seq<u8>)
    ensures
        canonical_pdu(b) ==> canonical_shape(b),
{
    if canonical_pdu(b) {
        let p = choose|p: Pdu| pdu_wf(p) && pdu_bytes(p) == b;
        let body = pdu_body(p);
        crate::wire::lemma_be32_of_be32(body.len() as u32);
        assert(b[2] == be32(body.len() as u32)[0] && b[3] == be32(body.len() as u32)[1] && b[4]
            == be32(body.len() as u32)[2] && b[5] == be32(body.len() as u32)[3]);
        assert(b.subrange(6, b.len() as int) =~= body);
        match p {
            Pdu::AssociateRq(f) => {
                assert(b.subrange(42, 74) =~= zeros(32));
                assert(b.subrange(74, b.len() as int) =~= items_bytes(f.items@));
            },
            Pdu::AssociateAc(f) => {
                assert(b.subrange(42, 74) =~= zeros(32));
                assert(b.subrange(74, b.len() as int) =~= items_bytes(f.items@));
            },
            Pdu::PData(v) => {},
            _ => {},
        }
    }
}

/// Decodes one PDU. Fails with `MalformedPdu` on fewer than six bytes, on an
/// unknown type byte, on a declared length other than the bytes that follow
/// the header, and on a body that is not in canonical form. Whatever it
/// accepts encodes back to exactly the bytes it was given.
pub fn decode_pdu(b: &[u8]) -> (r: Result<Pdu, ProtocolError>)
    ensures
        b@.len() < 6 ==> r is Err,
        b@.len() >= 6 && !(1 <= b@[0] <= 7) ==> r is Err,
        b@.len() >= 6 && declared_length(b@) != b@.len() - 6 ==> r is Err,
        r matches Err(e) ==> e == ProtocolError::MalformedPdu,
        r matches Ok(p) ==> pdu_wf(p) && pdu_bytes(p) == b@,
        r is Ok <==> canonical_pdu(b@),
{
    proof {
        lemma_canonical_pdu_shape(b@);
    }
    if b.len() < 6 || b[1] != 0 {
        return Err(ProtocolError::MalformedPdu);
    }
    let t = b[0];
    let len = crate::wire::read_be32(b, 2);
    if len as usize != b.len() - 6 || t < 1 || t > 7 {
        return Err(ProtocolError::MalformedPdu);
    }
    let n = b.len();
    let ghost body = b@.subrange(6, n as int);
    proof {
        crate::wire::lemma_be32_bytes(b@[2], b@[3], b@[4], b@[5]);
        assert(b@ =~= seq![b@[0], b@[1]] + be32(len) + body);
    }
    let p = if t == PDU_ASSOCIATE_RQ || t == PDU_ASSOCIATE_AC {
        if n < 74 || b[6] != 0 || b[7] != 1 || b[8] != 0 || b[9] != 0 || !all_zero(b, 42, 74) {
            return Err(ProtocolError::MalformedPdu);
        }
        let items = match parse_items(b, 74, n) {
            Some(v) => v,
            None => {
                return Err(ProtocolError::MalformedPdu);
            },
        };
        let f = AssociateFields {
            called_ae: crate::wire::copy_range(b, 10, 26),
            calling_ae: crate::wire::copy_range(b, 26, 42),
            items,
        };
        assert(associate_body(f) =~= body);
        if t == PDU_ASSOCIATE_RQ {
            Pdu::AssociateRq(f)
        } else {
            Pdu::AssociateAc(f)
        }
    } else if t == PDU_P_DATA {
        match parse_pdvs(b, 6, n) {
            Some(v) => Pdu::PData(v),
            None => {
                return Err(ProtocolError::MalformedPdu);
            },
        }
    } else {
        if n != 10 || b[6] != 0 {
            return Err(ProtocolError::MalformedPdu);
        }
        if t == PDU_ASSOCIATE_RJ {
            let p = Pdu::AssociateRj { result: b[7], source: b[8], reason: b[9] };
            assert(pdu_body(p) =~= body);
            p
        } else if t == PDU_ABORT {
            if b[7] != 0 {
                return Err(ProtocolError::MalformedPdu);
            }
            let p = Pdu::Abort { source: b[8], reason: b[9] };
            assert(pdu_body(p) =~= body);
            p
        } else {
            if b[7] != 0 || b[8] != 0 || b[9] != 0 {
                return Err(ProtocolError::MalformedPdu);
            }
            let p = if t == PDU_RELEASE_RQ {
                Pdu::ReleaseRq
            } else {
                Pdu::ReleaseRp
            };
            assert(pdu_body(p) =~= body);
            p
        }
    };
    assert(pdu_body(p) == body);
    assert(pdu_type(p) == b@[0]);
    assert(pdu_bytes(p) =~= b@);
    assert(canonical_pdu(b@));
    Ok(p)
}

/// The body length a PDU header declares, for a reader that must know how
/// many bytes to take before decoding. An unknown type, or a length beyond
/// `limit`, is `MalformedPdu`: nothing is read on the strength of it.
pub fn pdu_body_length(header: &[u8], limit: u32) -> (r: Result<u32, ProtocolError>)
    ensures
        r is Ok <==> header@.len() >= 6 && 1 <= header@[0] <= 7 && header@[1] == 0
            && declared_length(header@) <= limit,
        r matches Ok(n) ==> n == declared_length(header@),
        r matches Err(e) ==> e == ProtocolError::MalformedPdu,
{
    if header.len() < 6 || header[0] < 1 || header[0] > 7 || header[1] != 0 {
        return Err(ProtocolError::MalformedPdu);
    }
    let n = crate::wire::read_be32(header, 2);
    if n > limit {
        return Err(ProtocolError::MalformedPdu);
    }
    Ok(n)
}

} // verus!
