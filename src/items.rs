//! The variable items of A-ASSOCIATE-RQ and -AC: application context,
//! presentation contexts with their sub-items, and user information.
use crate::negotiation::{ContextResult, ProposedContext};
use crate::pdu::{canonical_items, items_bytes, items_wf, lemma_items_bytes_injective, same_items, Item};
use crate::wire::{be16, be16_of, be32, be32_of};
use vstd::prelude::*;

verus! {

pub const ITEM_APPLICATION_CONTEXT: u8 = 0x10;
pub const ITEM_CONTEXT_RQ: u8 = 0x20;
pub const ITEM_CONTEXT_AC: u8 = 0x21;
pub const ITEM_ABSTRACT_SYNTAX: u8 = 0x30;
pub const ITEM_TRANSFER_SYNTAX: u8 = 0x40;
pub const ITEM_USER_INFO: u8 = 0x50;
pub const ITEM_MAX_LENGTH: u8 = 0x51;

pub open spec fn sub_item(t: u8, d: Seq<u8>) -> Seq<u8> {
    seq![t, 0u8] + be16(d.len() as u16) + d
}

pub open spec fn sub_items(t: u8, ds: Seq<Vec<u8>>) -> Seq<u8>
    decreases ds.len(),
{
    if ds.len() == 0 {
        Seq::empty()
    } else {
        sub_items(t, ds.drop_last()) + sub_item(t, ds.last()@)
    }
}

/// A-ASSOCIATE-RQ presentation context item data: id, three reserved bytes,
/// the abstract syntax sub-item, one transfer syntax sub-item per proposal.
pub open spec fn rq_context_data(pc: ProposedContext) -> Seq<u8> {
    seq![pc.id, 0u8, 0u8, 0u8] + sub_item(ITEM_ABSTRACT_SYNTAX, pc.abstract_syntax@) + sub_items(
        ITEM_TRANSFER_SYNTAX,
        pc.transfer_syntaxes@,
    )
}

/// A-ASSOCIATE-AC presentation context item data: id, reserved, result,
/// reserved, and the transfer syntax sub-item.
pub open spec fn ac_context_data(r: ContextResult) -> Seq<u8> {
    seq![r.id, 0u8, r.result, 0u8] + sub_item(ITEM_TRANSFER_SYNTAX, r.transfer_syntax@)
}

/// Sizes that let a proposal be written as one item.
pub open spec fn proposal_fits(pc: ProposedContext) -> bool {
    &&& pc.abstract_syntax@.len() <= 0xffff
    &&& forall|j: int|
        0 <= j < pc.transfer_syntaxes@.len() ==> (#[trigger] pc.transfer_syntaxes@[j])@.len()
            <= 0xffff
    &&& rq_context_data(pc).len() <= 0xffff
}

pub open spec fn result_fits(r: ContextResult) -> bool {
    r.transfer_syntax@.len() <= 0xfff0
}

fn push_sub_item(buf: &mut Vec<u8>, t: u8, d: &[u8])
    requires
        d@.len() <= 0xffff,
    ensures
        final(buf)@ == old(buf)@ + sub_item(t, d@),
{
    buf.push(t);
    buf.push(0u8);
    crate::wire::push_be16(buf, d.len() as u16);
    crate::wire::push_all(buf, d);
    assert(final(buf)@ =~= old(buf)@ + sub_item(t, d@));
}

/// The presentation context item that proposes `pc`.
pub fn rq_context_item(pc: &ProposedContext) -> (r: Item)
    requires
        proposal_fits(*pc),
    ensures
        r.item_type == ITEM_CONTEXT_RQ,
        r.data@ == rq_context_data(*pc),
{
    let mut data: Vec<u8> = Vec::new();
    data.push(pc.id);
    data.push(0u8);
    data.push(0u8);
    data.push(0u8);
    push_sub_item(&mut data, ITEM_ABSTRACT_SYNTAX, pc.abstract_syntax.as_slice());
    let ghost head = data@;
    let mut j: usize = 0;
    while j < pc.transfer_syntaxes.len()
        invariant
            j <= pc.transfer_syntaxes@.len(),
            proposal_fits(*pc),
            data@ == head + sub_items(
                ITEM_TRANSFER_SYNTAX,
                pc.transfer_syntaxes@.subrange(0, j as int),
            ),
        decreases pc.transfer_syntaxes@.len() - j,
    {
        assert(pc.transfer_syntaxes@[j as int]@.len() <= 0xffff);
        push_sub_item(&mut data, ITEM_TRANSFER_SYNTAX, pc.transfer_syntaxes[j].as_slice());
        proof {
            let s = pc.transfer_syntaxes@.subrange(0, j + 1);
            assert(s.drop_last() =~= pc.transfer_syntaxes@.subrange(0, j as int));
            assert(data@ =~= head + sub_items(ITEM_TRANSFER_SYNTAX, s));
        }
        j = j + 1;
    }
    assert(pc.transfer_syntaxes@.subrange(0, pc.transfer_syntaxes@.len() as int)
        =~= pc.transfer_syntaxes@);
    assert(data@ =~= rq_context_data(*pc));
    Item { item_type: ITEM_CONTEXT_RQ, data }
}

/// The presentation context item that answers with `res`.
pub fn ac_context_item(res: &ContextResult) -> (r: Item)
    requires
        result_fits(*res),
    ensures
        r.item_type == ITEM_CONTEXT_AC,
        r.data@ == ac_context_data(*res),
{
    let mut data: Vec<u8> = Vec::new();
    data.push(res.id);
    data.push(0u8);
    data.push(res.result);
    data.push(0u8);
    push_sub_item(&mut data, ITEM_TRANSFER_SYNTAX, res.transfer_syntax.as_slice());
    assert(data@ =~= ac_context_data(*res));
    Item { item_type: ITEM_CONTEXT_AC, data }
}

/// The user information item that announces a maximum PDU length.
pub fn user_info_item(max_pdu_length: u32) -> (r: Item)
    ensures
        r.item_type == ITEM_USER_INFO,
        r.data@ == sub_item(ITEM_MAX_LENGTH, be32(max_pdu_length)),
{
    let mut value: Vec<u8> = Vec::new();
    crate::wire::push_be32(&mut value, max_pdu_length);
    let mut data: Vec<u8> = Vec::new();
    push_sub_item(&mut data, ITEM_MAX_LENGTH, value.as_slice());
    Item { item_type: ITEM_USER_INFO, data }
}

pub proof fn lemma_sub_items_front(t: u8, d0: Vec<u8>, ds: Seq<Vec<u8>>)
    ensures
        sub_items(t, seq![d0] + ds) == sub_item(t, d0@) + sub_items(t, ds),
    decreases ds.len(),
{
    if ds.len() == 0 {
        assert(seq![d0] + ds =~= seq![d0]);
        assert(seq![d0].drop_last() =~= Seq::<Vec<u8>>::empty());
        assert(sub_items(t, Seq::<Vec<u8>>::empty()) == Seq::<u8>::empty());
        assert(Seq::<u8>::empty() + sub_item(t, d0@) =~= sub_item(t, d0@));
        assert(sub_items(t, seq![d0]) =~= sub_item(t, d0@));
        assert(sub_items(t, ds) == Seq::<u8>::empty());
        assert(sub_item(t, d0@) + sub_items(t, ds) =~= sub_item(t, d0@));
    } else {
        lemma_sub_items_front(t, d0, ds.drop_last());
        assert((seq![d0] + ds).drop_last() =~= seq![d0] + ds.drop_last());
        assert((seq![d0] + ds).last() == ds.last());
        assert(sub_items(t, seq![d0] + ds) =~= sub_item(t, d0@) + sub_items(t, ds));
    }
}

/// Bytes that are some run of sub-items of type `t`.
pub open spec fn canonical_sub_items(t: u8, x: Seq<u8>) -> bool {
    exists|v: Seq<Vec<u8>>|
        (forall|j: int| 0 <= j < v.len() ==> (#[trigger] v[j])@.len() <= 0xffff) && sub_items(t, v) == x
}

pub proof fn lemma_canonical_sub_items_head(t: u8, x: Seq<u8>)
    requires
        canonical_sub_items(t, x),
        x.len() > 0,
    ensures
        x.len() >= 4,
        x[0] == t,
        x[1] == 0,
        be16_of(x[2], x[3]) <= x.len() - 4,
        canonical_sub_items(t, x.subrange(4 + be16_of(x[2], x[3]), x.len() as int)),
{
    let v = choose|v: Seq<Vec<u8>>|
        (forall|j: int| 0 <= j < v.len() ==> (#[trigger] v[j])@.len() <= 0xffff) && sub_items(t, v) == x;
    if v.len() == 0 {
        assert(sub_items(t, v) == Seq::<u8>::empty());
    }
    let rest = v.drop_first();
    assert(v =~= seq![v[0]] + rest);
    lemma_sub_items_front(t, v[0], rest);
    let l = v[0]@.len();
    assert(l <= 0xffff);
    crate::wire::lemma_be16_of_be16(l as u16);
    assert(x[2] == be16(l as u16)[0] && x[3] == be16(l as u16)[1]);
    assert(x.subrange(4 + l as int, x.len() as int) =~= sub_items(t, rest));
    assert forall|j: int| 0 <= j < rest.len() implies (#[trigger] rest[j])@.len() <= 0xffff by {
        assert(rest[j] == v[j + 1]);
    }
}

/// An A-ASSOCIATE-RQ context item's data that some proposal writes.
pub open spec fn rq_readable(d: Seq<u8>) -> bool {
    exists|pc: ProposedContext|
        rq_context_data(pc) == d && pc.abstract_syntax@.len() <= 0xffff && forall|j: int|
            0 <= j < pc.transfer_syntaxes@.len() ==> (#[trigger] pc.transfer_syntaxes@[j])@.len() <= 0xffff
}

/// An A-ASSOCIATE-AC context item's data that some answer writes.
pub open spec fn ac_readable(d: Seq<u8>) -> bool {
    exists|r: ContextResult| ac_context_data(r) == d && r.transfer_syntax@.len() <= 0xffff
}

/// Reads sub-items of type `t` that fill `d[start..end]` exactly.
fn parse_sub_items(d: &[u8], start: usize, end: usize, t: u8) -> (r: Option<Vec<Vec<u8>>>)
    requires
        start <= end <= d@.len(),
    ensures
        r matches Some(v) ==> sub_items(t, v@) == d@.subrange(start as int, end as int) && forall|
            j: int,
        |
            0 <= j < v@.len() ==> (#[trigger] v@[j])@.len() <= 0xffff,
        canonical_sub_items(t, d@.subrange(start as int, end as int)) ==> r is Some,
{
    let mut out: Vec<Vec<u8>> = Vec::new();
    let mut pos: usize = start;
    assert(sub_items(t, out@) =~= d@.subrange(start as int, pos as int));
    while pos < end
        invariant
            start <= pos <= end <= d@.len(),
            sub_items(t, out@) == d@.subrange(start as int, pos as int),
            forall|j: int| 0 <= j < out@.len() ==> (#[trigger] out@[j])@.len() <= 0xffff,
            canonical_sub_items(t, d@.subrange(start as int, end as int)) ==> canonical_sub_items(
                t,
                d@.subrange(pos as int, end as int),
            ),
        decreases end - pos,
    {
        let ghost x = d@.subrange(pos as int, end as int);
        proof {
            if canonical_sub_items(t, x) {
                lemma_canonical_sub_items_head(t, x);
            }
        }
        if end - pos < 4 || d[pos] != t || d[pos + 1] != 0 {
            return None;
        }
        let len = crate::wire::read_be16(d, pos + 2);
        if len as usize > end - pos - 4 {
            return None;
        }
        proof {
            if canonical_sub_items(t, x) {
                assert(x.subrange(4 + len, x.len() as int) =~= d@.subrange(pos + 4 + len, end as int));
            }
        }
        let v = crate::wire::copy_range(d, pos + 4, pos + 4 + len as usize);
        proof {
            crate::wire::lemma_be16_bytes(d@[pos + 2], d@[pos + 3]);
            assert(sub_item(t, v@) =~= d@.subrange(pos as int, pos + 4 + len));
            assert(d@.subrange(start as int, pos as int) + d@.subrange(pos as int, pos + 4 + len)
                =~= d@.subrange(start as int, pos + 4 + len));
        }
        let ghost before = out@;
        out.push(v);
        assert(out@.drop_last() =~= before);
        pos = pos + 4 + len as usize;
    }
    Some(out)
}

/// Reads one sub-item of type `t` at `d[start..]`; `None` unless it is
/// there and ends exactly at the end of `d`.
fn parse_one_sub_item(d: &[u8], start: usize, t: u8) -> (r: Option<Vec<u8>>)
    requires
        start <= d@.len(),
    ensures
        r matches Some(v) ==> sub_item(t, v@) == d@.subrange(start as int, d@.len() as int),
        (exists|v: Seq<u8>| v.len() <= 0xffff && sub_item(t, v) == d@.subrange(start as int, d@.len() as int))
            ==> r is Some,
{
    proof {
        if exists|v: Seq<u8>| v.len() <= 0xffff && sub_item(t, v) == d@.subrange(start as int, d@.len() as int) {
            let v = choose|v: Seq<u8>| v.len() <= 0xffff && sub_item(t, v) == d@.subrange(start as int, d@.len() as int);
            crate::wire::lemma_be16_of_be16(v.len() as u16);
            let x = d@.subrange(start as int, d@.len() as int);
            assert(x.len() == 4 + v.len());
            assert(x[0] == t && x[1] == 0);
            assert(x[2] == be16(v.len() as u16)[0] && x[3] == be16(v.len() as u16)[1]);
            assert(x[2] == d@[start + 2] && x[3] == d@[start + 3] && x[0] == d@[start as int] && x[1] == d@[start + 1]);
        }
    }
    let n = d.len();
    if n - start < 4 || d[start] != t || d[start + 1] != 0 {
        return None;
    }
    let len = crate::wire::read_be16(d, start + 2);
    if len as usize != n - start - 4 {
        return None;
    }
    let v = crate::wire::copy_range(d, start + 4, n);
    proof {
        crate::wire::lemma_be16_bytes(d@[start + 2], d@[start + 3]);
        assert(sub_item(t, v@) =~= d@.subrange(start as int, n as int));
    }
    Some(v)
}

/// Reads an A-ASSOCIATE-RQ presentation context item.
pub fn parse_rq_context(it: &Item) -> (r: Option<ProposedContext>)
    ensures
        r matches Some(pc) ==> rq_context_data(pc) == it.data@,
        rq_readable(it.data@) ==> r is Some,
{
    proof {
        if rq_readable(it.data@) {
            let pc = choose|pc: ProposedContext|
                rq_context_data(pc) == it.data@ && pc.abstract_syntax@.len() <= 0xffff && forall|j: int|
                    0 <= j < pc.transfer_syntaxes@.len() ==> (#[trigger] pc.transfer_syntaxes@[j])@.len() <= 0xffff;
            let d = it.data@;
            let a = pc.abstract_syntax@.len();
            crate::wire::lemma_be16_of_be16(a as u16);
            assert(d[6] == be16(a as u16)[0] && d[7] == be16(a as u16)[1]);
            assert(d.subrange(8 + a as int, d.len() as int) =~= sub_items(ITEM_TRANSFER_SYNTAX, pc.transfer_syntaxes@));
            assert(canonical_sub_items(ITEM_TRANSFER_SYNTAX, d.subrange(8 + a as int, d.len() as int)));
        }
    }
    let d = it.data.as_slice();
    let n = d.len();
    if n < 8 || d[1] != 0 || d[2] != 0 || d[3] != 0 || d[4] != ITEM_ABSTRACT_SYNTAX || d[5] != 0 {
        return None;
    }
    let alen = crate::wire::read_be16(d, 6);
    if alen as usize > n - 8 {
        return None;
    }
    let abstract_syntax = crate::wire::copy_range(d, 8, 8 + alen as usize);
    let tss = match parse_sub_items(d, 8 + alen as usize, n, ITEM_TRANSFER_SYNTAX) {
        Some(v) => v,
        None => {
            return None;
        },
    };
    let pc = ProposedContext { id: d[0], abstract_syntax, transfer_syntaxes: tss };
    proof {
        crate::wire::lemma_be16_bytes(d@[6], d@[7]);
        assert(rq_context_data(pc) =~= d@);
    }
    Some(pc)
}

/// Reads an A-ASSOCIATE-AC presentation context item.
pub fn parse_ac_context(it: &Item) -> (r: Option<ContextResult>)
    ensures
        r matches Some(res) ==> ac_context_data(res) == it.data@,
        ac_readable(it.data@) ==> r is Some,
{
    proof {
        if ac_readable(it.data@) {
            let res = choose|res: ContextResult| ac_context_data(res) == it.data@ && res.transfer_syntax@.len() <= 0xffff;
            assert(it.data@.subrange(4, it.data@.len() as int) =~= sub_item(ITEM_TRANSFER_SYNTAX, res.transfer_syntax@));
        }
    }
    let d = it.data.as_slice();
    if d.len() < 4 || d[1] != 0 || d[3] != 0 {
        return None;
    }
    match parse_one_sub_item(d, 4, ITEM_TRANSFER_SYNTAX) {
        Some(ts) => {
            let res = ContextResult { id: d[0], result: d[2], transfer_syntax: ts };
            assert(ac_context_data(res) =~= d@);
            Some(res)
        },
        None => None,
    }
}

/// The value of the first maximum-length sub-item with four data bytes.
pub open spec fn first_max(s: Seq<Item>) -> Option<u32>
    decreases s.len(),
{
    if s.len() == 0 {
        None
    } else if s[0].item_type == ITEM_MAX_LENGTH && s[0].data@.len() == 4 {
        Some(be32_of(s[0].data@[0], s[0].data@[1], s[0].data@[2], s[0].data@[3]))
    } else {
        first_max(s.drop_first())
    }
}

/// The maximum PDU length that user information data announces: when the
/// data is a run of sub-items, the value of its first maximum-length
/// sub-item with four data bytes; otherwise none.
pub open spec fn item_max(d: Seq<u8>) -> Option<u32> {
    if canonical_items(d) {
        first_max(choose|s: Seq<Item>| items_wf(s) && items_bytes(s) == d)
    } else {
        None
    }
}

pub proof fn lemma_first_max_same(s1: Seq<Item>, s2: Seq<Item>)
    requires
        same_items(s1, s2),
    ensures
        first_max(s1) == first_max(s2),
    decreases s1.len(),
{
    if s1.len() > 0 {
        assert(s1[0].item_type == s2[0].item_type && s1[0].data@ == s2[0].data@);
        assert forall|i: int| 0 <= i < s1.drop_first().len() implies (#[trigger] s1.drop_first()[i]).item_type
            == s2.drop_first()[i].item_type && s1.drop_first()[i].data@ == s2.drop_first()[i].data@ by {
            assert(s1.drop_first()[i] == s1[i + 1]);
            assert(s2.drop_first()[i] == s2[i + 1]);
        }
        lemma_first_max_same(s1.drop_first(), s2.drop_first());
    }
}

/// The maximum PDU length a user information item announces.
pub fn parse_max_length(it: &Item) -> (r: Option<u32>)
    ensures
        r == item_max(it.data@),
{
    let subs = match crate::pdu::parse_items(it.data.as_slice(), 0, it.data.len()) {
        Some(v) => v,
        None => {
            assert(it.data@.subrange(0, it.data@.len() as int) =~= it.data@);
            return None;
        },
    };
    assert(it.data@.subrange(0, it.data@.len() as int) =~= it.data@);
    proof {
        assert(canonical_items(it.data@));
        let c = choose|s: Seq<Item>| items_wf(s) && items_bytes(s) == it.data@;
        lemma_items_bytes_injective(subs@, c);
        lemma_first_max_same(subs@, c);
    }
    let ghost all = subs@;
    let mut i: usize = 0;
    assert(all.subrange(0, all.len() as int) =~= all);
    while i < subs.len()
        invariant
            i <= subs@.len(),
            all == subs@,
            item_max(it.data@) == first_max(all),
            first_max(all) == first_max(all.subrange(i as int, all.len() as int)),
        decreases subs@.len() - i,
    {
        let ghost t = all.subrange(i as int, all.len() as int);
        assert(t[0] == all[i as int]);
        assert(t.drop_first() =~= all.subrange(i + 1, all.len() as int));
        if subs[i].item_type == ITEM_MAX_LENGTH && subs[i].data.len() == 4 {
            let s = subs[i].data.as_slice();
            return Some(crate::wire::read_be32(s, 0));
        }
        i = i + 1;
    }
    assert(all.subrange(i as int, all.len() as int) =~= Seq::<Item>::empty());
    None
}

} // verus!
