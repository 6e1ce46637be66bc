//! The association: one negotiated connection, its state, its negotiated
//! presentation contexts, and the exchange of complete DIMSE messages over
//! it. Every method is a pure step: it takes what arrived and returns what to
//! write; the transport itself belongs to the caller.
use crate::dimse::{expects_dataset, has_dataset};
use crate::error::ProtocolError;
use crate::items::{
    ac_context_data, ac_readable, item_max, parse_ac_context, parse_max_length, parse_rq_context,
    proposal_fits, rq_readable,
    rq_context_data, rq_context_item, sub_item, user_info_item, ITEM_APPLICATION_CONTEXT,
    ITEM_CONTEXT_AC, ITEM_CONTEXT_RQ, ITEM_MAX_LENGTH, ITEM_USER_INFO,
};
use crate::message::{
    accept_all, elements_fit, elements_view, empty_reassembly, encode_message, message_pdvs,
    parse_elements, Element, Reassembly,
};
use crate::negotiation::{
    accepted_in, from_proposal, has_id, ids_valid, lists, negotiated_contexts, ContextResult,
    NegotiatedContext, ProposedContext, RESULT_ACCEPTANCE,
};
use crate::pdu::{items_bytes, items_wf, pdu_wf, AssociateFields, Item, Pdu};
use crate::pdv::{pdvs_view, Pdv, PdvView};
use crate::wire::be32;
use vstd::prelude::*;
use vstd::string::StringSliceAdditionalSpecFns;

verus! {

/// The largest PDV payload used when the peer sets no limit.
pub const DEFAULT_FRAGMENT: u32 = 16378;

#[derive(Clone, Copy, Debug, PartialEq, Eq, Structural)]
pub enum AssociationState {
    /// A-ASSOCIATE-RQ sent, waiting for the answer.
    Requesting,
    Established,
    /// A-RELEASE-RQ sent, waiting for A-RELEASE-RP.
    Releasing,
    Closed,
    Aborted,
}

/// A complete DIMSE message: command set and optional dataset, on one
/// presentation context.
#[derive(Debug)]
pub struct Message {
    pub context_id: u8,
    pub command: Vec<Element>,
    pub dataset: Option<Vec<u8>>,
}

/// What a received PDU amounted to.
#[derive(Debug)]
pub enum Incoming {
    /// More fragments are needed.
    Pending,
    Message(Message),
    /// The peer asked to release: answer A-RELEASE-RP and close.
    ReleaseRequested,
    /// The peer confirmed our release.
    Released,
}

#[derive(Debug)]
pub struct Association {
    pub state: AssociationState,
    pub max_pdu_length: u32,
    pub peer_max_pdu_length: u32,
    pub proposed: Vec<ProposedContext>,
    pub results: Vec<ContextResult>,
    pub contexts: Vec<NegotiatedContext>,
    pub reassembly: Reassembly,
}

pub open spec fn spaces(n: nat) -> Seq<u8> {
    Seq::new(n, |i: int| 0x20u8)
}

/// An AE title as its sixteen-byte field: the title's bytes padded with
/// spaces.
pub open spec fn ae_field_of(title: Seq<u8>) -> Seq<u8> {
    title + spaces((16 - title.len()) as nat)
}

/// The sixteen-byte field for an AE title; `None` when the title is longer.
pub fn ae_field(title: &str) -> (r: Option<Vec<u8>>)
    ensures
        r is Some <==> title.spec_bytes().len() <= 16,
        r matches Some(v) ==> v@ == ae_field_of(title.spec_bytes()),
{
    let b = title.as_bytes();
    if b.len() > 16 {
        return None;
    }
    let mut v: Vec<u8> = Vec::new();
    crate::wire::push_all(&mut v, b);
    while v.len() < 16
        invariant
            b@.len() <= v@.len() <= 16,
            v@ == b@ + spaces((v@.len() - b@.len()) as nat),
        decreases 16 - v@.len(),
    {
        v.push(0x20u8);
        assert(v@ =~= b@ + spaces((v@.len() - b@.len()) as nat));
    }
    Some(v)
}

/// The application context name of DICOM, "1.2.840.10008.3.1.1.1".
pub open spec fn application_context_name() -> Seq<u8> {
    seq![
        0x31u8, 0x2e, 0x32, 0x2e, 0x38, 0x34, 0x30, 0x2e, 0x31, 0x30, 0x30, 0x30, 0x38, 0x2e, 0x33,
        0x2e, 0x31, 0x2e, 0x31, 0x2e, 0x31,
    ]
}

pub(crate) fn application_context_item() -> (r: Item)
    ensures
        r.item_type == ITEM_APPLICATION_CONTEXT,
        r.data@ == application_context_name(),
{
    let name: [u8; 21] = [
        0x31u8, 0x2e, 0x32, 0x2e, 0x38, 0x34, 0x30, 0x2e, 0x31, 0x30, 0x30, 0x30, 0x38, 0x2e, 0x33,
        0x2e, 0x31, 0x2e, 0x31, 0x2e, 0x31,
    ];
    let mut data: Vec<u8> = Vec::new();
    crate::wire::push_all(&mut data, name.as_slice());
    assert(data@ =~= application_context_name());
    Item { item_type: ITEM_APPLICATION_CONTEXT, data }
}

pub fn valid_ids(proposed: &Vec<ProposedContext>) -> (r: bool)
    ensures
        r == ids_valid(proposed@),
{
    let mut k: usize = 0;
    while k < proposed.len()
        invariant
            k <= proposed@.len(),
            forall|i: int| 0 <= i < k ==> (#[trigger] proposed@[i]).id % 2 == 1,
            forall|i: int, m: int|
                0 <= i < m < proposed@.len() && i < k ==> (#[trigger] proposed@[i]).id != (
                #[trigger] proposed@[m]).id,
        decreases proposed@.len() - k,
    {
        if proposed[k].id % 2 != 1 {
            return false;
        }
        let mut m: usize = k + 1;
        while m < proposed.len()
            invariant
                k < m <= proposed@.len(),
                forall|m2: int|
                    k < m2 < m ==> proposed@[k as int].id != (#[trigger] proposed@[m2]).id,
            decreases proposed@.len() - m,
        {
            if proposed[k].id == proposed[m].id {
                return false;
            }
            m = m + 1;
        }
        k = k + 1;
    }
    true
}

pub proof fn lemma_sub_items_prefix(t: u8, ds: Seq<Vec<u8>>, j: int)
    requires
        0 <= j <= ds.len(),
    ensures
        crate::items::sub_items(t, ds).len() >= crate::items::sub_items(t, ds.subrange(0, j)).len(),
    decreases ds.len(),
{
    if j < ds.len() {
        lemma_sub_items_prefix(t, ds.drop_last(), j);
        assert(ds.drop_last().subrange(0, j) =~= ds.subrange(0, j));
    } else {
        assert(ds.subrange(0, j) =~= ds);
    }
}

/// Whether a proposal can be written as one presentation context item.
pub fn proposal_size_ok(pc: &ProposedContext) -> (r: bool)
    ensures
        r == proposal_fits(*pc),
{
    let ghost tss = pc.transfer_syntaxes@;
    if pc.abstract_syntax.len() > 0xffff - 8 {
        proof {
            lemma_sub_items_prefix(crate::items::ITEM_TRANSFER_SYNTAX, tss, 0);
        }
        return false;
    }
    let mut total: usize = 8 + pc.abstract_syntax.len();
    let mut j: usize = 0;
    assert(crate::items::sub_items(crate::items::ITEM_TRANSFER_SYNTAX, tss.subrange(0, 0)).len() == 0);
    while j < pc.transfer_syntaxes.len()
        invariant
            j <= tss.len(),
            tss == pc.transfer_syntaxes@,
            total <= 0xffff,
            total == 8 + pc.abstract_syntax@.len() + crate::items::sub_items(
                crate::items::ITEM_TRANSFER_SYNTAX,
                tss.subrange(0, j as int),
            ).len(),
            forall|i: int| 0 <= i < j ==> (#[trigger] tss[i])@.len() <= 0xffff,
        decreases tss.len() - j,
    {
        let n = pc.transfer_syntaxes[j].len();
        proof {
            let s = tss.subrange(0, j + 1);
            assert(s.drop_last() =~= tss.subrange(0, j as int));
            lemma_sub_items_prefix(crate::items::ITEM_TRANSFER_SYNTAX, tss, j + 1);
        }
        if n > 0xffff || total + 4 + n > 0xffff {
            return false;
        }
        total = total + 4 + n;
        j = j + 1;
    }
    assert(tss.subrange(0, tss.len() as int) =~= tss);
    true
}

} // verus!

verus! {

pub proof fn lemma_items_bytes_bound(s: Seq<Item>)
    requires
        items_wf(s),
    ensures
        items_bytes(s).len() <= s.len() * 0x10003,
    decreases s.len(),
{
    if s.len() > 0 {
        assert(items_wf(s.drop_first())) by {
            assert forall|i: int| 0 <= i < s.drop_first().len() implies (#[trigger] s.drop_first()[i]).data@.len() <= 0xffff by {
                assert(s.drop_first()[i] == s[i + 1]);
            }
        }
        lemma_items_bytes_bound(s.drop_first());
        assert(s[0].data@.len() <= 0xffff);
    }
}

/// The variable items of our A-ASSOCIATE-RQ: application context, one
/// presentation context item per proposal in order, user information.
pub open spec fn request_items(items: Seq<Item>, proposed: Seq<ProposedContext>, max_pdu_length: u32) -> bool {
    &&& items.len() == proposed.len() + 2
    &&& items[0].item_type == ITEM_APPLICATION_CONTEXT
    &&& items[0].data@ == application_context_name()
    &&& forall|k: int|
        0 <= k < proposed.len() ==> (#[trigger] items[k + 1]).item_type == ITEM_CONTEXT_RQ
            && items[k + 1].data@ == rq_context_data(proposed[k])
    &&& items[items.len() - 1].item_type == ITEM_USER_INFO
    &&& items[items.len() - 1].data@ == sub_item(ITEM_MAX_LENGTH, be32(max_pdu_length))
}

/// The items of a given type, in order.
pub open spec fn of_type(items: Seq<Item>, t: u8) -> Seq<Item> {
    items.filter(|i: Item| i.item_type == t)
}

/// What a requestor may propose: titles of at most sixteen bytes, odd and
/// distinct context ids, at most 128 contexts, each small enough for one item.
pub open spec fn request_valid(called: Seq<u8>, calling: Seq<u8>, proposed: Seq<ProposedContext>) -> bool {
    &&& called.len() <= 16
    &&& calling.len() <= 16
    &&& ids_valid(proposed)
    &&& proposed.len() <= 128
    &&& forall|k: int| 0 <= k < proposed.len() ==> proposal_fits(#[trigger] proposed[k])
}

/// The first negotiated context for an abstract syntax.
pub open spec fn context_for(contexts: Seq<NegotiatedContext>, a: Seq<u8>) -> Option<u8>
    decreases contexts.len(),
{
    if contexts.len() == 0 {
        None
    } else if contexts[0].abstract_syntax@ == a {
        Some(contexts[0].id)
    } else {
        context_for(contexts.drop_first(), a)
    }
}

pub proof fn lemma_context_for_has_id(contexts: Seq<NegotiatedContext>, a: Seq<u8>)
    ensures
        context_for(contexts, a) matches Some(id) ==> has_id(contexts, id),
    decreases contexts.len(),
{
    if contexts.len() > 0 && contexts[0].abstract_syntax@ != a {
        lemma_context_for_has_id(contexts.drop_first(), a);
        if let Some(id) = context_for(contexts.drop_first(), a) {
            let i = choose|i: int| 0 <= i < contexts.drop_first().len() && (#[trigger] contexts.drop_first()[i]).id == id;
            assert(contexts[i + 1] == contexts.drop_first()[i]);
        }
    } else if contexts.len() > 0 {
        assert(contexts[0].id == contexts[0].id);
    }
}

/// The payload limit of one PDV so that its P-DATA-TF stays within the
/// peer's maximum PDU length.
pub open spec fn fragment_limit(peer_max: u32) -> int {
    if peer_max == 0 {
        DEFAULT_FRAGMENT as int
    } else if peer_max <= 6 {
        1
    } else {
        peer_max - 6
    }
}

/// Each PDU is a well-formed P-DATA-TF carrying exactly the PDV at its place.
pub open spec fn one_pdv_each(pdus: Seq<Pdu>, pdvs: Seq<PdvView>) -> bool {
    &&& pdus.len() == pdvs.len()
    &&& forall|i: int|
        0 <= i < pdus.len() ==> pdu_wf(#[trigger] pdus[i]) && (pdus[i] matches Pdu::PData(v)
            && v@.len() == 1 && v@[0]@ == pdvs[i])
}

/// What `release` does to a state: only an established association sends
/// A-RELEASE-RQ and waits in Releasing; every other state stays as it is.
pub open spec fn release_step(s: AssociationState) -> (AssociationState, bool) {
    if s == AssociationState::Established {
        (AssociationState::Releasing, true)
    } else {
        (s, false)
    }
}

/// Releasing twice does nothing beyond releasing once: the second call keeps
/// the state the first one left and sends nothing.
pub proof fn lemma_release_idempotent(s: AssociationState)
    ensures
        release_step(release_step(s).0) == (release_step(s).0, false),
{
}

impl Association {
    /// Opens the negotiation as requestor: the A-ASSOCIATE-RQ to send and
    /// the association waiting for the answer. An invalid request is
    /// refused with `AssociationRejected` before anything is sent.
    pub fn request(called_ae: &str, calling_ae: &str, proposed: Vec<ProposedContext>, max_pdu_length: u32) -> (r: Result<(Association, Pdu), ProtocolError>)
        ensures
            r is Ok <==> request_valid(called_ae.spec_bytes(), calling_ae.spec_bytes(), proposed@),
            r matches Err(e) ==> e == ProtocolError::AssociationRejected,
            r matches Ok((a, p)) ==> {
                &&& a.state == AssociationState::Requesting
                &&& a.proposed@ == proposed@
                &&& a.results@.len() == 0
                &&& a.contexts@.len() == 0
                &&& a.reassembly@ == empty_reassembly()
                &&& a.max_pdu_length == max_pdu_length
                &&& a.peer_max_pdu_length == 0
                &&& pdu_wf(p)
                &&& p matches Pdu::AssociateRq(f) && f.called_ae@ == ae_field_of(called_ae.spec_bytes())
                    && f.calling_ae@ == ae_field_of(calling_ae.spec_bytes())
                    && request_items(f.items@, proposed@, max_pdu_length)
            },
    {
        let called = match ae_field(called_ae) {
            Some(v) => v,
            None => {
                return Err(ProtocolError::AssociationRejected);
            },
        };
        let calling = match ae_field(calling_ae) {
            Some(v) => v,
            None => {
                return Err(ProtocolError::AssociationRejected);
            },
        };
        if proposed.len() > 128 || !valid_ids(&proposed) {
            return Err(ProtocolError::AssociationRejected);
        }
        let mut items: Vec<Item> = Vec::new();
        items.push(application_context_item());
        let mut k: usize = 0;
        while k < proposed.len()
            invariant
                k <= proposed@.len(),
                items@.len() == k + 1,
                items@[0].item_type == ITEM_APPLICATION_CONTEXT,
                items@[0].data@ == application_context_name(),
                forall|i: int|
                    0 <= i < k ==> (#[trigger] items@[i + 1]).item_type == ITEM_CONTEXT_RQ
                        && items@[i + 1].data@ == rq_context_data(proposed@[i]),
                forall|i: int| 0 <= i < k ==> proposal_fits(#[trigger] proposed@[i]),
            decreases proposed@.len() - k,
        {
            if !proposal_size_ok(&proposed[k]) {
                return Err(ProtocolError::AssociationRejected);
            }
            let it = rq_context_item(&proposed[k]);
            items.push(it);
            k = k + 1;
        }
        items.push(user_info_item(max_pdu_length));
        proof {
            assert forall|i: int| 0 <= i < items@.len() implies (#[trigger] items@[i]).data@.len() <= 0xffff by {
                if 1 <= i < items@.len() - 1 {
                    assert(items@[(i - 1) + 1] == items@[i]);
                    assert(proposal_fits(proposed@[i - 1]));
                }
            }
            lemma_items_bytes_bound(items@);
            assert(forall|i: int| 0 <= i < proposed@.len() ==> (#[trigger] items@[i + 1]).item_type == ITEM_CONTEXT_RQ);
        }
        let f = AssociateFields { called_ae: called, calling_ae: calling, items };
        let p = Pdu::AssociateRq(f);
        let a = Association {
            state: AssociationState::Requesting,
            max_pdu_length,
            peer_max_pdu_length: 0,
            proposed,
            results: Vec::new(),
            contexts: Vec::new(),
            reassembly: Reassembly::new(),
        };
        Ok((a, p))
    }
}

/// Every presentation context item of type `t` (answers or proposals) is
/// one that some context writes.
pub open spec fn all_readable(items: Seq<Item>, t: u8) -> bool {
    forall|i: int|
        0 <= i < items.len() && (#[trigger] items[i]).item_type == t ==> if t == ITEM_CONTEXT_AC {
            ac_readable(items[i].data@)
        } else {
            rq_readable(items[i].data@)
        }
}

/// The maximum PDU length that a run of items announces: that of the first
/// user information item that announces one; 0 (no limit) when none does.
pub open spec fn user_max(items: Seq<Item>) -> u32
    decreases items.len(),
{
    if items.len() == 0 {
        0
    } else if items[0].item_type == ITEM_USER_INFO && item_max(items[0].data@) is Some {
        item_max(items[0].data@)->Some_0
    } else {
        user_max(items.drop_first())
    }
}

/// Reads the presentation context answers of an A-ASSOCIATE-AC, in order,
/// and the maximum PDU length it announces (0 when none).
pub fn read_ac_items(items: &Vec<Item>) -> (r: Option<(Vec<ContextResult>, u32)>)
    ensures
        r matches Some((rs, _)) ==> rs@.len() == of_type(items@, ITEM_CONTEXT_AC).len() && forall|k: int|
            0 <= k < rs@.len() ==> ac_context_data(#[trigger] rs@[k]) == of_type(items@, ITEM_CONTEXT_AC)[k].data@,
        all_readable(items@, ITEM_CONTEXT_AC) ==> r is Some,
        r matches Some((_, m)) ==> m == user_max(items@),
{
    let mut rs: Vec<ContextResult> = Vec::new();
    let mut max: u32 = 0;
    let mut seen_max = false;
    let mut i: usize = 0;
    proof {
        reveal(Seq::filter);
        assert(of_type(items@.subrange(0, 0), ITEM_CONTEXT_AC) =~= Seq::<Item>::empty());
        assert(items@.subrange(0, items@.len() as int) =~= items@);
    }
    while i < items.len()
        invariant
            i <= items@.len(),
            !seen_max ==> max == 0 && user_max(items@) == user_max(items@.subrange(i as int, items@.len() as int)),
            seen_max ==> max == user_max(items@),
            rs@.len() == of_type(items@.subrange(0, i as int), ITEM_CONTEXT_AC).len(),
            forall|k: int|
                0 <= k < rs@.len() ==> ac_context_data(#[trigger] rs@[k]) == of_type(
                    items@.subrange(0, i as int),
                    ITEM_CONTEXT_AC,
                )[k].data@,
        decreases items@.len() - i,
    {
        let it = &items[i];
        proof {
            reveal(Seq::filter);
            let pre = items@.subrange(0, i + 1);
            assert(pre.drop_last() =~= items@.subrange(0, i as int));
            assert(pre.last() == *it);
            let tail = items@.subrange(i as int, items@.len() as int);
            assert(tail[0] == *it);
            assert(tail.drop_first() =~= items@.subrange(i + 1, items@.len() as int));
        }
        if it.item_type == ITEM_CONTEXT_AC {
            match parse_ac_context(it) {
                Some(res) => {
                    rs.push(res);
                },
                None => {
                    return None;
                },
            }
        } else if it.item_type == ITEM_USER_INFO && !seen_max {
            match parse_max_length(it) {
                Some(m) => {
                    max = m;
                    seen_max = true;
                },
                None => {},
            }
        }
        i = i + 1;
    }
    assert(items@.subrange(0, items@.len() as int) =~= items@);
    assert(items@.subrange(items@.len() as int, items@.len() as int) =~= Seq::<Item>::empty());
    Some((rs, max))
}

/// Reads the proposed presentation contexts of an A-ASSOCIATE-RQ, in order,
/// and the maximum PDU length it announces (0 when none).
pub fn read_rq_items(items: &Vec<Item>) -> (r: Option<(Vec<ProposedContext>, u32)>)
    ensures
        r matches Some((ps, _)) ==> ps@.len() == of_type(items@, ITEM_CONTEXT_RQ).len() && forall|k: int|
            0 <= k < ps@.len() ==> rq_context_data(#[trigger] ps@[k]) == of_type(items@, ITEM_CONTEXT_RQ)[k].data@,
        all_readable(items@, ITEM_CONTEXT_RQ) ==> r is Some,
        r matches Some((_, m)) ==> m == user_max(items@),
{
    let mut ps: Vec<ProposedContext> = Vec::new();
    let mut max: u32 = 0;
    let mut seen_max = false;
    let mut i: usize = 0;
    proof {
        reveal(Seq::filter);
        assert(of_type(items@.subrange(0, 0), ITEM_CONTEXT_RQ) =~= Seq::<Item>::empty());
        assert(items@.subrange(0, items@.len() as int) =~= items@);
    }
    while i < items.len()
        invariant
            i <= items@.len(),
            !seen_max ==> max == 0 && user_max(items@) == user_max(items@.subrange(i as int, items@.len() as int)),
            seen_max ==> max == user_max(items@),
            ps@.len() == of_type(items@.subrange(0, i as int), ITEM_CONTEXT_RQ).len(),
            forall|k: int|
                0 <= k < ps@.len() ==> rq_context_data(#[trigger] ps@[k]) == of_type(
                    items@.subrange(0, i as int),
                    ITEM_CONTEXT_RQ,
                )[k].data@,
        decreases items@.len() - i,
    {
        let it = &items[i];
        proof {
            reveal(Seq::filter);
            let pre = items@.subrange(0, i + 1);
            assert(pre.drop_last() =~= items@.subrange(0, i as int));
            assert(pre.last() == *it);
            let tail = items@.subrange(i as int, items@.len() as int);
            assert(tail[0] == *it);
            assert(tail.drop_first() =~= items@.subrange(i + 1, items@.len() as int));
        }
        if it.item_type == ITEM_CONTEXT_RQ {
            match parse_rq_context(it) {
                Some(pc) => {
                    ps.push(pc);
                },
                None => {
                    return None;
                },
            }
        } else if it.item_type == ITEM_USER_INFO && !seen_max {
            match parse_max_length(it) {
                Some(m) => {
                    max = m;
                    seen_max = true;
                },
                None => {},
            }
        }
        i = i + 1;
    }
    assert(items@.subrange(0, items@.len() as int) =~= items@);
    assert(items@.subrange(items@.len() as int, items@.len() as int) =~= Seq::<Item>::empty());
    Some((ps, max))
}

/// The negotiated contexts as `negotiated_contexts` promises them: drawn
/// from the proposal and accepted in the answer, and present for every
/// accepting answer that matches a proposal.
pub open spec fn negotiated_from(
    proposed: Seq<ProposedContext>,
    results: Seq<ContextResult>,
    contexts: Seq<NegotiatedContext>,
) -> bool {
    &&& forall|i: int|
        0 <= i < contexts.len() ==> from_proposal(proposed, #[trigger] contexts[i]) && accepted_in(
            results,
            contexts[i],
        )
    &&& forall|m: int, k: int|
        0 <= m < results.len() && 0 <= k < proposed.len() && (#[trigger] results[m]).result
            == RESULT_ACCEPTANCE && (#[trigger] proposed[k]).id == results[m].id && lists(
            proposed[k].transfer_syntaxes@,
            results[m].transfer_syntax@,
        ) ==> has_id(contexts, results[m].id)
}

impl Association {
    /// Takes the answer to our A-ASSOCIATE-RQ. On A-ASSOCIATE-AC the
    /// association is established with the contexts the peer accepted; a
    /// rejection or an abort ends it; anything else is a protocol violation.
    pub fn on_associate_response(&mut self, pdu: &Pdu) -> (r: Result<(), ProtocolError>)
        requires
            old(self).state == AssociationState::Requesting,
        ensures
            final(self).proposed@ == old(self).proposed@,
            (pdu matches Pdu::AssociateAc(f) && all_readable(f.items@, ITEM_CONTEXT_AC)) ==> r is Ok,
            match *pdu {
                Pdu::AssociateAc(f) => match r {
                    Ok(()) => {
                        &&& final(self).state == AssociationState::Established
                        &&& final(self).peer_max_pdu_length == user_max(f.items@)
                        &&& final(self).results@.len() == of_type(f.items@, ITEM_CONTEXT_AC).len()
                        &&& forall|k: int| 0 <= k < final(self).results@.len() ==> ac_context_data(
                            #[trigger] final(self).results@[k],
                        ) == of_type(f.items@, ITEM_CONTEXT_AC)[k].data@
                        &&& negotiated_from(final(self).proposed@, final(self).results@, final(self).contexts@)
                        &&& final(self).reassembly@ == empty_reassembly()
                    },
                    Err(e) => e == ProtocolError::MalformedPdu && final(self).state
                        == AssociationState::Aborted,
                },
                Pdu::AssociateRj { .. } => r == Err::<(), ProtocolError>(ProtocolError::AssociationRejected)
                    && final(self).state == AssociationState::Closed,
                Pdu::Abort { .. } => r == Err::<(), ProtocolError>(ProtocolError::PeerAborted)
                    && final(self).state == AssociationState::Aborted,
                _ => r == Err::<(), ProtocolError>(ProtocolError::MalformedPdu) && final(self).state
                    == AssociationState::Aborted,
            },
    {
        match pdu {
            Pdu::AssociateAc(f) => match read_ac_items(&f.items) {
                Some((results, max)) => {
                    let contexts = negotiated_contexts(&self.proposed, &results);
                    self.results = results;
                    self.contexts = contexts;
                    self.peer_max_pdu_length = max;
                    self.reassembly = Reassembly::new();
                    self.state = AssociationState::Established;
                    Ok(())
                },
                None => {
                    self.state = AssociationState::Aborted;
                    Err(ProtocolError::MalformedPdu)
                },
            },
            Pdu::AssociateRj { .. } => {
                self.state = AssociationState::Closed;
                Err(ProtocolError::AssociationRejected)
            },
            Pdu::Abort { .. } => {
                self.state = AssociationState::Aborted;
                Err(ProtocolError::PeerAborted)
            },
            _ => {
                self.state = AssociationState::Aborted;
                Err(ProtocolError::MalformedPdu)
            },
        }
    }

    /// The id of the first negotiated context for an abstract syntax.
    pub fn context_id_for(&self, abstract_syntax: &[u8]) -> (r: Option<u8>)
        ensures
            r == context_for(self.contexts@, abstract_syntax@),
    {
        let ghost s = self.contexts@;
        let mut i: usize = 0;
        assert(s.subrange(0, s.len() as int) =~= s);
        while i < self.contexts.len()
            invariant
                i <= s.len(),
                s == self.contexts@,
                context_for(s, abstract_syntax@) == context_for(s.subrange(i as int, s.len() as int), abstract_syntax@),
            decreases s.len() - i,
        {
            let ghost t = s.subrange(i as int, s.len() as int);
            assert(t[0] == s[i as int]);
            assert(t.drop_first() =~= s.subrange(i + 1, s.len() as int));
            if crate::negotiation::bytes_eq(self.contexts[i].abstract_syntax.as_slice(), abstract_syntax) {
                return Some(self.contexts[i].id);
            }
            i = i + 1;
        }
        None
    }

    /// Whether `context_id` is one of the negotiated contexts.
    pub fn is_negotiated(&self, context_id: u8) -> (r: bool)
        ensures
            r == has_id(self.contexts@, context_id),
    {
        let mut i: usize = 0;
        while i < self.contexts.len()
            invariant
                i <= self.contexts@.len(),
                forall|k: int| 0 <= k < i ==> (#[trigger] self.contexts@[k]).id != context_id,
            decreases self.contexts@.len() - i,
        {
            if self.contexts[i].id == context_id {
                return true;
            }
            i = i + 1;
        }
        false
    }

    /// The P-DATA-TF PDUs that carry a command set and its optional dataset
    /// on the first context negotiated for `abstract_syntax`.
    pub fn send(&self, abstract_syntax: &[u8], command: &Vec<Element>, dataset: Option<&Vec<u8>>) -> (r: Result<Vec<Pdu>, ProtocolError>)
        requires
            elements_fit(elements_view(command@)),
        ensures
            self.state != AssociationState::Established ==> r == Err::<Vec<Pdu>, ProtocolError>(
                ProtocolError::NotEstablished,
            ),
            self.state == AssociationState::Established && context_for(self.contexts@, abstract_syntax@) is None
                ==> r == Err::<Vec<Pdu>, ProtocolError>(ProtocolError::ContextNotNegotiated),
            self.state == AssociationState::Established ==> match context_for(self.contexts@, abstract_syntax@) {
                Some(id) => r matches Ok(pdus) && one_pdv_each(
                    pdus@,
                    message_pdvs(
                        id,
                        elements_view(command@),
                        match dataset {
                            Some(d) => Some(d@),
                            None => None,
                        },
                        fragment_limit(self.peer_max_pdu_length),
                    ),
                ),
                None => true,
            },
    {
        if self.state != AssociationState::Established {
            return Err(ProtocolError::NotEstablished);
        }
        match self.context_id_for(abstract_syntax) {
            Some(id) => {
                proof {
                    lemma_context_for_has_id(self.contexts@, abstract_syntax@);
                }
                self.send_on(id, command, dataset)
            },
            None => Err(ProtocolError::ContextNotNegotiated),
        }
    }

    /// The P-DATA-TF PDUs that carry a command set and its optional dataset
    /// on the negotiated context `context_id`, one fragment each, within the
    /// peer's maximum PDU length.
    pub fn send_on(&self, context_id: u8, command: &Vec<Element>, dataset: Option<&Vec<u8>>) -> (r: Result<Vec<Pdu>, ProtocolError>)
        requires
            elements_fit(elements_view(command@)),
        ensures
            self.state != AssociationState::Established ==> r == Err::<Vec<Pdu>, ProtocolError>(
                ProtocolError::NotEstablished,
            ),
            self.state == AssociationState::Established && !has_id(self.contexts@, context_id)
                ==> r == Err::<Vec<Pdu>, ProtocolError>(ProtocolError::ContextNotNegotiated),
            self.state == AssociationState::Established && has_id(self.contexts@, context_id) ==> (r matches Ok(pdus) && one_pdv_each(
                    pdus@,
                    message_pdvs(
                        context_id,
                        elements_view(command@),
                        match dataset {
                            Some(d) => Some(d@),
                            None => None,
                        },
                        fragment_limit(self.peer_max_pdu_length),
                    ),
                )),
    {
        if self.state != AssociationState::Established {
            return Err(ProtocolError::NotEstablished);
        }
        if !self.is_negotiated(context_id) {
            return Err(ProtocolError::ContextNotNegotiated);
        }
        let id = context_id;
        let limit: u32 = if self.peer_max_pdu_length == 0 {
            DEFAULT_FRAGMENT
        } else if self.peer_max_pdu_length <= 6 {
            1
        } else {
            self.peer_max_pdu_length - 6
        };
        let mut pdvs = encode_message(id, command, dataset, limit as usize);
        let ghost all = pdvs_view(pdvs@);
        proof {
            let cb = crate::message::elements_bytes(elements_view(command@));
            crate::pdv::lemma_fragments_bounded(id, true, cb, 0, limit as int);
            match dataset {
                Some(d) => {
                    crate::pdv::lemma_fragments_bounded(id, false, d@, 0, limit as int);
                },
                None => {},
            }
            let a = crate::pdv::fragments(id, true, cb, limit as int);
            let b = match dataset {
                Some(d) => crate::pdv::fragments(id, false, d@, limit as int),
                None => Seq::<PdvView>::empty(),
            };
            assert forall|i: int| 0 <= i < all.len() implies (#[trigger] all[i]).data.len() <= limit by {
                if i >= a.len() {
                    assert(all[i] == b[i - a.len()]);
                }
            }
        }
        let mut out: Vec<Pdu> = Vec::new();
        while pdvs.len() > 0
            invariant
                all.len() == out@.len() + pdvs@.len(),
                pdvs_view(pdvs@) == all.subrange(out@.len() as int, all.len() as int),
                limit <= u32::MAX - 6,
                forall|i: int| 0 <= i < all.len() ==> (#[trigger] all[i]).data.len() <= limit,
                one_pdv_each(out@, all.subrange(0, out@.len() as int)),
            decreases pdvs@.len(),
        {
            let ghost before = out@;
            let ghost rest = pdvs@;
            let p = pdvs.remove(0);
            proof {
                assert(pdvs_view(rest)[0] == p@);
                assert(all[before.len() as int] == p@);
                assert forall|i: int| 0 <= i < pdvs@.len() implies pdvs_view(pdvs@)[i] == all[before.len() + 1 + i] by {
                    assert(pdvs@[i] == rest[i + 1]);
                    assert(pdvs_view(rest)[i + 1] == all[before.len() + 1 + i]);
                }
                assert(pdvs_view(pdvs@) =~= all.subrange(before.len() as int + 1, all.len() as int));
            }
            let mut v: Vec<Pdv> = Vec::new();
            v.push(p);
            let pdu = Pdu::PData(v);
            proof {
                assert(crate::pdu::pdvs_bytes(v@) =~= crate::pdu::pdv_bytes(p@) + crate::pdu::pdvs_bytes(v@.drop_first()));
                assert(v@.drop_first() =~= Seq::<Pdv>::empty());
                assert(crate::pdu::pdvs_bytes(Seq::<Pdv>::empty()) == Seq::<u8>::empty());
            }
            out.push(pdu);
            proof {
                assert forall|i: int| 0 <= i < out@.len() implies pdu_wf(#[trigger] out@[i]) && (out@[i] matches Pdu::PData(w)
                    && w@.len() == 1 && w@[0]@ == all.subrange(0, out@.len() as int)[i]) by {
                    if i < before.len() {
                        assert(out@[i] == before[i]);
                        assert(all.subrange(0, before.len() as int)[i] == all[i]);
                    }
                }
            }
        }
        assert(all.subrange(0, out@.len() as int) =~= all);
        Ok(out)
    }

    /// Sends A-RELEASE-RQ when established; a no-op in every other state.
    pub fn release(&mut self) -> (r: Option<Pdu>)
        ensures
            final(self).state == release_step(old(self).state).0,
            r is Some <==> release_step(old(self).state).1,
            r matches Some(p) ==> p == Pdu::ReleaseRq && pdu_wf(p),
            final(self).contexts@ == old(self).contexts@,
            final(self).results@ == old(self).results@,
            final(self).proposed@ == old(self).proposed@,
            final(self).reassembly@ == old(self).reassembly@,
            final(self).peer_max_pdu_length == old(self).peer_max_pdu_length,
    {
        if self.state == AssociationState::Established {
            self.state = AssociationState::Releasing;
            assert(crate::pdu::pdu_body(Pdu::ReleaseRq).len() == 4);
            Some(Pdu::ReleaseRq)
        } else {
            None
        }
    }

    /// Sends A-ABORT (best effort) from any state but Closed and Aborted.
    pub fn abort(&mut self) -> (r: Option<Pdu>)
        ensures
            old(self).state == AssociationState::Closed || old(self).state == AssociationState::Aborted
                ==> r is None && final(self).state == old(self).state,
            !(old(self).state == AssociationState::Closed || old(self).state == AssociationState::Aborted)
                ==> r == Some(Pdu::Abort { source: 0, reason: 0 }) && final(self).state == AssociationState::Aborted,
            r matches Some(p) ==> pdu_wf(p),
    {
        if self.state == AssociationState::Closed || self.state == AssociationState::Aborted {
            None
        } else {
            self.state = AssociationState::Aborted;
            let p = Pdu::Abort { source: 0, reason: 0 };
            assert(crate::pdu::pdu_body(p).len() == 4);
            Some(p)
        }
    }
}

impl Association {
    /// Takes one PDU from the peer. P-DATA-TF fragments go to the reassembly
    /// until a whole message is there; A-ABORT, A-RELEASE-RQ and the answer
    /// to our release end the association; anything else, or fragments out of
    /// order, is a protocol violation that aborts it.
    pub fn receive(&mut self, pdu: Pdu) -> (r: Result<Incoming, ProtocolError>)
        requires
            old(self).state == AssociationState::Established || old(self).state
                == AssociationState::Releasing,
        ensures
            final(self).contexts@ == old(self).contexts@,
            final(self).results@ == old(self).results@,
            final(self).proposed@ == old(self).proposed@,
            final(self).peer_max_pdu_length == old(self).peer_max_pdu_length,
            match pdu {
                Pdu::PData(v) => match accept_all(old(self).reassembly@, pdvs_view(v@)) {
                    None => r == Err::<Incoming, ProtocolError>(ProtocolError::MalformedPdu)
                        && final(self).state == AssociationState::Aborted,
                    Some(s) => if !s.command_complete {
                        (r matches Ok(Incoming::Pending)) && final(self).reassembly@ == s && final(self).state == old(self).state
                    } else {
                        match parse_elements(s.command) {
                            None => r == Err::<Incoming, ProtocolError>(ProtocolError::MalformedPdu)
                                && final(self).state == AssociationState::Aborted,
                            Some(cmd) => if expects_dataset(cmd) && !s.data_complete {
                                (r matches Ok(Incoming::Pending)) && final(self).reassembly@ == s
                                    && final(self).state == old(self).state
                            } else if expects_dataset(cmd) || (s.data.len() == 0
                                && !s.data_complete) {
                                &&& (r matches Ok(Incoming::Message(m)) && m.context_id
                                    == s.context_id && elements_view(m.command@) == cmd && if expects_dataset(
                                    cmd,
                                ) {
                                    (m.dataset matches Some(d) && d@ == s.data)
                                } else {
                                    m.dataset is None
                                })
                                &&& final(self).reassembly@ == empty_reassembly()
                                &&& final(self).state == old(self).state
                            } else {
                                r == Err::<Incoming, ProtocolError>(ProtocolError::MalformedPdu)
                                    && final(self).state == AssociationState::Aborted
                            },
                        }
                    },
                },
                Pdu::Abort { .. } => r == Err::<Incoming, ProtocolError>(ProtocolError::PeerAborted)
                    && final(self).state == AssociationState::Aborted,
                Pdu::ReleaseRq => (r matches Ok(Incoming::ReleaseRequested)) && final(self).state
                    == AssociationState::Closed,
                Pdu::ReleaseRp => if old(self).state == AssociationState::Releasing {
                    (r matches Ok(Incoming::Released)) && final(self).state == AssociationState::Closed
                } else {
                    r == Err::<Incoming, ProtocolError>(ProtocolError::MalformedPdu) && final(self).state == AssociationState::Aborted
                },
                _ => r == Err::<Incoming, ProtocolError>(ProtocolError::MalformedPdu) && final(self).state == AssociationState::Aborted,
            },
    {
        match pdu {
            Pdu::PData(v) => {
                let ghost all = pdvs_view(v@);
                let ghost start = self.reassembly@;
                let mut i: usize = 0;
                let mut framing_ok = true;
                assert(all.subrange(0, all.len() as int) =~= all);
                while framing_ok && i < v.len()
                    invariant
                        i <= v@.len(),
                        all == pdvs_view(v@),
                        start == old(self).reassembly@,
                        framing_ok ==> accept_all(start, all) == accept_all(
                            self.reassembly@,
                            all.subrange(i as int, all.len() as int),
                        ),
                        !framing_ok ==> accept_all(start, all) is None,
                        self.state == old(self).state,
                        self.contexts@ == old(self).contexts@,
                        self.results@ == old(self).results@,
                        self.proposed@ == old(self).proposed@,
                        self.peer_max_pdu_length == old(self).peer_max_pdu_length,
                    decreases v@.len() - i,
                {
                    let ghost cur = self.reassembly@;
                    let ghost rest = all.subrange(i as int, all.len() as int);
                    assert(rest[0] == v@[i as int]@);
                    assert(rest.drop_first() =~= all.subrange(i + 1, all.len() as int));
                    match self.reassembly.accept(&v[i]) {
                        Ok(()) => {},
                        Err(_) => {
                            assert(crate::message::accept_pdv(cur, rest[0]) is None);
                            framing_ok = false;
                        },
                    }
                    i = i + 1;
                }
                if !framing_ok {
                    self.state = AssociationState::Aborted;
                    return Err(ProtocolError::MalformedPdu);
                }
                assert(all.subrange(i as int, all.len() as int) =~= Seq::<PdvView>::empty());
                assert(accept_all(self.reassembly@, Seq::<PdvView>::empty()) == Some(self.reassembly@));
                if !self.reassembly.command_complete {
                    return Ok(Incoming::Pending);
                }
                let command = match crate::message::decode_elements(self.reassembly.command.as_slice()) {
                    Some(c) => c,
                    None => {
                        self.state = AssociationState::Aborted;
                        return Err(ProtocolError::MalformedPdu);
                    },
                };
                let with_data = has_dataset(&command);
                if with_data && !self.reassembly.data_complete {
                    return Ok(Incoming::Pending);
                }
                if !with_data && (self.reassembly.data.len() != 0 || self.reassembly.data_complete) {
                    self.state = AssociationState::Aborted;
                    return Err(ProtocolError::MalformedPdu);
                }
                let context_id = self.reassembly.context_id;
                let mut done = Reassembly::new();
                std::mem::swap(&mut done, &mut self.reassembly);
                let dataset = if with_data {
                    Some(done.data)
                } else {
                    None
                };
                Ok(Incoming::Message(Message { context_id, command, dataset }))
            },
            Pdu::Abort { .. } => {
                self.state = AssociationState::Aborted;
                Err(ProtocolError::PeerAborted)
            },
            Pdu::ReleaseRq => {
                self.state = AssociationState::Closed;
                Ok(Incoming::ReleaseRequested)
            },
            Pdu::ReleaseRp => {
                if self.state == AssociationState::Releasing {
                    self.state = AssociationState::Closed;
                    Ok(Incoming::Released)
                } else {
                    self.state = AssociationState::Aborted;
                    Err(ProtocolError::MalformedPdu)
                }
            },
            _ => {
                self.state = AssociationState::Aborted;
                Err(ProtocolError::MalformedPdu)
            },
        }
    }
}

} // verus!
