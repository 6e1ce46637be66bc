//! The server side: acceptance of an association as acceptor, dispatch of
//! each received request, and the registry of active associations.
use crate::association::{
    ae_field, ae_field_of, all_readable, user_max, application_context_name, negotiated_from, of_type,
    read_rq_items,
    valid_ids, Association, AssociationState, Message,
};
use crate::dimse::{
    command, command_fits, find_u16, get_u16, u16_element, with_length, C_ECHO_RQ, C_ECHO_RSP,
    C_STORE_RQ, DATA_SET_ABSENT, STATUS_SUCCESS, STATUS_UNRECOGNIZED_OPERATION,
    TAG_COMMAND_FIELD, TAG_DATA_SET_TYPE, TAG_MESSAGE_ID, TAG_MESSAGE_ID_RESPONDED_TO, TAG_STATUS,
};
use crate::items::{
    ac_context_data, ac_context_item, result_fits, rq_context_data, sub_item, user_info_item,
    ITEM_APPLICATION_CONTEXT, ITEM_CONTEXT_AC, ITEM_CONTEXT_RQ, ITEM_MAX_LENGTH, ITEM_USER_INFO,
};
use crate::message::{elements_view, Element, Reassembly, empty_reassembly};
use crate::model::DimseConfig;
use crate::negotiation::{
    acceptable, answers, evaluate_contexts, from_proposal, has_id, ids_valid, negotiated_contexts,
    supports,
    ContextResult, ProposedContext, SupportedSyntax, RESULT_ACCEPTANCE,
};
use crate::pdu::{pdu_wf, AssociateFields, Item, Pdu};
use crate::scu::{
    as_store_request, is_store_request, store_request_of, store_response, store_response_fields, us,
    StoreRequest,
};
use crate::wire::be32;
use vstd::prelude::*;
use vstd::string::StringSliceAdditionalSpecFns;

verus! {

pub const DEFAULT_MAX_ASSOCIATIONS: usize = 32;
pub const STATUS_SOP_CLASS_NOT_SUPPORTED: u16 = 0x0122;

pub const REJECT_PERMANENT: u8 = 1;
pub const REJECT_TRANSIENT: u8 = 2;
pub const SOURCE_SERVICE_USER: u8 = 1;
pub const SOURCE_PROVIDER_PRESENTATION: u8 = 3;
pub const REASON_NONE_GIVEN: u8 = 1;
pub const REASON_LOCAL_LIMIT_EXCEEDED: u8 = 2;
pub const REASON_CALLED_AE_NOT_RECOGNIZED: u8 = 7;

pub open spec fn rejection(result: u8, source: u8, reason: u8) -> Pdu {
    Pdu::AssociateRj { result, source, reason }
}

/// The variable items of our A-ASSOCIATE-AC: application context, one
/// answer item per proposal in order, user information.
pub open spec fn accept_items(items: Seq<Item>, results: Seq<ContextResult>, max_pdu_length: u32) -> bool {
    &&& items.len() == results.len() + 2
    &&& items[0].item_type == ITEM_APPLICATION_CONTEXT
    &&& items[0].data@ == application_context_name()
    &&& forall|k: int|
        0 <= k < results.len() ==> (#[trigger] items[k + 1]).item_type == ITEM_CONTEXT_AC
            && items[k + 1].data@ == ac_context_data(results[k])
    &&& items[items.len() - 1].item_type == ITEM_USER_INFO
    &&& items[items.len() - 1].data@ == sub_item(ITEM_MAX_LENGTH, be32(max_pdu_length))
}

fn reject(result: u8, source: u8, reason: u8) -> (r: (Option<Association>, Pdu))
    ensures
        r.0 is None,
        r.1 == rejection(result, source, reason),
        pdu_wf(r.1),
{
    let p = Pdu::AssociateRj { result, source, reason };
    assert(crate::pdu::pdu_body(p).len() == 4);
    (None, p)
}

/// The conditions under which the acceptor takes proposals it has read:
/// AE title fields of sixteen bytes, valid context ids, at most 128
/// contexts, transfer syntaxes short enough to be echoed in one item, and at
/// least one context it supports.
pub open spec fn proposals_acceptable(
    called_ae: Seq<u8>,
    calling_ae: Seq<u8>,
    proposed: Seq<ProposedContext>,
    supported: Seq<SupportedSyntax>,
) -> bool {
    &&& called_ae.len() == 16
    &&& calling_ae.len() == 16
    &&& proposed.len() <= 128
    &&& ids_valid(proposed)
    &&& forall|k: int, j: int|
        0 <= k < proposed.len() && 0 <= j < proposed[k].transfer_syntaxes@.len() ==> (#[trigger] proposed[k].transfer_syntaxes@[j])@.len()
            <= 0xfff0
    &&& exists|k: int| 0 <= k < proposed.len() && acceptable(supported, #[trigger] proposed[k])
}

/// The association and the A-ASSOCIATE-AC that accept read proposals.
pub open spec fn accepted_as(
    a: Association,
    p: Pdu,
    called_ae: Seq<u8>,
    calling_ae: Seq<u8>,
    proposed: Seq<ProposedContext>,
    supported: Seq<SupportedSyntax>,
    max_pdu_length: u32,
    peer_max_pdu_length: u32,
) -> bool {
    &&& a.state == AssociationState::Established
    &&& a.proposed@ == proposed
    &&& a.results@.len() == proposed.len()
    &&& forall|k: int| 0 <= k < a.results@.len() ==> answers(supported, proposed[k], #[trigger] a.results@[k])
    &&& negotiated_from(a.proposed@, a.results@, a.contexts@)
    &&& a.reassembly@ == empty_reassembly()
    &&& a.max_pdu_length == max_pdu_length
    &&& a.peer_max_pdu_length == peer_max_pdu_length
    &&& pdu_wf(p)
    &&& p matches Pdu::AssociateAc(f) && f.called_ae@ == called_ae && f.calling_ae@ == calling_ae
        && accept_items(f.items@, a.results@, max_pdu_length)
}

fn transfer_syntaxes_fit(proposed: &Vec<ProposedContext>) -> (r: bool)
    ensures
        r == forall|k: int, j: int|
            0 <= k < proposed@.len() && 0 <= j < proposed@[k].transfer_syntaxes@.len() ==> (#[trigger] proposed@[k].transfer_syntaxes@[j])@.len()
                <= 0xfff0,
{
    let mut k: usize = 0;
    while k < proposed.len()
        invariant
            k <= proposed@.len(),
            forall|k2: int, j: int|
                0 <= k2 < k && 0 <= j < proposed@[k2].transfer_syntaxes@.len() ==> (#[trigger] proposed@[k2].transfer_syntaxes@[j])@.len()
                    <= 0xfff0,
        decreases proposed@.len() - k,
    {
        let tss = &proposed[k].transfer_syntaxes;
        let mut j: usize = 0;
        while j < tss.len()
            invariant
                k < proposed@.len(),
                *tss == proposed@[k as int].transfer_syntaxes,
                j <= tss@.len(),
                forall|j2: int| 0 <= j2 < j ==> (#[trigger] tss@[j2])@.len() <= 0xfff0,
                forall|k2: int, j3: int|
                    0 <= k2 < k && 0 <= j3 < proposed@[k2].transfer_syntaxes@.len() ==> (#[trigger] proposed@[k2].transfer_syntaxes@[j3])@.len()
                        <= 0xfff0,
            decreases tss@.len() - j,
        {
            if tss[j].len() > 0xfff0 {
                return false;
            }
            j = j + 1;
        }
        k = k + 1;
    }
    true
}

/// The acceptor's answer to proposals it has read: A-ASSOCIATE-AC and the
/// established association exactly when `proposals_acceptable` holds, with
/// the contexts `evaluate_contexts` accepts; otherwise A-ASSOCIATE-RJ.
#[verifier::loop_isolation(false)]
pub fn accept_proposals(
    called_ae: &Vec<u8>,
    calling_ae: &Vec<u8>,
    proposed: Vec<ProposedContext>,
    peer_max_pdu_length: u32,
    supported: &Vec<SupportedSyntax>,
    max_pdu_length: u32,
) -> (r: (Option<Association>, Pdu))
    ensures
        pdu_wf(r.1),
        r.0 is Some <==> proposals_acceptable(called_ae@, calling_ae@, proposed@, supported@),
        r.0 is None ==> r.1 == rejection(REJECT_PERMANENT, SOURCE_SERVICE_USER, REASON_NONE_GIVEN),
        r.0 matches Some(a) ==> accepted_as(
            a,
            r.1,
            called_ae@,
            calling_ae@,
            proposed@,
            supported@,
            max_pdu_length,
            peer_max_pdu_length,
        ),
        r.0 matches Some(a) ==> (forall|i: int|
            0 <= i < a.contexts@.len() ==> from_proposal(proposed@, #[trigger] a.contexts@[i])),
        r.0 matches Some(a) ==> (forall|k: int|
            0 <= k < proposed@.len() && acceptable(supported@, #[trigger] proposed@[k]) ==> has_id(
                a.contexts@,
                proposed@[k].id,
            )),
{
    if called_ae.len() != 16 || calling_ae.len() != 16 || proposed.len() > 128 || !valid_ids(&proposed)
        || !transfer_syntaxes_fit(&proposed) {
        return reject(REJECT_PERMANENT, SOURCE_SERVICE_USER, REASON_NONE_GIVEN);
    }
    let results = evaluate_contexts(supported, &proposed);
    let mut items: Vec<Item> = Vec::new();
    items.push(crate::association::application_context_item());
    let mut any = false;
    let mut k: usize = 0;
    while k < results.len()
        invariant
            k <= results@.len(),
            results@.len() <= 128,
            items@.len() == k + 1,
            items@[0].item_type == ITEM_APPLICATION_CONTEXT,
            items@[0].data@ == application_context_name(),
            forall|i: int|
                0 <= i < k ==> (#[trigger] items@[i + 1]).item_type == ITEM_CONTEXT_AC
                    && items@[i + 1].data@ == ac_context_data(results@[i]),
            forall|i: int| 0 <= i < k ==> result_fits(#[trigger] results@[i]),
            any <==> exists|i: int| 0 <= i < k && (#[trigger] results@[i]).result == RESULT_ACCEPTANCE,
        decreases results@.len() - k,
    {
        proof {
            let pc = proposed@[k as int];
            let res = results@[k as int];
            assert(answers(supported@, pc, res));
            if res.result == RESULT_ACCEPTANCE {
                let j = choose|j: int|
                    0 <= j < pc.transfer_syntaxes@.len() && res.transfer_syntax@ == (
                    #[trigger] pc.transfer_syntaxes@[j])@ && supports(
                        supported@,
                        pc.abstract_syntax@,
                        res.transfer_syntax@,
                    ) && forall|k2: int|
                        0 <= k2 < j ==> !supports(
                            supported@,
                            pc.abstract_syntax@,
                            (#[trigger] pc.transfer_syntaxes@[k2])@,
                        );
                assert(proposed@[k as int].transfer_syntaxes@[j]@.len() <= 0xfff0);
            }
        }
        if results[k].result == RESULT_ACCEPTANCE {
            any = true;
        }
        items.push(ac_context_item(&results[k]));
        k = k + 1;
    }
    if !any {
        proof {
            assert forall|k2: int| 0 <= k2 < proposed@.len() implies !acceptable(supported@, #[trigger] proposed@[k2]) by {
                assert(answers(supported@, proposed@[k2], results@[k2]));
            }
        }
        return reject(REJECT_PERMANENT, SOURCE_SERVICE_USER, REASON_NONE_GIVEN);
    }
    items.push(user_info_item(max_pdu_length));
    proof {
        let i0 = choose|i: int| 0 <= i < results@.len() && (#[trigger] results@[i]).result == RESULT_ACCEPTANCE;
        assert(answers(supported@, proposed@[i0], results@[i0]));
        assert(acceptable(supported@, proposed@[i0]));
        assert forall|i: int| 0 <= i < items@.len() implies (#[trigger] items@[i]).data@.len() <= 0xffff by {
            if 1 <= i < items@.len() - 1 {
                assert(items@[(i - 1) + 1] == items@[i]);
                assert(result_fits(results@[i - 1]));
            }
        }
        crate::association::lemma_items_bytes_bound(items@);
        assert(forall|i: int| 0 <= i < results@.len() ==> (#[trigger] items@[i + 1]).item_type == ITEM_CONTEXT_AC);
    }
    let contexts = negotiated_contexts(&proposed, &results);
    proof {
        crate::negotiation::lemma_negotiated_between_proposed_and_supported(
            supported@,
            proposed@,
            results@,
            contexts@,
        );
    }
    let f = AssociateFields {
        called_ae: crate::negotiation::copy_bytes(called_ae),
        calling_ae: crate::negotiation::copy_bytes(calling_ae),
        items,
    };
    let p = Pdu::AssociateAc(f);
    let a = Association {
        state: AssociationState::Established,
        max_pdu_length,
        peer_max_pdu_length,
        proposed,
        results,
        contexts,
        reassembly: Reassembly::new(),
    };
    (Some(a), p)
}

/// Answers an A-ASSOCIATE-RQ as acceptor. Beyond the limit of concurrent
/// associations the answer is a transient rejection; a called AE title other
/// than ours is rejected; so is a request whose contexts cannot be read.
/// Otherwise `accept_proposals` decides on the contexts read, in order.
pub fn accept_association(
    rq: &AssociateFields,
    our_ae: &str,
    supported: &Vec<SupportedSyntax>,
    max_pdu_length: u32,
    at_capacity: bool,
) -> (r: (Option<Association>, Pdu))
    ensures
        pdu_wf(r.1),
        at_capacity ==> r.0 is None && r.1 == rejection(
            REJECT_TRANSIENT,
            SOURCE_PROVIDER_PRESENTATION,
            REASON_LOCAL_LIMIT_EXCEEDED,
        ),
        !at_capacity && (our_ae.spec_bytes().len() > 16 || rq.called_ae@ != ae_field_of(
            our_ae.spec_bytes(),
        )) ==> r.0 is None && r.1 == rejection(
            REJECT_PERMANENT,
            SOURCE_SERVICE_USER,
            REASON_CALLED_AE_NOT_RECOGNIZED,
        ),
        r.0 is None ==> r.1 is AssociateRj,
        r.0 is None && !at_capacity && our_ae.spec_bytes().len() <= 16 && rq.called_ae@ == ae_field_of(
            our_ae.spec_bytes(),
        ) && all_readable(rq.items@, ITEM_CONTEXT_RQ) ==> r.1 == rejection(
            REJECT_PERMANENT,
            SOURCE_SERVICE_USER,
            REASON_NONE_GIVEN,
        ) && exists|ps: Seq<ProposedContext>|
            ps.len() == of_type(rq.items@, ITEM_CONTEXT_RQ).len() && (forall|k: int|
                0 <= k < ps.len() ==> rq_context_data(#[trigger] ps[k]) == of_type(
                    rq.items@,
                    ITEM_CONTEXT_RQ,
                )[k].data@) && !proposals_acceptable(rq.called_ae@, rq.calling_ae@, ps, supported@),
        r.0 matches Some(a) ==> {
            &&& !at_capacity
            &&& rq.called_ae@ == ae_field_of(our_ae.spec_bytes())
            &&& a.proposed@.len() == of_type(rq.items@, ITEM_CONTEXT_RQ).len()
            &&& forall|k: int| 0 <= k < a.proposed@.len() ==> rq_context_data(#[trigger] a.proposed@[k])
                == of_type(rq.items@, ITEM_CONTEXT_RQ)[k].data@
            &&& proposals_acceptable(rq.called_ae@, rq.calling_ae@, a.proposed@, supported@)
            &&& accepted_as(a, r.1, rq.called_ae@, rq.calling_ae@, a.proposed@, supported@, max_pdu_length, user_max(rq.items@))
        },
{
    if at_capacity {
        return reject(REJECT_TRANSIENT, SOURCE_PROVIDER_PRESENTATION, REASON_LOCAL_LIMIT_EXCEEDED);
    }
    let ours = match ae_field(our_ae) {
        Some(v) => v,
        None => {
            return reject(REJECT_PERMANENT, SOURCE_SERVICE_USER, REASON_CALLED_AE_NOT_RECOGNIZED);
        },
    };
    if !crate::negotiation::bytes_eq(rq.called_ae.as_slice(), ours.as_slice()) {
        return reject(REJECT_PERMANENT, SOURCE_SERVICE_USER, REASON_CALLED_AE_NOT_RECOGNIZED);
    }
    match read_rq_items(&rq.items) {
        Some((proposed, peer_max)) => {
            let ghost ps = proposed@;
            let r = accept_proposals(
                &rq.called_ae,
                &rq.calling_ae,
                proposed,
                peer_max,
                supported,
                max_pdu_length,
            );
            assert(r.0 is None ==> !proposals_acceptable(rq.called_ae@, rq.calling_ae@, ps, supported@));
            r
        },
        None => reject(REJECT_PERMANENT, SOURCE_SERVICE_USER, REASON_NONE_GIVEN),
    }
}

/// The fields of a reply: command field, the id it answers, no dataset,
/// and a status.
pub open spec fn reply_fields(field: u16, message_id: u16, status: u16) -> Seq<(u16, u16, Seq<u8>)> {
    seq![
        us(TAG_COMMAND_FIELD, field),
        us(TAG_MESSAGE_ID_RESPONDED_TO, message_id),
        us(TAG_DATA_SET_TYPE, DATA_SET_ABSENT),
        us(TAG_STATUS, status),
    ]
}

fn reply(field: u16, message_id: u16, status: u16) -> (r: Vec<Element>)
    ensures
        elements_view(r@) == with_length(reply_fields(field, message_id, status)),
        crate::message::elements_fit(elements_view(r@)),
{
    let mut fields: Vec<Element> = Vec::new();
    fields.push(u16_element(TAG_COMMAND_FIELD, field));
    fields.push(u16_element(TAG_MESSAGE_ID_RESPONDED_TO, message_id));
    fields.push(u16_element(TAG_DATA_SET_TYPE, DATA_SET_ABSENT));
    fields.push(u16_element(TAG_STATUS, status));
    let ghost f = elements_view(fields@);
    assert(f =~= reply_fields(field, message_id, status));
    proof {
        reveal_with_fuel(crate::message::elements_bytes, 5);
        assert(f.drop_first().drop_first().drop_first().drop_first() =~= Seq::<(u16, u16, Seq<u8>)>::empty());
    }
    match command(fields) {
        Some(c) => c,
        None => {
            assert(false);
            Vec::new()
        },
    }
}

/// What the SCP does with one received message.
pub enum ScpAction {
    /// Send this command set back on the message's context.
    Respond(Vec<Element>),
    /// Persist the dataset, then answer with `store_response` and the
    /// status that `store_status` gives.
    Store(StoreRequest),
    /// The message cannot be answered: abort the association.
    Abort,
}

/// Routes a request by its command field: C-ECHO-RQ is answered with
/// Success; a C-STORE-RQ on a negotiated context is handed out for
/// persisting, on another context it is refused; any other command is
/// answered with Unrecognized Operation, without aborting.
pub fn dispatch(assoc: &Association, m: Message) -> (r: ScpAction)
    ensures
        ({
            let cmd = elements_view(m.command@);
            match (find_u16(cmd, TAG_COMMAND_FIELD), find_u16(cmd, TAG_MESSAGE_ID)) {
                (Some(field), Some(id)) => if field == C_ECHO_RQ {
                    r matches ScpAction::Respond(c) && elements_view(c@) == with_length(
                        reply_fields(C_ECHO_RSP, id, STATUS_SUCCESS),
                    )
                } else if field == C_STORE_RQ && is_store_request(m) {
                    if has_id(assoc.contexts@, m.context_id) {
                        r matches ScpAction::Store(s) && store_request_of(m, s)
                    } else {
                        exists|s: StoreRequest|
                            store_request_of(m, s) && if command_fits(
                                store_response_fields(s, STATUS_SOP_CLASS_NOT_SUPPORTED),
                            ) {
                                r matches ScpAction::Respond(c) && elements_view(c@) == with_length(
                                    store_response_fields(s, STATUS_SOP_CLASS_NOT_SUPPORTED),
                                )
                            } else {
                                r is Abort
                            }
                    }
                } else {
                    r matches ScpAction::Respond(c) && elements_view(c@) == with_length(
                        reply_fields(field | 0x8000u16, id, STATUS_UNRECOGNIZED_OPERATION),
                    )
                },
                _ => r is Abort,
            }
        }),
{
    let field = match get_u16(&m.command, TAG_COMMAND_FIELD) {
        Some(f) => f,
        None => {
            return ScpAction::Abort;
        },
    };
    let id = match get_u16(&m.command, TAG_MESSAGE_ID) {
        Some(i) => i,
        None => {
            return ScpAction::Abort;
        },
    };
    if field == C_ECHO_RQ {
        return ScpAction::Respond(reply(C_ECHO_RSP, id, STATUS_SUCCESS));
    }
    let context_id = m.context_id;
    if field == C_STORE_RQ {
        match as_store_request(m) {
            Some(s) => {
                if assoc.is_negotiated(context_id) {
                    return ScpAction::Store(s);
                }
                return match store_response(&s, STATUS_SOP_CLASS_NOT_SUPPORTED) {
                    Some(c) => ScpAction::Respond(c),
                    None => ScpAction::Abort,
                };
            },
            None => {},
        }
    }
    ScpAction::Respond(reply(field | 0x8000u16, id, STATUS_UNRECOGNIZED_OPERATION))
}

/// The SCP's lifecycle and its registry of active associations.
pub struct ScpServer {
    pub config: DimseConfig,
    pub running: bool,
    pub max_associations: usize,
    pub active: Vec<u64>,
    pub next_id: u64,
}

impl ScpServer {
    /// Ids are handed out once each: every active id is below `next_id`
    /// and appears once.
    pub open spec fn wf(&self) -> bool {
        &&& forall|i: int| 0 <= i < self.active@.len() ==> (#[trigger] self.active@[i]) < self.next_id
        &&& self.active@.no_duplicates()
    }

    pub fn new(config: DimseConfig) -> (r: ScpServer)
        ensures
            r.wf(),
            !r.running,
            r.active@.len() == 0,
            r.max_associations == DEFAULT_MAX_ASSOCIATIONS,
    {
        ScpServer {
            config,
            running: false,
            max_associations: DEFAULT_MAX_ASSOCIATIONS,
            active: Vec::new(),
            next_id: 0,
        }
    }

    /// Starts accepting; returns whether it was stopped before (starting a
    /// running server changes nothing).
    pub fn start(&mut self) -> (r: bool)
        ensures
            final(self).running,
            r == !old(self).running,
            final(self).config == old(self).config,
            final(self).active@ == old(self).active@,
            final(self).next_id == old(self).next_id,
            final(self).max_associations == old(self).max_associations,
    {
        if self.running {
            return false;
        }
        self.running = true;
        true
    }

    /// Stops accepting and hands back the ids of every active association,
    /// each of which is to be aborted.
    pub fn stop(&mut self) -> (r: Vec<u64>)
        ensures
            !final(self).running,
            r@ == old(self).active@,
            final(self).config == old(self).config,
            final(self).active@.len() == 0,
            final(self).next_id == old(self).next_id,
            final(self).max_associations == old(self).max_associations,
    {
        self.running = false;
        let mut taken: Vec<u64> = Vec::new();
        std::mem::swap(&mut taken, &mut self.active);
        taken
    }

    pub fn is_running(&self) -> (r: bool)
        ensures
            r == self.running,
    {
        self.running
    }

    /// Whether a new association must be refused for the limit.
    pub fn at_capacity(&self) -> (r: bool)
        ensures
            r == (self.active@.len() >= self.max_associations),
    {
        self.active.len() >= self.max_associations
    }

    /// Registers a newly accepted association; `None` when the server is
    /// stopped, at its limit, or out of ids.
    pub fn register(&mut self) -> (r: Option<u64>)
        requires
            old(self).wf(),
        ensures
            final(self).wf(),
            final(self).running == old(self).running,
            final(self).max_associations == old(self).max_associations,
            final(self).config == old(self).config,
            (!old(self).running || old(self).active@.len() >= old(self).max_associations) ==> r is None,
            old(self).running && old(self).active@.len() < old(self).max_associations
                && old(self).next_id < u64::MAX ==> r is Some,
            r is None ==> final(self).active@ == old(self).active@,
            r matches Some(id) ==> final(self).active@ == old(self).active@.push(id)
                && !old(self).active@.contains(id),
    {
        if !self.running || self.active.len() >= self.max_associations || self.next_id == u64::MAX {
            return None;
        }
        let id = self.next_id;
        proof {
            assert(!self.active@.contains(id)) by {
                if self.active@.contains(id) {
                    let i = choose|i: int| 0 <= i < self.active@.len() && self.active@[i] == id;
                    assert(self.active@[i] < self.next_id);
                }
            }
        }
        let ghost before = self.active@;
        self.active.push(id);
        self.next_id = self.next_id + 1;
        proof {
            assert forall|i: int, j: int| 0 <= i < j < self.active@.len() implies self.active@[i] != self.active@[j] by {
                if j == before.len() {
                    assert(self.active@[i] == before[i]);
                    assert(before[i] < id);
                } else {
                    assert(self.active@[i] == before[i] && self.active@[j] == before[j]);
                }
            }
        }
        Some(id)
    }

    /// Removes an association that was released or aborted.
    #[verifier::loop_isolation(false)]
    pub fn finish(&mut self, id: u64)
        requires
            old(self).wf(),
        ensures
            final(self).wf(),
            !final(self).active@.contains(id),
            forall|x: u64| x != id ==> (final(self).active@.contains(x) <==> old(self).active@.contains(x)),
            final(self).config == old(self).config,
            final(self).next_id == old(self).next_id,
            final(self).running == old(self).running,
            final(self).max_associations == old(self).max_associations,
    {
        let mut i: usize = 0;
        while i < self.active.len()
            invariant
                i <= self.active@.len(),
                forall|k: int| 0 <= k < i ==> self.active@[k] != id,
                self.active@ == old(self).active@,
                self.next_id == old(self).next_id,
                self.running == old(self).running,
                self.max_associations == old(self).max_associations,
                self.config == old(self).config,
            decreases self.active@.len() - i,
        {
            if self.active[i] == id {
                let ghost before = self.active@;
                self.active.remove(i);
                proof {
                    assert(self.active@ =~= before.remove(i as int));
                    assert forall|x: u64| x != id implies (self.active@.contains(x) <==> before.contains(x)) by {
                        if before.contains(x) {
                            let k = choose|k: int| 0 <= k < before.len() && before[k] == x;
                            if k < i {
                                assert(self.active@[k] == x);
                            } else {
                                assert(k != i);
                                assert(self.active@[k - 1] == x);
                            }
                        }
                        if self.active@.contains(x) {
                            let k = choose|k: int| 0 <= k < self.active@.len() && self.active@[k] == x;
                            if k < i {
                                assert(before[k] == x);
                            } else {
                                assert(before[k + 1] == x);
                            }
                        }
                    }
                    assert(!self.active@.contains(id)) by {
                        if self.active@.contains(id) {
                            let k = choose|k: int| 0 <= k < self.active@.len() && self.active@[k] == id;
                            if k < i {
                                assert(before[k] == id);
                            } else {
                                assert(before[k + 1] == id);
                                assert(before[i as int] == id);
                            }
                        }
                    }
                    assert forall|a: int, b: int| 0 <= a < b < self.active@.len() implies self.active@[a] != self.active@[b] by {
                        let a2 = if a < i { a } else { a + 1 };
                        let b2 = if b < i { b } else { b + 1 };
                        assert(self.active@[a] == before[a2] && self.active@[b] == before[b2]);
                    }
                    assert forall|k: int| 0 <= k < self.active@.len() implies (#[trigger] self.active@[k]) < self.next_id by {
                        let k2 = if k < i { k } else { k + 1 };
                        assert(self.active@[k] == before[k2]);
                    }
                }
                return;
            }
            i = i + 1;
        }
    }
}

} // verus!
