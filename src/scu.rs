//! The client side of the DIMSE services: the request command sets and
//! query identifiers, and the consumers of the response sequences of C-ECHO,
//! C-FIND, C-MOVE and C-GET (with the C-STORE sub-operations that C-GET
//! brings back over the same association).
use crate::association::Message;
use crate::dimse::{
    command, command_fits, find_u16, find_value, get_u16, get_value, str_bytes,
    text_value, u16_element, uid_element, uid_value, with_length, C_ECHO_RQ, C_ECHO_RSP, C_FIND_RQ,
    C_FIND_RSP, C_GET_RQ, C_GET_RSP, C_MOVE_RQ, C_MOVE_RSP, C_STORE_RQ, C_STORE_RSP,
    DATA_SET_ABSENT, DATA_SET_PRESENT, STATUS_OUT_OF_RESOURCES, STATUS_PENDING,
    STATUS_PENDING_WARNING, STATUS_SUCCESS, TAG_AFFECTED_SOP_CLASS_UID,
    TAG_AFFECTED_SOP_INSTANCE_UID, TAG_COMMAND_FIELD, TAG_COMPLETED, TAG_DATA_SET_TYPE,
    TAG_FAILED, TAG_MESSAGE_ID, TAG_MESSAGE_ID_RESPONDED_TO, TAG_MOVE_DESTINATION, TAG_PRIORITY,
    TAG_REMAINING, TAG_STATUS, TAG_WARNING,
};
use crate::message::{elements_view, Element};
use crate::model::MoveProgress;
use crate::wire::le16;
use vstd::prelude::*;
use vstd::string::StringSliceAdditionalSpecFns;

verus! {

pub const VERIFICATION_SOP_CLASS: &'static str = "1.2.840.10008.1.1";
pub const STUDY_ROOT_FIND: &'static str = "1.2.840.10008.5.1.4.1.2.2.1";
pub const STUDY_ROOT_MOVE: &'static str = "1.2.840.10008.5.1.4.1.2.2.2";
pub const STUDY_ROOT_GET: &'static str = "1.2.840.10008.5.1.4.1.2.2.3";
pub const IMPLICIT_VR_LITTLE_ENDIAN: &'static str = "1.2.840.10008.1.2";

pub open spec fn us(el: u16, v: u16) -> (u16, u16, Seq<u8>) {
    (0u16, el, le16(v))
}

/// The fields of a request: affected SOP class, command field, message id,
/// then `extra`, then the data set type.
pub open spec fn request_fields(
    sop_class: Seq<u8>,
    field: u16,
    message_id: u16,
    extra: Seq<(u16, u16, Seq<u8>)>,
    with_data: bool,
) -> Seq<(u16, u16, Seq<u8>)> {
    seq![
        (0u16, TAG_AFFECTED_SOP_CLASS_UID, uid_value(sop_class)),
        us(TAG_COMMAND_FIELD, field),
        us(TAG_MESSAGE_ID, message_id),
    ] + extra + seq![us(TAG_DATA_SET_TYPE, if with_data { DATA_SET_PRESENT } else { DATA_SET_ABSENT })]
}

fn request(sop_class: &str, field: u16, message_id: u16, extra: Vec<Element>, with_data: bool) -> (r: Option<Vec<Element>>)
    ensures
        r is Some <==> command_fits(request_fields(sop_class.spec_bytes(), field, message_id, elements_view(extra@), with_data)),
        r matches Some(c) ==> elements_view(c@) == with_length(
            request_fields(sop_class.spec_bytes(), field, message_id, elements_view(extra@), with_data),
        ) && crate::message::elements_fit(elements_view(c@)),
{
    let class = str_bytes(sop_class);
    let mut fields: Vec<Element> = Vec::new();
    fields.push(uid_element(TAG_AFFECTED_SOP_CLASS_UID, class.as_slice()));
    fields.push(u16_element(TAG_COMMAND_FIELD, field));
    fields.push(u16_element(TAG_MESSAGE_ID, message_id));
    let ghost ex = elements_view(extra@);
    let mut extra = extra;
    fields.append(&mut extra);
    fields.push(u16_element(TAG_DATA_SET_TYPE, if with_data { DATA_SET_PRESENT } else { DATA_SET_ABSENT }));
    assert(elements_view(fields@) =~= request_fields(sop_class.spec_bytes(), field, message_id, ex, with_data));
    command(fields)
}

/// The C-ECHO-RQ command set on the Verification SOP class.
pub fn echo_request(message_id: u16) -> (r: Option<Vec<Element>>)
    ensures
        r is Some <==> command_fits(request_fields(VERIFICATION_SOP_CLASS.spec_bytes(), C_ECHO_RQ, message_id, seq![], false)),
        r matches Some(c) ==> elements_view(c@) == with_length(
            request_fields(VERIFICATION_SOP_CLASS.spec_bytes(), C_ECHO_RQ, message_id, seq![], false),
        ) && crate::message::elements_fit(elements_view(c@)),
{
    let extra: Vec<Element> = Vec::new();
    assert(elements_view(extra@) =~= Seq::<(u16, u16, Seq<u8>)>::empty());
    request(VERIFICATION_SOP_CLASS, C_ECHO_RQ, message_id, extra, false)
}

/// The C-FIND-RQ command set on the Study Root FIND model; the query
/// identifier follows as its dataset.
pub fn find_request(message_id: u16) -> (r: Option<Vec<Element>>)
    ensures
        r is Some <==> command_fits(request_fields(STUDY_ROOT_FIND.spec_bytes(), C_FIND_RQ, message_id, seq![us(TAG_PRIORITY, 0)], true)),
        r matches Some(c) ==> elements_view(c@) == with_length(
            request_fields(STUDY_ROOT_FIND.spec_bytes(), C_FIND_RQ, message_id, seq![us(TAG_PRIORITY, 0)], true),
        ) && crate::message::elements_fit(elements_view(c@)),
{
    let mut extra: Vec<Element> = Vec::new();
    extra.push(u16_element(TAG_PRIORITY, 0));
    assert(elements_view(extra@) =~= seq![us(TAG_PRIORITY, 0)]);
    request(STUDY_ROOT_FIND, C_FIND_RQ, message_id, extra, true)
}

/// The C-MOVE-RQ command set naming the destination AE title.
pub fn move_request(message_id: u16, destination_ae: &str) -> (r: Option<Vec<Element>>)
    ensures
        r is Some <==> command_fits(request_fields(STUDY_ROOT_MOVE.spec_bytes(), C_MOVE_RQ, message_id, seq![
            (0u16, TAG_MOVE_DESTINATION, text_value(destination_ae.spec_bytes())), us(TAG_PRIORITY, 0)], true)),
        r matches Some(c) ==> elements_view(c@) == with_length(
            request_fields(STUDY_ROOT_MOVE.spec_bytes(), C_MOVE_RQ, message_id, seq![
                (0u16, TAG_MOVE_DESTINATION, text_value(destination_ae.spec_bytes())), us(TAG_PRIORITY, 0)], true),
        ) && crate::message::elements_fit(elements_view(c@)),
{
    let dest = str_bytes(destination_ae);
    let mut extra: Vec<Element> = Vec::new();
    extra.push(crate::dimse::text_element(TAG_MOVE_DESTINATION, dest.as_slice()));
    extra.push(u16_element(TAG_PRIORITY, 0));
    assert(elements_view(extra@) =~= seq![
        (0u16, TAG_MOVE_DESTINATION, text_value(destination_ae.spec_bytes())), us(TAG_PRIORITY, 0)]);
    request(STUDY_ROOT_MOVE, C_MOVE_RQ, message_id, extra, true)
}

/// The C-GET-RQ command set on the Study Root GET model.
pub fn get_request(message_id: u16) -> (r: Option<Vec<Element>>)
    ensures
        r is Some <==> command_fits(request_fields(STUDY_ROOT_GET.spec_bytes(), C_GET_RQ, message_id, seq![us(TAG_PRIORITY, 0)], true)),
        r matches Some(c) ==> elements_view(c@) == with_length(
            request_fields(STUDY_ROOT_GET.spec_bytes(), C_GET_RQ, message_id, seq![us(TAG_PRIORITY, 0)], true),
        ) && crate::message::elements_fit(elements_view(c@)),
{
    let mut extra: Vec<Element> = Vec::new();
    extra.push(u16_element(TAG_PRIORITY, 0));
    assert(elements_view(extra@) =~= seq![us(TAG_PRIORITY, 0)]);
    request(STUDY_ROOT_GET, C_GET_RQ, message_id, extra, true)
}

/// The status of a response to request `message_id` with command field
/// `field`; `None` when the message is not such a response or has no status.
pub open spec fn response_status(cmd: Seq<(u16, u16, Seq<u8>)>, field: u16, message_id: u16) -> Option<u16> {
    if find_u16(cmd, TAG_COMMAND_FIELD) == Some(field) && find_u16(cmd, TAG_MESSAGE_ID_RESPONDED_TO)
        == Some(message_id) {
        find_u16(cmd, TAG_STATUS)
    } else {
        None
    }
}

pub fn status_of(cmd: &Vec<Element>, field: u16, message_id: u16) -> (r: Option<u16>)
    ensures
        r == response_status(elements_view(cmd@), field, message_id),
{
    if get_u16(cmd, TAG_COMMAND_FIELD) == Some(field) && get_u16(cmd, TAG_MESSAGE_ID_RESPONDED_TO)
        == Some(message_id) {
        get_u16(cmd, TAG_STATUS)
    } else {
        None
    }
}

pub open spec fn is_pending(s: u16) -> bool {
    s == STATUS_PENDING || s == STATUS_PENDING_WARNING
}

/// C-ECHO succeeds exactly when the answer to our request carries status
/// Success.
pub fn echo_succeeded(rsp: &Message, message_id: u16) -> (r: bool)
    ensures
        r == (response_status(elements_view(rsp.command@), C_ECHO_RSP, message_id) == Some(STATUS_SUCCESS)),
{
    status_of(&rsp.command, C_ECHO_RSP, message_id) == Some(STATUS_SUCCESS)
}

/// How one message of a C-FIND response sequence counts.
#[derive(Clone, Copy, Debug, PartialEq, Eq, Structural)]
pub enum FindClass {
    /// Pending, with a matching dataset.
    Item,
    /// Pending, without a dataset.
    Pending,
    /// Success: no more matches.
    Done,
    /// Any other status.
    Failed(u16),
    /// Not a response to our request.
    Unexpected,
}

pub open spec fn find_class(cmd: Seq<(u16, u16, Seq<u8>)>, has_dataset: bool, message_id: u16) -> FindClass {
    match response_status(cmd, C_FIND_RSP, message_id) {
        None => FindClass::Unexpected,
        Some(s) => if is_pending(s) {
            if has_dataset {
                FindClass::Item
            } else {
                FindClass::Pending
            }
        } else if s == STATUS_SUCCESS {
            FindClass::Done
        } else {
            FindClass::Failed(s)
        },
    }
}

pub open spec fn ends_stream(c: FindClass) -> bool {
    !(c == FindClass::Item || c == FindClass::Pending)
}

/// The number of datasets a C-FIND response sequence exposes: one per item,
/// up to the first message that ends the stream.
pub open spec fn find_items(rsps: Seq<(Seq<(u16, u16, Seq<u8>)>, bool)>, message_id: u16) -> nat
    decreases rsps.len(),
{
    if rsps.len() == 0 {
        0
    } else {
        let c = find_class(rsps[0].0, rsps[0].1, message_id);
        if ends_stream(c) {
            0
        } else {
            (if c == FindClass::Item { 1nat } else { 0nat }) + find_items(rsps.drop_first(), message_id)
        }
    }
}

/// A C-FIND response sequence that reaches a status other than Success and
/// Pending stops exactly there: whatever follows exposes no item.
pub proof fn lemma_find_stops_at_failure(
    rsps: Seq<(Seq<(u16, u16, Seq<u8>)>, bool)>,
    message_id: u16,
    f: int,
)
    requires
        0 <= f < rsps.len(),
        find_class(rsps[f].0, rsps[f].1, message_id) is Failed,
        forall|i: int| 0 <= i < f ==> !ends_stream(find_class(#[trigger] rsps[i].0, rsps[i].1, message_id)),
    ensures
        find_items(rsps, message_id) == find_items(rsps.subrange(0, f), message_id),
        forall|more: Seq<(Seq<(u16, u16, Seq<u8>)>, bool)>|
            #[trigger] find_items(rsps.subrange(0, f + 1) + more, message_id) == find_items(rsps.subrange(0, f), message_id),
    decreases f,
{
    if f == 0 {
        assert(find_items(rsps.subrange(0, 0), message_id) == 0);
        assert forall|more: Seq<(Seq<(u16, u16, Seq<u8>)>, bool)>|
            #[trigger] find_items(rsps.subrange(0, f + 1) + more, message_id) == 0 by {
            assert((rsps.subrange(0, 1) + more)[0] == rsps[0]);
        }
    } else {
        let t = rsps.drop_first();
        assert forall|i: int| 0 <= i < f - 1 implies !ends_stream(find_class(#[trigger] t[i].0, t[i].1, message_id)) by {
            assert(t[i] == rsps[i + 1]);
        }
        assert(t[f - 1] == rsps[f]);
        lemma_find_stops_at_failure(t, message_id, f - 1);
        assert(!ends_stream(find_class(rsps[0].0, rsps[0].1, message_id)));
        assert(rsps.subrange(0, f).drop_first() =~= t.subrange(0, f - 1));
        assert(rsps.subrange(0, f)[0] == rsps[0]);
        assert forall|more: Seq<(Seq<(u16, u16, Seq<u8>)>, bool)>|
            #[trigger] find_items(rsps.subrange(0, f + 1) + more, message_id) == find_items(rsps.subrange(0, f), message_id) by {
            let all = rsps.subrange(0, f + 1) + more;
            assert(all[0] == rsps[0]);
            assert(all.drop_first() =~= t.subrange(0, f) + more);
            assert(t.subrange(0, f) == t.subrange(0, (f - 1) + 1));
            assert(find_items(t.subrange(0, (f - 1) + 1) + more, message_id) == find_items(t.subrange(0, f - 1), message_id));
            assert(all.len() > 0);
        }
    }
}

pub enum FindEvent {
    /// A matching dataset.
    Match(Vec<u8>),
    /// A pending response without a dataset.
    Pending,
    /// The search ended with Success.
    Done,
    /// The search ended with this failure status.
    Failed(u16),
    /// A message that does not answer the request: the stream ends.
    Unexpected,
    /// The stream had already ended; the message is not looked at.
    Closed,
}

/// The consumer of one C-FIND response sequence.
pub struct FindStream {
    pub message_id: u16,
    pub finished: bool,
}

impl FindStream {
    pub fn new(message_id: u16) -> (r: FindStream)
        ensures
            r.message_id == message_id,
            !r.finished,
    {
        FindStream { message_id, finished: false }
    }

    /// Takes the next response. Once the stream has ended, nothing more is
    /// exposed.
    pub fn next(&mut self, rsp: Message) -> (r: FindEvent)
        ensures
            final(self).message_id == old(self).message_id,
            old(self).finished ==> r is Closed && final(self).finished,
            !old(self).finished ==> {
                let c = find_class(elements_view(rsp.command@), rsp.dataset is Some, old(self).message_id);
                &&& final(self).finished == ends_stream(c)
                &&& match c {
                    FindClass::Item => r matches FindEvent::Match(d) && rsp.dataset matches Some(e) && d@ == e@,
                    FindClass::Pending => r is Pending,
                    FindClass::Done => r is Done,
                    FindClass::Failed(s) => r == FindEvent::Failed(s),
                    FindClass::Unexpected => r is Unexpected,
                }
            },
    {
        if self.finished {
            return FindEvent::Closed;
        }
        match status_of(&rsp.command, C_FIND_RSP, self.message_id) {
            None => {
                self.finished = true;
                FindEvent::Unexpected
            },
            Some(s) => {
                if s == STATUS_PENDING || s == STATUS_PENDING_WARNING {
                    match rsp.dataset {
                        Some(d) => FindEvent::Match(d),
                        None => FindEvent::Pending,
                    }
                } else if s == STATUS_SUCCESS {
                    self.finished = true;
                    FindEvent::Done
                } else {
                    self.finished = true;
                    FindEvent::Failed(s)
                }
            },
        }
    }
}

/// Sub-operation counters of C-MOVE and C-GET.
#[derive(Clone, Copy, Debug, PartialEq, Eq, Structural)]
pub struct SubOperations {
    pub remaining: u16,
    pub completed: u16,
    pub failed: u16,
    pub warning: u16,
}

pub open spec fn or_keep(v: Option<u16>, old: u16) -> u16 {
    match v {
        Some(x) => x,
        None => old,
    }
}

/// The counters after a response: each one the response carries replaces
/// the previous value. When the stream takes the stores itself (C-GET), the
/// completed and failed counters are its own tally and stay as they are.
pub open spec fn updated_counts(c: SubOperations, cmd: Seq<(u16, u16, Seq<u8>)>, own_tally: bool) -> SubOperations {
    SubOperations {
        remaining: or_keep(find_u16(cmd, TAG_REMAINING), c.remaining),
        completed: if own_tally { c.completed } else { or_keep(find_u16(cmd, TAG_COMPLETED), c.completed) },
        failed: if own_tally { c.failed } else { or_keep(find_u16(cmd, TAG_FAILED), c.failed) },
        warning: or_keep(find_u16(cmd, TAG_WARNING), c.warning),
    }
}

/// One more, saturating at the counter's maximum.
pub open spec fn bump(x: u16) -> u16 {
    if x < u16::MAX {
        (x + 1) as u16
    } else {
        x
    }
}

fn keep_or(v: Option<u16>, old: u16) -> (r: u16)
    ensures
        r == or_keep(v, old),
{
    match v {
        Some(x) => x,
        None => old,
    }
}

/// A C-STORE request that arrived during a C-GET (or at the SCP).
pub struct StoreRequest {
    pub context_id: u8,
    pub message_id: u16,
    pub sop_class_uid: Vec<u8>,
    pub sop_instance_uid: Vec<u8>,
    pub dataset: Vec<u8>,
}

/// Whether a message is a C-STORE request with what its answer needs.
pub open spec fn store_request_of(m: Message, s: StoreRequest) -> bool {
    let cmd = elements_view(m.command@);
    &&& find_u16(cmd, TAG_COMMAND_FIELD) == Some(C_STORE_RQ)
    &&& find_u16(cmd, TAG_MESSAGE_ID) == Some(s.message_id)
    &&& find_value(cmd, TAG_AFFECTED_SOP_CLASS_UID) == Some(s.sop_class_uid@)
    &&& find_value(cmd, TAG_AFFECTED_SOP_INSTANCE_UID) == Some(s.sop_instance_uid@)
    &&& m.dataset matches Some(d) && d@ == s.dataset@
    &&& s.context_id == m.context_id
}

pub open spec fn is_store_request(m: Message) -> bool {
    let cmd = elements_view(m.command@);
    &&& find_u16(cmd, TAG_COMMAND_FIELD) == Some(C_STORE_RQ)
    &&& find_u16(cmd, TAG_MESSAGE_ID) is Some
    &&& find_value(cmd, TAG_AFFECTED_SOP_CLASS_UID) is Some
    &&& find_value(cmd, TAG_AFFECTED_SOP_INSTANCE_UID) is Some
    &&& m.dataset is Some
}

/// Reads a C-STORE request out of a message; `None` when it is not one or
/// lacks its ids or its dataset.
pub fn as_store_request(m: Message) -> (r: Option<StoreRequest>)
    ensures
        r is Some <==> is_store_request(m),
        r matches Some(s) ==> store_request_of(m, s),
{
    if get_u16(&m.command, TAG_COMMAND_FIELD) != Some(C_STORE_RQ) {
        return None;
    }
    let message_id = match get_u16(&m.command, TAG_MESSAGE_ID) {
        Some(v) => v,
        None => {
            return None;
        },
    };
    let sop_class_uid = match get_value(&m.command, TAG_AFFECTED_SOP_CLASS_UID) {
        Some(v) => v,
        None => {
            return None;
        },
    };
    let sop_instance_uid = match get_value(&m.command, TAG_AFFECTED_SOP_INSTANCE_UID) {
        Some(v) => v,
        None => {
            return None;
        },
    };
    let context_id = m.context_id;
    match m.dataset {
        Some(dataset) => Some(StoreRequest { context_id, message_id, sop_class_uid, sop_instance_uid, dataset }),
        None => None,
    }
}

/// The status that answers a C-STORE: Success when the dataset was
/// persisted, Out of Resources when writing it failed.
pub open spec fn persisted_status(persisted: bool) -> u16 {
    if persisted {
        STATUS_SUCCESS
    } else {
        STATUS_OUT_OF_RESOURCES
    }
}

pub fn store_status(persisted: bool) -> (r: u16)
    ensures
        r == persisted_status(persisted),
{
    if persisted {
        STATUS_SUCCESS
    } else {
        STATUS_OUT_OF_RESOURCES
    }
}

/// The fields of the C-STORE-RSP to a request, with the given status.
pub open spec fn store_response_fields(s: StoreRequest, status: u16) -> Seq<(u16, u16, Seq<u8>)> {
    seq![
        (0u16, TAG_AFFECTED_SOP_CLASS_UID, s.sop_class_uid@),
        us(TAG_COMMAND_FIELD, C_STORE_RSP),
        us(TAG_MESSAGE_ID_RESPONDED_TO, s.message_id),
        us(TAG_DATA_SET_TYPE, DATA_SET_ABSENT),
        us(TAG_STATUS, status),
        (0u16, TAG_AFFECTED_SOP_INSTANCE_UID, s.sop_instance_uid@),
    ]
}

/// The C-STORE-RSP command set answering `s`.
pub fn store_response(s: &StoreRequest, status: u16) -> (r: Option<Vec<Element>>)
    ensures
        r is Some <==> command_fits(store_response_fields(*s, status)),
        r matches Some(c) ==> elements_view(c@) == with_length(store_response_fields(*s, status))
            && crate::message::elements_fit(elements_view(c@)),
{
    let mut fields: Vec<Element> = Vec::new();
    fields.push(Element { group: 0, element: TAG_AFFECTED_SOP_CLASS_UID, value: crate::negotiation::copy_bytes(&s.sop_class_uid) });
    fields.push(u16_element(TAG_COMMAND_FIELD, C_STORE_RSP));
    fields.push(u16_element(TAG_MESSAGE_ID_RESPONDED_TO, s.message_id));
    fields.push(u16_element(TAG_DATA_SET_TYPE, DATA_SET_ABSENT));
    fields.push(u16_element(TAG_STATUS, status));
    fields.push(Element { group: 0, element: TAG_AFFECTED_SOP_INSTANCE_UID, value: crate::negotiation::copy_bytes(&s.sop_instance_uid) });
    assert(elements_view(fields@) =~= store_response_fields(*s, status));
    command(fields)
}

pub enum RetrieveEvent {
    /// A pending response, with the counters as they now stand.
    Progress(SubOperations),
    /// The final response: its status and the final counters.
    Done(u16, SubOperations),
    /// An instance the peer sends back during C-GET: persist its dataset,
    /// count the outcome with `record_store`, then answer with
    /// `store_response` and `store_status`.
    Store(StoreRequest),
    /// A message that belongs to neither: the stream ends.
    Unexpected,
    /// The stream had already ended.
    Closed,
}

/// The consumer of one C-MOVE or C-GET response sequence.
pub struct RetrieveStream {
    pub message_id: u16,
    /// C-MOVE-RSP or C-GET-RSP.
    pub response_field: u16,
    /// Whether C-STORE requests may come in between (C-GET).
    pub accepts_stores: bool,
    pub counts: SubOperations,
    pub finished: bool,
}

/// The counters before any response.
pub open spec fn zero_counts() -> SubOperations {
    SubOperations { remaining: 0, completed: 0, failed: 0, warning: 0 }
}

impl RetrieveStream {
    pub fn for_move(message_id: u16) -> (r: RetrieveStream)
        ensures
            r.message_id == message_id,
            r.response_field == C_MOVE_RSP,
            !r.accepts_stores,
            r.counts == zero_counts(),
            !r.finished,
    {
        RetrieveStream {
            message_id,
            response_field: C_MOVE_RSP,
            accepts_stores: false,
            counts: SubOperations { remaining: 0, completed: 0, failed: 0, warning: 0 },
            finished: false,
        }
    }

    pub fn for_get(message_id: u16) -> (r: RetrieveStream)
        ensures
            r.message_id == message_id,
            r.response_field == C_GET_RSP,
            r.accepts_stores,
            r.counts == zero_counts(),
            !r.finished,
    {
        RetrieveStream {
            message_id,
            response_field: C_GET_RSP,
            accepts_stores: true,
            counts: SubOperations { remaining: 0, completed: 0, failed: 0, warning: 0 },
            finished: false,
        }
    }

    /// Counts the outcome of persisting a dataset that `next` handed out:
    /// one more completed sub-operation, or one more failed one.
    pub fn record_store(&mut self, persisted: bool)
        ensures
            final(self).message_id == old(self).message_id,
            final(self).response_field == old(self).response_field,
            final(self).accepts_stores == old(self).accepts_stores,
            final(self).finished == old(self).finished,
            final(self).counts.remaining == old(self).counts.remaining,
            final(self).counts.warning == old(self).counts.warning,
            final(self).counts.completed == if persisted {
                bump(old(self).counts.completed)
            } else {
                old(self).counts.completed
            },
            final(self).counts.failed == if persisted {
                old(self).counts.failed
            } else {
                bump(old(self).counts.failed)
            },
    {
        if persisted {
            if self.counts.completed < u16::MAX {
                self.counts.completed = self.counts.completed + 1;
            }
        } else if self.counts.failed < u16::MAX {
            self.counts.failed = self.counts.failed + 1;
        }
    }

    /// Takes the next message on the association. During C-GET a C-STORE
    /// request is handed out for persisting; responses to our request update
    /// the counters; the final one ends the stream.
    pub fn next(&mut self, m: Message) -> (r: RetrieveEvent)
        ensures
            final(self).message_id == old(self).message_id,
            final(self).response_field == old(self).response_field,
            final(self).accepts_stores == old(self).accepts_stores,
            old(self).finished ==> r is Closed && *final(self) == *old(self),
            !old(self).finished && old(self).accepts_stores && is_store_request(m) ==> (r matches RetrieveEvent::Store(s)
                && store_request_of(m, s)) && *final(self) == *old(self),
            !old(self).finished && !(old(self).accepts_stores && is_store_request(m)) ==> match response_status(
                elements_view(m.command@),
                old(self).response_field,
                old(self).message_id,
            ) {
                None => r is Unexpected && final(self).finished && final(self).counts == old(self).counts,
                Some(st) => {
                    let c = updated_counts(old(self).counts, elements_view(m.command@), old(self).accepts_stores);
                    &&& final(self).counts == c
                    &&& final(self).finished == !is_pending(st)
                    &&& if is_pending(st) {
                        r == RetrieveEvent::Progress(c)
                    } else {
                        r == RetrieveEvent::Done(st, c)
                    }
                },
            },
    {
        if self.finished {
            return RetrieveEvent::Closed;
        }
        let status = status_of(&m.command, self.response_field, self.message_id);
        let remaining = get_u16(&m.command, TAG_REMAINING);
        let completed = get_u16(&m.command, TAG_COMPLETED);
        let failed = get_u16(&m.command, TAG_FAILED);
        let warning = get_u16(&m.command, TAG_WARNING);
        if self.accepts_stores {
            match as_store_request(m) {
                Some(s) => {
                    return RetrieveEvent::Store(s);
                },
                None => {},
            }
        }
        match status {
            None => {
                self.finished = true;
                RetrieveEvent::Unexpected
            },
            Some(st) => {
                self.counts = SubOperations {
                    remaining: keep_or(remaining, self.counts.remaining),
                    completed: if self.accepts_stores {
                        self.counts.completed
                    } else {
                        keep_or(completed, self.counts.completed)
                    },
                    failed: if self.accepts_stores {
                        self.counts.failed
                    } else {
                        keep_or(failed, self.counts.failed)
                    },
                    warning: keep_or(warning, self.counts.warning),
                };
                if st == STATUS_PENDING || st == STATUS_PENDING_WARNING {
                    RetrieveEvent::Progress(self.counts)
                } else {
                    self.finished = true;
                    RetrieveEvent::Done(st, self.counts)
                }
            },
        }
    }
}

/// The progress record of a retrieve: the total of all four counters, and
/// the completed and failed ones.
pub fn move_progress(c: SubOperations) -> (r: MoveProgress)
    ensures
        r.total == c.remaining + c.completed + c.failed + c.warning,
        r.completed == c.completed,
        r.failed == c.failed,
{
    MoveProgress {
        total: c.remaining as i32 + c.completed as i32 + c.failed as i32 + c.warning as i32,
        completed: c.completed as i32,
        failed: c.failed as i32,
    }
}

} // verus!
