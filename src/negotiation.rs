//! Presentation-context negotiation: the acceptor's evaluation of proposed
//! contexts against what it supports, and the requestor's reading of the
//! answer into the set of negotiated contexts.
use vstd::prelude::*;

verus! {

pub const RESULT_ACCEPTANCE: u8 = 0;
pub const RESULT_ABSTRACT_SYNTAX_NOT_SUPPORTED: u8 = 3;
pub const RESULT_TRANSFER_SYNTAXES_NOT_SUPPORTED: u8 = 4;

/// A context as the requestor proposes it.
#[derive(Clone, Debug)]
pub struct ProposedContext {
    pub id: u8,
    pub abstract_syntax: Vec<u8>,
    pub transfer_syntaxes: Vec<Vec<u8>>,
}

/// The acceptor's answer for one proposed context.
#[derive(Clone, Debug)]
pub struct ContextResult {
    pub id: u8,
    pub result: u8,
    pub transfer_syntax: Vec<u8>,
}

/// One abstract syntax the acceptor supports, with the transfer syntaxes it
/// accepts for it.
#[derive(Clone, Debug)]
pub struct SupportedSyntax {
    pub abstract_syntax: Vec<u8>,
    pub transfer_syntaxes: Vec<Vec<u8>>,
}

/// A context both sides agreed on.
#[derive(Clone, Debug)]
pub struct NegotiatedContext {
    pub id: u8,
    pub abstract_syntax: Vec<u8>,
    pub transfer_syntax: Vec<u8>,
}

pub open spec fn lists(tss: Seq<Vec<u8>>, ts: Seq<u8>) -> bool {
    exists|j: int| 0 <= j < tss.len() && (#[trigger] tss[j])@ == ts
}

pub open spec fn supports_abstract(supported: Seq<SupportedSyntax>, a: Seq<u8>) -> bool {
    exists|i: int| 0 <= i < supported.len() && (#[trigger] supported[i]).abstract_syntax@ == a
}

pub open spec fn supports(supported: Seq<SupportedSyntax>, a: Seq<u8>, ts: Seq<u8>) -> bool {
    exists|i: int|
        0 <= i < supported.len() && (#[trigger] supported[i]).abstract_syntax@ == a && lists(
            supported[i].transfer_syntaxes@,
            ts,
        )
}

/// Some transfer syntax of the proposal is supported for its abstract syntax.
pub open spec fn acceptable(supported: Seq<SupportedSyntax>, pc: ProposedContext) -> bool {
    exists|j: int|
        0 <= j < pc.transfer_syntaxes@.len() && supports(
            supported,
            pc.abstract_syntax@,
            (#[trigger] pc.transfer_syntaxes@[j])@,
        )
}

/// The acceptor's answer to one proposal: acceptance with the first proposed
/// transfer syntax it supports; otherwise a rejection saying whether the
/// abstract syntax or only the transfer syntaxes are unsupported.
pub open spec fn answers(supported: Seq<SupportedSyntax>, pc: ProposedContext, r: ContextResult) -> bool {
    &&& r.id == pc.id
    &&& (r.result == RESULT_ACCEPTANCE) == acceptable(supported, pc)
    &&& r.result == RESULT_ACCEPTANCE ==> exists|j: int|
        0 <= j < pc.transfer_syntaxes@.len() && r.transfer_syntax@ == (
        #[trigger] pc.transfer_syntaxes@[j])@ && supports(supported, pc.abstract_syntax@, r.transfer_syntax@)
            && forall|k: int|
            0 <= k < j ==> !supports(
                supported,
                pc.abstract_syntax@,
                (#[trigger] pc.transfer_syntaxes@[k])@,
            )
    &&& r.result != RESULT_ACCEPTANCE ==> r.transfer_syntax@.len() == 0 && if supports_abstract(
        supported,
        pc.abstract_syntax@,
    ) {
        r.result == RESULT_TRANSFER_SYNTAXES_NOT_SUPPORTED
    } else {
        r.result == RESULT_ABSTRACT_SYNTAX_NOT_SUPPORTED
    }
}

pub fn bytes_eq(a: &[u8], b: &[u8]) -> (r: bool)
    ensures
        r == (a@ == b@),
{
    if a.len() != b.len() {
        return false;
    }
    let mut i: usize = 0;
    while i < a.len()
        invariant
            a@.len() == b@.len(),
            i <= a@.len(),
            forall|k: int| 0 <= k < i ==> a@[k] == b@[k],
        decreases a@.len() - i,
    {
        if a[i] != b[i] {
            return false;
        }
        i = i + 1;
    }
    assert(a@ =~= b@);
    true
}

pub fn copy_bytes(a: &Vec<u8>) -> (r: Vec<u8>)
    ensures
        r@ == a@,
{
    crate::wire::copy_range(a.as_slice(), 0, a.len())
}

fn list_contains(tss: &Vec<Vec<u8>>, ts: &Vec<u8>) -> (r: bool)
    ensures
        r == lists(tss@, ts@),
{
    let mut j: usize = 0;
    while j < tss.len()
        invariant
            j <= tss@.len(),
            forall|k: int| 0 <= k < j ==> (#[trigger] tss@[k])@ != ts@,
        decreases tss@.len() - j,
    {
        if bytes_eq(tss[j].as_slice(), ts.as_slice()) {
            return true;
        }
        j = j + 1;
    }
    false
}

fn is_supported(supported: &Vec<SupportedSyntax>, a: &Vec<u8>, ts: &Vec<u8>) -> (r: bool)
    ensures
        r == supports(supported@, a@, ts@),
{
    let mut i: usize = 0;
    while i < supported.len()
        invariant
            i <= supported@.len(),
            forall|k: int|
                0 <= k < i ==> !((#[trigger] supported@[k]).abstract_syntax@ == a@ && lists(
                    supported@[k].transfer_syntaxes@,
                    ts@,
                )),
        decreases supported@.len() - i,
    {
        if bytes_eq(supported[i].abstract_syntax.as_slice(), a.as_slice()) && list_contains(
            &supported[i].transfer_syntaxes,
            ts,
        ) {
            return true;
        }
        i = i + 1;
    }
    false
}

fn is_abstract_supported(supported: &Vec<SupportedSyntax>, a: &Vec<u8>) -> (r: bool)
    ensures
        r == supports_abstract(supported@, a@),
{
    let mut i: usize = 0;
    while i < supported.len()
        invariant
            i <= supported@.len(),
            forall|k: int| 0 <= k < i ==> (#[trigger] supported@[k]).abstract_syntax@ != a@,
        decreases supported@.len() - i,
    {
        if bytes_eq(supported[i].abstract_syntax.as_slice(), a.as_slice()) {
            return true;
        }
        i = i + 1;
    }
    false
}

/// The acceptor's answer to one proposed context.
pub fn evaluate_context(supported: &Vec<SupportedSyntax>, pc: &ProposedContext) -> (r:
    ContextResult)
    ensures
        answers(supported@, *pc, r),
{
    let mut j: usize = 0;
    while j < pc.transfer_syntaxes.len()
        invariant
            j <= pc.transfer_syntaxes@.len(),
            forall|k: int|
                0 <= k < j ==> !supports(
                    supported@,
                    pc.abstract_syntax@,
                    (#[trigger] pc.transfer_syntaxes@[k])@,
                ),
        decreases pc.transfer_syntaxes@.len() - j,
    {
        if is_supported(supported, &pc.abstract_syntax, &pc.transfer_syntaxes[j]) {
            let r = ContextResult {
                id: pc.id,
                result: RESULT_ACCEPTANCE,
                transfer_syntax: copy_bytes(&pc.transfer_syntaxes[j]),
            };
            assert(acceptable(supported@, *pc));
            return r;
        }
        j = j + 1;
    }
    let result = if is_abstract_supported(supported, &pc.abstract_syntax) {
        RESULT_TRANSFER_SYNTAXES_NOT_SUPPORTED
    } else {
        RESULT_ABSTRACT_SYNTAX_NOT_SUPPORTED
    };
    ContextResult { id: pc.id, result, transfer_syntax: Vec::new() }
}

/// The acceptor's answers to all proposed contexts, in order.
pub fn evaluate_contexts(supported: &Vec<SupportedSyntax>, proposed: &Vec<ProposedContext>) -> (r:
    Vec<ContextResult>)
    ensures
        r@.len() == proposed@.len(),
        forall|k: int| 0 <= k < r@.len() ==> answers(supported@, proposed@[k], #[trigger] r@[k]),
{
    let mut out: Vec<ContextResult> = Vec::new();
    let mut k: usize = 0;
    while k < proposed.len()
        invariant
            k <= proposed@.len(),
            out@.len() == k,
            forall|i: int| 0 <= i < k ==> answers(supported@, proposed@[i], #[trigger] out@[i]),
        decreases proposed@.len() - k,
    {
        let r = evaluate_context(supported, &proposed[k]);
        out.push(r);
        k = k + 1;
    }
    out
}

/// Context ids are odd and pairwise distinct.
pub open spec fn ids_valid(proposed: Seq<ProposedContext>) -> bool {
    &&& forall|k: int| 0 <= k < proposed.len() ==> (#[trigger] proposed[k]).id % 2 == 1
    &&& forall|k: int, m: int|
        0 <= k < m < proposed.len() ==> (#[trigger] proposed[k]).id != (#[trigger] proposed[m]).id
}

/// A negotiated context stands for a proposal: same id and abstract syntax,
/// and one of the proposed transfer syntaxes.
pub open spec fn from_proposal(proposed: Seq<ProposedContext>, n: NegotiatedContext) -> bool {
    exists|k: int|
        0 <= k < proposed.len() && (#[trigger] proposed[k]).id == n.id
            && proposed[k].abstract_syntax@ == n.abstract_syntax@ && lists(
            proposed[k].transfer_syntaxes@,
            n.transfer_syntax@,
        )
}

/// An acceptance in the answer that matches a proposal.
pub open spec fn accepted_in(results: Seq<ContextResult>, n: NegotiatedContext) -> bool {
    exists|m: int|
        0 <= m < results.len() && (#[trigger] results[m]).id == n.id && results[m].result
            == RESULT_ACCEPTANCE && results[m].transfer_syntax@ == n.transfer_syntax@
}

pub open spec fn has_id(v: Seq<NegotiatedContext>, id: u8) -> bool {
    exists|i: int| 0 <= i < v.len() && (#[trigger] v[i]).id == id
}

/// The negotiated set: the answers that accept a context the requestor
/// proposed with a transfer syntax it proposed for it. Rejected and
/// unmatched answers are left out.
pub fn negotiated_contexts(proposed: &Vec<ProposedContext>, results: &Vec<ContextResult>) -> (r:
    Vec<NegotiatedContext>)
    ensures
        forall|i: int|
            0 <= i < r@.len() ==> from_proposal(proposed@, #[trigger] r@[i]) && accepted_in(
                results@,
                r@[i],
            ),
        forall|m: int, k: int|
            0 <= m < results@.len() && 0 <= k < proposed@.len() && (#[trigger] results@[m]).result
                == RESULT_ACCEPTANCE && (#[trigger] proposed@[k]).id == results@[m].id && lists(
                proposed@[k].transfer_syntaxes@,
                results@[m].transfer_syntax@,
            ) ==> has_id(r@, results@[m].id),
{
    let mut out: Vec<NegotiatedContext> = Vec::new();
    let mut m: usize = 0;
    while m < results.len()
        invariant
            m <= results@.len(),
            forall|i: int|
                0 <= i < out@.len() ==> from_proposal(proposed@, #[trigger] out@[i]) && accepted_in(
                    results@,
                    out@[i],
                ),
            forall|m2: int, k: int|
                0 <= m2 < m && 0 <= k < proposed@.len() && (#[trigger] results@[m2]).result
                    == RESULT_ACCEPTANCE && (#[trigger] proposed@[k]).id == results@[m2].id
                    && lists(proposed@[k].transfer_syntaxes@, results@[m2].transfer_syntax@)
                    ==> has_id(out@, results@[m2].id),
        decreases results@.len() - m,
    {
        let res = &results[m];
        if res.result == RESULT_ACCEPTANCE {
            let mut k: usize = 0;
            while k < proposed.len()
                invariant
                    k <= proposed@.len(),
                    m < results@.len(),
                    *res == results@[m as int],
                    res.result == RESULT_ACCEPTANCE,
                    forall|i: int|
                        0 <= i < out@.len() ==> from_proposal(proposed@, #[trigger] out@[i])
                            && accepted_in(results@, out@[i]),
                    forall|m2: int, k2: int|
                        0 <= m2 < m && 0 <= k2 < proposed@.len() && (#[trigger] results@[m2]).result
                            == RESULT_ACCEPTANCE && (#[trigger] proposed@[k2]).id
                            == results@[m2].id && lists(
                            proposed@[k2].transfer_syntaxes@,
                            results@[m2].transfer_syntax@,
                        ) ==> has_id(out@, results@[m2].id),
                    forall|k2: int|
                        0 <= k2 < k && (#[trigger] proposed@[k2]).id == res.id && lists(
                            proposed@[k2].transfer_syntaxes@,
                            res.transfer_syntax@,
                        ) ==> has_id(out@, res.id),
                decreases proposed@.len() - k,
            {
                let pc = &proposed[k];
                if pc.id == res.id && list_contains(&pc.transfer_syntaxes, &res.transfer_syntax) {
                    let n = NegotiatedContext {
                        id: pc.id,
                        abstract_syntax: copy_bytes(&pc.abstract_syntax),
                        transfer_syntax: copy_bytes(&res.transfer_syntax),
                    };
                    assert(from_proposal(proposed@, n)) by {
                        assert(proposed@[k as int] == *pc);
                    }
                    assert(accepted_in(results@, n)) by {
                        assert(results@[m as int] == *res);
                    }
                    let ghost before = out@;
                    out.push(n);
                    assert(out@[before.len() as int] == n);
                    assert forall|i: int| 0 <= i < out@.len() implies from_proposal(
                        proposed@,
                        #[trigger] out@[i],
                    ) && accepted_in(results@, out@[i]) by {
                        if i < before.len() {
                            assert(out@[i] == before[i]);
                        }
                    }
                    assert forall|id: u8| has_id(before, id) implies has_id(out@, id) by {
                        let i = choose|i: int| 0 <= i < before.len() && (#[trigger] before[i]).id == id;
                        assert(out@[i] == before[i]);
                    }
                    assert(has_id(out@, res.id));
                }
                k = k + 1;
            }
        }
        m = m + 1;
    }
    out
}

/// Negotiation law: when the acceptor answers a proposal with valid ids, the
/// negotiated set is a subset of what was proposed, and it holds every
/// proposed context for which the acceptor supports one of the proposed
/// transfer syntaxes.
pub proof fn lemma_negotiated_between_proposed_and_supported(
    supported: Seq<SupportedSyntax>,
    proposed: Seq<ProposedContext>,
    results: Seq<ContextResult>,
    negotiated: Seq<NegotiatedContext>,
)
    requires
        ids_valid(proposed),
        results.len() == proposed.len(),
        forall|k: int| 0 <= k < results.len() ==> answers(supported, proposed[k], #[trigger] results[k]),
        forall|i: int|
            0 <= i < negotiated.len() ==> from_proposal(proposed, #[trigger] negotiated[i])
                && accepted_in(results, negotiated[i]),
        forall|m: int, k: int|
            0 <= m < results.len() && 0 <= k < proposed.len() && (#[trigger] results[m]).result
                == RESULT_ACCEPTANCE && (#[trigger] proposed[k]).id == results[m].id && lists(
                proposed[k].transfer_syntaxes@,
                results[m].transfer_syntax@,
            ) ==> has_id(negotiated, results[m].id),
    ensures
        forall|i: int| 0 <= i < negotiated.len() ==> from_proposal(proposed, #[trigger] negotiated[i]),
        forall|k: int|
            0 <= k < proposed.len() && acceptable(supported, #[trigger] proposed[k]) ==> has_id(
                negotiated,
                proposed[k].id,
            ),
{
    assert forall|k: int|
        0 <= k < proposed.len() && acceptable(supported, #[trigger] proposed[k]) implies has_id(
        negotiated,
        proposed[k].id,
    ) by {
        assert(answers(supported, proposed[k], results[k]));
        let r = results[k];
        assert(r.result == RESULT_ACCEPTANCE);
        let j = choose|j: int|
            0 <= j < proposed[k].transfer_syntaxes@.len() && r.transfer_syntax@ == (
            #[trigger] proposed[k].transfer_syntaxes@[j])@ && supports(
                supported,
                proposed[k].abstract_syntax@,
                r.transfer_syntax@,
            ) && forall|k2: int|
                0 <= k2 < j ==> !supports(
                    supported,
                    proposed[k].abstract_syntax@,
                    (#[trigger] proposed[k].transfer_syntaxes@[k2])@,
                );
        assert(lists(proposed[k].transfer_syntaxes@, r.transfer_syntax@));
    }
}

} // verus!
