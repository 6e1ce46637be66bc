//! The DIMSE message codec: command sets in Implicit VR Little Endian, the
//! fragmentation of a command and its dataset into PDVs, and their reassembly.
use crate::error::ProtocolError;
use crate::pdv::{fragment, fragments, fragments_from, pdvs_view, Pdv, PdvView};
use crate::wire::{le16, le16_of, le32, le32_of};
use vstd::prelude::*;

verus! {

/// One command element: tag (group, element) and value bytes.
#[derive(Clone, Debug)]
pub struct Element {
    pub group: u16,
    pub element: u16,
    pub value: Vec<u8>,
}

impl View for Element {
    type V = (u16, u16, Seq<u8>);

    open spec fn view(&self) -> (u16, u16, Seq<u8>) {
        (self.group, self.element, self.value@)
    }
}

pub open spec fn elements_view(v: Seq<Element>) -> Seq<(u16, u16, Seq<u8>)> {
    v.map_values(|e: Element| e@)
}

/// Every value's length fits the four-byte length field.
pub open spec fn elements_fit(s: Seq<(u16, u16, Seq<u8>)>) -> bool {
    forall|i: int| 0 <= i < s.len() ==> (#[trigger] s[i]).2.len() <= u32::MAX
}

/// Implicit VR Little Endian: group, element, 32-bit length, value.
pub open spec fn element_bytes(e: (u16, u16, Seq<u8>)) -> Seq<u8> {
    le16(e.0) + le16(e.1) + le32(e.2.len() as u32) + e.2
}

pub open spec fn elements_bytes(s: Seq<(u16, u16, Seq<u8>)>) -> Seq<u8>
    decreases s.len(),
{
    if s.len() == 0 {
        Seq::empty()
    } else {
        element_bytes(s[0]) + elements_bytes(s.drop_first())
    }
}

/// The grammar of an encoded command set: a run of elements, each with a
/// declared length that the remaining bytes can hold.
pub open spec fn parse_elements(b: Seq<u8>) -> Option<Seq<(u16, u16, Seq<u8>)>>
    decreases b.len(),
{
    if b.len() == 0 {
        Some(Seq::empty())
    } else if b.len() < 8 {
        None
    } else {
        let len = le32_of(b[4], b[5], b[6], b[7]) as int;
        if len > b.len() - 8 {
            None
        } else {
            let e = (le16_of(b[0], b[1]), le16_of(b[2], b[3]), b.subrange(8, 8 + len));
            match parse_elements(b.subrange(8 + len, b.len() as int)) {
                Some(rest) => Some(seq![e] + rest),
                None => None,
            }
        }
    }
}

pub proof fn lemma_elements_bytes_push(s: Seq<(u16, u16, Seq<u8>)>, e: (u16, u16, Seq<u8>))
    ensures
        elements_bytes(s.push(e)) == elements_bytes(s) + element_bytes(e),
    decreases s.len(),
{
    if s.len() == 0 {
        assert(s.push(e).drop_first() =~= Seq::<(u16, u16, Seq<u8>)>::empty());
        assert(elements_bytes(s.push(e).drop_first()) == Seq::<u8>::empty());
        assert(elements_bytes(s.push(e)) =~= element_bytes(e));
        assert(elements_bytes(s) == Seq::<u8>::empty());
        assert(elements_bytes(s) + element_bytes(e) =~= element_bytes(e));
    } else {
        assert(s.push(e).drop_first() =~= s.drop_first().push(e));
        lemma_elements_bytes_push(s.drop_first(), e);
        assert(elements_bytes(s.push(e)) =~= elements_bytes(s) + element_bytes(e));
    }
}

/// Parsing the encoding of a command set gives back its elements.
pub proof fn lemma_parse_elements_bytes(s: Seq<(u16, u16, Seq<u8>)>)
    requires
        elements_fit(s),
    ensures
        parse_elements(elements_bytes(s)) == Some(s),
    decreases s.len(),
{
    if s.len() == 0 {
        assert(s =~= Seq::<(u16, u16, Seq<u8>)>::empty());
    } else {
        let e = s[0];
        let b = elements_bytes(s);
        let rest = s.drop_first();
        assert(elements_fit(rest)) by {
            assert forall|i: int| 0 <= i < rest.len() implies (#[trigger] rest[i]).2.len()
                <= u32::MAX by {
                assert(rest[i] == s[i + 1]);
            }
        }
        lemma_parse_elements_bytes(rest);
        crate::wire::lemma_le16_roundtrip(e.0, 0, 0);
        crate::wire::lemma_le16_roundtrip(e.1, 0, 0);
        crate::wire::lemma_be32_of_be32(e.2.len() as u32);
        let len = e.2.len() as int;
        assert(b == element_bytes(e) + elements_bytes(rest));
        assert(b[0] == le16(e.0)[0] && b[1] == le16(e.0)[1]);
        assert(b[2] == le16(e.1)[0] && b[3] == le16(e.1)[1]);
        assert(b[4] == le32(e.2.len() as u32)[0] && b[5] == le32(e.2.len() as u32)[1] && b[6]
            == le32(e.2.len() as u32)[2] && b[7] == le32(e.2.len() as u32)[3]);
        assert(b.subrange(8, 8 + len) =~= e.2);
        assert(b.subrange(8 + len, b.len() as int) =~= elements_bytes(rest));
        assert(seq![e] + rest =~= s);
    }
}

/// Encodes a command set in Implicit VR Little Endian.
pub fn encode_elements(elems: &Vec<Element>) -> (r: Vec<u8>)
    requires
        elements_fit(elements_view(elems@)),
    ensures
        r@ == elements_bytes(elements_view(elems@)),
{
    let mut out: Vec<u8> = Vec::new();
    let mut i: usize = 0;
    while i < elems.len()
        invariant
            i <= elems@.len(),
            elements_fit(elements_view(elems@)),
            out@ == elements_bytes(elements_view(elems@).subrange(0, i as int)),
        decreases elems@.len() - i,
    {
        let e = &elems[i];
        assert(elements_view(elems@)[i as int] == e@);
        crate::wire::push_le16(&mut out, e.group);
        crate::wire::push_le16(&mut out, e.element);
        crate::wire::push_le32(&mut out, e.value.len() as u32);
        crate::wire::push_all(&mut out, e.value.as_slice());
        proof {
            let pre = elements_view(elems@).subrange(0, i as int);
            lemma_elements_bytes_push(pre, e@);
            assert(elements_view(elems@).subrange(0, i + 1) =~= pre.push(e@));
            assert(out@ =~= elements_bytes(pre) + element_bytes(e@));
        }
        i = i + 1;
    }
    assert(elements_view(elems@).subrange(0, elems@.len() as int) =~= elements_view(elems@));
    out
}

/// Decodes a command set; `None` when the bytes do not follow the grammar.
pub fn decode_elements(b: &[u8]) -> (r: Option<Vec<Element>>)
    ensures
        match parse_elements(b@) {
            Some(s) => r is Some && elements_view(r->Some_0@) == s,
            None => r is None,
        },
{
    let mut out: Vec<Element> = Vec::new();
    let mut pos: usize = 0;
    assert(b@.subrange(0, b@.len() as int) =~= b@);
    proof {
        match parse_elements(b@) {
            Some(rest) => {
                assert(elements_view(out@) + rest =~= rest);
            },
            None => {},
        }
    }
    while pos < b.len()
        invariant
            pos <= b@.len(),
            parse_elements(b@) == match parse_elements(b@.subrange(pos as int, b@.len() as int)) {
                Some(rest) => Some(elements_view(out@) + rest),
                None => None::<Seq<(u16, u16, Seq<u8>)>>,
            },
        decreases b@.len() - pos,
    {
        let ghost tail = b@.subrange(pos as int, b@.len() as int);
        if b.len() - pos < 8 {
            return None;
        }
        let len = crate::wire::read_le32(b, pos + 4);
        if len as usize > b.len() - pos - 8 {
            return None;
        }
        let group = crate::wire::read_le16(b, pos);
        let element = crate::wire::read_le16(b, pos + 2);
        let value = crate::wire::copy_range(b, pos + 8, pos + 8 + len as usize);
        let e = Element { group, element, value };
        proof {
            assert(tail[0] == b@[pos as int] && tail[1] == b@[pos + 1]);
            assert(tail[2] == b@[pos + 2] && tail[3] == b@[pos + 3]);
            assert(tail[4] == b@[pos + 4] && tail[5] == b@[pos + 5] && tail[6] == b@[pos + 6]
                && tail[7] == b@[pos + 7]);
            assert(tail.subrange(8, 8 + len as int) =~= e.value@);
            assert(tail.subrange(8 + len as int, tail.len() as int) =~= b@.subrange(
                pos + 8 + len as int,
                b@.len() as int,
            ));
        }
        let ghost before = out@;
        out.push(e);
        proof {
            assert(elements_view(out@) =~= elements_view(before).push(e@));
            match parse_elements(b@.subrange(pos + 8 + len as int, b@.len() as int)) {
                Some(rest) => {
                    assert(elements_view(before) + (seq![e@] + rest) =~= elements_view(out@)
                        + rest);
                },
                None => {},
            }
        }
        pos = pos + 8 + len as usize;
    }
    assert(b@.subrange(pos as int, b@.len() as int) =~= Seq::<u8>::empty());
    assert(elements_view(out@) + Seq::<(u16, u16, Seq<u8>)>::empty() =~= elements_view(out@));
    Some(out)
}

} // verus!

verus! {

/// The fragments of one message: the command set, then the dataset if any.
pub open spec fn message_pdvs(
    context_id: u8,
    command: Seq<(u16, u16, Seq<u8>)>,
    dataset: Option<Seq<u8>>,
    max: int,
) -> Seq<PdvView> {
    fragments(context_id, true, elements_bytes(command), max) + match dataset {
        Some(d) => fragments(context_id, false, d, max),
        None => Seq::empty(),
    }
}

/// Fragments a command set and its optional dataset into PDVs that carry at
/// most `max` bytes each.
pub fn encode_message(
    context_id: u8,
    command: &Vec<Element>,
    dataset: Option<&Vec<u8>>,
    max: usize,
) -> (r: Vec<Pdv>)
    requires
        max > 0,
        elements_fit(elements_view(command@)),
    ensures
        pdvs_view(r@) == message_pdvs(
            context_id,
            elements_view(command@),
            match dataset {
                Some(d) => Some(d@),
                None => None,
            },
            max as int,
        ),
{
    let bytes = encode_elements(command);
    let mut out = fragment(context_id, true, bytes.as_slice(), max);
    match dataset {
        Some(d) => {
            let mut more = fragment(context_id, false, d.as_slice(), max);
            let ghost a = out@;
            let ghost b = more@;
            out.append(&mut more);
            assert(pdvs_view(out@) =~= pdvs_view(a) + pdvs_view(b));
        },
        None => {
            assert(pdvs_view(out@) =~= pdvs_view(out@) + Seq::<PdvView>::empty());
        },
    }
    out
}

/// Fragments received so far for one message.
#[derive(Debug)]
pub struct Reassembly {
    pub started: bool,
    pub context_id: u8,
    pub command: Vec<u8>,
    pub command_complete: bool,
    pub data: Vec<u8>,
    pub data_complete: bool,
}

pub struct ReassemblyView {
    pub started: bool,
    pub context_id: u8,
    pub command: Seq<u8>,
    pub command_complete: bool,
    pub data: Seq<u8>,
    pub data_complete: bool,
}

impl View for Reassembly {
    type V = ReassemblyView;

    open spec fn view(&self) -> ReassemblyView {
        ReassemblyView {
            started: self.started,
            context_id: self.context_id,
            command: self.command@,
            command_complete: self.command_complete,
            data: self.data@,
            data_complete: self.data_complete,
        }
    }
}

pub open spec fn empty_reassembly() -> ReassemblyView {
    ReassemblyView {
        started: false,
        context_id: 0,
        command: Seq::empty(),
        command_complete: false,
        data: Seq::empty(),
        data_complete: false,
    }
}

/// One fragment taken in: all fragments of a message share its context,
/// command fragments come first, and nothing follows a last fragment of its
/// kind. `None` is a framing violation.
pub open spec fn accept_pdv(s: ReassemblyView, p: PdvView) -> Option<ReassemblyView> {
    if s.started && p.context_id != s.context_id {
        None
    } else if p.is_command {
        if s.command_complete {
            None
        } else {
            Some(
                ReassemblyView {
                    started: true,
                    context_id: p.context_id,
                    command: s.command + p.data,
                    command_complete: p.is_last,
                    ..s
                },
            )
        }
    } else if !s.command_complete || s.data_complete {
        None
    } else {
        Some(
            ReassemblyView {
                started: true,
                context_id: p.context_id,
                data: s.data + p.data,
                data_complete: p.is_last,
                ..s
            },
        )
    }
}

pub open spec fn accept_all(s: ReassemblyView, ps: Seq<PdvView>) -> Option<ReassemblyView>
    decreases ps.len(),
{
    if ps.len() == 0 {
        Some(s)
    } else {
        match accept_pdv(s, ps[0]) {
            Some(t) => accept_all(t, ps.drop_first()),
            None => None,
        }
    }
}

/// The state after a whole run of command (or data) bytes has come in.
pub open spec fn absorb(s: ReassemblyView, context_id: u8, is_command: bool, b: Seq<u8>) -> ReassemblyView {
    if is_command {
        ReassemblyView {
            started: true,
            context_id,
            command: s.command + b,
            command_complete: true,
            ..s
        }
    } else {
        ReassemblyView { started: true, context_id, data: s.data + b, data_complete: true, ..s }
    }
}

pub proof fn lemma_accept_fragments(
    s: ReassemblyView,
    context_id: u8,
    is_command: bool,
    b: Seq<u8>,
    pos: int,
    max: int,
    rest: Seq<PdvView>,
)
    requires
        max > 0,
        0 <= pos <= b.len(),
        !s.started || s.context_id == context_id,
        if is_command {
            !s.command_complete
        } else {
            s.command_complete && !s.data_complete
        },
    ensures
        accept_all(s, fragments_from(context_id, is_command, b, pos, max) + rest) == accept_all(
            absorb(s, context_id, is_command, b.subrange(pos, b.len() as int)),
            rest,
        ),
    decreases b.len() - pos,
{
    let fs = fragments_from(context_id, is_command, b, pos, max);
    let all = fs + rest;
    let p = fs[0];
    assert(all[0] == p);
    if b.len() - pos <= max {
        assert(all.drop_first() =~= rest);
        assert(accept_pdv(s, p) == Some(absorb(s, context_id, is_command, b.subrange(pos, b.len() as int))));
    } else {
        let t = accept_pdv(s, p)->Some_0;
        let more = fragments_from(context_id, is_command, b, pos + max, max);
        assert(all.drop_first() =~= more + rest);
        lemma_accept_fragments(t, context_id, is_command, b, pos + max, max, rest);
        assert(b.subrange(pos, pos + max) + b.subrange(pos + max, b.len() as int) =~= b.subrange(pos, b.len() as int));
        if is_command {
            assert(t.command + b.subrange(pos + max, b.len() as int) =~= s.command + b.subrange(pos, b.len() as int));
        } else {
            assert(t.data + b.subrange(pos + max, b.len() as int) =~= s.data + b.subrange(pos, b.len() as int));
        }
        assert(absorb(t, context_id, is_command, b.subrange(pos + max, b.len() as int)) =~= absorb(s, context_id, is_command, b.subrange(pos, b.len() as int)));
    }
}

/// Round trip: the fragments of a command set and its dataset, taken in one
/// by one from an empty reassembly, give back exactly the encoded command set
/// (which parses to the same elements) and the same dataset bytes.
pub proof fn lemma_message_round_trip(
    context_id: u8,
    command: Seq<(u16, u16, Seq<u8>)>,
    dataset: Option<Seq<u8>>,
    max: int,
)
    requires
        max > 0,
        elements_fit(command),
    ensures
        accept_all(empty_reassembly(), message_pdvs(context_id, command, dataset, max)) == Some(
            ReassemblyView {
                started: true,
                context_id,
                command: elements_bytes(command),
                command_complete: true,
                data: match dataset {
                    Some(d) => d,
                    None => Seq::empty(),
                },
                data_complete: dataset is Some,
            },
        ),
        parse_elements(elements_bytes(command)) == Some(command),
{
    let cb = elements_bytes(command);
    let tail = match dataset {
        Some(d) => fragments(context_id, false, d, max),
        None => Seq::empty(),
    };
    lemma_accept_fragments(empty_reassembly(), context_id, true, cb, 0, max, tail);
    let s1 = absorb(empty_reassembly(), context_id, true, cb.subrange(0, cb.len() as int));
    assert(cb.subrange(0, cb.len() as int) =~= cb);
    assert(s1.command =~= cb);
    match dataset {
        Some(d) => {
            assert(fragments(context_id, false, d, max) + Seq::<PdvView>::empty() =~= fragments(context_id, false, d, max));
            lemma_accept_fragments(s1, context_id, false, d, 0, max, Seq::empty());
            assert(d.subrange(0, d.len() as int) =~= d);
            let s2 = absorb(s1, context_id, false, d);
            assert(s2.data =~= d);
            assert(accept_all(s2, Seq::empty()) == Some(s2));
        },
        None => {
            assert(accept_all(s1, Seq::empty()) == Some(s1));
            assert(s1.data =~= Seq::<u8>::empty());
        },
    }
    lemma_parse_elements_bytes(command);
}

/// The bytes of a run of fragments, in order.
pub open spec fn concat(chunks: Seq<Seq<u8>>) -> Seq<u8>
    decreases chunks.len(),
{
    if chunks.len() == 0 {
        Seq::empty()
    } else {
        chunks[0] + concat(chunks.drop_first())
    }
}

/// PDVs carrying `chunks` in order on one context, only the last one marked
/// last: a fragmentation of any sizes a peer may choose.
pub open spec fn chunk_pdvs(context_id: u8, is_command: bool, chunks: Seq<Seq<u8>>) -> Seq<PdvView> {
    Seq::new(
        chunks.len(),
        |i: int|
            PdvView { context_id, is_command, is_last: i == chunks.len() - 1, data: chunks[i] },
    )
}

pub proof fn lemma_accept_chunks(
    s: ReassemblyView,
    context_id: u8,
    is_command: bool,
    chunks: Seq<Seq<u8>>,
    rest: Seq<PdvView>,
)
    requires
        chunks.len() > 0,
        !s.started || s.context_id == context_id,
        if is_command {
            !s.command_complete
        } else {
            s.command_complete && !s.data_complete
        },
    ensures
        accept_all(s, chunk_pdvs(context_id, is_command, chunks) + rest) == accept_all(
            absorb(s, context_id, is_command, concat(chunks)),
            rest,
        ),
    decreases chunks.len(),
{
    let ps = chunk_pdvs(context_id, is_command, chunks);
    let all = ps + rest;
    assert(all[0] == ps[0]);
    let t = accept_pdv(s, ps[0])->Some_0;
    if chunks.len() == 1 {
        assert(all.drop_first() =~= rest);
        assert(chunks.drop_first() =~= Seq::<Seq<u8>>::empty());
        assert(concat(chunks.drop_first()) == Seq::<u8>::empty());
        assert(chunks[0] + Seq::<u8>::empty() =~= chunks[0]);
        assert(concat(chunks) =~= chunks[0]);
        assert(absorb(s, context_id, is_command, concat(chunks)) =~= t);
    } else {
        let more = chunks.drop_first();
        assert(chunk_pdvs(context_id, is_command, more) =~= ps.drop_first());
        assert(all.drop_first() =~= chunk_pdvs(context_id, is_command, more) + rest);
        lemma_accept_chunks(t, context_id, is_command, more, rest);
        if is_command {
            assert(t.command + concat(more) =~= s.command + concat(chunks));
        } else {
            assert(t.data + concat(more) =~= s.data + concat(chunks));
        }
        assert(absorb(t, context_id, is_command, concat(more)) =~= absorb(s, context_id, is_command, concat(chunks)));
    }
}

/// Round trip for any fragmentation: a command set and its dataset cut into
/// fragments of any sizes, sent in order on one context with only the last
/// of each marked last, are taken in as exactly the encoded command set
/// (which parses back to the same elements) and the same dataset bytes.
pub proof fn lemma_round_trip_any_fragments(
    context_id: u8,
    command: Seq<(u16, u16, Seq<u8>)>,
    dataset: Option<Seq<u8>>,
    command_chunks: Seq<Seq<u8>>,
    data_chunks: Seq<Seq<u8>>,
)
    requires
        elements_fit(command),
        command_chunks.len() > 0,
        concat(command_chunks) == elements_bytes(command),
        dataset matches Some(d) ==> data_chunks.len() > 0 && concat(data_chunks) == d,
    ensures
        accept_all(
            empty_reassembly(),
            chunk_pdvs(context_id, true, command_chunks) + match dataset {
                Some(_) => chunk_pdvs(context_id, false, data_chunks),
                None => Seq::empty(),
            },
        ) == Some(
            ReassemblyView {
                started: true,
                context_id,
                command: elements_bytes(command),
                command_complete: true,
                data: match dataset {
                    Some(d) => d,
                    None => Seq::empty(),
                },
                data_complete: dataset is Some,
            },
        ),
        parse_elements(elements_bytes(command)) == Some(command),
{
    let tail = match dataset {
        Some(_) => chunk_pdvs(context_id, false, data_chunks),
        None => Seq::<PdvView>::empty(),
    };
    lemma_accept_chunks(empty_reassembly(), context_id, true, command_chunks, tail);
    let s1 = absorb(empty_reassembly(), context_id, true, concat(command_chunks));
    assert(s1.command =~= elements_bytes(command));
    match dataset {
        Some(d) => {
            assert(chunk_pdvs(context_id, false, data_chunks) + Seq::<PdvView>::empty() =~= chunk_pdvs(context_id, false, data_chunks));
            lemma_accept_chunks(s1, context_id, false, data_chunks, Seq::empty());
            let s2 = absorb(s1, context_id, false, d);
            assert(s2.data =~= d);
            assert(accept_all(s2, Seq::empty()) == Some(s2));
        },
        None => {
            assert(accept_all(s1, Seq::empty()) == Some(s1));
            assert(s1.data =~= Seq::<u8>::empty());
        },
    }
    lemma_parse_elements_bytes(command);
}

impl Reassembly {
    pub fn new() -> (r: Reassembly)
        ensures
            r@ == empty_reassembly(),
    {
        Reassembly {
            started: false,
            context_id: 0,
            command: Vec::new(),
            command_complete: false,
            data: Vec::new(),
            data_complete: false,
        }
    }

    /// Takes in one fragment; a framing violation is `MalformedPdu` and leaves
    /// the state as it was.
    pub fn accept(&mut self, p: &Pdv) -> (r: Result<(), ProtocolError>)
        ensures
            match accept_pdv(old(self)@, p@) {
                Some(t) => r is Ok && final(self)@ == t,
                None => r == Err::<(), ProtocolError>(ProtocolError::MalformedPdu) && final(self)@
                    == old(self)@,
            },
    {
        if self.started && p.context_id != self.context_id {
            return Err(ProtocolError::MalformedPdu);
        }
        if p.is_command {
            if self.command_complete {
                return Err(ProtocolError::MalformedPdu);
            }
            crate::wire::push_all(&mut self.command, p.data.as_slice());
            self.command_complete = p.is_last;
        } else {
            if !self.command_complete || self.data_complete {
                return Err(ProtocolError::MalformedPdu);
            }
            crate::wire::push_all(&mut self.data, p.data.as_slice());
            self.data_complete = p.is_last;
        }
        self.started = true;
        self.context_id = p.context_id;
        Ok(())
    }

    /// What the end of the stream means here: nothing lost when no message is
    /// under way, `IncompleteMessage` otherwise.
    pub fn close(&self) -> (r: Result<(), ProtocolError>)
        ensures
            r is Ok <==> !self.started,
            r is Err ==> r == Err::<(), ProtocolError>(ProtocolError::IncompleteMessage),
    {
        if self.started {
            Err(ProtocolError::IncompleteMessage)
        } else {
            Ok(())
        }
    }
}

} // verus!
