//! Presentation Data Values: the fragments that P-DATA-TF PDUs carry.
use vstd::prelude::*;

verus! {

/// One fragment of a command set or of a dataset, tagged with its
/// presentation context.
#[derive(Clone, Debug)]
pub struct Pdv {
    pub context_id: u8,
    pub is_command: bool,
    pub is_last: bool,
    pub data: Vec<u8>,
}

pub struct PdvView {
    pub context_id: u8,
    pub is_command: bool,
    pub is_last: bool,
    pub data: Seq<u8>,
}

impl View for Pdv {
    type V = PdvView;

    open spec fn view(&self) -> PdvView {
        PdvView {
            context_id: self.context_id,
            is_command: self.is_command,
            is_last: self.is_last,
            data: self.data@,
        }
    }
}

pub open spec fn pdvs_view(v: Seq<Pdv>) -> Seq<PdvView> {
    v.map_values(|p: Pdv| p@)
}

/// The fragments of `b[pos..]` when each carries at most `max` bytes: every
/// fragment but the last is full, and only the last is marked last.
pub open spec fn fragments_from(
    context_id: u8,
    is_command: bool,
    b: Seq<u8>,
    pos: int,
    max: int,
) -> Seq<PdvView>
    decreases b.len() - pos,
{
    if max <= 0 || b.len() - pos <= max {
        seq![
            PdvView {
                context_id,
                is_command,
                is_last: true,
                data: b.subrange(pos, b.len() as int),
            },
        ]
    } else {
        seq![
            PdvView {
                context_id,
                is_command,
                is_last: false,
                data: b.subrange(pos, pos + max),
            },
        ] + fragments_from(context_id, is_command, b, pos + max, max)
    }
}

pub open spec fn fragments(context_id: u8, is_command: bool, b: Seq<u8>, max: int) -> Seq<
    PdvView,
> {
    fragments_from(context_id, is_command, b, 0, max)
}

/// Splits `b` into fragments of at most `max` bytes each, in order.
pub fn fragment(context_id: u8, is_command: bool, b: &[u8], max: usize) -> (r: Vec<Pdv>)
    requires
        max > 0,
    ensures
        pdvs_view(r@) == fragments(context_id, is_command, b@, max as int),
{
    let mut out: Vec<Pdv> = Vec::new();
    let mut pos: usize = 0;
    let ghost whole = fragments(context_id, is_command, b@, max as int);
    loop
        invariant
            max > 0,
            pos <= b@.len(),
            whole == fragments(context_id, is_command, b@, max as int),
            pdvs_view(out@) + fragments_from(context_id, is_command, b@, pos as int, max as int)
                == whole,
        decreases b@.len() - pos,
    {
        if b.len() - pos <= max {
            let data = crate::wire::copy_range(b, pos, b.len());
            let p = Pdv { context_id, is_command, is_last: true, data };
            let ghost before = out@;
            out.push(p);
            assert(pdvs_view(out@) =~= pdvs_view(before) + seq![p@]);
            return out;
        }
        let data = crate::wire::copy_range(b, pos, pos + max);
        let p = Pdv { context_id, is_command, is_last: false, data };
        let ghost before = out@;
        out.push(p);
        assert(pdvs_view(out@) =~= pdvs_view(before) + seq![p@]);
        assert(fragments_from(context_id, is_command, b@, pos as int, max as int) == seq![p@]
            + fragments_from(context_id, is_command, b@, pos + max, max as int));
        assert(pdvs_view(before) + (seq![p@] + fragments_from(
            context_id,
            is_command,
            b@,
            pos + max,
            max as int,
        )) =~= (pdvs_view(before) + seq![p@]) + fragments_from(
            context_id,
            is_command,
            b@,
            pos + max,
            max as int,
        ));
        pos = pos + max;
    }
}

/// Every fragment stays within the limit and on its context.
pub proof fn lemma_fragments_bounded(
    context_id: u8,
    is_command: bool,
    b: Seq<u8>,
    pos: int,
    max: int,
)
    requires
        max > 0,
        0 <= pos <= b.len(),
    ensures
        forall|i: int|
            0 <= i < fragments_from(context_id, is_command, b, pos, max).len() ==> (#[trigger] fragments_from(
                context_id,
                is_command,
                b,
                pos,
                max,
            )[i]).data.len() <= max && fragments_from(context_id, is_command, b, pos, max)[i].context_id
                == context_id,
    decreases b.len() - pos,
{
    if b.len() - pos > max {
        lemma_fragments_bounded(context_id, is_command, b, pos + max, max);
        let f = fragments_from(context_id, is_command, b, pos, max);
        let g = fragments_from(context_id, is_command, b, pos + max, max);
        assert forall|i: int| 0 < i < f.len() implies f[i] == g[i - 1] by {}
    }
}

} // verus!
