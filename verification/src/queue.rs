use vstd::prelude::*;

use crate::order::Flat3d;
use crate::select::{is_selection, lemma_selection_empty, lemma_selection_step};

verus! {

/// What the renderer found out about one visible entity of a view.
pub enum QueueCandidate<P, E> {
    /// The entity has no material mesh, or its mesh is not prepared yet.
    NotDrawable,
    /// Building a pipeline for the entity's mesh failed.
    PipelineFailed,
    /// The entity can be drawn with `pipeline`, at the measured distance;
    /// `wireframe` says whether it carries the `Wireframe` component, which
    /// asks for it to be drawn by this pass.
    Drawable { entity: E, pipeline: P, distance_bits: u32, wireframe: bool },
}

/// The phase item that a candidate contributes, if any.
pub open spec fn candidate_item<P, E, D>(candidate: QueueCandidate<P, E>, draw_function: D) -> Seq<
    Flat3d<P, E, D>,
> {
    match candidate {
        QueueCandidate::Drawable { entity, pipeline, distance_bits, wireframe } => if wireframe {
            seq![Flat3d { distance_bits, pipeline, entity, draw_function }]
        } else {
            Seq::empty()
        },
        _ => Seq::empty(),
    }
}

/// The phase items of a sequence of candidates, in the candidates' order.
pub open spec fn queued_items<P, E, D>(candidates: Seq<QueueCandidate<P, E>>, draw_function: D) -> Seq<
    Flat3d<P, E, D>,
>
    decreases candidates.len(),
{
    if candidates.len() == 0 {
        Seq::empty()
    } else {
        queued_items(candidates.drop_last(), draw_function) + candidate_item(
            candidates.last(),
            draw_function,
        )
    }
}

/// Adds to a view's flat phase one item for each drawable candidate that
/// carries the `Wireframe` component, in the candidates' order; the others add
/// nothing.
pub fn queue_flat_items<P: Copy, E: Copy, D: Copy>(
    phase: &mut Vec<Flat3d<P, E, D>>,
    candidates: &Vec<QueueCandidate<P, E>>,
    draw_function: D,
)
    ensures
        final(phase)@ == old(phase)@ + queued_items(candidates@, draw_function),
        is_selection(
            candidates@.len() as int,
            queues_at(candidates@),
            item_at(candidates@, draw_function),
            final(phase)@.skip(old(phase)@.len() as int),
        ),
{
    let n = candidates.len();
    let mut i: usize = 0;
    while i < n
        invariant
            n == candidates@.len(),
            i <= n,
            phase@ == old(phase)@ + queued_items(candidates@.take(i as int), draw_function),
        decreases n - i,
    {
        let ghost before = phase@;
        match &candidates[i] {
            QueueCandidate::Drawable { entity, pipeline, distance_bits, wireframe } => {
                if *wireframe {
                    phase.push(
                        Flat3d {
                            distance_bits: *distance_bits,
                            pipeline: *pipeline,
                            entity: *entity,
                            draw_function,
                        },
                    );
                }
            },
            _ => {},
        }
        proof {
            let taken = candidates@.take(i + 1);
            assert(taken.drop_last() =~= candidates@.take(i as int));
            assert(taken.last() == candidates@[i as int]);
            assert(phase@ =~= before + candidate_item(candidates@[i as int], draw_function));
        }
        i = i + 1;
    }
    assert(candidates@.take(n as int) =~= candidates@);
    proof {
        lemma_queue_selects_wireframes(candidates@, draw_function);
        assert(phase@.skip(old(phase)@.len() as int) =~= queued_items(candidates@, draw_function));
    }
}

/// The positions of the candidates that enter the phase: those drawable and
/// carrying the `Wireframe` component, whatever their distance.
pub open spec fn queues_at<P, E>(candidates: Seq<QueueCandidate<P, E>>) -> spec_fn(int) -> bool {
    |i: int| candidates[i] is Drawable && candidates[i]->wireframe
}

/// The phase item of the candidate at a position: its own entity, pipeline
/// and distance, with the view's draw function.
pub open spec fn item_at<P, E, D>(candidates: Seq<QueueCandidate<P, E>>, draw_function: D) -> spec_fn(
    int,
) -> Flat3d<P, E, D> {
    |i: int|
        Flat3d {
            distance_bits: candidates[i]->distance_bits,
            pipeline: candidates[i]->pipeline,
            entity: candidates[i]->entity,
            draw_function,
        }
}

proof fn lemma_queue_prefix<P, E, D>(candidates: Seq<QueueCandidate<P, E>>, draw_function: D, m: int)
    requires
        0 <= m <= candidates.len(),
    ensures
        is_selection(
            m,
            queues_at(candidates),
            item_at(candidates, draw_function),
            queued_items(candidates.take(m), draw_function),
        ),
    decreases m,
{
    let pick = queues_at(candidates);
    let f = item_at(candidates, draw_function);
    if m == 0 {
        assert(candidates.take(0) =~= Seq::<QueueCandidate<P, E>>::empty());
        lemma_selection_empty(pick, f);
    } else {
        lemma_queue_prefix(candidates, draw_function, m - 1);
        let t = candidates.take(m);
        let before = queued_items(candidates.take(m - 1), draw_function);
        assert(t.drop_last() =~= candidates.take(m - 1));
        assert(t.last() == candidates[m - 1]);
        lemma_selection_step(m - 1, pick, f, before);
        let c = candidates[m - 1];
        if pick(m - 1) {
            assert(before + candidate_item(c, draw_function) =~= before.push(f(m - 1)));
        } else {
            assert(before + candidate_item(c, draw_function) =~= before);
        }
    }
}

/// What queueing adds, directly over the candidates: in candidate order, one
/// item for exactly each drawable candidate with the `Wireframe` component,
/// made of that candidate's own entity, pipeline and distance and the view's
/// draw function; every other candidate adds nothing.
pub proof fn lemma_queue_selects_wireframes<P, E, D>(
    candidates: Seq<QueueCandidate<P, E>>,
    draw_function: D,
)
    ensures
        is_selection(
            candidates.len() as int,
            queues_at(candidates),
            item_at(candidates, draw_function),
            queued_items(candidates, draw_function),
        ),
{
    lemma_queue_prefix(candidates, draw_function, candidates.len() as int);
    assert(candidates.take(candidates.len() as int) =~= candidates);
}

} // verus!
