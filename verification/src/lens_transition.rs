//! The change from one lens to another.

use vstd::prelude::*;

use crate::embedding::copy_vector;
use crate::lens::Lens;
use crate::single;
use crate::single::ONE;

verus! {

/// The smallest step above one, 1.1920929e-7.
pub const EPSILON: u32 = 0x3400_0000;

/// The contents of a transition.
#[verifier::ext_equal]
pub struct TransitionView {
    pub from_nodes: Seq<u32>,
    pub target_nodes: Seq<u32>,
    pub from_edges: Seq<u32>,
    pub target_edges: Seq<u32>,
    pub from_dim: u32,
    pub target_dim: u32,
    pub progress: u32,
    pub velocity: u32,
    pub moving: bool,
}

impl TransitionView {
    /// A transition that has come to its end.
    pub open spec fn ended(self) -> TransitionView {
        TransitionView { progress: ONE, velocity: 0, moving: false, ..self }
    }

    /// A transition to another lens from what is shown now.
    pub open spec fn turned(
        self,
        shown_nodes: Seq<u32>,
        shown_edges: Seq<u32>,
        shown_dim: u32,
        nodes: Seq<u32>,
        edges: Seq<u32>,
        dim: u32,
    ) -> TransitionView {
        TransitionView {
            from_nodes: shown_nodes,
            target_nodes: nodes,
            from_edges: shown_edges,
            target_edges: edges,
            from_dim: shown_dim,
            target_dim: single::held_unit(dim),
            progress: 0,
            velocity: if single::less(0, self.velocity) {
                self.velocity
            } else {
                0
            },
            moving: true,
        }
    }

    /// The turn before a step, and whether a step is left to compute.
    pub open spec fn begun(self, reduce_motion: bool) -> (TransitionView, bool) {
        if self.moving && reduce_motion {
            (self.ended(), false)
        } else {
            (self, self.moving)
        }
    }

    /// The turn after a step, and whether it goes on.
    pub open spec fn advanced(self, progress: u32, velocity: u32, settled: bool) -> (
        TransitionView,
        bool,
    ) {
        if !settled && single::finite(progress) && single::finite(velocity) {
            (TransitionView { progress, velocity, ..self }, true)
        } else {
            (self.ended(), false)
        }
    }

    /// Whether nothing is brought out any more.
    pub open spec fn cleared(self) -> bool {
        !self.moving && !single::nan(self.target_dim) && !single::less(EPSILON, self.target_dim)
    }
}

/// The change from one lens to another.
#[derive(Debug)]
pub struct LensTransition {
    pub from_nodes: Vec<u32>,
    pub target_nodes: Vec<u32>,
    pub from_edges: Vec<u32>,
    pub target_edges: Vec<u32>,
    pub from_dim: u32,
    pub target_dim: u32,
    pub progress: u32,
    pub velocity: u32,
    pub moving: bool,
}

impl View for LensTransition {
    type V = TransitionView;

    open spec fn view(&self) -> TransitionView {
        TransitionView {
            from_nodes: self.from_nodes@,
            target_nodes: self.target_nodes@,
            from_edges: self.from_edges@,
            target_edges: self.target_edges@,
            from_dim: self.from_dim,
            target_dim: self.target_dim,
            progress: self.progress,
            velocity: self.velocity,
            moving: self.moving,
        }
    }
}

fn blank_scores(count: usize) -> (r: Vec<u32>)
    ensures
        r@ == Seq::new(count as nat, |i: int| 0u32),
{
    let mut out: Vec<u32> = Vec::new();
    let mut i: usize = 0;
    while i < count
        invariant
            i <= count,
            out@ == Seq::new(i as nat, |k: int| 0u32),
        decreases count - i,
    {
        out.push(0);
        assert(out@ =~= Seq::new((i + 1) as nat, |k: int| 0u32));
        i = i + 1;
    }
    out
}

impl LensTransition {
    /// A transition that has ended with nothing brought out.
    pub fn new(node_count: usize, edge_count: usize) -> (r: LensTransition)
        ensures
            r@ == (TransitionView {
                from_nodes: Seq::new(node_count as nat, |i: int| 0u32),
                target_nodes: Seq::new(node_count as nat, |i: int| 0u32),
                from_edges: Seq::new(edge_count as nat, |i: int| 0u32),
                target_edges: Seq::new(edge_count as nat, |i: int| 0u32),
                from_dim: 0,
                target_dim: 0,
                progress: ONE,
                velocity: 0,
                moving: false,
            }),
    {
        LensTransition {
            from_nodes: blank_scores(node_count),
            target_nodes: blank_scores(node_count),
            from_edges: blank_scores(edge_count),
            target_edges: blank_scores(edge_count),
            from_dim: 0,
            target_dim: 0,
            progress: ONE,
            velocity: 0,
            moving: false,
        }
    }

    /// Turns to another lens; `shown` is what is brought out at this moment.
    pub fn retarget(&mut self, shown: &Lens, lens: &Lens)
        ensures
            final(self)@ == old(self)@.turned(
                shown.nodes@,
                shown.edges@,
                shown.dim,
                lens.nodes@,
                lens.edges@,
                lens.dim,
            ),
    {
        self.from_nodes = copy_vector(&shown.nodes);
        self.from_edges = copy_vector(&shown.edges);
        self.from_dim = shown.dim;
        self.target_nodes = copy_vector(&lens.nodes);
        self.target_edges = copy_vector(&lens.edges);
        self.target_dim = single::hold_unit(lens.dim);
        self.progress = 0;
        if !single::is_less(0, self.velocity) {
            self.velocity = 0;
        }
        self.moving = true;
    }

    /// Starts a step. Without motion to show, the transition ends; `true`
    /// asks for the step to be computed and finished.
    pub fn begin_step(&mut self, reduce_motion: bool) -> (r: bool)
        ensures
            (final(self)@, r) == old(self)@.begun(reduce_motion),
    {
        if !self.moving {
            return false;
        }
        if reduce_motion {
            self.progress = ONE;
            self.velocity = 0;
            self.moving = false;
            return false;
        }
        true
    }

    /// Finishes a step with the computed progress and velocity; `settled`
    /// tells that it is near its end and slow. A settled transition, or one
    /// whose values are not finite, ends.
    pub fn finish_step(&mut self, progress: u32, velocity: u32, settled: bool) -> (r: bool)
        ensures
            (final(self)@, r) == old(self)@.advanced(progress, velocity, settled),
    {
        if !settled && single::is_finite(progress) && single::is_finite(velocity) {
            self.progress = progress;
            self.velocity = velocity;
            true
        } else {
            self.progress = ONE;
            self.velocity = 0;
            self.moving = false;
            false
        }
    }

    pub fn is_moving(&self) -> (r: bool)
        ensures
            r == self@.moving,
    {
        self.moving
    }

    /// Whether nothing is brought out any more.
    pub fn is_cleared(&self) -> (r: bool)
        ensures
            r == self@.cleared(),
    {
        !self.moving && !single::is_nan(self.target_dim) && !single::is_less(
            EPSILON,
            self.target_dim,
        )
    }
}

/// Turning to a blank lens and letting it end clears the canvas.
pub proof fn law_blank_lens_clears(
    t: TransitionView,
    shown_nodes: Seq<u32>,
    shown_edges: Seq<u32>,
    shown_dim: u32,
    nodes: Seq<u32>,
    edges: Seq<u32>,
)
    ensures
        t.turned(shown_nodes, shown_edges, shown_dim, nodes, edges, 0).ended().cleared(),
{
}

} // verus!
