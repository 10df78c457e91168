//! The force-field capability: given an ordered, read-only view of
//! bodies, produce one net force per body, index-aligned. The exact
//! and the hierarchical variant are peer implementations; an
//! environment may hold several fields and sums their outputs.

use vstd::prelude::*;

use crate::barneshut::BHField;
use crate::force::{net_force, BruteForceField};
use crate::force::lemma_net_force_trivial;
use crate::geometry::Vector;
use crate::num::MAX_BODIES;
use crate::physics::Body;

verus! {

/// The capability every force field satisfies: one force per body, in
/// body order, zero for collections of at most one body, and the input
/// is never mutated (it is taken by shared reference).
pub trait Field: Sized {
    /// Admissible configuration of this field.
    spec fn field_wf(&self) -> bool;

    /// Net forces, one per input body, index-aligned.
    fn forces(&self, bodies: &Vec<Body>) -> (out: Vec<Vector>)
        requires
            self.field_wf(),
            bodies.len() <= MAX_BODIES,
            forall|k: int| 0 <= k < bodies.len() ==> (#[trigger] bodies[k]).wf(),
        ensures
            out.len() == bodies.len(),
            bodies.len() <= 1 ==> forall|i: int|
                0 <= i < out.len() ==> (#[trigger] out[i]).dx == 0 && out[i].dy == 0,
    ;
}

impl Field for BruteForceField {
    open spec fn field_wf(&self) -> bool {
        self.wf()
    }

    fn forces(&self, bodies: &Vec<Body>) -> (out: Vec<Vector>) {
        let out = self.compute_forces(bodies);
        proof {
            if bodies@.len() <= 1 {
                assert forall|i: int| 0 <= i < out.len() implies (#[trigger] out[i]).dx == 0
                    && out[i].dy == 0 by {
                    lemma_net_force_trivial(self.g as int, self.eps2 as int, bodies@, i);
                }
            }
        }
        out
    }
}

impl Field for BHField {
    open spec fn field_wf(&self) -> bool {
        self.wf()
    }

    fn forces(&self, bodies: &Vec<Body>) -> (out: Vec<Vector>) {
        self.compute_forces(bodies)
    }
}

/// The closed set of field variants an environment can hold.
#[derive(Clone, Copy, Debug)]
pub enum FieldVariant {
    Brute(BruteForceField),
    Bh(BHField),
}

impl FieldVariant {
    /// Admissible configuration of the wrapped field.
    pub open spec fn wf(self) -> bool {
        match self {
            FieldVariant::Brute(f) => f.wf(),
            FieldVariant::Bh(f) => f.wf(),
        }
    }

    /// For the exact variant, what `forces` returns at each index.
    pub open spec fn spec_force(self, bodies: Seq<Body>, i: int) -> (int, int)
        recommends
            self is Brute,
    {
        match self {
            FieldVariant::Brute(f) => net_force(f.g as int, f.eps2 as int, bodies, i),
            FieldVariant::Bh(_) => (0, 0),
        }
    }
}

impl Field for FieldVariant {
    open spec fn field_wf(&self) -> bool {
        self.wf()
    }

    /// Dispatches to the wrapped variant; for the exact variant the
    /// output is pinned to `net_force` at every index.
    fn forces(&self, bodies: &Vec<Body>) -> (out: Vec<Vector>)
        ensures
            self is Brute ==> forall|i: int|
                0 <= i < bodies.len() ==> ((#[trigger] out[i]).dx as int, out[i].dy as int)
                    == self.spec_force(bodies@, i),
    {
        match self {
            FieldVariant::Brute(f) => {
                let out = f.compute_forces(bodies);
                proof {
                    if bodies@.len() <= 1 {
                        assert forall|i: int| 0 <= i < out.len() implies (#[trigger] out[i]).dx == 0
                            && out[i].dy == 0 by {
                            lemma_net_force_trivial(f.g as int, f.eps2 as int, bodies@, i);
                        }
                    }
                }
                out
            },
            FieldVariant::Bh(f) => f.compute_forces(bodies),
        }
    }
}

} // verus!
