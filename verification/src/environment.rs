//! The simulation driver: an environment owns the bodies and the active
//! fields, advances them one step at a time, and renders each step's
//! positions as a numbered frame for persistence.

use vstd::prelude::*;

use crate::barneshut::BHField;
use crate::field::{Field, FieldVariant};
use crate::geometry::Point;
use crate::num::{sym_clamp, MAX_BODIES, MAX_COORD, MAX_VEL};
use crate::physics::{vel_gain, Body};
use crate::writer::{dec_digits, render_points, DataWriter, Frame};

verus! {

/// The velocity a body has after one force vector is folded in.
pub open spec fn kicked_velocity(b: Body, f: (int, int)) -> crate::geometry::Vector {
    crate::geometry::Vector {
        dx: sym_clamp(
            b.velocity.dx + vel_gain(f.0, b.mass.spec_value()),
            MAX_VEL as int,
        ) as i64,
        dy: sym_clamp(
            b.velocity.dy + vel_gain(f.1, b.mass.spec_value()),
            MAX_VEL as int,
        ) as i64,
    }
}

/// A space in which bodies interact with fields. The body order is
/// stable: outputs and frame lines map back to bodies by index, which
/// is also a body's identity.
pub struct Environment {
    pub bodies: Vec<Body>,
    pub fields: Vec<FieldVariant>,
    pub writer: DataWriter,
}

impl Environment {
    /// The number of the next frame the environment will emit.
    pub closed spec fn writer_counter(&self) -> int {
        self.writer.spec_counter()
    }

    /// The directory frames are named under.
    pub closed spec fn writer_directory(&self) -> Seq<char> {
        self.writer.spec_directory()
    }

    /// An environment over the given fields and writer, with no bodies.
    pub fn new(fields: Vec<FieldVariant>, writer: DataWriter) -> (e: Environment)
        ensures
            e.bodies@.len() == 0,
            e.fields == fields,
            e.writer_counter() == writer.spec_counter(),
            e.writer_directory() == writer.spec_directory(),
    {
        Environment { bodies: Vec::new(), fields, writer }
    }

    /// One simulation step: ask each field for forces and fold them
    /// into the velocities, then move every body by its new velocity
    /// (semi-implicit Euler), then render the new positions as the next
    /// numbered frame. Masses never change; the body count and order
    /// are preserved; the caller persists the returned frame.
    pub fn update(&mut self) -> (frame: Frame)
        requires
            old(self).bodies.len() <= MAX_BODIES,
            forall|k: int| 0 <= k < old(self).bodies.len() ==> (#[trigger] old(self).bodies[k]).wf(),
            forall|q: int| 0 <= q < old(self).fields.len() ==> (#[trigger] old(self).fields[q]).wf(),
            old(self).writer_counter() < u32::MAX,
        ensures
            final(self).fields == old(self).fields,
            final(self).bodies.len() == old(self).bodies.len(),
            forall|k: int|
                0 <= k < final(self).bodies.len() ==> (#[trigger] final(self).bodies[k]).mass
                    == old(self).bodies[k].mass,
            forall|k: int| 0 <= k < final(self).bodies.len() ==> (#[trigger] final(self).bodies[k]).wf(),
            forall|k: int|
                0 <= k < final(self).bodies.len() ==> (#[trigger] final(self).bodies[k]).position.x
                    == sym_clamp(
                    old(self).bodies[k].position.x + final(self).bodies[k].velocity.dx,
                    MAX_COORD as int,
                ) && final(self).bodies[k].position.y == sym_clamp(
                    old(self).bodies[k].position.y + final(self).bodies[k].velocity.dy,
                    MAX_COORD as int,
                ),
            (old(self).fields.len() == 1 && old(self).fields[0] is Brute) ==> forall|k: int|
                0 <= k < final(self).bodies.len() ==> (#[trigger] final(self).bodies[k]).velocity
                    == kicked_velocity(
                    old(self).bodies[k],
                    old(self).fields[0].spec_force(old(self).bodies@, k),
                ),
            final(self).writer_directory() == old(self).writer_directory(),
            final(self).writer_counter() == old(self).writer_counter() + 1,
            frame.path@ == old(self).writer_directory() + "/frame-"@ + dec_digits(
                old(self).writer_counter(),
            ) + ".txt"@,
            frame.content@ == render_points(
                final(self).bodies@.map_values(|b: Body| b.position),
            ),
    {
        let nf = self.fields.len();
        let mut fi: usize = 0;
        while fi < nf
            invariant
                nf == self.fields.len(),
                self.fields == old(self).fields,
                self.writer == old(self).writer,
                self.bodies.len() == old(self).bodies.len() <= MAX_BODIES,
                forall|q: int| 0 <= q < self.fields.len() ==> (#[trigger] self.fields[q]).wf(),
                forall|k: int| 0 <= k < self.bodies.len() ==> (#[trigger] self.bodies[k]).wf(),
                forall|k: int|
                    0 <= k < self.bodies.len() ==> (#[trigger] self.bodies[k]).mass == old(
                        self,
                    ).bodies[k].mass,
                forall|k: int|
                    0 <= k < self.bodies.len() ==> (#[trigger] self.bodies[k]).position == old(
                        self,
                    ).bodies[k].position,
                fi == 0 ==> self.bodies@ == old(self).bodies@,
                (old(self).fields.len() == 1 && old(self).fields[0] is Brute && fi >= 1)
                    ==> forall|k: int|
                    0 <= k < self.bodies.len() ==> (#[trigger] self.bodies[k]).velocity
                        == kicked_velocity(
                        old(self).bodies[k],
                        old(self).fields[0].spec_force(old(self).bodies@, k),
                    ),
                fi <= nf,
            decreases nf - fi,
        {
            let fld = self.fields[fi];
            let forces = fld.forces(&self.bodies);
            let m = self.bodies.len();
            let mut bi: usize = 0;
            while bi < m
                invariant
                    m == self.bodies.len() == old(self).bodies.len(),
                    forces.len() == m,
                    self.fields == old(self).fields,
                    self.writer == old(self).writer,
                    forall|k: int| 0 <= k < self.bodies.len() ==> (#[trigger] self.bodies[k]).wf(),
                    forall|k: int|
                        0 <= k < self.bodies.len() ==> (#[trigger] self.bodies[k]).mass == old(
                            self,
                        ).bodies[k].mass,
                    forall|k: int|
                        0 <= k < self.bodies.len() ==> (#[trigger] self.bodies[k]).position == old(
                            self,
                        ).bodies[k].position,
                    fi == 0 ==> forall|k: int|
                        bi <= k < m ==> (#[trigger] self.bodies[k]).velocity == old(
                            self,
                        ).bodies[k].velocity,
                    (old(self).fields.len() == 1 && old(self).fields[0] is Brute && fi == 0)
                        ==> forall|k: int|
                        0 <= k < m ==> ((#[trigger] forces[k]).dx as int, forces[k].dy as int)
                            == old(self).fields[0].spec_force(old(self).bodies@, k),
                    (old(self).fields.len() == 1 && old(self).fields[0] is Brute && fi == 0)
                        ==> forall|k: int|
                        0 <= k < bi ==> (#[trigger] self.bodies[k]).velocity == kicked_velocity(
                            old(self).bodies[k],
                            old(self).fields[0].spec_force(old(self).bodies@, k),
                        ),
                    bi <= m,
                decreases m - bi,
            {
                let mut b = self.bodies[bi];
                b.apply_force(&forces[bi]);
                self.bodies.set(bi, b);
                bi = bi + 1;
            }
            fi = fi + 1;
        }
        let ghost mid = self.bodies@;
        let m = self.bodies.len();
        let mut bi: usize = 0;
        while bi < m
            invariant
                m == self.bodies.len() == mid.len(),
                self.fields == old(self).fields,
                self.writer == old(self).writer,
                bi <= m,
                forall|k: int| bi <= k < m ==> #[trigger] self.bodies[k] == mid[k],
                forall|k: int| 0 <= k < m ==> (#[trigger] mid[k]).wf(),
                forall|k: int| 0 <= k < bi ==> (#[trigger] self.bodies[k]).wf(),
                forall|k: int|
                    0 <= k < bi ==> (#[trigger] self.bodies[k]).mass == mid[k].mass && self.bodies[k].velocity
                        == mid[k].velocity,
                forall|k: int|
                    0 <= k < bi ==> (#[trigger] self.bodies[k]).position.x == sym_clamp(
                        mid[k].position.x + mid[k].velocity.dx,
                        MAX_COORD as int,
                    ) && self.bodies[k].position.y == sym_clamp(
                        mid[k].position.y + mid[k].velocity.dy,
                        MAX_COORD as int,
                    ),
            decreases m - bi,
        {
            let mut b = self.bodies[bi];
            b.apply_velocity();
            self.bodies.set(bi, b);
            bi = bi + 1;
        }
        let mut points: Vec<Point> = Vec::new();
        let mut k: usize = 0;
        while k < m
            invariant
                m == self.bodies.len(),
                k <= m,
                points.len() == k,
                forall|q: int| 0 <= q < k ==> #[trigger] points[q] == self.bodies[q].position,
            decreases m - k,
        {
            points.push(self.bodies[k].position);
            k = k + 1;
        }
        proof {
            assert(points@ =~= self.bodies@.map_values(|b: Body| b.position));
        }
        self.writer.write(points)
    }
}

impl Default for Environment {
    /// An empty environment with the hierarchical field under its
    /// default configuration, writing frames under `data`.
    fn default() -> (e: Environment)
        ensures
            e.bodies@.len() == 0,
            e.fields@.len() == 1,
            e.fields@[0] matches FieldVariant::Bh(f) && f.wf(),
            e.writer_counter() == 0,
            e.writer_directory() == "data"@,
    {
        let field = BHField::new();
        Environment {
            bodies: Vec::new(),
            fields: vec![FieldVariant::Bh(field)],
            writer: DataWriter::new("data"),
        }
    }
}

} // verus!
