//! The softened pairwise gravitational kernel and the exact
//! brute-force field built on it.
//!
//! The force another body or aggregate of mass `mj` at `(xj, yj)` exerts
//! on a body of mass `mi` at `(xi, yi)` has, per axis,
//! `g * mi * mj * delta / ((d2 + eps2) * d)` stored ticks, where `delta`
//! is the coordinate difference, `d2` the squared distance, `d` the floor
//! square root of `d2`, and `eps2` the squared softening term. Division
//! rounds the magnitude down; components saturate at `FORCE_LIM`.
//! Coincident points (`d2 == 0`) contribute nothing: no direction exists
//! and the softening bounds nothing there to a meaningful value.

use vstd::prelude::*;

use crate::geometry::Vector;
use crate::num::{iabs, sat_add, sqrt_floor, sym_clamp};
use crate::num::{force_add, isqrt};
use crate::num::{FORCE_LIM, MAX_BODIES, MAX_COORD, MAX_EPS2, MAX_G, MAX_MASS};
use crate::physics::{Body, SimError};
use crate::SCALE;

verus! {

/// Largest aggregate mass a kernel call accepts: every admissible body
/// collection sums below this.
pub const MAX_AGG_MASS: i128 = 1_000_000_000_000_000;

/// One axis of the kernel: the magnitude `num * |delta| / den`, clamped,
/// carrying the sign of `delta`.
pub open spec fn axis_force(delta: int, num: int, den: int) -> int {
    let mag = sym_clamp((num * iabs(delta)) / den, FORCE_LIM as int);
    if delta < 0 {
        -mag
    } else {
        mag
    }
}

/// The full softened kernel, both axes.
pub open spec fn kernel(
    g: int,
    eps2: int,
    mi: int,
    mj: int,
    xi: int,
    yi: int,
    xj: int,
    yj: int,
) -> (int, int) {
    let dx = xj - xi;
    let dy = yj - yi;
    let d2 = dx * dx + dy * dy;
    if d2 == 0 {
        (0, 0)
    } else {
        let den = (d2 + eps2) * sqrt_floor(d2);
        let num = g * mi * mj;
        (axis_force(dx, num, den), axis_force(dy, num, den))
    }
}

/// Executable kernel, exact with respect to `kernel`.
pub fn pair_kernel(
    g: i64,
    eps2: i64,
    mi: i64,
    mj: i128,
    xi: i64,
    yi: i64,
    xj: i64,
    yj: i64,
) -> (f: (i64, i64))
    requires
        1 <= g <= MAX_G,
        1 <= eps2 <= MAX_EPS2,
        1 <= mi <= MAX_MASS,
        1 <= mj <= MAX_AGG_MASS,
        iabs(xi as int) <= MAX_COORD as int,
        iabs(yi as int) <= MAX_COORD as int,
        iabs(xj as int) <= MAX_COORD as int,
        iabs(yj as int) <= MAX_COORD as int,
    ensures
        (f.0 as int, f.1 as int) == kernel(
            g as int,
            eps2 as int,
            mi as int,
            mj as int,
            xi as int,
            yi as int,
            xj as int,
            yj as int,
        ),
{
    let dxw: i128 = (xj as i128) - (xi as i128);
    let dyw: i128 = (yj as i128) - (yi as i128);
    let adx: u128 = if dxw < 0 {
        (-dxw) as u128
    } else {
        dxw as u128
    };
    let ady: u128 = if dyw < 0 {
        (-dyw) as u128
    } else {
        dyw as u128
    };
    assert(adx == iabs(xj - xi) && ady == iabs(yj - yi));
    proof {
        assert(adx * adx == (xj - xi) * (xj - xi) && adx * adx <= 4_000_000_000_000_000_000)
            by (nonlinear_arith)
            requires
                adx == iabs(xj - xi),
                adx <= 2_000_000_000,
        ;
        assert(ady * ady == (yj - yi) * (yj - yi) && ady * ady <= 4_000_000_000_000_000_000)
            by (nonlinear_arith)
            requires
                ady == iabs(yj - yi),
                ady <= 2_000_000_000,
        ;
    }
    let d2: u128 = adx * adx + ady * ady;
    if d2 == 0 {
        return (0i64, 0i64);
    }
    let d: u64 = isqrt(d2);
    proof {
        crate::num::lemma_sqrt_floor(d2 as int);
        assert(d >= 1) by (nonlinear_arith)
            requires
                d >= 0,
                d2 >= 1,
                (d2 as int) < ((d as int) + 1) * ((d as int) + 1),
        ;
        assert(d <= 3_000_000_000) by (nonlinear_arith)
            requires
                d >= 0,
                (d as int) * (d as int) <= d2,
                d2 <= 9_000_000_000_000_000_000,
        ;
        assert((d2 + eps2) * (d as u128) <= 28_000_000_000_000_000_000_000_000_000
            && (d2 + eps2) * (d as u128) >= 1) by (nonlinear_arith)
            requires
                1 <= (d as u128) <= 3_000_000_000,
                0 < d2 + eps2 <= 9_000_001_000_000_000_000,
        ;
    }
    let den: u128 = (d2 + (eps2 as u128)) * (d as u128);
    proof {
        assert(1 <= (g as u128) * (mi as u128) <= 10_000_000_000_000) by (nonlinear_arith)
            requires
                1 <= (g as u128) <= 10_000,
                1 <= (mi as u128) <= 1_000_000_000,
        ;
        assert((g as u128) * (mi as u128) * (mj as u128)
            <= 10_000_000_000_000_000_000_000_000_000) by (nonlinear_arith)
            requires
                1 <= (g as u128) * (mi as u128) <= 10_000_000_000_000,
                1 <= (mj as u128) <= 1_000_000_000_000_000,
        ;
    }
    let num: u128 = (g as u128) * (mi as u128) * (mj as u128);
    let fx = axis_exec(dxw, adx, num, den);
    let fy = axis_exec(dyw, ady, num, den);
    (fx, fy)
}

/// One executable axis of the kernel.
fn axis_exec(delta: i128, adelta: u128, num: u128, den: u128) -> (r: i64)
    requires
        adelta == iabs(delta as int),
        adelta <= 2_000_000_000,
        1 <= den,
        num <= 10_000_000_000_000_000_000_000_000_000,
    ensures
        r == axis_force(delta as int, num as int, den as int),
{
    proof {
        assert(num * adelta <= 20_000_000_000_000_000_000_000_000_000_000_000_000)
            by (nonlinear_arith)
            requires
                num <= 10_000_000_000_000_000_000_000_000_000,
                adelta <= 2_000_000_000,
        ;
        vstd::arithmetic::div_mod::lemma_div_pos_is_pos((num * adelta) as int, den as int);
    }
    let raw: u128 = num * adelta / den;
    let mag: i64 = if raw > (FORCE_LIM as u128) {
        FORCE_LIM
    } else {
        raw as i64
    };
    if delta < 0 {
        -mag
    } else {
        mag
    }
}

/// Net force on body `i` from the first `k` bodies, self excluded,
/// accumulated with saturating addition.
pub open spec fn net_force_upto(
    g: int,
    eps2: int,
    bodies: Seq<Body>,
    i: int,
    k: int,
) -> (int, int)
    decreases k,
{
    if k <= 0 {
        (0, 0)
    } else {
        let prev = net_force_upto(g, eps2, bodies, i, k - 1);
        if k - 1 == i {
            prev
        } else {
            let f = kernel(
                g,
                eps2,
                bodies[i].mass.spec_value(),
                bodies[k - 1].mass.spec_value(),
                bodies[i].position.x as int,
                bodies[i].position.y as int,
                bodies[k - 1].position.x as int,
                bodies[k - 1].position.y as int,
            );
            (sat_add(prev.0, f.0), sat_add(prev.1, f.1))
        }
    }
}

/// Net force on body `i` from every other body in the collection.
pub open spec fn net_force(g: int, eps2: int, bodies: Seq<Body>, i: int) -> (int, int) {
    net_force_upto(g, eps2, bodies, i, bodies.len() as int)
}

/// With at most one body there is no other body, so the net force is zero.
pub proof fn lemma_net_force_trivial(g: int, eps2: int, bodies: Seq<Body>, i: int)
    requires
        bodies.len() <= 1,
        0 <= i < bodies.len(),
    ensures
        net_force(g, eps2, bodies, i) == (0int, 0int),
{
    assert(net_force_upto(g, eps2, bodies, i, 0) == (0int, 0int));
}

/// One axis of the kernel is an odd function of the displacement.
proof fn lemma_axis_antisym(delta: int, num: int, den: int)
    requires
        den >= 1,
    ensures
        axis_force(delta, num, den) == -axis_force(-delta, num, den),
{
    vstd::arithmetic::div_mod::lemma_div_of0(den);
    assert(iabs(delta) == iabs(-delta));
    if delta == 0 {
        assert(num * iabs(0) == 0) by (nonlinear_arith);
        assert(axis_force(0, num, den) == sym_clamp(0int / den, FORCE_LIM as int));
        assert(axis_force(0, num, den) == 0);
    } else if delta < 0 {
        assert(axis_force(delta, num, den) == -sym_clamp(
            (num * iabs(delta)) / den,
            FORCE_LIM as int,
        ));
        assert(axis_force(-delta, num, den) == sym_clamp(
            (num * iabs(-delta)) / den,
            FORCE_LIM as int,
        ));
    }
}

/// The kernel obeys Newton's third law exactly: swapping the two ends
/// negates both components.
pub proof fn lemma_kernel_antisymmetric(
    g: int,
    eps2: int,
    ma: int,
    mb: int,
    xa: int,
    ya: int,
    xb: int,
    yb: int,
)
    requires
        eps2 >= 1,
    ensures
        kernel(g, eps2, ma, mb, xa, ya, xb, yb).0 == -kernel(g, eps2, mb, ma, xb, yb, xa, ya).0,
        kernel(g, eps2, ma, mb, xa, ya, xb, yb).1 == -kernel(g, eps2, mb, ma, xb, yb, xa, ya).1,
{
    assert((xb - xa) * (xb - xa) == (xa - xb) * (xa - xb)) by (nonlinear_arith);
    assert((yb - ya) * (yb - ya) == (ya - yb) * (ya - yb)) by (nonlinear_arith);
    assert((xb - xa) * (xb - xa) >= 0 && (yb - ya) * (yb - ya) >= 0) by (nonlinear_arith);
    assert(g * ma * mb == g * mb * ma) by (nonlinear_arith);
    let dx = xb - xa;
    let dy = yb - ya;
    let d2 = dx * dx + dy * dy;
    if d2 != 0 {
        let den = (d2 + eps2) * sqrt_floor(d2);
        let num = g * ma * mb;
        crate::num::lemma_sqrt_floor(d2);
        assert(sqrt_floor(d2) >= 1) by (nonlinear_arith)
            requires
                sqrt_floor(d2) >= 0,
                d2 >= 1,
                d2 < (sqrt_floor(d2) + 1) * (sqrt_floor(d2) + 1),
        ;
        assert(den >= 1) by (nonlinear_arith)
            requires
                d2 + eps2 >= 1,
                sqrt_floor(d2) >= 1,
                den == (d2 + eps2) * sqrt_floor(d2),
        ;
        lemma_axis_antisym(dx, num, den);
        lemma_axis_antisym(dy, num, den);
    }
}

/// For exactly two bodies the exact field returns opposite forces:
/// Newton's third law at the level of whole evaluations.
pub proof fn lemma_two_body_newton(g: int, eps2: int, bodies: Seq<Body>)
    requires
        eps2 >= 1,
        bodies.len() == 2,
    ensures
        net_force(g, eps2, bodies, 0).0 == -net_force(g, eps2, bodies, 1).0,
        net_force(g, eps2, bodies, 0).1 == -net_force(g, eps2, bodies, 1).1,
{
    lemma_kernel_antisymmetric(
        g,
        eps2,
        bodies[0].mass.spec_value(),
        bodies[1].mass.spec_value(),
        bodies[0].position.x as int,
        bodies[0].position.y as int,
        bodies[1].position.x as int,
        bodies[1].position.y as int,
    );
    assert(net_force_upto(g, eps2, bodies, 0, 0) == (0int, 0int));
    assert(net_force_upto(g, eps2, bodies, 1, 0) == (0int, 0int));
    assert(net_force_upto(g, eps2, bodies, 0, 1) == (0int, 0int));
    assert(net_force_upto(g, eps2, bodies, 1, 2) == net_force_upto(g, eps2, bodies, 1, 1));
    assert(net_force_upto(g, eps2, bodies, 1, 1).0 == sat_add(
        0,
        kernel(
            g,
            eps2,
            bodies[1].mass.spec_value(),
            bodies[0].mass.spec_value(),
            bodies[1].position.x as int,
            bodies[1].position.y as int,
            bodies[0].position.x as int,
            bodies[0].position.y as int,
        ).0,
    ));
}

/// The exact field: direct pairwise summation, quadratic cost.
#[derive(Clone, Copy, Debug)]
pub struct BruteForceField {
    /// Gravitational constant, milli-units.
    pub g: i64,
    /// Squared softening term, milli-units squared.
    pub eps2: i64,
}

impl BruteForceField {
    /// Configuration admissible for evaluation.
    pub open spec fn wf(self) -> bool {
        &&& 1 <= self.g <= MAX_G
        &&& 1 <= self.eps2 <= MAX_EPS2
    }

    /// The default configuration: `G = 1.0`, softening `0.01`.
    pub fn new() -> (r: BruteForceField)
        ensures
            r.g == SCALE,
            r.eps2 == 100,
            r.wf(),
    {
        BruteForceField { g: SCALE, eps2: 100 }
    }

    /// A checked custom configuration.
    pub fn with_config(g: i64, eps2: i64) -> (r: Result<BruteForceField, SimError>)
        ensures
            r is Ok <==> (1 <= g <= MAX_G && 1 <= eps2 <= MAX_EPS2),
            r matches Ok(fld) ==> fld == (BruteForceField { g, eps2 }) && fld.wf(),
            r matches Err(e) ==> e == SimError::OutOfRange,
    {
        if g < 1 || g > MAX_G || eps2 < 1 || eps2 > MAX_EPS2 {
            Err(SimError::OutOfRange)
        } else {
            Ok(BruteForceField { g, eps2 })
        }
    }

    /// One net force per body, index-aligned with the input, each the
    /// exact saturating sum of the pairwise kernel over all other bodies.
    pub fn compute_forces(&self, bodies: &Vec<Body>) -> (out: Vec<Vector>)
        requires
            self.wf(),
            bodies.len() <= MAX_BODIES,
            forall|k: int| 0 <= k < bodies.len() ==> (#[trigger] bodies[k]).wf(),
        ensures
            out.len() == bodies.len(),
            forall|i: int|
                0 <= i < bodies.len() ==> ((#[trigger] out[i]).dx as int, out[i].dy as int)
                    == net_force(self.g as int, self.eps2 as int, bodies@, i),
    {
        let n = bodies.len();
        let mut out: Vec<Vector> = Vec::new();
        let mut i: usize = 0;
        while i < n
            invariant
                self.wf(),
                n == bodies.len() <= MAX_BODIES,
                forall|k: int| 0 <= k < bodies.len() ==> (#[trigger] bodies[k]).wf(),
                out.len() == i,
                i <= n,
                forall|t: int|
                    0 <= t < i ==> ((#[trigger] out[t]).dx as int, out[t].dy as int)
                        == net_force(self.g as int, self.eps2 as int, bodies@, t),
            decreases n - i,
        {
            let bi = bodies[i];
            let mut fx: i64 = 0;
            let mut fy: i64 = 0;
            let mut j: usize = 0;
            while j < n
                invariant
                    self.wf(),
                    n == bodies.len() <= MAX_BODIES,
                    forall|k: int| 0 <= k < bodies.len() ==> (#[trigger] bodies[k]).wf(),
                    i < n,
                    bi == bodies[i as int],
                    j <= n,
                    (fx as int, fy as int) == net_force_upto(
                        self.g as int,
                        self.eps2 as int,
                        bodies@,
                        i as int,
                        j as int,
                    ),
                decreases n - j,
            {
                if j != i {
                    let bj = bodies[j];
                    let f = pair_kernel(
                        self.g,
                        self.eps2,
                        bi.mass.value(),
                        bj.mass.value() as i128,
                        bi.position.x,
                        bi.position.y,
                        bj.position.x,
                        bj.position.y,
                    );
                    fx = force_add(fx, f.0);
                    fy = force_add(fy, f.1);
                }
                j = j + 1;
            }
            out.push(Vector { dx: fx, dy: fy });
            i = i + 1;
        }
        out
    }
}

} // verus!
