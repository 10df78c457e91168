//! The hierarchical force engine: a quadtree over body positions with
//! bottom-up mass aggregation and a traversal that substitutes a whole
//! subtree by its aggregate once it looks small and far enough.
//!
//! The tree is rebuilt from scratch for every evaluation and discarded
//! afterwards. A node is empty, a leaf holding one or more coincident
//! bodies, or an internal node with four lazily filled quadrants whose
//! stored aggregate (mass and mass-weighted position sums) provably
//! equals the sum over its whole subtree. Recursion depth is bounded;
//! once the budget is exhausted bodies merge into one leaf, so two
//! coincident bodies never cause unbounded subdivision.

use vstd::prelude::*;

use crate::force::{kernel, pair_kernel, MAX_AGG_MASS};
use crate::geometry::Vector;
use crate::num::{force_add, iabs, isqrt, sat_add, sqrt_floor};
use crate::num::{MAX_BODIES, MAX_COORD, MAX_DEPTH, MAX_EPS2, MAX_G, MAX_MASS, MAX_THETA};
use crate::physics::{Body, SimError};
use crate::SCALE;
use vstd::multiset::Multiset;

verus! {

broadcast use vstd::multiset::group_multiset_axioms;

/// Widest admissible half-width of a tree region.
pub const HALF_LIM: i64 = 4_000_000_000;

/// Bound on the coordinates of any region corner.
pub const REGION_LIM: i64 = 8_000_000_000;

/// One body as the tree stores it: mass, position, and the index of the
/// body in the evaluated collection, which is its identity.
#[derive(Clone, Copy, Debug)]
pub struct Item {
    pub mass: i64,
    pub x: i64,
    pub y: i64,
    pub idx: usize,
}

/// An item the tree accepts.
pub open spec fn item_ok(it: Item) -> bool {
    &&& 1 <= it.mass <= MAX_MASS
    &&& iabs(it.x as int) <= MAX_COORD as int
    &&& iabs(it.y as int) <= MAX_COORD as int
}

/// The spatial decomposition: empty region, leaf, or four quadrants
/// with a stored aggregate.
pub enum QuadTree {
    Empty,
    Leaf { items: Vec<Item> },
    Internal {
        half: i64,
        mass: i128,
        wx: i128,
        wy: i128,
        nw: Box<QuadTree>,
        ne: Box<QuadTree>,
        sw: Box<QuadTree>,
        se: Box<QuadTree>,
    },
}

/// Total mass of a sequence of items.
pub open spec fn items_mass(s: Seq<Item>) -> int
    decreases s.len(),
{
    if s.len() == 0 {
        0
    } else {
        items_mass(s.drop_last()) + s.last().mass
    }
}

/// Mass-weighted x sum of a sequence of items.
pub open spec fn items_wx(s: Seq<Item>) -> int
    decreases s.len(),
{
    if s.len() == 0 {
        0
    } else {
        items_wx(s.drop_last()) + s.last().mass * s.last().x
    }
}

/// Mass-weighted y sum of a sequence of items.
pub open spec fn items_wy(s: Seq<Item>) -> int
    decreases s.len(),
{
    if s.len() == 0 {
        0
    } else {
        items_wy(s.drop_last()) + s.last().mass * s.last().y
    }
}

/// Number of bodies in a subtree.
pub open spec fn count_of(t: QuadTree) -> nat
    decreases t,
{
    match t {
        QuadTree::Empty => 0,
        QuadTree::Leaf { items } => items.len() as nat,
        QuadTree::Internal { nw, ne, sw, se, .. } => count_of(*nw) + count_of(*ne) + count_of(
            *sw,
        ) + count_of(*se),
    }
}

/// The bodies a subtree holds, as a multiset of items: the tree is a
/// spatial rearrangement of exactly these, nothing lost or invented.
pub open spec fn items_mset(t: QuadTree) -> Multiset<Item>
    decreases t,
{
    match t {
        QuadTree::Empty => Multiset::<Item>::empty(),
        QuadTree::Leaf { items } => items@.to_multiset(),
        QuadTree::Internal { nw, ne, sw, se, .. } => items_mset(*nw).add(items_mset(*ne)).add(
            items_mset(*sw),
        ).add(items_mset(*se)),
    }
}

/// Total mass of a subtree, summed over its bodies.
pub open spec fn mass_of(t: QuadTree) -> int
    decreases t,
{
    match t {
        QuadTree::Empty => 0,
        QuadTree::Leaf { items } => items_mass(items@),
        QuadTree::Internal { nw, ne, sw, se, .. } => mass_of(*nw) + mass_of(*ne) + mass_of(*sw)
            + mass_of(*se),
    }
}

/// Mass-weighted x sum of a subtree.
pub open spec fn wx_of(t: QuadTree) -> int
    decreases t,
{
    match t {
        QuadTree::Empty => 0,
        QuadTree::Leaf { items } => items_wx(items@),
        QuadTree::Internal { nw, ne, sw, se, .. } => wx_of(*nw) + wx_of(*ne) + wx_of(*sw) + wx_of(
            *se,
        ),
    }
}

/// Mass-weighted y sum of a subtree.
pub open spec fn wy_of(t: QuadTree) -> int
    decreases t,
{
    match t {
        QuadTree::Empty => 0,
        QuadTree::Leaf { items } => items_wy(items@),
        QuadTree::Internal { nw, ne, sw, se, .. } => wy_of(*nw) + wy_of(*ne) + wy_of(*sw) + wy_of(
            *se,
        ),
    }
}

/// The aggregation invariant: leaves are nonempty with admissible items,
/// and every internal node's stored aggregate equals the sum over its
/// subtree.
pub open spec fn wf(t: QuadTree) -> bool
    decreases t,
{
    match t {
        QuadTree::Empty => true,
        QuadTree::Leaf { items } => {
            &&& items.len() >= 1
            &&& forall|k: int| 0 <= k < items.len() ==> item_ok(#[trigger] items[k])
        },
        QuadTree::Internal { half, mass, wx, wy, nw, ne, sw, se } => {
            &&& wf(*nw)
            &&& wf(*ne)
            &&& wf(*sw)
            &&& wf(*se)
            &&& 0 <= half <= HALF_LIM
            &&& mass == mass_of(*nw) + mass_of(*ne) + mass_of(*sw) + mass_of(*se)
            &&& wx == wx_of(*nw) + wx_of(*ne) + wx_of(*sw) + wx_of(*se)
            &&& wy == wy_of(*nw) + wy_of(*ne) + wy_of(*sw) + wy_of(*se)
        },
    }
}

/// Depth budget: an internal node needs at least one level left, and its
/// children live under one level less.
pub open spec fn depth_ok(t: QuadTree, depth: int) -> bool
    decreases t,
{
    match t {
        QuadTree::Empty => true,
        QuadTree::Leaf { .. } => true,
        QuadTree::Internal { nw, ne, sw, se, .. } => {
            &&& depth >= 1
            &&& depth_ok(*nw, depth - 1)
            &&& depth_ok(*ne, depth - 1)
            &&& depth_ok(*sw, depth - 1)
            &&& depth_ok(*se, depth - 1)
        },
    }
}

/// The aggregation invariant stated directly: in a well-formed tree the
/// stored aggregate of any internal node is the mass, and mass-weighted
/// position, of all bodies in its subtree.
pub proof fn lemma_aggregation_invariant(
    half: i64,
    mass: i128,
    wx: i128,
    wy: i128,
    nw: Box<QuadTree>,
    ne: Box<QuadTree>,
    sw: Box<QuadTree>,
    se: Box<QuadTree>,
)
    requires
        wf(QuadTree::Internal { half, mass, wx, wy, nw, ne, sw, se }),
    ensures
        mass == mass_of(QuadTree::Internal { half, mass, wx, wy, nw, ne, sw, se }),
        wx == wx_of(QuadTree::Internal { half, mass, wx, wy, nw, ne, sw, se }),
        wy == wy_of(QuadTree::Internal { half, mass, wx, wy, nw, ne, sw, se }),
{
}

/// Per-item bounds extend to whole sequences.
proof fn lemma_items_bounds(s: Seq<Item>)
    requires
        forall|k: int| 0 <= k < s.len() ==> item_ok(#[trigger] s[k]),
    ensures
        0 <= items_mass(s) <= s.len() * (MAX_MASS as int),
        iabs(items_wx(s)) <= items_mass(s) * (MAX_COORD as int),
        iabs(items_wy(s)) <= items_mass(s) * (MAX_COORD as int),
    decreases s.len(),
{
    if s.len() > 0 {
        lemma_items_bounds(s.drop_last());
        let it = s.last();
        assert(iabs(it.mass * it.x) <= it.mass * (MAX_COORD as int) && iabs(it.mass * it.y)
            <= it.mass * (MAX_COORD as int)) by (nonlinear_arith)
            requires
                item_ok(it),
        ;
        assert((items_mass(s.drop_last()) + it.mass) * (MAX_COORD as int) == items_mass(
            s.drop_last(),
        ) * (MAX_COORD as int) + it.mass * (MAX_COORD as int)) by (nonlinear_arith);
    }
}

/// Well-formedness bounds every aggregate by the subtree's body count.
proof fn lemma_tree_bounds(t: QuadTree)
    requires
        wf(t),
    ensures
        0 <= mass_of(t) <= count_of(t) * (MAX_MASS as int),
        iabs(wx_of(t)) <= mass_of(t) * (MAX_COORD as int),
        iabs(wy_of(t)) <= mass_of(t) * (MAX_COORD as int),
        count_of(t) >= 1 ==> mass_of(t) >= 1,
    decreases t,
{
    match t {
        QuadTree::Empty => {
        },
        QuadTree::Leaf { items } => {
            lemma_items_bounds(items@);
            lemma_items_mass_lower(items@);
        },
        QuadTree::Internal { nw, ne, sw, se, .. } => {
            lemma_tree_bounds(*nw);
            lemma_tree_bounds(*ne);
            lemma_tree_bounds(*sw);
            lemma_tree_bounds(*se);
            assert((count_of(*nw) + count_of(*ne) + count_of(*sw) + count_of(*se)) * (
            MAX_MASS as int) == count_of(*nw) * (MAX_MASS as int) + count_of(*ne) * (MAX_MASS as int)
                + count_of(*sw) * (MAX_MASS as int) + count_of(*se) * (MAX_MASS as int))
                by (nonlinear_arith);
            assert((mass_of(*nw) + mass_of(*ne) + mass_of(*sw) + mass_of(*se)) * (MAX_COORD as int)
                == mass_of(*nw) * (MAX_COORD as int) + mass_of(*ne) * (MAX_COORD as int) + mass_of(
                *sw,
            ) * (MAX_COORD as int) + mass_of(*se) * (MAX_COORD as int)) by (nonlinear_arith);
        },
    }
}

/// Inserts one item into a subtree occupying the square region with
/// center `(cx, cy)` and half-width `half`. An empty region becomes a
/// leaf; a leaf with budget left subdivides and redistributes; at
/// exhausted budget coincident bodies merge into the leaf; an internal
/// node routes the item to its quadrant and folds the item into its
/// stored aggregate on the way back up.
pub fn insert(t: QuadTree, cx: i64, cy: i64, half: i64, it: Item, depth: u32) -> (r: QuadTree)
    requires
        wf(t),
        depth_ok(t, depth as int),
        item_ok(it),
        count_of(t) < MAX_BODIES as nat,
        0 <= half <= HALF_LIM,
        -REGION_LIM <= cx - half,
        cx + half <= REGION_LIM,
        -REGION_LIM <= cy - half,
        cy + half <= REGION_LIM,
    ensures
        wf(r),
        depth_ok(r, depth as int),
        count_of(r) == count_of(t) + 1,
        mass_of(r) == mass_of(t) + it.mass,
        wx_of(r) == wx_of(t) + it.mass * it.x,
        wy_of(r) == wy_of(t) + it.mass * it.y,
        items_mset(r) == items_mset(t).insert(it),
        t is Empty ==> (r matches QuadTree::Leaf { items } && items@ == seq![it]),
    decreases depth, 1int,
{
    match t {
        QuadTree::Empty => {
            let items = vec![it];
            proof {
                assert(items@.len() == 1);
                assert(items@.last() == it);
                assert(items@.drop_last() =~= Seq::<Item>::empty());
                assert(items_mass(Seq::<Item>::empty()) == 0);
                assert(items_wx(Seq::<Item>::empty()) == 0);
                assert(items_wy(Seq::<Item>::empty()) == 0);
                assert(items@ =~= seq![it]);
                Seq::<Item>::empty().to_multiset_ensures();
                assert(Seq::<Item>::empty().to_multiset() =~= Multiset::<Item>::empty());
                assert(items@ =~= Seq::<Item>::empty().push(it));
                vstd::seq_lib::to_multiset_build::<Item>(Seq::empty(), it);
            }
            QuadTree::Leaf { items }
        },
        QuadTree::Leaf { items } => {
            if depth == 0 {
                let mut items = items;
                let ghost prev = items@;
                items.push(it);
                proof {
                    assert(items@.drop_last() =~= prev);
                    assert(items@.last() == it);
                    vstd::seq_lib::to_multiset_build::<Item>(prev, it);
                }
                QuadTree::Leaf { items }
            } else {
                let mut node = QuadTree::Internal {
                    half,
                    mass: 0,
                    wx: 0,
                    wy: 0,
                    nw: Box::new(QuadTree::Empty),
                    ne: Box::new(QuadTree::Empty),
                    sw: Box::new(QuadTree::Empty),
                    se: Box::new(QuadTree::Empty),
                };
                proof {
                    assert(wf(QuadTree::Empty));
                    assert(depth_ok(QuadTree::Empty, depth as int - 1));
                    assert(count_of(QuadTree::Empty) == 0);
                    assert(mass_of(QuadTree::Empty) == 0);
                    assert(wx_of(QuadTree::Empty) == 0);
                    assert(wy_of(QuadTree::Empty) == 0);
                    assert(items_mass(items@.take(0int)) == 0);
                    assert(items_wx(items@.take(0int)) == 0);
                    assert(items_wy(items@.take(0int)) == 0);
                    assert(wf(node));
                    assert(depth_ok(node, depth as int));
                    assert(items@.take(0int) =~= Seq::<Item>::empty());
                    assert(items_mset(QuadTree::Empty) == Multiset::<Item>::empty());
                    Seq::<Item>::empty().to_multiset_ensures();
                    assert(Seq::<Item>::empty().to_multiset() =~= Multiset::<Item>::empty());
                    assert(items_mset(node) =~= Multiset::<Item>::empty());
                }
                let n = items.len();
                let mut k: usize = 0;
                while k < n
                    invariant
                        n == items.len(),
                        n < MAX_BODIES,
                        k <= n,
                        forall|q: int| 0 <= q < items.len() ==> item_ok(#[trigger] items[q]),
                        item_ok(it),
                        depth >= 1,
                        0 <= half <= HALF_LIM,
                        -REGION_LIM <= cx - half,
                        cx + half <= REGION_LIM,
                        -REGION_LIM <= cy - half,
                        cy + half <= REGION_LIM,
                        node is Internal,
                        wf(node),
                        depth_ok(node, depth as int),
                        count_of(node) == k as nat,
                        mass_of(node) == items_mass(items@.take(k as int)),
                        wx_of(node) == items_wx(items@.take(k as int)),
                        wy_of(node) == items_wy(items@.take(k as int)),
                        items_mset(node) == items@.take(k as int).to_multiset(),
                    decreases n - k,
                {
                    let next = items[k];
                    node = internal_add(node, cx, cy, half, next, depth);
                    proof {
                        assert(items@.take(k + 1).drop_last() =~= items@.take(k as int));
                        assert(items@.take(k + 1).last() == items[k as int]);
                        assert(items@.take(k + 1) =~= items@.take(k as int).push(
                            items[k as int],
                        ));
                        vstd::seq_lib::to_multiset_build::<Item>(
                            items@.take(k as int),
                            items[k as int],
                        );
                    }
                    k = k + 1;
                }
                proof {
                    assert(items@.take(n as int) =~= items@);
                }
                internal_add(node, cx, cy, half, it, depth)
            }
        },
        QuadTree::Internal { half: h, mass, wx, wy, nw, ne, sw, se } => {
            let node = QuadTree::Internal { half: h, mass, wx, wy, nw, ne, sw, se };
            internal_add(node, cx, cy, half, it, depth)
        },
    }
}

/// Routes one item into the quadrant of an internal node holding it,
/// and updates the node's aggregate by the item's contribution.
fn internal_add(t: QuadTree, cx: i64, cy: i64, half: i64, it: Item, depth: u32) -> (r: QuadTree)
    requires
        t is Internal,
        wf(t),
        depth_ok(t, depth as int),
        item_ok(it),
        count_of(t) < MAX_BODIES as nat,
        0 <= half <= HALF_LIM,
        -REGION_LIM <= cx - half,
        cx + half <= REGION_LIM,
        -REGION_LIM <= cy - half,
        cy + half <= REGION_LIM,
    ensures
        r is Internal,
        wf(r),
        depth_ok(r, depth as int),
        count_of(r) == count_of(t) + 1,
        mass_of(r) == mass_of(t) + it.mass,
        wx_of(r) == wx_of(t) + it.mass * it.x,
        wy_of(r) == wy_of(t) + it.mass * it.y,
        items_mset(r) == items_mset(t).insert(it),
    decreases depth, 0int,
{
    match t {
        QuadTree::Internal { half: h, mass, wx, wy, nw, ne, sw, se } => {
            proof {
                lemma_tree_bounds(*nw);
                lemma_tree_bounds(*ne);
                lemma_tree_bounds(*sw);
                lemma_tree_bounds(*se);
                assert(count_of(*nw) * (MAX_MASS as int) + count_of(*ne) * (MAX_MASS as int)
                    + count_of(*sw) * (MAX_MASS as int) + count_of(*se) * (MAX_MASS as int) == (
                count_of(*nw) + count_of(*ne) + count_of(*sw) + count_of(*se)) * (MAX_MASS as int))
                    by (nonlinear_arith);
                assert((count_of(t) as int) * (MAX_MASS as int) <= (MAX_BODIES as int) * (
                MAX_MASS as int)) by (nonlinear_arith)
                    requires
                        count_of(t) as int <= MAX_BODIES as int,
                ;
                assert(mass_of(*nw) * (MAX_COORD as int) + mass_of(*ne) * (MAX_COORD as int)
                    + mass_of(*sw) * (MAX_COORD as int) + mass_of(*se) * (MAX_COORD as int) == (
                mass_of(*nw) + mass_of(*ne) + mass_of(*sw) + mass_of(*se)) * (MAX_COORD as int))
                    by (nonlinear_arith);
                assert((mass as int) * (MAX_COORD as int) <= 1_000_000_000_000_000_000_000_000)
                    by (nonlinear_arith)
                    requires
                        0 <= mass as int <= 1_000_000_000_000_000,
                ;
                assert(iabs((it.mass * it.x) as int) <= 1_000_000_000_000_000_000 && iabs(
                    (it.mass * it.y) as int,
                ) <= 1_000_000_000_000_000_000) by (nonlinear_arith)
                    requires
                        item_ok(it),
                ;
            }
            let wxd: i128 = (it.mass as i128) * (it.x as i128);
            let wyd: i128 = (it.mass as i128) * (it.y as i128);
            let qhalf = half / 2;
            let east = it.x >= cx;
            let north = it.y >= cy;
            let qcx = if east {
                cx + qhalf
            } else {
                cx - qhalf
            };
            let qcy = if north {
                cy + qhalf
            } else {
                cy - qhalf
            };
            let result = if north {
                if east {
                    let child = insert(*ne, qcx, qcy, qhalf, it, depth - 1);
                    QuadTree::Internal {
                        half: h,
                        mass: mass + (it.mass as i128),
                        wx: wx + wxd,
                        wy: wy + wyd,
                        nw,
                        ne: Box::new(child),
                        sw,
                        se,
                    }
                } else {
                    let child = insert(*nw, qcx, qcy, qhalf, it, depth - 1);
                    QuadTree::Internal {
                        half: h,
                        mass: mass + (it.mass as i128),
                        wx: wx + wxd,
                        wy: wy + wyd,
                        nw: Box::new(child),
                        ne,
                        sw,
                        se,
                    }
                }
            } else {
                if east {
                    let child = insert(*se, qcx, qcy, qhalf, it, depth - 1);
                    QuadTree::Internal {
                        half: h,
                        mass: mass + (it.mass as i128),
                        wx: wx + wxd,
                        wy: wy + wyd,
                        nw,
                        ne,
                        sw,
                        se: Box::new(child),
                    }
                } else {
                    let child = insert(*sw, qcx, qcy, qhalf, it, depth - 1);
                    QuadTree::Internal {
                        half: h,
                        mass: mass + (it.mass as i128),
                        wx: wx + wxd,
                        wy: wy + wyd,
                        nw,
                        ne,
                        sw: Box::new(child),
                        se,
                    }
                }
            };
            proof {
                assert(items_mset(result) =~= items_mset(t).insert(it));
            }
            result
        },
        _ => {
            // unreachable under the precondition
            proof {
                assert(false);
            }
            t
        },
    }
}

/// Truncating signed division of a weighted sum by a positive mass.
pub open spec fn com_div(w: int, m: int) -> int {
    if w < 0 {
        -((-w) / m)
    } else {
        w / m
    }
}

/// Force on a probe from the items of one leaf, skipping the probe's
/// own index, accumulated with saturating addition.
pub open spec fn leaf_force(
    s: Seq<Item>,
    g: int,
    eps2: int,
    mi: int,
    xi: int,
    yi: int,
    idx: int,
) -> (int, int)
    decreases s.len(),
{
    if s.len() == 0 {
        (0, 0)
    } else {
        let prev = leaf_force(s.drop_last(), g, eps2, mi, xi, yi, idx);
        let it = s.last();
        if it.idx == idx {
            prev
        } else {
            let f = kernel(g, eps2, mi, it.mass as int, xi, yi, it.x as int, it.y as int);
            (sat_add(prev.0, f.0), sat_add(prev.1, f.1))
        }
    }
}

/// Force on a probe from a whole subtree: leaves interact directly;
/// an internal node far and small enough (width / distance below theta)
/// acts as one point mass at its center of mass; otherwise its quadrants
/// are visited and their contributions summed.
pub open spec fn tree_force(
    t: QuadTree,
    g: int,
    eps2: int,
    theta: int,
    mi: int,
    xi: int,
    yi: int,
    idx: int,
) -> (int, int)
    decreases t,
{
    match t {
        QuadTree::Empty => (0, 0),
        QuadTree::Leaf { items } => leaf_force(items@, g, eps2, mi, xi, yi, idx),
        QuadTree::Internal { half, mass, wx, wy, nw, ne, sw, se } => {
            if mass <= 0 {
                (0, 0)
            } else {
                let cx = com_div(wx as int, mass as int);
                let cy = com_div(wy as int, mass as int);
                let dx = cx - xi;
                let dy = cy - yi;
                let d2 = dx * dx + dy * dy;
                if d2 > 0 && 2 * half * SCALE < theta * sqrt_floor(d2) {
                    kernel(g, eps2, mi, mass as int, xi, yi, cx, cy)
                } else {
                    let a = tree_force(*nw, g, eps2, theta, mi, xi, yi, idx);
                    let b = tree_force(*ne, g, eps2, theta, mi, xi, yi, idx);
                    let c = tree_force(*sw, g, eps2, theta, mi, xi, yi, idx);
                    let d = tree_force(*se, g, eps2, theta, mi, xi, yi, idx);
                    (
                        sat_add(sat_add(sat_add(a.0, b.0), c.0), d.0),
                        sat_add(sat_add(sat_add(a.1, b.1), c.1), d.1),
                    )
                }
            }
        },
    }
}

/// Executable traversal, exact with respect to `tree_force`.
#[verifier::rlimit(100)]
pub fn force_from(
    t: &QuadTree,
    g: i64,
    eps2: i64,
    theta: i64,
    mi: i64,
    xi: i64,
    yi: i64,
    idx: usize,
) -> (r: (i64, i64))
    requires
        wf(*t),
        count_of(*t) <= MAX_BODIES as nat,
        1 <= g <= MAX_G,
        1 <= eps2 <= MAX_EPS2,
        1 <= theta <= MAX_THETA,
        1 <= mi <= MAX_MASS,
        iabs(xi as int) <= MAX_COORD as int,
        iabs(yi as int) <= MAX_COORD as int,
    ensures
        (r.0 as int, r.1 as int) == tree_force(
            *t,
            g as int,
            eps2 as int,
            theta as int,
            mi as int,
            xi as int,
            yi as int,
            idx as int,
        ),
    decreases *t,
{
    match t {
        QuadTree::Empty => (0i64, 0i64),
        QuadTree::Leaf { items } => {
            let n = items.len();
            let mut fx: i64 = 0;
            let mut fy: i64 = 0;
            let mut k: usize = 0;
            proof {
                assert(items@.take(0int).len() == 0);
            }
            while k < n
                invariant
                    n == items.len(),
                    k <= n,
                    forall|q: int| 0 <= q < items.len() ==> item_ok(#[trigger] items[q]),
                    1 <= g <= MAX_G,
                    1 <= eps2 <= MAX_EPS2,
                    1 <= mi <= MAX_MASS,
                    iabs(xi as int) <= MAX_COORD as int,
                    iabs(yi as int) <= MAX_COORD as int,
                    (fx as int, fy as int) == leaf_force(
                        items@.take(k as int),
                        g as int,
                        eps2 as int,
                        mi as int,
                        xi as int,
                        yi as int,
                        idx as int,
                    ),
                decreases n - k,
            {
                let it = items[k];
                if it.idx != idx {
                    let f = pair_kernel(g, eps2, mi, it.mass as i128, xi, yi, it.x, it.y);
                    fx = force_add(fx, f.0);
                    fy = force_add(fy, f.1);
                }
                proof {
                    assert(items@.take(k + 1).drop_last() =~= items@.take(k as int));
                    assert(items@.take(k + 1).last() == items[k as int]);
                }
                k = k + 1;
            }
            proof {
                assert(items@.take(n as int) =~= items@);
            }
            (fx, fy)
        },
        QuadTree::Internal { half, mass, wx, wy, nw, ne, sw, se } => {
            if *mass <= 0 {
                (0i64, 0i64)
            } else {
                proof {
                    lemma_tree_bounds(*t);
                    assert((count_of(*t) as int) * (MAX_MASS as int) <= (MAX_BODIES as int) * (
                    MAX_MASS as int)) by (nonlinear_arith)
                        requires
                            count_of(*t) as int <= MAX_BODIES as int,
                    ;
                }
                let m128: i128 = *mass;
                let wxa: u128 = if *wx < 0 {
                    (-(*wx)) as u128
                } else {
                    (*wx) as u128
                };
                let wya: u128 = if *wy < 0 {
                    (-(*wy)) as u128
                } else {
                    (*wy) as u128
                };
                proof {
                    vstd::arithmetic::div_mod::lemma_div_is_ordered(
                        wxa as int,
                        mass_of(*t) * (MAX_COORD as int),
                        mass_of(*t),
                    );
                    vstd::arithmetic::div_mod::lemma_div_is_ordered(
                        wya as int,
                        mass_of(*t) * (MAX_COORD as int),
                        mass_of(*t),
                    );
                    vstd::arithmetic::mul::lemma_mul_is_commutative(
                        mass_of(*t),
                        MAX_COORD as int,
                    );
                    vstd::arithmetic::div_mod::lemma_div_by_multiple(
                        MAX_COORD as int,
                        mass_of(*t),
                    );
                    vstd::arithmetic::div_mod::lemma_div_pos_is_pos(wxa as int, mass_of(*t));
                    vstd::arithmetic::div_mod::lemma_div_pos_is_pos(wya as int, mass_of(*t));
                }
                let cxm: u128 = wxa / (m128 as u128);
                let cym: u128 = wya / (m128 as u128);
                let comx: i64 = if *wx < 0 {
                    -(cxm as i64)
                } else {
                    cxm as i64
                };
                let comy: i64 = if *wy < 0 {
                    -(cym as i64)
                } else {
                    cym as i64
                };
                assert(comx == com_div(*wx as int, *mass as int));
                assert(comy == com_div(*wy as int, *mass as int));
                let dxw: i128 = (comx as i128) - (xi as i128);
                let dyw: i128 = (comy as i128) - (yi as i128);
                let adx: u128 = if dxw < 0 {
                    (-dxw) as u128
                } else {
                    dxw as u128
                };
                let ady: u128 = if dyw < 0 {
                    (-dyw) as u128
                } else {
                    dyw as u128
                };
                proof {
                    assert(adx * adx == dxw * dxw && adx * adx <= 4_000_000_000_000_000_000)
                        by (nonlinear_arith)
                        requires
                            adx == iabs(dxw as int),
                            adx <= 2_000_000_000,
                    ;
                    assert(ady * ady == dyw * dyw && ady * ady <= 4_000_000_000_000_000_000)
                        by (nonlinear_arith)
                        requires
                            ady == iabs(dyw as int),
                            ady <= 2_000_000_000,
                    ;
                }
                let d2: u128 = adx * adx + ady * ady;
                let d: u64 = isqrt(d2);
                proof {
                    assert(0 <= *half <= HALF_LIM);
                    crate::num::lemma_sqrt_floor(d2 as int);
                    assert(d <= 3_000_000_000) by (nonlinear_arith)
                        requires
                            d >= 0,
                            (d as int) * (d as int) <= d2,
                            d2 <= 9_000_000_000_000_000_000,
                    ;
                    assert((theta as i128) * (d as i128) <= 30_000_000_000_000_000)
                        by (nonlinear_arith)
                        requires
                            1 <= (theta as i128) <= 10_000_000,
                            0 <= (d as i128) <= 3_000_000_000,
                    ;
                }
                let s2: i128 = (*half as i128) * (2 * SCALE as i128);
                proof {
                    assert(s2 == 2 * (*half as int) * (SCALE as int)) by (nonlinear_arith)
                        requires
                            s2 == (*half as int) * (2 * SCALE as int),
                            SCALE == 1000,
                    ;
                }
                let far = d2 > 0 && s2 < (theta as i128) * (d as i128);
                if far {
                    pair_kernel(g, eps2, mi, m128, xi, yi, comx, comy)
                } else {
                    let a = force_from(nw, g, eps2, theta, mi, xi, yi, idx);
                    let b = force_from(ne, g, eps2, theta, mi, xi, yi, idx);
                    let c = force_from(sw, g, eps2, theta, mi, xi, yi, idx);
                    let e = force_from(se, g, eps2, theta, mi, xi, yi, idx);
                    let fx = force_add(force_add(force_add(a.0, b.0), c.0), e.0);
                    let fy = force_add(force_add(force_add(a.1, b.1), c.1), e.1);
                    (fx, fy)
                }
            }
        },
    }
}

/// Total mass of a body collection.
pub open spec fn total_mass(s: Seq<Body>) -> int
    decreases s.len(),
{
    if s.len() == 0 {
        0
    } else {
        total_mass(s.drop_last()) + s.last().mass.spec_value()
    }
}

/// Mass-weighted x sum of a body collection.
pub open spec fn total_wx(s: Seq<Body>) -> int
    decreases s.len(),
{
    if s.len() == 0 {
        0
    } else {
        total_wx(s.drop_last()) + s.last().mass.spec_value() * s.last().position.x
    }
}

/// Mass-weighted y sum of a body collection.
pub open spec fn total_wy(s: Seq<Body>) -> int
    decreases s.len(),
{
    if s.len() == 0 {
        0
    } else {
        total_wy(s.drop_last()) + s.last().mass.spec_value() * s.last().position.y
    }
}

/// The items a body collection induces: its bodies' mass and position,
/// each under its index.
pub open spec fn body_items(s: Seq<Body>) -> Seq<Item> {
    Seq::new(
        s.len(),
        |i: int|
            Item {
                mass: s[i].mass.spec_value() as i64,
                x: s[i].position.x,
                y: s[i].position.y,
                idx: i as usize,
            },
    )
}

/// Builds the tree for one evaluation: a padded bounding square around
/// all bodies, then one insertion per body. The tree holds exactly the
/// collection's items and aggregates exactly its total mass and
/// weighted position sums.
pub fn build(bodies: &Vec<Body>, max_depth: u32) -> (t: QuadTree)
    requires
        bodies.len() <= MAX_BODIES,
        forall|k: int| 0 <= k < bodies.len() ==> (#[trigger] bodies[k]).wf(),
    ensures
        wf(t),
        depth_ok(t, max_depth as int),
        count_of(t) == bodies.len(),
        mass_of(t) == total_mass(bodies@),
        wx_of(t) == total_wx(bodies@),
        wy_of(t) == total_wy(bodies@),
        items_mset(t) == body_items(bodies@).to_multiset(),
        bodies.len() == 1 ==> (t matches QuadTree::Leaf { items } && items@.len() == 1
            && items@[0].idx == 0),
{
    let n = bodies.len();
    if n == 0 {
        proof {
            assert(total_mass(bodies@) == 0);
            assert(total_wx(bodies@) == 0);
            assert(total_wy(bodies@) == 0);
            assert(body_items(bodies@) =~= Seq::<Item>::empty());
            Seq::<Item>::empty().to_multiset_ensures();
            assert(Seq::<Item>::empty().to_multiset() =~= Multiset::<Item>::empty());
        }
        return QuadTree::Empty;
    }
    let first = bodies[0];
    let mut minx: i64 = first.position.x;
    let mut maxx: i64 = first.position.x;
    let mut miny: i64 = first.position.y;
    let mut maxy: i64 = first.position.y;
    let mut i: usize = 1;
    while i < n
        invariant
            n == bodies.len(),
            forall|k: int| 0 <= k < bodies.len() ==> (#[trigger] bodies[k]).wf(),
            1 <= i <= n,
            -MAX_COORD <= minx <= maxx <= MAX_COORD,
            -MAX_COORD <= miny <= maxy <= MAX_COORD,
        decreases n - i,
    {
        let b = bodies[i];
        if b.position.x < minx {
            minx = b.position.x;
        }
        if b.position.x > maxx {
            maxx = b.position.x;
        }
        if b.position.y < miny {
            miny = b.position.y;
        }
        if b.position.y > maxy {
            maxy = b.position.y;
        }
        i = i + 1;
    }
    let cx = minx / 2 + maxx / 2;
    let cy = miny / 2 + maxy / 2;
    let spanx = maxx - minx;
    let spany = maxy - miny;
    let span = if spanx > spany {
        spanx
    } else {
        spany
    };
    let half = span / 2 + 2;
    let mut t = QuadTree::Empty;
    let mut i: usize = 0;
    proof {
        assert(total_mass(bodies@.take(0int)) == 0);
        assert(total_wx(bodies@.take(0int)) == 0);
        assert(total_wy(bodies@.take(0int)) == 0);
        assert(body_items(bodies@).take(0int) =~= Seq::<Item>::empty());
        Seq::<Item>::empty().to_multiset_ensures();
        assert(Seq::<Item>::empty().to_multiset() =~= Multiset::<Item>::empty());
        assert(items_mset(QuadTree::Empty) == Multiset::<Item>::empty());
    }
    while i < n
        invariant
            n == bodies.len() <= MAX_BODIES,
            forall|k: int| 0 <= k < bodies.len() ==> (#[trigger] bodies[k]).wf(),
            i <= n,
            0 <= half <= HALF_LIM,
            -REGION_LIM <= cx - half,
            cx + half <= REGION_LIM,
            -REGION_LIM <= cy - half,
            cy + half <= REGION_LIM,
            wf(t),
            depth_ok(t, max_depth as int),
            count_of(t) == i as nat,
            mass_of(t) == total_mass(bodies@.take(i as int)),
            wx_of(t) == total_wx(bodies@.take(i as int)),
            wy_of(t) == total_wy(bodies@.take(i as int)),
            items_mset(t) == body_items(bodies@).take(i as int).to_multiset(),
            i == 0 ==> t is Empty,
            i == 1 ==> (t matches QuadTree::Leaf { items } && items@.len() == 1 && items@[0].idx
                == 0),
        decreases n - i,
    {
        let b = bodies[i];
        let it = Item { mass: b.mass.value(), x: b.position.x, y: b.position.y, idx: i };
        t = insert(t, cx, cy, half, it, max_depth);
        proof {
            assert(bodies@.take(i + 1).drop_last() =~= bodies@.take(i as int));
            assert(bodies@.take(i + 1).last() == bodies[i as int]);
            assert(it == body_items(bodies@)[i as int]);
            assert(body_items(bodies@).take(i + 1) =~= body_items(bodies@).take(i as int).push(
                body_items(bodies@)[i as int],
            ));
            vstd::seq_lib::to_multiset_build::<Item>(
                body_items(bodies@).take(i as int),
                body_items(bodies@)[i as int],
            );
        }
        i = i + 1;
    }
    proof {
        assert(bodies@.take(n as int) =~= bodies@);
        assert(body_items(bodies@).take(n as int) =~= body_items(bodies@));
    }
    t
}

/// The hierarchical approximate field, the preferred variant.
#[derive(Clone, Copy, Debug)]
pub struct BHField {
    /// Gravitational constant, milli-units.
    pub g: i64,
    /// Squared softening term, milli-units squared.
    pub eps2: i64,
    /// Accuracy parameter theta, milli-units; aggregates substitute for
    /// subtrees whose width-to-distance ratio falls below it.
    pub theta: i64,
    /// Subdivision budget for the tree.
    pub max_depth: u32,
}

impl BHField {
    /// Configuration admissible for evaluation.
    pub open spec fn wf(self) -> bool {
        &&& 1 <= self.g <= MAX_G
        &&& 1 <= self.eps2 <= MAX_EPS2
        &&& 1 <= self.theta <= MAX_THETA
        &&& 1 <= self.max_depth <= MAX_DEPTH
    }

    /// The default configuration: `G = 1.0`, softening `0.01`,
    /// `theta = 0.5`, full depth budget.
    pub fn new() -> (r: BHField)
        ensures
            r.g == SCALE,
            r.eps2 == 100,
            r.theta == 500,
            r.max_depth == MAX_DEPTH,
            r.wf(),
    {
        BHField { g: SCALE, eps2: 100, theta: 500, max_depth: MAX_DEPTH }
    }

    /// A checked custom configuration; a non-positive theta is a
    /// rejected precondition, out-of-range values are rejected as such.
    pub fn with_config(g: i64, eps2: i64, theta: i64, max_depth: u32) -> (r: Result<
        BHField,
        SimError,
    >)
        ensures
            theta <= 0 ==> r == Result::<BHField, SimError>::Err(SimError::NonPositiveTheta),
            r is Ok <==> {
                &&& 1 <= g <= MAX_G
                &&& 1 <= eps2 <= MAX_EPS2
                &&& 1 <= theta <= MAX_THETA
                &&& 1 <= max_depth <= MAX_DEPTH
            },
            r matches Ok(fld) ==> fld == (BHField { g, eps2, theta, max_depth }) && fld.wf(),
            r matches Err(e) ==> (e == SimError::NonPositiveTheta || e == SimError::OutOfRange),
    {
        if theta <= 0 {
            Err(SimError::NonPositiveTheta)
        } else if g < 1 || g > MAX_G || eps2 < 1 || eps2 > MAX_EPS2 || theta > MAX_THETA
            || max_depth < 1 || max_depth > MAX_DEPTH {
            Err(SimError::OutOfRange)
        } else {
            Ok(BHField { g, eps2, theta, max_depth })
        }
    }

    /// One net force per body, index-aligned with the input: each output
    /// is the tree traversal's result against a well-formed tree holding
    /// the collection's full mass and weighted position sums — the tree
    /// `build` makes. With at most one body every force is zero.
    pub fn compute_forces(&self, bodies: &Vec<Body>) -> (out: Vec<Vector>)
        requires
            self.wf(),
            bodies.len() <= MAX_BODIES,
            forall|k: int| 0 <= k < bodies.len() ==> (#[trigger] bodies[k]).wf(),
        ensures
            out.len() == bodies.len(),
            bodies.len() <= 1 ==> forall|i: int|
                0 <= i < out.len() ==> (#[trigger] out[i]).dx == 0 && out[i].dy == 0,
            exists|t: QuadTree|
                {
                    &&& #[trigger] wf(t)
                    &&& depth_ok(t, self.max_depth as int)
                    &&& count_of(t) == bodies.len()
                    &&& mass_of(t) == total_mass(bodies@)
                    &&& wx_of(t) == total_wx(bodies@)
                    &&& wy_of(t) == total_wy(bodies@)
                    &&& items_mset(t) == body_items(bodies@).to_multiset()
                    &&& forall|i: int|
                        0 <= i < bodies.len() ==> ((#[trigger] out[i]).dx as int, out[i].dy as int)
                            == tree_force(
                            t,
                            self.g as int,
                            self.eps2 as int,
                            self.theta as int,
                            bodies[i].mass.spec_value(),
                            bodies[i].position.x as int,
                            bodies[i].position.y as int,
                            i,
                        )
                },
    {
        let n = bodies.len();
        let t = build(bodies, self.max_depth);
        let mut out: Vec<Vector> = Vec::new();
        let mut i: usize = 0;
        while i < n
            invariant
                self.wf(),
                n == bodies.len() <= MAX_BODIES,
                forall|k: int| 0 <= k < bodies.len() ==> (#[trigger] bodies[k]).wf(),
                wf(t),
                depth_ok(t, self.max_depth as int),
                count_of(t) == n as nat,
                mass_of(t) == total_mass(bodies@),
                wx_of(t) == total_wx(bodies@),
                wy_of(t) == total_wy(bodies@),
                items_mset(t) == body_items(bodies@).to_multiset(),
                out.len() == i,
                i <= n,
                forall|q: int|
                    0 <= q < i ==> ((#[trigger] out[q]).dx as int, out[q].dy as int) == tree_force(
                        t,
                        self.g as int,
                        self.eps2 as int,
                        self.theta as int,
                        bodies[q].mass.spec_value(),
                        bodies[q].position.x as int,
                        bodies[q].position.y as int,
                        q,
                    ),
            decreases n - i,
        {
            let b = bodies[i];
            let f = force_from(
                &t,
                self.g,
                self.eps2,
                self.theta,
                b.mass.value(),
                b.position.x,
                b.position.y,
                i,
            );
            out.push(Vector { dx: f.0, dy: f.1 });
            i = i + 1;
        }
        proof {
            if n == 1 {
                match t {
                    QuadTree::Leaf { items } => {
                        assert(items@.len() == 1);
                        assert(items@[0].idx == 0);
                        assert(items@.last() == items@[0]);
                        assert(items@.drop_last() =~= Seq::<Item>::empty());
                        assert(leaf_force(
                            Seq::<Item>::empty(),
                            self.g as int,
                            self.eps2 as int,
                            bodies@[0].mass.spec_value(),
                            bodies@[0].position.x as int,
                            bodies@[0].position.y as int,
                            0,
                        ) == (0int, 0int));
                    },
                    _ => {
                        assert(false);
                    },
                }
            }
        }
        out
    }
}

/// A nonempty admissible item sequence has mass at least one per item.
proof fn lemma_items_mass_lower(s: Seq<Item>)
    requires
        forall|k: int| 0 <= k < s.len() ==> item_ok(#[trigger] s[k]),
    ensures
        items_mass(s) >= s.len(),
    decreases s.len(),
{
    if s.len() > 0 {
        lemma_items_mass_lower(s.drop_last());
    }
}

} // verus!
