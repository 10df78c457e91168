use nbody::barneshut::{build, force_from, QuadTree};
use nbody::geometry::{Point, Vector};
use nbody::physics::Body;

fn body(mass: i64, x: i64, y: i64) -> Body {
    Body::new(mass, Point::new(x, y), Vector::zero()).expect("admissible body")
}

// Walks a tree and returns (count, mass, wx, wy) of the subtree,
// checking on every internal node that the stored aggregate equals the
// sum over its children.
fn check_aggregates(t: &QuadTree) -> (usize, i128, i128, i128) {
    match t {
        QuadTree::Empty => (0, 0, 0, 0),
        QuadTree::Leaf { items } => {
            assert!(!items.is_empty());
            let mut mass: i128 = 0;
            let mut wx: i128 = 0;
            let mut wy: i128 = 0;
            for it in items {
                mass += it.mass as i128;
                wx += (it.mass as i128) * (it.x as i128);
                wy += (it.mass as i128) * (it.y as i128);
            }
            (items.len(), mass, wx, wy)
        }
        QuadTree::Internal { mass, wx, wy, nw, ne, sw, se, .. } => {
            let mut count: usize = 0;
            let mut m: i128 = 0;
            let mut x: i128 = 0;
            let mut y: i128 = 0;
            for child in [nw.as_ref(), ne.as_ref(), sw.as_ref(), se.as_ref()] {
                let (c, cm, cx, cy) = check_aggregates(child);
                count += c;
                m += cm;
                x += cx;
                y += cy;
            }
            assert_eq!(*mass, m, "aggregate mass off");
            assert_eq!(*wx, x, "aggregate weighted x off");
            assert_eq!(*wy, y, "aggregate weighted y off");
            (count, m, x, y)
        }
    }
}

#[test]
fn aggregates_match_subtree_sums_on_random_bodies() {
    let mut seed: u64 = 7;
    let mut bodies = Vec::new();
    for i in 0..64 {
        seed = seed.wrapping_mul(6364136223846793005).wrapping_add(1442695040888963407);
        let x = ((seed >> 16) % 2_000_000) as i64 - 1_000_000;
        seed = seed.wrapping_mul(6364136223846793005).wrapping_add(1442695040888963407);
        let y = ((seed >> 16) % 2_000_000) as i64 - 1_000_000;
        bodies.push(body(500 + (i as i64) * 37, x, y));
    }
    let tree = build(&bodies, 64);
    let (count, mass, wx, wy) = check_aggregates(&tree);
    assert_eq!(count, bodies.len());
    let expect_mass: i128 = bodies.iter().map(|b| b.mass.value() as i128).sum();
    let expect_wx: i128 = bodies
        .iter()
        .map(|b| (b.mass.value() as i128) * (b.position.x as i128))
        .sum();
    let expect_wy: i128 = bodies
        .iter()
        .map(|b| (b.mass.value() as i128) * (b.position.y as i128))
        .sum();
    assert_eq!(mass, expect_mass);
    assert_eq!(wx, expect_wx);
    assert_eq!(wy, expect_wy);
}

#[test]
fn coincident_bodies_merge_at_depth_cap() {
    let bodies = vec![body(1_000, 5, 5), body(2_000, 5, 5), body(3_000, 5, 5)];
    let tree = build(&bodies, 8);
    let (count, mass, _, _) = check_aggregates(&tree);
    assert_eq!(count, 3);
    assert_eq!(mass, 6_000);
}

#[test]
fn traversal_skips_the_probe_itself() {
    let bodies = vec![body(1_000, 0, 0)];
    let tree = build(&bodies, 64);
    let f = force_from(&tree, 1_000, 100, 500, 1_000, 0, 0, 0);
    assert_eq!(f, (0, 0));
    // a foreign probe at the same spot is coincident: no directed force
    let f = force_from(&tree, 1_000, 100, 500, 1_000, 0, 0, 1);
    assert_eq!(f, (0, 0));
    // a foreign probe elsewhere is attracted toward the body
    let f = force_from(&tree, 1_000, 100, 500, 1_000, -1_000, 0, 1);
    assert!(f.0 > 0);
    assert_eq!(f.1, 0);
}

#[test]
fn empty_build_yields_empty_tree() {
    let bodies: Vec<Body> = Vec::new();
    let tree = build(&bodies, 64);
    assert!(matches!(tree, QuadTree::Empty));
}
