use marble_gravity::builder::HierarchyBuilder;
use marble_gravity::chain::Step;
use marble_gravity::cost::cost_key;
use marble_gravity::spheretree::{Sphere, JOIN_COLOR, MAX_LEAVES, NO_CHILD};

#[derive(Clone, Copy, Debug, PartialEq)]
struct Ball {
    pos: [f32; 3],
    radius: f32,
}

fn bits(ball: &Ball) -> ([u32; 3], u32) {
    (
        [ball.pos[0].to_bits(), ball.pos[1].to_bits(), ball.pos[2].to_bits()],
        ball.radius.to_bits(),
    )
}

fn ball(sphere: &Sphere) -> Ball {
    Ball {
        pos: [
            f32::from_bits(sphere.pos[0]),
            f32::from_bits(sphere.pos[1]),
            f32::from_bits(sphere.pos[2]),
        ],
        radius: f32::from_bits(sphere.radius),
    }
}

fn leaf(ball: &Ball, color: u32) -> Sphere {
    let (pos, radius) = bits(ball);
    Sphere::leaf(pos, radius, color)
}

fn plain_leaves(n: usize) -> Vec<Sphere> {
    (0..n).map(|i| Sphere::leaf([0, 0, 0], 0, i as u32)).collect()
}

fn distance(a: &Ball, b: &Ball) -> f32 {
    let d = [a.pos[0] - b.pos[0], a.pos[1] - b.pos[1], a.pos[2] - b.pos[2]];
    (d[0] * d[0] + d[1] * d[1] + d[2] * d[2]).sqrt()
}

fn measure(a: &Ball, b: &Ball) -> f32 {
    let joined_radius = (distance(a, b) + a.radius + b.radius) / 2.0;
    joined_radius.powi(3) - a.radius.powi(3) - b.radius.powi(3)
}

fn join(a: &Ball, b: &Ball) -> Ball {
    let d = distance(a, b);
    let n = [
        (b.pos[0] - a.pos[0]) / d,
        (b.pos[1] - a.pos[1]) / d,
        (b.pos[2] - a.pos[2]) / d,
    ];
    let mut pos = [0.0f32; 3];
    for i in 0..3 {
        pos[i] = ((a.pos[i] - n[i] * a.radius) + (b.pos[i] + n[i] * b.radius)) / 2.0;
    }
    Ball { pos, radius: (d + a.radius + b.radius) / 2.0 }
}

fn build(leaves: &[Ball]) -> (Vec<Sphere>, Vec<Step>) {
    assert!(1 <= leaves.len() && leaves.len() <= MAX_LEAVES);
    let slots: Vec<Sphere> =
        leaves.iter().enumerate().map(|(i, b)| leaf(b, 0xff00_0000 + i as u32)).collect();
    let mut steps: Vec<Step> = Vec::new();
    let mut builder = HierarchyBuilder::new(slots);
    while !builder.is_done() {
        let current = builder.current();
        let mut costs: Vec<i64> = Vec::new();
        for i in 0..builder.len() {
            if i != current && builder.is_active(i) {
                let cost = measure(&ball(&builder.sphere(current)), &ball(&builder.sphere(i)));
                costs.push(cost_key(cost.to_bits()).expect("cost is a number"));
            } else {
                costs.push(0);
            }
        }
        let step = builder.advance(&costs);
        if let Step::Merged { left, right, node } = step {
            assert_eq!(node + 1, builder.len());
            let joined = join(&ball(&builder.sphere(left)), &ball(&builder.sphere(right)));
            let (pos, radius) = bits(&joined);
            builder.place(pos, radius);
        }
        steps.push(step);
        assert!(steps.len() < 100_000);
    }
    (builder.finish(), steps)
}

fn links(tree: &[Sphere]) -> Vec<(i32, i32)> {
    tree.iter().map(|s| (s.left, s.right)).collect()
}

fn assert_is_tree(tree: &[Sphere], leaves: usize) {
    assert!(leaves >= 1);
    assert_eq!(tree.len(), 2 * leaves - 1);
    let mut times_named = vec![0usize; tree.len()];
    for (k, slot) in tree.iter().enumerate() {
        if k < leaves {
            assert_eq!(slot.left, NO_CHILD);
            assert_eq!(slot.right, NO_CHILD);
            assert!(slot.is_leaf());
        } else {
            assert!(!slot.is_leaf());
            assert!(slot.left >= 0 && (slot.left as usize) < k);
            assert!(slot.right >= 0 && (slot.right as usize) < k);
            assert_ne!(slot.left, slot.right);
            assert_eq!(slot.color, JOIN_COLOR);
            times_named[slot.left as usize] += 1;
            times_named[slot.right as usize] += 1;
        }
    }
    for (i, times) in times_named.iter().enumerate() {
        if i + 1 == tree.len() {
            assert_eq!(*times, 0, "the root is nobody's child");
        } else {
            assert_eq!(*times, 1, "slot {} has one parent", i);
        }
    }
    let mut parent = vec![usize::MAX; tree.len()];
    for k in leaves..tree.len() {
        parent[tree[k].left as usize] = k;
        parent[tree[k].right as usize] = k;
    }
    for start in 0..tree.len() {
        let mut at = start;
        while at + 1 != tree.len() {
            assert!(parent[at] > at, "slot {} leads upwards", at);
            at = parent[at];
        }
    }
}

// The joined sphere spans the two outward tangent points, so it bounds both
// children as long as neither child lies inside the other.
fn assert_contains_children(tree: &[Sphere], leaves: usize) {
    let balls: Vec<Ball> = tree.iter().map(ball).collect();
    for k in leaves..tree.len() {
        let (a, b) = (tree[k].left as usize, tree[k].right as usize);
        let apart = distance(&balls[a], &balls[b]);
        if apart + balls[a].radius < balls[b].radius || apart + balls[b].radius < balls[a].radius {
            continue;
        }
        for child in [a, b] {
            let reach = distance(&balls[k], &balls[child]) + balls[child].radius;
            assert!(
                balls[k].radius >= reach - 1.0e-5 * balls[k].radius.max(1.0),
                "slot {} holds slot {}",
                k,
                child
            );
        }
    }
}

fn scattered(n: usize, seed: u64) -> Vec<Ball> {
    let mut state = seed;
    let mut next = move || {
        state = state.wrapping_mul(6364136223846793005).wrapping_add(1442695040888963407);
        ((state >> 40) as f32) / ((1u64 << 24) as f32)
    };
    (0..n)
        .map(|_| Ball {
            pos: [4.0 * next() - 2.0, 4.0 * next() - 2.0, 4.0 * next() - 2.0],
            radius: 0.03 * (0.8 * next() + 0.2),
        })
        .collect()
}

#[test]
fn single_leaf_is_its_own_root() {
    let only = Sphere::leaf([1, 2, 3], 4, 5);
    let builder = HierarchyBuilder::new(vec![only]);
    assert!(builder.is_done());
    assert_eq!(builder.leaves(), 1);
    assert_eq!(builder.len(), 1);
    assert!(builder.is_active(0));
    assert!(!builder.is_active(1));
    assert_eq!(builder.sphere(0), only);
    let tree = builder.finish();
    assert_eq!(
        tree,
        vec![Sphere { pos: [1, 2, 3], radius: 4, left: -1, right: -1, color: 5 }]
    );
    assert_is_tree(&tree, 1);
}

#[test]
fn two_leaves_take_two_rounds() {
    let a = Sphere::leaf([10, 11, 12], 13, 14);
    let b = Sphere::leaf([20, 21, 22], 23, 24);
    let mut builder = HierarchyBuilder::new(vec![a, b]);
    assert!(!builder.is_done());
    assert_eq!(builder.current(), 1);
    assert_eq!(builder.advance(&vec![5, 0]), Step::Extended { neighbor: 0 });
    assert_eq!(builder.len(), 2);
    assert_eq!(builder.current(), 0);
    assert_eq!(
        builder.advance(&vec![0, 5]),
        Step::Merged { left: 0, right: 1, node: 2 }
    );
    assert!(builder.is_done());
    assert!(!builder.is_active(0));
    assert!(!builder.is_active(1));
    assert!(builder.is_active(2));
    assert_eq!(
        builder.sphere(2),
        Sphere { pos: [0, 0, 0], radius: 0, left: 0, right: 1, color: 0 }
    );
    builder.place([30, 31, 32], 33);
    assert_eq!(
        builder.finish(),
        vec![a, b, Sphere { pos: [30, 31, 32], radius: 33, left: 0, right: 1, color: 0 }]
    );
}

#[test]
fn placing_touches_the_newest_slot_only() {
    let mut builder = HierarchyBuilder::new(plain_leaves(3));
    assert_eq!(builder.current(), 2);
    assert_eq!(builder.advance(&vec![1, 2, 0]), Step::Extended { neighbor: 0 });
    assert_eq!(builder.current(), 0);
    assert_eq!(
        builder.advance(&vec![0, 2, 1]),
        Step::Merged { left: 0, right: 2, node: 3 }
    );
    builder.place([7, 8, 9], 10);
    builder.place([1, 1, 1], 2);
    assert_eq!(builder.sphere(3), Sphere::branch(0, 2, [1, 1, 1], 2));
    for i in 0..3 {
        assert_eq!(builder.sphere(i), Sphere::leaf([0, 0, 0], 0, i as u32));
    }
    assert!(!builder.is_done());
    assert_eq!(builder.current(), 3);
}

#[test]
fn empty_chain_is_seeded_with_the_highest_active_slot() {
    let mut builder = HierarchyBuilder::new(plain_leaves(5));
    assert_eq!(builder.current(), 4);
    assert_eq!(builder.current(), 4);
}

#[test]
fn leaf_branch_and_placeholder() {
    assert_eq!(
        Sphere::leaf([1, 2, 3], 4, 5),
        Sphere { pos: [1, 2, 3], radius: 4, left: NO_CHILD, right: NO_CHILD, color: 5 }
    );
    assert!(Sphere::leaf([1, 2, 3], 4, 5).is_leaf());
    assert_eq!(
        Sphere::branch(3, 9, [6, 7, 8], 1),
        Sphere { pos: [6, 7, 8], radius: 1, left: 3, right: 9, color: JOIN_COLOR }
    );
    assert!(!Sphere::branch(3, 9, [0, 0, 0], 0).is_leaf());
    assert!(!Sphere { pos: [0, 0, 0], radius: 0, left: -1, right: 0, color: 0 }.is_leaf());
    assert_eq!(Sphere::branch(i32::MAX as usize, 0, [0, 0, 0], 0).left, i32::MAX);
    assert_eq!(
        Sphere::placeholder(),
        Sphere { pos: [0, 0, 0], radius: 0, left: 0, right: 0, color: 0 }
    );
    assert_eq!(JOIN_COLOR, 0);
    assert_eq!(NO_CHILD, -1);
}

#[test]
fn entries_that_were_joined_away_are_popped() {
    let far = 1000;
    let mut builder = HierarchyBuilder::new(plain_leaves(4));
    assert_eq!(builder.current(), 3);
    assert_eq!(builder.advance(&vec![far, far, 1, 0]), Step::Extended { neighbor: 2 });
    assert_eq!(builder.current(), 2);
    assert_eq!(builder.advance(&vec![1, 2, 0, far]), Step::Extended { neighbor: 0 });
    assert_eq!(builder.current(), 0);
    assert_eq!(builder.advance(&vec![0, 1, 2, far]), Step::Extended { neighbor: 1 });
    assert_eq!(builder.current(), 1);
    assert_eq!(builder.advance(&vec![2, 0, 1, far]), Step::Extended { neighbor: 2 });
    assert_eq!(builder.current(), 2);
    assert_eq!(
        builder.advance(&vec![2, 1, 0, far]),
        Step::Merged { left: 2, right: 1, node: 4 }
    );
    assert_eq!(builder.len(), 5);
    assert!(!builder.is_done());
    assert_eq!(builder.current(), 0);
    assert_eq!(builder.advance(&vec![0, 0, 0, far, 1]), Step::Extended { neighbor: 4 });
    assert_eq!(builder.current(), 4);
    assert_eq!(
        builder.advance(&vec![1, 0, 0, far, 0]),
        Step::Merged { left: 4, right: 0, node: 5 }
    );
    assert!(!builder.is_done());
    // the chain now holds 3 and, above it, slot 2, which was joined away
    assert_eq!(builder.current(), 3);
    assert_eq!(builder.advance(&vec![0, 0, 0, 0, 0, 7]), Step::Extended { neighbor: 5 });
    assert_eq!(builder.current(), 5);
    assert_eq!(
        builder.advance(&vec![0, 0, 0, 7, 0, 0]),
        Step::Merged { left: 5, right: 3, node: 6 }
    );
    assert!(builder.is_done());
    let tree = builder.finish();
    assert_eq!(
        links(&tree),
        vec![(-1, -1), (-1, -1), (-1, -1), (-1, -1), (2, 1), (4, 0), (5, 3)]
    );
    assert_is_tree(&tree, 4);
}

#[test]
fn settling_a_finished_build_names_the_root() {
    let mut builder = HierarchyBuilder::new(plain_leaves(3));
    assert_eq!(builder.current(), 2);
    assert_eq!(builder.advance(&vec![1, 2, 0]), Step::Extended { neighbor: 0 });
    assert_eq!(builder.current(), 0);
    assert_eq!(builder.advance(&vec![0, 1, 2]), Step::Extended { neighbor: 1 });
    assert_eq!(builder.current(), 1);
    assert_eq!(builder.advance(&vec![2, 0, 1]), Step::Extended { neighbor: 2 });
    assert_eq!(builder.current(), 2);
    assert_eq!(
        builder.advance(&vec![2, 1, 0]),
        Step::Merged { left: 2, right: 1, node: 3 }
    );
    assert_eq!(builder.current(), 0);
    assert_eq!(builder.advance(&vec![0, 0, 0, 4]), Step::Extended { neighbor: 3 });
    assert_eq!(builder.current(), 3);
    assert_eq!(
        builder.advance(&vec![4, 0, 0, 0]),
        Step::Merged { left: 3, right: 0, node: 4 }
    );
    assert!(builder.is_done());
    assert_eq!(builder.current(), 4);
    assert_eq!(builder.len(), 5);
}

#[test]
fn equal_costs_join_the_lowest_neighbour() {
    let mut builder = HierarchyBuilder::new(plain_leaves(4));
    assert_eq!(builder.current(), 3);
    assert_eq!(builder.advance(&vec![1, 1, 1, 1]), Step::Extended { neighbor: 0 });
    assert_eq!(builder.current(), 0);
    assert_eq!(builder.advance(&vec![1, 1, 1, 1]), Step::Extended { neighbor: 1 });
    assert_eq!(builder.current(), 1);
    assert_eq!(
        builder.advance(&vec![1, 1, 1, 1]),
        Step::Merged { left: 1, right: 0, node: 4 }
    );
}

#[test]
fn four_bodies_on_the_axes() {
    let leaves = [
        Ball { pos: [0.0, 0.0, 0.0], radius: 0.1 },
        Ball { pos: [1.0, 0.0, 0.0], radius: 0.1 },
        Ball { pos: [0.0, 1.0, 0.0], radius: 0.1 },
        Ball { pos: [0.0, 0.0, 1.0], radius: 0.1 },
    ];
    let (tree, steps) = build(&leaves);
    assert_eq!(tree.len(), 7);
    assert_eq!(
        steps,
        vec![
            Step::Extended { neighbor: 0 },
            Step::Extended { neighbor: 1 },
            Step::Merged { left: 1, right: 0, node: 4 },
            Step::Extended { neighbor: 2 },
            Step::Merged { left: 2, right: 3, node: 5 },
            Step::Extended { neighbor: 4 },
            Step::Merged { left: 4, right: 5, node: 6 },
        ]
    );
    assert_eq!(
        links(&tree),
        vec![(-1, -1), (-1, -1), (-1, -1), (-1, -1), (1, 0), (2, 3), (4, 5)]
    );
    assert_is_tree(&tree, 4);
    assert_contains_children(&tree, 4);
    assert!((ball(&tree[4]).radius - 0.6).abs() < 1.0e-6);
    assert!((ball(&tree[4]).pos[0] - 0.5).abs() < 1.0e-6);
    for i in 0..4 {
        assert_eq!(ball(&tree[i]), leaves[i]);
        assert_eq!(tree[i].color, 0xff00_0000 + i as u32);
    }
    for k in 4..7 {
        assert_eq!(tree[k].color, JOIN_COLOR);
    }
}

#[test]
fn same_leaves_give_the_same_tree() {
    for seed in [1u64, 2, 3, 77] {
        let leaves = scattered(40, seed);
        let (tree1, steps1) = build(&leaves);
        let (tree2, steps2) = build(&leaves);
        assert_eq!(tree1, tree2);
        assert_eq!(steps1, steps2);
    }
}

#[test]
fn scattered_leaves_give_a_tree() {
    for n in [1usize, 2, 3, 5, 8, 33, 256] {
        let leaves = scattered(n, 1000 + n as u64);
        let (tree, steps) = build(&leaves);
        assert_eq!(tree.len(), 2 * n - 1);
        assert_is_tree(&tree, n);
        assert_contains_children(&tree, n);
        for i in 0..n {
            assert_eq!(ball(&tree[i]), leaves[i]);
        }
        let joins = steps.iter().filter(|s| matches!(s, Step::Merged { .. })).count();
        assert_eq!(joins, n - 1);
    }
}

#[test]
fn joins_are_numbered_in_the_order_made() {
    let leaves = scattered(12, 5);
    let (tree, steps) = build(&leaves);
    let mut expected = 12;
    for step in steps {
        if let Step::Merged { left, right, node } = step {
            assert_eq!(node, expected);
            assert_eq!(tree[node].left, left as i32);
            assert_eq!(tree[node].right, right as i32);
            expected += 1;
        }
    }
    assert_eq!(expected, tree.len());
}
