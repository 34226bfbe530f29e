use simple_path_tracer::bvh::{
    any_leaf_hit, build_bvh, build_median_tree, fold_leaves, leaves_reached, split_at, BvhNode,
    SplitPlan,
};

fn leaves<B>(n: &BvhNode<B>, out: &mut Vec<(usize, usize)>) {
    match (&n.lc, &n.rc) {
        (Some(l), Some(r)) => {
            leaves(l, out);
            leaves(r, out);
        }
        _ => out.push((n.start, n.end)),
    }
}

#[test]
fn bvh_node_basics() {
    let n = BvhNode::new(3, 7, "box");
    assert_eq!(n.size(), 4);
    assert!(n.is_leaf());
    assert_eq!(n.bbox, "box");
}

#[test]
fn split_at_moves_left_bucket_primitives_first() {
    let mut prims = vec!['a', 'b', 'c', 'd', 'e', 'f'];
    // node [1, 5): b c d e; buckets: 0 -> {2, 4}, 1 -> {1}, 2 -> {3}
    let mut buckets = vec![vec![2, 4], vec![1], vec![3]];
    let (lc, rc) = split_at(1, 3, "L", "R", &mut buckets, &mut prims, 1, 5);
    assert_eq!((lc.start, lc.end, lc.bbox), (1, 3, "L"));
    assert_eq!((rc.start, rc.end, rc.bbox), (3, 5, "R"));
    assert!(lc.is_leaf() && rc.is_leaf());
    assert_eq!(prims[0], 'a');
    assert_eq!(prims[5], 'f');
    let mut left: Vec<char> = prims[1..3].to_vec();
    left.sort();
    assert_eq!(left, vec!['c', 'e']);
    let mut right: Vec<char> = prims[3..5].to_vec();
    right.sort();
    assert_eq!(right, vec!['b', 'd']);
    assert!(buckets.iter().all(|b| b.is_empty()));
}

#[test]
fn split_at_with_empty_buckets_keeps_order() {
    let mut prims = vec![1, 2, 3];
    let mut buckets: Vec<Vec<usize>> = vec![vec![], vec![]];
    let (lc, rc) = split_at(1, 2, (), (), &mut buckets, &mut prims, 0, 3);
    assert_eq!((lc.start, lc.end), (0, 0));
    assert_eq!((rc.start, rc.end), (0, 3));
    assert_eq!(prims, vec![1, 2, 3]);
}

#[test]
fn median_tree_shape() {
    let root = build_median_tree(10, 3, &|s: usize, e: usize| (s, e)).unwrap();
    assert_eq!(root.bbox, (0, 10));
    let mut out = vec![];
    leaves(&root, &mut out);
    assert_eq!(out, vec![(0, 2), (2, 3), (3, 5), (5, 7), (7, 8), (8, 10)]);
    assert!(build_median_tree(0, 3, &|s: usize, e: usize| (s, e)).is_none());
    let single = build_median_tree(2, 5, &|_s: usize, _e: usize| ()).unwrap();
    assert!(single.is_leaf());
}

#[test]
fn build_bvh_sorts_by_planner_buckets() {
    // primitives are numbers; the plan sends odd numbers left and even ones right
    let mut prims = vec![4, 1, 6, 3, 8, 5, 2];
    let plan = |v: &Vec<i32>, s: usize, e: usize, _b: &()| {
        let mut buckets = vec![vec![], vec![]];
        for i in s..e {
            // split by the bit that distinguishes the first differing power of two
            let key = if (e - s) == v.len() { v[i] % 2 } else { (v[i] / 2) % 2 };
            buckets[if key == 1 { 0 } else { 1 }].push(i);
        }
        SplitPlan { split: 1, bucket_number: 2, left_bbox: (), right_bbox: (), prim_indices: buckets }
    };
    let root = build_bvh(&mut prims, (), 1, &plan).unwrap();
    assert_eq!((root.start, root.end), (0, 7));
    let mut sorted = prims.clone();
    sorted.sort();
    assert_eq!(sorted, vec![1, 2, 3, 4, 5, 6, 8]);
    let mut first: Vec<i32> = prims[..4].to_vec();
    first.sort();
    assert_eq!(first, vec![1, 3, 5, 6]);
    let mut out = vec![];
    leaves(&root, &mut out);
    assert_eq!(out.first().unwrap().0, 0);
    assert_eq!(out.last().unwrap().1, 7);
    for w in out.windows(2) {
        assert_eq!(w[0].1, w[1].0);
    }
}

#[test]
fn build_bvh_splits_by_plan_that_lists_a_position_twice() {
    // the left bucket lists the node's first position twice: it counts once
    let mut prims = vec![1, 2, 3];
    let plan = |_v: &Vec<i32>, s: usize, _e: usize, _b: &()| SplitPlan {
        split: 1,
        bucket_number: 2,
        left_bbox: (),
        right_bbox: (),
        prim_indices: vec![vec![s, s], vec![]],
    };
    let root = build_bvh(&mut prims, (), 1, &plan).unwrap();
    let mut out = vec![];
    leaves(&root, &mut out);
    assert_eq!(out, vec![(0, 1), (1, 2), (2, 3)]);
    assert_eq!(prims, vec![1, 2, 3]);
    let mut empty: Vec<i32> = vec![];
    assert!(build_bvh(&mut empty, (), 1, &plan).is_none());
}

#[test]
fn split_at_with_unlisted_positions_trades_from_the_right_end() {
    // node [0, 6); left side lists {3, 5}, right side lists {0}; position 0 and 1
    // leave the left part, trading with 5 and then 4 (neither listed on the right)
    let mut prims = vec!['a', 'b', 'c', 'd', 'e', 'f'];
    let mut buckets = vec![vec![3], vec![5], vec![0]];
    let (lc, rc) = split_at(2, 3, "L", "R", &mut buckets, &mut prims, 0, 6);
    assert_eq!((lc.start, lc.end), (0, 2));
    assert_eq!((rc.start, rc.end), (2, 6));
    assert_eq!(prims, vec!['f', 'e', 'c', 'd', 'b', 'a']);
    assert!(buckets.iter().all(|b| b.is_empty()));
}

#[test]
fn split_at_passes_over_right_listed_positions() {
    // node [0, 6); left side lists {4}, right side lists {5}: position 0 trades
    // with 4, the first position from the right end that the right side does not list
    let mut prims = vec!['a', 'b', 'c', 'd', 'e', 'f'];
    let mut buckets = vec![vec![4], vec![5]];
    let (lc, rc) = split_at(1, 2, (), (), &mut buckets, &mut prims, 0, 6);
    assert_eq!((lc.start, lc.end, rc.start, rc.end), (0, 1, 1, 6));
    assert_eq!(prims, vec!['e', 'b', 'c', 'd', 'a', 'f']);
}

#[test]
fn build_bvh_keeps_leaf_for_plan_listing_a_position_on_both_sides() {
    let mut prims = vec![1, 2, 3, 4];
    let plan = |_v: &Vec<i32>, s: usize, _e: usize, _b: &()| SplitPlan {
        split: 1,
        bucket_number: 2,
        left_bbox: (),
        right_bbox: (),
        prim_indices: vec![vec![s], vec![s, s + 1]],
    };
    let root = build_bvh(&mut prims, (), 1, &plan).unwrap();
    assert!(root.is_leaf());
    assert_eq!(prims, vec![1, 2, 3, 4]);
}

#[test]
fn build_bvh_keeps_leaf_for_plan_listing_a_position_outside_the_node() {
    let mut prims = vec![1, 2, 3, 4];
    let plan = |_v: &Vec<i32>, _s: usize, e: usize, _b: &()| SplitPlan {
        split: 1,
        bucket_number: 2,
        left_bbox: (),
        right_bbox: (),
        prim_indices: vec![vec![e], vec![]],
    };
    let root = build_bvh(&mut prims, (), 1, &plan).unwrap();
    assert!(root.is_leaf());
    assert_eq!(prims, vec![1, 2, 3, 4]);
}

#[test]
fn build_bvh_small_node_stays_leaf() {
    let mut prims = vec![1, 2, 3];
    let plan = |_v: &Vec<i32>, _s: usize, _e: usize, _b: &()| -> SplitPlan<()> { panic!("no plan is needed") };
    let root = build_bvh(&mut prims, (), 3, &plan).unwrap();
    assert!(root.is_leaf());
}

#[test]
fn any_leaf_hit_prunes_by_box_and_finds_primitive() {
    // boxes are the node ranges; primitives at odd positions are hits
    let root = build_median_tree(8, 2, &|s: usize, e: usize| (s, e)).unwrap();
    let all_boxes = |_b: &(usize, usize)| true;
    assert!(any_leaf_hit(&root, &all_boxes, &|i: usize| i % 2 == 1));
    assert!(!any_leaf_hit(&root, &all_boxes, &|_i: usize| false));
    // only boxes inside [0, 2) are entered, but the root box is not
    let only_left = |b: &(usize, usize)| b.1 <= 2;
    assert!(!any_leaf_hit(&root, &only_left, &|_i: usize| true));
    // boxes that contain position 5 lead to it
    let around_five = |b: &(usize, usize)| b.0 <= 5 && 5 < b.1;
    assert!(any_leaf_hit(&root, &around_five, &|i: usize| i == 5));
    assert!(!any_leaf_hit(&root, &around_five, &|i: usize| i == 2));
}

#[test]
fn leaves_reached_lists_right_subtree_first() {
    // leaves (0,2) (2,3) (3,5) (5,7) (7,8) (8,10); boxes are the node ranges
    let root = build_median_tree(10, 3, &|s: usize, e: usize| (s, e)).unwrap();
    let all = leaves_reached(&root, &|_b: &(usize, usize)| true);
    assert_eq!(all, vec![8, 9, 7, 5, 6, 3, 4, 2, 0, 1]);
    // only nodes that overlap [4, 8)
    let some = leaves_reached(&root, &|b: &(usize, usize)| b.0 < 8 && b.1 > 4);
    assert_eq!(some, vec![7, 5, 6, 3, 4]);
    assert!(leaves_reached(&root, &|_b: &(usize, usize)| false).is_empty());
}

#[test]
fn fold_leaves_keeps_nearest_and_skips_farther_boxes() {
    // leaves (0,2) (2,3) (3,5) (5,7) (7,8) (8,10); box = range; hit distance of
    // position i is 10 - i for even i, none for odd i.
    let root = build_median_tree(10, 3, &|s: usize, e: usize| (s, e)).unwrap();
    let dist = |i: usize| if i % 2 == 0 { Some((10 - i) as u32) } else { None };
    let visited = std::cell::RefCell::new(vec![]);
    let enter = |_b: &(usize, usize), _best: &(u32, Option<usize>)| true;
    let visit = |best: (u32, Option<usize>), i: usize| {
        visited.borrow_mut().push(i);
        match dist(i) {
            Some(t) if t < best.0 => (t, Some(i)),
            _ => best,
        }
    };
    assert_eq!(fold_leaves(&root, (100, None), &enter, &visit), (2, Some(8)));
    assert_eq!(*visited.borrow(), vec![8, 9, 7, 5, 6, 3, 4, 2, 0, 1]);
    // once a hit is found, only boxes reaching past position 8 are entered
    visited.borrow_mut().clear();
    let enter = |b: &(usize, usize), best: &(u32, Option<usize>)| best.1.is_none() || b.1 > 8;
    assert_eq!(fold_leaves(&root, (100, None), &enter, &visit), (2, Some(8)));
    assert_eq!(*visited.borrow(), vec![8, 9]);
}

fn range_plan(v: &Vec<i32>, s: usize, e: usize, _b: &(i32, i32)) -> SplitPlan<(i32, i32)> {
    let lo = (s..e).map(|i| v[i]).min().unwrap();
    let hi = (s..e).map(|i| v[i]).max().unwrap();
    let pivot = lo + (hi - lo) / 2;
    let mut buckets = vec![vec![], vec![]];
    let mut boxes = [(i32::MAX, i32::MIN), (i32::MAX, i32::MIN)];
    for i in s..e {
        let side = if v[i] <= pivot { 0 } else { 1 };
        buckets[side].push(i);
        boxes[side] = (boxes[side].0.min(v[i]), boxes[side].1.max(v[i]));
    }
    SplitPlan { split: 1, bucket_number: 2, left_bbox: boxes[0], right_bbox: boxes[1], prim_indices: buckets }
}

#[test]
fn built_tree_search_agrees_with_testing_every_primitive() {
    let original = vec![7, 3, 9, 1, 12, 5, 8, 2, 10, 4];
    let mut prims = original.clone();
    let root = build_bvh(&mut prims, (1, 12), 2, &range_plan).unwrap();
    for t in -1..15 {
        let found = any_leaf_hit(&root, &|b: &(i32, i32)| b.0 <= t && t <= b.1, &|i: usize| prims[i] == t);
        assert_eq!(found, original.contains(&t), "target {}", t);
    }
}

#[test]
fn built_tree_fold_finds_closest_primitive() {
    let original = vec![7, 3, 9, 1, 12, 5, 8, 2, 10, 4];
    let mut prims = original.clone();
    let root = build_bvh(&mut prims, (1, 12), 2, &range_plan).unwrap();
    for q in -3..16 {
        let gap = |b: &(i32, i32)| if q < b.0 { b.0 - q } else if q > b.1 { q - b.1 } else { 0 };
        let enter = |b: &(i32, i32), best: &(i32, Option<usize>)| gap(b) < best.0;
        let visit = |best: (i32, Option<usize>), i: usize| {
            let d = (prims[i] - q).abs();
            if d < best.0 { (d, Some(i)) } else { best }
        };
        let (best, at) = fold_leaves(&root, (100, None), &enter, &visit);
        let expected = original.iter().map(|x| (x - q).abs()).min().unwrap();
        assert_eq!(best, expected, "query {}", q);
        assert_eq!((prims[at.unwrap()] - q).abs(), expected);
    }
}
