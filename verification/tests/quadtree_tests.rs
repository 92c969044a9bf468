use quadtree::{Boundable, Quadtree, QuadtreeError, Rect, Rectangle};

fn rect(north: i64, east: i64, south: i64, west: i64) -> Rect {
    Rect { north, east, south, west }
}

/// A rectangle at position (x, y) with the given extents, as its edges.
fn placed(x: i64, y: i64, width: i64, height: i64) -> Rect {
    rect(y, x + width, y - height, x)
}

fn full_query(tree: &Quadtree) -> Vec<Rect> {
    let mut out: Vec<Rect> = Vec::new();
    let probe = tree.boundary();
    let result = tree.get_rect(&probe, &mut out);
    assert!(result.is_ok());
    out
}

#[test]
fn rectangle_edges() {
    let r = Rectangle::new(1, 1, 2, 2);
    assert_eq!(r.north_edge(), 1);
    assert_eq!(r.east_edge(), 3);
    assert_eq!(r.south_edge(), -1);
    assert_eq!(r.west_edge(), 1);
}

#[test]
fn boundary_reports_the_four_edges() {
    let tree = Quadtree::new(-200, 200, 400, 400);
    assert_eq!(tree.boundary(), rect(200, 200, -200, -200));
}

#[test]
fn empty_tree_full_query_finds_nothing() {
    let tree = Quadtree::new(-10, 10, 20, 20);
    assert_eq!(full_query(&tree).len(), 0);
}

#[test]
fn containment_round_trip() {
    let mut tree = Quadtree::new(-100, 100, 200, 200);
    let object = placed(30, 80, 10, 10);
    assert!(tree.insert_rect(object).is_ok());
    let found = full_query(&tree);
    assert_eq!(found.iter().filter(|r| **r == object).count(), 1);
}

#[test]
fn out_of_bounds_insert_is_rejected_and_changes_nothing() {
    let mut tree = Quadtree::new(-10, 10, 20, 20);
    assert!(tree.insert_rect(placed(-1, 1, 2, 2)).is_ok());
    let oversized = Rectangle::new(5, 5, 100, 100);
    assert_eq!(tree.insert(&oversized), Err(QuadtreeError::OutOfBounds));
    assert_eq!(tree.insert_rect(rect(300, 1, -1, 0)), Err(QuadtreeError::OutOfBounds));
    assert_eq!(full_query(&tree).len(), 1);
}

#[test]
fn disjoint_probe_fails_and_leaves_output_untouched() {
    let mut tree = Quadtree::new(-10, 10, 20, 20);
    assert!(tree.insert_rect(placed(-1, 1, 2, 2)).is_ok());
    let sentinel = rect(999, 999, 999, 999);
    let mut out = vec![sentinel];
    let far_probe = placed(100, 100, 5, 5);
    assert_eq!(tree.get_rect(&far_probe, &mut out), Err(QuadtreeError::NoOverlap));
    assert_eq!(out, vec![sentinel]);
}

#[test]
fn probe_touching_an_edge_overlaps() {
    let tree = Quadtree::new(-10, 10, 20, 20);
    // Shares only the eastern edge with the tree's bounds: not disjoint.
    let touching = rect(5, 12, -5, 10);
    let mut out: Vec<Rect> = Vec::new();
    assert!(tree.get_rect(&touching, &mut out).is_ok());
    assert_eq!(out.len(), 0);
}

#[test]
fn no_duplication_count_matches_successful_inserts() {
    let mut tree = Quadtree::new(-100, 100, 200, 200);
    let objects = [
        placed(10, 90, 5, 5),    // northeast region
        placed(-90, 90, 5, 5),   // northwest region
        placed(10, -10, 5, 5),   // southeast region
        placed(-90, -10, 5, 5),  // southwest region
        placed(-2, 2, 4, 4),     // straddles the centre: rests at the root
        placed(10, 90, 5, 5),    // duplicate of the first
    ];
    let mut accepted: usize = 0;
    for object in objects {
        if tree.insert_rect(object).is_ok() {
            accepted += 1;
        }
    }
    assert_eq!(tree.insert_rect(placed(400, 0, 1, 1)), Err(QuadtreeError::OutOfBounds));
    let found = full_query(&tree);
    assert_eq!(found.len(), accepted);
    assert_eq!(found.iter().filter(|r| **r == objects[0]).count(), 2);
    assert_eq!(found.iter().filter(|r| **r == objects[4]).count(), 1);
}

#[test]
fn object_spanning_the_whole_bounds_rests_at_the_root() {
    let mut tree = Quadtree::new(-10, 10, 20, 20);
    let whole = rect(10, 10, -10, -10);
    assert!(tree.insert_rect(whole).is_ok());
    let found = full_query(&tree);
    assert_eq!(found, vec![whole]);
}

#[test]
fn contents_are_gated_by_node_bounds_not_by_the_object() {
    let mut tree = Quadtree::new(-10, 10, 20, 20);
    // Straddles the centre split, so it rests in the root's own contents.
    let straddler = placed(-1, 1, 2, 2);
    assert!(tree.insert_rect(straddler).is_ok());
    // A small probe far in the northeast corner, nowhere near the object:
    // the root's bounds overlap the probe, so the root's contents are
    // still collected.
    let corner_probe = placed(8, 9, 1, 1);
    let mut out: Vec<Rect> = Vec::new();
    assert!(tree.get_rect(&corner_probe, &mut out).is_ok());
    assert_eq!(out, vec![straddler]);
}

#[test]
fn first_fitting_insert_subdivides_and_later_ones_do_not_undo_it() {
    let mut tree = Quadtree::new(-100, 100, 200, 200);
    assert!(!tree.is_divided());
    // A failing insert never subdivides.
    assert!(tree.insert_rect(placed(500, 0, 1, 1)).is_err());
    assert!(!tree.is_divided());
    // Several objects all inside the northeast quadrant: the root is
    // subdivided by the first and stays divided.
    for step in 0..3i64 {
        let object = placed(60 + step, 90 - step, 2, 2);
        assert!(tree.insert_rect(object).is_ok());
        assert!(tree.is_divided());
    }
    assert_eq!(full_query(&tree).len(), 3);
}

#[test]
fn point_object_at_a_quadrant_corner_is_stored_and_found() {
    let mut tree = Quadtree::new(0, 1, 1, 1);
    let point = rect(1, 0, 1, 0);
    assert!(tree.insert_rect(point).is_ok());
    let found = full_query(&tree);
    assert_eq!(found, vec![point]);
}

#[test]
fn anchored_scenario_includes_by_node_granularity() {
    // Root anchored at (-200, 200) with width = height = 400, covering
    // x and y in [-200, 200].
    let mut tree = Quadtree::new(-200, 200, 400, 400);
    let a = Rectangle::new(1, 1, 2, 2);
    let b = Rectangle::new(190, 190, 2, 2);
    assert!(tree.insert(&a).is_ok());
    assert!(tree.insert(&b).is_ok());

    // A straddles the centre split and rests at the root; B sinks into
    // north-eastern quadrants until it straddles a split, settling in a
    // node whose region lies within x in [190, 193], y in [188, 191].
    let probe = Rectangle::new(-199, 199, 360, 360);
    let mut out: Vec<Rect> = Vec::new();
    assert!(tree.get_rect(&probe, &mut out).is_ok());
    let a_edges = rect(1, 3, -1, 1);
    let b_edges = rect(190, 192, 188, 190);
    // The probe overlaps the root, so the root's contents - A - are
    // collected; every node on B's chain with x beyond 175 misses the
    // probe's east edge at 161, so B is not.
    assert_eq!(out, vec![a_edges]);

    // A full-bounds probe reaches both, quadrants before root contents.
    let everything = full_query(&tree);
    assert_eq!(everything, vec![b_edges, a_edges]);
}
