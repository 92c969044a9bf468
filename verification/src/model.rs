//! The mathematical model of the quadtree.
//!
//! `NodeModel` is the abstract value of one tree node: its boundary, its
//! subdivision state, its four optional quadrant children and the sequence
//! of objects resting at the node itself. The executable tree's contracts
//! are stated over this model: `subdivided` and `inserted` say exactly what
//! a mutation produces, `stored` and `found` say what the tree holds and
//! what a query collects.

use vstd::prelude::*;

use crate::geom::Rect;
use crate::geom::fits_within;
use crate::geom::overlaps;

verus! {

/// The split line between the west and east halves of `b`: the west edge of
/// the two eastern quadrants, and the east edge of the two western ones.
pub open spec fn split_x(b: Rect) -> i64 {
    (b.west + (b.east - b.west) / 2) as i64
}

/// The split line between the north and south halves of `b`.
pub open spec fn split_y(b: Rect) -> i64 {
    (b.north - (b.north - b.south) / 2) as i64
}

/// The east edge of the eastern quadrants: half the width beyond the split
/// line. When the width is odd this stops one short of `b.east`, so the
/// quadrants cover slightly less than `b`; an object in the uncovered strip
/// simply stays in the parent's own contents.
pub open spec fn quadrant_east(b: Rect) -> i64 {
    (split_x(b) + (b.east - b.west) / 2) as i64
}

/// The south edge of the southern quadrants: half the height below the
/// split line.
pub open spec fn quadrant_south(b: Rect) -> i64 {
    (split_y(b) - (b.north - b.south) / 2) as i64
}

/// The boundary of the northeast quadrant of `b`.
pub open spec fn ne_quadrant(b: Rect) -> Rect {
    Rect { north: b.north, east: quadrant_east(b), south: split_y(b), west: split_x(b) }
}

/// The boundary of the northwest quadrant of `b`.
pub open spec fn nw_quadrant(b: Rect) -> Rect {
    Rect { north: b.north, east: split_x(b), south: split_y(b), west: b.west }
}

/// The boundary of the southeast quadrant of `b`.
pub open spec fn se_quadrant(b: Rect) -> Rect {
    Rect { north: split_y(b), east: quadrant_east(b), south: quadrant_south(b), west: split_x(b) }
}

/// The boundary of the southwest quadrant of `b`.
pub open spec fn sw_quadrant(b: Rect) -> Rect {
    Rect { north: split_y(b), east: split_x(b), south: quadrant_south(b), west: b.west }
}

/// The abstract value of one quadtree node.
pub struct NodeModel {
    pub boundary: Rect,
    pub divided: bool,
    pub northeast: Option<Box<NodeModel>>,
    pub northwest: Option<Box<NodeModel>>,
    pub southeast: Option<Box<NodeModel>>,
    pub southwest: Option<Box<NodeModel>>,
    pub contents: Seq<Rect>,
}

impl NodeModel {
    /// The total edge length of the boundary: width plus height. Strictly
    /// shrinks from a node to its quadrants, which bounds the depth of the
    /// tree below any node.
    pub open spec fn extent(self) -> int {
        (self.boundary.east - self.boundary.west) + (self.boundary.north - self.boundary.south)
    }

    /// A boundary reduced to a single point. Such a node is never
    /// subdivided: its quadrants would be the same point again, and an
    /// object could sink through them forever.
    pub open spec fn degenerate(self) -> bool {
        self.boundary.east == self.boundary.west && self.boundary.north == self.boundary.south
    }

    /// An undivided node with the given boundary and nothing stored.
    pub open spec fn leaf(boundary: Rect) -> NodeModel {
        NodeModel {
            boundary,
            divided: false,
            northeast: None,
            northwest: None,
            southeast: None,
            southwest: None,
            contents: Seq::empty(),
        }
    }

    /// A present, well-formed child covering exactly `region`.
    pub open spec fn child_well_placed(child: Option<Box<NodeModel>>, region: Rect) -> bool
        decreases child,
    {
        match child {
            Some(node) => node.boundary == region && node.well_formed(),
            None => false,
        }
    }

    /// Well-formedness: the boundary is oriented; everything in `contents`
    /// fits the boundary; and the node either has no children at all, or is
    /// divided and has all four, each a well-formed child covering exactly
    /// its quadrant. A divided node is never degenerate.
    pub open spec fn well_formed(self) -> bool
        decreases self,
    {
        &&& self.boundary.west <= self.boundary.east
        &&& self.boundary.south <= self.boundary.north
        &&& (forall|i: int|
            0 <= i < self.contents.len() ==> fits_within(
                #[trigger] self.contents[i],
                self.boundary,
            ))
        &&& if self.divided {
            &&& !self.degenerate()
            &&& Self::child_well_placed(self.northeast, ne_quadrant(self.boundary))
            &&& Self::child_well_placed(self.northwest, nw_quadrant(self.boundary))
            &&& Self::child_well_placed(self.southeast, se_quadrant(self.boundary))
            &&& Self::child_well_placed(self.southwest, sw_quadrant(self.boundary))
        } else {
            &&& self.northeast is None
            &&& self.northwest is None
            &&& self.southeast is None
            &&& self.southwest is None
        }
    }

    /// Everything stored below and at an optional child.
    pub open spec fn child_stored(child: Option<Box<NodeModel>>) -> Seq<Rect>
        decreases child,
    {
        match child {
            Some(node) => node.stored(),
            None => Seq::empty(),
        }
    }

    /// Everything stored in the subtree rooted at this node, in traversal
    /// order: the four quadrants northeast, northwest, southeast, southwest,
    /// then the node's own contents.
    pub open spec fn stored(self) -> Seq<Rect>
        decreases self,
    {
        Self::child_stored(self.northeast) + Self::child_stored(self.northwest)
            + Self::child_stored(self.southeast) + Self::child_stored(self.southwest)
            + self.contents
    }

    /// What a query on an optional child collects.
    pub open spec fn child_found(child: Option<Box<NodeModel>>, region: Rect) -> Seq<Rect>
        decreases child,
    {
        match child {
            Some(node) => node.found(region),
            None => Seq::empty(),
        }
    }

    /// What a query with probe `region` collects from this subtree: nothing
    /// if the probe misses the node's boundary entirely; otherwise whatever
    /// the quadrants collect, followed by all of the node's own contents.
    /// Contents are gated by the node's boundary only, never re-checked
    /// against the probe object by object.
    pub open spec fn found(self, region: Rect) -> Seq<Rect>
        decreases self,
    {
        if !overlaps(region, self.boundary) {
            Seq::empty()
        } else {
            Self::child_found(self.northeast, region) + Self::child_found(self.northwest, region)
                + Self::child_found(self.southeast, region) + Self::child_found(
                self.southwest,
                region,
            ) + self.contents
        }
    }

    /// The node after (lazy) subdivision: unchanged if already divided or
    /// degenerate, otherwise the same node with four fresh empty quadrant
    /// leaves.
    pub open spec fn subdivided(self) -> NodeModel {
        if self.divided || self.degenerate() {
            self
        } else {
            NodeModel {
                divided: true,
                northeast: Some(Box::new(NodeModel::leaf(ne_quadrant(self.boundary)))),
                northwest: Some(Box::new(NodeModel::leaf(nw_quadrant(self.boundary)))),
                southeast: Some(Box::new(NodeModel::leaf(se_quadrant(self.boundary)))),
                southwest: Some(Box::new(NodeModel::leaf(sw_quadrant(self.boundary)))),
                ..self
            }
        }
    }

    /// The object fits entirely within a present child's boundary.
    pub open spec fn fits_in_child(child: Option<Box<NodeModel>>, object: Rect) -> bool {
        match child {
            Some(node) => fits_within(object, node.boundary),
            None => false,
        }
    }

    /// The node after inserting `object`, which is assumed to fit the
    /// boundary: subdivide if this is the first insertion to reach the node,
    /// then hand the object to the first quadrant that fully contains it,
    /// in the order northeast, northwest, southeast, southwest; if none
    /// does, append it to the node's own contents.
    pub open spec fn inserted(self, object: Rect) -> NodeModel
        decreases self.extent(),
            when self.well_formed()
    {
        let tree = self.subdivided();
        if tree.divided && Self::fits_in_child(tree.northeast, object) {
            NodeModel { northeast: Some(Box::new((tree.northeast->0).inserted(object))), ..tree }
        } else if tree.divided && Self::fits_in_child(tree.northwest, object) {
            NodeModel { northwest: Some(Box::new((tree.northwest->0).inserted(object))), ..tree }
        } else if tree.divided && Self::fits_in_child(tree.southeast, object) {
            NodeModel { southeast: Some(Box::new((tree.southeast->0).inserted(object))), ..tree }
        } else if tree.divided && Self::fits_in_child(tree.southwest, object) {
            NodeModel { southwest: Some(Box::new((tree.southwest->0).inserted(object))), ..tree }
        } else {
            NodeModel { contents: tree.contents.push(object), ..tree }
        }
    }
    /// The four quadrants of an oriented boundary lie within it, are
    /// themselves oriented, and share one extent, strictly below the
    /// parent's unless the boundary is a single point.
    pub proof fn lemma_quadrant_geometry(b: Rect)
        requires
            b.west <= b.east,
            b.south <= b.north,
        ensures
            fits_within(ne_quadrant(b), b),
            fits_within(nw_quadrant(b), b),
            fits_within(se_quadrant(b), b),
            fits_within(sw_quadrant(b), b),
            b.west <= split_x(b) <= quadrant_east(b) <= b.east,
            b.south <= quadrant_south(b) <= split_y(b) <= b.north,
            quadrant_east(b) - split_x(b) == (b.east - b.west) / 2,
            split_x(b) - b.west == (b.east - b.west) / 2,
            b.north - split_y(b) == (b.north - b.south) / 2,
            split_y(b) - quadrant_south(b) == (b.north - b.south) / 2,
            !(b.east == b.west && b.north == b.south) ==> (b.east - b.west) / 2 + (b.north
                - b.south) / 2 < (b.east - b.west) + (b.north - b.south),
    {
        let w = b.east - b.west;
        let h = b.north - b.south;
        assert(0 <= w / 2 && w / 2 + w / 2 <= w);
        assert(0 <= h / 2 && h / 2 + h / 2 <= h);
        assert(1 <= w ==> w / 2 < w);
        assert(1 <= h ==> h / 2 < h);
    }

    /// Subdivision keeps the boundary, the node's own contents and the
    /// stored objects, marks the node divided unless it is a point, and
    /// preserves well-formedness.
    pub proof fn lemma_subdivided_well_formed(self)
        requires
            self.well_formed(),
        ensures
            self.subdivided().well_formed(),
            self.subdivided().boundary == self.boundary,
            self.subdivided().contents == self.contents,
            self.subdivided().divided == (self.divided || !self.degenerate()),
            self.subdivided().stored() == self.stored(),
    {
        if !self.divided && !self.degenerate() {
            Self::lemma_quadrant_geometry(self.boundary);
            let sub = self.subdivided();
            assert(NodeModel::leaf(ne_quadrant(self.boundary)).well_formed());
            assert(NodeModel::leaf(nw_quadrant(self.boundary)).well_formed());
            assert(NodeModel::leaf(se_quadrant(self.boundary)).well_formed());
            assert(NodeModel::leaf(sw_quadrant(self.boundary)).well_formed());
            assert(sub.well_formed());
            assert(NodeModel::leaf(ne_quadrant(self.boundary)).stored() =~= Seq::<Rect>::empty());
            assert(NodeModel::leaf(nw_quadrant(self.boundary)).stored() =~= Seq::<Rect>::empty());
            assert(NodeModel::leaf(se_quadrant(self.boundary)).stored() =~= Seq::<Rect>::empty());
            assert(NodeModel::leaf(sw_quadrant(self.boundary)).stored() =~= Seq::<Rect>::empty());
            assert(sub.stored() =~= self.stored());
        }
    }

    /// Subdividing twice is the same as subdividing once: the second call
    /// changes nothing, whichever state the node started in.
    pub proof fn lemma_subdivided_idempotent(self)
        ensures
            self.subdivided().subdivided() == self.subdivided(),
    {
    }

    /// Insertion of a fitting object preserves well-formedness, keeps the
    /// boundary, and leaves the node divided exactly when it already was or
    /// this first insertion subdivided it; once divided, it stays divided.
    pub proof fn lemma_inserted_well_formed(self, object: Rect)
        requires
            self.well_formed(),
            fits_within(object, self.boundary),
        ensures
            self.inserted(object).well_formed(),
            self.inserted(object).boundary == self.boundary,
            self.inserted(object).divided == (self.divided || !self.degenerate()),
        decreases self.extent(),
    {
        self.lemma_subdivided_well_formed();
        Self::lemma_quadrant_geometry(self.boundary);
        let tree = self.subdivided();
        if tree.divided && Self::fits_in_child(tree.northeast, object) {
            (tree.northeast->0).lemma_inserted_well_formed(object);
        } else if tree.divided && Self::fits_in_child(tree.northwest, object) {
            (tree.northwest->0).lemma_inserted_well_formed(object);
        } else if tree.divided && Self::fits_in_child(tree.southeast, object) {
            (tree.southeast->0).lemma_inserted_well_formed(object);
        } else if tree.divided && Self::fits_in_child(tree.southwest, object) {
            (tree.southwest->0).lemma_inserted_well_formed(object);
        } else {
            assert(forall|i: int|
                0 <= i < tree.contents.push(object).len() ==> fits_within(
                    #[trigger] tree.contents.push(object)[i],
                    tree.boundary,
                ));
        }
    }

    /// No duplication, nothing dropped: inserting a fitting object adds it
    /// to the stored objects exactly once and leaves every other stored
    /// object untouched, so the total count grows by exactly one.
    pub proof fn lemma_inserted_stored(self, object: Rect)
        requires
            self.well_formed(),
            fits_within(object, self.boundary),
        ensures
            self.inserted(object).stored().to_multiset() == self.stored().to_multiset().insert(
                object,
            ),
            self.inserted(object).stored().len() == self.stored().len() + 1,
        decreases self.extent(),
    {
        broadcast use vstd::seq_lib::lemma_multiset_commutative;
        broadcast use vstd::seq_lib::group_to_multiset_ensures;
        broadcast use vstd::multiset::group_multiset_axioms;

        self.lemma_subdivided_well_formed();
        Self::lemma_quadrant_geometry(self.boundary);
        let tree = self.subdivided();
        let res = self.inserted(object);
        if tree.divided && Self::fits_in_child(tree.northeast, object) {
            (tree.northeast->0).lemma_inserted_stored(object);
            assert(res.stored().to_multiset() =~= self.stored().to_multiset().insert(object));
        } else if tree.divided && Self::fits_in_child(tree.northwest, object) {
            (tree.northwest->0).lemma_inserted_stored(object);
            assert(res.stored().to_multiset() =~= self.stored().to_multiset().insert(object));
        } else if tree.divided && Self::fits_in_child(tree.southeast, object) {
            (tree.southeast->0).lemma_inserted_stored(object);
            assert(res.stored().to_multiset() =~= self.stored().to_multiset().insert(object));
        } else if tree.divided && Self::fits_in_child(tree.southwest, object) {
            (tree.southwest->0).lemma_inserted_stored(object);
            assert(res.stored().to_multiset() =~= self.stored().to_multiset().insert(object));
        } else {
            assert(res.stored().to_multiset() =~= self.stored().to_multiset().insert(object));
        }
    }

    /// A probe that covers a well-formed node's whole boundary collects
    /// exactly the stored objects, in traversal order: nothing is missed
    /// and nothing appears twice.
    pub proof fn lemma_found_covering(self, region: Rect)
        requires
            self.well_formed(),
            fits_within(self.boundary, region),
        ensures
            self.found(region) == self.stored(),
        decreases self.extent(),
    {
        Self::lemma_quadrant_geometry(self.boundary);
        assert(overlaps(region, self.boundary));
        if self.divided {
            (self.northeast->0).lemma_found_covering(region);
            (self.northwest->0).lemma_found_covering(region);
            (self.southeast->0).lemma_found_covering(region);
            (self.southwest->0).lemma_found_covering(region);
        }
    }

    /// Containment round-trip: after inserting a fitting object, a query
    /// whose probe covers the tree's bounds — in particular the bounds
    /// themselves — returns the previously stored objects together with
    /// the new one, which now appears exactly one more time than before.
    pub proof fn lemma_containment_round_trip(self, object: Rect, probe: Rect)
        requires
            self.well_formed(),
            fits_within(object, self.boundary),
            fits_within(self.boundary, probe),
        ensures
            self.inserted(object).found(probe).to_multiset() == self.stored().to_multiset().insert(
                object,
            ),
            self.inserted(object).found(probe).to_multiset().count(object) == self.stored()
                .to_multiset().count(object) + 1,
    {
        broadcast use vstd::multiset::group_multiset_axioms;

        self.lemma_inserted_well_formed(object);
        self.lemma_inserted_stored(object);
        self.inserted(object).lemma_found_covering(probe);
    }
}

} // verus!
