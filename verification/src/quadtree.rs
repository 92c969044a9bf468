//! The executable quadtree and its contracts, stated over the abstract
//! `NodeModel` reached through the view `@`.

use vstd::prelude::*;

use crate::geom::Boundable;
use crate::geom::Rect;
use crate::geom::fits_within;
use crate::geom::overlaps;
use crate::model::NodeModel;
use crate::model::ne_quadrant;
use crate::model::nw_quadrant;
use crate::model::se_quadrant;
use crate::model::sw_quadrant;

verus! {

/// The two recoverable failures of the tree's operations.
#[derive(Clone, Copy, PartialEq, Eq, Structural, Debug)]
pub enum QuadtreeError {
    /// An inserted object does not fit entirely within the node's bounds.
    OutOfBounds,
    /// A query probe does not intersect the node's bounds at all.
    NoOverlap,
}

/// A node of the quadtree: a bounded region, up to four quadrant children
/// created all-or-nothing by lazy subdivision, and the objects that fit
/// this region but no single quadrant.
#[derive(Debug)]
pub struct Quadtree {
    position_x: i64,
    position_y: i64,
    width: i64,
    height: i64,
    divided: bool,
    northeast_quad: Option<Box<Quadtree>>,
    northwest_quad: Option<Box<Quadtree>>,
    southeast_quad: Option<Box<Quadtree>>,
    southwest_quad: Option<Box<Quadtree>>,
    contents: Vec<Rect>,
}

impl Quadtree {
    /// The abstract value of an optional child.
    pub closed spec fn child_model(child: Option<Box<Quadtree>>) -> Option<Box<NodeModel>>
        decreases child,
    {
        match child {
            Some(node) => Some(Box::new(node.as_model())),
            None => None,
        }
    }

    /// The abstract value of this node: edges computed from the anchor and
    /// the extents, children and contents taken structurally.
    pub closed spec fn as_model(self) -> NodeModel
        decreases self,
    {
        NodeModel {
            boundary: Rect {
                north: self.position_y,
                east: (self.position_x + self.width) as i64,
                south: (self.position_y - self.height) as i64,
                west: self.position_x,
            },
            divided: self.divided,
            northeast: Self::child_model(self.northeast_quad),
            northwest: Self::child_model(self.northwest_quad),
            southeast: Self::child_model(self.southeast_quad),
            southwest: Self::child_model(self.southwest_quad),
            contents: self.contents@,
        }
    }

    /// Edge arithmetic stays within `i64` at this node and below, and
    /// extents are non-negative, so the model's edges are exactly the sums
    /// they stand for.
    pub closed spec fn arith_ok(self) -> bool
        decreases self,
    {
        &&& 0 <= self.width
        &&& 0 <= self.height
        &&& self.position_x + self.width <= i64::MAX
        &&& i64::MIN <= self.position_y - self.height
        &&& Self::child_arith_ok(self.northeast_quad)
        &&& Self::child_arith_ok(self.northwest_quad)
        &&& Self::child_arith_ok(self.southeast_quad)
        &&& Self::child_arith_ok(self.southwest_quad)
    }

    /// `arith_ok` for an optional child.
    pub closed spec fn child_arith_ok(child: Option<Box<Quadtree>>) -> bool
        decreases child,
    {
        match child {
            Some(node) => node.arith_ok(),
            None => true,
        }
    }

    /// The tree is fit for use: its arithmetic stays in range and its
    /// abstract value is well-formed.
    pub closed spec fn well_formed(self) -> bool {
        self.arith_ok() && self@.well_formed()
    }
}

impl Quadtree {
    /// An undivided node with the given anchor and extents and nothing
    /// stored. Shared by the public constructor and by subdivision, whose
    /// quadrants may legitimately have zero extents.
    fn leaf_node(position_x: i64, position_y: i64, width: i64, height: i64) -> (tree: Self)
        requires
            0 <= width,
            0 <= height,
            position_x + width <= i64::MAX,
            i64::MIN <= position_y - height,
        ensures
            tree.well_formed(),
            tree@ == NodeModel::leaf(
                Rect {
                    north: position_y,
                    east: (position_x + width) as i64,
                    south: (position_y - height) as i64,
                    west: position_x,
                },
            ),
    {
        let tree = Quadtree {
            position_x,
            position_y,
            width,
            height,
            divided: false,
            northeast_quad: None,
            northwest_quad: None,
            southeast_quad: None,
            southwest_quad: None,
            contents: Vec::new(),
        };
        proof {
            assert(tree@.contents =~= Seq::<Rect>::empty());
        }
        tree
    }

    /// Returns an undivided tree covering `x` in
    /// `[position_x, position_x + width]` and `y` in
    /// `[position_y - height, position_y]`, with nothing stored. The anchor
    /// is the north-west corner; extents must be positive and the far edges
    /// must stay within `i64`.
    pub fn new(position_x: i64, position_y: i64, width: i64, height: i64) -> (tree: Self)
        requires
            0 < width,
            0 < height,
            position_x + width <= i64::MAX,
            i64::MIN <= position_y - height,
        ensures
            tree.well_formed(),
            tree@ == NodeModel::leaf(
                Rect {
                    north: position_y,
                    east: (position_x + width) as i64,
                    south: (position_y - height) as i64,
                    west: position_x,
                },
            ),
            !tree@.divided,
            tree@.boundary.north == position_y,
            tree@.boundary.east == position_x + width,
            tree@.boundary.south == position_y - height,
            tree@.boundary.west == position_x,
            tree@.contents == Seq::<Rect>::empty(),
            tree@.stored() == Seq::<Rect>::empty(),
    {
        let tree = Self::leaf_node(position_x, position_y, width, height);
        proof {
            assert(tree@.stored() =~= Seq::<Rect>::empty());
        }
        tree
    }

    /// Partitions this node into four quadrants, each covering half the
    /// width and half the height, anchored at the four quadrant corners.
    /// A second call is a no-op, as is a call on a node whose boundary is a
    /// single point: such a node's quadrants would be that same point, and
    /// an object could be handed down through them forever, so a point node
    /// keeps everything in its own contents instead.
    fn subdivide(&mut self)
        requires
            old(self).well_formed(),
        ensures
            final(self).well_formed(),
            final(self)@ == old(self)@.subdivided(),
    {
        if !self.divided && (self.width > 0 || self.height > 0) {
            let half_width: i64 = self.width / 2;
            let half_height: i64 = self.height / 2;
            self.northeast_quad = Some(
                Box::new(
                    Self::leaf_node(
                        self.position_x + half_width,
                        self.position_y,
                        half_width,
                        half_height,
                    ),
                ),
            );
            self.northwest_quad = Some(
                Box::new(Self::leaf_node(self.position_x, self.position_y, half_width, half_height)),
            );
            self.southeast_quad = Some(
                Box::new(
                    Self::leaf_node(
                        self.position_x + half_width,
                        self.position_y - half_height,
                        half_width,
                        half_height,
                    ),
                ),
            );
            self.southwest_quad = Some(
                Box::new(
                    Self::leaf_node(
                        self.position_x,
                        self.position_y - half_height,
                        half_width,
                        half_height,
                    ),
                ),
            );
            self.divided = true;
        }
    }

    /// The termination measure of a node: its width plus height, which
    /// strictly shrinks from a node to its quadrants.
    pub closed spec fn measure(self) -> int {
        self.width + self.height
    }

    /// The termination measure of an optional child.
    pub closed spec fn child_measure(child: Option<Box<Quadtree>>) -> int {
        match child {
            Some(node) => node.measure(),
            None => 0,
        }
    }

    /// A divided, well-formed node has all four children present, each
    /// well-formed and strictly smaller in extent than the node itself.
    proof fn lemma_children_well_formed(self)
        requires
            self.well_formed(),
            self.divided,
        ensures
            self.northeast_quad matches Some(node) && node.well_formed() && node.width
                + node.height < self.width + self.height,
            self.northwest_quad matches Some(node) && node.well_formed() && node.width
                + node.height < self.width + self.height,
            self.southeast_quad matches Some(node) && node.well_formed() && node.width
                + node.height < self.width + self.height,
            self.southwest_quad matches Some(node) && node.well_formed() && node.width
                + node.height < self.width + self.height,
    {
        NodeModel::lemma_quadrant_geometry(self@.boundary);
        assert(self@.boundary.east - self@.boundary.west == self.width);
        assert(self@.boundary.north - self@.boundary.south == self.height);
        assert(self@.divided && self@.well_formed());
        Self::lemma_child_well_formed(self.northeast_quad, ne_quadrant(self@.boundary));
        Self::lemma_child_well_formed(self.northwest_quad, nw_quadrant(self@.boundary));
        Self::lemma_child_well_formed(self.southeast_quad, se_quadrant(self@.boundary));
        Self::lemma_child_well_formed(self.southwest_quad, sw_quadrant(self@.boundary));
    }

    /// A well-placed child is present, well-formed, and as wide and tall as
    /// the region it covers.
    proof fn lemma_child_well_formed(child: Option<Box<Quadtree>>, region: Rect)
        requires
            Self::child_arith_ok(child),
            NodeModel::child_well_placed(Self::child_model(child), region),
        ensures
            child matches Some(node) && node.well_formed() && node.width + node.height == (
            region.east - region.west) + (region.north - region.south),
    {
        match child {
            Some(node) => {
                assert(node.as_model().well_formed());
                assert(node.as_model().boundary == region);
                assert(node.as_model().boundary.east == node.position_x + node.width);
                assert(node.as_model().boundary.south == node.position_y - node.height);
            }
            None => {
                assert(false);
            }
        }
    }

    /// Offers `object` to an optional child, which takes it exactly when
    /// the object fits entirely within the child's boundary.
    fn try_child(child: &mut Option<Box<Quadtree>>, object: Rect) -> (placed: bool)
        requires
            (*old(child)) matches Some(node) ==> node.well_formed(),
        ensures
            placed <==> NodeModel::fits_in_child(Self::child_model(*old(child)), object),
            placed ==> ((*final(child)) matches Some(node) && node.well_formed() && node@
                == (Self::child_model(*old(child))->0).inserted(object)),
            !placed ==> *final(child) == *old(child),
        decreases Self::child_measure(*old(child)), 1int,
    {
        match child.take() {
            Some(mut node) => {
                let attempt = node.insert_rect(object);
                let placed = attempt.is_ok();
                *child = Some(node);
                placed
            },
            None => false,
        }
    }

    /// Inserts `object` into the subtree rooted at this node.
    ///
    /// When the object fits this node's bounds the insertion succeeds and
    /// the tree becomes exactly `old(self)@.inserted(object)`: the node
    /// subdivides if this is the first insertion to reach it, then the
    /// first quadrant that fully contains the object takes it, in the order
    /// northeast, northwest, southeast, southwest, and if none does the
    /// object joins this node's own contents. When the object does not fit,
    /// the insertion fails with `OutOfBounds` and nothing changes.
    pub fn insert_rect(&mut self, object: Rect) -> (result: Result<(), QuadtreeError>)
        requires
            old(self).well_formed(),
        ensures
            final(self).well_formed(),
            fits_within(object, old(self)@.boundary) ==> result == Ok::<(), QuadtreeError>(())
                && final(self)@ == old(self)@.inserted(object),
            !fits_within(object, old(self)@.boundary) ==> result == Err::<(), QuadtreeError>(
                QuadtreeError::OutOfBounds,
            ) && *final(self) == *old(self),
        decreases old(self).measure(), 0int,
    {
        if object.north <= self.position_y && object.east <= self.position_x + self.width
            && object.south >= self.position_y - self.height && object.west >= self.position_x {
            proof {
                assert(fits_within(object, old(self)@.boundary));
            }
            if !self.divided {
                self.subdivide();
            }
            let ghost tree = old(self)@.subdivided();
            proof {
                assert(self@ == tree);
                old(self)@.lemma_subdivided_well_formed();
                old(self)@.lemma_inserted_well_formed(object);
                if self.divided {
                    self.lemma_children_well_formed();
                }
            }
            if self.divided {
                if Self::try_child(&mut self.northeast_quad, object) {
                    proof {
                        assert(self@ == old(self)@.inserted(object));
                        assert(self.arith_ok());
                    }
                    return Ok(());
                }
                if Self::try_child(&mut self.northwest_quad, object) {
                    proof {
                        assert(self@ == old(self)@.inserted(object));
                        assert(self.arith_ok());
                    }
                    return Ok(());
                }
                if Self::try_child(&mut self.southeast_quad, object) {
                    proof {
                        assert(self@ == old(self)@.inserted(object));
                        assert(self.arith_ok());
                    }
                    return Ok(());
                }
                if Self::try_child(&mut self.southwest_quad, object) {
                    proof {
                        assert(self@ == old(self)@.inserted(object));
                        assert(self.arith_ok());
                    }
                    return Ok(());
                }
            }
            self.contents.push(object);
            proof {
                assert(self@ == old(self)@.inserted(object));
                assert(self.arith_ok());
            }
            Ok(())
        } else {
            Err(QuadtreeError::OutOfBounds)
        }
    }

    /// Collects from an optional child whatever a query with `region`
    /// finds there, appending it to `vec`. A miss contributes nothing.
    fn query_child(child: &Option<Box<Quadtree>>, region: Rect, vec: &mut Vec<Rect>)
        requires
            (*child) matches Some(node) ==> node.well_formed(),
        ensures
            final(vec)@ == old(vec)@ + NodeModel::child_found(Self::child_model(*child), region),
        decreases Self::child_measure(*child), 1int,
    {
        match child {
            Some(node) => {
                let _ = node.query_rect(region, vec);
            },
            None => {
                proof {
                    assert(vec@ =~= vec@ + Seq::<Rect>::empty());
                }
            },
        }
    }

    /// Collects into `vec` every object that a query with probe `region`
    /// finds in this subtree: nothing if the probe misses this node's
    /// bounds entirely, in which case the query fails with `NoOverlap` and
    /// `vec` is left untouched; otherwise whatever the quadrants find,
    /// followed by all of this node's own contents — contents are gated by
    /// the node's bounds only, never re-checked against the probe object
    /// by object.
    pub fn query_rect(&self, region: Rect, vec: &mut Vec<Rect>) -> (result: Result<
        (),
        QuadtreeError,
    >)
        requires
            self.well_formed(),
        ensures
            final(vec)@ == old(vec)@ + self@.found(region),
            overlaps(region, self@.boundary) ==> result == Ok::<(), QuadtreeError>(()),
            !overlaps(region, self@.boundary) ==> result == Err::<(), QuadtreeError>(
                QuadtreeError::NoOverlap,
            ) && final(vec)@ == old(vec)@,
        decreases self.measure(), 0int,
    {
        if !(region.north < self.position_y - self.height || region.east < self.position_x
            || region.south > self.position_y || region.west > self.position_x + self.width) {
            proof {
                assert(overlaps(region, self@.boundary));
                if self.divided {
                    self.lemma_children_well_formed();
                }
            }
            let ghost pre = vec@;
            if self.divided {
                Self::query_child(&self.northeast_quad, region, vec);
                Self::query_child(&self.northwest_quad, region, vec);
                Self::query_child(&self.southeast_quad, region, vec);
                Self::query_child(&self.southwest_quad, region, vec);
            }
            let ghost mid = vec@;
            proof {
                assert(mid =~= pre + (NodeModel::child_found(self@.northeast, region)
                    + NodeModel::child_found(self@.northwest, region) + NodeModel::child_found(
                    self@.southeast,
                    region,
                ) + NodeModel::child_found(self@.southwest, region)));
            }
            let mut i: usize = 0;
            while i < self.contents.len()
                invariant
                    i <= self.contents.len(),
                    vec@ == mid + self.contents@.subrange(0, i as int),
                decreases self.contents.len() - i,
            {
                vec.push(self.contents[i]);
                proof {
                    assert(vec@ =~= mid + self.contents@.subrange(0, i + 1 as int));
                }
                i = i + 1;
            }
            proof {
                assert(self.contents@.subrange(0, self.contents@.len() as int) =~= self.contents@);
                assert(vec@ =~= pre + self@.found(region));
            }
            Ok(())
        } else {
            proof {
                assert(!overlaps(region, self@.boundary));
                assert(vec@ =~= vec@ + self@.found(region));
            }
            Err(QuadtreeError::NoOverlap)
        }
    }

    /// Inserts an object offering the `Boundable` capability: reads its
    /// four edges once and inserts the resulting region, exactly as
    /// `insert_rect` describes.
    pub fn insert<T: Boundable>(&mut self, object: &T) -> (result: Result<(), QuadtreeError>)
        requires
            old(self).well_formed(),
            object.inv(),
        ensures
            final(self).well_formed(),
            fits_within(object.bounds(), old(self)@.boundary) ==> result == Ok::<
                (),
                QuadtreeError,
            >(()) && final(self)@ == old(self)@.inserted(object.bounds()),
            !fits_within(object.bounds(), old(self)@.boundary) ==> result == Err::<
                (),
                QuadtreeError,
            >(QuadtreeError::OutOfBounds) && *final(self) == *old(self),
    {
        let region = Rect {
            north: object.north_edge(),
            east: object.east_edge(),
            south: object.south_edge(),
            west: object.west_edge(),
        };
        self.insert_rect(region)
    }

    /// Searches the tree with a probe offering the `Boundable` capability:
    /// reads its four edges once and queries with the resulting region,
    /// exactly as `query_rect` describes.
    pub fn get_rect<T: Boundable>(&self, rect: &T, vec: &mut Vec<Rect>) -> (result: Result<
        (),
        QuadtreeError,
    >)
        requires
            self.well_formed(),
            rect.inv(),
        ensures
            final(vec)@ == old(vec)@ + self@.found(rect.bounds()),
            overlaps(rect.bounds(), self@.boundary) ==> result == Ok::<(), QuadtreeError>(()),
            !overlaps(rect.bounds(), self@.boundary) ==> result == Err::<(), QuadtreeError>(
                QuadtreeError::NoOverlap,
            ) && final(vec)@ == old(vec)@,
    {
        let region = Rect {
            north: rect.north_edge(),
            east: rect.east_edge(),
            south: rect.south_edge(),
            west: rect.west_edge(),
        };
        self.query_rect(region, vec)
    }

    /// The region this node covers, as its four edges.
    pub fn boundary(&self) -> (b: Rect)
        requires
            self.well_formed(),
        ensures
            b == self@.boundary,
    {
        Rect {
            north: self.position_y,
            east: self.position_x + self.width,
            south: self.position_y - self.height,
            west: self.position_x,
        }
    }

    /// Whether this node has been subdivided into its four quadrants.
    pub fn is_divided(&self) -> (divided: bool)
        ensures
            divided == self@.divided,
    {
        self.divided
    }
}

impl View for Quadtree {
    type V = NodeModel;

    closed spec fn view(&self) -> NodeModel {
        self.as_model()
    }
}

} // verus!
