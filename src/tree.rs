use vstd::prelude::*;

use vstd::multiset::Multiset;

use crate::geometry::{lemma_quadrants_tile, Point, Quadrant, Rectangle};

verus! {

/// Capacity of a node when none is given.
pub const DEFAULT_CAPACITY: usize = 4;

/// A node of a point quadtree. It stores up to `capacity` points itself;
/// once full it splits into four children, one per quadrant of its boundary,
/// and hands further points to the child whose interior holds them.
pub struct QuadTree {
    boundary: Rectangle,
    capacity: usize,
    points: Vec<Point>,
    divided: bool,
    ne: Option<Box<QuadTree>>,
    nw: Option<Box<QuadTree>>,
    sw: Option<Box<QuadTree>>,
    se: Option<Box<QuadTree>>,
}

/// An absent child, or a well-formed child with boundary `r` and capacity `cap`.
pub closed spec fn opt_wf(c: Option<Box<QuadTree>>, r: Rectangle, cap: usize) -> bool
    decreases c,
{
    match c {
        None => true,
        Some(t) => t.boundary == r && t.capacity == cap && t.wf(),
    }
}

/// The points held by an optional child and its descendants.
pub closed spec fn opt_stored(c: Option<Box<QuadTree>>) -> Multiset<Point>
    decreases c,
{
    match c {
        None => Multiset::empty(),
        Some(t) => t.stored(),
    }
}

/// Whether a point handed to the child slot for quadrant `r` ends up stored:
/// an absent child is created empty with capacity `cap` first.
pub closed spec fn opt_lands(c: Option<Box<QuadTree>>, r: Rectangle, cap: usize, p: Point) -> bool
    decreases c,
{
    match c {
        None => 0 < cap && r.encloses(p),
        Some(t) => t.lands(p),
    }
}

impl QuadTree {
    pub closed spec fn spec_boundary(self) -> Rectangle {
        self.boundary
    }

    pub closed spec fn spec_capacity(self) -> usize {
        self.capacity
    }

    /// The points this node holds itself, in order of insertion.
    pub closed spec fn spec_points(self) -> Seq<Point> {
        self.points@
    }

    pub closed spec fn spec_divided(self) -> bool {
        self.divided
    }

    pub closed spec fn spec_child(self, q: Quadrant) -> Option<Box<QuadTree>> {
        match q {
            Quadrant::NorthEast => self.ne,
            Quadrant::NorthWest => self.nw,
            Quadrant::SouthWest => self.sw,
            Quadrant::SouthEast => self.se,
        }
    }

    /// The boundary is well formed, the node holds at most `capacity` points,
    /// it has all four children exactly when divided, and each child covers
    /// its quadrant with the same capacity.
    pub closed spec fn wf(self) -> bool
        decreases self,
    {
        &&& self.boundary.wf()
        &&& self.points.len() <= self.capacity
        &&& self.ne.is_some() == self.divided
        &&& self.nw.is_some() == self.divided
        &&& self.sw.is_some() == self.divided
        &&& self.se.is_some() == self.divided
        &&& opt_wf(self.ne, self.boundary.quad(Quadrant::NorthEast), self.capacity)
        &&& opt_wf(self.nw, self.boundary.quad(Quadrant::NorthWest), self.capacity)
        &&& opt_wf(self.sw, self.boundary.quad(Quadrant::SouthWest), self.capacity)
        &&& opt_wf(self.se, self.boundary.quad(Quadrant::SouthEast), self.capacity)
    }

    /// Every point held in this subtree, with multiplicity.
    pub closed spec fn stored(self) -> Multiset<Point>
        decreases self,
    {
        self.points@.to_multiset().add(opt_stored(self.ne)).add(opt_stored(self.nw)).add(
            opt_stored(self.sw),
        ).add(opt_stored(self.se))
    }

    /// Whether inserting `p` stores it somewhere in this subtree: it must lie
    /// inside the boundary, and either this node has room or the child for
    /// its quadrant takes it. A point on a line that splits the node is lost.
    pub closed spec fn lands(self, p: Point) -> bool
        decreases self,
    {
        &&& self.boundary.encloses(p)
        &&& {
            ||| self.points.len() < self.capacity
            ||| opt_lands(self.ne, self.boundary.quad(Quadrant::NorthEast), self.capacity, p)
            ||| opt_lands(self.nw, self.boundary.quad(Quadrant::NorthWest), self.capacity, p)
            ||| opt_lands(self.sw, self.boundary.quad(Quadrant::SouthWest), self.capacity, p)
            ||| opt_lands(self.se, self.boundary.quad(Quadrant::SouthEast), self.capacity, p)
        }
    }

    /// Whether `p`, handed to the child for quadrant `q`, ends up stored.
    pub open spec fn child_lands(self, q: Quadrant, p: Point) -> bool {
        opt_lands(self.spec_child(q), self.spec_boundary().quad(q), self.spec_capacity(), p)
    }

    /// An empty, undivided node with boundary `r` and capacity `cap`.
    pub open spec fn is_fresh(self, r: Rectangle, cap: usize) -> bool {
        &&& self.spec_boundary() == r
        &&& self.spec_capacity() == cap
        &&& self.spec_points() == Seq::<Point>::empty()
        &&& !self.spec_divided()
        &&& forall|q: Quadrant| #[trigger] self.spec_child(q) is None
    }

    /// `new` is this node after `subdivide`: a divided node is left as it
    /// is; otherwise each quadrant gets a fresh child and nothing stored moves.
    pub open spec fn subdivides(self, new: QuadTree) -> bool {
        &&& new.wf()
        &&& new.stored() == self.stored()
        &&& if self.spec_divided() {
            new == self
        } else {
            &&& new.spec_boundary() == self.spec_boundary()
            &&& new.spec_capacity() == self.spec_capacity()
            &&& new.spec_points() == self.spec_points()
            &&& new.spec_divided()
            &&& forall|q: Quadrant| #[trigger]
                new.spec_child(q) matches Some(t) && t.is_fresh(
                    self.spec_boundary().quad(q),
                    self.spec_capacity(),
                )
        }
    }

    /// `new` is this node after `insert(p)`.
    pub open spec fn inserts(self, p: Point, new: QuadTree) -> bool {
        &&& new.wf()
        &&& new.spec_boundary() == self.spec_boundary()
        &&& new.spec_capacity() == self.spec_capacity()
        &&& new.stored() == if self.lands(p) {
            self.stored().insert(p)
        } else {
            self.stored()
        }
        &&& !self.spec_boundary().encloses(p) ==> new == self
        &&& self.spec_boundary().encloses(p) && self.spec_points().len() < self.spec_capacity() ==> {
            &&& new.spec_points() == self.spec_points().push(p)
            &&& new.spec_divided() == self.spec_divided()
            &&& forall|q: Quadrant| #[trigger] new.spec_child(q) == self.spec_child(q)
        }
        &&& self.spec_boundary().encloses(p) && self.spec_points().len() >= self.spec_capacity() ==> {
            &&& new.spec_points() == self.spec_points()
            &&& new.spec_divided()
            &&& forall|q: Quadrant| #[trigger]
                opt_stored(new.spec_child(q)) == if self.child_lands(q, p) {
                    opt_stored(self.spec_child(q)).insert(p)
                } else {
                    opt_stored(self.spec_child(q))
                }
        }
    }

    /// An empty node over `boundary`; `capacity` defaults to four points.
    pub fn new(boundary: Rectangle, capacity: Option<usize>) -> (t: QuadTree)
        requires
            boundary.wf(),
        ensures
            t.wf(),
            t.is_fresh(
                boundary,
                match capacity {
                    Some(c) => c,
                    None => DEFAULT_CAPACITY,
                },
            ),
            t.stored() == Multiset::<Point>::empty(),
    {
        let points: Vec<Point> = Vec::new();
        let t = QuadTree {
            boundary,
            capacity: match capacity {
                Some(c) => c,
                None => DEFAULT_CAPACITY,
            },
            points,
            divided: false,
            ne: None,
            nw: None,
            sw: None,
            se: None,
        };
        proof {
            lemma_fresh(t);
        }
        t
    }

    /// The rectangle this node indexes.
    pub fn boundary(&self) -> (r: Rectangle)
        ensures
            r == self.spec_boundary(),
    {
        self.boundary
    }

    /// The most points this node holds itself.
    pub fn capacity(&self) -> (r: usize)
        ensures
            r == self.spec_capacity(),
    {
        self.capacity
    }

    /// The points this node holds itself (not those of its children).
    pub fn get_points(&self) -> (r: &Vec<Point>)
        ensures
            r@ == self.spec_points(),
    {
        &self.points
    }

    pub fn is_divided(&self) -> (r: bool)
        ensures
            r == self.spec_divided(),
    {
        self.divided
    }

    /// The child for quadrant `q`, once this node is divided.
    pub fn child(&self, q: Quadrant) -> (r: Option<&QuadTree>)
        ensures
            r.is_some() == self.spec_child(q).is_some(),
            r.is_some() ==> *r.unwrap() == *self.spec_child(q).unwrap(),
    {
        let slot = match q {
            Quadrant::NorthEast => &self.ne,
            Quadrant::NorthWest => &self.nw,
            Quadrant::SouthWest => &self.sw,
            Quadrant::SouthEast => &self.se,
        };
        match slot {
            Some(t) => Some(&**t),
            None => None,
        }
    }

    /// Splits this node into four empty children, one per quadrant of its
    /// boundary, each with the same capacity. A node that is already divided
    /// is left as it is, so that no child, and no point in it, is replaced.
    pub fn subdivide(&mut self)
        requires
            old(self).wf(),
        ensures
            old(self).subdivides(*final(self)),
            final(self).wf(),
    {
        if self.divided {
            return;
        }
        let ghost before = *self;
        let b = self.boundary;
        let cap = self.capacity;
        let ne = QuadTree::new(b.quadrant(Quadrant::NorthEast), Some(cap));
        let nw = QuadTree::new(b.quadrant(Quadrant::NorthWest), Some(cap));
        let sw = QuadTree::new(b.quadrant(Quadrant::SouthWest), Some(cap));
        let se = QuadTree::new(b.quadrant(Quadrant::SouthEast), Some(cap));
        self.ne = Some(Box::new(ne));
        self.nw = Some(Box::new(nw));
        self.sw = Some(Box::new(sw));
        self.se = Some(Box::new(se));
        self.divided = true;
        proof {
            assert(opt_stored(before.ne) == Multiset::<Point>::empty());
            assert(opt_stored(before.nw) == Multiset::<Point>::empty());
            assert(opt_stored(before.sw) == Multiset::<Point>::empty());
            assert(opt_stored(before.se) == Multiset::<Point>::empty());
            assert(self.stored() =~= before.stored());
        }
    }

    /// Adds `p` to the tree. A point outside the boundary is ignored. A node
    /// with room keeps the point itself; a full one divides, if it has not
    /// yet, and passes the point to the one child whose interior holds it.
    pub fn insert(&mut self, p: Point)
        requires
            old(self).wf(),
        ensures
            old(self).inserts(p, *final(self)),
            final(self).wf(),
        decreases old(self).spec_boundary().w + old(self).spec_boundary().h, 0int,
    {
        if !self.boundary.contains(p) {
            return;
        }
        let ghost before = *self;
        if self.points.len() < self.capacity {
            self.points.push(p);
            proof {
                vstd::seq_lib::to_multiset_build(before.points@, p);
                assert(self.stored() =~= before.stored().insert(p));
                assert(forall|q: Quadrant| #[trigger]
                    self.spec_child(q) == before.spec_child(q));
            }
            return;
        }
        self.subdivide();
        let ghost mid = *self;
        proof {
            lemma_quadrants_tile(before.boundary);
            lemma_subdivided_children(before, mid, p);
        }
        let target = self.boundary.quadrant_of(p);
        match target {
            None => {},
            Some(Quadrant::NorthEast) => QuadTree::insert_into(&mut self.ne, p),
            Some(Quadrant::NorthWest) => QuadTree::insert_into(&mut self.nw, p),
            Some(Quadrant::SouthWest) => QuadTree::insert_into(&mut self.sw, p),
            Some(Quadrant::SouthEast) => QuadTree::insert_into(&mut self.se, p),
        }
        proof {
            assert forall|q: Quadrant| #[trigger]
                opt_stored(self.spec_child(q)) == if before.child_lands(q, p) {
                    opt_stored(before.spec_child(q)).insert(p)
                } else {
                    opt_stored(before.spec_child(q))
                } by {
                assert(mid.child_lands(q, p) == before.child_lands(q, p));
                if target != Some(q) {
                    assert(!before.boundary.quad(q).encloses(p));
                    assert(self.spec_child(q) == mid.spec_child(q));
                    let c = before.spec_child(q);
                    if c is Some {
                        assert(opt_wf(c, before.boundary.quad(q), before.capacity));
                    }
                    assert(!before.child_lands(q, p));
                }
            }
            assert(self.points@ == before.points@);
            let ne = Quadrant::NorthEast;
            let nw = Quadrant::NorthWest;
            let sw = Quadrant::SouthWest;
            let se = Quadrant::SouthEast;
            assert(opt_stored(self.ne) == opt_stored(self.spec_child(ne)));
            assert(opt_stored(self.nw) == opt_stored(self.spec_child(nw)));
            assert(opt_stored(self.sw) == opt_stored(self.spec_child(sw)));
            assert(opt_stored(self.se) == opt_stored(self.spec_child(se)));
            lemma_child_lands_inside(before, p);
            if before.lands(p) {
                assert(self.stored() =~= before.stored().insert(p));
            } else {
                assert(self.stored() =~= before.stored());
            }
        }
    }

    /// Inserts `p` into the child held in `slot`.
    fn insert_into(slot: &mut Option<Box<QuadTree>>, p: Point)
        requires
            old(slot).is_some(),
            old(slot).unwrap().wf(),
        ensures
            final(slot).is_some(),
            old(slot).unwrap().inserts(p, *final(slot).unwrap()),
            final(slot).unwrap().wf(),
        decreases old(slot).unwrap().spec_boundary().w + old(slot).unwrap().spec_boundary().h, 1int,
    {
        let mut t = slot.take().unwrap();
        (&mut *t).insert(p);
        *slot = Some(t);
    }
}

/// Inserting `k` points that lie inside the boundary into a fresh node with
/// capacity at least `k` leaves it undivided, holding exactly those points in
/// order.
proof fn lemma_fill_prefix(trees: Seq<QuadTree>, pts: Seq<Point>, k: int)
    requires
        trees.len() == pts.len() + 1,
        0 <= k <= pts.len() <= trees[0].spec_capacity(),
        trees[0].is_fresh(trees[0].spec_boundary(), trees[0].spec_capacity()),
        forall|i: int| 0 <= i < pts.len() ==> trees[0].spec_boundary().encloses(#[trigger] pts[i]),
        forall|i: int| 0 <= i < pts.len() ==> #[trigger] trees[i].inserts(pts[i], trees[i + 1]),
    ensures
        trees[k].spec_boundary() == trees[0].spec_boundary(),
        trees[k].spec_capacity() == trees[0].spec_capacity(),
        !trees[k].spec_divided(),
        trees[k].spec_points() == pts.take(k),
    decreases k,
{
    if k == 0 {
        assert(pts.take(0) =~= Seq::<Point>::empty());
    } else {
        lemma_fill_prefix(trees, pts, k - 1);
        let j = k - 1;
        assert(trees[j].inserts(pts[j], trees[j + 1]));
        assert(pts.take(k) =~= pts.take(k - 1).push(pts[k - 1]));
    }
}

/// A fresh node with capacity `c` keeps the first `c` points inserted inside
/// its boundary itself, in order, and stays undivided; one more point inside
/// its boundary divides it.
pub proof fn lemma_fill_then_divide(
    trees: Seq<QuadTree>,
    pts: Seq<Point>,
    p: Point,
    last: QuadTree,
)
    requires
        trees.len() == pts.len() + 1,
        trees[0].wf(),
        trees[0].is_fresh(trees[0].spec_boundary(), trees[0].spec_capacity()),
        pts.len() == trees[0].spec_capacity(),
        forall|i: int| 0 <= i < pts.len() ==> trees[0].spec_boundary().encloses(#[trigger] pts[i]),
        forall|i: int| 0 <= i < pts.len() ==> #[trigger] trees[i].inserts(pts[i], trees[i + 1]),
        trees[0].spec_boundary().encloses(p),
        trees[pts.len() as int].inserts(p, last),
    ensures
        !trees[pts.len() as int].spec_divided(),
        trees[pts.len() as int].spec_points() == pts,
        last.spec_divided(),
{
    lemma_fill_prefix(trees, pts, pts.len() as int);
    assert(pts.take(pts.len() as int) =~= pts);
}

/// Calling `subdivide` on a node that is already divided changes nothing,
/// so no point stored in a child is lost: after subdividing twice and then
/// inserting `p`, everything stored before is still stored, with `p` added
/// where it lands.
pub proof fn lemma_subdivide_twice_keeps_points(
    t0: QuadTree,
    t1: QuadTree,
    t2: QuadTree,
    t3: QuadTree,
    p: Point,
)
    requires
        t0.wf(),
        t0.subdivides(t1),
        t1.subdivides(t2),
        t2.inserts(p, t3),
    ensures
        t2 == t1,
        t1.stored() == t0.stored(),
        t3.stored() == if t1.lands(p) {
            t0.stored().insert(p)
        } else {
            t0.stored()
        },
        t0.stored().subset_of(t3.stored()),
{
    assert(t1.spec_divided()) by {
        if !t0.divided {
            assert(t1.spec_child(Quadrant::NorthEast) is Some);
        }
    }
    assert(t0.stored().subset_of(t3.stored()));
}

/// A fresh node holds nothing, and stores a point exactly when it has room
/// and the point lies inside its boundary.
proof fn lemma_fresh(t: QuadTree)
    requires
        t.is_fresh(t.boundary, t.capacity),
        t.boundary.wf(),
    ensures
        t.wf(),
        t.stored() == Multiset::<Point>::empty(),
        forall|p: Point| #[trigger] t.lands(p) == (0 < t.capacity && t.boundary.encloses(p)),
{
    assert(t.spec_child(Quadrant::NorthEast) is None);
    assert(t.spec_child(Quadrant::NorthWest) is None);
    assert(t.spec_child(Quadrant::SouthWest) is None);
    assert(t.spec_child(Quadrant::SouthEast) is None);
    assert(t.points@.to_multiset() =~= Multiset::empty()) by {
        broadcast use vstd::seq_lib::to_multiset_len;
        t.points@.to_multiset_ensures();
    }
    assert(t.stored() =~= Multiset::empty());
}

/// A point that lands in a child lies inside that child's quadrant, so it
/// lands in at most one child.
proof fn lemma_child_lands_inside(t: QuadTree, p: Point)
    requires
        t.wf(),
    ensures
        forall|q: Quadrant| #[trigger]
            t.child_lands(q, p) ==> t.boundary.quad(q).encloses(p),
{
    assert forall|q: Quadrant| #[trigger]
        t.child_lands(q, p) implies t.boundary.quad(q).encloses(p) by {
        let c = t.spec_child(q);
        if c is Some {
            assert(opt_wf(c, t.boundary.quad(q), t.capacity));
        }
    }
}

/// After a subdivision each child slot stores what it did before, and a
/// point handed to it lands exactly when it would have before.
proof fn lemma_subdivided_children(before: QuadTree, after: QuadTree, p: Point)
    requires
        before.wf(),
        before.subdivides(after),
    ensures
        forall|q: Quadrant| #[trigger]
            after.child_lands(q, p) == before.child_lands(q, p) && opt_stored(
                after.spec_child(q),
            ) == opt_stored(before.spec_child(q)),
{
    if !before.divided {
        lemma_quadrants_tile(before.boundary);
        assert forall|q: Quadrant| #[trigger]
            after.child_lands(q, p) == before.child_lands(q, p) && opt_stored(after.spec_child(q))
                == opt_stored(before.spec_child(q)) by {
            let t = after.spec_child(q).unwrap();
            assert(after.spec_child(q) matches Some(t) && t.is_fresh(before.boundary.quad(q), before.capacity));
            assert(t.is_fresh(before.boundary.quad(q), before.capacity));
            assert(before.boundary.quad(q).wf());
            lemma_fresh(*t);
            assert(before.spec_child(q) is None);
            assert(opt_stored(after.spec_child(q)) == t.stored());
            assert(after.child_lands(q, p) == t.lands(p));
        }
    }
}

} // verus!
