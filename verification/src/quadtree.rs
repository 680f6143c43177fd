//! The spatial index: a region quadtree over a bounded plane of `u32`
//! coordinates. Nodes store up to [`NODE_CAPACITY`] entities directly and
//! subdivide into four quadrants when a further entity arrives; range
//! queries prune whole subtrees by a rectangle-overlap test.
//!
//! Containment is closed: a point exactly on a region's boundary is
//! contained. A node that subdivides keeps the entities it already stored
//! rather than redistributing them into the new children; subdivision only
//! affects future inserts.

use vstd::prelude::*;
use vstd::multiset::Multiset;
use crate::constants::NODE_CAPACITY;
use crate::person::{Person, Position};

verus! {

/// Errors surfaced by the spatial index.
#[derive(Debug, Clone, Copy, PartialEq, Eq, Structural)]
pub enum IndexError {
    /// The domain handed to the constructor has zero width or height, or
    /// its far corner is not representable in the coordinate space.
    InvalidRegion,
    /// An insert was attempted outside the tree's domain.
    OutOfBounds,
    /// An entity matched no child region during a split; the children no
    /// longer cover the parent, which the tree never lets happen.
    IndexCorruption,
}

/// An axis-aligned rectangle: origin plus extent, with closed containment
/// on all four edges.
#[derive(Clone, Copy, Debug, PartialEq, Eq, Structural)]
pub struct QuadTreeRegion {
    pub x: u32,
    pub y: u32,
    pub width: u32,
    pub height: u32,
}

impl QuadTreeRegion {
    /// Maximum x coordinate still contained in the region.
    pub open spec fn max_x(self) -> int {
        self.x + self.width
    }

    /// Maximum y coordinate still contained in the region.
    pub open spec fn max_y(self) -> int {
        self.y + self.height
    }

    /// The far corner is representable in `u32` coordinates.
    pub open spec fn fits(self) -> bool {
        self.max_x() <= u32::MAX && self.max_y() <= u32::MAX
    }

    /// Zero extent in either dimension.
    pub open spec fn is_degenerate(self) -> bool {
        self.width == 0 || self.height == 0
    }

    /// Closed containment of a coordinate pair.
    pub open spec fn contains_coords(self, px: int, py: int) -> bool {
        self.x <= px && px <= self.max_x() && self.y <= py && py <= self.max_y()
    }

    /// Closed containment of a position.
    pub open spec fn contains_pos(self, pos: Position) -> bool {
        self.contains_coords(pos.x as int, pos.y as int)
    }

    /// Containment strictly inside the region, away from every edge.
    pub open spec fn strictly_inside(self, px: int, py: int) -> bool {
        self.x < px && px < self.max_x() && self.y < py && py < self.max_y()
    }

    /// Two regions share at least one point, boundary touching included.
    pub open spec fn spec_overlaps(self, other: QuadTreeRegion) -> bool {
        self.x <= other.max_x() && other.x <= self.max_x() && self.y <= other.max_y()
            && other.y <= self.max_y()
    }

    /// Width times height.
    pub open spec fn area(self) -> int {
        self.width * self.height
    }

    /// The four quadrants (NW, NE, SW, SE) of the region. Each dimension is
    /// split at its midpoint, rounding the low half down, so the two halves
    /// sum exactly to the parent dimension.
    pub open spec fn spec_split(self) -> (QuadTreeRegion, QuadTreeRegion, QuadTreeRegion,
        QuadTreeRegion) {
        let lw = (self.width / 2) as u32;
        let lh = (self.height / 2) as u32;
        let hw = (self.width - lw) as u32;
        let hh = (self.height - lh) as u32;
        (
            QuadTreeRegion { x: self.x, y: self.y, width: lw, height: lh },
            QuadTreeRegion { x: (self.x + lw) as u32, y: self.y, width: hw, height: lh },
            QuadTreeRegion { x: self.x, y: (self.y + lh) as u32, width: lw, height: hh },
            QuadTreeRegion {
                x: (self.x + lw) as u32,
                y: (self.y + lh) as u32,
                width: hw,
                height: hh,
            },
        )
    }

    pub fn new(x: u32, y: u32, w: u32, h: u32) -> (r: QuadTreeRegion)
        ensures
            r.x == x,
            r.y == y,
            r.width == w,
            r.height == h,
    {
        QuadTreeRegion { x, y, height: h, width: w }
    }

    /// Closed containment of an entity's coordinates.
    pub fn contains(&self, p: &Person) -> (b: bool)
        ensures
            b == self.contains_pos(p.position),
    {
        self.x <= p.position.x && self.y <= p.position.y && self.x as u64 + self.width as u64
            >= p.position.x as u64 && self.y as u64 + self.height as u64 >= p.position.y as u64
    }

    /// Rectangle overlap test: true when the regions share at least one
    /// point, boundary touching included.
    pub fn overlaps(&self, other: &QuadTreeRegion) -> (b: bool)
        ensures
            b == self.spec_overlaps(*other),
    {
        self.x as u64 <= other.x as u64 + other.width as u64 && other.x as u64 <= self.x as u64
            + self.width as u64 && self.y as u64 <= other.y as u64 + other.height as u64
            && other.y as u64 <= self.y as u64 + self.height as u64
    }

    /// Quarter the region into its NW, NE, SW and SE quadrants.
    pub fn split(&self) -> (q: (QuadTreeRegion, QuadTreeRegion, QuadTreeRegion, QuadTreeRegion))
        requires
            self.fits(),
        ensures
            q == self.spec_split(),
    {
        let lw: u32 = self.width / 2;
        let lh: u32 = self.height / 2;
        let hw: u32 = self.width - lw;
        let hh: u32 = self.height - lh;
        let nw = QuadTreeRegion::new(self.x, self.y, lw, lh);
        let ne = QuadTreeRegion::new(self.x + lw, self.y, hw, lh);
        let sw = QuadTreeRegion::new(self.x, self.y + lh, lw, hh);
        let se = QuadTreeRegion::new(self.x + lw, self.y + lh, hw, hh);
        (nw, ne, sw, se)
    }
}

/// A point contained in two regions witnesses their overlap.
proof fn lemma_contains_both_overlaps(a: QuadTreeRegion, b: QuadTreeRegion, px: int, py: int)
    requires
        a.contains_coords(px, py),
        b.contains_coords(px, py),
    ensures
        a.spec_overlaps(b),
{
}

/// The quadrants of a region cover it: a contained point is contained in at
/// least one quadrant, and each quadrant lies within the parent.
proof fn lemma_split_covers(r: QuadTreeRegion, px: int, py: int)
    requires
        r.fits(),
    ensures
        ({
            let (nw, ne, sw, se) = r.spec_split();
            &&& r.contains_coords(px, py) ==> (nw.contains_coords(px, py) || ne.contains_coords(
                px, py) || sw.contains_coords(px, py) || se.contains_coords(px, py))
            &&& nw.contains_coords(px, py) ==> r.contains_coords(px, py)
            &&& ne.contains_coords(px, py) ==> r.contains_coords(px, py)
            &&& sw.contains_coords(px, py) ==> r.contains_coords(px, py)
            &&& se.contains_coords(px, py) ==> r.contains_coords(px, py)
        }),
{
}

/// Each quadrant of a representable region is itself representable.
proof fn lemma_split_fits(r: QuadTreeRegion)
    requires
        r.fits(),
    ensures
        ({
            let (nw, ne, sw, se) = r.spec_split();
            nw.fits() && ne.fits() && sw.fits() && se.fits()
        }),
{
}

/// Split exactness: the four quadrant areas sum to the parent's area, and
/// two distinct quadrants share no interior point — they overlap at most on
/// shared boundary edges.
pub proof fn lemma_split_exact(r: QuadTreeRegion, px: int, py: int)
    requires
        r.fits(),
    ensures
        ({
            let (nw, ne, sw, se) = r.spec_split();
            nw.area() + ne.area() + sw.area() + se.area() == r.area()
        }),
        ({
            let (nw, ne, sw, se) = r.spec_split();
            &&& !(nw.strictly_inside(px, py) && ne.strictly_inside(px, py))
            &&& !(nw.strictly_inside(px, py) && sw.strictly_inside(px, py))
            &&& !(nw.strictly_inside(px, py) && se.strictly_inside(px, py))
            &&& !(ne.strictly_inside(px, py) && sw.strictly_inside(px, py))
            &&& !(ne.strictly_inside(px, py) && se.strictly_inside(px, py))
            &&& !(sw.strictly_inside(px, py) && se.strictly_inside(px, py))
        }),
{
    let lw = r.width / 2;
    let lh = r.height / 2;
    let hw = r.width - lw;
    let hh = r.height - lh;
    assert(lw * lh + hw * lh + lw * hh + hw * hh == (lw + hw) * (lh + hh)) by (nonlinear_arith);
}

/// The four child nodes of a subdivided node, one per quadrant.
struct Quadrants {
    nw: Node,
    ne: Node,
    sw: Node,
    se: Node,
}

/// One node of the quadtree: the region it governs, the entities stored
/// directly at this node, either no children or exactly four, and a level
/// counter kept for diagnostics only.
struct Node {
    region: QuadTreeRegion,
    depth: u32,
    entities: Vec<Person>,
    children: Option<Box<Quadrants>>,
}

/// The larger of two naturals.
spec fn nat_max(a: nat, b: nat) -> nat {
    if a >= b {
        a
    } else {
        b
    }
}

impl Node {
    /// The multiset of entities stored in this subtree.
    spec fn ms(self) -> Multiset<Person>
        decreases self,
    {
        self.entities@.to_multiset().add(
            match self.children {
                None => Multiset::<Person>::empty(),
                Some(q) => q.nw.ms().add(q.ne.ms()).add(q.sw.ms()).add(q.se.ms()),
            },
        )
    }

    /// Height of the subtree: 0 at a leaf.
    spec fn height(self) -> nat
        decreases self,
    {
        match self.children {
            None => 0,
            Some(q) => 1 + nat_max(
                nat_max(q.nw.height(), q.ne.height()),
                nat_max(q.sw.height(), q.se.height()),
            ),
        }
    }

    /// Well-formedness: the region is representable, the node holds at most
    /// `NODE_CAPACITY` entities, each directly within the node's region, and
    /// children — when present — govern exactly the four quadrants of the
    /// node's region and are themselves well-formed.
    spec fn wf(self) -> bool
        decreases self,
    {
        &&& self.region.fits()
        &&& self.entities@.len() <= NODE_CAPACITY
        &&& (forall|i: int|
            0 <= i < self.entities@.len() ==> self.region.contains_pos(
                (#[trigger] self.entities@[i]).position,
            ))
        &&& match self.children {
            None => true,
            Some(q) => {
                &&& (q.nw.region, q.ne.region, q.sw.region, q.se.region) == self.region.spec_split()
                &&& q.nw.wf()
                &&& q.ne.wf()
                &&& q.sw.wf()
                &&& q.se.wf()
            },
        }
    }

    /// Every entity stored in a well-formed subtree lies in its region.
    proof fn lemma_in_region(self, e: Person)
        requires
            self.wf(),
            self.ms().count(e) > 0,
        ensures
            self.region.contains_pos(e.position),
        decreases self,
    {
        broadcast use vstd::multiset::group_multiset_axioms;
        broadcast use vstd::seq_lib::group_to_multiset_ensures;

        if self.entities@.to_multiset().count(e) > 0 {
            assert(self.entities@.contains(e));
            let i = choose|i: int| 0 <= i < self.entities@.len() && self.entities@[i] == e;
            assert(self.region.contains_pos(self.entities@[i].position));
        } else {
            match self.children {
                None => {
                    assert(false);
                },
                Some(q) => {
                    lemma_split_covers(self.region, e.position.x as int, e.position.y as int);
                    if q.nw.ms().count(e) > 0 {
                        q.nw.lemma_in_region(e);
                    } else if q.ne.ms().count(e) > 0 {
                        q.ne.lemma_in_region(e);
                    } else if q.sw.ms().count(e) > 0 {
                        q.sw.lemma_in_region(e);
                    } else {
                        q.se.lemma_in_region(e);
                    }
                },
            }
        }
    }

    /// A fresh leaf over `region`, holding nothing.
    fn new_leaf(region: QuadTreeRegion, depth: u32) -> (n: Node)
        requires
            region.fits(),
        ensures
            n.wf(),
            n.region == region,
            n.depth == depth,
            n.children is None,
            n.entities@.len() == 0,
            n.ms() == Multiset::<Person>::empty(),
            n.height() == 0,
    {
        let n = Node { region, depth, entities: Vec::new(), children: None };
        proof {
            broadcast use vstd::multiset::group_multiset_axioms;
            broadcast use vstd::seq_lib::group_to_multiset_ensures;

            assert(n.ms() =~= Multiset::<Person>::empty());
        }
        n
    }

    /// Insert an entity into the subtree. Fails locally when the entity's
    /// coordinates are outside the node's region; a leaf below capacity
    /// appends the entity; a leaf at capacity subdivides first and routes
    /// the entity into the quadrant that contains it; a subdivided node
    /// routes the entity into the first of its children (NW, NE, SW, SE
    /// order) whose region contains it.
    fn insert(&mut self, p: Person) -> (r: Result<(), IndexError>)
        requires
            old(self).wf(),
        ensures
            final(self).wf(),
            final(self).region == old(self).region,
            final(self).depth == old(self).depth,
            old(self).region.contains_pos(p.position) ==> r is Ok
                && final(self).ms() == old(self).ms().insert(p),
            !old(self).region.contains_pos(p.position)
                ==> r == Result::<(), IndexError>::Err(IndexError::OutOfBounds)
                && *final(self) == *old(self),
            (old(self).children is None && old(self).entities@.len() < NODE_CAPACITY
                && old(self).region.contains_pos(p.position))
                ==> final(self).height() == 0
                && final(self).entities@.len() == old(self).entities@.len() + 1,
            (old(self).children is None && old(self).entities@.len() == NODE_CAPACITY
                && old(self).region.contains_pos(p.position))
                ==> final(self).height() == 1
                && final(self).entities@.len() == old(self).entities@.len(),
        decreases *old(self),
    {
        broadcast use vstd::multiset::group_multiset_axioms;
        broadcast use vstd::seq_lib::group_to_multiset_ensures;

        if !self.region.contains(&p) {
            return Err(IndexError::OutOfBounds);
        }
        match self.children.take() {
            None => {
                if self.entities.len() < NODE_CAPACITY {
                    self.entities.push(p);
                    assert(self.ms() =~= old(self).ms().insert(p));
                    Ok(())
                } else {
                    let regions = self.region.split();
                    let d: u32 = if self.depth < u32::MAX {
                        self.depth + 1
                    } else {
                        self.depth
                    };
                    proof {
                        lemma_split_fits(self.region);
                        lemma_split_covers(self.region, p.position.x as int, p.position.y as int);
                    }
                    let mut quads = Box::new(
                        Quadrants {
                            nw: Node::new_leaf(regions.0, d),
                            ne: Node::new_leaf(regions.1, d),
                            sw: Node::new_leaf(regions.2, d),
                            se: Node::new_leaf(regions.3, d),
                        },
                    );
                    let res: Result<(), IndexError> = if quads.nw.region.contains(&p) {
                        quads.nw.entities.push(p);
                        Ok(())
                    } else if quads.ne.region.contains(&p) {
                        quads.ne.entities.push(p);
                        Ok(())
                    } else if quads.sw.region.contains(&p) {
                        quads.sw.entities.push(p);
                        Ok(())
                    } else if quads.se.region.contains(&p) {
                        quads.se.entities.push(p);
                        Ok(())
                    } else {
                        Err(IndexError::IndexCorruption)
                    };
                    self.children = Some(quads);
                    proof {
                        reveal_with_fuel(Node::ms, 2);
                        reveal_with_fuel(Node::height, 2);
                        reveal_with_fuel(Node::wf, 2);
                        assert(self.wf());
                        assert(self.height() == 1);
                        assert(self.ms() =~= old(self).ms().insert(p));
                    }
                    res
                }
            },
            Some(mut quads) => {
                let res: Result<(), IndexError> = if quads.nw.region.contains(&p) {
                    quads.nw.insert(p)
                } else if quads.ne.region.contains(&p) {
                    quads.ne.insert(p)
                } else if quads.sw.region.contains(&p) {
                    quads.sw.insert(p)
                } else if quads.se.region.contains(&p) {
                    quads.se.insert(p)
                } else {
                    Err(IndexError::IndexCorruption)
                };
                self.children = Some(quads);
                proof {
                    lemma_split_covers(self.region, p.position.x as int, p.position.y as int);
                    assert(self.ms() =~= old(self).ms().insert(p));
                }
                res
            },
        }
    }

    /// True exactly when the subtree is deeper than `d` levels below this
    /// node.
    fn height_exceeds(&self, d: usize) -> (b: bool)
        ensures
            b == (self.height() > d),
        decreases *self,
    {
        match &self.children {
            None => false,
            Some(q) => {
                if d == 0 {
                    true
                } else {
                    q.nw.height_exceeds(d - 1) || q.ne.height_exceeds(d - 1) || q.sw.height_exceeds(
                        d - 1,
                    ) || q.se.height_exceeds(d - 1)
                }
            },
        }
    }

    /// Nothing stored in a subtree whose region misses the query region can
    /// match the query.
    proof fn lemma_prune(self, q: QuadTreeRegion)
        requires
            self.wf(),
            !self.region.spec_overlaps(q),
        ensures
            query_model(self.ms(), q) == Multiset::<Person>::empty(),
    {
        broadcast use vstd::multiset::group_multiset_axioms;

        assert forall|e: Person| query_model(self.ms(), q).count(e) == 0 by {
            if q.contains_pos(e.position) && self.ms().count(e) > 0 {
                self.lemma_in_region(e);
                lemma_contains_both_overlaps(
                    self.region,
                    q,
                    e.position.x as int,
                    e.position.y as int,
                );
            }
        }
        assert(query_model(self.ms(), q) =~= Multiset::<Person>::empty());
    }

    /// Collect every entity of the subtree whose coordinates lie in
    /// `region`, by full recursive traversal with overlap pruning. Results
    /// from the node's own entities come first, then from the children in
    /// NW, NE, SW, SE order; callers get no ordering guarantee.
    fn query(&self, region: &QuadTreeRegion) -> (res: Vec<Person>)
        requires
            self.wf(),
        ensures
            res@.to_multiset() == query_model(self.ms(), *region),
        decreases *self,
    {
        broadcast use vstd::multiset::group_multiset_axioms;
        broadcast use vstd::seq_lib::group_to_multiset_ensures;

        let mut res: Vec<Person> = Vec::new();
        if !self.region.overlaps(region) {
            proof {
                self.lemma_prune(*region);
                assert(res@.to_multiset() =~= Multiset::<Person>::empty());
            }
            return res;
        }
        let mut i: usize = 0;
        proof {
            assert(res@.to_multiset() =~= query_model(
                self.entities@.take(0).to_multiset(),
                *region,
            ));
        }
        while i < self.entities.len()
            invariant
                i <= self.entities@.len(),
                res@.to_multiset() == query_model(
                    self.entities@.take(i as int).to_multiset(),
                    *region,
                ),
            decreases self.entities@.len() - i,
        {
            let e = self.entities[i];
            proof {
                broadcast use vstd::multiset::group_multiset_axioms;
                broadcast use vstd::seq_lib::group_to_multiset_ensures;

                assert(self.entities@.take(i + 1) =~= self.entities@.take(i as int).push(
                    self.entities@[i as int],
                ));
                lemma_query_model_insert(
                    self.entities@.take(i as int).to_multiset(),
                    *region,
                    self.entities@[i as int],
                );
            }
            if region.contains(&e) {
                res.push(e);
            }
            i += 1;
        }
        proof {
            assert(self.entities@.take(self.entities@.len() as int) =~= self.entities@);
        }
        match &self.children {
            None => {
                proof {
                    lemma_query_model_add(
                        self.entities@.to_multiset(),
                        Multiset::<Person>::empty(),
                        *region,
                    );
                    assert(query_model(Multiset::<Person>::empty(), *region) =~= Multiset::<
                        Person,
                    >::empty());
                    assert(self.ms() == self.entities@.to_multiset().add(
                        Multiset::<Person>::empty(),
                    ));
                    assert(res@.to_multiset() =~= query_model(self.ms(), *region));
                }
            },
            Some(q) => {
                let ghost r_own = res@;
                let mut v0 = q.nw.query(region);
                let ghost r0 = v0@;
                res.append(&mut v0);
                let mut v1 = q.ne.query(region);
                let ghost r1 = v1@;
                res.append(&mut v1);
                let mut v2 = q.sw.query(region);
                let ghost r2 = v2@;
                res.append(&mut v2);
                let mut v3 = q.se.query(region);
                let ghost r3 = v3@;
                res.append(&mut v3);
                proof {
                    broadcast use vstd::seq_lib::lemma_multiset_commutative;

                    assert(res@ == r_own + r0 + r1 + r2 + r3);
                    let child_ms = q.nw.ms().add(q.ne.ms()).add(q.sw.ms()).add(q.se.ms());
                    assert(self.ms() == self.entities@.to_multiset().add(child_ms));
                    lemma_query_model_add(q.nw.ms(), q.ne.ms(), *region);
                    lemma_query_model_add(q.nw.ms().add(q.ne.ms()), q.sw.ms(), *region);
                    lemma_query_model_add(q.nw.ms().add(q.ne.ms()).add(q.sw.ms()), q.se.ms(), *region);
                    lemma_query_model_add(self.entities@.to_multiset(), child_ms, *region);
                    assert(res@.to_multiset() =~= query_model(self.ms(), *region));
                }
            },
        }
        res
    }
}

/// The entities of `ms` whose coordinates lie in `region`: the answer a
/// range query over a tree holding `ms` must produce.
pub open spec fn query_model(ms: Multiset<Person>, region: QuadTreeRegion) -> Multiset<Person> {
    ms.filter(|e: Person| region.contains_pos(e.position))
}

/// Restricting a multiset after adding one entity adds that entity exactly
/// when the region contains it.
pub(crate) proof fn lemma_query_model_insert(ms: Multiset<Person>, region: QuadTreeRegion, e: Person)
    ensures
        region.contains_pos(e.position) ==> query_model(ms.insert(e), region) == query_model(
            ms,
            region,
        ).insert(e),
        !region.contains_pos(e.position) ==> query_model(ms.insert(e), region) == query_model(
            ms,
            region,
        ),
{
    broadcast use vstd::multiset::group_multiset_axioms;

    if region.contains_pos(e.position) {
        assert(query_model(ms.insert(e), region) =~= query_model(ms, region).insert(e));
    } else {
        assert(query_model(ms.insert(e), region) =~= query_model(ms, region));
    }
}

/// The spatial index: a quadtree over a fixed rectangular domain, with a
/// running count of stored entities. Entities are inserted once each and
/// never removed; queries are read-only.
pub struct QuadTree {
    root: Node,
    count: usize,
}

impl View for QuadTree {
    type V = Multiset<Person>;

    /// The multiset of entities stored in the tree.
    closed spec fn view(&self) -> Multiset<Person> {
        self.root.ms()
    }
}

impl QuadTree {
    /// Well-formedness: the domain is non-degenerate and representable, the
    /// nodes satisfy their structural invariants, and the stored count
    /// matches the contents.
    pub closed spec fn wf(self) -> bool {
        &&& self.root.wf()
        &&& !self.root.region.is_degenerate()
        &&& self.count == self@.len()
    }

    /// The domain rectangle the tree was created over.
    pub closed spec fn bounds_spec(self) -> QuadTreeRegion {
        self.root.region
    }

    /// Height of the tree: 0 while the root is an undivided leaf.
    pub closed spec fn height_spec(self) -> nat {
        self.root.height()
    }

    /// Create an index over the domain `bounds`. Rejects a degenerate
    /// domain (zero width or height) as `InvalidRegion`; a domain whose far
    /// corner does not fit the `u32` coordinate space is equally
    /// unrepresentable and rejected the same way.
    pub fn new(bounds: QuadTreeRegion) -> (r: Result<QuadTree, IndexError>)
        ensures
            r is Ok <==> (!bounds.is_degenerate() && bounds.fits()),
            r is Ok ==> (r->Ok_0).wf() && (r->Ok_0)@ == Multiset::<Person>::empty() && (
            r->Ok_0).bounds_spec() == bounds && (r->Ok_0).height_spec() == 0,
            r is Err ==> r->Err_0 == IndexError::InvalidRegion,
    {
        if bounds.width == 0 || bounds.height == 0 {
            return Err(IndexError::InvalidRegion);
        }
        if bounds.x as u64 + bounds.width as u64 > u32::MAX as u64 || bounds.y as u64
            + bounds.height as u64 > u32::MAX as u64 {
            return Err(IndexError::InvalidRegion);
        }
        let root = Node::new_leaf(bounds, 0);
        proof {
            broadcast use vstd::multiset::group_multiset_axioms;
        }
        Ok(QuadTree { root, count: 0 })
    }

    /// Insert an entity. Succeeds exactly when the entity's coordinates lie
    /// in the domain, adding it once to the stored multiset; an entity
    /// outside the domain is rejected as `OutOfBounds` and the tree is left
    /// unchanged. The insert that meets an undivided root already holding
    /// `NODE_CAPACITY` entities subdivides the root exactly once; below
    /// capacity the root stays an undivided leaf.
    pub fn insert(&mut self, p: Person) -> (r: Result<(), IndexError>)
        requires
            old(self).wf(),
            old(self)@.len() < usize::MAX,
        ensures
            final(self).wf(),
            final(self).bounds_spec() == old(self).bounds_spec(),
            old(self).bounds_spec().contains_pos(p.position) ==> r is Ok
                && final(self)@ == old(self)@.insert(p),
            !old(self).bounds_spec().contains_pos(p.position)
                ==> r == Result::<(), IndexError>::Err(IndexError::OutOfBounds)
                && *final(self) == *old(self),
            (old(self).height_spec() == 0 && old(self)@.len() < NODE_CAPACITY
                && old(self).bounds_spec().contains_pos(p.position))
                ==> final(self).height_spec() == 0,
            (old(self).height_spec() == 0 && old(self)@.len() == NODE_CAPACITY
                && old(self).bounds_spec().contains_pos(p.position))
                ==> final(self).height_spec() == 1,
    {
        proof {
            broadcast use vstd::multiset::group_multiset_axioms;
            broadcast use vstd::seq_lib::group_to_multiset_ensures;

            if old(self).root.children is None {
                assert(old(self).root.ms() == old(self).root.entities@.to_multiset().add(
                    Multiset::<Person>::empty(),
                ));
                assert(old(self)@.len() == old(self).root.entities@.len());
            }
        }
        match self.root.insert(p) {
            Ok(u) => {
                self.count = self.count + 1;
                proof {
                    broadcast use vstd::multiset::group_multiset_axioms;
                }
                Ok(u)
            },
            Err(e) => Err(e),
        }
    }

    /// Collect every stored entity whose coordinates lie in `region`, by
    /// full recursive traversal with overlap pruning. The order of the
    /// result is not guaranteed; treat it as a multiset.
    pub fn query_range(&self, region: &QuadTreeRegion) -> (res: Vec<Person>)
        requires
            self.wf(),
        ensures
            res@.to_multiset() == query_model(self@, *region),
    {
        self.root.query(region)
    }

    /// Number of stored entities.
    pub fn len(&self) -> (n: usize)
        requires
            self.wf(),
        ensures
            n == self@.len(),
    {
        self.count
    }

    /// The domain rectangle the tree was created over.
    pub fn bounds(&self) -> (b: QuadTreeRegion)
        ensures
            b == self.bounds_spec(),
    {
        self.root.region
    }

    /// True exactly when the tree is deeper than `d` levels below the root:
    /// `height_exceeds(0)` observes whether the root has subdivided.
    pub fn height_exceeds(&self, d: usize) -> (b: bool)
        ensures
            b == (self.height_spec() > d),
    {
        self.root.height_exceeds(d)
    }
}

/// Query soundness and completeness: an entity is in a range query's answer
/// exactly when its coordinates are contained in the queried region — with
/// the multiplicity it has in the tree — whatever region is asked about.
pub proof fn lemma_query_exact(ms: Multiset<Person>, region: QuadTreeRegion, e: Person)
    ensures
        query_model(ms, region).count(e) == if region.contains_pos(e.position) {
            ms.count(e)
        } else {
            0
        },
{
    broadcast use vstd::multiset::group_multiset_axioms;
}

/// Query completeness under full coverage: a range query over the tree's
/// own domain answers with exactly the stored entity multiset — whatever
/// order the entities were inserted in, since the stored multiset alone
/// determines the answer.
pub proof fn lemma_query_full_domain(t: QuadTree)
    requires
        t.wf(),
    ensures
        query_model(t@, t.bounds_spec()) == t@,
{
    broadcast use vstd::multiset::group_multiset_axioms;

    assert forall|e: Person| query_model(t@, t.bounds_spec()).count(e) == t@.count(e) by {
        if t@.count(e) > 0 {
            t.root.lemma_in_region(e);
        }
    }
    assert(query_model(t@, t.bounds_spec()) =~= t@);
}

/// Containment round-trip: an entity inserted successfully into a tree that
/// did not hold it before appears exactly once in a query over the full
/// domain afterwards.
pub proof fn lemma_containment_round_trip(t: QuadTree, before: Multiset<Person>, e: Person)
    requires
        t.wf(),
        before.count(e) == 0,
        t@ == before.insert(e),
    ensures
        query_model(t@, t.bounds_spec()).count(e) == 1,
{
    broadcast use vstd::multiset::group_multiset_axioms;

    lemma_query_full_domain(t);
}

/// Idempotent querying: any two answers a range query may give for the same
/// region on an unmodified tree hold exactly the same entities.
pub proof fn lemma_query_repeatable(
    t: QuadTree,
    region: QuadTreeRegion,
    r1: Seq<Person>,
    r2: Seq<Person>,
)
    requires
        r1.to_multiset() == query_model(t@, region),
        r2.to_multiset() == query_model(t@, region),
    ensures
        r1.to_multiset() == r2.to_multiset(),
{
}

/// Restricting to a region distributes over multiset union.
proof fn lemma_query_model_add(m1: Multiset<Person>, m2: Multiset<Person>, region: QuadTreeRegion)
    ensures
        query_model(m1.add(m2), region) == query_model(m1, region).add(query_model(m2, region)),
{
    broadcast use vstd::multiset::group_multiset_axioms;

    assert(query_model(m1.add(m2), region) =~= query_model(m1, region).add(
        query_model(m2, region),
    ));
}

} // verus!
