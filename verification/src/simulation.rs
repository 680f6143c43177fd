//! The simulation core: a population of agents held in a quadtree over the
//! square room, a shared time counter, and the per-tick proximity-query
//! protocol that discovers every agent within the influence radius of each
//! agent.
//!
//! Randomness stays outside this module: the population is handed in by
//! the bootstrap ready-made, and agent state transitions take their death
//! roll as an argument.

use vstd::prelude::*;
use vstd::multiset::Multiset;
use crate::constants::{INFLUENCE_RADIUS, ROOM_SIZE};
use crate::person::{Person, Status};
use crate::quadtree::{lemma_query_full_domain, query_model, QuadTree, QuadTreeRegion};

verus! {

/// The square simulation domain.
pub open spec fn room_region() -> QuadTreeRegion {
    QuadTreeRegion { x: 0, y: 0, width: ROOM_SIZE, height: ROOM_SIZE }
}

/// Every agent of the sequence is healthy; vacuously true of an empty one.
pub open spec fn all_healthy(s: Seq<Person>) -> bool {
    forall|i: int| 0 <= i < s.len() ==> (#[trigger] s[i]).status == Status::Healthy
}

/// Every agent of the multiset is healthy.
pub open spec fn ms_all_healthy(ms: Multiset<Person>) -> bool {
    forall|p: Person| ms.count(p) > 0 ==> p.status == Status::Healthy
}

/// True when `q` lies within Euclidean distance `radius` of `p`.
pub open spec fn within_radius(p: Person, q: Person, radius: u32) -> bool {
    p.dist_sq(q) <= radius * radius
}

/// The agents of `ms` within Euclidean distance `radius` of `p`: the answer
/// a proximity query must produce.
pub open spec fn proximity_model(ms: Multiset<Person>, p: Person, radius: u32) -> Multiset<
    Person,
> {
    ms.filter(|q: Person| within_radius(p, q, radius))
}

/// The square of side `2 * radius` centered on `p`, clipped to the
/// representable coordinate space: the coarse candidate region a proximity
/// query asks the index about.
pub open spec fn influence_bound(p: Person, radius: u32) -> QuadTreeRegion {
    let x0 = if p.position.x >= radius {
        (p.position.x - radius) as u32
    } else {
        0u32
    };
    let y0 = if p.position.y >= radius {
        (p.position.y - radius) as u32
    } else {
        0u32
    };
    let x1 = if p.position.x <= u32::MAX - radius {
        (p.position.x + radius) as u32
    } else {
        u32::MAX
    };
    let y1 = if p.position.y <= u32::MAX - radius {
        (p.position.y + radius) as u32
    } else {
        u32::MAX
    };
    QuadTreeRegion { x: x0, y: y0, width: (x1 - x0) as u32, height: (y1 - y0) as u32 }
}

/// A sequence is all healthy exactly when the multiset of its elements is.
proof fn lemma_all_healthy_ms(s: Seq<Person>)
    ensures
        all_healthy(s) == ms_all_healthy(s.to_multiset()),
{
    broadcast use vstd::seq_lib::group_to_multiset_ensures;

    if all_healthy(s) {
        assert forall|p: Person| s.to_multiset().count(p) > 0 implies p.status
            == Status::Healthy by {
            assert(s.contains(p));
            let i = choose|i: int| 0 <= i < s.len() && s[i] == p;
            assert(s[i].status == Status::Healthy);
        }
    } else {
        let i = choose|i: int| 0 <= i < s.len() && s[i].status != Status::Healthy;
        assert(s.contains(s[i]));
        assert(s.to_multiset().count(s[i]) > 0);
    }
}

/// An agent within the influence radius lies in the bounding square the
/// proximity query asks about: the coarse candidate region loses no true
/// neighbor.
proof fn lemma_within_radius_in_bound(p: Person, q: Person, radius: u32)
    requires
        within_radius(p, q, radius),
    ensures
        influence_bound(p, radius).contains_pos(q.position),
{
    let px = p.position.x as int;
    let py = p.position.y as int;
    let qx = q.position.x as int;
    let qy = q.position.y as int;
    let r = radius as int;
    let dx = px - qx;
    let dy = py - qy;
    assert(dx * dx >= 0 && dy * dy >= 0) by (nonlinear_arith);
    assert(dx * dx <= r * r && dy * dy <= r * r);
    assert(-r <= dx <= r) by (nonlinear_arith)
        requires
            dx * dx <= r * r,
            r >= 0,
    ;
    assert(-r <= dy <= r) by (nonlinear_arith)
        requires
            dy * dy <= r * r,
            r >= 0,
    ;
}

/// Filtering the candidates of the bounding square by exact distance gives
/// the same answer as filtering the whole population: the two-stage
/// proximity protocol is exact.
proof fn lemma_proximity_compose(ms: Multiset<Person>, p: Person, radius: u32)
    ensures
        proximity_model(query_model(ms, influence_bound(p, radius)), p, radius)
            == proximity_model(ms, p, radius),
{
    broadcast use vstd::multiset::group_multiset_axioms;

    let coarse = query_model(ms, influence_bound(p, radius));
    assert forall|q: Person|
        proximity_model(coarse, p, radius).count(q) == proximity_model(ms, p, radius).count(
            q,
        ) by {
        if within_radius(p, q, radius) {
            lemma_within_radius_in_bound(p, q, radius);
        }
    }
    assert(proximity_model(coarse, p, radius) =~= proximity_model(ms, p, radius));
}

/// Proximity exactness: an agent is in a proximity query's answer exactly
/// when it lies within the influence radius of the queried agent — with
/// the multiplicity it has in the population.
pub proof fn lemma_proximity_exact(ms: Multiset<Person>, p: Person, q: Person, radius: u32)
    ensures
        proximity_model(ms, p, radius).count(q) == if within_radius(p, q, radius) {
            ms.count(q)
        } else {
            0
        },
{
    broadcast use vstd::multiset::group_multiset_axioms;
}

/// Restricting by distance after adding one agent adds that agent exactly
/// when it is within the radius.
proof fn lemma_proximity_insert(ms: Multiset<Person>, p: Person, q: Person, radius: u32)
    ensures
        within_radius(p, q, radius) ==> proximity_model(ms.insert(q), p, radius)
            == proximity_model(ms, p, radius).insert(q),
        !within_radius(p, q, radius) ==> proximity_model(ms.insert(q), p, radius)
            == proximity_model(ms, p, radius),
{
    broadcast use vstd::multiset::group_multiset_axioms;

    if within_radius(p, q, radius) {
        assert(proximity_model(ms.insert(q), p, radius) =~= proximity_model(
            ms,
            p,
            radius,
        ).insert(q));
    } else {
        assert(proximity_model(ms.insert(q), p, radius) =~= proximity_model(ms, p, radius));
    }
}

/// The simulation: the population spatial index, the shared time counter,
/// and the full-domain region used to enumerate everyone each tick.
pub struct Simulation {
    population: QuadTree,
    current_time: u32,
    full_range: QuadTreeRegion,
}

impl View for Simulation {
    type V = Multiset<Person>;

    /// The population as a multiset of agents.
    closed spec fn view(&self) -> Multiset<Person> {
        self.population@
    }
}

impl Simulation {
    /// Well-formedness: the index is well-formed and the cached full-domain
    /// region is exactly the index's own domain.
    pub closed spec fn wf(self) -> bool {
        &&& self.population.wf()
        &&& self.full_range == self.population.bounds_spec()
        &&& self.full_range == room_region()
    }

    /// The shared simulation time.
    pub closed spec fn time_spec(self) -> u32 {
        self.current_time
    }

    /// Build a simulation over the room from a ready-made population.
    /// Agents whose coordinates lie outside the room are rejected by the
    /// index and dropped; everyone else is stored, duplicates included.
    pub fn new(people: Vec<Person>) -> (s: Simulation)
        ensures
            s.wf(),
            s.time_spec() == 0,
            s@ == query_model(people@.to_multiset(), room_region()),
    {
        broadcast use vstd::multiset::group_multiset_axioms;
        broadcast use vstd::seq_lib::group_to_multiset_ensures;

        let range = QuadTreeRegion::new(0, 0, ROOM_SIZE, ROOM_SIZE);
        let mut tree = match QuadTree::new(range) {
            Ok(t) => t,
            Err(_) => vstd::pervasive::unreached(),
        };
        proof {
            assert(tree@ =~= query_model(people@.take(0).to_multiset(), room_region()));
        }
        let mut i: usize = 0;
        while i < people.len()
            invariant
                tree.wf(),
                tree.bounds_spec() == room_region(),
                i <= people@.len(),
                tree@ == query_model(people@.take(i as int).to_multiset(), room_region()),
                tree@.len() <= i,
            decreases people@.len() - i,
        {
            let p = people[i];
            proof {
                broadcast use vstd::multiset::group_multiset_axioms;
                broadcast use vstd::seq_lib::group_to_multiset_ensures;

                assert(people@.take(i + 1) =~= people@.take(i as int).push(people@[i as int]));
                crate::quadtree::lemma_query_model_insert(
                    people@.take(i as int).to_multiset(),
                    room_region(),
                    people@[i as int],
                );
            }
            let _ = tree.insert(p);
            i += 1;
        }
        proof {
            assert(people@.take(people@.len() as int) =~= people@);
        }
        Simulation { population: tree, current_time: 0, full_range: range }
    }

    /// The shared simulation time.
    pub fn current_time(&self) -> (t: u32)
        ensures
            t == self.time_spec(),
    {
        self.current_time
    }

    /// Number of stored agents.
    pub fn population_len(&self) -> (n: usize)
        requires
            self.wf(),
        ensures
            n == self@.len(),
    {
        self.population.len()
    }

    /// The epidemic has run its course when nobody is left or nobody is
    /// infectious, sick or dead any more.
    pub fn is_finished(&self, population: &Vec<Person>) -> (b: bool)
        ensures
            b == all_healthy(population@),
    {
        if population.len() == 0 {
            return true;
        }
        let mut i: usize = 0;
        while i < population.len()
            invariant
                i <= population@.len(),
                forall|j: int|
                    0 <= j < i ==> (#[trigger] population@[j]).status == Status::Healthy,
            decreases population@.len() - i,
        {
            if !matches!(population[i].status, Status::Healthy) {
                return false;
            }
            i += 1;
        }
        true
    }

    /// Proximity query: every stored agent within Euclidean distance
    /// `radius` of `p` — the queried agent itself included when stored. The
    /// index supplies the agents of the bounding square of side
    /// `2 * radius` around `p`; an exact distance filter then removes the
    /// square's corners.
    pub fn neighbors(&self, p: &Person, radius: u32) -> (res: Vec<Person>)
        requires
            self.wf(),
        ensures
            res@.to_multiset() == proximity_model(self@, *p, radius),
    {
        broadcast use vstd::multiset::group_multiset_axioms;
        broadcast use vstd::seq_lib::group_to_multiset_ensures;

        let px = p.position.x;
        let py = p.position.y;
        let x0: u32 = if px >= radius {
            px - radius
        } else {
            0
        };
        let y0: u32 = if py >= radius {
            py - radius
        } else {
            0
        };
        let x1: u32 = if px <= u32::MAX - radius {
            px + radius
        } else {
            u32::MAX
        };
        let y1: u32 = if py <= u32::MAX - radius {
            py + radius
        } else {
            u32::MAX
        };
        let bound = QuadTreeRegion::new(x0, y0, x1 - x0, y1 - y0);
        proof {
            assert(bound == influence_bound(*p, radius));
        }
        let candidates = self.population.query_range(&bound);
        let mut res: Vec<Person> = Vec::new();
        proof {
            assert(res@.to_multiset() =~= proximity_model(
                candidates@.take(0).to_multiset(),
                *p,
                radius,
            ));
        }
        let mut i: usize = 0;
        while i < candidates.len()
            invariant
                i <= candidates@.len(),
                res@.to_multiset() == proximity_model(
                    candidates@.take(i as int).to_multiset(),
                    *p,
                    radius,
                ),
            decreases candidates@.len() - i,
        {
            let q = candidates[i];
            proof {
                broadcast use vstd::multiset::group_multiset_axioms;
                broadcast use vstd::seq_lib::group_to_multiset_ensures;

                assert(candidates@.take(i + 1) =~= candidates@.take(i as int).push(
                    candidates@[i as int],
                ));
                lemma_proximity_insert(
                    candidates@.take(i as int).to_multiset(),
                    *p,
                    candidates@[i as int],
                    radius,
                );
            }
            if p.within_distance(&q, radius) {
                res.push(q);
            }
            i += 1;
        }
        proof {
            assert(candidates@.take(candidates@.len() as int) =~= candidates@);
            lemma_proximity_compose(self@, *p, radius);
        }
        res
    }

    /// One simulation tick. Enumerates the whole population; when the
    /// epidemic has run its course, reports `false` and changes nothing.
    /// Otherwise discovers each agent's neighbors within the influence
    /// radius — the candidate sets handed to the infection-decision logic —
    /// advances the shared time by one, and reports `true`. The population
    /// itself is never modified: the index supports no removal, and agent
    /// state transitions are driven elsewhere.
    pub fn tick(&mut self) -> (b: bool)
        requires
            old(self).wf(),
            old(self).time_spec() < u32::MAX,
        ensures
            final(self).wf(),
            final(self)@ == old(self)@,
            b == !ms_all_healthy(old(self)@),
            b ==> final(self).time_spec() == old(self).time_spec() + 1,
            !b ==> *final(self) == *old(self),
    {
        let full_pop = self.population.query_range(&self.full_range);
        proof {
            lemma_query_full_domain(self.population);
            lemma_all_healthy_ms(full_pop@);
        }
        if self.is_finished(&full_pop) {
            return false;
        }
        let infection_r = INFLUENCE_RADIUS;
        let mut i: usize = 0;
        while i < full_pop.len()
            invariant
                *self == *old(self),
                self.wf(),
                i <= full_pop@.len(),
            decreases full_pop@.len() - i,
        {
            let p = full_pop[i];
            let _neighbors = self.neighbors(&p, infection_r);
            i += 1;
        }
        self.current_time = self.current_time + 1;
        true
    }
}

} // verus!
