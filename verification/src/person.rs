//! Point-like agents: a 2D position, an identifier, and a four-state
//! health machine (Healthy, Infectious, Sick, Dead) driven by elapsed-time
//! thresholds and an externally supplied death roll.

use vstd::prelude::*;
use crate::constants::{TIME_INFECTIOUS, TIME_SICK};

verus! {

/// Health state of an agent.
#[derive(Debug, PartialEq, Eq, Clone, Copy, Structural)]
pub enum Status {
    Healthy,
    Infectious,
    Sick,
    Dead,
}

/// Direction an agent faces; kept for diagnostics and future movement.
#[derive(Debug, PartialEq, Eq, Clone, Copy, Structural)]
pub enum Direction {
    Top,
    Right,
    Down,
    Left,
}

/// A 2D integer coordinate in the simulation plane.
#[derive(Debug, PartialEq, Eq, Clone, Copy, Structural)]
pub struct Position {
    pub x: u32,
    pub y: u32,
}

impl Position {
    pub fn new(x: u32, y: u32) -> (p: Position)
        ensures
            p.x == x,
            p.y == y,
    {
        Position { x, y }
    }
}

/// An agent: the entity type stored in the spatial index.
#[derive(Debug, Clone, Copy, PartialEq, Eq)]
pub struct Person {
    pub id: usize,
    pub position: Position,
    pub status: Status,
    pub facing_direction: Direction,
    pub t_infected: Option<u32>,
    pub t_sick: Option<u32>,
    pub t_died: Option<u32>,
}

impl Person {
    /// True when the agent has been infected long enough to fall sick.
    pub open spec fn spec_is_sick(self, time: u32) -> bool {
        match self.t_infected {
            Some(inf) => time >= inf + TIME_INFECTIOUS,
            None => false,
        }
    }

    /// True when the agent has been sick long enough and the death roll came up.
    pub open spec fn spec_is_dead(self, time: u32, dies: bool) -> bool {
        match self.t_sick {
            Some(sick) => time >= sick + TIME_SICK && dies,
            None => false,
        }
    }

    /// Squared Euclidean distance between two agents' positions.
    pub open spec fn dist_sq(self, other: Person) -> int {
        let dx = self.position.x - other.position.x;
        let dy = self.position.y - other.position.y;
        dx * dx + dy * dy
    }

    pub fn new(id: usize, pos: Position, status: Status) -> (p: Person)
        ensures
            p.id == id,
            p.position == pos,
            p.status == status,
            p.facing_direction == Direction::Right,
            p.t_infected == (if status == Status::Healthy {
                Option::<u32>::None
            } else {
                Option::<u32>::Some(0)
            }),
            p.t_sick == Option::<u32>::None,
            p.t_died == Option::<u32>::None,
    {
        let t_infected: Option<u32> = if status == Status::Healthy {
            None
        } else {
            Some(0)
        };

        Person {
            id,
            position: pos,
            status,
            facing_direction: Direction::Right,
            t_infected,
            t_sick: None,
            t_died: None,
        }
    }

    fn is_sick(&self, time: u32) -> (b: bool)
        ensures
            b == self.spec_is_sick(time),
    {
        match self.t_infected {
            Some(inf) => time as u64 >= inf as u64 + TIME_INFECTIOUS as u64,
            None => false,
        }
    }

    fn is_dead(&self, time: u32, dies: bool) -> (b: bool)
        ensures
            b == self.spec_is_dead(time, dies),
    {
        match self.t_sick {
            Some(sick) => {
                if time as u64 >= sick as u64 + TIME_SICK as u64 {
                    dies
                } else {
                    false
                }
            },
            None => false,
        }
    }

    /// Read access to the agent's coordinates, the only capability the
    /// spatial index needs of an entity.
    pub fn coords(&self) -> (c: Position)
        ensures
            c == self.position,
    {
        self.position
    }

    /// True exactly when the two agents are at Euclidean distance at most
    /// `radius` of each other.
    pub fn within_distance(&self, other: &Person, radius: u32) -> (b: bool)
        ensures
            b == (self.dist_sq(*other) <= radius * radius),
    {
        let dx: u64 = if self.position.x >= other.position.x {
            (self.position.x - other.position.x) as u64
        } else {
            (other.position.x - self.position.x) as u64
        };
        let dy: u64 = if self.position.y >= other.position.y {
            (self.position.y - other.position.y) as u64
        } else {
            (other.position.y - self.position.y) as u64
        };
        proof {
            lemma_sq_nonneg_sym(self.position.x as int, other.position.x as int);
            lemma_sq_nonneg_sym(self.position.y as int, other.position.y as int);
            lemma_sq_bound(dx as int);
            lemma_sq_bound(dy as int);
            lemma_sq_bound(radius as int);
        }
        let d2: u128 = (dx as u128) * (dx as u128) + (dy as u128) * (dy as u128);
        let r2: u128 = (radius as u128) * (radius as u128);
        d2 <= r2
    }

    /// Advance the agent's health machine by one observation at `time`.
    /// `dies` is the outcome of this tick's death roll, supplied by the
    /// caller so that randomness stays outside the verified core.
    pub fn tick(&mut self, time: u32, dies: bool)
        ensures
            final(self).id == old(self).id,
            final(self).position == old(self).position,
            final(self).facing_direction == old(self).facing_direction,
            final(self).t_infected == old(self).t_infected,
            (match old(self).status {
                Status::Healthy => *final(self) == *old(self),
                Status::Infectious => if old(self).spec_is_sick(time) {
                    final(self).status == Status::Sick && final(self).t_sick
                        == Option::<u32>::Some(time) && final(self).t_died == old(self).t_died
                } else {
                    *final(self) == *old(self)
                },
                Status::Sick => if old(self).spec_is_dead(time, dies) {
                    final(self).status == Status::Dead && final(self).t_died
                        == Option::<u32>::Some(time) && final(self).t_sick == old(self).t_sick
                } else {
                    *final(self) == *old(self)
                },
                Status::Dead => *final(self) == *old(self),
            }),
    {
        match self.status {
            Status::Healthy => {},
            Status::Infectious => {
                if self.is_sick(time) {
                    self.status = Status::Sick;
                    self.t_sick = Some(time);
                }
            },
            Status::Sick => {
                if self.is_dead(time, dies) {
                    self.status = Status::Dead;
                    self.t_died = Some(time);
                }
            },
            Status::Dead => {},
        }
    }
}

/// Squaring does not depend on the sign of the difference.
proof fn lemma_sq_nonneg_sym(a: int, b: int)
    ensures
        (a - b) * (a - b) == (b - a) * (b - a),
        (a - b) * (a - b) >= 0,
{
    assert((a - b) * (a - b) == (b - a) * (b - a)) by (nonlinear_arith);
    assert((a - b) * (a - b) >= 0) by (nonlinear_arith);
}

/// The square of a value below 2^32 stays below 2^64.
proof fn lemma_sq_bound(d: int)
    requires
        0 <= d < 0x1_0000_0000,
    ensures
        0 <= d * d < 0x1_0000_0000_0000_0000,
{
    assert(0 <= d * d < 0x1_0000_0000_0000_0000) by (nonlinear_arith)
        requires
            0 <= d < 0x1_0000_0000,
    ;
}

} // verus!
