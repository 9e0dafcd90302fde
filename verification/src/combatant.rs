//! The combatant data model and the type-dominance relation.

use vstd::prelude::*;

verus! {

/// Coordinates are fixed-point integers in thousandths of a world unit; all
/// positions the simulation handles stay within this magnitude, which keeps
/// every distance computation inside `i64`.
pub const COORD_LIMIT: i64 = 536870912;

/// Upper bound on a combatant's speed (thousandths of a unit per tick).
pub const SPEED_LIMIT: i64 = 1000000;

/// Upper bound on a combatant's visual scale (thousandths); escalation
/// saturates here instead of growing without bound.
pub const SCALE_LIMIT: i64 = 1000000;

/// Fixed-point unit: 1000 thousandths equal a scale factor of one.
pub const SCALE_ONE: i64 = 1000;

/// Scale every combatant spawns with (0.5).
pub const SCALE_INIT: i64 = 500;

/// Scale gained on each win (0.05).
pub const SCALE_STEP: i64 = 50;

/// Speed lost on each win (0.05 units per tick).
pub const SPEED_STEP: i64 = 50;

/// Lowest speed a spawn can draw (0.5 units per tick).
pub const SPEED_MIN: i64 = 500;

/// Highest speed a spawn can draw (2.0 units per tick).
pub const SPEED_MAX: i64 = 2000;

/// Base sprite width before scaling (64 units, in thousandths).
pub const BASE_SPRITE_W: i64 = 64000;

/// Base sprite height before scaling (64 units, in thousandths).
pub const BASE_SPRITE_H: i64 = 64000;

/// Shared downscale constant applied to every hitbox.
pub const DOWN_SCALE: i64 = 2;

/// The three combatant types.  A combatant's type is fixed at creation.
#[derive(Clone, Copy, PartialEq, Eq, Structural, Debug)]
pub enum CombatantType {
    Rock,
    Paper,
    Scissors,
}

/// The type-dominance relation: Rock beats Scissors, Paper beats Rock,
/// Scissors beats Paper; nothing else.
pub open spec fn beats(a: CombatantType, b: CombatantType) -> bool {
    match (a, b) {
        (CombatantType::Rock, CombatantType::Scissors) => true,
        (CombatantType::Paper, CombatantType::Rock) => true,
        (CombatantType::Scissors, CombatantType::Paper) => true,
        _ => false,
    }
}

/// Decides whether a combatant of type `ver1` defeats one of type `ver2`.
pub fn win_rules(ver1: CombatantType, ver2: CombatantType) -> (won: bool)
    ensures
        won == beats(ver1, ver2),
{
    match (ver1, ver2) {
        (CombatantType::Rock, CombatantType::Scissors) => true,
        (CombatantType::Paper, CombatantType::Rock) => true,
        (CombatantType::Scissors, CombatantType::Paper) => true,
        _ => false,
    }
}

/// The dominance relation is a single three-cycle: no type beats itself, and
/// of any two distinct types exactly one beats the other.
pub proof fn lemma_dominance_cycle()
    ensures
        forall|a: CombatantType| !beats(a, a),
        forall|a: CombatantType, b: CombatantType| a != b ==> (beats(a, b) != beats(b, a)),
        beats(CombatantType::Rock, CombatantType::Scissors),
        beats(CombatantType::Scissors, CombatantType::Paper),
        beats(CombatantType::Paper, CombatantType::Rock),
{
    assert forall|a: CombatantType, b: CombatantType| a != b implies (beats(a, b) != beats(
        b,
        a,
    )) by {
        match (a, b) {
            (CombatantType::Rock, CombatantType::Scissors) => {},
            (CombatantType::Paper, CombatantType::Rock) => {},
            (CombatantType::Scissors, CombatantType::Paper) => {},
            _ => {},
        }
    }
}

/// A type never beats itself, so a winner and its victim differ in type.
pub proof fn lemma_beats_irreflexive(a: CombatantType, b: CombatantType)
    requires
        beats(a, b),
    ensures
        a != b,
{
}

/// One simulated agent: a position, a movement speed, a visual scale, a
/// fixed type and a stable identifier.
#[derive(Clone, Copy, PartialEq, Eq, Structural, Debug)]
pub struct Combatant {
    pub x: i64,
    pub y: i64,
    pub speed: i64,
    pub scale: i64,
    pub kind: CombatantType,
    pub id: usize,
}

impl Combatant {
    /// Well-formedness: position, speed and scale stay within the fixed-point
    /// ranges the simulation's arithmetic is proved against.
    pub open spec fn wf(self) -> bool {
        &&& -COORD_LIMIT <= self.x <= COORD_LIMIT
        &&& -COORD_LIMIT <= self.y <= COORD_LIMIT
        &&& 0 <= self.speed <= SPEED_LIMIT
        &&& 0 <= self.scale <= SCALE_LIMIT
    }

    /// Creates a combatant at the given position with the spawn scale.
    pub fn new(x: i64, y: i64, speed: i64, kind: CombatantType, id: usize) -> (c: Combatant)
        ensures
            c == (Combatant { x, y, speed, scale: SCALE_INIT, kind, id }),
    {
        Combatant { x, y, speed, scale: SCALE_INIT, kind, id }
    }

    /// Read-only accessor: the combatant's position.
    pub fn position(&self) -> (p: (i64, i64))
        ensures
            p.0 == self.x,
            p.1 == self.y,
    {
        (self.x, self.y)
    }

    /// Read-only accessor: the combatant's type.
    pub fn combatant_type(&self) -> (k: CombatantType)
        ensures
            k == self.kind,
    {
        self.kind
    }

    /// Read-only accessor: the current visual scale, for the renderer to size
    /// its draw call.
    pub fn visual_scale(&self) -> (s: i64)
        ensures
            s == self.scale,
    {
        self.scale
    }
}

} // verus!
