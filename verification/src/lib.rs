//! Agent-based rock-paper-scissors battle simulation.
//!
//! A population of combatants, each tagged Rock, Paper or Scissors, repeatedly
//! seeks its nearest defeatable rival, moves toward it, and resolves combat on
//! contact, shrinking the population until a single type remains.  All
//! geometry is carried out on fixed-point integer coordinates (thousandths of
//! a world unit), so every rule of the simulation is stated and proved
//! exactly.

pub mod combatant;
pub mod math;
pub mod motion;
pub mod rng;
pub mod sim;
pub mod targeting;
