//! An Intcode virtual machine with verified decoding and execution, the
//! programs that run on it, and a collection of small puzzle solvers built
//! on plain data.
//!
//! - `intcode`: the machine itself: decoding, operand resolution over a
//!   memory that grows with zeros, single steps and runs over inputs.
//! - `diagnostics`, `amplifiers`, `robot`, `arcade`, `oxygen`: programs
//!   driven by the machine, alone, in series, in a feedback loop, or in a
//!   conversation with a controller.
//! - `text`: reading numbers and fields out of ASCII text.
//! - the other modules: one puzzle each, on parsed plain values.

use vstd::prelude::*;

pub mod adapters;
pub mod alarm;
pub mod amplifiers;
pub mod arcade;
pub mod boarding;
pub mod customs;
pub mod diagnostics;
pub mod docking;
pub mod expenses;
pub mod fuel;
pub mod handheld;
pub mod haversacks;
pub mod image;
pub mod intcode;
pub mod messages;
pub mod nbody;
pub mod operations;
pub mod orbits;
pub mod oxygen;
pub mod passports;
pub mod passwords;
pub mod policy;
pub mod rain_risk;
pub mod reactions;
pub mod recitation;
pub mod robot;
pub mod seating;
pub mod shuttle;
pub mod text;
pub mod tickets;
pub mod toboggan;
pub mod wires;
pub mod xmas;
