//! Procedural generation of in-game items (gems and wines) by weighted-random
//! attribute draws over tabular reference data.
//!
//! All monetary quantities are fixed-point integers: value modifiers are in
//! thousandths (a modifier of 1.1 is stored as 1100), and gem values are in
//! hundredths of a gold piece.

use vstd::prelude::*;

pub mod chooser;
pub mod gems;
pub mod items;
pub mod pools;
mod rng;
pub mod select;
pub mod wine;

verus! {

/// Errors raised by the selection engine.
#[derive(Debug, PartialEq, Eq, Structural, Clone, Copy)]
pub enum GenError {
    /// The weight set handed to the weighted selector was empty or summed to zero.
    InvalidDistribution,
    /// A selection session ran out of eligible candidates before reaching the
    /// requested count.
    InfeasibleSelection,
}

} // verus!
