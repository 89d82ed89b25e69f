//! Simple and efficient string interning.
//!
//! An [`Interner`] keeps one shared allocation per distinct string, with the
//! number of live [`InString`] handles of it. Interning a string that is
//! already there hands out another handle to the same allocation; releasing
//! the last handle of a string takes it out of the interner. Statistics of
//! the interned and deduplicated strings are kept beside the table.
pub mod interner;
pub mod laws;
pub mod stats;
pub mod sums;
pub mod table;

pub use interner::{InString, Intern, Interner};
pub use stats::InStringStats;
