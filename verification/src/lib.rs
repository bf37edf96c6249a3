//! Edit-distance metrics between two character sequences: the classic
//! Levenshtein distance (insertions, deletions, substitutions) and the
//! Damerau-Levenshtein distance, which additionally counts a transposition
//! of two adjacent characters as a single operation.
//!
//! Characters are compared by exact equality of code points; no case
//! folding, locale collation or grapheme segmentation is performed.

pub mod distances;
pub mod grid;
pub mod laws;
pub mod model;

pub use crate::distances::damerau_levenshtein;
pub use crate::distances::levenshtein;
