//! Deduction by local rules on a grid of cells, links and corners.
//!
//! A grid knows of each cell, of each edge between cells and of each corner
//! a set of values that are still possible. A rule is a pair of small
//! patterns: where the grid satisfies the input pattern, the output pattern
//! holds too, and the grid is narrowed to it. Every function of this crate
//! is verified against its contract with Verus.
//!
//! - `element` holds the three lattices of states,
//! - `layer` the rectangles of states and what is done to one of them,
//! - `pattern` and `rule` the patterns and the rules,
//! - `game` the grid and the step that applies a rule at a place,
//! - `symmetry` the images of a rule under the symmetries of the square,
//! - `text`, `diagram`, `rulefile`, `render` and `readback` the texts that
//!   patterns, rules and grids are read from and shown as.

pub mod ascii;
pub mod diagram;
pub mod element;
pub mod game;
pub mod layer;
pub mod pattern;
pub mod readback;
pub mod render;
pub mod rule;
pub mod rulefile;
pub mod symmetry;
pub mod text;

pub use element::{CellType, CornerType, Gcd, LinkType, Mask};
pub use game::Game;
pub use pattern::HalfRule;
pub use rule::Rule;
