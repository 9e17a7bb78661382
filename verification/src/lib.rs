//! A verified interpreter for Befreak, a reversible two-dimensional
//! stack-based programming language.
//!
//! A program is a rectangular grid of printable ASCII glyphs. An instruction
//! pointer walks the grid in one of four cardinal directions, wrapping
//! toroidally at the edges, and dispatches on the glyph under it. Every
//! primitive instruction has an inverse, and a global reverse-mode flag makes
//! the engine execute each glyph's inverse instead of the glyph itself.

pub mod direction;
pub mod engine;
pub mod instruction;
pub mod interpreter;
pub mod program;
pub mod semantics;
pub mod stack;
pub mod state;
