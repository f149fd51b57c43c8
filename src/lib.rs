//! Parsing of shared word-puzzle results into an annotated grid of guesses,
//! with a serpentine traversal order for sequencing an animation.
pub mod annotate;
pub mod glyph;
pub mod grid;
pub mod laws;
pub mod layout;
pub mod normalize;
pub mod snake;
pub mod text;
