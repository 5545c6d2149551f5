//! A sliding-particle puzzle engine.
//!
//! A square board holds walls, empty cells and particles. One step moves
//! every particle by at most one cell in a commanded direction; `reverse`
//! toggles every non-wall cell between empty and particle. The step and
//! reverse operations carry full functional contracts, and the laws module
//! proves the global properties (particle conservation, wall permanence,
//! the single-cell movement bound, blocking, and involution of `reverse`).

pub mod cell;
pub mod grid;
pub mod laws;
pub mod presets;
pub mod slide;
