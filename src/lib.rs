//! A box-pushing puzzle engine: a player moves on a grid of tiles and pushes
//! balls onto goals.

pub mod grid;
pub mod laws;
pub mod stage;
pub mod text;
pub mod tile;
pub mod vector2;

pub use grid::StageError;
pub use stage::{Direction, InternalError, MoveError, Stage};
pub use tile::{ObjectType, Tile};
pub use vector2::Vector2;

use vstd::prelude::*;

verus! {

/// What the game is started with.
pub struct Arguments {
    /// The file the stage is read from.
    pub filename: String,
}

} // verus!
