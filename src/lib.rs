//! The core of a top-down arcade game: a level format and its parser, a tile
//! grid and the tiles that a moving view shows, the player's movement, and the
//! two phases of a session (loading, then playing) with the manager that
//! switches between them. Window, input, resources and drawing stay with the
//! host, which hands the library plain values each frame.
use vstd::prelude::*;

pub mod geom;
pub mod map;
pub mod components;
pub mod level;
pub mod level_text;
pub mod state;

verus! {

} // verus!
