//! Per-tick player-information encoder: for one viewer it walks the table of
//! update records and produces the bit stream and mask bytes of one game tick.
//!
//! - [`bitbuf`] and [`bytebuf`]: the two output buffers.
//! - [`coord`]: skip runs, coordinate changes and movement in the bit stream.
//! - [`mask`]: the update masks and their bytes in the mask buffer.
//! - [`record`] and [`world`]: what a viewer holds of each target, and what
//!   the world reports of it.
//! - [`model`]: what a tick does, as a function on values, and what follows
//!   from that.
//! - [`tick`]: the passes of a tick over one viewer's table.
//! - [`info`]: the registry of viewers.

use vstd::prelude::*;

pub mod bitbuf;
pub mod bytebuf;
pub mod coord;
pub mod error;
pub mod info;
pub mod mask;
pub mod model;
pub mod record;
pub mod tick;
pub mod world;

pub use crate::error::PlayerInfoError;
pub use crate::info::PlayerInfo;
pub use crate::mask::{AppearanceMask, DirectionMask, PlayerMask};
pub use crate::record::{PlayerInfoData, PlayerInfoEntry};
pub use crate::world::WorldView;

verus! {

/// The number of players a world can hold, and so the number of records in
/// a viewer's table and of viewers in the registry.
pub const MAX_PLAYERS: usize = 2047;

/// Update group of the records that had something to report last tick.
pub const UPDATE_GROUP_ACTIVE: i32 = 0;

/// Update group of the records that were idle last tick.
pub const UPDATE_GROUP_INACTIVE: i32 = 1;

/// The most players that one tick may move from global to local tracking.
pub const MAX_ADDITIONS_PER_TICK: i32 = 40;

/// The most players a client tracks locally.
pub const MAX_LOCAL_PLAYERS: i32 = 255;

} // verus!
