//! A cached, game-wide index of where things live in the game's archives, in
//! three parts that are loaded, built and cached independently: textures,
//! interiors and models.
pub mod bytes;
pub mod codec;
pub mod fingerprint;
pub mod load_order;
pub mod lookup;
pub mod merge;
pub mod model;
pub mod parts;
pub mod placements;
pub mod scan;

pub use crate::index::model::{ArchetypeBox, Asset, EntryLoc, GameIndex};
pub use crate::index::parts::Parts;
