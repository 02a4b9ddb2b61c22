//! The decisions and the texts behind each command.
pub mod extract;
pub mod index_cmd;
pub mod names;
pub mod nav_build;
pub mod navmesh;
pub mod plot;
pub mod plot_geometry;
pub mod resource;
pub mod textures;
