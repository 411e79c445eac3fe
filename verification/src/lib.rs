//! Game-logic core of a multiplayer rolling-and-farting platformer:
//! player identifiers, named asset lists, the relay server's routing,
//! and the editor and render-layer decisions.

pub mod cannon_tool;
pub mod chains;
pub mod controls;
pub mod customizer;
pub mod drawing;
pub mod edit;
pub mod editor;
pub mod hash_rc;
pub mod hud;
pub mod id;
pub mod layers;
pub mod level;
pub mod listed;
pub mod net;
pub mod portal;
pub mod surface_tool;
pub mod text;
pub mod tile_tool;
