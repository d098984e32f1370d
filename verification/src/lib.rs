//! Tile maps for a grid roguelike: rectangles, room placement, corridors,
//! houses with doors, and the two visibility layers of a map.

pub mod carve;
pub mod dice;
pub mod dungeon;
pub mod grid;
pub mod paths;
pub mod player;
pub mod rect;
pub mod render;
pub mod rooms;
pub mod tile_grid;
pub mod town;
pub mod visibility;

pub use player::{player_input, try_move_player, Command, Position};
pub use rect::Rect;
pub use render::{draw_map, DrawnTile};
pub use rooms::{MAX_ROOMS, MAX_SIZE, MIN_SIZE};
pub use tile_grid::{TileGrid, TileType};
pub use visibility::{cheat_reveal_map, refresh_visibility, Viewshed};
