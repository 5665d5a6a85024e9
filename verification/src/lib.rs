//! Core of a 2D tile-based game and its level editor: the screen layout
//! calculator, the tile/screen coordinate transforms, the dense tile grid
//! store, the map aggregate, and the persisted map-file codec.
//!
//! All pixel geometry is integer arithmetic with floor semantics; the grid
//! origin is at the bottom left of the playable area while pointer input
//! arrives with its origin at the top left of the viewport.

pub mod codec;
pub mod settings;
pub mod tile_coords;
pub mod tile_data;
pub mod tilemap;

pub use settings::GameSettings;
pub use settings::SettingsFile;
pub use tile_coords::ScreenPos;
pub use tile_coords::TileCoords;
pub use tile_data::TileData;
pub use tile_data::TileDataError;
pub use tilemap::TileDesc;
pub use tilemap::TileType;
