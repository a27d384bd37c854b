//! Minesweeper game logic shared by the lobby server and the browser client:
//! tiles, grids, bomb placement, the flood-fill discovery of tiles, the game
//! state machine, and the decisions that the client and server take on it.

pub mod tile;
pub mod grid;
pub mod game;
pub mod messages;
pub mod pubsub;
pub mod client;
pub mod model;
pub mod server;
pub mod classic;
