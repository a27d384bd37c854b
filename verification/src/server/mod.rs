//! The decisions of the lobby server: lobbies and what their players are
//! sent, the table of lobbies, and who a request comes from.

pub mod api;
pub mod auth;
pub mod ids;
pub mod lobby;
pub mod tile;
