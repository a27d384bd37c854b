//! The decisions of the browser client.

pub mod canvas;
pub mod mouse;
pub mod pages;
pub mod sync;
pub mod sprite;
pub mod urls;
pub mod user;
pub mod viewport;
