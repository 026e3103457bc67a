//! The runtime core of a 2D side-scrolling action game: a tile-grid world
//! with solid and ladder queries, a packed binary level format, a batched
//! sprite renderer's integer side, the entity protocol (collision pass with
//! class/mask filtering, update, spawn and prune), and the scrolling view.
pub mod camera;
pub mod engine;
pub mod entity;
pub mod mapfile;
pub mod rect;
pub mod render;
pub mod tilemap;
pub mod ui;
