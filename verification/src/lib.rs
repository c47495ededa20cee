//! Game rules of an agar.io-like game: cells ("ragarmen") that grow by
//! eating food and each other, the shared game state kept by the server,
//! and the decisions the server and the client take on each message.
//!
//! Positions are integer world units; what the game computes in floating
//! point (distances, radii, speeds) is handed to the library by its caller.

pub mod client;
pub mod color;
pub mod component;
pub mod food;
pub mod gamedata;
pub mod lineage;
pub mod meal;
pub mod meal_laws;
pub mod network;
pub mod player;
pub mod ragarman;
pub mod server;
pub mod system;
pub mod virus;

mod random;
pub mod sums;
