//! Descriptor tracking for Core Lightning.

pub mod addresses;
pub mod cln;
pub mod delivery;
pub mod descriptions;
pub mod descriptor;
pub mod error;
pub mod events;
pub mod frontier;
pub mod health;
pub mod incidents;
pub mod json;
pub mod laws;
pub mod lifecycle;
pub mod model;
pub mod ordered;
pub mod reorg;
pub mod requests;
pub mod restore;
pub mod scan;
pub mod scripts;
pub mod state;
pub mod steps;
pub mod text;
pub mod views;
pub mod watches;
