//! Ranking of a lobby's players by their recent match performance.
pub mod model;
pub mod rank;
pub mod chat;
pub mod endpoint;
pub mod config;
