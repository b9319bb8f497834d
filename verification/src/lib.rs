//! A session pool for game streaming: which client holds which seat, which GPU
//! each seat runs on, and how a seat is planned, brought up and taken down.

pub mod bring_up;
pub mod config;
pub mod effects;
pub mod gpu;
pub mod history;
pub mod laws;
pub mod model;
pub mod pool;
pub mod seat_home;
pub mod steam;
pub mod text;
