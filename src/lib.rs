//! Watching game-server script resources and relaying their changes.
pub mod batch;
pub mod bridge;
pub mod config;
pub mod detector;
pub mod keygen;
pub mod order;
pub mod protocol;
pub mod scanner;
pub mod session;
pub mod text;
pub mod translate;
