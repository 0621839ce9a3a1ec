//! What the daemon promises, stated over inputs and results.

pub mod approvals;
pub mod auth;
pub mod bridge;
pub mod cli;
pub mod errors;
pub mod eventstore;
pub mod frame;
pub mod guard;
pub mod hostpath;
pub mod init;
pub mod json;
pub mod launch;
pub mod log;
pub mod mount;
pub mod proxy;
pub mod sandbox;
pub mod seatbelt;
pub mod server;
pub mod session;
pub mod text;
pub mod tree;
pub mod up;
pub mod views;
pub mod vpath;
pub mod wire;
