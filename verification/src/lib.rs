//! The logic of an agent daemon: the sandbox that confines an agent's commands,
//! and the event log, bridges, sessions, and servers around it.

pub mod approvals;
pub mod auth;
pub mod bridge;
pub mod cli;
pub mod confinement;
pub mod error;
pub mod events;
pub mod eventstore;
pub mod executor;
pub mod frame;
pub mod guard;
pub mod hostpath;
pub mod ids;
pub mod init;
pub mod json;
pub mod launch;
pub mod laws;
pub mod log;
pub mod mount;
pub mod order;
pub mod policy;
pub mod proxy;
pub mod sandbox;
pub mod scan;
pub mod seatbelt;
pub mod server;
pub mod session;
pub mod shell;
pub mod text;
pub mod textmap;
pub mod tree;
pub mod up;
pub mod vpath;
