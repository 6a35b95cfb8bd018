//! Lumen: a session service for agents and humans, and the wire protocol its
//! terminal sessions speak.

pub mod accessibility;
pub mod backend;
pub mod cdp;
pub mod client;
pub mod config;
pub mod desktop;
pub mod feedback;
pub mod protocol;
pub mod pty;
pub mod grid;
pub mod http;
pub mod session;
pub mod supervisor;
pub mod text;
pub mod view;
