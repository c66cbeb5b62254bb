//! MonoMouse: one mouse and keyboard shared across the monitors of several
//! machines, arranged in a grid of monitors.
//!
//! This crate holds the verified core: the monitor grid and its edge
//! transitions, the wire framing, the server and client decision logic,
//! the grid builder's editing, the parsers of the monitor-detection tools,
//! the conversions between platform input events and the portable
//! `InputEvent`, the choice of input backends, the table of instances found
//! by mDNS, clipboard change tracking, and the making of TLS material.

pub mod ids;
pub mod input;
pub mod monitor;
pub mod grid;
pub mod grid_laws;
pub mod machine;
pub mod config;
pub mod protocol;
pub mod framing;
pub mod server;
pub mod client;
pub mod text;
pub mod detect;
pub mod linux_input;
pub mod windows_input;
pub mod platform;
pub mod builder;
pub mod discovery;
pub mod clipboard;
pub mod tls;
