//! Client side of a UDP-over-fake-TCP tunnel on macOS: the packet formats, the
//! configuration rules and the decisions of the client, with their contracts.
//!
//! The library performs no input or output. A program around it reads files,
//! sockets and processes, hands the values in and carries out what comes back.

pub mod bpf;
pub mod capture;
pub mod cli;
pub mod config;
pub mod device;
pub mod error;
pub mod firewall;
pub mod forwarder;
pub mod frame;
pub mod net;
pub mod process;
pub mod route;
pub mod sender;
pub mod startup;
pub mod text;
pub mod wire;
