//! Passive detection of ARP spoofing from snapshots of a host's
//! address-resolution table.
//!
//! A cycle takes one snapshot of the table, as the text that the table
//! command prints. Every line that records a binding of an IP address to a
//! hardware address is compared with the binding cached for that address;
//! a hardware address that differs from the cached one is a conflict, the
//! sign of spoofing. Each conflict becomes an alert for a remote collector,
//! and a cycle without conflicts a single heartbeat.
//!
//! - [`text`]: characters, lines and fields of a snapshot.
//! - [`ipv4`]: IPv4 addresses and their dotted-decimal notation.
//! - [`cache`]: bindings, the binding cache and the detection of conflicts.
//! - [`lemmas`]: what detection amounts to over whole snapshots.
//! - [`alert`]: alert events and their JSON wire form.
//! - [`local`]: one cycle on the output of the table command.
//! - [`remote`]: the decisions of sending one message.
//! - [`utils`] and [`cli`]: the transport protocol, the options of the
//!   sender and the settings of a run.
//!
//! The library reads no table and opens no socket. Its caller runs the
//! table command and hands over the output, and performs the socket
//! operations that [`remote`] decides on.

pub mod alert;
pub mod cache;
pub mod cli;
pub mod ipv4;
pub mod lemmas;
pub mod local;
pub mod remote;
pub mod text;
pub mod utils;
