//! Verified core of a launcher for remote VNC desktops: address resolution,
//! the remote-command session protocol, and parsing of the host's replies.
pub mod address;
pub mod error;
pub mod reply;
pub mod resolver;
pub mod command;
pub mod execution;
