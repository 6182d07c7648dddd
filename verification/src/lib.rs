//! The logic of a Nautilus extension that runs OpenVPN for `.ovpn` files in
//! a terminal: scanning and patching configurations, staging names and
//! decisions, stored credentials and how they are obtained, and the terminal
//! launcher.

pub mod credentials;
pub mod ovpn_parser;
pub mod provider;
pub mod staging;
pub mod text;
