//! The Nautilus menu provider: which files get the menu entry, and how the
//! terminal that runs OpenVPN is chosen and invoked.

pub mod menu;
pub mod terminal;
