//! Going through what connectors select.

pub mod outline;
pub mod visitors;
