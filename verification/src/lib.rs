//! Peer discovery and file transfer logic for the Alley LAN sharing tool.

pub mod digest;
pub mod discovery;
pub mod transfer;
