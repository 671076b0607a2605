//! Wake-on-LAN relay: magic packet construction, the in-memory host registry
//! with its wake log, and the poll protocol that reports new wake events.

pub mod client;
pub mod config;
pub mod cursor;
pub mod events;
pub mod registry;
pub mod text;
pub mod wol;
