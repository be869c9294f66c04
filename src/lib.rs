//! An in-memory overlay union of one writable upper layer over read-only
//! lower layers, with a verified `rename2` planner that honours the
//! NOREPLACE, EXCHANGE and WHITEOUT modifiers and the whiteout protocol.

pub mod flags;
pub mod name;
pub mod node;
pub mod layer;
pub mod overlay;
pub mod registry;
pub mod hook;
pub mod laws;
