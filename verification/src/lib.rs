//! Codec for the MikroTik Neighbor Discovery Protocol (MNDP).
//!
//! Converts between raw byte buffers, TLV packets, and structured
//! neighbor records.

pub mod neighbor;
pub mod protocol;
pub mod text;

pub use crate::neighbor::{Builder, Neighbor, Unpack};
pub use crate::protocol::{MndpType, Packet, TypeValue};
