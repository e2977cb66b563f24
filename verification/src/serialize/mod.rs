//! Model containers: byte-level codecs and the journaled TRB format.

pub mod bytes;
pub mod layout_laws;
pub mod trb;
pub mod trb_laws;
pub mod trb_text;
