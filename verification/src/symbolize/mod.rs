//! Symbolization: the messages exchanged with the isolated worker and the
//! rules by which debug information is split from a linked image.
pub mod client;
pub mod codec;
pub mod crc;
pub mod image;
pub mod message;
pub mod pdb;
pub mod plan;
pub mod split;
pub mod wire;
