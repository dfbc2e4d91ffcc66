//! Decoder for classic packet-capture files.
//!
//! A capture is one 24-byte global header followed by packet records, each a
//! 16-byte record header and as many payload bytes as that header announces.
//! All multi-byte fields are decoded least significant byte first.

pub mod encoding;
pub mod endian;
pub mod error;
pub mod file;
pub mod header;
pub mod laws;
pub mod layout;
pub mod packet;
pub mod stream;

pub use error::PcapError;
pub use file::{FileMetadata, PcapFile};
pub use header::PcapHeader;
pub use packet::{Packet, PacketHeader, PacketView};
pub use stream::{ByteStream, ReadOutcome};
