//! The RCON wire protocol: header and word codecs, packet framing, sequence
//! allocation and the connection pump.

pub mod error;
pub mod header;
pub mod packet;
pub mod pending;
pub mod pump;
pub mod sequence;
pub mod word;
pub mod wire;

pub use error::RconError;
pub use header::{HeaderView, PacketHeader, SequenceDirection, SequenceOrigin};
pub use packet::{PacketView, RemotePacket};
pub use pending::{PendingRequest, PendingTable};
pub use pump::{ConnectionState, PumpAction, PumpEvent, Rcon};
pub use sequence::SequenceAllocator;
pub use word::{encode_word, PacketWord};
