//! Versioned wire messages of block synchronisation: the message model,
//! conversions between its two shapes, the versioned envelope and the
//! decisions of the version-bridging network adapter.

pub mod adapter;
pub mod codec;
pub mod envelope;
pub mod message;
pub mod wire;

pub use adapter::{outgoing, received, Received, VersionWrapper};
pub use envelope::{
    encode_with_version, DecodeError, Version, VersionedNetworkData, MAX_BLOCK_SIZE,
    MAX_SYNC_MESSAGE_SIZE,
};
pub use message::{BlockId, BranchKnowledge, NetworkData, NetworkDataV1, Request, State};
