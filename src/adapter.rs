//! The decisions of the version-bridging adapter: every outgoing message is
//! offered in both live versions, and incoming messages of an unknown version
//! are dropped while the others are brought to the current shape.

use crate::envelope::{Version, VersionedModel, VersionedNetworkData};
use crate::message::{downgrade, upgrade, NetworkData, NetworkDataModel, NetworkDataV1};
use vstd::prelude::*;

verus! {

/// A transport of versioned data, seen by its users as one of current data.
/// It holds nothing but the wrapped transport.
pub struct VersionWrapper<N> {
    pub inner: N,
}

impl<N> VersionWrapper<N> {
    /// Wraps the inner transport.
    pub fn new(inner: N) -> (r: Self)
        ensures
            r.inner == inner,
    {
        VersionWrapper { inner }
    }
}

/// What to do with a message that the wrapped transport delivered.
#[derive(Debug, PartialEq, Eq)]
pub enum Received {
    /// Hand the data to the caller.
    Deliver(NetworkData),
    /// Drop the message, whose version this node does not know, and wait
    /// for the next one.
    Discard(Version),
}

/// The view of the action to take on a received message.
pub enum ReceivedModel {
    Deliver(NetworkDataModel),
    Discard(nat),
}

impl View for Received {
    type V = ReceivedModel;

    open spec fn view(&self) -> ReceivedModel {
        match self {
            Received::Deliver(d) => ReceivedModel::Deliver(d@),
            Received::Discard(v) => ReceivedModel::Discard(v.0 as nat),
        }
    }
}

/// The action owed to a received message: legacy data is upgraded, current
/// data passes unchanged, and data of another version is discarded.
pub open spec fn received_action(m: VersionedModel) -> ReceivedModel {
    match m {
        VersionedModel::Other(v, _) => ReceivedModel::Discard(v),
        VersionedModel::V1(d) => ReceivedModel::Deliver(upgrade(d)),
        VersionedModel::V2(d) => ReceivedModel::Deliver(d),
    }
}

/// The two messages to send, in order, for one outgoing `data`: the legacy
/// shape first, then the current one.
pub fn outgoing(data: NetworkData) -> (r: (VersionedNetworkData, VersionedNetworkData))
    ensures
        r.0@ == VersionedModel::V1(downgrade(data@)),
        r.1@ == VersionedModel::V2(data@),
{
    let legacy = NetworkDataV1::from(data.copy());
    (VersionedNetworkData::V1(legacy), VersionedNetworkData::V2(data))
}

/// The action to take on a received message.
pub fn received(msg: VersionedNetworkData) -> (r: Received)
    ensures
        r@ == received_action(msg@),
{
    match msg {
        VersionedNetworkData::Other(version, _) => Received::Discard(version),
        VersionedNetworkData::V1(data) => Received::Deliver(NetworkData::from(data)),
        VersionedNetworkData::V2(data) => Received::Deliver(data),
    }
}

} // verus!
