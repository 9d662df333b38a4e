use aleph_sync_data::{
    outgoing, received, NetworkData, NetworkDataV1, Received, Request, State, Version,
    VersionWrapper, VersionedNetworkData, BlockId, BranchKnowledge,
};

#[test]
fn state_broadcast_sent_in_both_versions() {
    let s = State::new(vec![1, 2, 3]);
    let (first, second) = outgoing(NetworkData::StateBroadcast(s.clone()));
    assert_eq!(first, VersionedNetworkData::V1(NetworkDataV1::StateBroadcast(s.clone())));
    assert_eq!(second, VersionedNetworkData::V2(NetworkData::StateBroadcast(s)));
}

#[test]
fn response_sent_without_headers_in_legacy_version() {
    let data = NetworkData::RequestResponse(vec![vec![1]], vec![vec![2]], vec![vec![3]]);
    let (first, second) = outgoing(data.clone());
    assert_eq!(
        first,
        VersionedNetworkData::V1(NetworkDataV1::RequestResponse(vec![vec![1]]))
    );
    assert_eq!(second, VersionedNetworkData::V2(data));
}

#[test]
fn unknown_version_discarded_then_legacy_delivered() {
    let r = Request::new(
        BlockId::new(vec![7], 3),
        BranchKnowledge::LowestId(BlockId::new(vec![6], 2)),
        State::new(vec![1]),
    );
    let incoming = vec![
        VersionedNetworkData::Other(Version(99), b"junk".to_vec()),
        VersionedNetworkData::V1(NetworkDataV1::Request(r.clone())),
    ];
    let mut delivered = Vec::new();
    let mut discarded = Vec::new();
    for msg in incoming {
        match received(msg) {
            Received::Deliver(data) => delivered.push(data),
            Received::Discard(version) => discarded.push(version),
        }
    }
    assert_eq!(discarded, vec![Version(99)]);
    assert_eq!(delivered, vec![NetworkData::Request(r)]);
}

#[test]
fn current_version_delivered_unchanged() {
    let data = NetworkData::RequestResponse(vec![], vec![vec![1]], vec![]);
    assert_eq!(
        received(VersionedNetworkData::V2(data.clone())),
        Received::Deliver(data)
    );
    let legacy = NetworkDataV1::RequestResponse(vec![vec![4]]);
    assert_eq!(
        received(VersionedNetworkData::V1(legacy)),
        Received::Deliver(NetworkData::RequestResponse(vec![vec![4]], vec![], vec![]))
    );
}

#[test]
fn wrapper_holds_inner() {
    let w = VersionWrapper::new(17u32);
    assert_eq!(w.inner, 17);
}
