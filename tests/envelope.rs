use aleph_sync_data::{
    encode_with_version, BlockId, BranchKnowledge, DecodeError, NetworkData, NetworkDataV1,
    Request, State, Version, VersionedNetworkData, MAX_SYNC_MESSAGE_SIZE,
};

fn le32(n: u32) -> Vec<u8> {
    n.to_le_bytes().to_vec()
}

#[test]
fn max_sync_message_size_value() {
    assert_eq!(MAX_SYNC_MESSAGE_SIZE, 11 * 5 * 1024 * 1024);
}

#[test]
fn frame_exact_bytes() {
    assert_eq!(
        encode_with_version(Version(7), &[1, 2, 3]),
        vec![7, 0, 3, 0, 0, 0, 1, 2, 3]
    );
    assert_eq!(encode_with_version(Version(0x0102), &[]), vec![2, 1, 0, 0, 0, 0]);
}

#[test]
fn legacy_envelope_exact_bytes() {
    let data = VersionedNetworkData::V1(NetworkDataV1::StateBroadcast(State::new(vec![0xaa])));
    assert_eq!(data.encode(), vec![1, 0, 3, 0, 0, 0, 0, 4, 0xaa]);
    let data = VersionedNetworkData::V2(NetworkData::StateBroadcast(State::new(vec![0xaa])));
    assert_eq!(data.encode(), vec![2, 0, 3, 0, 0, 0, 0, 4, 0xaa]);
}

#[test]
fn envelope_round_trip_all_kinds() {
    let samples = vec![
        VersionedNetworkData::Other(Version(99), b"junk".to_vec()),
        VersionedNetworkData::Other(Version(0), vec![]),
        VersionedNetworkData::V1(NetworkDataV1::Request(Request::new(
            BlockId::new(vec![1], 2),
            BranchKnowledge::LowestId(BlockId::new(vec![3], 1)),
            State::new(vec![4]),
        ))),
        VersionedNetworkData::V1(NetworkDataV1::RequestResponse(vec![vec![1, 2]])),
        VersionedNetworkData::V2(NetworkData::RequestResponse(
            vec![vec![1]],
            vec![vec![2]],
            vec![vec![3; 100]],
        )),
        VersionedNetworkData::V2(NetworkData::StateBroadcastResponse(vec![], None)),
    ];
    for data in samples {
        let mut bytes = data.encode();
        let len = bytes.len();
        assert!(data.size_hint() >= len);
        assert_eq!(data.size_hint(), len);
        bytes.extend_from_slice(&[0xde, 0xad]);
        let (back, used) = VersionedNetworkData::decode(&bytes).unwrap();
        assert_eq!(back, data);
        assert_eq!(used, len);
    }
}

#[test]
fn unknown_version_at_limit_is_kept() {
    let mut bytes = vec![3, 0];
    bytes.extend(le32(5));
    bytes.extend_from_slice(&[1, 2, 3, 4, 5, 6]);
    let (back, used) = VersionedNetworkData::decode(&bytes).unwrap();
    assert_eq!(back, VersionedNetworkData::Other(Version(3), vec![1, 2, 3, 4, 5]));
    assert_eq!(used, 11);
}

#[test]
fn unknown_version_oversize_refused() {
    let mut bytes = vec![99, 0];
    bytes.extend(le32(MAX_SYNC_MESSAGE_SIZE + 1));
    bytes.extend_from_slice(b"whatever");
    assert_eq!(
        VersionedNetworkData::decode(&bytes),
        Err(DecodeError::UnknownVersionTooLarge)
    );
    let mut bytes = vec![3, 0];
    bytes.extend(le32(u32::MAX));
    assert_eq!(
        VersionedNetworkData::decode(&bytes),
        Err(DecodeError::UnknownVersionTooLarge)
    );
}

#[test]
fn unknown_version_short_payload_malformed() {
    let mut bytes = vec![3, 0];
    bytes.extend(le32(MAX_SYNC_MESSAGE_SIZE));
    bytes.extend_from_slice(&[1, 2, 3]);
    assert_eq!(VersionedNetworkData::decode(&bytes), Err(DecodeError::Malformed));
}

#[test]
fn truncated_header_malformed() {
    assert_eq!(VersionedNetworkData::decode(&[]), Err(DecodeError::Malformed));
    assert_eq!(VersionedNetworkData::decode(&[1]), Err(DecodeError::Malformed));
    assert_eq!(VersionedNetworkData::decode(&[1, 0, 3, 0, 0]), Err(DecodeError::Malformed));
}

#[test]
fn known_version_bad_payload_malformed() {
    assert_eq!(
        VersionedNetworkData::decode(&[2, 0, 1, 0, 0, 0, 9]),
        Err(DecodeError::Malformed)
    );
    assert_eq!(
        VersionedNetworkData::decode(&[1, 0, 2, 0, 0, 0, 0, 4]),
        Err(DecodeError::Malformed)
    );
}

#[test]
fn known_version_ignores_declared_count() {
    let (back, used) = VersionedNetworkData::decode(&[1, 0, 0, 0, 0, 0, 0, 4, 0xaa]).unwrap();
    assert_eq!(
        back,
        VersionedNetworkData::V1(NetworkDataV1::StateBroadcast(State::new(vec![0xaa])))
    );
    assert_eq!(used, 9);
}
