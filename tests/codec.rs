use aleph_sync_data::{
    BlockId, BranchKnowledge, NetworkData, NetworkDataV1, Request, State,
};

fn sample_request() -> Request {
    Request::new(
        BlockId::new(vec![9, 8, 7], 42),
        BranchKnowledge::TopImported(BlockId::new(vec![1, 2], 40)),
        State::new(vec![5, 5, 5, 5]),
    )
}

fn v1_samples() -> Vec<NetworkDataV1> {
    vec![
        NetworkDataV1::StateBroadcast(State::new(vec![1, 2, 3])),
        NetworkDataV1::StateBroadcastResponse(vec![4], None),
        NetworkDataV1::StateBroadcastResponse(vec![4], Some(vec![6, 7])),
        NetworkDataV1::Request(sample_request()),
        NetworkDataV1::RequestResponse(vec![vec![1], vec![], vec![2, 3]]),
        NetworkDataV1::RequestResponse(vec![]),
    ]
}

fn v2_samples() -> Vec<NetworkData> {
    vec![
        NetworkData::StateBroadcast(State::new(vec![])),
        NetworkData::StateBroadcastResponse(vec![4, 4], Some(vec![])),
        NetworkData::Request(Request::new(
            BlockId::new(vec![], 0),
            BranchKnowledge::LowestId(BlockId::new(vec![3], 1)),
            State::new(vec![0]),
        )),
        NetworkData::RequestResponse(vec![vec![1]], vec![vec![2, 2]], vec![vec![3, 3, 3], vec![]]),
        NetworkData::RequestResponse(vec![], vec![], vec![]),
    ]
}

#[test]
fn state_round_trip() {
    let state = State::new(vec![10, 20, 30]);
    let mut out = Vec::new();
    state.encode_to(&mut out);
    assert_eq!(out, vec![12, 10, 20, 30]);
    out.extend_from_slice(&[99, 99]);
    let (back, used) = State::decode_at(&out, 0).unwrap();
    assert_eq!(back, state);
    assert_eq!(used, 4);
    assert_eq!(back.top_justification(), vec![10, 20, 30]);
}

#[test]
fn request_round_trip() {
    let request = sample_request();
    let mut out = Vec::new();
    request.encode_to(&mut out);
    let (back, used) = Request::decode_at(&out, 0).unwrap();
    assert_eq!(back, request);
    assert_eq!(used, out.len());
    assert_eq!(back.state(), &State::new(vec![5, 5, 5, 5]));
}

#[test]
fn request_exact_bytes() {
    let mut out = Vec::new();
    sample_request().encode_to(&mut out);
    assert_eq!(
        out,
        vec![12, 9, 8, 7, 42, 0, 0, 0, 1, 8, 1, 2, 40, 0, 0, 0, 16, 5, 5, 5, 5]
    );
}

#[test]
fn legacy_round_trip() {
    for data in v1_samples() {
        let bytes = data.encode();
        assert_eq!(bytes.len(), data.encoded_size());
        let (back, used) = NetworkDataV1::decode_at(&bytes, 0).unwrap();
        assert_eq!(back, data);
        assert_eq!(used, bytes.len());
    }
}

#[test]
fn current_round_trip() {
    for data in v2_samples() {
        let bytes = data.encode();
        assert_eq!(bytes.len(), data.encoded_size());
        let (back, used) = NetworkData::decode_at(&bytes, 0).unwrap();
        assert_eq!(back, data);
        assert_eq!(used, bytes.len());
    }
}

#[test]
fn response_exact_bytes() {
    let data = NetworkData::RequestResponse(vec![vec![1]], vec![], vec![vec![2, 3]]);
    assert_eq!(data.encode(), vec![3, 4, 4, 1, 0, 4, 8, 2, 3]);
    let legacy = NetworkDataV1::StateBroadcastResponse(vec![7], Some(vec![8]));
    assert_eq!(legacy.encode(), vec![1, 4, 7, 1, 4, 8]);
}

#[test]
fn compact_two_byte_length() {
    let state = State::new(vec![0xab; 64]);
    let mut out = Vec::new();
    state.encode_to(&mut out);
    assert_eq!(&out[..2], &[0x01, 0x01]);
    assert_eq!(out.len(), 66);
    let (back, used) = State::decode_at(&out, 0).unwrap();
    assert_eq!(back, state);
    assert_eq!(used, 66);
}

#[test]
fn compact_four_byte_length() {
    let state = State::new(vec![1; 16384]);
    let mut out = Vec::new();
    state.encode_to(&mut out);
    assert_eq!(&out[..4], &[0x02, 0x00, 0x01, 0x00]);
    assert_eq!(out.len(), 16388);
    let (back, _) = State::decode_at(&out, 0).unwrap();
    assert_eq!(back, state);
}

#[test]
fn non_canonical_length_refused() {
    // A two-byte form holding a count that fits one byte.
    assert!(State::decode_at(&[0x05, 0x00, 7], 0).is_none());
}

#[test]
fn truncated_data_refused() {
    let bytes = NetworkData::StateBroadcast(State::new(vec![1, 2, 3])).encode();
    assert!(NetworkData::decode_at(&bytes[..bytes.len() - 1], 0).is_none());
    assert!(NetworkData::decode_at(&[], 0).is_none());
}

#[test]
fn unknown_variant_refused() {
    assert!(NetworkData::decode_at(&[4, 0], 0).is_none());
    assert!(NetworkDataV1::decode_at(&[7], 0).is_none());
    assert!(NetworkDataV1::decode_at(&[1, 4, 7, 2], 0).is_none());
}

#[test]
fn decode_at_offset() {
    let data = NetworkDataV1::RequestResponse(vec![vec![5]]);
    let mut bytes = vec![0xff, 0xee];
    data.encode_to(&mut bytes);
    let (back, used) = NetworkDataV1::decode_at(&bytes, 2).unwrap();
    assert_eq!(back, data);
    assert_eq!(used, bytes.len());
}

#[test]
fn legacy_converts_up_and_back() {
    for data in v1_samples() {
        let up = NetworkData::from(data.clone());
        assert_eq!(NetworkDataV1::from(up), data);
    }
    let up = NetworkData::from(NetworkDataV1::RequestResponse(vec![vec![1, 2]]));
    assert_eq!(up, NetworkData::RequestResponse(vec![vec![1, 2]], vec![], vec![]));
}

#[test]
fn current_converts_down_and_back() {
    for data in v2_samples() {
        let round = NetworkData::from(NetworkDataV1::from(data.clone()));
        match data {
            NetworkData::RequestResponse(js, _, _) => {
                assert_eq!(round, NetworkData::RequestResponse(js, vec![], vec![]))
            }
            other => assert_eq!(round, other),
        }
    }
    let down = NetworkDataV1::from(NetworkData::RequestResponse(
        vec![vec![1]],
        vec![vec![2]],
        vec![vec![3]],
    ));
    assert_eq!(down, NetworkDataV1::RequestResponse(vec![vec![1]]));
}
