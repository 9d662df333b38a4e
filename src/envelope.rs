//! The versioned envelope: a version tag, a 32-bit byte count and the
//! payload, with raw bytes kept for versions this node does not know.

use crate::codec::{
    enc_v1, enc_v2, lemma_parse_v1, lemma_parse_v2, lemma_v1_sound, lemma_v2_sound, parse_v1,
    parse_v2, wf_v1, wf_v2,
};
use crate::message::{NetworkData, NetworkDataModel, NetworkDataV1, NetworkDataV1Model};
use crate::wire::{
    le_u16, le_u32, lemma_read_u16, lemma_read_u32, lemma_u16_sound, lemma_u32_sound, push_u16, push_u32, read_u16, read_u32,
    take_u16, take_u32,
};
use vstd::prelude::*;
use vstd::slice::{slice_subrange, slice_to_vec};

verus! {

/// The largest admissible size of a single block, in bytes.
pub const MAX_BLOCK_SIZE: u32 = 5 * 1024 * 1024;

/// The largest payload accepted for a version this node does not know:
/// room for ten blocks and some slack.
pub const MAX_SYNC_MESSAGE_SIZE: u32 = MAX_BLOCK_SIZE * 11;

/// A protocol version number.
#[derive(Clone, Copy, Debug, PartialEq, Eq, Structural)]
pub struct Version(pub u16);

/// Network data together with its version.
#[derive(Clone, Debug, PartialEq, Eq)]
pub enum VersionedNetworkData {
    /// Data of a version this node does not know, kept as raw bytes.
    Other(Version, Vec<u8>),
    V1(NetworkDataV1),
    V2(NetworkData),
}

/// The view of versioned data.
pub enum VersionedModel {
    Other(nat, Seq<u8>),
    V1(NetworkDataV1Model),
    V2(NetworkDataModel),
}

impl View for VersionedNetworkData {
    type V = VersionedModel;

    open spec fn view(&self) -> VersionedModel {
        match self {
            VersionedNetworkData::Other(v, b) => VersionedModel::Other(v.0 as nat, b@),
            VersionedNetworkData::V1(d) => VersionedModel::V1(d@),
            VersionedNetworkData::V2(d) => VersionedModel::V2(d@),
        }
    }
}

/// Why an envelope could not be decoded.
#[derive(Clone, Copy, Debug, PartialEq, Eq, Structural)]
pub enum DecodeError {
    /// The input is truncated or ill-formed.
    Malformed,
    /// The version is unknown and the declared payload exceeds
    /// `MAX_SYNC_MESSAGE_SIZE`.
    UnknownVersionTooLarge,
}

/// A byte count, saturated at the largest 32-bit value.
pub open spec fn byte_count(n: nat) -> nat {
    if n > 0xffff_ffff {
        0xffff_ffff
    } else {
        n
    }
}

/// A payload framed with its version and byte count.
pub open spec fn frame(version: nat, payload: Seq<u8>) -> Seq<u8> {
    le_u16(version) + le_u32(byte_count(payload.len())) + payload
}

/// The encoding of versioned data.
pub open spec fn enc_versioned(m: VersionedModel) -> Seq<u8> {
    match m {
        VersionedModel::Other(v, b) => frame(v, b),
        VersionedModel::V1(d) => frame(1, enc_v1(d)),
        VersionedModel::V2(d) => frame(2, enc_v2(d)),
    }
}

/// Versioned data that can be encoded.
pub open spec fn wf_versioned(m: VersionedModel) -> bool {
    match m {
        VersionedModel::Other(v, _) => v < 0x10000,
        VersionedModel::V1(d) => wf_v1(d),
        VersionedModel::V2(d) => wf_v2(d),
    }
}

/// Versioned data read from the start of `s`, with the position after it.
/// Known versions are read from what follows the header, whatever count it
/// declares; unknown ones are kept raw, up to `MAX_SYNC_MESSAGE_SIZE` bytes.
pub open spec fn parse_versioned(s: Seq<u8>) -> Result<(VersionedModel, int), DecodeError> {
    match read_u16(s, 0) {
        None => Err(DecodeError::Malformed),
        Some(v) => match read_u32(s, 2) {
            None => Err(DecodeError::Malformed),
            Some(n) => if v == 1 {
                match parse_v1(s, 6) {
                    Some((d, q)) => Ok((VersionedModel::V1(d), q)),
                    None => Err(DecodeError::Malformed),
                }
            } else if v == 2 {
                match parse_v2(s, 6) {
                    Some((d, q)) => Ok((VersionedModel::V2(d), q)),
                    None => Err(DecodeError::Malformed),
                }
            } else if n > MAX_SYNC_MESSAGE_SIZE {
                Err(DecodeError::UnknownVersionTooLarge)
            } else if 6 + n <= s.len() {
                Ok((VersionedModel::Other(v, s.subrange(6, 6 + n as int)), 6 + n as int))
            } else {
                Err(DecodeError::Malformed)
            },
        },
    }
}

/// Frames `payload` with `version` and its byte count, saturated at the
/// largest 32-bit value.
pub fn encode_with_version(version: Version, payload: &[u8]) -> (r: Vec<u8>)
    ensures
        r@ == frame(version.0 as nat, payload@),
{
    let size: u32 = if payload.len() > 0xffff_ffffusize {
        0xffff_ffff
    } else {
        payload.len() as u32
    };
    let mut result: Vec<u8> = Vec::new();
    push_u16(&mut result, version.0);
    push_u32(&mut result, size);
    let mut body = slice_to_vec(payload);
    result.append(&mut body);
    assert(result@ =~= frame(version.0 as nat, payload@));
    result
}

impl VersionedNetworkData {
    /// The envelope of this data: known versions carry their own encoding,
    /// unknown ones their raw bytes.
    pub fn encode(&self) -> (r: Vec<u8>)
        requires
            wf_versioned(self@),
        ensures
            r@ == enc_versioned(self@),
    {
        match self {
            VersionedNetworkData::Other(version, payload) => encode_with_version(
                *version,
                payload.as_slice(),
            ),
            VersionedNetworkData::V1(data) => {
                let payload = data.encode();
                encode_with_version(Version(1), payload.as_slice())
            },
            VersionedNetworkData::V2(data) => {
                let payload = data.encode();
                encode_with_version(Version(2), payload.as_slice())
            },
        }
    }

    /// Decodes an envelope from the start of `input`; the number of bytes
    /// read comes with it.
    pub fn decode(input: &[u8]) -> (r: Result<(VersionedNetworkData, usize), DecodeError>)
        ensures
            match r {
                Ok((x, q)) => parse_versioned(input@) == Ok::<(VersionedModel, int), DecodeError>(
                    (x@, q as int),
                ),
                Err(e) => parse_versioned(input@) == Err::<(VersionedModel, int), DecodeError>(e),
            },
    {
        let version = match take_u16(input, 0) {
            Some(v) => v,
            None => return Err(DecodeError::Malformed),
        };
        let num_bytes = match take_u32(input, 2) {
            Some(n) => n,
            None => return Err(DecodeError::Malformed),
        };
        if version == 1 {
            match NetworkDataV1::decode_at(input, 6) {
                Some((d, q)) => Ok((VersionedNetworkData::V1(d), q)),
                None => Err(DecodeError::Malformed),
            }
        } else if version == 2 {
            match NetworkData::decode_at(input, 6) {
                Some((d, q)) => Ok((VersionedNetworkData::V2(d), q)),
                None => Err(DecodeError::Malformed),
            }
        } else if num_bytes > MAX_SYNC_MESSAGE_SIZE {
            Err(DecodeError::UnknownVersionTooLarge)
        } else if num_bytes as usize <= input.len() - 6 {
            let end = 6 + num_bytes as usize;
            let payload = slice_to_vec(slice_subrange(input, 6, end));
            Ok((VersionedNetworkData::Other(Version(version), payload), end))
        } else {
            Err(DecodeError::Malformed)
        }
    }
}

/// Any versioned data that can be encoded, with an unknown version's payload
/// within `MAX_SYNC_MESSAGE_SIZE` bytes, is read back exactly from its
/// envelope, followed by anything, and the reading stops where the envelope
/// ends. An unknown version is one other than 1 and 2.
#[verifier::rlimit(40)]
#[verifier::spinoff_prover]
pub proof fn lemma_envelope_round_trip(m: VersionedModel, rest: Seq<u8>)
    requires
        wf_versioned(m),
        m is Other ==> m->Other_0 != 1 && m->Other_0 != 2 && m->Other_1.len()
            <= MAX_SYNC_MESSAGE_SIZE,
    ensures
        parse_versioned(enc_versioned(m) + rest) == Ok::<(VersionedModel, int), DecodeError>(
            (m, enc_versioned(m).len() as int),
        ),
{
    let e = enc_versioned(m);
    let s = e + rest;
    let (v, payload) = match m {
        VersionedModel::Other(v, b) => (v, b),
        VersionedModel::V1(d) => (1nat, enc_v1(d)),
        VersionedModel::V2(d) => (2nat, enc_v2(d)),
    };
    let n = byte_count(payload.len());
    assert(s.subrange(0, 2) =~= le_u16(v));
    assert(s.subrange(2, 6) =~= le_u32(n));
    lemma_read_u16(s, 0, v);
    lemma_read_u32(s, 2, n);
    match m {
        VersionedModel::Other(_, b) => {
            assert(s.subrange(6, 6 + b.len() as int) =~= b);
        },
        VersionedModel::V1(d) => {
            assert(s.subrange(6, 6 + enc_v1(d).len() as int) =~= enc_v1(d));
            lemma_parse_v1(s, 6, d);
        },
        VersionedModel::V2(d) => {
            assert(s.subrange(6, 6 + enc_v2(d).len() as int) =~= enc_v2(d));
            lemma_parse_v2(s, 6, d);
        },
    }
}

/// An envelope of an unknown version that declares more than
/// `MAX_SYNC_MESSAGE_SIZE` payload bytes is refused, whatever follows.
pub proof fn lemma_unknown_oversize_refused(version: nat, declared: nat, rest: Seq<u8>)
    requires
        version < 0x10000,
        version != 1,
        version != 2,
        MAX_SYNC_MESSAGE_SIZE < declared < 0x1_0000_0000,
    ensures
        parse_versioned(le_u16(version) + le_u32(declared) + rest) == Err::<
            (VersionedModel, int),
            DecodeError,
        >(DecodeError::UnknownVersionTooLarge),
{
    let s = le_u16(version) + le_u32(declared) + rest;
    assert(s.subrange(0, 2) =~= le_u16(version));
    assert(s.subrange(2, 6) =~= le_u32(declared));
    lemma_read_u16(s, 0, version);
    lemma_read_u32(s, 2, declared);
}

impl VersionedNetworkData {
    /// The size of this data's envelope: never less than its encoding, and
    /// in fact equal to it.
    pub fn size_hint(&self) -> (r: usize)
        requires
            wf_versioned(self@),
            enc_versioned(self@).len() <= usize::MAX,
        ensures
            r >= enc_versioned(self@).len(),
            r == enc_versioned(self@).len(),
    {
        let header: usize = 2 + 4;
        match self {
            VersionedNetworkData::Other(_, payload) => header + payload.len(),
            VersionedNetworkData::V1(data) => header + data.encoded_size(),
            VersionedNetworkData::V2(data) => header + data.encoded_size(),
        }
    }
}

/// What it means for `s` to hold, up to `q`, an envelope read as `m`: one of
/// an unknown version is exactly the encoding of `m`, with a payload within
/// `MAX_SYNC_MESSAGE_SIZE` bytes; one of a known version starts with that
/// version's tag, and the data stands encoded right after the header.
pub open spec fn accepted(s: Seq<u8>, m: VersionedModel, q: int) -> bool {
    &&& wf_versioned(m)
    &&& 6 <= q <= s.len()
    &&& match m {
        VersionedModel::Other(v, b) => v != 1 && v != 2 && b.len() <= MAX_SYNC_MESSAGE_SIZE
            && s.subrange(0, q) == enc_versioned(m),
        VersionedModel::V1(d) => s.subrange(0, 2) == le_u16(1) && s.subrange(6, q) == enc_v1(d),
        VersionedModel::V2(d) => s.subrange(0, 2) == le_u16(2) && s.subrange(6, q) == enc_v2(d),
    }
}

/// Whatever the envelope decoder accepts is an envelope in the sense of
/// `accepted`: the decoder reads nothing that the encoder would not write.
pub proof fn lemma_envelope_sound(s: Seq<u8>)
    requires
        parse_versioned(s) is Ok,
    ensures
        accepted(s, (parse_versioned(s)->Ok_0).0, (parse_versioned(s)->Ok_0).1),
{
    lemma_u16_sound(s, 0);
    lemma_u32_sound(s, 2);
    let v = read_u16(s, 0)->0;
    let n = read_u32(s, 2)->0;
    if v == 1 {
        lemma_v1_sound(s, 6);
    } else if v == 2 {
        lemma_v2_sound(s, 6);
    } else {
        let b = s.subrange(6, 6 + n as int);
        assert(byte_count(b.len()) == n);
        assert(s.subrange(0, 6 + n as int) =~= le_u16(v) + le_u32(n) + b) by {
            assert(s.subrange(0, 2) =~= s.subrange(0, 6 + n as int).subrange(0, 2));
            assert(s.subrange(2, 6) =~= s.subrange(0, 6 + n as int).subrange(2, 6));
        }
    }
}

} // verus!
