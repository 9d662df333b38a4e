//! The binary form of the message model: encoders, decoders and their
//! agreement.

use crate::message::{
    byte_strings, copy_bytes, opt_bytes, BlockId, BlockIdModel, BranchKnowledge,
    BranchKnowledgeModel, NetworkData, NetworkDataModel, NetworkDataV1, NetworkDataV1Model,
    Request, RequestModel, State,
};
use crate::wire::{
    compact_len, compact_u32, le_u32, lemma_compact_sound, lemma_read_compact, lemma_read_u32,
    lemma_u32_sound, push_compact, push_u32, read_compact, read_u32, take_compact, take_u32,
};
use vstd::prelude::*;
use vstd::slice::{slice_subrange, slice_to_vec};

verus! {

/// The largest count that a compact length can hold.
pub const MAX_COUNT: u64 = 0xffff_ffff;

/// A byte string whose length a compact count can hold.
pub open spec fn fits(b: Seq<u8>) -> bool {
    b.len() <= MAX_COUNT
}

/// A list of byte strings that can be encoded.
pub open spec fn fits_all(l: Seq<Seq<u8>>) -> bool {
    l.len() <= MAX_COUNT && forall|i: int| 0 <= i < l.len() ==> fits(#[trigger] l[i])
}

/// A block identifier that can be encoded.
pub open spec fn wf_id(m: BlockIdModel) -> bool {
    fits(m.hash) && m.number <= MAX_COUNT
}

/// Branch knowledge that can be encoded.
pub open spec fn wf_branch(m: BranchKnowledgeModel) -> bool {
    match m {
        BranchKnowledgeModel::LowestId(id) => wf_id(id),
        BranchKnowledgeModel::TopImported(id) => wf_id(id),
    }
}

/// A request that can be encoded.
pub open spec fn wf_request(m: RequestModel) -> bool {
    wf_id(m.target_id) && wf_branch(m.branch_knowledge) && fits(m.state)
}

/// An optional byte string that can be encoded.
pub open spec fn wf_opt(o: Option<Seq<u8>>) -> bool {
    match o {
        Some(b) => fits(b),
        None => true,
    }
}

/// Legacy data that can be encoded: every length fits a compact count.
pub open spec fn wf_v1(m: NetworkDataV1Model) -> bool {
    match m {
        NetworkDataV1Model::StateBroadcast(s) => fits(s),
        NetworkDataV1Model::StateBroadcastResponse(j, o) => fits(j) && wf_opt(o),
        NetworkDataV1Model::Request(r) => wf_request(r),
        NetworkDataV1Model::RequestResponse(js) => fits_all(js),
    }
}

/// Current data that can be encoded: every length fits a compact count.
pub open spec fn wf_v2(m: NetworkDataModel) -> bool {
    match m {
        NetworkDataModel::StateBroadcast(s) => fits(s),
        NetworkDataModel::StateBroadcastResponse(j, o) => fits(j) && wf_opt(o),
        NetworkDataModel::Request(r) => wf_request(r),
        NetworkDataModel::RequestResponse(js, hs, bs) => fits_all(js) && fits_all(hs) && fits_all(
            bs,
        ),
    }
}

/// A byte string: its compact length, then its bytes.
pub open spec fn enc_bytes(b: Seq<u8>) -> Seq<u8> {
    compact_u32(b.len()) + b
}

/// A block identifier: its hash bytes, then its height in four bytes.
pub open spec fn enc_id(m: BlockIdModel) -> Seq<u8> {
    enc_bytes(m.hash) + le_u32(m.number)
}

/// Branch knowledge: the variant's index byte, then the identifier.
pub open spec fn enc_branch(m: BranchKnowledgeModel) -> Seq<u8> {
    match m {
        BranchKnowledgeModel::LowestId(id) => seq![0u8] + enc_id(id),
        BranchKnowledgeModel::TopImported(id) => seq![1u8] + enc_id(id),
    }
}

/// A request: target, branch knowledge, state.
pub open spec fn enc_request(m: RequestModel) -> Seq<u8> {
    enc_id(m.target_id) + enc_branch(m.branch_knowledge) + enc_bytes(m.state)
}

/// An optional byte string: a presence byte, then the bytes if present.
pub open spec fn enc_opt(o: Option<Seq<u8>>) -> Seq<u8> {
    match o {
        Some(b) => seq![1u8] + enc_bytes(b),
        None => seq![0u8],
    }
}

/// The items of a list, one after another.
pub open spec fn enc_items(l: Seq<Seq<u8>>) -> Seq<u8>
    decreases l.len(),
{
    if l.len() == 0 {
        Seq::empty()
    } else {
        enc_items(l.drop_last()) + enc_bytes(l.last())
    }
}

/// A list: its compact length, then its items.
pub open spec fn enc_list(l: Seq<Seq<u8>>) -> Seq<u8> {
    compact_u32(l.len()) + enc_items(l)
}

/// Legacy data: the variant's index byte, then its fields.
pub open spec fn enc_v1(m: NetworkDataV1Model) -> Seq<u8> {
    match m {
        NetworkDataV1Model::StateBroadcast(s) => seq![0u8] + enc_bytes(s),
        NetworkDataV1Model::StateBroadcastResponse(j, o) => seq![1u8] + enc_bytes(j) + enc_opt(o),
        NetworkDataV1Model::Request(r) => seq![2u8] + enc_request(r),
        NetworkDataV1Model::RequestResponse(js) => seq![3u8] + enc_list(js),
    }
}

/// Current data: the variant's index byte, then its fields.
pub open spec fn enc_v2(m: NetworkDataModel) -> Seq<u8> {
    match m {
        NetworkDataModel::StateBroadcast(s) => seq![0u8] + enc_bytes(s),
        NetworkDataModel::StateBroadcastResponse(j, o) => seq![1u8] + enc_bytes(j) + enc_opt(o),
        NetworkDataModel::Request(r) => seq![2u8] + enc_request(r),
        NetworkDataModel::RequestResponse(js, hs, bs) => seq![3u8] + enc_list(js) + enc_list(hs)
            + enc_list(bs),
    }
}

fn encode_bytes_to(b: &Vec<u8>, out: &mut Vec<u8>)
    requires
        fits(b@),
    ensures
        final(out)@ == old(out)@ + enc_bytes(b@),
{
    push_compact(out, b.len() as u32);
    let mut c = copy_bytes(b);
    out.append(&mut c);
    assert(final(out)@ =~= old(out)@ + enc_bytes(b@));
}

fn encode_list_to(l: &Vec<Vec<u8>>, out: &mut Vec<u8>)
    requires
        fits_all(byte_strings(l@)),
    ensures
        final(out)@ == old(out)@ + enc_list(byte_strings(l@)),
{
    let ghost start = old(out)@;
    push_compact(out, l.len() as u32);
    let ghost head = out@;
    let mut i: usize = 0;
    while i < l.len()
        invariant
            i <= l@.len(),
            fits_all(byte_strings(l@)),
            out@ == head + enc_items(byte_strings(l@.subrange(0, i as int))),
        decreases l@.len() - i,
    {
        assert(fits(byte_strings(l@)[i as int]));
        encode_bytes_to(&l[i], out);
        let ghost pre = byte_strings(l@.subrange(0, i as int));
        let ghost now = byte_strings(l@.subrange(0, i + 1));
        assert(now.drop_last() =~= pre);
        assert(now.last() == l@[i as int]@);
        i += 1;
    }
    assert(l@.subrange(0, i as int) =~= l@);
    assert(byte_strings(l@).len() == l@.len());
    assert(out@ =~= start + enc_list(byte_strings(l@)));
}

fn encode_id_to(id: &BlockId, out: &mut Vec<u8>)
    requires
        wf_id(id@),
    ensures
        final(out)@ == old(out)@ + enc_id(id@),
{
    encode_bytes_to(&id.hash, out);
    push_u32(out, id.number);
    assert(final(out)@ =~= old(out)@ + enc_id(id@));
}

fn encode_branch_to(b: &BranchKnowledge, out: &mut Vec<u8>)
    requires
        wf_branch(b@),
    ensures
        final(out)@ == old(out)@ + enc_branch(b@),
{
    match b {
        BranchKnowledge::LowestId(id) => {
            out.push(0u8);
            encode_id_to(id, out);
        },
        BranchKnowledge::TopImported(id) => {
            out.push(1u8);
            encode_id_to(id, out);
        },
    }
    assert(final(out)@ =~= old(out)@ + enc_branch(b@));
}

fn encode_opt_to(o: &Option<Vec<u8>>, out: &mut Vec<u8>)
    requires
        wf_opt(opt_bytes(*o)),
    ensures
        final(out)@ == old(out)@ + enc_opt(opt_bytes(*o)),
{
    match o {
        Some(b) => {
            out.push(1u8);
            encode_bytes_to(b, out);
        },
        None => {
            out.push(0u8);
        },
    }
    assert(final(out)@ =~= old(out)@ + enc_opt(opt_bytes(*o)));
}

impl State {
    /// Appends the encoding of this state.
    pub fn encode_to(&self, out: &mut Vec<u8>)
        requires
            fits(self@),
        ensures
            final(out)@ == old(out)@ + enc_bytes(self@),
    {
        encode_bytes_to(&self.top_justification, out);
    }
}

impl Request {
    /// Appends the encoding of this request.
    pub fn encode_to(&self, out: &mut Vec<u8>)
        requires
            wf_request(self@),
        ensures
            final(out)@ == old(out)@ + enc_request(self@),
    {
        encode_id_to(&self.target_id, out);
        encode_branch_to(&self.branch_knowledge, out);
        self.state.encode_to(out);
        assert(final(out)@ =~= old(out)@ + enc_request(self@));
    }
}

impl NetworkDataV1 {
    /// Appends the encoding of this data.
    pub fn encode_to(&self, out: &mut Vec<u8>)
        requires
            wf_v1(self@),
        ensures
            final(out)@ == old(out)@ + enc_v1(self@),
    {
        match self {
            NetworkDataV1::StateBroadcast(s) => {
                out.push(0u8);
                s.encode_to(out);
            },
            NetworkDataV1::StateBroadcastResponse(j, o) => {
                out.push(1u8);
                encode_bytes_to(j, out);
                encode_opt_to(o, out);
            },
            NetworkDataV1::Request(r) => {
                out.push(2u8);
                r.encode_to(out);
            },
            NetworkDataV1::RequestResponse(js) => {
                out.push(3u8);
                encode_list_to(js, out);
            },
        }
        assert(final(out)@ =~= old(out)@ + enc_v1(self@));
    }

    /// The encoding of this data.
    pub fn encode(&self) -> (r: Vec<u8>)
        requires
            wf_v1(self@),
        ensures
            r@ == enc_v1(self@),
    {
        let mut out: Vec<u8> = Vec::new();
        self.encode_to(&mut out);
        assert(out@ =~= enc_v1(self@));
        out
    }
}

impl NetworkData {
    /// Appends the encoding of this data.
    pub fn encode_to(&self, out: &mut Vec<u8>)
        requires
            wf_v2(self@),
        ensures
            final(out)@ == old(out)@ + enc_v2(self@),
    {
        match self {
            NetworkData::StateBroadcast(s) => {
                out.push(0u8);
                s.encode_to(out);
            },
            NetworkData::StateBroadcastResponse(j, o) => {
                out.push(1u8);
                encode_bytes_to(j, out);
                encode_opt_to(o, out);
            },
            NetworkData::Request(r) => {
                out.push(2u8);
                r.encode_to(out);
            },
            NetworkData::RequestResponse(js, hs, bs) => {
                out.push(3u8);
                encode_list_to(js, out);
                encode_list_to(hs, out);
                encode_list_to(bs, out);
            },
        }
        assert(final(out)@ =~= old(out)@ + enc_v2(self@));
    }

    /// The encoding of this data.
    pub fn encode(&self) -> (r: Vec<u8>)
        requires
            wf_v2(self@),
        ensures
            r@ == enc_v2(self@),
    {
        let mut out: Vec<u8> = Vec::new();
        self.encode_to(&mut out);
        assert(out@ =~= enc_v2(self@));
        out
    }
}

/// A byte string read at `p`, with the position after it.
pub open spec fn parse_bytes(s: Seq<u8>, p: int) -> Option<(Seq<u8>, int)> {
    match read_compact(s, p) {
        Some(n) => {
            let q = p + compact_u32(n).len();
            if q + n <= s.len() {
                Some((s.subrange(q, q + n), q + n))
            } else {
                None
            }
        },
        None => None,
    }
}

/// A block identifier read at `p`, with the position after it.
pub open spec fn parse_id(s: Seq<u8>, p: int) -> Option<(BlockIdModel, int)> {
    match parse_bytes(s, p) {
        Some((h, q)) => match read_u32(s, q) {
            Some(n) => Some((BlockIdModel { hash: h, number: n }, q + 4)),
            None => None,
        },
        None => None,
    }
}

/// Branch knowledge read at `p`, with the position after it.
pub open spec fn parse_branch(s: Seq<u8>, p: int) -> Option<(BranchKnowledgeModel, int)> {
    if 0 <= p < s.len() && s[p] == 0 {
        match parse_id(s, p + 1) {
            Some((id, q)) => Some((BranchKnowledgeModel::LowestId(id), q)),
            None => None,
        }
    } else if 0 <= p < s.len() && s[p] == 1 {
        match parse_id(s, p + 1) {
            Some((id, q)) => Some((BranchKnowledgeModel::TopImported(id), q)),
            None => None,
        }
    } else {
        None
    }
}

/// A request read at `p`, with the position after it.
pub open spec fn parse_request(s: Seq<u8>, p: int) -> Option<(RequestModel, int)> {
    match parse_id(s, p) {
        Some((id, q)) => match parse_branch(s, q) {
            Some((b, q2)) => match parse_bytes(s, q2) {
                Some((st, q3)) => Some(
                    (RequestModel { target_id: id, branch_knowledge: b, state: st }, q3),
                ),
                None => None,
            },
            None => None,
        },
        None => None,
    }
}

/// An optional byte string read at `p`, with the position after it.
pub open spec fn parse_opt(s: Seq<u8>, p: int) -> Option<(Option<Seq<u8>>, int)> {
    if 0 <= p < s.len() && s[p] == 0 {
        Some((None, p + 1))
    } else if 0 <= p < s.len() && s[p] == 1 {
        match parse_bytes(s, p + 1) {
            Some((b, q)) => Some((Some(b), q)),
            None => None,
        }
    } else {
        None
    }
}

/// `n` byte strings read one after another from `p`.
pub open spec fn parse_items(s: Seq<u8>, p: int, n: nat) -> Option<(Seq<Seq<u8>>, int)>
    decreases n,
{
    if n == 0 {
        Some((Seq::empty(), p))
    } else {
        match parse_items(s, p, (n - 1) as nat) {
            Some((l, q)) => match parse_bytes(s, q) {
                Some((b, q2)) => Some((l.push(b), q2)),
                None => None,
            },
            None => None,
        }
    }
}

/// A list of byte strings read at `p`, with the position after it.
pub open spec fn parse_list(s: Seq<u8>, p: int) -> Option<(Seq<Seq<u8>>, int)> {
    match read_compact(s, p) {
        Some(n) => parse_items(s, p + compact_u32(n).len(), n),
        None => None,
    }
}

/// Legacy data read at `p`, with the position after it.
pub open spec fn parse_v1(s: Seq<u8>, p: int) -> Option<(NetworkDataV1Model, int)> {
    if !(0 <= p < s.len()) {
        None
    } else if s[p] == 0 {
        match parse_bytes(s, p + 1) {
            Some((b, q)) => Some((NetworkDataV1Model::StateBroadcast(b), q)),
            None => None,
        }
    } else if s[p] == 1 {
        match parse_bytes(s, p + 1) {
            Some((j, q)) => match parse_opt(s, q) {
                Some((o, q2)) => Some((NetworkDataV1Model::StateBroadcastResponse(j, o), q2)),
                None => None,
            },
            None => None,
        }
    } else if s[p] == 2 {
        match parse_request(s, p + 1) {
            Some((r, q)) => Some((NetworkDataV1Model::Request(r), q)),
            None => None,
        }
    } else if s[p] == 3 {
        match parse_list(s, p + 1) {
            Some((js, q)) => Some((NetworkDataV1Model::RequestResponse(js), q)),
            None => None,
        }
    } else {
        None
    }
}

/// Current data read at `p`, with the position after it.
pub open spec fn parse_v2(s: Seq<u8>, p: int) -> Option<(NetworkDataModel, int)> {
    if !(0 <= p < s.len()) {
        None
    } else if s[p] == 0 {
        match parse_bytes(s, p + 1) {
            Some((b, q)) => Some((NetworkDataModel::StateBroadcast(b), q)),
            None => None,
        }
    } else if s[p] == 1 {
        match parse_bytes(s, p + 1) {
            Some((j, q)) => match parse_opt(s, q) {
                Some((o, q2)) => Some((NetworkDataModel::StateBroadcastResponse(j, o), q2)),
                None => None,
            },
            None => None,
        }
    } else if s[p] == 2 {
        match parse_request(s, p + 1) {
            Some((r, q)) => Some((NetworkDataModel::Request(r), q)),
            None => None,
        }
    } else if s[p] == 3 {
        match parse_list(s, p + 1) {
            Some((js, q)) => match parse_list(s, q) {
                Some((hs, q2)) => match parse_list(s, q2) {
                    Some((bs, q3)) => Some((NetworkDataModel::RequestResponse(js, hs, bs), q3)),
                    None => None,
                },
                None => None,
            },
            None => None,
        }
    } else {
        None
    }
}

fn decode_bytes(s: &[u8], p: usize) -> (r: Option<(Vec<u8>, usize)>)
    requires
        p <= s@.len(),
    ensures
        match r {
            Some((b, q)) => parse_bytes(s@, p as int) == Some((b@, q as int)),
            None => parse_bytes(s@, p as int) is None,
        },
{
    let n = match take_compact(s, p) {
        Some(n) => n,
        None => return None,
    };
    let c = compact_len(n);
    if c > s.len() - p || n as usize > s.len() - p - c {
        return None;
    }
    let q = p + c;
    let b = slice_to_vec(slice_subrange(s, q, q + n as usize));
    Some((b, q + n as usize))
}

fn decode_id(s: &[u8], p: usize) -> (r: Option<(BlockId, usize)>)
    requires
        p <= s@.len(),
    ensures
        match r {
            Some((x, q)) => parse_id(s@, p as int) == Some((x@, q as int)),
            None => parse_id(s@, p as int) is None,
        },
{
    let (hash, q) = match decode_bytes(s, p) {
        Some(v) => v,
        None => return None,
    };
    let number = match take_u32(s, q) {
        Some(n) => n,
        None => return None,
    };
    let len = s.len();
    assert(q + 4 <= len);
    Some((BlockId { hash, number }, q + 4))
}

fn decode_branch(s: &[u8], p: usize) -> (r: Option<(BranchKnowledge, usize)>)
    requires
        p <= s@.len(),
    ensures
        match r {
            Some((x, q)) => parse_branch(s@, p as int) == Some((x@, q as int)),
            None => parse_branch(s@, p as int) is None,
        },
{
    if p >= s.len() {
        return None;
    }
    let tag = s[p];
    if tag > 1 {
        return None;
    }
    let (id, q) = match decode_id(s, p + 1) {
        Some(v) => v,
        None => return None,
    };
    if tag == 0 {
        Some((BranchKnowledge::LowestId(id), q))
    } else {
        Some((BranchKnowledge::TopImported(id), q))
    }
}

fn decode_opt(s: &[u8], p: usize) -> (r: Option<(Option<Vec<u8>>, usize)>)
    requires
        p <= s@.len(),
    ensures
        match r {
            Some((x, q)) => parse_opt(s@, p as int) == Some((opt_bytes(x), q as int)),
            None => parse_opt(s@, p as int) is None,
        },
{
    if p >= s.len() {
        return None;
    }
    if s[p] == 0 {
        Some((None, p + 1))
    } else if s[p] == 1 {
        match decode_bytes(s, p + 1) {
            Some((b, q)) => Some((Some(b), q)),
            None => None,
        }
    } else {
        None
    }
}

fn decode_list(s: &[u8], p: usize) -> (r: Option<(Vec<Vec<u8>>, usize)>)
    requires
        p <= s@.len(),
    ensures
        match r {
            Some((x, q)) => parse_list(s@, p as int) == Some((byte_strings(x@), q as int)),
            None => parse_list(s@, p as int) is None,
        },
{
    let n = match take_compact(s, p) {
        Some(n) => n,
        None => return None,
    };
    let c = compact_len(n);
    if c > s.len() - p {
        return None;
    }
    let ghost start = p + c;
    let mut pos = p + c;
    let mut items: Vec<Vec<u8>> = Vec::new();
    let mut i: u32 = 0;
    while i < n
        invariant
            i <= n,
            pos <= s@.len(),
            start == p + compact_u32(n as nat).len(),
            read_compact(s@, p as int) == Some(n as nat),
            parse_items(s@, start, i as nat) == Some((byte_strings(items@), pos as int)),
        decreases n - i,
    {
        let (b, q) = match decode_bytes(s, pos) {
            Some(v) => v,
            None => {
                proof {
                    assert(parse_items(s@, start, (i + 1) as nat) is None);
                    lemma_items_stop(s@, start, (i + 1) as nat, n as nat);
                }
                return None;
            },
        };
        assert(byte_strings(items@.push(b)) =~= byte_strings(items@).push(b@));
        items.push(b);
        pos = q;
        i += 1;
    }
    Some((items, pos))
}

/// Once reading a list's items fails, reading more of them fails too.
proof fn lemma_items_stop(s: Seq<u8>, p: int, i: nat, n: nat)
    requires
        i <= n,
        parse_items(s, p, i) is None,
    ensures
        parse_items(s, p, n) is None,
    decreases n - i,
{
    if i < n {
        lemma_items_stop(s, p, i + 1, n);
    }
}

fn decode_request(s: &[u8], p: usize) -> (r: Option<(Request, usize)>)
    requires
        p <= s@.len(),
    ensures
        match r {
            Some((x, q)) => parse_request(s@, p as int) == Some((x@, q as int)),
            None => parse_request(s@, p as int) is None,
        },
{
    let (target_id, q) = match decode_id(s, p) {
        Some(v) => v,
        None => return None,
    };
    let (branch_knowledge, q2) = match decode_branch(s, q) {
        Some(v) => v,
        None => return None,
    };
    let (top, q3) = match decode_bytes(s, q2) {
        Some(v) => v,
        None => return None,
    };
    Some((Request { target_id, branch_knowledge, state: State { top_justification: top } }, q3))
}

impl NetworkDataV1 {
    /// Decodes legacy data at `p`; the position after it comes with it.
    pub fn decode_at(s: &[u8], p: usize) -> (r: Option<(NetworkDataV1, usize)>)
        requires
            p <= s@.len(),
        ensures
            match r {
                Some((x, q)) => parse_v1(s@, p as int) == Some((x@, q as int)),
                None => parse_v1(s@, p as int) is None,
            },
    {
        if p >= s.len() {
            return None;
        }
        let tag = s[p];
        if tag == 0 {
            match decode_bytes(s, p + 1) {
                Some((b, q)) => Some((NetworkDataV1::StateBroadcast(State { top_justification: b }), q)),
                None => None,
            }
        } else if tag == 1 {
            let (j, q) = match decode_bytes(s, p + 1) {
                Some(v) => v,
                None => return None,
            };
            match decode_opt(s, q) {
                Some((o, q2)) => Some((NetworkDataV1::StateBroadcastResponse(j, o), q2)),
                None => None,
            }
        } else if tag == 2 {
            match decode_request(s, p + 1) {
                Some((r, q)) => Some((NetworkDataV1::Request(r), q)),
                None => None,
            }
        } else if tag == 3 {
            match decode_list(s, p + 1) {
                Some((js, q)) => Some((NetworkDataV1::RequestResponse(js), q)),
                None => None,
            }
        } else {
            None
        }
    }
}

impl NetworkData {
    /// Decodes current data at `p`; the position after it comes with it.
    pub fn decode_at(s: &[u8], p: usize) -> (r: Option<(NetworkData, usize)>)
        requires
            p <= s@.len(),
        ensures
            match r {
                Some((x, q)) => parse_v2(s@, p as int) == Some((x@, q as int)),
                None => parse_v2(s@, p as int) is None,
            },
    {
        if p >= s.len() {
            return None;
        }
        let tag = s[p];
        if tag == 0 {
            match decode_bytes(s, p + 1) {
                Some((b, q)) => Some((NetworkData::StateBroadcast(State { top_justification: b }), q)),
                None => None,
            }
        } else if tag == 1 {
            let (j, q) = match decode_bytes(s, p + 1) {
                Some(v) => v,
                None => return None,
            };
            match decode_opt(s, q) {
                Some((o, q2)) => Some((NetworkData::StateBroadcastResponse(j, o), q2)),
                None => None,
            }
        } else if tag == 2 {
            match decode_request(s, p + 1) {
                Some((r, q)) => Some((NetworkData::Request(r), q)),
                None => None,
            }
        } else if tag == 3 {
            let (js, q) = match decode_list(s, p + 1) {
                Some(v) => v,
                None => return None,
            };
            let (hs, q2) = match decode_list(s, q) {
                Some(v) => v,
                None => return None,
            };
            match decode_list(s, q2) {
                Some((bs, q3)) => Some((NetworkData::RequestResponse(js, hs, bs), q3)),
                None => None,
            }
        } else {
            None
        }
    }
}

/// `s` holds `e` from position `p` on.
pub open spec fn holds_at(s: Seq<u8>, p: int, e: Seq<u8>) -> bool {
    0 <= p && p + e.len() <= s.len() && s.subrange(p, p + e.len()) == e
}

proof fn lemma_split(s: Seq<u8>, p: int, a: Seq<u8>, b: Seq<u8>)
    requires
        holds_at(s, p, a + b),
    ensures
        holds_at(s, p, a),
        holds_at(s, p + a.len(), b),
{
    let t = s.subrange(p, p + (a + b).len());
    assert(s.subrange(p, p + a.len()) =~= t.subrange(0, a.len() as int));
    assert(t.subrange(0, a.len() as int) =~= a);
    assert(s.subrange(p + a.len(), p + a.len() + b.len()) =~= t.subrange(
        a.len() as int,
        (a + b).len() as int,
    ));
    assert(t.subrange(a.len() as int, (a + b).len() as int) =~= b);
}

proof fn lemma_tag(s: Seq<u8>, p: int, t: u8, rest: Seq<u8>)
    requires
        holds_at(s, p, seq![t] + rest),
    ensures
        0 <= p < s.len(),
        s[p] == t,
        holds_at(s, p + 1, rest),
{
    lemma_split(s, p, seq![t], rest);
    assert(s[p] == s.subrange(p, p + 1)[0]);
}

proof fn lemma_parse_bytes(s: Seq<u8>, p: int, b: Seq<u8>)
    requires
        fits(b),
        holds_at(s, p, enc_bytes(b)),
    ensures
        parse_bytes(s, p) == Some((b, p + enc_bytes(b).len())),
{
    lemma_split(s, p, compact_u32(b.len()), b);
    lemma_read_compact(s, p, b.len());
}

proof fn lemma_parse_id(s: Seq<u8>, p: int, m: BlockIdModel)
    requires
        wf_id(m),
        holds_at(s, p, enc_id(m)),
    ensures
        parse_id(s, p) == Some((m, p + enc_id(m).len())),
{
    lemma_split(s, p, enc_bytes(m.hash), le_u32(m.number));
    lemma_parse_bytes(s, p, m.hash);
    lemma_read_u32(s, p + enc_bytes(m.hash).len(), m.number);
}

proof fn lemma_parse_branch(s: Seq<u8>, p: int, m: BranchKnowledgeModel)
    requires
        wf_branch(m),
        holds_at(s, p, enc_branch(m)),
    ensures
        parse_branch(s, p) == Some((m, p + enc_branch(m).len())),
{
    match m {
        BranchKnowledgeModel::LowestId(id) => {
            lemma_tag(s, p, 0u8, enc_id(id));
            lemma_parse_id(s, p + 1, id);
        },
        BranchKnowledgeModel::TopImported(id) => {
            lemma_tag(s, p, 1u8, enc_id(id));
            lemma_parse_id(s, p + 1, id);
        },
    }
}

proof fn lemma_parse_request(s: Seq<u8>, p: int, m: RequestModel)
    requires
        wf_request(m),
        holds_at(s, p, enc_request(m)),
    ensures
        parse_request(s, p) == Some((m, p + enc_request(m).len())),
{
    let a = enc_id(m.target_id);
    let b = enc_branch(m.branch_knowledge);
    lemma_split(s, p, a + b, enc_bytes(m.state));
    lemma_split(s, p, a, b);
    lemma_parse_id(s, p, m.target_id);
    lemma_parse_branch(s, p + a.len(), m.branch_knowledge);
    lemma_parse_bytes(s, p + a.len() + b.len(), m.state);
}

proof fn lemma_parse_opt(s: Seq<u8>, p: int, o: Option<Seq<u8>>)
    requires
        wf_opt(o),
        holds_at(s, p, enc_opt(o)),
    ensures
        parse_opt(s, p) == Some((o, p + enc_opt(o).len())),
{
    match o {
        Some(b) => {
            lemma_tag(s, p, 1u8, enc_bytes(b));
            lemma_parse_bytes(s, p + 1, b);
        },
        None => {
            assert(seq![0u8] =~= seq![0u8] + Seq::<u8>::empty());
            lemma_tag(s, p, 0u8, Seq::empty());
        },
    }
}

proof fn lemma_parse_items(s: Seq<u8>, p: int, l: Seq<Seq<u8>>)
    requires
        fits_all(l),
        holds_at(s, p, enc_items(l)),
    ensures
        parse_items(s, p, l.len()) == Some((l, p + enc_items(l).len())),
    decreases l.len(),
{
    if l.len() == 0 {
        assert(l =~= Seq::<Seq<u8>>::empty());
    } else {
        let init = l.drop_last();
        assert(fits_all(init)) by {
            assert forall|i: int| 0 <= i < init.len() implies fits(#[trigger] init[i]) by {
                assert(init[i] == l[i]);
            }
        }
        assert(fits(l[l.len() - 1]));
        lemma_split(s, p, enc_items(init), enc_bytes(l.last()));
        lemma_parse_items(s, p, init);
        lemma_parse_bytes(s, p + enc_items(init).len(), l.last());
        assert(init.push(l.last()) =~= l);
    }
}

proof fn lemma_parse_list(s: Seq<u8>, p: int, l: Seq<Seq<u8>>)
    requires
        fits_all(l),
        holds_at(s, p, enc_list(l)),
    ensures
        parse_list(s, p) == Some((l, p + enc_list(l).len())),
{
    lemma_split(s, p, compact_u32(l.len()), enc_items(l));
    lemma_read_compact(s, p, l.len());
    lemma_parse_items(s, p + compact_u32(l.len()).len(), l);
}

/// Legacy data is read back from its encoding wherever it stands.
pub proof fn lemma_parse_v1(s: Seq<u8>, p: int, m: NetworkDataV1Model)
    requires
        wf_v1(m),
        holds_at(s, p, enc_v1(m)),
    ensures
        parse_v1(s, p) == Some((m, p + enc_v1(m).len())),
{
    match m {
        NetworkDataV1Model::StateBroadcast(b) => {
            lemma_tag(s, p, 0u8, enc_bytes(b));
            lemma_parse_bytes(s, p + 1, b);
        },
        NetworkDataV1Model::StateBroadcastResponse(j, o) => {
            assert(enc_v1(m) =~= seq![1u8] + (enc_bytes(j) + enc_opt(o)));
            lemma_tag(s, p, 1u8, enc_bytes(j) + enc_opt(o));
            lemma_split(s, p + 1, enc_bytes(j), enc_opt(o));
            lemma_parse_bytes(s, p + 1, j);
            lemma_parse_opt(s, p + 1 + enc_bytes(j).len(), o);
        },
        NetworkDataV1Model::Request(r) => {
            lemma_tag(s, p, 2u8, enc_request(r));
            lemma_parse_request(s, p + 1, r);
        },
        NetworkDataV1Model::RequestResponse(js) => {
            lemma_tag(s, p, 3u8, enc_list(js));
            lemma_parse_list(s, p + 1, js);
        },
    }
}

#[verifier::rlimit(60)]
#[verifier::spinoff_prover]
/// Current data is read back from its encoding wherever it stands.
pub proof fn lemma_parse_v2(s: Seq<u8>, p: int, m: NetworkDataModel)
    requires
        wf_v2(m),
        holds_at(s, p, enc_v2(m)),
    ensures
        parse_v2(s, p) == Some((m, p + enc_v2(m).len())),
{
    match m {
        NetworkDataModel::StateBroadcast(b) => {
            lemma_tag(s, p, 0u8, enc_bytes(b));
            lemma_parse_bytes(s, p + 1, b);
        },
        NetworkDataModel::StateBroadcastResponse(j, o) => {
            assert(enc_v2(m) =~= seq![1u8] + (enc_bytes(j) + enc_opt(o)));
            lemma_tag(s, p, 1u8, enc_bytes(j) + enc_opt(o));
            lemma_split(s, p + 1, enc_bytes(j), enc_opt(o));
            lemma_parse_bytes(s, p + 1, j);
            lemma_parse_opt(s, p + 1 + enc_bytes(j).len(), o);
        },
        NetworkDataModel::Request(r) => {
            lemma_tag(s, p, 2u8, enc_request(r));
            lemma_parse_request(s, p + 1, r);
        },
        NetworkDataModel::RequestResponse(js, hs, bs) => {
            let a = enc_list(js);
            let b = enc_list(hs);
            let c = enc_list(bs);
            assert(enc_v2(m) =~= seq![3u8] + ((a + b) + c));
            lemma_tag(s, p, 3u8, (a + b) + c);
            lemma_parse_three_lists(s, p + 1, js, hs, bs);
        },
    }
}

proof fn lemma_parse_three_lists(
    s: Seq<u8>,
    p: int,
    js: Seq<Seq<u8>>,
    hs: Seq<Seq<u8>>,
    bs: Seq<Seq<u8>>,
)
    requires
        fits_all(js),
        fits_all(hs),
        fits_all(bs),
        holds_at(s, p, (enc_list(js) + enc_list(hs)) + enc_list(bs)),
    ensures
        parse_list(s, p) == Some((js, p + enc_list(js).len())),
        parse_list(s, p + enc_list(js).len()) == Some(
            (hs, p + enc_list(js).len() + enc_list(hs).len()),
        ),
        parse_list(s, p + enc_list(js).len() + enc_list(hs).len()) == Some(
            (bs, p + enc_list(js).len() + enc_list(hs).len() + enc_list(bs).len()),
        ),
{
    let a = enc_list(js);
    let b = enc_list(hs);
    lemma_split(s, p, a + b, enc_list(bs));
    lemma_split(s, p, a, b);
    lemma_parse_list(s, p, js);
    lemma_parse_list(s, p + a.len(), hs);
    lemma_parse_list(s, p + a.len() + b.len(), bs);
}

proof fn lemma_holds_at_start(e: Seq<u8>, rest: Seq<u8>)
    ensures
        holds_at(e + rest, 0, e),
{
    assert((e + rest).subrange(0, e.len() as int) =~= e);
}

/// A state read back from its encoding, followed by anything, is the state
/// encoded, and the reading stops where the encoding ends.
pub proof fn lemma_state_round_trip(m: Seq<u8>, rest: Seq<u8>)
    requires
        fits(m),
    ensures
        parse_bytes(enc_bytes(m) + rest, 0) == Some((m, enc_bytes(m).len() as int)),
{
    lemma_holds_at_start(enc_bytes(m), rest);
    lemma_parse_bytes(enc_bytes(m) + rest, 0, m);
}

/// A request read back from its encoding, followed by anything, is the
/// request encoded, and the reading stops where the encoding ends.
pub proof fn lemma_request_round_trip(m: RequestModel, rest: Seq<u8>)
    requires
        wf_request(m),
    ensures
        parse_request(enc_request(m) + rest, 0) == Some((m, enc_request(m).len() as int)),
{
    lemma_holds_at_start(enc_request(m), rest);
    lemma_parse_request(enc_request(m) + rest, 0, m);
}

/// Legacy data read back from its encoding, followed by anything, is the
/// data encoded, and the reading stops where the encoding ends.
pub proof fn lemma_v1_round_trip(m: NetworkDataV1Model, rest: Seq<u8>)
    requires
        wf_v1(m),
    ensures
        parse_v1(enc_v1(m) + rest, 0) == Some((m, enc_v1(m).len() as int)),
{
    lemma_holds_at_start(enc_v1(m), rest);
    lemma_parse_v1(enc_v1(m) + rest, 0, m);
}

/// Current data read back from its encoding, followed by anything, is the
/// data encoded, and the reading stops where the encoding ends.
pub proof fn lemma_v2_round_trip(m: NetworkDataModel, rest: Seq<u8>)
    requires
        wf_v2(m),
    ensures
        parse_v2(enc_v2(m) + rest, 0) == Some((m, enc_v2(m).len() as int)),
{
    lemma_holds_at_start(enc_v2(m), rest);
    lemma_parse_v2(enc_v2(m) + rest, 0, m);
}

/// The encoding of a prefix of a list's items is no longer than that of all.
proof fn lemma_items_prefix(l: Seq<Seq<u8>>, i: int)
    requires
        0 <= i <= l.len(),
    ensures
        enc_items(l.subrange(0, i)).len() <= enc_items(l).len(),
    decreases l.len(),
{
    if i < l.len() {
        let init = l.drop_last();
        assert(l.subrange(0, i) =~= init.subrange(0, i));
        lemma_items_prefix(init, i);
    } else {
        assert(l.subrange(0, i) =~= l);
    }
}

fn bytes_size(b: &Vec<u8>) -> (r: usize)
    requires
        fits(b@),
        enc_bytes(b@).len() <= usize::MAX,
    ensures
        r == enc_bytes(b@).len(),
{
    compact_len(b.len() as u32) + b.len()
}

fn id_size(id: &BlockId) -> (r: usize)
    requires
        wf_id(id@),
        enc_id(id@).len() <= usize::MAX,
    ensures
        r == enc_id(id@).len(),
{
    bytes_size(&id.hash) + 4
}

fn branch_size(b: &BranchKnowledge) -> (r: usize)
    requires
        wf_branch(b@),
        enc_branch(b@).len() <= usize::MAX,
    ensures
        r == enc_branch(b@).len(),
{
    match b {
        BranchKnowledge::LowestId(id) => 1 + id_size(id),
        BranchKnowledge::TopImported(id) => 1 + id_size(id),
    }
}

fn request_size(r: &Request) -> (n: usize)
    requires
        wf_request(r@),
        enc_request(r@).len() <= usize::MAX,
    ensures
        n == enc_request(r@).len(),
{
    id_size(&r.target_id) + branch_size(&r.branch_knowledge) + bytes_size(&r.state.top_justification)
}

fn opt_size(o: &Option<Vec<u8>>) -> (r: usize)
    requires
        wf_opt(opt_bytes(*o)),
        enc_opt(opt_bytes(*o)).len() <= usize::MAX,
    ensures
        r == enc_opt(opt_bytes(*o)).len(),
{
    match o {
        Some(b) => 1 + bytes_size(b),
        None => 1,
    }
}

fn list_size(l: &Vec<Vec<u8>>) -> (r: usize)
    requires
        fits_all(byte_strings(l@)),
        enc_list(byte_strings(l@)).len() <= usize::MAX,
    ensures
        r == enc_list(byte_strings(l@)).len(),
{
    let ghost all = byte_strings(l@);
    let mut acc: usize = compact_len(l.len() as u32);
    let mut i: usize = 0;
    while i < l.len()
        invariant
            i <= l@.len(),
            all == byte_strings(l@),
            fits_all(all),
            enc_list(all).len() <= usize::MAX,
            acc == compact_u32(all.len()).len() + enc_items(all.subrange(0, i as int)).len(),
        decreases l@.len() - i,
    {
        proof {
            let now = all.subrange(0, i + 1);
            assert(now.drop_last() =~= all.subrange(0, i as int));
            assert(now.last() == l@[i as int]@);
            lemma_items_prefix(all, i + 1);
            assert(fits(all[i as int]));
        }
        acc = acc + bytes_size(&l[i]);
        i += 1;
    }
    assert(all.subrange(0, i as int) =~= all);
    acc
}

impl NetworkDataV1 {
    /// The exact length of this data's encoding.
    pub fn encoded_size(&self) -> (r: usize)
        requires
            wf_v1(self@),
            enc_v1(self@).len() <= usize::MAX,
        ensures
            r == enc_v1(self@).len(),
    {
        match self {
            NetworkDataV1::StateBroadcast(s) => 1 + bytes_size(&s.top_justification),
            NetworkDataV1::StateBroadcastResponse(j, o) => 1 + bytes_size(j) + opt_size(o),
            NetworkDataV1::Request(r) => 1 + request_size(r),
            NetworkDataV1::RequestResponse(js) => 1 + list_size(js),
        }
    }
}

impl NetworkData {
    /// The exact length of this data's encoding.
    pub fn encoded_size(&self) -> (r: usize)
        requires
            wf_v2(self@),
            enc_v2(self@).len() <= usize::MAX,
        ensures
            r == enc_v2(self@).len(),
    {
        match self {
            NetworkData::StateBroadcast(s) => 1 + bytes_size(&s.top_justification),
            NetworkData::StateBroadcastResponse(j, o) => 1 + bytes_size(j) + opt_size(o),
            NetworkData::Request(r) => 1 + request_size(r),
            NetworkData::RequestResponse(js, hs, bs) => 1 + list_size(js) + list_size(hs)
                + list_size(bs),
        }
    }
}

impl State {
    /// Decodes a state at `p`; the position after it comes with it.
    pub fn decode_at(s: &[u8], p: usize) -> (r: Option<(State, usize)>)
        requires
            p <= s@.len(),
        ensures
            match r {
                Some((x, q)) => parse_bytes(s@, p as int) == Some((x@, q as int)),
                None => parse_bytes(s@, p as int) is None,
            },
    {
        match decode_bytes(s, p) {
            Some((b, q)) => Some((State { top_justification: b }, q)),
            None => None,
        }
    }
}

impl Request {
    /// Decodes a request at `p`; the position after it comes with it.
    pub fn decode_at(s: &[u8], p: usize) -> (r: Option<(Request, usize)>)
        requires
            p <= s@.len(),
        ensures
            match r {
                Some((x, q)) => parse_request(s@, p as int) == Some((x@, q as int)),
                None => parse_request(s@, p as int) is None,
            },
    {
        decode_request(s, p)
    }
}

proof fn lemma_join(s: Seq<u8>, p: int, a: Seq<u8>, b: Seq<u8>)
    requires
        holds_at(s, p, a),
        holds_at(s, p + a.len(), b),
    ensures
        holds_at(s, p, a + b),
{
    assert(s.subrange(p, p + (a + b).len()) =~= s.subrange(p, p + a.len()) + s.subrange(
        p + a.len(),
        p + a.len() + b.len(),
    ));
}

proof fn lemma_tag_sound(s: Seq<u8>, p: int)
    requires
        0 <= p < s.len(),
    ensures
        holds_at(s, p, seq![s[p]]),
{
    assert(s.subrange(p, p + 1) =~= seq![s[p]]);
}

proof fn lemma_bytes_sound(s: Seq<u8>, p: int)
    requires
        parse_bytes(s, p) is Some,
    ensures
        fits((parse_bytes(s, p)->0).0),
        holds_at(s, p, enc_bytes((parse_bytes(s, p)->0).0)),
        (parse_bytes(s, p)->0).1 == p + enc_bytes((parse_bytes(s, p)->0).0).len(),
{
    lemma_compact_sound(s, p);
    let n = read_compact(s, p)->0;
    let q = p + compact_u32(n).len();
    let b = s.subrange(q, q + n);
    assert(holds_at(s, q, b));
    lemma_join(s, p, compact_u32(n), b);
}

proof fn lemma_id_sound(s: Seq<u8>, p: int)
    requires
        parse_id(s, p) is Some,
    ensures
        wf_id((parse_id(s, p)->0).0),
        holds_at(s, p, enc_id((parse_id(s, p)->0).0)),
        (parse_id(s, p)->0).1 == p + enc_id((parse_id(s, p)->0).0).len(),
{
    lemma_bytes_sound(s, p);
    let q = (parse_bytes(s, p)->0).1;
    lemma_u32_sound(s, q);
    lemma_join(s, p, enc_bytes((parse_bytes(s, p)->0).0), le_u32(read_u32(s, q)->0));
}

proof fn lemma_branch_sound(s: Seq<u8>, p: int)
    requires
        parse_branch(s, p) is Some,
    ensures
        wf_branch((parse_branch(s, p)->0).0),
        holds_at(s, p, enc_branch((parse_branch(s, p)->0).0)),
        (parse_branch(s, p)->0).1 == p + enc_branch((parse_branch(s, p)->0).0).len(),
{
    lemma_tag_sound(s, p);
    lemma_id_sound(s, p + 1);
    lemma_join(s, p, seq![s[p]], enc_id((parse_id(s, p + 1)->0).0));
}

proof fn lemma_request_sound(s: Seq<u8>, p: int)
    requires
        parse_request(s, p) is Some,
    ensures
        wf_request((parse_request(s, p)->0).0),
        holds_at(s, p, enc_request((parse_request(s, p)->0).0)),
        (parse_request(s, p)->0).1 == p + enc_request((parse_request(s, p)->0).0).len(),
{
    lemma_id_sound(s, p);
    let (id, q) = parse_id(s, p)->0;
    lemma_branch_sound(s, q);
    let (b, q2) = parse_branch(s, q)->0;
    lemma_bytes_sound(s, q2);
    lemma_join(s, p, enc_id(id), enc_branch(b));
    lemma_join(s, p, enc_id(id) + enc_branch(b), enc_bytes((parse_bytes(s, q2)->0).0));
}

proof fn lemma_opt_sound(s: Seq<u8>, p: int)
    requires
        parse_opt(s, p) is Some,
    ensures
        wf_opt((parse_opt(s, p)->0).0),
        holds_at(s, p, enc_opt((parse_opt(s, p)->0).0)),
        (parse_opt(s, p)->0).1 == p + enc_opt((parse_opt(s, p)->0).0).len(),
{
    lemma_tag_sound(s, p);
    if s[p] == 1 {
        lemma_bytes_sound(s, p + 1);
        lemma_join(s, p, seq![s[p]], enc_bytes((parse_bytes(s, p + 1)->0).0));
    }
}

proof fn lemma_items_sound(s: Seq<u8>, p: int, n: nat)
    requires
        0 <= p <= s.len(),
        parse_items(s, p, n) is Some,
    ensures
        (parse_items(s, p, n)->0).0.len() == n,
        forall|i: int|
            0 <= i < n ==> fits(#[trigger] (parse_items(s, p, n)->0).0[i]),
        holds_at(s, p, enc_items((parse_items(s, p, n)->0).0)),
        (parse_items(s, p, n)->0).1 == p + enc_items((parse_items(s, p, n)->0).0).len(),
    decreases n,
{
    let l = (parse_items(s, p, n)->0).0;
    if n == 0 {
        assert(s.subrange(p, p) =~= Seq::<u8>::empty());
    } else {
        lemma_items_sound(s, p, (n - 1) as nat);
        let (init, q) = parse_items(s, p, (n - 1) as nat)->0;
        lemma_bytes_sound(s, q);
        let b = (parse_bytes(s, q)->0).0;
        assert(l == init.push(b));
        assert(l.drop_last() =~= init);
        lemma_join(s, p, enc_items(init), enc_bytes(b));
        assert forall|i: int| 0 <= i < n implies fits(#[trigger] l[i]) by {
            if i < n - 1 {
                assert(l[i] == init[i]);
            }
        }
    }
}

proof fn lemma_list_sound(s: Seq<u8>, p: int)
    requires
        parse_list(s, p) is Some,
    ensures
        fits_all((parse_list(s, p)->0).0),
        holds_at(s, p, enc_list((parse_list(s, p)->0).0)),
        (parse_list(s, p)->0).1 == p + enc_list((parse_list(s, p)->0).0).len(),
{
    lemma_compact_sound(s, p);
    let n = read_compact(s, p)->0;
    lemma_items_sound(s, p + compact_u32(n).len(), n);
    let l = (parse_items(s, p + compact_u32(n).len(), n)->0).0;
    lemma_join(s, p, compact_u32(n), enc_items(l));
}

/// Whatever is read as legacy data at `p` stands there in its encoding, and
/// can be encoded again.
pub proof fn lemma_v1_sound(s: Seq<u8>, p: int)
    requires
        parse_v1(s, p) is Some,
    ensures
        wf_v1((parse_v1(s, p)->0).0),
        holds_at(s, p, enc_v1((parse_v1(s, p)->0).0)),
        (parse_v1(s, p)->0).1 == p + enc_v1((parse_v1(s, p)->0).0).len(),
{
    lemma_tag_sound(s, p);
    let t = seq![s[p]];
    if s[p] == 0 {
        lemma_bytes_sound(s, p + 1);
        lemma_join(s, p, t, enc_bytes((parse_bytes(s, p + 1)->0).0));
    } else if s[p] == 1 {
        lemma_bytes_sound(s, p + 1);
        let (j, q) = parse_bytes(s, p + 1)->0;
        lemma_opt_sound(s, q);
        lemma_join(s, p, t, enc_bytes(j));
        lemma_join(s, p, t + enc_bytes(j), enc_opt((parse_opt(s, q)->0).0));
    } else if s[p] == 2 {
        lemma_request_sound(s, p + 1);
        lemma_join(s, p, t, enc_request((parse_request(s, p + 1)->0).0));
    } else {
        lemma_list_sound(s, p + 1);
        lemma_join(s, p, t, enc_list((parse_list(s, p + 1)->0).0));
    }
}

/// Whatever is read as current data at `p` stands there in its encoding,
/// and can be encoded again.
#[verifier::rlimit(60)]
#[verifier::spinoff_prover]
pub proof fn lemma_v2_sound(s: Seq<u8>, p: int)
    requires
        parse_v2(s, p) is Some,
    ensures
        wf_v2((parse_v2(s, p)->0).0),
        holds_at(s, p, enc_v2((parse_v2(s, p)->0).0)),
        (parse_v2(s, p)->0).1 == p + enc_v2((parse_v2(s, p)->0).0).len(),
{
    lemma_tag_sound(s, p);
    let t = seq![s[p]];
    if s[p] == 0 {
        lemma_bytes_sound(s, p + 1);
        lemma_join(s, p, t, enc_bytes((parse_bytes(s, p + 1)->0).0));
    } else if s[p] == 1 {
        lemma_bytes_sound(s, p + 1);
        let (j, q) = parse_bytes(s, p + 1)->0;
        lemma_opt_sound(s, q);
        lemma_join(s, p, t, enc_bytes(j));
        lemma_join(s, p, t + enc_bytes(j), enc_opt((parse_opt(s, q)->0).0));
    } else if s[p] == 2 {
        lemma_request_sound(s, p + 1);
        lemma_join(s, p, t, enc_request((parse_request(s, p + 1)->0).0));
    } else {
        lemma_list_sound(s, p + 1);
        let (js, q) = parse_list(s, p + 1)->0;
        lemma_list_sound(s, q);
        let (hs, q2) = parse_list(s, q)->0;
        lemma_list_sound(s, q2);
        let bs = (parse_list(s, q2)->0).0;
        lemma_join(s, p, t, enc_list(js));
        lemma_join(s, p, t + enc_list(js), enc_list(hs));
        lemma_join(s, p, t + enc_list(js) + enc_list(hs), enc_list(bs));
    }
}

} // verus!
