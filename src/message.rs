//! The message model: states, branch knowledge, requests and the two shapes
//! of network data, each with a mathematical view, and the conversions
//! between the legacy and the current shape.

use vstd::prelude::*;
use vstd::slice::slice_to_vec;

verus! {

/// A block identifier: the block's hash bytes and its height.
#[derive(Clone, Debug, PartialEq, Eq)]
pub struct BlockId {
    pub hash: Vec<u8>,
    pub number: u32,
}

/// A node's summary of finalization progress: the unverified (wire) form of
/// its top justification.
#[derive(Clone, Debug, PartialEq, Eq)]
pub struct State {
    pub top_justification: Vec<u8>,
}

/// What is known of the branch between the finalized root and a target.
#[derive(Clone, Debug, PartialEq, Eq)]
pub enum BranchKnowledge {
    /// The oldest known ancestor, when none of the ancestors is imported.
    /// It differs from the root, which is imported by definition.
    LowestId(BlockId),
    /// The top imported ancestor, when any of them is imported; the oldest
    /// known ancestor is then implicitly the root.
    TopImported(BlockId),
}

/// A request for the data needed to reach `target_id`.
#[derive(Clone, Debug, PartialEq, Eq)]
pub struct Request {
    pub target_id: BlockId,
    pub branch_knowledge: BranchKnowledge,
    pub state: State,
}

/// Data sent over the network in the legacy shape.
#[derive(Clone, Debug, PartialEq, Eq)]
pub enum NetworkDataV1 {
    /// A periodic state broadcast.
    StateBroadcast(State),
    /// A response to a state broadcast: at most two justifications.
    StateBroadcastResponse(Vec<u8>, Option<Vec<u8>>),
    /// An explicit request for data.
    Request(Request),
    /// A response to a request: justifications only.
    RequestResponse(Vec<Vec<u8>>),
}

/// Data sent over the network in the current shape.
#[derive(Clone, Debug, PartialEq, Eq)]
pub enum NetworkData {
    /// A periodic state broadcast.
    StateBroadcast(State),
    /// A response to a state broadcast: at most two justifications.
    StateBroadcastResponse(Vec<u8>, Option<Vec<u8>>),
    /// An explicit request for data.
    Request(Request),
    /// A response to a request: justifications, headers and blocks.
    RequestResponse(Vec<Vec<u8>>, Vec<Vec<u8>>, Vec<Vec<u8>>),
}

/// The view of a block identifier.
pub struct BlockIdModel {
    pub hash: Seq<u8>,
    pub number: nat,
}

/// The view of branch knowledge.
pub enum BranchKnowledgeModel {
    LowestId(BlockIdModel),
    TopImported(BlockIdModel),
}

/// The view of a request; the state is seen as its top justification.
pub struct RequestModel {
    pub target_id: BlockIdModel,
    pub branch_knowledge: BranchKnowledgeModel,
    pub state: Seq<u8>,
}

/// The view of legacy network data.
pub enum NetworkDataV1Model {
    StateBroadcast(Seq<u8>),
    StateBroadcastResponse(Seq<u8>, Option<Seq<u8>>),
    Request(RequestModel),
    RequestResponse(Seq<Seq<u8>>),
}

/// The view of current network data.
pub enum NetworkDataModel {
    StateBroadcast(Seq<u8>),
    StateBroadcastResponse(Seq<u8>, Option<Seq<u8>>),
    Request(RequestModel),
    RequestResponse(Seq<Seq<u8>>, Seq<Seq<u8>>, Seq<Seq<u8>>),
}

/// The contents of a list of byte strings.
pub open spec fn byte_strings(v: Seq<Vec<u8>>) -> Seq<Seq<u8>> {
    v.map_values(|b: Vec<u8>| b@)
}

/// The contents of an optional byte string.
pub open spec fn opt_bytes(o: Option<Vec<u8>>) -> Option<Seq<u8>> {
    match o {
        Some(b) => Some(b@),
        None => None,
    }
}

impl View for BlockId {
    type V = BlockIdModel;

    open spec fn view(&self) -> BlockIdModel {
        BlockIdModel { hash: self.hash@, number: self.number as nat }
    }
}

impl View for State {
    type V = Seq<u8>;

    open spec fn view(&self) -> Seq<u8> {
        self.top_justification@
    }
}

impl View for BranchKnowledge {
    type V = BranchKnowledgeModel;

    open spec fn view(&self) -> BranchKnowledgeModel {
        match self {
            BranchKnowledge::LowestId(id) => BranchKnowledgeModel::LowestId(id@),
            BranchKnowledge::TopImported(id) => BranchKnowledgeModel::TopImported(id@),
        }
    }
}

impl View for Request {
    type V = RequestModel;

    open spec fn view(&self) -> RequestModel {
        RequestModel {
            target_id: self.target_id@,
            branch_knowledge: self.branch_knowledge@,
            state: self.state@,
        }
    }
}

impl View for NetworkDataV1 {
    type V = NetworkDataV1Model;

    open spec fn view(&self) -> NetworkDataV1Model {
        match self {
            NetworkDataV1::StateBroadcast(s) => NetworkDataV1Model::StateBroadcast(s@),
            NetworkDataV1::StateBroadcastResponse(j, o) => NetworkDataV1Model::StateBroadcastResponse(
                j@,
                opt_bytes(*o),
            ),
            NetworkDataV1::Request(r) => NetworkDataV1Model::Request(r@),
            NetworkDataV1::RequestResponse(js) => NetworkDataV1Model::RequestResponse(
                byte_strings(js@),
            ),
        }
    }
}

impl View for NetworkData {
    type V = NetworkDataModel;

    open spec fn view(&self) -> NetworkDataModel {
        match self {
            NetworkData::StateBroadcast(s) => NetworkDataModel::StateBroadcast(s@),
            NetworkData::StateBroadcastResponse(j, o) => NetworkDataModel::StateBroadcastResponse(
                j@,
                opt_bytes(*o),
            ),
            NetworkData::Request(r) => NetworkDataModel::Request(r@),
            NetworkData::RequestResponse(js, hs, bs) => NetworkDataModel::RequestResponse(
                byte_strings(js@),
                byte_strings(hs@),
                byte_strings(bs@),
            ),
        }
    }
}

/// Legacy data in the current shape: a request response gains empty
/// headers and blocks.
pub open spec fn upgrade(d: NetworkDataV1Model) -> NetworkDataModel {
    match d {
        NetworkDataV1Model::StateBroadcast(s) => NetworkDataModel::StateBroadcast(s),
        NetworkDataV1Model::StateBroadcastResponse(j, o) => NetworkDataModel::StateBroadcastResponse(j, o),
        NetworkDataV1Model::Request(r) => NetworkDataModel::Request(r),
        NetworkDataV1Model::RequestResponse(js) => NetworkDataModel::RequestResponse(
            js,
            Seq::empty(),
            Seq::empty(),
        ),
    }
}

/// Current data in the legacy shape: a request response loses its headers
/// and blocks.
pub open spec fn downgrade(d: NetworkDataModel) -> NetworkDataV1Model {
    match d {
        NetworkDataModel::StateBroadcast(s) => NetworkDataV1Model::StateBroadcast(s),
        NetworkDataModel::StateBroadcastResponse(j, o) => NetworkDataV1Model::StateBroadcastResponse(j, o),
        NetworkDataModel::Request(r) => NetworkDataV1Model::Request(r),
        NetworkDataModel::RequestResponse(js, _, _) => NetworkDataV1Model::RequestResponse(js),
    }
}

/// A copy of a byte string.
pub fn copy_bytes(b: &Vec<u8>) -> (r: Vec<u8>)
    ensures
        r@ == b@,
{
    slice_to_vec(b.as_slice())
}

/// A copy of a list of byte strings.
pub fn copy_byte_strings(v: &Vec<Vec<u8>>) -> (r: Vec<Vec<u8>>)
    ensures
        byte_strings(r@) == byte_strings(v@),
{
    let mut r: Vec<Vec<u8>> = Vec::new();
    let mut i: usize = 0;
    while i < v.len()
        invariant
            i <= v@.len(),
            r@.len() == i,
            forall|j: int| 0 <= j < i ==> (#[trigger] r@[j])@ == v@[j]@,
        decreases v@.len() - i,
    {
        r.push(copy_bytes(&v[i]));
        i += 1;
    }
    assert(byte_strings(r@) =~= byte_strings(v@));
    r
}

impl BlockId {
    /// An identifier from its hash bytes and height.
    pub fn new(hash: Vec<u8>, number: u32) -> (r: Self)
        ensures
            r@ == (BlockIdModel { hash: hash@, number: number as nat }),
    {
        BlockId { hash, number }
    }

    /// A copy of this identifier.
    pub fn copy(&self) -> (r: Self)
        ensures
            r@ == self@,
    {
        BlockId { hash: copy_bytes(&self.hash), number: self.number }
    }
}

impl State {
    /// A state holding the given top justification.
    pub fn new(top_justification: Vec<u8>) -> (r: Self)
        ensures
            r@ == top_justification@,
    {
        State { top_justification }
    }

    /// A copy of the top justification.
    pub fn top_justification(&self) -> (r: Vec<u8>)
        ensures
            r@ == self@,
    {
        copy_bytes(&self.top_justification)
    }

    /// A copy of this state.
    pub fn copy(&self) -> (r: Self)
        ensures
            r@ == self@,
    {
        State { top_justification: self.top_justification() }
    }
}

impl BranchKnowledge {
    /// A copy of this branch knowledge.
    pub fn copy(&self) -> (r: Self)
        ensures
            r@ == self@,
    {
        match self {
            BranchKnowledge::LowestId(id) => BranchKnowledge::LowestId(id.copy()),
            BranchKnowledge::TopImported(id) => BranchKnowledge::TopImported(id.copy()),
        }
    }
}

impl Request {
    /// A request for `target_id`, with what is known of its branch and the
    /// requester's state.
    pub fn new(target_id: BlockId, branch_knowledge: BranchKnowledge, state: State) -> (r: Self)
        ensures
            r@ == (RequestModel {
                target_id: target_id@,
                branch_knowledge: branch_knowledge@,
                state: state@,
            }),
    {
        Request { target_id, branch_knowledge, state }
    }

    /// The requester's state.
    pub fn state(&self) -> (r: &State)
        ensures
            r@ == self@.state,
    {
        &self.state
    }

    /// A copy of this request.
    pub fn copy(&self) -> (r: Self)
        ensures
            r@ == self@,
    {
        Request {
            target_id: self.target_id.copy(),
            branch_knowledge: self.branch_knowledge.copy(),
            state: self.state.copy(),
        }
    }
}

impl NetworkData {
    /// Legacy data in the current shape; see `upgrade`.
    pub fn from(data: NetworkDataV1) -> (r: Self)
        ensures
            r@ == upgrade(data@),
    {
        match data {
            NetworkDataV1::StateBroadcast(state) => NetworkData::StateBroadcast(state),
            NetworkDataV1::StateBroadcastResponse(justification, maybe_justification) => {
                NetworkData::StateBroadcastResponse(justification, maybe_justification)
            },
            NetworkDataV1::Request(request) => NetworkData::Request(request),
            NetworkDataV1::RequestResponse(justifications) => {
                let r = NetworkData::RequestResponse(justifications, Vec::new(), Vec::new());
                assert(byte_strings(Seq::<Vec<u8>>::empty()) =~= Seq::<Seq<u8>>::empty());
                r
            },
        }
    }

    /// A copy of this data.
    pub fn copy(&self) -> (r: Self)
        ensures
            r@ == self@,
    {
        match self {
            NetworkData::StateBroadcast(s) => NetworkData::StateBroadcast(s.copy()),
            NetworkData::StateBroadcastResponse(j, o) => {
                let o2 = match o {
                    Some(b) => Some(copy_bytes(b)),
                    None => None,
                };
                NetworkData::StateBroadcastResponse(copy_bytes(j), o2)
            },
            NetworkData::Request(r) => NetworkData::Request(r.copy()),
            NetworkData::RequestResponse(js, hs, bs) => NetworkData::RequestResponse(
                copy_byte_strings(js),
                copy_byte_strings(hs),
                copy_byte_strings(bs),
            ),
        }
    }
}

impl NetworkDataV1 {
    /// Current data in the legacy shape; see `downgrade`.
    pub fn from(data: NetworkData) -> (r: Self)
        ensures
            r@ == downgrade(data@),
    {
        match data {
            NetworkData::StateBroadcast(state) => NetworkDataV1::StateBroadcast(state),
            NetworkData::StateBroadcastResponse(justification, maybe_justification) => {
                NetworkDataV1::StateBroadcastResponse(justification, maybe_justification)
            },
            NetworkData::Request(request) => NetworkDataV1::Request(request),
            NetworkData::RequestResponse(justifications, _, _) => {
                NetworkDataV1::RequestResponse(justifications)
            },
        }
    }
}

/// Legacy data survives the trip through the current shape unchanged.
pub proof fn lemma_upgrade_downgrade(v: NetworkDataV1Model)
    ensures
        downgrade(upgrade(v)) == v,
{
}

/// Current data survives the trip through the legacy shape with the headers
/// and blocks of a request response emptied, and unchanged otherwise.
pub proof fn lemma_downgrade_upgrade(n: NetworkDataModel)
    ensures
        upgrade(downgrade(n)) == match n {
            NetworkDataModel::RequestResponse(js, _, _) => NetworkDataModel::RequestResponse(
                js,
                Seq::empty(),
                Seq::empty(),
            ),
            _ => n,
        },
        !(n is RequestResponse) ==> upgrade(downgrade(n)) == n,
{
}

} // verus!
