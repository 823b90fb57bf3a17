//! The contract-facing state around the committed tree: the whitelist
//! commitment, token bookkeeping, and the claim-time decisions.

use vstd::prelude::*;

use crate::hashing::hex_upper;
use crate::hashing::hex_upper_of;
use crate::hashing::leaf_of;
use crate::hashing::digest_str;
use crate::merkle::MerkleTree;
use crate::merkle::TreeError;
use crate::merkle::create_hash_tree;
use crate::merkle::pad_even;
use crate::merkle::spec_get_proof;
use crate::merkle::hashed_of;

verus! {

/// A fixed-width identity: the byte form of an account address.
#[derive(Clone, Copy, Debug, PartialEq, Eq)]
pub struct AccountAddress(pub [u8; 32]);

impl View for AccountAddress {
    type V = Seq<u8>;

    open spec fn view(&self) -> Seq<u8> {
        self.0@
    }
}

impl DeepView for AccountAddress {
    type V = Seq<u8>;

    open spec fn deep_view(&self) -> Seq<u8> {
        self.0@
    }
}

/// A claim request: the claimant's identity, the proof it submits, and the
/// specific token it asks for (used only when claiming by index).
pub struct ClaimNFTParams {
    pub proof: Vec<String>,
    pub node: AccountAddress,
    pub selected_token: u32,
}

/// Why a claim is refused.
#[derive(Clone, Copy, Debug, PartialEq, Eq, Structural)]
pub enum ClaimError {
    NFTLimitReached,
    AddressNotOnWhitelist,
    AirdropNowClosed,
    MintingLogMalformed,
    MintingLogFull,
    MetaDataLogMalformed,
    MetaDataLogFull,
    IndexAlreadyClaimed,
}

/// The abstract value of a `State`: plain bookkeeping fields, and the tree
/// reduced to its padded leaf level.
pub ghost struct StateModel {
    pub next_token_id: u32,
    pub taken_indexes: Option<Seq<(u32, AccountAddress)>>,
    pub nft_limit: u32,
    pub nft_reserve: Option<u32>,
    pub nft_time_limit: Option<u64>,
    pub merkle_leaves: Option<Seq<Seq<char>>>,
    pub base_url: Seq<char>,
}

/// The persistent contract state.
pub struct State {
    next_token_id: u32,
    taken_indexes: Option<Vec<(u32, AccountAddress)>>,
    nft_limit: u32,
    nft_reserve: Option<u32>,
    nft_time_limit: Option<u64>,
    merkle_tree: Option<MerkleTree>,
    base_url: String,
}

impl View for State {
    type V = StateModel;

    closed spec fn view(&self) -> StateModel {
        StateModel {
            next_token_id: self.next_token_id,
            taken_indexes: match self.taken_indexes {
                Some(ti) => Some(ti@),
                None => None,
            },
            nft_limit: self.nft_limit,
            nft_reserve: self.nft_reserve,
            nft_time_limit: self.nft_time_limit,
            merkle_leaves: match self.merkle_tree {
                Some(t) => Some(t.leaves()),
                None => None,
            },
            base_url: self.base_url@,
        }
    }
}

impl State {
    /// A fresh state with no tokens claimed, a limit of one, and no
    /// whitelist, reserve, deadline, or index bookkeeping.
    pub fn empty() -> (s: Self)
        ensures
            s@ == (StateModel {
                next_token_id: 0,
                taken_indexes: None,
                nft_limit: 1,
                nft_reserve: None,
                nft_time_limit: None,
                merkle_leaves: None,
                base_url: Seq::<char>::empty(),
            }),
    {
        State {
            next_token_id: 0,
            nft_limit: 1,
            merkle_tree: None,
            nft_time_limit: None,
            nft_reserve: None,
            base_url: String::new(),
            taken_indexes: None,
        }
    }
}

/// Whether a submitted proof is exactly the canonical proof for `identity`
/// on the committed tree; with no tree committed, nothing verifies.
pub open spec fn spec_check_proof(
    leaves_opt: Option<Seq<Seq<char>>>,
    identity: Seq<u8>,
    submitted: Seq<Seq<char>>,
) -> bool {
    match leaves_opt {
        Some(leaves) => match spec_get_proof(leaves, leaf_of(identity)) {
            Some(canonical) => canonical == submitted,
            None => false,
        },
        None => false,
    }
}

/// Compares two hash lists entry by entry.
fn vec_string_eq(a: &Vec<String>, b: &Vec<String>) -> (r: bool)
    ensures
        r == (a.deep_view() == b.deep_view()),
{
    if a.len() != b.len() {
        proof {
            assert(a.deep_view().len() != b.deep_view().len());
        }
        return false;
    }
    let mut i: usize = 0;
    while i < a.len()
        invariant
            i <= a@.len(),
            a@.len() == b@.len(),
            forall|j: int| 0 <= j < i as int ==> a.deep_view()[j] == b.deep_view()[j],
        decreases a@.len() - i,
    {
        if !(a[i] == b[i]) {
            proof {
                assert(a.deep_view()[i as int] != b.deep_view()[i as int]);
            }
            return false;
        }
        proof {
            assert(a.deep_view()[i as int] == b.deep_view()[i as int]);
        }
        i += 1;
    }
    proof {
        assert(a.deep_view() =~= b.deep_view());
    }
    true
}

/// Recomputes the canonical proof for the claimant and requires strict
/// equality with the submitted one.
pub fn check_proof(test: &ClaimNFTParams, merkle_tree: &MerkleTree) -> (r: bool)
    ensures
        r == spec_check_proof(Some(merkle_tree.leaves()), test.node@, test.proof.deep_view()),
{
    let encoded = hex_upper(test.node.0.as_slice());
    let claimer = digest_str(encoded.as_str());
    proof {
        assert(claimer@ == leaf_of(test.node@));
    }
    let canonical = crate::merkle::hash_proof_walk(claimer, merkle_tree);
    match canonical {
        Some(chain) => vec_string_eq(&chain, &test.proof),
        None => false,
    }
}

impl State {
    /// Commits the whitelist: digests each node text into a leaf, builds the
    /// tree, and stores it.  An empty input commits no tree; a whitelist
    /// whose padded leaf level exceeds the one-byte serialization width is
    /// reported, and the state is left unchanged.
    pub fn create_hash_tree(&mut self, nodes: Vec<String>) -> (r: Result<(), TreeError>)
        ensures
            nodes@.len() == 0 ==> r == Result::<(), TreeError>::Ok(()) && final(self)@ == (
            StateModel { merkle_leaves: None, ..old(self)@ }),
            nodes@.len() > 0 && pad_even(hashed_of(nodes.deep_view())).len() > 255 ==> r
                == Result::<(), TreeError>::Err(TreeError::WhitelistTooLarge) && final(self)@
                == old(self)@,
            nodes@.len() > 0 && pad_even(hashed_of(nodes.deep_view())).len() <= 255 ==> r
                == Result::<(), TreeError>::Ok(()) && final(self)@ == (StateModel {
                merkle_leaves: Some(pad_even(hashed_of(nodes.deep_view()))),
                ..old(self)@
            }),
    {
        let built = create_hash_tree(nodes);
        match built {
            Ok(tree) => {
                self.merkle_tree = tree;
                Ok(())
            },
            Err(e) => Err(e),
        }
    }

    /// The canonical proof for `test` on the committed tree, or not-found;
    /// with no tree committed, always not-found.
    pub fn get_hash_proof(&self, test: String) -> (r: Option<Vec<String>>)
        ensures
            r.deep_view() == (match self@.merkle_leaves {
                Some(leaves) => spec_get_proof(leaves, test@),
                None => None,
            }),
    {
        match &self.merkle_tree {
            Some(tree) => crate::merkle::hash_proof_walk(test, tree),
            None => None,
        }
    }

    /// Whether `test_address` is committed in the tree; false when no tree
    /// is committed.
    pub fn check_hash_value(&self, test_address: String) -> (r: bool)
        ensures
            r == (match self@.merkle_leaves {
                Some(leaves) => spec_get_proof(leaves, test_address@) matches Some(_),
                None => false,
            }),
    {
        match &self.merkle_tree {
            Some(tree) => crate::merkle::check_hash_value(test_address, tree),
            None => false,
        }
    }

    /// Recomputes the canonical proof for the claimant's identity and
    /// requires strict equality with the submitted one; with no tree
    /// committed, nothing verifies.
    pub fn check_proof(&self, test: &ClaimNFTParams) -> (r: bool)
        ensures
            r == spec_check_proof(self@.merkle_leaves, test.node@, test.proof.deep_view()),
    {
        match &self.merkle_tree {
            Some(tree) => check_proof(test, tree),
            None => false,
        }
    }
}

/// Whether a token id is already recorded in the index bookkeeping.
pub open spec fn spec_contains_token(taken: Seq<(u32, AccountAddress)>, token: u32) -> bool {
    exists|i: int| 0 <= i < taken.len() && #[trigger] taken[i].0 == token
}

/// The owner recorded for a token id: the first matching entry.
pub open spec fn spec_owner_of(taken: Seq<(u32, AccountAddress)>, token: u32) -> Option<
    AccountAddress,
>
    decreases taken.len(),
{
    if taken.len() == 0 {
        None
    } else if taken[0].0 == token {
        Some(taken[0].1)
    } else {
        spec_owner_of(taken.drop_first(), token)
    }
}

/// Whether the whitelist gate applies to the next claim: a tree is
/// committed, and either no reserve is held or the next token falls within
/// the reserved range.
pub open spec fn spec_whitelist_required(m: StateModel) -> bool {
    m.merkle_leaves is Some && (m.nft_reserve is None || m.next_token_id >= m.nft_limit
        - m.nft_reserve->Some_0)
}

/// The claim-time decision: which token the claim receives, or why it is
/// refused.  The deadline is checked first, then the supply limit, then the
/// whitelist gate, then index bookkeeping.
pub open spec fn spec_claim_outcome(
    m: StateModel,
    now_millis: u64,
    identity: Seq<u8>,
    submitted: Seq<Seq<char>>,
    selected_token: u32,
) -> Result<u32, ClaimError> {
    if m.nft_time_limit is Some && m.nft_time_limit->Some_0 > 0 && now_millis
        > m.nft_time_limit->Some_0 {
        Err(ClaimError::AirdropNowClosed)
    } else if m.next_token_id == m.nft_limit {
        Err(ClaimError::NFTLimitReached)
    } else if spec_whitelist_required(m) && (submitted.len() == 0 || !spec_check_proof(
        m.merkle_leaves,
        identity,
        submitted,
    )) {
        Err(ClaimError::AddressNotOnWhitelist)
    } else if m.taken_indexes is Some {
        if spec_contains_token(m.taken_indexes->Some_0, selected_token) {
            Err(ClaimError::IndexAlreadyClaimed)
        } else {
            Ok(selected_token)
        }
    } else {
        Ok(m.next_token_id)
    }
}

impl State {
    /// Decides a claim without changing any state: the token granted, or
    /// the refusal.  The reserve may not exceed the supply limit, else the
    /// reserved range is ill-defined.
    pub fn claim_decision(&self, now_millis: u64, params: &ClaimNFTParams) -> (r: Result<
        u32,
        ClaimError,
    >)
        requires
            self@.nft_reserve is Some ==> self@.nft_reserve->Some_0 <= self@.nft_limit,
        ensures
            r == spec_claim_outcome(
                self@,
                now_millis,
                params.node@,
                params.proof.deep_view(),
                params.selected_token,
            ),
    {
        if let Some(time_limit) = self.nft_time_limit {
            if time_limit > 0 && now_millis > time_limit {
                return Err(ClaimError::AirdropNowClosed);
            }
        }
        if self.next_token_id == self.nft_limit {
            return Err(ClaimError::NFTLimitReached);
        }
        let reserve_gate = match self.nft_reserve {
            Some(reserve) => self.next_token_id >= self.nft_limit - reserve,
            None => true,
        };
        if self.merkle_tree.is_some() && reserve_gate {
            if self.proof_is_empty_or_bad(params) {
                return Err(ClaimError::AddressNotOnWhitelist);
            }
        }
        match &self.taken_indexes {
            Some(taken) => {
                if Self::contains_token(taken, params.selected_token) {
                    Err(ClaimError::IndexAlreadyClaimed)
                } else {
                    Ok(params.selected_token)
                }
            },
            None => Ok(self.next_token_id),
        }
    }

    /// Whether the submitted proof is absent or fails verification.
    fn proof_is_empty_or_bad(&self, params: &ClaimNFTParams) -> (r: bool)
        ensures
            r == (params.proof.deep_view().len() == 0 || !spec_check_proof(
                self@.merkle_leaves,
                params.node@,
                params.proof.deep_view(),
            )),
    {
        if params.proof.len() == 0 {
            return true;
        }
        !self.check_proof(params)
    }

    /// Whether a token id is already recorded.
    fn contains_token(taken: &Vec<(u32, AccountAddress)>, token: u32) -> (r: bool)
        ensures
            r == spec_contains_token(taken@, token),
    {
        let mut i: usize = 0;
        while i < taken.len()
            invariant
                i <= taken@.len(),
                forall|j: int| 0 <= j < i as int ==> #[trigger] taken@[j].0 != token,
            decreases taken@.len() - i,
        {
            if taken[i].0 == token {
                return true;
            }
            i += 1;
        }
        false
    }

    /// Records a granted claim: under index bookkeeping the chosen token is
    /// recorded for the claimant; otherwise the sequential counter advances.
    pub fn record_claim(&mut self, token_id: u32, claimer: AccountAddress)
        requires
            old(self)@.taken_indexes is None ==> old(self)@.next_token_id < old(self)@.nft_limit,
            old(self)@.taken_indexes is Some ==> !spec_contains_token(
                old(self)@.taken_indexes->Some_0,
                token_id,
            ),
        ensures
            old(self)@.taken_indexes is Some ==> final(self)@ == (StateModel {
                taken_indexes: Some(
                    old(self)@.taken_indexes->Some_0.push((token_id, claimer)),
                ),
                ..old(self)@
            }),
            old(self)@.taken_indexes is None ==> final(self)@ == (StateModel {
                next_token_id: (old(self)@.next_token_id + 1) as u32,
                ..old(self)@
            }),
    {
        match &mut self.taken_indexes {
            Some(taken) => {
                taken.push((token_id, claimer));
            },
            None => {
                self.next_token_id = self.next_token_id + 1;
            },
        }
    }

    /// Restores the claim bookkeeping that the surrounding persistence
    /// collaborator carried across calls: the sequential counter and the
    /// recorded index assignments.
    pub fn restore_bookkeeping(
        &mut self,
        next_token_id: u32,
        taken_indexes: Option<Vec<(u32, AccountAddress)>>,
    )
        ensures
            final(self)@ == (StateModel {
                next_token_id: next_token_id,
                taken_indexes: match taken_indexes {
                    Some(taken) => Some(taken@),
                    None => None,
                },
                ..old(self)@
            }),
    {
        self.next_token_id = next_token_id;
        self.taken_indexes = taken_indexes;
    }

    /// The recorded token-to-owner assignments; empty without index
    /// bookkeeping.
    pub fn view_claimed(&self) -> (r: Vec<(u32, AccountAddress)>)
        ensures
            r@ == (match self@.taken_indexes {
                Some(taken) => taken,
                None => Seq::<(u32, AccountAddress)>::empty(),
            }),
    {
        match &self.taken_indexes {
            Some(taken) => {
                let mut out: Vec<(u32, AccountAddress)> = Vec::new();
                let mut i: usize = 0;
                while i < taken.len()
                    invariant
                        i <= taken@.len(),
                        out@ == taken@.take(i as int),
                    decreases taken@.len() - i,
                {
                    out.push(taken[i]);
                    i += 1;
                    proof {
                        assert(out@ =~= taken@.take(i as int));
                    }
                }
                proof {
                    assert(taken@.take(taken@.len() as int) =~= taken@);
                }
                out
            },
            None => Vec::new(),
        }
    }

    /// The total number of tokens this airdrop can mint.
    pub fn total_supply(&self) -> (r: u32)
        ensures
            r == self@.nft_limit,
    {
        self.nft_limit
    }

    /// How many tokens are still unclaimed: the limit less the claimed
    /// count, or zero once the claimed count reaches the limit.
    pub fn current_supply(&self) -> (r: u32)
        ensures
            ({
                let claimed: int = match self@.taken_indexes {
                    Some(taken) => taken.len() as int,
                    None => self@.next_token_id as int,
                };
                r as int == if claimed <= self@.nft_limit as int {
                    self@.nft_limit - claimed
                } else {
                    0
                }
            }),
    {
        let claimed: usize = match &self.taken_indexes {
            Some(taken) => taken.len(),
            None => self.next_token_id as usize,
        };
        if claimed <= self.nft_limit as usize {
            self.nft_limit - (claimed as u32)
        } else {
            0
        }
    }

    /// The owner recorded for a token, if any.
    pub fn check_owner(&self, token: u32) -> (r: Option<AccountAddress>)
        ensures
            r == (match self@.taken_indexes {
                Some(taken) => spec_owner_of(taken, token),
                None => None::<AccountAddress>,
            }),
    {
        match &self.taken_indexes {
            Some(taken) => {
                proof {
                    assert(taken@.skip(0) =~= taken@);
                }
                let mut i: usize = 0;
                while i < taken.len()
                    invariant
                        i <= taken@.len(),
                        self@.taken_indexes == Some(taken@),
                        spec_owner_of(taken@, token) == spec_owner_of(
                            taken@.skip(i as int),
                            token,
                        ),
                    decreases taken@.len() - i,
                {
                    if taken[i].0 == token {
                        proof {
                            assert(taken@.skip(i as int).len() > 0);
                            assert(taken@.skip(i as int)[0] == taken@[i as int]);
                            assert(spec_owner_of(taken@.skip(i as int), token) == Some(
                                taken@[i as int].1,
                            ));
                            assert(spec_owner_of(taken@, token) == Some(taken@[i as int].1));
                        }
                        return Some(taken[i].1);
                    }
                    proof {
                        assert(taken@.skip(i as int)[0] == taken@[i as int]);
                        assert(taken@.skip(i as int).drop_first() =~= taken@.skip(i as int + 1));
                    }
                    i += 1;
                }
                proof {
                    assert(taken@.skip(taken@.len() as int) =~= Seq::<(u32,
                    AccountAddress)>::empty());
                }
                None
            },
            None => None,
        }
    }
}

/// The initialization parameters: the whitelist and the bookkeeping
/// settings, already decoded into plain values.
pub struct InitParams {
    pub whitelist: Vec<AccountAddress>,
    pub nft_limit: u32,
    pub nft_time_limit: u64,
    pub reserve: u32,
    pub base_url: String,
    pub selected_index: bool,
}

/// The leaf level committed for a whitelist: the digest of each identity's
/// uppercase hex rendering, in order.
pub open spec fn spec_whitelist_leaves(identities: Seq<Seq<u8>>) -> Seq<Seq<char>> {
    identities.map_values(|id: Seq<u8>| leaf_of(id))
}

/// The state that initialization produces from `params`: zero claimed, the
/// deadline and reserve kept only when nonzero, index bookkeeping only when
/// asked for, and the whitelist committed as a tree only when nonempty.
pub open spec fn spec_init_state(params_whitelist: Seq<Seq<u8>>, nft_limit: u32,
    nft_time_limit: u64, reserve: u32, base_url: Seq<char>, selected_index: bool) -> StateModel {
    StateModel {
        next_token_id: 0,
        taken_indexes: if selected_index {
            Some(Seq::<(u32, AccountAddress)>::empty())
        } else {
            None
        },
        nft_limit: nft_limit,
        nft_reserve: if reserve != 0 {
            Some(reserve)
        } else {
            None
        },
        nft_time_limit: if nft_time_limit != 0 {
            Some(nft_time_limit)
        } else {
            None
        },
        merkle_leaves: if params_whitelist.len() == 0 {
            None
        } else {
            Some(pad_even(spec_whitelist_leaves(params_whitelist)))
        },
        base_url: base_url,
    }
}

/// Builds the initial state from decoded parameters, committing the
/// whitelist; a whitelist whose padded leaf level exceeds the one-byte
/// serialization width is reported.
pub fn init_state(params: InitParams) -> (r: Result<State, TreeError>)
    ensures
        params.whitelist@.len() > 0 && pad_even(
            spec_whitelist_leaves(params.whitelist.deep_view()),
        ).len() > 255 ==> r is Err,
        r matches Err(e) ==> e == TreeError::WhitelistTooLarge && params.whitelist@.len() > 0
            && pad_even(spec_whitelist_leaves(params.whitelist.deep_view())).len() > 255,
        r matches Ok(s) ==> s@ == spec_init_state(
            params.whitelist.deep_view(),
            params.nft_limit,
            params.nft_time_limit,
            params.reserve,
            params.base_url@,
            params.selected_index,
        ),
{
    let mut state = State::empty();
    state.nft_limit = params.nft_limit;
    state.base_url = params.base_url;

    if params.nft_time_limit != 0 {
        state.nft_time_limit = Some(params.nft_time_limit);
    }
    if params.reserve != 0 {
        state.nft_reserve = Some(params.reserve);
    }
    if params.selected_index {
        state.taken_indexes = Some(Vec::new());
    }

    if params.whitelist.len() != 0 {
        let mut whitelist: Vec<String> = Vec::new();
        let mut i: usize = 0;
        while i < params.whitelist.len()
            invariant
                i <= params.whitelist@.len(),
                whitelist.deep_view() =~= params.whitelist.deep_view().take(i as int).map_values(
                    |id: Seq<u8>| hex_upper_of(id),
                ),
            decreases params.whitelist@.len() - i,
        {
            let encoded = hex_upper(params.whitelist[i].0.as_slice());
            crate::merkle::push_hash(&mut whitelist, encoded);
            i += 1;
            proof {
                assert(whitelist.deep_view() =~= params.whitelist.deep_view().take(
                    i as int,
                ).map_values(|id: Seq<u8>| hex_upper_of(id)));
            }
        }
        proof {
            assert(params.whitelist.deep_view().take(params.whitelist@.len() as int)
                =~= params.whitelist.deep_view());
            assert(hashed_of(whitelist.deep_view()) =~= spec_whitelist_leaves(
                params.whitelist.deep_view(),
            ));
        }
        match state.create_hash_tree(whitelist) {
            Ok(()) => Ok(state),
            Err(e) => Err(e),
        }
    } else {
        Ok(state)
    }
}

/// The little-endian byte rendering of a token id.
pub open spec fn spec_token_le_bytes(token: u32) -> Seq<u8> {
    seq![
        (token & 0xff) as u8,
        ((token >> 8) & 0xff) as u8,
        ((token >> 16) & 0xff) as u8,
        ((token >> 24) & 0xff) as u8,
    ]
}

/// Renders a token id the way the metadata URL spells it: each byte of its
/// little-endian form as two uppercase hex digits.
pub fn token_id_hex(token: u32) -> (r: String)
    ensures
        r@ == hex_upper_of(spec_token_le_bytes(token)),
{
    let mut bytes: Vec<u8> = Vec::new();
    bytes.push((token & 0xff) as u8);
    bytes.push(((token >> 8) & 0xff) as u8);
    bytes.push(((token >> 16) & 0xff) as u8);
    bytes.push(((token >> 24) & 0xff) as u8);
    proof {
        assert(bytes@ =~= spec_token_le_bytes(token));
    }
    hex_upper(bytes.as_slice())
}

} // verus!
