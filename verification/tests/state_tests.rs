//! The contract-facing state: whitelist commitment, proof verification for
//! claimants, and the claim-time decisions.

use airdrop_merkle::AccountAddress;
use airdrop_merkle::ClaimError;
use airdrop_merkle::ClaimNFTParams;
use airdrop_merkle::InitParams;
use airdrop_merkle::State;
use airdrop_merkle::TreeError;
use airdrop_merkle::init_state;
use airdrop_merkle::token_id_hex;
use sha256::digest;

fn account(byte: u8) -> AccountAddress {
    AccountAddress([byte; 32])
}

fn account_hex(a: &AccountAddress) -> String {
    a.0.iter().map(|b| format!("{:02X}", b)).collect::<Vec<String>>().concat()
}

fn account_leaf(a: &AccountAddress) -> String {
    digest(account_hex(a))
}

fn params(
    whitelist: Vec<AccountAddress>,
    nft_limit: u32,
    nft_time_limit: u64,
    reserve: u32,
    selected_index: bool,
) -> InitParams {
    InitParams {
        whitelist,
        nft_limit,
        nft_time_limit,
        reserve,
        base_url: String::new(),
        selected_index,
    }
}

#[test]
fn init_with_no_whitelist() {
    let state = init_state(params(vec![], 0, 0, 0, false)).unwrap();
    assert_eq!(state.total_supply(), 0);
    assert_eq!(state.current_supply(), 0);
    assert!(!state.check_hash_value("anything".to_string()));
    assert!(state.get_hash_proof("anything".to_string()).is_none());
}

#[test]
fn whitelist_members_are_committed() {
    let whitelist = vec![account(0), account(1), account(2)];
    let state = init_state(params(whitelist.clone(), 1, 0, 0, false)).unwrap();

    let hashes: Vec<String> = whitelist.iter().map(account_leaf).collect();
    let bad_address = account_hex(&account(3));

    assert!(state.check_hash_value(hashes[0].clone()));
    assert!(state.check_hash_value(hashes[1].clone()));
    assert!(state.check_hash_value(hashes[2].clone()));
    assert!(!state.check_hash_value(bad_address));

    let a = digest(format!("{}{}", hashes[0], hashes[1]));
    let b = digest(format!("{}{}", hashes[2], hashes[2]));
    let c = digest(format!("{}{}", a, b));
    let expected = vec![hashes[0].clone(), a, c];

    let canonical = state.get_hash_proof(hashes[0].clone()).unwrap();
    assert_eq!(canonical, expected);

    // The canonical proof verifies for its own identity and for no other.
    let good = ClaimNFTParams { proof: expected.clone(), node: account(0), selected_token: 0 };
    assert!(state.check_proof(&good));
    let stolen = ClaimNFTParams { proof: expected.clone(), node: account(1), selected_token: 0 };
    assert!(!state.check_proof(&stolen));
}

#[test]
fn tampered_proofs_are_rejected() {
    let whitelist = vec![account(0), account(1), account(2)];
    let state = init_state(params(whitelist, 1, 0, 0, false)).unwrap();
    let leaf = account_leaf(&account(0));
    let canonical = state.get_hash_proof(leaf).unwrap();
    let good = ClaimNFTParams { proof: canonical.clone(), node: account(0), selected_token: 0 };
    assert!(state.check_proof(&good));

    // One hash substituted.
    for i in 0..canonical.len() {
        let mut mutated = canonical.clone();
        mutated[i] = digest("forged");
        let p = ClaimNFTParams { proof: mutated, node: account(0), selected_token: 0 };
        assert!(!state.check_proof(&p));
    }
    // Truncated.
    let mut short = canonical.clone();
    short.pop();
    let p = ClaimNFTParams { proof: short, node: account(0), selected_token: 0 };
    assert!(!state.check_proof(&p));
    // Extended.
    let mut long = canonical.clone();
    long.push(digest("extra"));
    let p = ClaimNFTParams { proof: long, node: account(0), selected_token: 0 };
    assert!(!state.check_proof(&p));
    // Reordered.
    let mut swapped = canonical.clone();
    swapped.swap(0, 1);
    let p = ClaimNFTParams { proof: swapped, node: account(0), selected_token: 0 };
    assert!(!state.check_proof(&p));
}

#[test]
fn claim_without_whitelist_then_limit() {
    let mut state = init_state(params(vec![], 1, 0, 0, false)).unwrap();
    let claim = ClaimNFTParams { proof: vec![], node: account(0), selected_token: 0 };
    let token = state.claim_decision(1, &claim).unwrap();
    assert_eq!(token, 0);
    state.record_claim(token, claim.node);
    let again = state.claim_decision(1, &claim);
    assert_eq!(again, Err(ClaimError::NFTLimitReached));
}

#[test]
fn claim_after_deadline_is_closed() {
    let mut state = init_state(params(vec![], 1, 10, 0, false)).unwrap();
    let claim = ClaimNFTParams { proof: vec![], node: account(0), selected_token: 0 };
    let refused = state.claim_decision(11, &claim);
    assert_eq!(refused, Err(ClaimError::AirdropNowClosed));
    let allowed = state.claim_decision(10, &claim).unwrap();
    assert_eq!(allowed, 0);
    state.record_claim(allowed, claim.node);
}

#[test]
fn whitelist_gates_claims_without_reserve() {
    let whitelist = vec![account(0), account(1)];
    let mut state = init_state(params(whitelist, 4, 0, 0, false)).unwrap();

    let acc0 = account_leaf(&account(0));
    let acc1 = account_leaf(&account(1));
    let mut test_proof = vec![acc0.clone()];
    test_proof.push(digest(format!("{}{}", acc0, acc1)));

    let good = ClaimNFTParams { proof: test_proof.clone(), node: account(0), selected_token: 0 };
    let token = state.claim_decision(1, &good).unwrap();
    state.record_claim(token, good.node);

    // The same proof submitted by another identity is refused.
    let bad = ClaimNFTParams { proof: test_proof.clone(), node: account(1), selected_token: 0 };
    assert_eq!(state.claim_decision(1, &bad), Err(ClaimError::AddressNotOnWhitelist));

    // An empty proof is refused outright.
    let empty = ClaimNFTParams { proof: vec![], node: account(0), selected_token: 0 };
    assert_eq!(state.claim_decision(1, &empty), Err(ClaimError::AddressNotOnWhitelist));
}

#[test]
fn full_reserve_requires_whitelist_throughout() {
    let whitelist = vec![account(0), account(1)];
    let mut state = init_state(params(whitelist, 4, 0, 4, false)).unwrap();

    let acc0 = account_leaf(&account(0));
    let acc1 = account_leaf(&account(1));
    let mut test_proof = vec![acc0.clone()];
    test_proof.push(digest(format!("{}{}", acc0, acc1)));

    let good = ClaimNFTParams { proof: test_proof.clone(), node: account(0), selected_token: 0 };
    let token = state.claim_decision(1, &good).unwrap();
    state.record_claim(token, good.node);

    let bad = ClaimNFTParams { proof: test_proof, node: account(1), selected_token: 0 };
    assert_eq!(state.claim_decision(1, &bad), Err(ClaimError::AddressNotOnWhitelist));
}

#[test]
fn partial_reserve_frees_early_claims() {
    let whitelist = vec![account(0)];
    let mut state = init_state(params(whitelist, 3, 0, 2, false)).unwrap();

    // The first token is outside the reserve: no whitelist check.
    let anyone = ClaimNFTParams { proof: vec![], node: account(1), selected_token: 0 };
    let token = state.claim_decision(1, &anyone).unwrap();
    assert_eq!(token, 0);
    state.record_claim(token, anyone.node);

    // The reserved range requires a proof.
    let hashed = account_leaf(&account(0));
    let mut wl_proof = vec![hashed.clone()];
    wl_proof.push(digest(format!("{}{}", hashed, hashed)));
    let member = ClaimNFTParams { proof: wl_proof, node: account(0), selected_token: 0 };
    let token = state.claim_decision(1, &member).unwrap();
    assert_eq!(token, 1);
    state.record_claim(token, member.node);

    // Without a proof the reserved range is refused.
    let refused = state.claim_decision(1, &anyone);
    assert_eq!(refused, Err(ClaimError::AddressNotOnWhitelist));
}

#[test]
fn selected_index_claims() {
    let mut state = init_state(params(vec![], 2, 0, 0, true)).unwrap();
    let claim = ClaimNFTParams { proof: vec![], node: account(0), selected_token: 2 };
    let token = state.claim_decision(1, &claim).unwrap();
    assert_eq!(token, 2);
    state.record_claim(token, claim.node);

    assert_eq!(state.check_owner(2), Some(account(0)));
    assert_eq!(state.check_owner(5), None);
    assert_eq!(state.total_supply(), 2);
    assert_eq!(state.current_supply(), 1);
    assert_eq!(state.view_claimed(), vec![(2u32, account(0))]);

    let again = state.claim_decision(1, &claim);
    assert_eq!(again, Err(ClaimError::IndexAlreadyClaimed));
}

#[test]
fn oversized_whitelist_is_reported_at_init() {
    let whitelist: Vec<AccountAddress> = (0..=254u32).map(|i| account(i as u8)).collect();
    let r = init_state(params(whitelist, 1, 0, 0, false));
    assert!(matches!(r, Err(TreeError::WhitelistTooLarge)));
}

#[test]
fn token_id_renders_as_little_endian_hex() {
    assert_eq!(token_id_hex(2), "02000000");
    assert_eq!(token_id_hex(0), "00000000");
    assert_eq!(token_id_hex(0x01020304), "04030201");
    assert_eq!(token_id_hex(u32::MAX), "FFFFFFFF");
}

#[test]
fn state_commit_via_method() {
    let mut state = State::empty();
    let texts = vec!["x".to_string(), "y".to_string()];
    state.create_hash_tree(texts).unwrap();
    let hx = digest("x");
    let hy = digest("y");
    assert!(state.check_hash_value(hx.clone()));
    let root = digest(format!("{}{}", hx, hy));
    let canonical = state.get_hash_proof(hx.clone()).unwrap();
    assert_eq!(canonical, vec![hx, root]);
}
