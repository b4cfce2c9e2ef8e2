use token_distributor::campaign::Campaign;
use token_distributor::constants::DURATION;
use token_distributor::constants::MAX_START_TIME;
use token_distributor::distributor::handle_claim;
use token_distributor::distributor::handle_close_claim_status;
use token_distributor::distributor::handle_create_distributor;
use token_distributor::distributor::handle_set_merkle_root;
use token_distributor::distributor::handle_set_time;
use token_distributor::distributor::handle_withdraw;
use token_distributor::error::TokenDistributorError;
use token_distributor::merkle_tree::SimpleMerkleTree;
use token_distributor::merkle_tree::TreeNode;
use token_distributor::state::ClaimStatus;
use token_distributor::state::NonceState;
use token_distributor::state::TokenDistributor;

const OWNER: [u8; 32] = [1u8; 32];
const OPERATOR: [u8; 32] = [2u8; 32];
const MINT: [u8; 32] = [3u8; 32];
const VAULT: [u8; 32] = [4u8; 32];
const RECIPIENT_A: [u8; 32] = [5u8; 32];
const RECIPIENT_B: [u8; 32] = [6u8; 32];

fn open_campaign(pool: u64) -> Campaign {
    let mut nonce = NonceState { nonce: 0 };
    Campaign::open(&mut nonce, &OWNER, &OPERATOR, &MINT, &VAULT, pool).unwrap()
}

fn tree_over(entries: &[([u8; 32], u64)]) -> SimpleMerkleTree {
    let nodes: Vec<TreeNode> = entries
        .iter()
        .map(|(claimant, amount)| TreeNode {
            claimant: *claimant,
            amount: *amount,
        })
        .collect();
    SimpleMerkleTree::new(nodes)
}

#[test]
fn test_create_distributor_initializes_state() {
    let mut nonce = NonceState { nonce: 7 };
    let d = handle_create_distributor(&mut nonce, &OWNER, &OPERATOR, &MINT, &VAULT, 500).unwrap();
    assert_eq!(nonce.nonce, 8);
    assert_eq!(d.nonce, 8);
    assert_eq!(d.owner, OWNER);
    assert_eq!(d.operator, OPERATOR);
    assert_eq!(d.token_mint, MINT);
    assert_eq!(d.token_vault, VAULT);
    assert_eq!(d.initial_total_amount, 500);
    assert_eq!(d.total_claimed, 0);
    assert_eq!(d.start_time, 0);
    assert_eq!(d.end_time, 0);
    assert_eq!(d.merkle_root, [0u8; 32]);
}

#[test]
fn test_create_distributor_rejects_zero_amount() {
    let mut nonce = NonceState { nonce: 0 };
    let r = handle_create_distributor(&mut nonce, &OWNER, &OPERATOR, &MINT, &VAULT, 0);
    assert_eq!(r.unwrap_err(), TokenDistributorError::InvalidAmount);
    assert_eq!(nonce.nonce, 0);
}

#[test]
fn test_create_distributor_rejects_default_operator() {
    let mut nonce = NonceState { nonce: 0 };
    let r = handle_create_distributor(&mut nonce, &OWNER, &[0u8; 32], &MINT, &VAULT, 500);
    assert_eq!(r.unwrap_err(), TokenDistributorError::InvalidOperator);
    assert_eq!(nonce.nonce, 0);
}

#[test]
fn test_create_distributor_rejects_nonce_overflow() {
    let mut nonce = NonceState { nonce: u32::MAX };
    let r = handle_create_distributor(&mut nonce, &OWNER, &OPERATOR, &MINT, &VAULT, 500);
    assert_eq!(r.unwrap_err(), TokenDistributorError::ArithmeticOverflow);
    assert_eq!(nonce.nonce, u32::MAX);
}

#[test]
fn test_set_time_only_operator() {
    let mut c = open_campaign(1000);
    let r = c.set_time(&OWNER, 100, 200);
    assert_eq!(r.unwrap_err(), TokenDistributorError::OnlyOperator);
}

#[test]
fn test_set_time_rejects_past_start() {
    let mut c = open_campaign(1000);
    let r = c.set_time(&OPERATOR, 100, 100);
    assert_eq!(r.unwrap_err(), TokenDistributorError::InvalidStartTime);
}

#[test]
fn test_set_time_rejects_too_far_start() {
    let mut c = open_campaign(1000);
    let r = c.set_time(&OPERATOR, 100, 100 + MAX_START_TIME + 1);
    assert_eq!(r.unwrap_err(), TokenDistributorError::StartTimeTooFar);
}

#[test]
fn test_set_time_repeatable_before_start_immutable_after() {
    let mut c = open_campaign(1000);
    assert!(c.set_time(&OPERATOR, 100, 200).is_ok());
    assert_eq!(c.distributor_record().end_time, 200 + DURATION);

    // still before the start: rewriting the window is allowed, repeatedly
    assert!(c.set_time(&OPERATOR, 150, 500).is_ok());
    assert!(c.set_time(&OPERATOR, 160, 400).is_ok());
    assert_eq!(c.distributor_record().start_time, 400);
    assert_eq!(c.distributor_record().end_time, 400 + DURATION);

    // exactly at the start, and after it: the window is immutable
    let r = c.set_time(&OPERATOR, 400, 900);
    assert_eq!(
        r.unwrap_err(),
        TokenDistributorError::DistributionAlreadyStarted
    );
    let r = c.set_time(&OPERATOR, 450, 900);
    assert_eq!(
        r.unwrap_err(),
        TokenDistributorError::DistributionAlreadyStarted
    );
    assert_eq!(c.distributor_record().start_time, 400);
}

#[test]
fn test_set_merkle_root_only_operator_and_nonzero() {
    let mut c = open_campaign(1000);
    let r = c.set_merkle_root(&OWNER, [9u8; 32]);
    assert_eq!(r.unwrap_err(), TokenDistributorError::OnlyOperator);
    let r = c.set_merkle_root(&OPERATOR, [0u8; 32]);
    assert_eq!(r.unwrap_err(), TokenDistributorError::InvalidMerkleRoot);
    assert!(c.set_merkle_root(&OPERATOR, [9u8; 32]).is_ok());
    assert_eq!(c.distributor_record().merkle_root, [9u8; 32]);
}

#[test]
fn test_claim_requires_commitment_and_window() {
    let mut d = {
        let mut nonce = NonceState { nonce: 0 };
        handle_create_distributor(&mut nonce, &OWNER, &OPERATOR, &MINT, &VAULT, 1000).unwrap()
    };
    let mut cs = ClaimStatus { claimed_amount: 0 };

    let r = handle_claim(&mut d, &mut cs, &RECIPIENT_A, 1000, 100, 500, Vec::new());
    assert_eq!(r.unwrap_err(), TokenDistributorError::NoMerkleRoot);

    assert!(handle_set_merkle_root(&mut d, &OPERATOR, [9u8; 32]).is_ok());
    let r = handle_claim(&mut d, &mut cs, &RECIPIENT_A, 1000, 100, 500, Vec::new());
    assert_eq!(r.unwrap_err(), TokenDistributorError::StartTimeNotSet);

    assert!(handle_set_time(&mut d, &OPERATOR, 100, 200).is_ok());
    let r = handle_claim(&mut d, &mut cs, &RECIPIENT_A, 1000, 150, 500, Vec::new());
    assert_eq!(r.unwrap_err(), TokenDistributorError::DistributionNotStarted);

    let after_end = 200 + DURATION + 1;
    let r = handle_claim(&mut d, &mut cs, &RECIPIENT_A, 1000, after_end, 500, Vec::new());
    assert_eq!(r.unwrap_err(), TokenDistributorError::DistributionEnded);

    // inside the window, but with a proof that matches nothing
    let r = handle_claim(&mut d, &mut cs, &RECIPIENT_A, 1000, 250, 500, Vec::new());
    assert_eq!(r.unwrap_err(), TokenDistributorError::InvalidProof);
    assert_eq!(cs.claimed_amount, 0);
    assert_eq!(d.total_claimed, 0);
}

#[test]
fn test_claim_rejects_insufficient_pool() {
    // the pool holds less than the proved entitlement
    let mut c = open_campaign(300);
    let tree = tree_over(&[(RECIPIENT_A, 1000), (RECIPIENT_B, 2000)]);
    let root = tree.get_root().unwrap();
    assert!(c.set_time(&OPERATOR, 100, 200).is_ok());
    assert!(c.set_merkle_root(&OPERATOR, root).is_ok());
    let proof = tree.get_proof(0).unwrap();
    let r = c.claim(&RECIPIENT_A, 250, 1000, proof);
    assert_eq!(
        r.unwrap_err(),
        TokenDistributorError::InsufficientVaultBalance
    );
    assert_eq!(c.pool_balance(), 300);
}

#[test]
fn test_claim_twice_same_ceiling_fails_and_mutates_nothing() {
    let mut c = open_campaign(10_000);
    let tree = tree_over(&[(RECIPIENT_A, 1000), (RECIPIENT_B, 2000)]);
    let root = tree.get_root().unwrap();
    assert!(c.set_time(&OPERATOR, 100, 200).is_ok());
    assert!(c.set_merkle_root(&OPERATOR, root).is_ok());

    let proof = tree.get_proof(0).unwrap();
    assert_eq!(c.claim(&RECIPIENT_A, 250, 1000, proof.clone()).unwrap(), 1000);

    let before = c.distributor_record();
    let r = c.claim(&RECIPIENT_A, 260, 1000, proof);
    assert_eq!(r.unwrap_err(), TokenDistributorError::InvalidAmount);
    let after = c.distributor_record();
    assert_eq!(after.total_claimed, before.total_claimed);
    assert_eq!(c.claimed_amount_of(&RECIPIENT_A), 1000);
    assert_eq!(c.pool_balance(), 9000);
}

#[test]
fn test_withdraw_only_owner_and_only_after_end() {
    let mut c = open_campaign(1000);
    assert!(c.set_time(&OPERATOR, 100, 200).is_ok());

    let r = c.withdraw(&OPERATOR, 200 + DURATION + 1);
    assert_eq!(r.unwrap_err(), TokenDistributorError::OnlyOwner);

    // before and exactly at the end: not yet
    let r = c.withdraw(&OWNER, 150);
    assert_eq!(r.unwrap_err(), TokenDistributorError::DistributionNotEnded);
    let r = c.withdraw(&OWNER, 200 + DURATION);
    assert_eq!(r.unwrap_err(), TokenDistributorError::DistributionNotEnded);

    // after the end: the full live balance comes back
    let r = c.withdraw(&OWNER, 200 + DURATION + 1);
    assert_eq!(r.unwrap(), 1000);
    assert_eq!(c.pool_balance(), 0);
}

#[test]
fn test_withdraw_of_abandoned_campaign() {
    // the window was never set, so its end is the zero sentinel and any
    // positive time is already past it
    let mut c = open_campaign(1000);
    let r = c.withdraw(&OWNER, 1);
    assert_eq!(r.unwrap(), 1000);
}

#[test]
fn test_close_claim_status_after_end_and_after_withdraw() {
    let mut c = open_campaign(10_000);
    let tree = tree_over(&[(RECIPIENT_A, 1000), (RECIPIENT_B, 2000)]);
    let root = tree.get_root().unwrap();
    assert!(c.set_time(&OPERATOR, 100, 200).is_ok());
    assert!(c.set_merkle_root(&OPERATOR, root).is_ok());
    assert_eq!(
        c.claim(&RECIPIENT_A, 250, 1000, tree.get_proof(0).unwrap())
            .unwrap(),
        1000
    );
    assert_eq!(
        c.claim(&RECIPIENT_B, 260, 2000, tree.get_proof(1).unwrap())
            .unwrap(),
        2000
    );

    // the released total equals the sum of the recipients' cumulative
    // amounts
    assert_eq!(c.distributor_record().total_claimed, 3000);
    assert_eq!(
        c.claimed_amount_of(&RECIPIENT_A) + c.claimed_amount_of(&RECIPIENT_B),
        3000
    );

    // during the window the record cannot be closed
    let r = c.close_claim_status(&RECIPIENT_A, 300);
    assert_eq!(r.unwrap_err(), TokenDistributorError::DistributionNotEnded);

    // after the window has elapsed it can
    let r = c.close_claim_status(&RECIPIENT_A, 200 + DURATION + 1);
    assert_eq!(r.unwrap(), 1000);
    assert_eq!(c.claimed_amount_of(&RECIPIENT_A), 0);

    // after withdrawal the parent is gone, which also permits closing
    assert_eq!(c.withdraw(&OWNER, 200 + DURATION + 1).unwrap(), 7000);
    let r = c.close_claim_status(&RECIPIENT_B, 300);
    assert_eq!(r.unwrap(), 2000);
}

#[test]
fn test_close_claim_status_without_parent() {
    let cs = ClaimStatus { claimed_amount: 42 };
    assert_eq!(handle_close_claim_status(None, 1, &cs).unwrap(), 42);
    let d = TokenDistributor {
        nonce: 1,
        owner: OWNER,
        operator: OPERATOR,
        token_mint: MINT,
        token_vault: VAULT,
        initial_total_amount: 100,
        total_claimed: 0,
        start_time: 10,
        end_time: 20,
        merkle_root: [9u8; 32],
    };
    assert_eq!(
        handle_close_claim_status(Some(&d), 15, &cs).unwrap_err(),
        TokenDistributorError::DistributionNotEnded
    );
    assert_eq!(handle_close_claim_status(Some(&d), 21, &cs).unwrap(), 42);
}

#[test]
fn test_withdraw_handler_returns_live_balance() {
    let d = TokenDistributor {
        nonce: 1,
        owner: OWNER,
        operator: OPERATOR,
        token_mint: MINT,
        token_vault: VAULT,
        initial_total_amount: 100,
        total_claimed: 60,
        start_time: 10,
        end_time: 20,
        merkle_root: [9u8; 32],
    };
    assert_eq!(handle_withdraw(&d, &OWNER, 40, 21).unwrap(), 40);
}

#[test]
fn test_incremental_claims_sum_to_final_cumulative() {
    // strictly increasing ceilings for one recipient across root updates:
    // the pendings telescope, and the released total matches the ledger
    let mut c = open_campaign(100_000);
    assert!(c.set_time(&OPERATOR, 100, 200).is_ok());

    let ceilings: [u64; 3] = [500, 1200, 4000];
    let mut released: u64 = 0;
    for (step, ceiling) in ceilings.iter().enumerate() {
        let tree = tree_over(&[(RECIPIENT_A, *ceiling), (RECIPIENT_B, 2000)]);
        let root = tree.get_root().unwrap();
        assert!(c.set_merkle_root(&OPERATOR, root).is_ok());
        let pending = c
            .claim(&RECIPIENT_A, 250 + step as i64, *ceiling, tree.get_proof(0).unwrap())
            .unwrap();
        released += pending;
    }
    assert_eq!(released, 4000);
    assert_eq!(c.claimed_amount_of(&RECIPIENT_A), 4000);
    assert_eq!(c.distributor_record().total_claimed, 4000);
    assert_eq!(c.pool_balance(), 96_000);
}

#[test]
fn test_full_scenario_with_root_update() {
    // open(pool=10,000); window from now+1; commitment over
    // [(A,1000),(B,2000)]; A claims 1000; the root is republished with A
    // raised to 1500; A claims again for 500 more; after the end the
    // owner withdraws the remaining 8,500.
    let now: i64 = 1_000;
    let mut c = open_campaign(10_000);
    assert!(c.set_time(&OPERATOR, now, now + 1).is_ok());

    let tree = tree_over(&[(RECIPIENT_A, 1000), (RECIPIENT_B, 2000)]);
    assert!(c.set_merkle_root(&OPERATOR, tree.get_root().unwrap()).is_ok());

    let pending = c
        .claim(&RECIPIENT_A, now + 2, 1000, tree.get_proof(0).unwrap())
        .unwrap();
    assert_eq!(pending, 1000);
    assert_eq!(c.distributor_record().total_claimed, 1000);

    let updated = tree_over(&[(RECIPIENT_A, 1500), (RECIPIENT_B, 2000)]);
    assert!(c
        .set_merkle_root(&OPERATOR, updated.get_root().unwrap())
        .is_ok());

    let pending = c
        .claim(&RECIPIENT_A, now + 3, 1500, updated.get_proof(0).unwrap())
        .unwrap();
    assert_eq!(pending, 500);
    assert_eq!(c.distributor_record().total_claimed, 1500);
    assert_eq!(c.claimed_amount_of(&RECIPIENT_A), 1500);

    let end = now + 1 + DURATION;
    let remainder = c.withdraw(&OWNER, end + 1).unwrap();
    assert_eq!(remainder, 8_500);
    assert_eq!(c.pool_balance(), 0);
}

#[test]
fn test_claim_with_old_proof_after_root_update_fails() {
    let mut c = open_campaign(10_000);
    let tree = tree_over(&[(RECIPIENT_A, 1000), (RECIPIENT_B, 2000)]);
    assert!(c.set_time(&OPERATOR, 100, 200).is_ok());
    assert!(c.set_merkle_root(&OPERATOR, tree.get_root().unwrap()).is_ok());

    let updated = tree_over(&[(RECIPIENT_A, 1500), (RECIPIENT_B, 2000)]);
    assert!(c
        .set_merkle_root(&OPERATOR, updated.get_root().unwrap())
        .is_ok());

    // the proof against the replaced root no longer verifies
    let r = c.claim(&RECIPIENT_A, 250, 1000, tree.get_proof(0).unwrap());
    assert_eq!(r.unwrap_err(), TokenDistributorError::InvalidProof);
}
