use vstd::prelude::*;

use crate::constants::DURATION;
use crate::constants::MAX_START_TIME;
use crate::error::TokenDistributorError;
use crate::merkle::digests_of;
use crate::merkle::eq_digest;
use crate::merkle::hash_leaf;
use crate::merkle::leaf_digest;
use crate::merkle::merkle_verifies;
use crate::merkle::verify;
use crate::state::ClaimStatus;
use crate::state::NonceState;
use crate::state::TokenDistributor;

verus! {

/// The all-zero 32-byte string: the default principal, and the digest that
/// stands for an unset commitment.
pub open spec fn zero_bytes32() -> Seq<u8> {
    Seq::new(32, |i: int| 0u8)
}

/// Decides whether 32 bytes are all zero.
pub(crate) fn is_zero_bytes32(a: &[u8; 32]) -> (r: bool)
    ensures
        r == (a@ == zero_bytes32()),
{
    let zero: [u8; 32] = [0u8; 32];
    proof {
        assert(zero@ =~= zero_bytes32());
    }
    eq_digest(a, &zero)
}

/// The error `create_distributor` reports for these inputs, or `None` when
/// it must succeed.
pub open spec fn spec_create_distributor_error(
    nonce0: u32,
    operator: Seq<u8>,
    initial_total_amount: u64,
) -> Option<TokenDistributorError> {
    if initial_total_amount == 0 {
        Some(TokenDistributorError::InvalidAmount)
    } else if operator == zero_bytes32() {
        Some(TokenDistributorError::InvalidOperator)
    } else if nonce0 == u32::MAX {
        Some(TokenDistributorError::ArithmeticOverflow)
    } else {
        None
    }
}

/// Opens a new distribution campaign: draws the next sequence number from
/// the owner's counter and returns the fresh distributor record, with all
/// counters zero, the window unset, and the commitment unset. The deposit
/// of `initial_total_amount` into the vault is the caller's step, taken
/// after this one succeeds.
pub fn handle_create_distributor(
    owner_nonce: &mut NonceState,
    owner: &[u8; 32],
    operator: &[u8; 32],
    token_mint: &[u8; 32],
    token_vault: &[u8; 32],
    initial_total_amount: u64,
) -> (r: Result<TokenDistributor, TokenDistributorError>)
    ensures
        match r {
            Ok(d) => {
                &&& spec_create_distributor_error(
                    old(owner_nonce).nonce,
                    operator@,
                    initial_total_amount,
                ) is None
                &&& final(owner_nonce).nonce == old(owner_nonce).nonce + 1
                &&& d.nonce == final(owner_nonce).nonce
                &&& d.owner == owner
                &&& d.operator == operator
                &&& d.token_mint == token_mint
                &&& d.token_vault == token_vault
                &&& d.initial_total_amount == initial_total_amount
                &&& d.total_claimed == 0
                &&& d.start_time == 0
                &&& d.end_time == 0
                &&& d.merkle_root@ == zero_bytes32()
            },
            Err(e) => {
                &&& spec_create_distributor_error(
                    old(owner_nonce).nonce,
                    operator@,
                    initial_total_amount,
                ) == Some(e)
                &&& *final(owner_nonce) == *old(owner_nonce)
            },
        },
{
    if initial_total_amount == 0 {
        return Err(TokenDistributorError::InvalidAmount);
    }
    if is_zero_bytes32(operator) {
        return Err(TokenDistributorError::InvalidOperator);
    }
    let current_nonce = match owner_nonce.nonce.checked_add(1) {
        Some(n) => n,
        None => {
            return Err(TokenDistributorError::ArithmeticOverflow);
        },
    };
    owner_nonce.nonce = current_nonce;

    let unset_root: [u8; 32] = [0u8; 32];
    proof {
        assert(unset_root@ =~= zero_bytes32());
    }
    Ok(TokenDistributor {
        nonce: current_nonce,
        owner: *owner,
        operator: *operator,
        token_mint: *token_mint,
        token_vault: *token_vault,
        initial_total_amount,
        total_claimed: 0,
        start_time: 0,
        end_time: 0,
        merkle_root: unset_root,
    })
}

/// The error `set_time` reports for these inputs, or `None` when it must
/// succeed: the window may be rewritten freely until its start arrives,
/// the new start must lie in the future, and no further ahead than the
/// fixed horizon.
pub open spec fn spec_set_time_error(
    d: TokenDistributor,
    operator: Seq<u8>,
    current_time: i64,
    start_time: i64,
) -> Option<TokenDistributorError> {
    if operator != d.operator@ {
        Some(TokenDistributorError::OnlyOperator)
    } else if d.start_time > 0 && current_time >= d.start_time {
        Some(TokenDistributorError::DistributionAlreadyStarted)
    } else if start_time <= current_time {
        Some(TokenDistributorError::InvalidStartTime)
    } else if start_time > current_time + MAX_START_TIME {
        Some(TokenDistributorError::StartTimeTooFar)
    } else {
        None
    }
}

/// Sets the claim window: the start as given, the end the fixed duration
/// later. Callable any number of times until the current window goes
/// live; each successful call fully overwrites the previous window.
pub fn handle_set_time(
    d: &mut TokenDistributor,
    operator: &[u8; 32],
    current_time: i64,
    start_time: i64,
) -> (r: Result<(), TokenDistributorError>)
    requires
        current_time + MAX_START_TIME + DURATION <= i64::MAX,
    ensures
        match r {
            Ok(()) => {
                &&& spec_set_time_error(*old(d), operator@, current_time, start_time) is None
                &&& *final(d) == TokenDistributor {
                    start_time: start_time,
                    end_time: (start_time + DURATION) as i64,
                    ..*old(d)
                }
                &&& final(d).end_time == start_time + DURATION
            },
            Err(e) => {
                &&& spec_set_time_error(*old(d), operator@, current_time, start_time) == Some(e)
                &&& *final(d) == *old(d)
            },
        },
{
    if !eq_digest(operator, &d.operator) {
        return Err(TokenDistributorError::OnlyOperator);
    }
    if d.start_time > 0 && current_time >= d.start_time {
        return Err(TokenDistributorError::DistributionAlreadyStarted);
    }
    if start_time <= current_time {
        return Err(TokenDistributorError::InvalidStartTime);
    }
    if start_time > current_time + MAX_START_TIME {
        return Err(TokenDistributorError::StartTimeTooFar);
    }
    d.start_time = start_time;
    d.end_time = start_time + DURATION;
    Ok(())
}

/// The error `set_merkle_root` reports for these inputs, or `None` when it
/// must succeed: only the operator, and never the all-zero digest, which
/// must remain distinguishable from a real commitment.
pub open spec fn spec_set_merkle_root_error(
    d: TokenDistributor,
    operator: Seq<u8>,
    merkle_root: Seq<u8>,
) -> Option<TokenDistributorError> {
    if operator != d.operator@ {
        Some(TokenDistributorError::OnlyOperator)
    } else if merkle_root == zero_bytes32() {
        Some(TokenDistributorError::InvalidMerkleRoot)
    } else {
        None
    }
}

/// Publishes or replaces the commitment. No time restriction: callable
/// before, during, or after the claim window, each overwrite immediately
/// effective for subsequent claims.
pub fn handle_set_merkle_root(
    d: &mut TokenDistributor,
    operator: &[u8; 32],
    merkle_root: [u8; 32],
) -> (r: Result<(), TokenDistributorError>)
    ensures
        match r {
            Ok(()) => {
                &&& spec_set_merkle_root_error(*old(d), operator@, merkle_root@) is None
                &&& *final(d) == TokenDistributor { merkle_root: merkle_root, ..*old(d) }
            },
            Err(e) => {
                &&& spec_set_merkle_root_error(*old(d), operator@, merkle_root@) == Some(e)
                &&& *final(d) == *old(d)
            },
        },
{
    if !eq_digest(operator, &d.operator) {
        return Err(TokenDistributorError::OnlyOperator);
    }
    if is_zero_bytes32(&merkle_root) {
        return Err(TokenDistributorError::InvalidMerkleRoot);
    }
    d.merkle_root = merkle_root;
    Ok(())
}

/// The error `claim` reports for these inputs, or `None` when it must
/// succeed. The checks run in this order: a commitment and a window must
/// exist, the time must lie inside the window, the ceiling must exceed
/// what was already released, the proof must match the commitment, the
/// live vault balance must cover the pending amount, and the released
/// total must not overflow.
pub open spec fn spec_claim_error(
    d: TokenDistributor,
    claimed_amount: u64,
    claimant: Seq<u8>,
    vault_balance: u64,
    current_time: i64,
    max_amount: u64,
    siblings: Seq<Seq<u8>>,
) -> Option<TokenDistributorError> {
    if d.merkle_root@ == zero_bytes32() {
        Some(TokenDistributorError::NoMerkleRoot)
    } else if d.start_time <= 0 {
        Some(TokenDistributorError::StartTimeNotSet)
    } else if current_time < d.start_time {
        Some(TokenDistributorError::DistributionNotStarted)
    } else if current_time > d.end_time {
        Some(TokenDistributorError::DistributionEnded)
    } else if max_amount <= claimed_amount {
        Some(TokenDistributorError::InvalidAmount)
    } else if !merkle_verifies(siblings, d.merkle_root@, leaf_digest(claimant, max_amount)) {
        Some(TokenDistributorError::InvalidProof)
    } else if vault_balance < max_amount - claimed_amount {
        Some(TokenDistributorError::InsufficientVaultBalance)
    } else if d.total_claimed + (max_amount - claimed_amount) > u64::MAX {
        Some(TokenDistributorError::ArithmeticOverflow)
    } else {
        None
    }
}

/// Releases the pending amount of a recipient's entitlement: the ceiling
/// proved against the current commitment, less what was already released.
/// On success the claim record is overwritten to the new ceiling and the
/// released total grows by the pending amount; the caller then transfers
/// exactly the returned amount, strictly after this state change. On any
/// error nothing changes.
pub fn handle_claim(
    d: &mut TokenDistributor,
    claim_status: &mut ClaimStatus,
    claimant: &[u8; 32],
    vault_balance: u64,
    current_time: i64,
    max_amount: u64,
    proof_nodes: Vec<[u8; 32]>,
) -> (r: Result<u64, TokenDistributorError>)
    ensures
        match r {
            Ok(pending) => {
                &&& spec_claim_error(
                    *old(d),
                    old(claim_status).claimed_amount,
                    claimant@,
                    vault_balance,
                    current_time,
                    max_amount,
                    digests_of(proof_nodes@),
                ) is None
                &&& pending == max_amount - old(claim_status).claimed_amount
                &&& pending > 0
                &&& pending <= vault_balance
                &&& final(claim_status).claimed_amount == max_amount
                &&& *final(d) == TokenDistributor {
                    total_claimed: (old(d).total_claimed + pending) as u64,
                    ..*old(d)
                }
                &&& final(d).total_claimed == old(d).total_claimed + pending
            },
            Err(e) => {
                &&& spec_claim_error(
                    *old(d),
                    old(claim_status).claimed_amount,
                    claimant@,
                    vault_balance,
                    current_time,
                    max_amount,
                    digests_of(proof_nodes@),
                ) == Some(e)
                &&& *final(d) == *old(d)
                &&& *final(claim_status) == *old(claim_status)
            },
        },
{
    if is_zero_bytes32(&d.merkle_root) {
        return Err(TokenDistributorError::NoMerkleRoot);
    }
    if d.start_time <= 0 {
        return Err(TokenDistributorError::StartTimeNotSet);
    }
    if current_time < d.start_time {
        return Err(TokenDistributorError::DistributionNotStarted);
    }
    if current_time > d.end_time {
        return Err(TokenDistributorError::DistributionEnded);
    }

    let claimed_amount = claim_status.claimed_amount;
    if max_amount <= claimed_amount {
        return Err(TokenDistributorError::InvalidAmount);
    }

    let leaf = hash_leaf(claimant, max_amount);
    if !verify(proof_nodes, d.merkle_root, leaf) {
        return Err(TokenDistributorError::InvalidProof);
    }

    let pending_amount = max_amount - claimed_amount;
    if vault_balance < pending_amount {
        return Err(TokenDistributorError::InsufficientVaultBalance);
    }

    let new_total_claimed = match d.total_claimed.checked_add(pending_amount) {
        Some(t) => t,
        None => {
            return Err(TokenDistributorError::ArithmeticOverflow);
        },
    };

    claim_status.claimed_amount = max_amount;
    d.total_claimed = new_total_claimed;
    Ok(pending_amount)
}

/// Claiming twice with the same ceiling: after a successful claim raised
/// the record's cumulative amount to `max_amount`, a second claim during
/// the window with that same ceiling reports `InvalidAmount`, whatever
/// proof and balance accompany it — and `handle_claim`'s contract then
/// leaves the distributor and the record unchanged.
pub proof fn lemma_claim_repeated_ceiling_rejected(
    d: TokenDistributor,
    claimant: Seq<u8>,
    vault_balance: u64,
    current_time: i64,
    max_amount: u64,
    siblings: Seq<Seq<u8>>,
)
    requires
        d.merkle_root@ != zero_bytes32(),
        d.start_time > 0,
        d.start_time <= current_time <= d.end_time,
    ensures
        spec_claim_error(
            d,
            max_amount,
            claimant,
            vault_balance,
            current_time,
            max_amount,
            siblings,
        ) == Some(TokenDistributorError::InvalidAmount),
{
}

/// The window stays mutable until it goes live: after a successful
/// `set_time` call at time `t1` with start `s1`, a second call before the
/// start arrives succeeds whenever its own start is valid, while a call
/// on or after the start reports `DistributionAlreadyStarted`.
pub proof fn lemma_set_time_mutable_until_live(
    d: TokenDistributor,
    operator: Seq<u8>,
    t1: i64,
    s1: i64,
    t2: i64,
    s2: i64,
)
    requires
        0 <= t1,
        spec_set_time_error(d, operator, t1, s1) is None,
        s1 + DURATION <= i64::MAX,
    ensures
        ({
            let d1 = TokenDistributor {
                start_time: s1,
                end_time: (s1 + DURATION) as i64,
                ..d
            };
            &&& (t2 < s1 && t2 < s2 <= t2 + MAX_START_TIME) ==> spec_set_time_error(
                d1,
                operator,
                t2,
                s2,
            ) is None
            &&& t2 >= s1 ==> spec_set_time_error(d1, operator, t2, s2) == Some(
                TokenDistributorError::DistributionAlreadyStarted,
            )
        }),
{
}

/// The error `withdraw` reports for these inputs, or `None` when it must
/// succeed: only the owner, and only strictly after the window's end. An
/// unset window has end 0, so any positive time allows the owner to tear
/// an abandoned campaign down.
pub open spec fn spec_withdraw_error(
    d: TokenDistributor,
    owner: Seq<u8>,
    current_time: i64,
) -> Option<TokenDistributorError> {
    if owner != d.owner@ {
        Some(TokenDistributorError::OnlyOwner)
    } else if current_time <= d.end_time {
        Some(TokenDistributorError::DistributionNotEnded)
    } else {
        None
    }
}

/// Reconciles an ended campaign: returns the amount to transfer back to
/// the owner, which is exactly the live vault balance. The caller then
/// transfers it, empties the vault, and retires the distributor record.
pub fn handle_withdraw(
    d: &TokenDistributor,
    owner: &[u8; 32],
    vault_balance: u64,
    current_time: i64,
) -> (r: Result<u64, TokenDistributorError>)
    ensures
        match r {
            Ok(remaining) => {
                &&& spec_withdraw_error(*d, owner@, current_time) is None
                &&& remaining == vault_balance
            },
            Err(e) => spec_withdraw_error(*d, owner@, current_time) == Some(e),
        },
{
    if !eq_digest(owner, &d.owner) {
        return Err(TokenDistributorError::OnlyOwner);
    }
    if current_time <= d.end_time {
        return Err(TokenDistributorError::DistributionNotEnded);
    }
    Ok(vault_balance)
}

/// The error `close_claim_status` reports, or `None` when it must succeed:
/// a claim record may be closed once its parent distribution's window has
/// elapsed, or once the parent no longer exists at all.
pub open spec fn spec_close_claim_status_error(
    parent: Option<TokenDistributor>,
    current_time: i64,
) -> Option<TokenDistributorError> {
    match parent {
        Some(d) => if current_time <= d.end_time {
            Some(TokenDistributorError::DistributionNotEnded)
        } else {
            None
        },
        None => None,
    }
}

/// Closes a recipient's claim record: permitted once the parent
/// distribution has ended, or once it no longer exists. Returns the
/// cumulative amount the record held; the caller erases the record and
/// returns its storage cost to the recipient.
pub fn handle_close_claim_status(
    parent: Option<&TokenDistributor>,
    current_time: i64,
    claim_status: &ClaimStatus,
) -> (r: Result<u64, TokenDistributorError>)
    ensures
        match r {
            Ok(claimed) => {
                &&& spec_close_claim_status_error(
                    match parent {
                        Some(d) => Some(*d),
                        None => None,
                    },
                    current_time,
                ) is None
                &&& claimed == claim_status.claimed_amount
            },
            Err(e) => spec_close_claim_status_error(
                match parent {
                    Some(d) => Some(*d),
                    None => None,
                },
                current_time,
            ) == Some(e),
        },
{
    match parent {
        Some(d) => {
            if current_time <= d.end_time {
                return Err(TokenDistributorError::DistributionNotEnded);
            }
        },
        None => {},
    }
    Ok(claim_status.claimed_amount)
}

} // verus!
