use vstd::prelude::*;

verus! {

/// One token distribution campaign: its principals, its pool accounting,
/// its claim window, and its current commitment.
#[derive(Clone, Copy, Debug)]
pub struct TokenDistributor {
    /// Sequence number of this distributor among the owner's campaigns.
    pub nonce: u32,
    /// Owner: may withdraw the remainder after the distribution ends.
    pub owner: [u8; 32],
    /// Operator: may set the start time and the merkle root.
    pub operator: [u8; 32],
    /// Identity of the distributed asset.
    pub token_mint: [u8; 32],
    /// Identity of the vault that holds the pool.
    pub token_vault: [u8; 32],
    /// The amount deposited at creation; set once, never changed.
    pub initial_total_amount: u64,
    /// The cumulative amount released to all recipients.
    pub total_claimed: u64,
    /// Start of the claim window; 0 while unset.
    pub start_time: i64,
    /// End of the claim window, start plus the fixed duration; 0 while the
    /// start is unset.
    pub end_time: i64,
    /// The current commitment; the all-zero digest while unset.
    pub merkle_root: [u8; 32],
}

/// The claim record of one (distributor, recipient) pair: the cumulative
/// amount already released to this recipient, never decreasing.
#[derive(Clone, Copy, Debug, PartialEq, Eq, Structural)]
pub struct ClaimStatus {
    pub claimed_amount: u64,
}

/// The per-owner counter from which each new distributor draws its
/// sequence number.
#[derive(Clone, Copy, Debug, PartialEq, Eq, Structural)]
pub struct NonceState {
    pub nonce: u32,
}

} // verus!
