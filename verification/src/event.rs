use vstd::prelude::*;

verus! {

/// Record of a new distributor being created.
#[derive(Clone, Copy, Debug)]
pub struct DistributorCreated {
    pub distributor: [u8; 32],
    pub nonce: u32,
    pub owner: [u8; 32],
    pub operator: [u8; 32],
    pub token_mint: [u8; 32],
    pub token_vault: [u8; 32],
    pub initial_total_amount: u64,
}

/// Record of the claim window being set.
#[derive(Clone, Copy, Debug)]
pub struct StartTimeSet {
    pub distributor: [u8; 32],
    pub operator: [u8; 32],
    pub start_time: i64,
    pub end_time: i64,
}

/// Record of the merkle root being published or replaced.
#[derive(Clone, Copy, Debug)]
pub struct MerkleRootSet {
    pub distributor: [u8; 32],
    pub operator: [u8; 32],
    pub merkle_root: [u8; 32],
}

/// Record of a successful claim.
#[derive(Clone, Copy, Debug)]
pub struct TokensClaimed {
    pub distributor: [u8; 32],
    pub claimant: [u8; 32],
    /// Amount released to the recipient by this claim.
    pub user_amount_claimed: u64,
    /// The ceiling the recipient proved for this claim.
    pub user_max_amount: u64,
    /// Cumulative amount released to all recipients after this claim.
    pub total_claimed: u64,
}

/// Record of the remainder being withdrawn by the owner.
#[derive(Clone, Copy, Debug)]
pub struct TokensWithdrawn {
    pub distributor: [u8; 32],
    pub owner: [u8; 32],
    pub amount_withdrawn: u64,
}

/// Record of a claim record being closed by its recipient.
#[derive(Clone, Copy, Debug)]
pub struct ClaimStatusClosed {
    pub distributor: [u8; 32],
    pub claimant: [u8; 32],
    pub claimed_amount: u64,
}

} // verus!
