use vstd::prelude::*;

verus! {

/// The error codes the distributor reports. Every operation either fully
/// succeeds or reports exactly one of these and leaves all state unchanged.
#[derive(Clone, Copy, Debug, PartialEq, Eq, Structural)]
pub enum TokenDistributorError {
    /// Only the operator can perform this action.
    OnlyOperator,
    /// Only the owner can perform this action.
    OnlyOwner,
    /// The operator account is the default principal.
    InvalidOperator,
    /// The start time has not been set.
    StartTimeNotSet,
    /// The distribution has already started; the window is immutable.
    DistributionAlreadyStarted,
    /// The start time does not lie in the future.
    InvalidStartTime,
    /// The start time lies more than the maximum horizon ahead.
    StartTimeTooFar,
    /// The distribution has not started yet.
    DistributionNotStarted,
    /// The distribution has ended.
    DistributionEnded,
    /// The distribution has not ended yet.
    DistributionNotEnded,
    /// No merkle root has been set.
    NoMerkleRoot,
    /// The merkle root is the all-zero digest, which stands for "unset".
    InvalidMerkleRoot,
    /// The merkle proof does not match the published root.
    InvalidProof,
    /// The amount is zero, or does not exceed what was already claimed.
    InvalidAmount,
    /// The vault balance does not cover this claim.
    InsufficientVaultBalance,
    /// A counter or a total would overflow.
    ArithmeticOverflow,
    /// The distributor account is not owned by this program.
    DistributorNotOwnedByProgram,
    /// The token mint does not match the distributor's token mint.
    TokenMintMismatch,
}

} // verus!
