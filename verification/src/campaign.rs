use vstd::prelude::*;

use crate::constants::DURATION;
use crate::constants::MAX_START_TIME;
use crate::distributor::handle_claim;
use crate::distributor::handle_close_claim_status;
use crate::distributor::handle_create_distributor;
use crate::distributor::handle_set_merkle_root;
use crate::distributor::handle_set_time;
use crate::distributor::handle_withdraw;
use crate::distributor::spec_claim_error;
use crate::distributor::spec_close_claim_status_error;
use crate::distributor::spec_create_distributor_error;
use crate::distributor::spec_set_merkle_root_error;
use crate::distributor::spec_set_time_error;
use crate::distributor::spec_withdraw_error;
use crate::distributor::zero_bytes32;
use crate::error::TokenDistributorError;
use crate::ledger::ClaimLedger;
use crate::merkle::digests_of;
use crate::state::ClaimStatus;
use crate::state::NonceState;
use crate::state::TokenDistributor;
use vstd::pervasive::unreached;

verus! {

/// One campaign together with what it governs: the distributor record
/// while the campaign lives, the pool it draws from, and the claim
/// records of its recipients. Claims and the opening deposit are the only
/// things that move the pool balance.
pub struct Campaign {
    distributor: Option<TokenDistributor>,
    ledger: ClaimLedger,
    pool_balance: u64,
}

impl Campaign {
    /// The distributor record; `None` once the campaign was withdrawn.
    pub closed spec fn spec_distributor(&self) -> Option<TokenDistributor> {
        self.distributor
    }

    /// The claim ledger of this campaign.
    pub closed spec fn spec_ledger(&self) -> ClaimLedger {
        self.ledger
    }

    /// The live balance of the campaign's pool.
    pub closed spec fn spec_pool_balance(&self) -> u64 {
        self.pool_balance
    }

    /// Whether the campaign still exists: withdrawal retires it.
    pub open spec fn is_open(&self) -> bool {
        self.spec_distributor() is Some
    }

    /// The distributor record of an open campaign.
    pub open spec fn distributor(&self) -> TokenDistributor
        recommends
            self.is_open(),
    {
        self.spec_distributor()->0
    }

    /// The bookkeeping invariant: the ledger names each recipient at most
    /// once, and while the campaign is open, the released total and the
    /// live pool balance partition the initial deposit.
    pub open spec fn inv(&self) -> bool {
        &&& self.spec_ledger().well_formed()
        &&& self.is_open() ==> self.distributor().total_claimed + self.spec_pool_balance()
            == self.distributor().initial_total_amount
    }

    /// Full accounting: the released total equals the sum of all
    /// recipients' cumulative claims. It holds from creation through any
    /// sequence of claims; a record erased by `close_claim_status` leaves
    /// the sum while the released total keeps the history.
    pub open spec fn fully_accounted(&self) -> bool {
        self.is_open() ==> self.distributor().total_claimed == self.spec_ledger().total()
    }


    /// The live pool balance.
    pub fn pool_balance(&self) -> (r: u64)
        ensures
            r == self.spec_pool_balance(),
    {
        self.pool_balance
    }

    /// The distributor record of an open campaign.
    pub fn distributor_record(&self) -> (r: TokenDistributor)
        requires
            self.is_open(),
        ensures
            r == self.distributor(),
    {
        match &self.distributor {
            Some(d) => *d,
            None => unreached(),
        }
    }

    /// The cumulative amount already released to a recipient.
    pub fn claimed_amount_of(&self, claimant: &[u8; 32]) -> (r: u64)
        requires
            self.inv(),
        ensures
            r == self.spec_ledger().spec_get(claimant@),
    {
        self.ledger.get(claimant)
    }

    /// Opens a campaign: draws the next sequence number, initializes the
    /// distributor record with everything zero or unset, and funds the
    /// pool with the initial deposit.
    pub fn open(
        owner_nonce: &mut NonceState,
        owner: &[u8; 32],
        operator: &[u8; 32],
        token_mint: &[u8; 32],
        token_vault: &[u8; 32],
        initial_total_amount: u64,
    ) -> (r: Result<Campaign, TokenDistributorError>)
        ensures
            match r {
                Ok(c) => {
                    &&& spec_create_distributor_error(
                        old(owner_nonce).nonce,
                        operator@,
                        initial_total_amount,
                    ) is None
                    &&& final(owner_nonce).nonce == old(owner_nonce).nonce + 1
                    &&& c.inv()
                    &&& c.fully_accounted()
                    &&& c.is_open()
                    &&& c.spec_pool_balance() == initial_total_amount
                    &&& c.distributor().nonce == final(owner_nonce).nonce
                    &&& c.distributor().owner == owner
                    &&& c.distributor().operator == operator
                    &&& c.distributor().token_mint == token_mint
                    &&& c.distributor().token_vault == token_vault
                    &&& c.distributor().initial_total_amount == initial_total_amount
                    &&& c.distributor().total_claimed == 0
                    &&& c.distributor().start_time == 0
                    &&& c.distributor().end_time == 0
                    &&& c.distributor().merkle_root@ == zero_bytes32()
                    &&& c.spec_ledger().total() == 0
                    &&& forall|k: Seq<u8>| !c.spec_ledger().spec_contains(k)
                        && c.spec_ledger().spec_get(k) == 0
                },
                Err(e) => {
                    &&& spec_create_distributor_error(
                        old(owner_nonce).nonce,
                        operator@,
                        initial_total_amount,
                    ) == Some(e)
                    &&& *final(owner_nonce) == *old(owner_nonce)
                },
            },
    {
        match handle_create_distributor(
            owner_nonce,
            owner,
            operator,
            token_mint,
            token_vault,
            initial_total_amount,
        ) {
            Ok(d) => Ok(
                Campaign {
                    distributor: Some(d),
                    ledger: ClaimLedger::new(),
                    pool_balance: initial_total_amount,
                },
            ),
            Err(e) => Err(e),
        }
    }

    /// Sets the claim window of an open campaign; the ledger and the pool
    /// are untouched.
    pub fn set_time(
        &mut self,
        operator: &[u8; 32],
        current_time: i64,
        start_time: i64,
    ) -> (r: Result<(), TokenDistributorError>)
        requires
            old(self).is_open(),
            old(self).inv(),
            current_time + MAX_START_TIME + DURATION <= i64::MAX,
        ensures
            final(self).is_open(),
            final(self).inv(),
            old(self).fully_accounted() ==> final(self).fully_accounted(),
            final(self).spec_ledger() == old(self).spec_ledger(),
            final(self).spec_pool_balance() == old(self).spec_pool_balance(),
            match r {
                Ok(()) => {
                    &&& spec_set_time_error(
                        old(self).distributor(),
                        operator@,
                        current_time,
                        start_time,
                    ) is None
                    &&& final(self).distributor() == TokenDistributor {
                        start_time: start_time,
                        end_time: (start_time + DURATION) as i64,
                        ..old(self).distributor()
                    }
                    &&& final(self).distributor().end_time == start_time + DURATION
                },
                Err(e) => {
                    &&& spec_set_time_error(
                        old(self).distributor(),
                        operator@,
                        current_time,
                        start_time,
                    ) == Some(e)
                    &&& final(self).distributor() == old(self).distributor()
                },
            },
    {
        let mut d = match self.distributor {
            Some(d0) => d0,
            None => unreached(),
        };
        let r = handle_set_time(&mut d, operator, current_time, start_time);
        self.distributor = Some(d);
        r
    }

    /// Publishes or replaces the commitment of an open campaign; the
    /// ledger and the pool are untouched.
    pub fn set_merkle_root(
        &mut self,
        operator: &[u8; 32],
        merkle_root: [u8; 32],
    ) -> (r: Result<(), TokenDistributorError>)
        requires
            old(self).is_open(),
            old(self).inv(),
        ensures
            final(self).is_open(),
            final(self).inv(),
            old(self).fully_accounted() ==> final(self).fully_accounted(),
            final(self).spec_ledger() == old(self).spec_ledger(),
            final(self).spec_pool_balance() == old(self).spec_pool_balance(),
            match r {
                Ok(()) => {
                    &&& spec_set_merkle_root_error(
                        old(self).distributor(),
                        operator@,
                        merkle_root@,
                    ) is None
                    &&& final(self).distributor() == TokenDistributor {
                        merkle_root: merkle_root,
                        ..old(self).distributor()
                    }
                },
                Err(e) => {
                    &&& spec_set_merkle_root_error(
                        old(self).distributor(),
                        operator@,
                        merkle_root@,
                    ) == Some(e)
                    &&& final(self).distributor() == old(self).distributor()
                },
            },
    {
        let mut d = match self.distributor {
            Some(d0) => d0,
            None => unreached(),
        };
        let r = handle_set_merkle_root(&mut d, operator, merkle_root);
        self.distributor = Some(d);
        r
    }

    /// Releases the pending amount of a recipient's entitlement against
    /// the current commitment and moves it out of the pool. The claim
    /// record is overwritten to the proved ceiling, so a later root update
    /// can raise an entitlement without paying prior claims twice.
    pub fn claim(
        &mut self,
        claimant: &[u8; 32],
        current_time: i64,
        max_amount: u64,
        proof_nodes: Vec<[u8; 32]>,
    ) -> (r: Result<u64, TokenDistributorError>)
        requires
            old(self).is_open(),
            old(self).inv(),
        ensures
            final(self).is_open(),
            final(self).inv(),
            old(self).fully_accounted() ==> final(self).fully_accounted(),
            match r {
                Ok(pending) => {
                    &&& spec_claim_error(
                        old(self).distributor(),
                        old(self).spec_ledger().spec_get(claimant@),
                        claimant@,
                        old(self).spec_pool_balance(),
                        current_time,
                        max_amount,
                        digests_of(proof_nodes@),
                    ) is None
                    &&& pending == max_amount - old(self).spec_ledger().spec_get(claimant@)
                    &&& pending > 0
                    &&& final(self).spec_ledger().spec_get(claimant@) == max_amount
                    &&& final(self).spec_ledger().spec_contains(claimant@)
                    &&& forall|k: Seq<u8>| k != claimant@ ==> #[trigger] final(self).spec_ledger().spec_get(k) == old(self).spec_ledger().spec_get(k)
                    &&& final(self).distributor() == TokenDistributor {
                        total_claimed: (old(self).distributor().total_claimed + pending) as u64,
                        ..old(self).distributor()
                    }
                    &&& final(self).distributor().total_claimed
                        == old(self).distributor().total_claimed + pending
                    &&& final(self).spec_pool_balance() == old(self).spec_pool_balance()
                        - pending
                },
                Err(e) => {
                    &&& spec_claim_error(
                        old(self).distributor(),
                        old(self).spec_ledger().spec_get(claimant@),
                        claimant@,
                        old(self).spec_pool_balance(),
                        current_time,
                        max_amount,
                        digests_of(proof_nodes@),
                    ) == Some(e)
                    &&& final(self).distributor() == old(self).distributor()
                    &&& final(self).spec_ledger() == old(self).spec_ledger()
                    &&& final(self).spec_pool_balance() == old(self).spec_pool_balance()
                },
            },
    {
        let mut d = match self.distributor {
            Some(d0) => d0,
            None => unreached(),
        };
        let claimed = self.ledger.get(claimant);
        let mut claim_status = ClaimStatus { claimed_amount: claimed };
        let vault_balance = self.pool_balance;
        match handle_claim(
            &mut d,
            &mut claim_status,
            claimant,
            vault_balance,
            current_time,
            max_amount,
            proof_nodes,
        ) {
            Ok(pending) => {
                self.distributor = Some(d);
                self.ledger.set(claimant, claim_status.claimed_amount);
                self.pool_balance = vault_balance - pending;
                Ok(pending)
            },
            Err(e) => Err(e),
        }
    }

    /// Reconciles an ended campaign: hands the full live pool balance
    /// back to the owner, empties the pool, and retires the distributor
    /// record. Afterwards the campaign is no longer open, and no window,
    /// commitment or claim operation can reach it.
    pub fn withdraw(&mut self, owner: &[u8; 32], current_time: i64) -> (r: Result<
        u64,
        TokenDistributorError,
    >)
        requires
            old(self).is_open(),
            old(self).inv(),
        ensures
            final(self).inv(),
            match r {
                Ok(remaining) => {
                    &&& spec_withdraw_error(
                        old(self).distributor(),
                        owner@,
                        current_time,
                    ) is None
                    &&& remaining == old(self).spec_pool_balance()
                    &&& !final(self).is_open()
                    &&& final(self).spec_pool_balance() == 0
                    &&& final(self).spec_ledger() == old(self).spec_ledger()
                },
                Err(e) => {
                    &&& spec_withdraw_error(
                        old(self).distributor(),
                        owner@,
                        current_time,
                    ) == Some(e)
                    &&& final(self).is_open()
                    &&& final(self).distributor() == old(self).distributor()
                    &&& final(self).spec_ledger() == old(self).spec_ledger()
                    &&& final(self).spec_pool_balance() == old(self).spec_pool_balance()
                },
            },
    {
        let d = match self.distributor {
            Some(d0) => d0,
            None => unreached(),
        };
        match handle_withdraw(&d, owner, self.pool_balance, current_time) {
            Ok(remaining) => {
                self.distributor = None;
                self.pool_balance = 0;
                Ok(remaining)
            },
            Err(e) => Err(e),
        }
    }

    /// Closes a recipient's claim record: permitted once the campaign's
    /// window has elapsed, or once the campaign was withdrawn. The record
    /// is erased and its cumulative amount returned; the released total
    /// keeps the history, so the full-accounting relation ends with it.
    pub fn close_claim_status(&mut self, claimant: &[u8; 32], current_time: i64) -> (r: Result<
        u64,
        TokenDistributorError,
    >)
        requires
            old(self).inv(),
            old(self).spec_ledger().spec_contains(claimant@),
        ensures
            final(self).inv(),
            final(self).spec_distributor() == old(self).spec_distributor(),
            final(self).spec_pool_balance() == old(self).spec_pool_balance(),
            match r {
                Ok(claimed) => {
                    &&& spec_close_claim_status_error(
                        old(self).spec_distributor(),
                        current_time,
                    ) is None
                    &&& claimed == old(self).spec_ledger().spec_get(claimant@)
                    &&& !final(self).spec_ledger().spec_contains(claimant@)
                    &&& final(self).spec_ledger().total() == old(self).spec_ledger().total()
                        - claimed
                    &&& forall|k: Seq<u8>| k != claimant@ ==> #[trigger] final(self).spec_ledger().spec_get(k) == old(self).spec_ledger().spec_get(k)
                },
                Err(e) => {
                    &&& spec_close_claim_status_error(
                        old(self).spec_distributor(),
                        current_time,
                    ) == Some(e)
                    &&& final(self).spec_ledger() == old(self).spec_ledger()
                },
            },
    {
        let claimed = self.ledger.get(claimant);
        let claim_status = ClaimStatus { claimed_amount: claimed };
        let r = match &self.distributor {
            Some(d) => handle_close_claim_status(Some(d), current_time, &claim_status),
            None => handle_close_claim_status(None, current_time, &claim_status),
        };
        match r {
            Ok(claimed_amount) => {
                self.ledger.close(claimant);
                Ok(claimed_amount)
            },
            Err(e) => Err(e),
        }
    }
}


/// The sum of the pending amounts a recipient's claims release: each
/// claim against a ceiling releases the difference to the cumulative
/// amount before it, as `handle_claim` ensures.
pub open spec fn pending_sum(ceilings: Seq<u64>, prev: u64) -> int
    decreases ceilings.len(),
{
    if ceilings.len() == 0 {
        0
    } else {
        (ceilings[0] - prev) + pending_sum(ceilings.drop_first(), ceilings[0])
    }
}

/// For a sequence of claims by one recipient with strictly increasing
/// ceilings, the pending amounts released sum to the final cumulative
/// value: incremental claiming pays each entitlement exactly once.
pub proof fn lemma_claims_telescope(ceilings: Seq<u64>, prev: u64)
    requires
        ceilings.len() > 0 ==> prev < ceilings[0],
        forall|i: int| 0 <= i < ceilings.len() - 1 ==> #[trigger] ceilings[i] < ceilings[i + 1],
    ensures
        pending_sum(ceilings, prev) == if ceilings.len() == 0 {
            0
        } else {
            ceilings.last() - prev
        },
    decreases ceilings.len(),
{
    if ceilings.len() > 0 {
        let rest = ceilings.drop_first();
        assert(forall|i: int| 0 <= i < rest.len() ==> rest[i] == ceilings[i + 1]);
        lemma_claims_telescope(rest, ceilings[0]);
        if rest.len() > 0 {
            assert(rest.last() == ceilings.last());
        }
    }
}

} // verus!
