//! The light client: per-chain finalized heights and the predicates that
//! decide whether a submitted proof is accepted. Parsing raw proof bytes
//! into a [`PaymentProof`] is the caller's concern; the decision on a
//! parsed proof is verified here.

use vstd::prelude::*;
use crate::text::{eq_fold, fold_seq, str_eq};
use crate::types::{ChainType, OrderbookError};

verus! {

/// A parsed external-chain payment proof.
pub struct PaymentProof {
    pub chain_type: ChainType,
    pub tx_hash: String,
    pub recipient: String,
    pub asset: String,
    pub amount: u128,
    pub memo: String,
    pub block_height: u64,
    pub inclusion_proof: Vec<String>,
}

/// Finalized heights per chain, settable only by the owner. A proof is
/// accepted only up to the finalized height of its chain.
pub struct LightClient {
    pub owner_id: String,
    pub btc_height: u64,
    pub eth_height: u64,
    pub sol_height: u64,
}

/// The finalized height stored for a chain (zero until set).
pub open spec fn spec_height(lc: &LightClient, chain: ChainType) -> u64 {
    match chain {
        ChainType::BTC => lc.btc_height,
        ChainType::ETH => lc.eth_height,
        ChainType::SOL => lc.sol_height,
    }
}

/// Whether a parsed payment proof is accepted: the chain matches, the
/// recipient exactly, the asset up to ASCII case, the amount and memo
/// exactly, the inclusion proof is non-empty, and the proof's height is
/// positive and at most the chain's (positive) finalized height. A proof
/// that did not parse is never accepted.
pub open spec fn payment_proof_accepted(
    lc: &LightClient,
    chain_type: ChainType,
    parsed: Option<PaymentProof>,
    recipient: Seq<char>,
    asset: Seq<char>,
    amount: u128,
    memo: Seq<char>,
) -> bool {
    match parsed {
        None => false,
        Some(p) => {
            &&& p.chain_type == chain_type
            &&& p.recipient@ == recipient
            &&& fold_seq(p.asset@) == fold_seq(asset)
            &&& p.amount == amount
            &&& p.memo@ == memo
            &&& p.inclusion_proof@.len() > 0
            &&& spec_height(lc, p.chain_type) > 0
            &&& p.block_height > 0
            &&& p.block_height <= spec_height(lc, p.chain_type)
        },
    }
}

/// Whether a parsed transition proof is accepted: as for a payment proof,
/// with the transaction hash also matched exactly.
pub open spec fn transition_proof_accepted(
    lc: &LightClient,
    chain_type: ChainType,
    parsed: Option<PaymentProof>,
    recipient: Seq<char>,
    asset: Seq<char>,
    amount: u128,
    memo: Seq<char>,
    tx_hash: Seq<char>,
) -> bool {
    match parsed {
        None => false,
        Some(p) => p.tx_hash@ == tx_hash && payment_proof_accepted(
            lc,
            chain_type,
            parsed,
            recipient,
            asset,
            amount,
            memo,
        ),
    }
}

/// The storage key of a chain's finalized height.
pub open spec fn chain_key_seq(chain: ChainType) -> Seq<char> {
    match chain {
        ChainType::BTC => "BTC"@,
        ChainType::ETH => "ETH"@,
        ChainType::SOL => "SOL"@,
    }
}

/// The storage key of a chain's finalized height.
pub fn chain_key(chain_type: &ChainType) -> (r: String)
    ensures
        r@ == chain_key_seq(*chain_type),
{
    match chain_type {
        ChainType::BTC => String::from_str("BTC"),
        ChainType::ETH => String::from_str("ETH"),
        ChainType::SOL => String::from_str("SOL"),
    }
}

impl LightClient {
    /// A fresh light client owned by `owner_id`, with no chain finalized.
    pub fn new(owner_id: String) -> (r: Self)
        ensures
            r.owner_id == owner_id,
            r.btc_height == 0,
            r.eth_height == 0,
            r.sol_height == 0,
    {
        LightClient { owner_id, btc_height: 0, eth_height: 0, sol_height: 0 }
    }

    /// Sets a chain's finalized height; only the owner may call.
    pub fn set_finalized_height(
        &mut self,
        caller: &str,
        chain_type: ChainType,
        finalized_height: u64,
    ) -> (r: Result<(), OrderbookError>)
        ensures
            match r {
                Ok(()) => caller@ == old(self).owner_id@ && final(self).owner_id == old(
                    self,
                ).owner_id && spec_height(final(self), chain_type) == finalized_height && forall|
                    c: ChainType,
                |
                    c != chain_type ==> spec_height(final(self), c) == spec_height(old(self), c),
                Err(e) => e == OrderbookError::Unauthorized && caller@ != old(self).owner_id@
                    && *final(self) == *old(self),
            },
    {
        if !str_eq(caller, self.owner_id.as_str()) {
            return Err(OrderbookError::Unauthorized);
        }
        match chain_type {
            ChainType::BTC => {
                self.btc_height = finalized_height;
            },
            ChainType::ETH => {
                self.eth_height = finalized_height;
            },
            ChainType::SOL => {
                self.sol_height = finalized_height;
            },
        }
        Ok(())
    }

    /// The finalized height of a chain; zero until set.
    pub fn get_finalized_height(&self, chain_type: ChainType) -> (r: u64)
        ensures
            r == spec_height(self, chain_type),
    {
        match chain_type {
            ChainType::BTC => self.btc_height,
            ChainType::ETH => self.eth_height,
            ChainType::SOL => self.sol_height,
        }
    }

    /// Decides a payment proof against the expected fields and the finalized
    /// height; `proof` is the parse result of the submitted bytes.
    pub fn verify_payment_proof(
        &self,
        chain_type: ChainType,
        parsed: Option<PaymentProof>,
        expected_recipient: &str,
        expected_asset: &str,
        expected_amount: u128,
        expected_memo: &str,
    ) -> (r: bool)
        ensures
            r == payment_proof_accepted(
                self,
                chain_type,
                parsed,
                expected_recipient@,
                expected_asset@,
                expected_amount,
                expected_memo@,
            ),
    {
        let p = match parsed {
            None => {
                return false;
            },
            Some(p) => p,
        };
        if p.chain_type != chain_type {
            return false;
        }
        if !str_eq(p.recipient.as_str(), expected_recipient) {
            return false;
        }
        if !eq_fold(p.asset.as_str(), expected_asset) {
            return false;
        }
        if p.amount != expected_amount {
            return false;
        }
        if !str_eq(p.memo.as_str(), expected_memo) {
            return false;
        }
        if p.inclusion_proof.len() == 0 {
            return false;
        }
        let finalized_height = self.get_finalized_height(p.chain_type);
        if finalized_height == 0 {
            return false;
        }
        if p.block_height == 0 {
            return false;
        }
        if p.block_height > finalized_height {
            return false;
        }
        true
    }

    /// Decides a transition proof: a payment proof whose transaction hash
    /// must also match.
    pub fn verify_transition_proof(
        &self,
        chain_type: ChainType,
        parsed: Option<PaymentProof>,
        expected_recipient: &str,
        expected_asset: &str,
        expected_amount: u128,
        expected_memo: &str,
        expected_tx_hash: &str,
    ) -> (r: bool)
        ensures
            r == transition_proof_accepted(
                self,
                chain_type,
                parsed,
                expected_recipient@,
                expected_asset@,
                expected_amount,
                expected_memo@,
                expected_tx_hash@,
            ),
    {
        let hash_matches = match &parsed {
            None => false,
            Some(p) => str_eq(p.tx_hash.as_str(), expected_tx_hash),
        };
        let accepted = self.verify_payment_proof(
            chain_type,
            parsed,
            expected_recipient,
            expected_asset,
            expected_amount,
            expected_memo,
        );
        hash_matches && accepted
    }
}

} // verus!
