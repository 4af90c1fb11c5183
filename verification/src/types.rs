//! The data model: intents, sub-intents, expectations, withdrawals, the
//! request and response surfaces of the two external collaborators, and the
//! error kinds.

use vstd::prelude::*;
use crate::table::Keyed;

verus! {

/// Shared status space of intents and sub-intents. Intents use only
/// `Open` and `Filled`; sub-intents use the remaining five states.
#[derive(Clone, Copy, PartialEq, Eq, Structural, Debug)]
pub enum IntentStatus {
    Open,
    Filled,
    Taken,
    Verifying,
    Settled,
    TransitionVerifying,
    Completed,
}

/// External chain that a transfer or proof refers to.
#[derive(Clone, Copy, PartialEq, Eq, Structural, Debug)]
pub enum ChainType {
    BTC,
    ETH,
    SOL,
}

/// Failure of an external collaborator, delivered to a callback.
#[derive(Clone, Copy, PartialEq, Eq, Structural, Debug)]
pub enum PromiseError {
    Failed,
}

/// The error kinds of the orderbook operations.
#[derive(Clone, Copy, PartialEq, Eq, Structural, Debug)]
pub enum OrderbookError {
    /// Caller identity mismatch for an owner-only or taker-only operation.
    Unauthorized,
    /// A ledger debit would go negative.
    InsufficientFunds,
    /// The target entity is in a state that does not admit the operation.
    IllegalState,
    /// A referenced entity is absent.
    NotFound,
    /// Memo mismatch, bad batch size, price or conservation violation, or
    /// arithmetic overflow.
    InvalidInput,
    /// An external collaborator delivered a failure.
    ExternalFailure,
}

/// A standing offer by `maker` to trade `src_amount` of `src_asset` for at
/// least `dst_amount` of `dst_asset`.
pub struct Intent {
    pub id: u64,
    pub maker: String,
    pub src_asset: String,
    pub src_amount: u128,
    pub filled_amount: u128,
    pub dst_asset: String,
    pub dst_amount: u128,
    pub status: IntentStatus,
}

/// A per-taker slice of an intent; the unit of settlement.
pub struct SubIntent {
    pub id: u64,
    pub parent_intent_id: u64,
    pub taker: String,
    pub amount: u128,
    pub status: IntentStatus,
}

/// What must appear on the destination chain for a sub-intent.
pub struct TransitionExpectation {
    pub sub_intent_id: u64,
    pub chain_type: ChainType,
    pub expected_asset: String,
    pub expected_amount: u128,
    pub expected_memo: String,
}

/// A withdrawal whose outbound transaction awaits the signer; refunded on
/// signer failure.
pub struct PendingWithdrawal {
    pub user: String,
    pub asset: String,
    pub amount: u128,
}

/// One leg of a batch match submitted by a solver.
pub struct MatchParams {
    pub intent_id: u64,
    pub fill_amount: u128,
    pub get_amount: u128,
    /// Hash of the external-chain transaction to be signed.
    pub payload: [u8; 32],
    /// Signer key derivation path.
    pub path: String,
    /// Chain that the outbound transition targets.
    pub transition_chain_type: ChainType,
}

/// A request to the external signer.
pub struct SignRequest {
    pub payload: [u8; 32],
    pub path: String,
    pub key_version: u32,
}

/// A signer request together with the callback identity and the deposit
/// forwarded to the signer; the runtime performs the call and later delivers
/// the outcome to `Orderbook::on_signed` under the same `id`.
pub struct SignDispatch {
    pub id: u64,
    pub chain_type: ChainType,
    pub request: SignRequest,
    pub attached_deposit: u128,
}

/// A `verify_payment_proof` request to the light client; the runtime performs
/// the call and delivers the boolean outcome to the recorded callback.
pub struct PaymentVerifyRequest {
    pub chain_type: ChainType,
    pub proof_data: Vec<u8>,
    pub expected_recipient: String,
    pub expected_asset: String,
    pub expected_amount: u128,
    pub expected_memo: String,
}

/// A `verify_transition_proof` request to the light client.
pub struct TransitionVerifyRequest {
    pub chain_type: ChainType,
    pub proof_data: Vec<u8>,
    pub expected_recipient: String,
    pub expected_asset: String,
    pub expected_amount: u128,
    pub expected_memo: String,
    pub expected_tx_hash: String,
}

/// The signature produced by the signer.
pub struct SignResult {
    pub big_r: AffinePoint,
    pub s: Scalar,
    pub recovery_id: u8,
}

/// Affine point of a signature, as a hex string.
pub struct AffinePoint {
    pub affine_point: String,
}

/// Scalar of a signature, as a hex string.
pub struct Scalar {
    pub scalar: String,
}

/// Emitted on a successful signer callback, for relayers to broadcast.
pub struct SignatureEvent {
    pub sub_intent_id: u64,
    pub chain_type: ChainType,
    /// Hex-encoded signing payload.
    pub payload: String,
    pub big_r: String,
    pub s: String,
    pub recovery_id: u8,
    pub transition_memo: String,
}

impl Clone for Intent {
    fn clone(&self) -> (r: Self)
        ensures
            r == *self,
    {
        Intent {
            id: self.id,
            maker: self.maker.clone(),
            src_asset: self.src_asset.clone(),
            src_amount: self.src_amount,
            filled_amount: self.filled_amount,
            dst_asset: self.dst_asset.clone(),
            dst_amount: self.dst_amount,
            status: self.status,
        }
    }
}

impl Clone for SubIntent {
    fn clone(&self) -> (r: Self)
        ensures
            r == *self,
    {
        SubIntent {
            id: self.id,
            parent_intent_id: self.parent_intent_id,
            taker: self.taker.clone(),
            amount: self.amount,
            status: self.status,
        }
    }
}

impl Clone for TransitionExpectation {
    fn clone(&self) -> (r: Self)
        ensures
            r == *self,
    {
        TransitionExpectation {
            sub_intent_id: self.sub_intent_id,
            chain_type: self.chain_type,
            expected_asset: self.expected_asset.clone(),
            expected_amount: self.expected_amount,
            expected_memo: self.expected_memo.clone(),
        }
    }
}

impl Clone for PendingWithdrawal {
    fn clone(&self) -> (r: Self)
        ensures
            r == *self,
    {
        PendingWithdrawal {
            user: self.user.clone(),
            asset: self.asset.clone(),
            amount: self.amount,
        }
    }
}

impl Clone for SignRequest {
    fn clone(&self) -> (r: Self)
        ensures
            r == *self,
    {
        SignRequest { payload: self.payload, path: self.path.clone(), key_version: self.key_version }
    }
}

/// A pending withdrawal together with the identifier it was filed under.
pub struct WithdrawalRecord {
    pub id: u64,
    pub withdrawal: PendingWithdrawal,
}

impl Clone for WithdrawalRecord {
    fn clone(&self) -> (r: Self)
        ensures
            r == *self,
    {
        WithdrawalRecord { id: self.id, withdrawal: self.withdrawal.clone() }
    }
}

impl Keyed for Intent {
    open spec fn skey(&self) -> u64 {
        self.id
    }

    fn key(&self) -> u64 {
        self.id
    }

    fn dup(&self) -> Self {
        self.clone()
    }
}

impl Keyed for SubIntent {
    open spec fn skey(&self) -> u64 {
        self.id
    }

    fn key(&self) -> u64 {
        self.id
    }

    fn dup(&self) -> Self {
        self.clone()
    }
}

impl Keyed for TransitionExpectation {
    open spec fn skey(&self) -> u64 {
        self.sub_intent_id
    }

    fn key(&self) -> u64 {
        self.sub_intent_id
    }

    fn dup(&self) -> Self {
        self.clone()
    }
}

impl Keyed for WithdrawalRecord {
    open spec fn skey(&self) -> u64 {
        self.id
    }

    fn key(&self) -> u64 {
        self.id
    }

    fn dup(&self) -> Self {
        self.clone()
    }
}

} // verus!
