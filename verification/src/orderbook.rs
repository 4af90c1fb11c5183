//! The orderbook settlement state machine. Every externally visible
//! operation is a handler that runs atomically: it either commits all of its
//! mutations and returns the requests to hand to the external collaborators,
//! or returns an error and leaves the state unchanged. Callbacks from the
//! signer and the light client are handlers too, taking the delivered
//! outcome as an argument.

use vstd::prelude::*;
use crate::ledger::{Ledger, LedgerMap, bal_of, ledger_credit, ledger_debit};
use crate::table::{Keyed, Table};
use crate::text::{deposit_memo, hex_encode, hex_seq, str_eq, sub_memo_seq, transition_memo,
    transition_memo_seq};
use crate::types::{
    ChainType, Intent, IntentStatus, OrderbookError, PendingWithdrawal, PromiseError, SignDispatch,
    PaymentVerifyRequest, SignRequest, SignResult, SignatureEvent, SubIntent,
    TransitionExpectation, TransitionVerifyRequest, WithdrawalRecord,
};

verus! {

/// The intent invariant: the fill never exceeds the offer, the status is
/// `Filled` exactly on a complete fill, and the offered and asked amounts
/// are positive.
pub open spec fn intent_ok(it: Intent) -> bool {
    &&& it.filled_amount <= it.src_amount
    &&& (it.status == IntentStatus::Filled <==> it.filled_amount == it.src_amount)
    &&& (it.status == IntentStatus::Open || it.status == IntentStatus::Filled)
    &&& it.src_amount > 0
    &&& it.dst_amount > 0
}

/// The intents with status `Open` in a slice, in insertion order.
pub open spec fn open_filter(s: Seq<Intent>) -> Seq<Intent>
    decreases s.len(),
{
    if s.len() == 0 {
        Seq::empty()
    } else {
        open_filter(s.drop_last()) + (if s.last().status == IntentStatus::Open {
            seq![s.last()]
        } else {
            Seq::empty()
        })
    }
}

/// A sub-intent carries one of the five settlement states.
pub open spec fn sub_ok(s: SubIntent) -> bool {
    ||| s.status == IntentStatus::Taken
    ||| s.status == IntentStatus::Verifying
    ||| s.status == IntentStatus::Settled
    ||| s.status == IntentStatus::TransitionVerifying
    ||| s.status == IntentStatus::Completed
}

/// The summed amounts of the sub-intents of one parent intent.
pub open spec fn sub_amount_sum(s: Seq<SubIntent>, parent: u64) -> int
    decreases s.len(),
{
    if s.len() == 0 {
        0
    } else {
        sub_amount_sum(s.drop_last(), parent) + (if s.last().parent_intent_id == parent {
            s.last().amount as int
        } else {
            0
        })
    }
}

/// A parent that no sub-intent references has sum zero.
proof fn lemma_sub_sum_absent(s: Seq<SubIntent>, parent: u64)
    requires
        forall|j: int| 0 <= j < s.len() ==> (#[trigger] s[j].parent_intent_id) != parent,
    ensures
        sub_amount_sum(s, parent) == 0,
    decreases s.len(),
{
    if s.len() > 0 {
        assert(s[s.len() - 1].parent_intent_id != parent);
        assert forall|j: int| 0 <= j < s.drop_last().len() implies (#[trigger] s.drop_last()[j].parent_intent_id) != parent by {
            assert(s.drop_last()[j] == s[j]);
        }
        lemma_sub_sum_absent(s.drop_last(), parent);
    }
}

/// Two sub-intent lists with pointwise equal parents and amounts have the
/// same sums.
proof fn lemma_sub_sum_congruent(s1: Seq<SubIntent>, s2: Seq<SubIntent>, parent: u64)
    requires
        s1.len() == s2.len(),
        forall|j: int|
            0 <= j < s1.len() ==> (#[trigger] s2[j]).parent_intent_id == s1[j].parent_intent_id
                && s2[j].amount == s1[j].amount,
    ensures
        sub_amount_sum(s2, parent) == sub_amount_sum(s1, parent),
    decreases s1.len(),
{
    if s1.len() > 0 {
        assert forall|j: int| 0 <= j < s1.drop_last().len() implies (#[trigger] s2.drop_last()[j]).parent_intent_id == s1.drop_last()[j].parent_intent_id
            && s2.drop_last()[j].amount == s1.drop_last()[j].amount by {
            assert(s1.drop_last()[j] == s1[j] && s2.drop_last()[j] == s2[j]);
            assert(s2[j].parent_intent_id == s1[j].parent_intent_id);
        }
        lemma_sub_sum_congruent(s1.drop_last(), s2.drop_last(), parent);
        assert(s2[s1.len() - 1].parent_intent_id == s1[s1.len() - 1].parent_intent_id
            && s2[s1.len() - 1].amount == s1[s1.len() - 1].amount);
    }
}

/// An in-place status update of the sub-intent store keeps every record's
/// parent and amount.
proof fn lemma_subs_links_kept(pre: Seq<SubIntent>, post: Seq<SubIntent>, v: SubIntent)
    requires
        crate::table::distinct_keys(pre),
        post.len() == pre.len(),
        forall|j: int|
            0 <= j < pre.len() ==> (#[trigger] post[j]) == (if pre[j].skey() == v.skey() {
                v
            } else {
                pre[j]
            }),
        crate::table::map_of(pre).contains_key(v.skey()) ==> v.parent_intent_id
            == crate::table::map_of(pre)[v.skey()].parent_intent_id && v.amount
            == crate::table::map_of(pre)[v.skey()].amount,
    ensures
        forall|j: int|
            0 <= j < pre.len() ==> (#[trigger] post[j]).parent_intent_id
                == pre[j].parent_intent_id && post[j].amount == pre[j].amount,
{
    crate::table::lemma_map_of(pre);
    assert forall|j: int| 0 <= j < pre.len() implies (#[trigger] post[j]).parent_intent_id
        == pre[j].parent_intent_id && post[j].amount == pre[j].amount by {
        if pre[j].skey() == v.skey() {
            assert(crate::table::map_of(pre).contains_key(pre[j].skey()));
            assert(crate::table::map_of(pre)[pre[j].skey()] == pre[j]);
        }
    }
}

/// The orderbook state: ledger, stores, and the single identifier sequence
/// shared by intents, sub-intents and withdrawals.
pub struct Orderbook {
    pub owner: String,
    pub mpc_contract: String,
    pub light_client_contract: String,
    pub ledger: Ledger,
    pub intents: Table<Intent>,
    pub sub_intents: Table<SubIntent>,
    pub transition_expectations: Table<TransitionExpectation>,
    pub pending_withdrawals: Table<WithdrawalRecord>,
    pub next_id: u64,
}

impl Orderbook {
    /// The store and identifier discipline: distinct keys everywhere, the
    /// intent invariant, sub-intent statuses and parent links, and all
    /// identifiers below the counter and disjoint across the stores.
    pub open spec fn wf_core(&self) -> bool {
        &&& self.ledger.wf()
        &&& self.intents.wf()
        &&& self.sub_intents.wf()
        &&& self.transition_expectations.wf()
        &&& self.pending_withdrawals.wf()
        &&& forall|k: u64|
            #[trigger] self.intents.m().contains_key(k) ==> self.intents.m()[k].id == k
                && intent_ok(self.intents.m()[k]) && k < self.next_id
                && !self.sub_intents.m().contains_key(k)
                && !self.pending_withdrawals.m().contains_key(k)
        &&& forall|k: u64|
            #[trigger] self.sub_intents.m().contains_key(k) ==> self.sub_intents.m()[k].id == k
                && sub_ok(self.sub_intents.m()[k]) && k < self.next_id
                && !self.pending_withdrawals.m().contains_key(k) && self.intents.m().contains_key(
                self.sub_intents.m()[k].parent_intent_id,
            ) && self.sub_intents.m()[k].amount <= self.intents.m()[self.sub_intents.m()[k].parent_intent_id].src_amount
        &&& forall|k: u64|
            #[trigger] self.transition_expectations.m().contains_key(k)
                ==> self.transition_expectations.m()[k].sub_intent_id == k && k < self.next_id
        &&& forall|k: u64|
            #[trigger] self.pending_withdrawals.m().contains_key(k)
                ==> self.pending_withdrawals.m()[k].id == k && k < self.next_id
    }

    /// The fill accounting: every intent's fill equals the summed amounts
    /// of its sub-intents.
    pub open spec fn sums_ok(&self) -> bool {
        forall|k: u64|
            #[trigger] self.intents.m().contains_key(k) ==> sub_amount_sum(
                self.sub_intents.seq(),
                k,
            ) == self.intents.m()[k].filled_amount as int
    }

    /// Well-formedness, established by the constructor and preserved by
    /// every handler.
    pub open spec fn wf(&self) -> bool {
        self.wf_core() && self.sums_ok()
    }

    /// The ledger's abstract value.
    pub open spec fn balances(&self) -> LedgerMap {
        self.ledger.view()
    }

    /// Whether two orderbook values carry the same abstract state.
    pub open spec fn state_eq(&self, other: &Orderbook) -> bool {
        &&& self.owner == other.owner
        &&& self.mpc_contract == other.mpc_contract
        &&& self.light_client_contract == other.light_client_contract
        &&& self.balances() == other.balances()
        &&& self.intents.seq() == other.intents.seq()
        &&& self.sub_intents.seq() == other.sub_intents.seq()
        &&& self.transition_expectations.m() == other.transition_expectations.m()
        &&& self.pending_withdrawals.m() == other.pending_withdrawals.m()
        &&& self.next_id == other.next_id
    }

    /// A fresh orderbook owned by `owner`.
    pub fn new(owner: String, mpc_contract: String, light_client_contract: String) -> (r: Orderbook)
        ensures
            r.wf(),
            r.owner == owner,
            r.mpc_contract == mpc_contract,
            r.light_client_contract == light_client_contract,
            r.balances() == Map::<Seq<char>, Map<Seq<char>, u128>>::empty(),
            r.intents.seq() == Seq::<Intent>::empty(),
            r.sub_intents.seq() == Seq::<SubIntent>::empty(),
            r.transition_expectations.m() == Map::<u64, TransitionExpectation>::empty(),
            r.pending_withdrawals.m() == Map::<u64, WithdrawalRecord>::empty(),
            r.next_id == 0,
    {
        Orderbook {
            owner,
            mpc_contract,
            light_client_contract,
            ledger: Ledger::new(),
            intents: Table::new(),
            sub_intents: Table::new(),
            transition_expectations: Table::new(),
            pending_withdrawals: Table::new(),
            next_id: 0,
        }
    }

    /// Owner-only direct deposit. Credits the balance; fails with
    /// `Unauthorized` for any other caller and with `InvalidInput` when the
    /// new balance would overflow. On failure nothing changes.
    pub fn deposit_for(&mut self, caller: &str, user: &str, asset: &str, amount: u128) -> (r:
        Result<(), OrderbookError>)
        requires
            old(self).wf(),
        ensures
            final(self).wf(),
            final(self).owner == old(self).owner,
            final(self).mpc_contract == old(self).mpc_contract,
            final(self).light_client_contract == old(self).light_client_contract,
            final(self).intents.seq() == old(self).intents.seq(),
            final(self).sub_intents.seq() == old(self).sub_intents.seq(),
            final(self).transition_expectations.m() == old(self).transition_expectations.m(),
            final(self).pending_withdrawals.m() == old(self).pending_withdrawals.m(),
            final(self).next_id == old(self).next_id,
            match r {
                Ok(()) => caller@ == old(self).owner@ && bal_of(
                    old(self).balances(),
                    user@,
                    asset@,
                ) + amount <= u128::MAX && final(self).balances() == ledger_credit(
                    old(self).balances(),
                    user@,
                    asset@,
                    amount,
                ),
                Err(e) => final(self).balances() == old(self).balances() && (if e
                    == OrderbookError::Unauthorized {
                    caller@ != old(self).owner@
                } else {
                    e == OrderbookError::InvalidInput && caller@ == old(self).owner@ && bal_of(
                        old(self).balances(),
                        user@,
                        asset@,
                    ) + amount > u128::MAX
                }),
            },
    {
        if !str_eq(caller, self.owner.as_str()) {
            return Err(OrderbookError::Unauthorized);
        }
        self.ledger.credit(user, asset, amount)
    }

    /// The balance of a user in an asset; zero for absent keys.
    pub fn get_balance(&self, user: &str, asset: &str) -> (r: u128)
        requires
            self.wf(),
        ensures
            r == bal_of(self.balances(), user@, asset@),
    {
        self.ledger.get_balance(user, asset)
    }

    /// The intent with this identifier, if any.
    pub fn get_intent(&self, id: u64) -> (r: Option<Intent>)
        requires
            self.wf(),
        ensures
            match r {
                Some(it) => self.intents.m().contains_key(id) && it == self.intents.m()[id],
                None => !self.intents.m().contains_key(id),
            },
    {
        match self.intents.get(id) {
            Some(it) => Some(it.clone()),
            None => None,
        }
    }

    /// The sub-intent with this identifier, if any.
    pub fn get_sub_intent(&self, id: u64) -> (r: Option<SubIntent>)
        requires
            self.wf(),
        ensures
            match r {
                Some(s) => self.sub_intents.m().contains_key(id) && s == self.sub_intents.m()[id],
                None => !self.sub_intents.m().contains_key(id),
            },
    {
        match self.sub_intents.get(id) {
            Some(s) => Some(s.clone()),
            None => None,
        }
    }

    /// The transition expectation recorded for a sub-intent, if any.
    pub fn get_transition_expectation(&self, id: u64) -> (r: Option<TransitionExpectation>)
        requires
            self.wf(),
        ensures
            match r {
                Some(e) => self.transition_expectations.m().contains_key(id) && e
                    == self.transition_expectations.m()[id],
                None => !self.transition_expectations.m().contains_key(id),
            },
    {
        match self.transition_expectations.get(id) {
            Some(e) => Some(e.clone()),
            None => None,
        }
    }

    /// The pending withdrawal filed under this identifier, if any.
    pub fn get_pending_withdrawal(&self, id: u64) -> (r: Option<PendingWithdrawal>)
        requires
            self.wf(),
        ensures
            match r {
                Some(w) => self.pending_withdrawals.m().contains_key(id) && w
                    == self.pending_withdrawals.m()[id].withdrawal,
                None => !self.pending_withdrawals.m().contains_key(id),
            },
    {
        match self.pending_withdrawals.get(id) {
            Some(rec) => Some(rec.withdrawal.clone()),
            None => None,
        }
    }

    /// Publishes an intent: debits the maker's offered amount and files the
    /// intent as `Open` under a fresh identifier, which is returned. Fails
    /// with `NotFound` when the maker has no balance record and with
    /// `InsufficientFunds` when the offered balance is short; on failure
    /// nothing changes.
    pub fn make_intent(
        &mut self,
        caller: String,
        src_asset: String,
        src_amount: u128,
        dst_asset: String,
        dst_amount: u128,
    ) -> (r: Result<u64, OrderbookError>)
        requires
            old(self).wf(),
            src_amount > 0,
            dst_amount > 0,
            old(self).next_id < u64::MAX,
        ensures
            final(self).wf(),
            final(self).owner == old(self).owner,
            final(self).mpc_contract == old(self).mpc_contract,
            final(self).light_client_contract == old(self).light_client_contract,
            final(self).sub_intents.seq() == old(self).sub_intents.seq(),
            final(self).transition_expectations.m() == old(self).transition_expectations.m(),
            final(self).pending_withdrawals.m() == old(self).pending_withdrawals.m(),
            match r {
                Ok(id) => {
                    &&& id == old(self).next_id
                    &&& final(self).next_id == old(self).next_id + 1
                    &&& old(self).balances().contains_key(caller@)
                    &&& bal_of(old(self).balances(), caller@, src_asset@) >= src_amount
                    &&& final(self).balances() == ledger_debit(
                        old(self).balances(),
                        caller@,
                        src_asset@,
                        src_amount,
                    )
                    &&& final(self).intents.seq() == old(self).intents.seq().push(
                        Intent {
                            id,
                            maker: caller,
                            src_asset,
                            src_amount,
                            filled_amount: 0,
                            dst_asset,
                            dst_amount,
                            status: IntentStatus::Open,
                        },
                    )
                    &&& final(self).intents.m() == old(self).intents.m().insert(
                        id,
                        Intent {
                            id,
                            maker: caller,
                            src_asset,
                            src_amount,
                            filled_amount: 0,
                            dst_asset,
                            dst_amount,
                            status: IntentStatus::Open,
                        },
                    )
                },
                Err(e) => {
                    &&& final(self).state_eq(old(self))
                    &&& final(self).balances() == old(self).balances()
                    &&& (if e == OrderbookError::NotFound {
                        !old(self).balances().contains_key(caller@)
                    } else {
                        e == OrderbookError::InsufficientFunds && old(
                            self,
                        ).balances().contains_key(caller@) && bal_of(
                            old(self).balances(),
                            caller@,
                            src_asset@,
                        ) < src_amount
                    })
                },
            },
    {
        match self.ledger.debit(caller.as_str(), src_asset.as_str(), src_amount) {
            Err(e) => Err(e),
            Ok(()) => {
                let id = self.next_id;
                self.next_id = self.next_id + 1;
                let intent = Intent {
                    id,
                    maker: caller,
                    src_asset,
                    src_amount,
                    filled_amount: 0,
                    dst_asset,
                    dst_amount,
                    status: IntentStatus::Open,
                };
                proof {
                    if self.intents.m().contains_key(id) {
                        assert(id < old(self).next_id);
                    }
                }
                self.intents.insert_new(intent);
                proof {
                    self.lemma_wf_after_make(old(self), id);
                }
                Ok(id)
            },
        }
    }

    /// Fills part of an open intent outside the batch path: raises the
    /// intent's fill, marks it `Filled` on completion, and files a
    /// sub-intent in `Taken` under a fresh identifier, which is returned.
    /// No signer request is made and no expectation recorded. Fails with
    /// `NotFound` for an unknown intent, `IllegalState` for a filled one,
    /// and `InvalidInput` when the amount exceeds what remains; on failure
    /// nothing changes.
    pub fn take_intent(&mut self, caller: String, intent_id: u64, amount: u128) -> (r: Result<
        u64,
        OrderbookError,
    >)
        requires
            old(self).wf(),
            old(self).next_id < u64::MAX,
        ensures
            final(self).wf(),
            final(self).owner == old(self).owner,
            final(self).mpc_contract == old(self).mpc_contract,
            final(self).light_client_contract == old(self).light_client_contract,
            final(self).balances() == old(self).balances(),
            final(self).transition_expectations.m() == old(self).transition_expectations.m(),
            final(self).pending_withdrawals.m() == old(self).pending_withdrawals.m(),
            match r {
                Ok(sub_id) => {
                    let pre = old(self).intents.m()[intent_id];
                    let updated = Intent {
                        filled_amount: (pre.filled_amount + amount) as u128,
                        status: if pre.filled_amount + amount == pre.src_amount {
                            IntentStatus::Filled
                        } else {
                            pre.status
                        },
                        ..pre
                    };
                    &&& old(self).intents.m().contains_key(intent_id)
                    &&& pre.status != IntentStatus::Filled
                    &&& amount <= pre.src_amount - pre.filled_amount
                    &&& sub_id == old(self).next_id
                    &&& final(self).next_id == old(self).next_id + 1
                    &&& final(self).intents.m() == old(self).intents.m().insert(
                        intent_id,
                        updated,
                    )
                    &&& final(self).intents.seq().len() == old(self).intents.seq().len()
                    &&& (forall|j: int|
                        0 <= j < old(self).intents.seq().len() ==> (#[trigger] final(self).intents.seq()[j]) == (if old(self).intents.seq()[j].id == intent_id {
                            updated
                        } else {
                            old(self).intents.seq()[j]
                        }))
                    &&& final(self).sub_intents.m() == old(self).sub_intents.m().insert(
                        sub_id,
                        SubIntent {
                            id: sub_id,
                            parent_intent_id: intent_id,
                            taker: caller,
                            amount,
                            status: IntentStatus::Taken,
                        },
                    )
                    &&& final(self).sub_intents.seq() == old(self).sub_intents.seq().push(
                        SubIntent {
                            id: sub_id,
                            parent_intent_id: intent_id,
                            taker: caller,
                            amount,
                            status: IntentStatus::Taken,
                        },
                    )
                },
                Err(e) => final(self).state_eq(old(self)) && (if e == OrderbookError::NotFound {
                    !old(self).intents.m().contains_key(intent_id)
                } else {
                    let pre = old(self).intents.m()[intent_id];
                    old(self).intents.m().contains_key(intent_id) && (if e
                        == OrderbookError::IllegalState {
                        pre.status == IntentStatus::Filled
                    } else {
                        e == OrderbookError::InvalidInput && pre.status != IntentStatus::Filled
                            && amount > pre.src_amount - pre.filled_amount
                    })
                }),
            },
    {
        let intent = match self.intents.get(intent_id) {
            None => {
                return Err(OrderbookError::NotFound);
            },
            Some(it) => it.clone(),
        };
        if intent.status == IntentStatus::Filled {
            return Err(OrderbookError::IllegalState);
        }
        let remaining = intent.src_amount - intent.filled_amount;
        if amount > remaining {
            return Err(OrderbookError::InvalidInput);
        }
        let new_filled = intent.filled_amount + amount;
        let updated = Intent {
            filled_amount: new_filled,
            status: if new_filled == intent.src_amount {
                IntentStatus::Filled
            } else {
                intent.status
            },
            ..intent
        };
        self.intents.replace(updated);
        let sub_id = self.next_id;
        self.next_id = self.next_id + 1;
        let sub = SubIntent {
            id: sub_id,
            parent_intent_id: intent_id,
            taker: caller,
            amount,
            status: IntentStatus::Taken,
        };
        proof {
            if self.sub_intents.m().contains_key(sub_id) {
                assert(sub_id < old(self).next_id);
            }
        }
        self.sub_intents.insert_new(sub);
        proof {
            self.lemma_wf_after_fill(old(self), intent_id, sub_id);
        }
        Ok(sub_id)
    }

    /// Well-formedness after one fill: an intent updated in place (same
    /// identifier, assets and amounts; fill raised within bounds) and a
    /// sub-intent filed under the next identifier.
    proof fn lemma_wf_after_fill(&self, pre: &Orderbook, intent_id: u64, sub_id: u64)
        requires
            pre.wf(),
            sub_id == pre.next_id,
            pre.next_id < u64::MAX,
            self.next_id == pre.next_id + 1,
            self.ledger == pre.ledger,
            self.intents.wf(),
            self.sub_intents.wf(),
            pre.intents.m().contains_key(intent_id),
            self.intents.m() == pre.intents.m().insert(intent_id, self.intents.m()[intent_id]),
            self.intents.m()[intent_id].id == intent_id,
            intent_ok(self.intents.m()[intent_id]),
            self.intents.m()[intent_id].src_amount == pre.intents.m()[intent_id].src_amount,
            self.sub_intents.m() == pre.sub_intents.m().insert(
                sub_id,
                self.sub_intents.m()[sub_id],
            ),
            self.sub_intents.m().contains_key(sub_id),
            self.sub_intents.m()[sub_id].id == sub_id,
            sub_ok(self.sub_intents.m()[sub_id]),
            self.sub_intents.m()[sub_id].parent_intent_id == intent_id,
            self.sub_intents.m()[sub_id].amount <= self.intents.m()[intent_id].src_amount,
            self.sub_intents.seq() == pre.sub_intents.seq().push(self.sub_intents.m()[sub_id]),
            self.intents.m()[intent_id].filled_amount as int == pre.intents.m()[intent_id].filled_amount + self.sub_intents.m()[sub_id].amount,
            self.transition_expectations == pre.transition_expectations,
            self.pending_withdrawals == pre.pending_withdrawals,
        ensures
            self.wf(),
    {
        assert forall|k: u64| #[trigger] self.intents.m().contains_key(k) implies self.intents.m()[k].id
            == k && intent_ok(self.intents.m()[k]) && k < self.next_id
            && !self.sub_intents.m().contains_key(k) && !self.pending_withdrawals.m().contains_key(
            k,
        ) by {
            assert(pre.intents.m().contains_key(k));
            assert(k < pre.next_id);
            if self.sub_intents.m().contains_key(k) {
                assert(k == sub_id || pre.sub_intents.m().contains_key(k));
            }
        }
        assert forall|k: u64| #[trigger] self.sub_intents.m().contains_key(k) implies
            self.sub_intents.m()[k].id == k && sub_ok(self.sub_intents.m()[k]) && k < self.next_id
            && !self.pending_withdrawals.m().contains_key(k) && self.intents.m().contains_key(
            self.sub_intents.m()[k].parent_intent_id,
        ) && self.sub_intents.m()[k].amount <= self.intents.m()[self.sub_intents.m()[k].parent_intent_id].src_amount by {
            if k == sub_id {
                assert(self.intents.m().contains_key(intent_id));
                if self.pending_withdrawals.m().contains_key(k) {
                    assert(k < pre.next_id);
                }
            } else {
                assert(pre.sub_intents.m().contains_key(k));
                let p = pre.sub_intents.m()[k].parent_intent_id;
                assert(pre.intents.m().contains_key(p));
                if p == intent_id {
                    assert(self.intents.m()[p].src_amount == pre.intents.m()[p].src_amount);
                }
            }
        }
        assert forall|k: u64| #[trigger] self.intents.m().contains_key(k) implies sub_amount_sum(
            self.sub_intents.seq(),
            k,
        ) == self.intents.m()[k].filled_amount as int by {
            assert(pre.intents.m().contains_key(k));
            assert(self.sub_intents.seq().drop_last() =~= pre.sub_intents.seq());
            assert(self.sub_intents.seq().last() == self.sub_intents.m()[sub_id]);
        }
    }

    /// Starts a withdrawal: debits the balance, files a pending withdrawal
    /// under a fresh identifier, and returns that identifier with the signer
    /// request to dispatch; the signer outcome is delivered to `on_signed`
    /// under the same identifier. Fails with `NotFound` when the caller has
    /// no balance record and `InsufficientFunds` when the balance is short;
    /// on failure nothing changes.
    pub fn withdraw(
        &mut self,
        caller: String,
        asset: String,
        amount: u128,
        payload: [u8; 32],
        path: String,
        chain_type: ChainType,
        attached_deposit: u128,
    ) -> (r: Result<(u64, SignDispatch), OrderbookError>)
        requires
            old(self).wf(),
            old(self).next_id < u64::MAX,
        ensures
            final(self).wf(),
            final(self).owner == old(self).owner,
            final(self).mpc_contract == old(self).mpc_contract,
            final(self).light_client_contract == old(self).light_client_contract,
            final(self).intents.seq() == old(self).intents.seq(),
            final(self).sub_intents.seq() == old(self).sub_intents.seq(),
            final(self).transition_expectations.m() == old(self).transition_expectations.m(),
            match r {
                Ok((wd_id, d)) => {
                    &&& old(self).balances().contains_key(caller@)
                    &&& bal_of(old(self).balances(), caller@, asset@) >= amount
                    &&& wd_id == old(self).next_id
                    &&& final(self).next_id == old(self).next_id + 1
                    &&& final(self).balances() == ledger_debit(
                        old(self).balances(),
                        caller@,
                        asset@,
                        amount,
                    )
                    &&& final(self).pending_withdrawals.m() == old(
                        self,
                    ).pending_withdrawals.m().insert(
                        wd_id,
                        WithdrawalRecord {
                            id: wd_id,
                            withdrawal: PendingWithdrawal { user: caller, asset, amount },
                        },
                    )
                    &&& d == (SignDispatch {
                        id: wd_id,
                        chain_type,
                        request: SignRequest { payload, path, key_version: 0 },
                        attached_deposit,
                    })
                },
                Err(e) => final(self).state_eq(old(self)) && (if e == OrderbookError::NotFound {
                    !old(self).balances().contains_key(caller@)
                } else {
                    e == OrderbookError::InsufficientFunds && old(self).balances().contains_key(
                        caller@,
                    ) && bal_of(old(self).balances(), caller@, asset@) < amount
                }),
            },
    {
        match self.ledger.debit(caller.as_str(), asset.as_str(), amount) {
            Err(e) => Err(e),
            Ok(()) => {
                let wd_id = self.next_id;
                self.next_id = self.next_id + 1;
                proof {
                    if self.pending_withdrawals.m().contains_key(wd_id) {
                        assert(wd_id < old(self).next_id);
                    }
                }
                self.pending_withdrawals.insert_new(
                    WithdrawalRecord {
                        id: wd_id,
                        withdrawal: PendingWithdrawal { user: caller, asset, amount },
                    },
                );
                proof {
                    self.lemma_wf_after_withdraw(old(self), wd_id);
                }
                Ok(
                    (
                        wd_id,
                        SignDispatch {
                            id: wd_id,
                            chain_type,
                            request: SignRequest { payload, path, key_version: 0 },
                            attached_deposit,
                        },
                    ),
                )
            },
        }
    }

    /// Well-formedness after filing a pending withdrawal.
    proof fn lemma_wf_after_withdraw(&self, pre: &Orderbook, wd_id: u64)
        requires
            pre.wf(),
            wd_id == pre.next_id,
            pre.next_id < u64::MAX,
            self.next_id == pre.next_id + 1,
            self.ledger.wf(),
            self.intents == pre.intents,
            self.sub_intents == pre.sub_intents,
            self.transition_expectations == pre.transition_expectations,
            self.pending_withdrawals.wf(),
            self.pending_withdrawals.m() == pre.pending_withdrawals.m().insert(
                wd_id,
                self.pending_withdrawals.m()[wd_id],
            ),
            self.pending_withdrawals.m().contains_key(wd_id),
            self.pending_withdrawals.m()[wd_id].id == wd_id,
        ensures
            self.wf(),
    {
        assert forall|k: u64| #[trigger] self.intents.m().contains_key(k) implies self.intents.m()[k].id
            == k && intent_ok(self.intents.m()[k]) && k < self.next_id
            && !self.sub_intents.m().contains_key(k) && !self.pending_withdrawals.m().contains_key(
            k,
        ) by {
            assert(pre.intents.m().contains_key(k));
            assert(k < pre.next_id);
        }
        assert forall|k: u64| #[trigger] self.sub_intents.m().contains_key(k) implies
            self.sub_intents.m()[k].id == k && sub_ok(self.sub_intents.m()[k]) && k < self.next_id
            && !self.pending_withdrawals.m().contains_key(k) && self.intents.m().contains_key(
            self.sub_intents.m()[k].parent_intent_id,
        ) && self.sub_intents.m()[k].amount <= self.intents.m()[self.sub_intents.m()[k].parent_intent_id].src_amount by {
            assert(pre.sub_intents.m().contains_key(k));
            assert(k < pre.next_id);
        }
        assert forall|k: u64| #[trigger] self.intents.m().contains_key(k) implies sub_amount_sum(
            self.sub_intents.seq(),
            k,
        ) == self.intents.m()[k].filled_amount as int by {
            assert(pre.intents.m().contains_key(k));
        }
    }

    /// The signer callback, shared by batch settlement, retried settlement
    /// and withdrawal; the identifier picks the target. On success a
    /// sub-intent in `Verifying` moves to `Settled`, a pending withdrawal is
    /// closed, and the signature event to publish is returned with
    /// "Success". On failure a sub-intent in `Verifying` rolls back to
    /// `Taken` with its expectation removed, and a pending withdrawal is
    /// refunded and closed, with "Failed" returned; the maker credit of the
    /// original match is not reversed. The only error is `InvalidInput`, when a refund would
    /// overflow the balance; then nothing changes.
    pub fn on_signed(
        &mut self,
        id: u64,
        chain_type: ChainType,
        payload: [u8; 32],
        call_result: Result<SignResult, PromiseError>,
    ) -> (r: Result<(String, Option<SignatureEvent>), OrderbookError>)
        requires
            old(self).wf(),
        ensures
            final(self).wf(),
            final(self).owner == old(self).owner,
            final(self).mpc_contract == old(self).mpc_contract,
            final(self).light_client_contract == old(self).light_client_contract,
            final(self).intents.seq() == old(self).intents.seq(),
            final(self).next_id == old(self).next_id,
            match call_result {
                Ok(res) => match r {
                    Ok((msg, ev)) => {
                        &&& msg@ == "Success"@
                        &&& final(self).balances() == old(self).balances()
                        &&& final(self).transition_expectations.m() == old(
                            self,
                        ).transition_expectations.m()
                        &&& final(self).sub_intents.m() == (if old(
                            self,
                        ).sub_intents.m().contains_key(id) && old(self).sub_intents.m()[id].status
                            == IntentStatus::Verifying {
                            old(self).sub_intents.m().insert(
                                id,
                                SubIntent {
                                    status: IntentStatus::Settled,
                                    ..old(self).sub_intents.m()[id]
                                },
                            )
                        } else {
                            old(self).sub_intents.m()
                        })
                        &&& final(self).pending_withdrawals.m() == old(
                            self,
                        ).pending_withdrawals.m().remove(id)
                        &&& match ev {
                            Some(e) => {
                                &&& e.sub_intent_id == id
                                &&& e.chain_type == chain_type
                                &&& e.payload@ == hex_seq(payload@)
                                &&& e.big_r == res.big_r.affine_point
                                &&& e.s == res.s.scalar
                                &&& e.recovery_id == res.recovery_id
                                &&& e.transition_memo@ == transition_memo_seq(id)
                            },
                            None => false,
                        }
                    },
                    Err(_) => false,
                },
                Err(_) => {
                    let wd_hit = old(self).pending_withdrawals.m().contains_key(id);
                    let wd = old(self).pending_withdrawals.m()[id].withdrawal;
                    match r {
                        Ok((msg, ev)) => {
                            &&& msg@ == "Failed"@
                            &&& ev is None
                            &&& final(self).sub_intents.m() == (if old(
                                self,
                            ).sub_intents.m().contains_key(id) && old(self).sub_intents.m()[id].status == IntentStatus::Verifying {
                                old(self).sub_intents.m().insert(
                                    id,
                                    SubIntent {
                                        status: IntentStatus::Taken,
                                        ..old(self).sub_intents.m()[id]
                                    },
                                )
                            } else {
                                old(self).sub_intents.m()
                            })
                            &&& final(self).transition_expectations.m() == (if old(
                                self,
                            ).sub_intents.m().contains_key(id) && old(self).sub_intents.m()[id].status == IntentStatus::Verifying {
                                old(self).transition_expectations.m().remove(id)
                            } else {
                                old(self).transition_expectations.m()
                            })
                            &&& final(self).pending_withdrawals.m() == old(
                                self,
                            ).pending_withdrawals.m().remove(id)
                            &&& final(self).balances() == (if wd_hit {
                                ledger_credit(old(self).balances(), wd.user@, wd.asset@, wd.amount)
                            } else {
                                old(self).balances()
                            })
                        },
                        Err(e) => {
                            &&& e == OrderbookError::InvalidInput
                            &&& wd_hit
                            &&& bal_of(old(self).balances(), wd.user@, wd.asset@) + wd.amount
                                > u128::MAX
                            &&& final(self).state_eq(old(self))
                        },
                    }
                },
            },
    {
        match call_result {
            Ok(res) => {
                match self.sub_intents.get(id) {
                    Some(sub) => {
                        if sub.status == IntentStatus::Verifying {
                            let updated = SubIntent { status: IntentStatus::Settled, ..sub.clone() };
                            self.sub_intents.replace(updated);
        proof {
            lemma_subs_links_kept(
                old(self).sub_intents.seq(),
                self.sub_intents.seq(),
                updated,
            );
        }
                        }
                    },
                    None => {},
                }
                self.pending_withdrawals.remove(id);
                let event = SignatureEvent {
                    sub_intent_id: id,
                    chain_type,
                    payload: hex_encode(&payload),
                    big_r: res.big_r.affine_point,
                    s: res.s.scalar,
                    recovery_id: res.recovery_id,
                    transition_memo: transition_memo(id),
                };
                proof {
                    self.lemma_wf_sub_update(old(self), id);
                }
                Ok((String::from_str("Success"), Some(event)))
            },
            Err(_) => {
                let refund = match self.pending_withdrawals.get(id) {
                    Some(rec) => {
                        let cur = self.ledger.get_balance(
                            rec.withdrawal.user.as_str(),
                            rec.withdrawal.asset.as_str(),
                        );
                        if cur.checked_add(rec.withdrawal.amount).is_none() {
                            return Err(OrderbookError::InvalidInput);
                        }
                        Some(rec.withdrawal.clone())
                    },
                    None => None,
                };
                match self.sub_intents.get(id) {
                    Some(sub) => {
                        if sub.status == IntentStatus::Verifying {
                            let updated = SubIntent { status: IntentStatus::Taken, ..sub.clone() };
                            self.sub_intents.replace(updated);
        proof {
            lemma_subs_links_kept(
                old(self).sub_intents.seq(),
                self.sub_intents.seq(),
                updated,
            );
        }
                            self.transition_expectations.remove(id);
                        }
                    },
                    None => {},
                }
                match refund {
                    Some(wd) => {
                        let credited = self.ledger.credit(
                            wd.user.as_str(),
                            wd.asset.as_str(),
                            wd.amount,
                        );
                        proof {
                            assert(credited is Ok);
                        }
                        self.pending_withdrawals.remove(id);
                    },
                    None => {
                        self.pending_withdrawals.remove(id);
                    },
                }
                proof {
                    self.lemma_wf_sub_update(old(self), id);
                }
                Ok((String::from_str("Failed"), None))
            },
        }
    }

    /// Well-formedness after a signer callback: at most a sub-intent's
    /// status changed, an expectation and a withdrawal were removed, and a
    /// balance was credited.
    proof fn lemma_wf_sub_update(&self, pre: &Orderbook, id: u64)
        requires
            pre.wf(),
            self.next_id == pre.next_id,
            self.ledger.wf(),
            self.intents == pre.intents,
            self.sub_intents.wf(),
            self.transition_expectations.wf(),
            self.pending_withdrawals.wf(),
            self.sub_intents.m() == pre.sub_intents.m() || (pre.sub_intents.m().contains_key(id)
                && self.sub_intents.m() == pre.sub_intents.m().insert(
                id,
                self.sub_intents.m()[id],
            ) && self.sub_intents.m()[id].id == pre.sub_intents.m()[id].id
                && self.sub_intents.m()[id].parent_intent_id
                == pre.sub_intents.m()[id].parent_intent_id && self.sub_intents.m()[id].amount
                == pre.sub_intents.m()[id].amount && sub_ok(self.sub_intents.m()[id])),
            self.transition_expectations.m() == pre.transition_expectations.m()
                || self.transition_expectations.m() == pre.transition_expectations.m().remove(id)
                || (pre.sub_intents.m().contains_key(id) && self.transition_expectations.m()
                == pre.transition_expectations.m().insert(id, self.transition_expectations.m()[id])
                && self.transition_expectations.m().contains_key(id)
                && self.transition_expectations.m()[id].sub_intent_id == id),
            self.pending_withdrawals.m() == pre.pending_withdrawals.m()
                || self.pending_withdrawals.m() == pre.pending_withdrawals.m().remove(id),
            self.sub_intents.seq().len() == pre.sub_intents.seq().len(),
            forall|j: int|
                0 <= j < pre.sub_intents.seq().len() ==> (#[trigger] self.sub_intents.seq()[j]).parent_intent_id == pre.sub_intents.seq()[j].parent_intent_id
                    && self.sub_intents.seq()[j].amount == pre.sub_intents.seq()[j].amount,
        ensures
            self.wf(),
    {
        assert forall|k: u64| #[trigger] self.intents.m().contains_key(k) implies self.intents.m()[k].id
            == k && intent_ok(self.intents.m()[k]) && k < self.next_id
            && !self.sub_intents.m().contains_key(k) && !self.pending_withdrawals.m().contains_key(
            k,
        ) by {
            assert(pre.intents.m().contains_key(k));
            if self.sub_intents.m().contains_key(k) {
                assert(pre.sub_intents.m().contains_key(k));
            }
            if self.pending_withdrawals.m().contains_key(k) {
                assert(pre.pending_withdrawals.m().contains_key(k));
            }
        }
        assert forall|k: u64| #[trigger] self.sub_intents.m().contains_key(k) implies
            self.sub_intents.m()[k].id == k && sub_ok(self.sub_intents.m()[k]) && k < self.next_id
            && !self.pending_withdrawals.m().contains_key(k) && self.intents.m().contains_key(
            self.sub_intents.m()[k].parent_intent_id,
        ) && self.sub_intents.m()[k].amount <= self.intents.m()[self.sub_intents.m()[k].parent_intent_id].src_amount by {
            assert(pre.sub_intents.m().contains_key(k));
            if self.pending_withdrawals.m().contains_key(k) {
                assert(pre.pending_withdrawals.m().contains_key(k));
            }
        }
        assert forall|k: u64| #[trigger] self.transition_expectations.m().contains_key(k) implies
            self.transition_expectations.m()[k].sub_intent_id == k && k < self.next_id by {
            if k == id && pre.sub_intents.m().contains_key(id)
                && !pre.transition_expectations.m().contains_key(id) {
                assert(id < pre.next_id);
            } else {
                assert(pre.transition_expectations.m().contains_key(k));
            }
        }
        assert forall|k: u64| #[trigger] self.pending_withdrawals.m().contains_key(k) implies
            self.pending_withdrawals.m()[k].id == k && k < self.next_id by {
            assert(pre.pending_withdrawals.m().contains_key(k));
        }
        assert forall|k: u64| #[trigger] self.intents.m().contains_key(k) implies sub_amount_sum(
            self.sub_intents.seq(),
            k,
        ) == self.intents.m()[k].filled_amount as int by {
            lemma_sub_sum_congruent(pre.sub_intents.seq(), self.sub_intents.seq(), k);
            assert(pre.intents.m().contains_key(k));
        }
    }

    /// Restarts settlement of a sub-intent whose signing failed: only the
    /// original taker may call, and only in `Taken`. Moves the sub-intent
    /// back to `Verifying`, re-records the transition expectation from the
    /// parent intent, and returns the signer request to dispatch. On failure
    /// nothing changes.
    pub fn retry_settlement(
        &mut self,
        caller: String,
        sub_intent_id: u64,
        payload: [u8; 32],
        path: String,
        transition_chain_type: ChainType,
        attached_deposit: u128,
    ) -> (r: Result<SignDispatch, OrderbookError>)
        requires
            old(self).wf(),
        ensures
            final(self).wf(),
            final(self).owner == old(self).owner,
            final(self).mpc_contract == old(self).mpc_contract,
            final(self).light_client_contract == old(self).light_client_contract,
            final(self).balances() == old(self).balances(),
            final(self).intents.seq() == old(self).intents.seq(),
            final(self).pending_withdrawals.m() == old(self).pending_withdrawals.m(),
            final(self).next_id == old(self).next_id,
            match r {
                Ok(d) => {
                    let sub = old(self).sub_intents.m()[sub_intent_id];
                    let e = final(self).transition_expectations.m()[sub_intent_id];
                    &&& old(self).sub_intents.m().contains_key(sub_intent_id)
                    &&& sub.status == IntentStatus::Taken
                    &&& caller@ == sub.taker@
                    &&& final(self).sub_intents.m() == old(self).sub_intents.m().insert(
                        sub_intent_id,
                        SubIntent { status: IntentStatus::Verifying, ..sub },
                    )
                    &&& final(self).transition_expectations.m() == old(
                        self,
                    ).transition_expectations.m().insert(sub_intent_id, e)
                    &&& e.sub_intent_id == sub_intent_id
                    &&& e.chain_type == transition_chain_type
                    &&& e.expected_asset == old(self).intents.m()[sub.parent_intent_id].src_asset
                    &&& e.expected_amount == sub.amount
                    &&& e.expected_memo@ == transition_memo_seq(sub_intent_id)
                    &&& d == (SignDispatch {
                        id: sub_intent_id,
                        chain_type: transition_chain_type,
                        request: SignRequest { payload, path, key_version: 0 },
                        attached_deposit,
                    })
                },
                Err(e) => final(self).state_eq(old(self)) && (if e == OrderbookError::NotFound {
                    !old(self).sub_intents.m().contains_key(sub_intent_id)
                } else {
                    let sub = old(self).sub_intents.m()[sub_intent_id];
                    old(self).sub_intents.m().contains_key(sub_intent_id) && (if e
                        == OrderbookError::IllegalState {
                        sub.status != IntentStatus::Taken
                    } else {
                        e == OrderbookError::Unauthorized && sub.status == IntentStatus::Taken
                            && caller@ != sub.taker@
                    })
                }),
            },
    {
        let sub = match self.sub_intents.get(sub_intent_id) {
            None => {
                return Err(OrderbookError::NotFound);
            },
            Some(s) => s.clone(),
        };
        if sub.status != IntentStatus::Taken {
            return Err(OrderbookError::IllegalState);
        }
        if !str_eq(sub.taker.as_str(), caller.as_str()) {
            return Err(OrderbookError::Unauthorized);
        }
        let parent_src_asset = match self.intents.get(sub.parent_intent_id) {
            Some(p) => p.src_asset.clone(),
            None => {
                proof {
                    assert(false);
                }
                return Err(OrderbookError::NotFound);
            },
        };
        let updated = SubIntent { status: IntentStatus::Verifying, ..sub.clone() };
        self.sub_intents.replace(updated);
        proof {
            lemma_subs_links_kept(
                old(self).sub_intents.seq(),
                self.sub_intents.seq(),
                updated,
            );
        }
        self.transition_expectations.upsert(
            TransitionExpectation {
                sub_intent_id,
                chain_type: transition_chain_type,
                expected_asset: parent_src_asset,
                expected_amount: sub.amount,
                expected_memo: transition_memo(sub_intent_id),
            },
        );
        proof {
            self.lemma_wf_sub_update(old(self), sub_intent_id);
        }
        Ok(
            SignDispatch {
                id: sub_intent_id,
                chain_type: transition_chain_type,
                request: SignRequest { payload, path, key_version: 0 },
                attached_deposit,
            },
        )
    }

    /// Opens the proof-first settlement path for a taken sub-intent: checks
    /// the inbound payment memo, computes the expected counter-amount from
    /// the parent's posted ratio, moves the sub-intent to `Verifying`, and
    /// returns the light-client payment check to dispatch; its outcome is
    /// delivered to `on_proof_verified`. Fails with `NotFound` for an
    /// unknown sub-intent, `IllegalState` outside `Taken`, and
    /// `InvalidInput` on a memo mismatch or amount overflow; on failure
    /// nothing changes.
    pub fn submit_payment_proof(
        &mut self,
        sub_intent_id: u64,
        proof_data: Vec<u8>,
        _payload: [u8; 32],
        _path: String,
        payment_chain_type: ChainType,
        _transition_chain_type: ChainType,
        recipient: String,
        memo: String,
    ) -> (r: Result<PaymentVerifyRequest, OrderbookError>)
        requires
            old(self).wf(),
        ensures
            final(self).wf(),
            final(self).owner == old(self).owner,
            final(self).mpc_contract == old(self).mpc_contract,
            final(self).light_client_contract == old(self).light_client_contract,
            final(self).balances() == old(self).balances(),
            final(self).intents.seq() == old(self).intents.seq(),
            final(self).transition_expectations.m() == old(self).transition_expectations.m(),
            final(self).pending_withdrawals.m() == old(self).pending_withdrawals.m(),
            final(self).next_id == old(self).next_id,
            ({
                let sub = old(self).sub_intents.m()[sub_intent_id];
                let parent = old(self).intents.m()[sub.parent_intent_id];
                match r {
                    Ok(req) => {
                        &&& old(self).sub_intents.m().contains_key(sub_intent_id)
                        &&& sub.status == IntentStatus::Taken
                        &&& sub.amount * parent.dst_amount <= u128::MAX
                        &&& memo@ == sub_memo_seq(sub_intent_id)
                        &&& final(self).sub_intents.m() == old(self).sub_intents.m().insert(
                            sub_intent_id,
                            SubIntent { status: IntentStatus::Verifying, ..sub },
                        )
                        &&& req == (PaymentVerifyRequest {
                            chain_type: payment_chain_type,
                            proof_data,
                            expected_recipient: recipient,
                            expected_asset: parent.dst_asset,
                            expected_amount: ((sub.amount * parent.dst_amount) as u128
                                / parent.src_amount) as u128,
                            expected_memo: memo,
                        })
                    },
                    Err(e) => final(self).state_eq(old(self)) && (if e
                        == OrderbookError::NotFound {
                        !old(self).sub_intents.m().contains_key(sub_intent_id)
                    } else {
                        old(self).sub_intents.m().contains_key(sub_intent_id) && (if e
                            == OrderbookError::IllegalState {
                            sub.status != IntentStatus::Taken
                        } else {
                            e == OrderbookError::InvalidInput && sub.status == IntentStatus::Taken
                                && (sub.amount * parent.dst_amount > u128::MAX || memo@
                                != sub_memo_seq(sub_intent_id))
                        })
                    }),
                }
            }),
    {
        let sub = match self.sub_intents.get(sub_intent_id) {
            None => {
                return Err(OrderbookError::NotFound);
            },
            Some(s) => s.clone(),
        };
        if sub.status != IntentStatus::Taken {
            return Err(OrderbookError::IllegalState);
        }
        let parent = match self.intents.get(sub.parent_intent_id) {
            Some(p) => p.clone(),
            None => {
                proof {
                    assert(false);
                }
                return Err(OrderbookError::NotFound);
            },
        };
        let product = match sub.amount.checked_mul(parent.dst_amount) {
            Some(p) => p,
            None => {
                return Err(OrderbookError::InvalidInput);
            },
        };
        let expected_amount = product / parent.src_amount;
        let expected = crate::text::sub_memo(sub_intent_id);
        if !(memo == expected) {
            return Err(OrderbookError::InvalidInput);
        }
        let updated = SubIntent { status: IntentStatus::Verifying, ..sub };
        self.sub_intents.replace(updated);
        proof {
            lemma_subs_links_kept(
                old(self).sub_intents.seq(),
                self.sub_intents.seq(),
                updated,
            );
        }
        proof {
            self.lemma_wf_sub_update(old(self), sub_intent_id);
        }
        Ok(
            PaymentVerifyRequest {
                chain_type: payment_chain_type,
                proof_data,
                expected_recipient: recipient,
                expected_asset: parent.dst_asset,
                expected_amount,
                expected_memo: memo,
            },
        )
    }

    /// The light-client callback of the proof-first path. On a valid proof
    /// the sub-intent is set to `Verifying`, the transition expectation is
    /// re-recorded from the parent intent, and the signer request to
    /// dispatch is returned; its outcome is delivered to `on_signed`. An
    /// invalid or failed proof aborts with `ExternalFailure` and the
    /// sub-intent stays in `Verifying`; an unknown sub-intent aborts with
    /// `NotFound`. On failure nothing changes.
    pub fn on_proof_verified(
        &mut self,
        sub_intent_id: u64,
        payload: [u8; 32],
        path: String,
        transition_chain_type: ChainType,
        verify_result: Result<bool, PromiseError>,
        attached_deposit: u128,
    ) -> (r: Result<SignDispatch, OrderbookError>)
        requires
            old(self).wf(),
        ensures
            final(self).wf(),
            final(self).owner == old(self).owner,
            final(self).mpc_contract == old(self).mpc_contract,
            final(self).light_client_contract == old(self).light_client_contract,
            final(self).balances() == old(self).balances(),
            final(self).intents.seq() == old(self).intents.seq(),
            final(self).pending_withdrawals.m() == old(self).pending_withdrawals.m(),
            final(self).next_id == old(self).next_id,
            ({
                let valid = verify_result == Result::<bool, PromiseError>::Ok(true);
                match r {
                    Ok(d) => {
                        let sub = old(self).sub_intents.m()[sub_intent_id];
                        let e = final(self).transition_expectations.m()[sub_intent_id];
                        &&& valid
                        &&& old(self).sub_intents.m().contains_key(sub_intent_id)
                        &&& final(self).sub_intents.m() == old(self).sub_intents.m().insert(
                            sub_intent_id,
                            SubIntent { status: IntentStatus::Verifying, ..sub },
                        )
                        &&& final(self).transition_expectations.m() == old(
                            self,
                        ).transition_expectations.m().insert(sub_intent_id, e)
                        &&& e.sub_intent_id == sub_intent_id
                        &&& e.chain_type == transition_chain_type
                        &&& e.expected_asset == old(
                            self,
                        ).intents.m()[sub.parent_intent_id].src_asset
                        &&& e.expected_amount == sub.amount
                        &&& e.expected_memo@ == transition_memo_seq(sub_intent_id)
                        &&& d == (SignDispatch {
                            id: sub_intent_id,
                            chain_type: transition_chain_type,
                            request: SignRequest { payload, path, key_version: 0 },
                            attached_deposit,
                        })
                    },
                    Err(e) => final(self).state_eq(old(self)) && (if e
                        == OrderbookError::ExternalFailure {
                        !valid
                    } else {
                        e == OrderbookError::NotFound && valid && !old(
                            self,
                        ).sub_intents.m().contains_key(sub_intent_id)
                    }),
                }
            }),
    {
        let is_valid = match verify_result {
            Ok(v) => v,
            Err(_) => false,
        };
        if !is_valid {
            return Err(OrderbookError::ExternalFailure);
        }
        let sub = match self.sub_intents.get(sub_intent_id) {
            None => {
                return Err(OrderbookError::NotFound);
            },
            Some(s) => s.clone(),
        };
        let parent_src_asset = match self.intents.get(sub.parent_intent_id) {
            Some(p) => p.src_asset.clone(),
            None => {
                proof {
                    assert(false);
                }
                return Err(OrderbookError::NotFound);
            },
        };
        let updated = SubIntent { status: IntentStatus::Verifying, ..sub.clone() };
        self.sub_intents.replace(updated);
        proof {
            lemma_subs_links_kept(
                old(self).sub_intents.seq(),
                self.sub_intents.seq(),
                updated,
            );
        }
        self.transition_expectations.upsert(
            TransitionExpectation {
                sub_intent_id,
                chain_type: transition_chain_type,
                expected_asset: parent_src_asset,
                expected_amount: sub.amount,
                expected_memo: transition_memo(sub_intent_id),
            },
        );
        proof {
            self.lemma_wf_sub_update(old(self), sub_intent_id);
        }
        Ok(
            SignDispatch {
                id: sub_intent_id,
                chain_type: transition_chain_type,
                request: SignRequest { payload, path, key_version: 0 },
                attached_deposit,
            },
        )
    }

    /// Starts verification of the outbound transition of a settled
    /// sub-intent: moves it to `TransitionVerifying` and returns the
    /// light-client transition check, bound to the stored expectation; its
    /// outcome is delivered to `on_transition_verified`. Fails with
    /// `IllegalState` outside `Settled` and with `NotFound` for an unknown
    /// sub-intent or a missing expectation; on failure nothing changes.
    pub fn verify_transition_completion(
        &mut self,
        sub_intent_id: u64,
        proof_data: Vec<u8>,
        recipient: String,
        tx_hash: String,
    ) -> (r: Result<TransitionVerifyRequest, OrderbookError>)
        requires
            old(self).wf(),
        ensures
            final(self).wf(),
            final(self).owner == old(self).owner,
            final(self).mpc_contract == old(self).mpc_contract,
            final(self).light_client_contract == old(self).light_client_contract,
            final(self).balances() == old(self).balances(),
            final(self).intents.seq() == old(self).intents.seq(),
            final(self).transition_expectations.m() == old(self).transition_expectations.m(),
            final(self).pending_withdrawals.m() == old(self).pending_withdrawals.m(),
            final(self).next_id == old(self).next_id,
            ({
                let sub = old(self).sub_intents.m()[sub_intent_id];
                let exp = old(self).transition_expectations.m()[sub_intent_id];
                match r {
                    Ok(req) => {
                        &&& old(self).sub_intents.m().contains_key(sub_intent_id)
                        &&& sub.status == IntentStatus::Settled
                        &&& old(self).transition_expectations.m().contains_key(sub_intent_id)
                        &&& final(self).sub_intents.m() == old(self).sub_intents.m().insert(
                            sub_intent_id,
                            SubIntent { status: IntentStatus::TransitionVerifying, ..sub },
                        )
                        &&& req == (TransitionVerifyRequest {
                            chain_type: exp.chain_type,
                            proof_data,
                            expected_recipient: recipient,
                            expected_asset: exp.expected_asset,
                            expected_amount: exp.expected_amount,
                            expected_memo: exp.expected_memo,
                            expected_tx_hash: tx_hash,
                        })
                    },
                    Err(e) => final(self).state_eq(old(self)) && (if e
                        == OrderbookError::IllegalState {
                        old(self).sub_intents.m().contains_key(sub_intent_id) && sub.status
                            != IntentStatus::Settled
                    } else {
                        e == OrderbookError::NotFound && (!old(
                            self,
                        ).sub_intents.m().contains_key(sub_intent_id) || (sub.status
                            == IntentStatus::Settled && !old(
                            self,
                        ).transition_expectations.m().contains_key(sub_intent_id)))
                    }),
                }
            }),
    {
        let sub = match self.sub_intents.get(sub_intent_id) {
            None => {
                return Err(OrderbookError::NotFound);
            },
            Some(s) => s.clone(),
        };
        if sub.status != IntentStatus::Settled {
            return Err(OrderbookError::IllegalState);
        }
        let exp = match self.transition_expectations.get(sub_intent_id) {
            None => {
                return Err(OrderbookError::NotFound);
            },
            Some(e) => e.clone(),
        };
        let updated = SubIntent { status: IntentStatus::TransitionVerifying, ..sub };
        self.sub_intents.replace(updated);
        proof {
            lemma_subs_links_kept(
                old(self).sub_intents.seq(),
                self.sub_intents.seq(),
                updated,
            );
        }
        proof {
            self.lemma_wf_sub_update(old(self), sub_intent_id);
        }
        Ok(
            TransitionVerifyRequest {
                chain_type: exp.chain_type,
                proof_data,
                expected_recipient: recipient,
                expected_asset: exp.expected_asset,
                expected_amount: exp.expected_amount,
                expected_memo: exp.expected_memo,
                expected_tx_hash: tx_hash,
            },
        )
    }

    /// The light-client callback of transition verification. On a verified
    /// proof the sub-intent completes and its expectation is removed; on an
    /// invalid proof it returns to `Settled` so the check can be retried.
    /// An unknown sub-intent aborts with `NotFound` and nothing changes.
    pub fn on_transition_verified(
        &mut self,
        sub_intent_id: u64,
        _tx_hash: String,
        verify_result: Result<bool, PromiseError>,
    ) -> (r: Result<String, OrderbookError>)
        requires
            old(self).wf(),
        ensures
            final(self).wf(),
            final(self).owner == old(self).owner,
            final(self).mpc_contract == old(self).mpc_contract,
            final(self).light_client_contract == old(self).light_client_contract,
            final(self).balances() == old(self).balances(),
            final(self).intents.seq() == old(self).intents.seq(),
            final(self).pending_withdrawals.m() == old(self).pending_withdrawals.m(),
            final(self).next_id == old(self).next_id,
            ({
                let valid = verify_result == Result::<bool, PromiseError>::Ok(true);
                let sub = old(self).sub_intents.m()[sub_intent_id];
                match r {
                    Ok(msg) => {
                        &&& old(self).sub_intents.m().contains_key(sub_intent_id)
                        &&& (if valid {
                            &&& msg@ == "TransitionVerified"@
                            &&& final(self).sub_intents.m() == old(self).sub_intents.m().insert(
                                sub_intent_id,
                                SubIntent { status: IntentStatus::Completed, ..sub },
                            )
                            &&& final(self).transition_expectations.m() == old(
                                self,
                            ).transition_expectations.m().remove(sub_intent_id)
                        } else {
                            &&& msg@ == "TransitionVerifyFailed"@
                            &&& final(self).sub_intents.m() == old(self).sub_intents.m().insert(
                                sub_intent_id,
                                SubIntent { status: IntentStatus::Settled, ..sub },
                            )
                            &&& final(self).transition_expectations.m() == old(
                                self,
                            ).transition_expectations.m()
                        })
                    },
                    Err(e) => e == OrderbookError::NotFound && !old(
                        self,
                    ).sub_intents.m().contains_key(sub_intent_id) && final(self).state_eq(
                        old(self),
                    ),
                }
            }),
    {
        let is_valid = match verify_result {
            Ok(v) => v,
            Err(_) => false,
        };
        let sub = match self.sub_intents.get(sub_intent_id) {
            None => {
                return Err(OrderbookError::NotFound);
            },
            Some(s) => s.clone(),
        };
        if is_valid {
            let updated = SubIntent { status: IntentStatus::Completed, ..sub };
            self.sub_intents.replace(updated);
        proof {
            lemma_subs_links_kept(
                old(self).sub_intents.seq(),
                self.sub_intents.seq(),
                updated,
            );
        }
            self.transition_expectations.remove(sub_intent_id);
            proof {
                self.lemma_wf_sub_update(old(self), sub_intent_id);
            }
            Ok(String::from_str("TransitionVerified"))
        } else {
            let updated = SubIntent { status: IntentStatus::Settled, ..sub };
            self.sub_intents.replace(updated);
        proof {
            lemma_subs_links_kept(
                old(self).sub_intents.seq(),
                self.sub_intents.seq(),
                updated,
            );
        }
            proof {
                self.lemma_wf_sub_update(old(self), sub_intent_id);
            }
            Ok(String::from_str("TransitionVerifyFailed"))
        }
    }

    /// Checks the memo of a claimed custody deposit and returns the
    /// light-client payment check to dispatch; its outcome is delivered to
    /// `on_mpc_deposit_verified`. Fails with `InvalidInput` when the memo is
    /// not exactly the deposit memo for this user and asset. The state never
    /// changes here.
    pub fn verify_mpc_deposit(
        &self,
        user: String,
        chain_type: ChainType,
        asset: String,
        amount: u128,
        recipient: String,
        memo: String,
        proof_data: Vec<u8>,
    ) -> (r: Result<PaymentVerifyRequest, OrderbookError>)
        ensures
            match r {
                Ok(req) => memo@ == crate::text::deposit_memo_seq(user@, asset@) && req
                    == (PaymentVerifyRequest {
                    chain_type,
                    proof_data,
                    expected_recipient: recipient,
                    expected_asset: asset,
                    expected_amount: amount,
                    expected_memo: memo,
                }),
                Err(e) => e == OrderbookError::InvalidInput && memo@
                    != crate::text::deposit_memo_seq(user@, asset@),
            },
    {
        let expected = deposit_memo(user.as_str(), asset.as_str());
        if !(memo == expected) {
            return Err(OrderbookError::InvalidInput);
        }
        Ok(
            PaymentVerifyRequest {
                chain_type,
                proof_data,
                expected_recipient: recipient,
                expected_asset: asset,
                expected_amount: amount,
                expected_memo: memo,
            },
        )
    }

    /// The light-client callback of deposit verification: a valid proof
    /// credits the user's balance. An invalid or failed proof aborts with
    /// `ExternalFailure`, and a credit that would overflow the balance
    /// aborts with `InvalidInput`; on failure nothing changes.
    pub fn on_mpc_deposit_verified(
        &mut self,
        user: String,
        asset: String,
        amount: u128,
        _recipient: String,
        _memo: String,
        verify_result: Result<bool, PromiseError>,
    ) -> (r: Result<String, OrderbookError>)
        requires
            old(self).wf(),
        ensures
            final(self).wf(),
            final(self).owner == old(self).owner,
            final(self).mpc_contract == old(self).mpc_contract,
            final(self).light_client_contract == old(self).light_client_contract,
            final(self).intents.seq() == old(self).intents.seq(),
            final(self).sub_intents.seq() == old(self).sub_intents.seq(),
            final(self).transition_expectations.m() == old(self).transition_expectations.m(),
            final(self).pending_withdrawals.m() == old(self).pending_withdrawals.m(),
            final(self).next_id == old(self).next_id,
            ({
                let valid = verify_result == Result::<bool, PromiseError>::Ok(true);
                match r {
                    Ok(msg) => {
                        &&& valid
                        &&& msg@ == "MpcDepositCredited"@
                        &&& bal_of(old(self).balances(), user@, asset@) + amount <= u128::MAX
                        &&& final(self).balances() == ledger_credit(
                            old(self).balances(),
                            user@,
                            asset@,
                            amount,
                        )
                    },
                    Err(e) => final(self).balances() == old(self).balances() && (if e
                        == OrderbookError::ExternalFailure {
                        !valid
                    } else {
                        e == OrderbookError::InvalidInput && valid && bal_of(
                            old(self).balances(),
                            user@,
                            asset@,
                        ) + amount > u128::MAX
                    }),
                }
            }),
    {
        let is_valid = match verify_result {
            Ok(v) => v,
            Err(_) => false,
        };
        if !is_valid {
            return Err(OrderbookError::ExternalFailure);
        }
        match self.ledger.credit(user.as_str(), asset.as_str(), amount) {
            Ok(()) => Ok(String::from_str("MpcDepositCredited")),
            Err(e) => Err(e),
        }
    }

    /// Up to `limit` open intents starting at insertion-order position
    /// `from_index`: the `Open` entries of that slice, in order.
    pub fn get_open_intents(&self, from_index: u64, limit: u64) -> (r: Vec<Intent>)
        requires
            self.wf(),
            from_index + limit <= u64::MAX,
        ensures
            r@ == open_filter(
                self.intents.seq().subrange(
                    if from_index as int <= self.intents.seq().len() {
                        from_index as int
                    } else {
                        self.intents.seq().len() as int
                    },
                    if from_index as int + limit as int <= self.intents.seq().len() {
                        from_index as int + limit as int
                    } else {
                        self.intents.seq().len() as int
                    },
                ),
            ),
    {
        let len = self.intents.len();
        let from: usize = if from_index >= len as u64 {
            len
        } else {
            from_index as usize
        };
        let end_total = from_index + limit;
        let end: usize = if end_total >= len as u64 {
            len
        } else {
            end_total as usize
        };
        let mut out: Vec<Intent> = Vec::new();
        let mut i: usize = from;
        proof {
            assert(self.intents.seq().subrange(from as int, from as int)
                =~= Seq::<Intent>::empty());
        }
        while i < end
            invariant
                self.wf(),
                from <= i <= end <= len == self.intents.seq().len(),
                out@ == open_filter(self.intents.seq().subrange(from as int, i as int)),
            decreases end - i,
        {
            let it = self.intents.at(i);
            proof {
                assert(self.intents.seq().subrange(from as int, i + 1).drop_last()
                    =~= self.intents.seq().subrange(from as int, i as int));
                assert(self.intents.seq().subrange(from as int, i + 1).last()
                    == self.intents.seq()[i as int]);
            }
            if it.status == IntentStatus::Open {
                let c = it.clone();
                out.push(c);
            }
            proof {
                assert(out@ =~= open_filter(
                    self.intents.seq().subrange(from as int, i + 1),
                ));
            }
            i = i + 1;
        }
        out
    }

    /// Well-formedness after filing a fresh open intent.
    proof fn lemma_wf_after_make(&self, pre: &Orderbook, id: u64)
        requires
            pre.wf(),
            id == pre.next_id,
            pre.next_id < u64::MAX,
            self.next_id == pre.next_id + 1,
            self.ledger.wf(),
            self.intents.wf(),
            self.intents.m() == pre.intents.m().insert(id, self.intents.m()[id]),
            self.intents.m().contains_key(id),
            self.intents.m()[id].id == id,
            intent_ok(self.intents.m()[id]),
            self.intents.m()[id].filled_amount == 0,
            self.sub_intents == pre.sub_intents,
            self.transition_expectations == pre.transition_expectations,
            self.pending_withdrawals == pre.pending_withdrawals,
        ensures
            self.wf(),
    {
        assert forall|k: u64| #[trigger] self.intents.m().contains_key(k) implies self.intents.m()[k].id
            == k && intent_ok(self.intents.m()[k]) && k < self.next_id
            && !self.sub_intents.m().contains_key(k) && !self.pending_withdrawals.m().contains_key(
            k,
        ) by {
            if k != id {
                assert(pre.intents.m().contains_key(k));
            } else {
                if self.sub_intents.m().contains_key(k) {
                    assert(k < pre.next_id);
                }
                if self.pending_withdrawals.m().contains_key(k) {
                    assert(k < pre.next_id);
                }
            }
        }
        assert forall|k: u64| #[trigger] self.sub_intents.m().contains_key(k) implies
            self.sub_intents.m()[k].id == k && sub_ok(self.sub_intents.m()[k]) && k < self.next_id
            && !self.pending_withdrawals.m().contains_key(k) && self.intents.m().contains_key(
            self.sub_intents.m()[k].parent_intent_id,
        ) && self.sub_intents.m()[k].amount <= self.intents.m()[self.sub_intents.m()[k].parent_intent_id].src_amount by {
            assert(pre.sub_intents.m().contains_key(k));
            let p = pre.sub_intents.m()[k].parent_intent_id;
            assert(pre.intents.m().contains_key(p));
            assert(p != id);
        }
        assert forall|k: u64| #[trigger] self.intents.m().contains_key(k) implies sub_amount_sum(
            self.sub_intents.seq(),
            k,
        ) == self.intents.m()[k].filled_amount as int by {
            if k == id {
                crate::table::lemma_map_of(pre.sub_intents.records@);
                assert forall|j: int| 0 <= j < self.sub_intents.seq().len() implies (
                #[trigger] self.sub_intents.seq()[j].parent_intent_id) != id by {
                    let e = self.sub_intents.seq()[j];
                    assert(pre.sub_intents.m().contains_key(e.skey()));
                    assert(pre.sub_intents.m()[e.skey()] == e);
                    assert(pre.intents.m().contains_key(e.parent_intent_id));
                    assert(e.parent_intent_id < pre.next_id);
                }
                lemma_sub_sum_absent(self.sub_intents.seq(), id);
            } else {
                assert(pre.intents.m().contains_key(k));
            }
        }
    }
}

} // verus!
