//! The laws the library states of itself, proved from the definitions and
//! contracts of the other modules.

use vstd::prelude::*;
use crate::batch::{batch_eval, lemma_batch_eval_props, net_demand, net_supply};
use crate::ledger::{LedgerMap, bal_of, ledger_credit, ledger_debit};
use crate::orderbook::{Orderbook, intent_ok, sub_amount_sum};
use crate::text::fold_seq;
use crate::types::{Intent, IntentStatus, MatchParams, SignDispatch};

verus! {

/// Every balance at rest is non-negative: amounts are unsigned, so any
/// lookup of the ledger yields at least zero.
pub proof fn lemma_balance_nonnegative(ob: &Orderbook, user: Seq<char>, asset: Seq<char>)
    ensures
        bal_of(ob.balances(), user, asset) >= 0,
{
}

/// Every intent of a well-formed orderbook keeps its fill within its
/// offer, and is `Filled` exactly when the offer is completely filled.
pub proof fn lemma_intent_invariant(ob: &Orderbook, id: u64)
    requires
        ob.wf(),
        ob.intents.m().contains_key(id),
    ensures
        0 <= ob.intents.m()[id].filled_amount <= ob.intents.m()[id].src_amount,
        ob.intents.m()[id].status == IntentStatus::Filled <==> ob.intents.m()[id].filled_amount
            == ob.intents.m()[id].src_amount,
{
}

/// The total amount the legs of a batch supply of one asset: the fills of
/// the legs whose intent offers that asset, up to ASCII case.
pub open spec fn supply_sum(intents: Map<u64, Intent>, ms: Seq<MatchParams>, a: Seq<char>) -> int
    decreases ms.len(),
{
    if ms.len() == 0 {
        0
    } else {
        supply_sum(intents, ms.drop_last(), a) + (if intents.contains_key(ms.last().intent_id)
            && fold_seq(intents[ms.last().intent_id].src_asset@) == a {
            ms.last().fill_amount as int
        } else {
            0
        })
    }
}

/// The total amount the legs of a batch demand of one asset: the payouts
/// of the legs whose intent asks for that asset, up to ASCII case.
pub open spec fn demand_sum(intents: Map<u64, Intent>, ms: Seq<MatchParams>, a: Seq<char>) -> int
    decreases ms.len(),
{
    if ms.len() == 0 {
        0
    } else {
        demand_sum(intents, ms.drop_last(), a) + (if intents.contains_key(ms.last().intent_id)
            && fold_seq(intents[ms.last().intent_id].dst_asset@) == a {
            ms.last().get_amount as int
        } else {
            0
        })
    }
}

/// The running totals of a successful evaluation are exactly the summed
/// fills and payouts per asset (assets of an intent never change during
/// the batch).
pub proof fn lemma_nets_are_sums(
    intents: Map<u64, Intent>,
    balances: LedgerMap,
    ms: Seq<MatchParams>,
    a: Seq<char>,
)
    requires
        forall|k: u64|
            #[trigger] intents.contains_key(k) ==> intents[k].id == k && intent_ok(intents[k]),
        batch_eval(intents, balances, ms) is Ok,
    ensures
        net_supply(batch_eval(intents, balances, ms)->Ok_0.2, a) == supply_sum(intents, ms, a),
        net_demand(batch_eval(intents, balances, ms)->Ok_0.2, a) == demand_sum(intents, ms, a),
    decreases ms.len(),
{
    if ms.len() > 0 {
        let prev = batch_eval(intents, balances, ms.drop_last());
        assert(prev is Ok);
        lemma_nets_are_sums(intents, balances, ms.drop_last(), a);
        lemma_batch_eval_props(intents, balances, ms.drop_last());
        let i1 = prev->Ok_0.0;
        let n1 = prev->Ok_0.2;
        let m = ms.last();
        assert(i1.contains_key(m.intent_id));
        assert(intents.contains_key(m.intent_id));
        assert(i1[m.intent_id].src_asset == intents[m.intent_id].src_asset);
        assert(i1[m.intent_id].dst_asset == intents[m.intent_id].dst_asset);
    }
}

/// For every asset of an accepted batch, the summed fills of the legs that
/// supply the asset cover the summed payouts of the legs that demand it.
pub proof fn lemma_batch_conservation(
    intents: Map<u64, Intent>,
    balances: LedgerMap,
    ms: Seq<MatchParams>,
    a: Seq<char>,
)
    requires
        forall|k: u64|
            #[trigger] intents.contains_key(k) ==> intents[k].id == k && intent_ok(intents[k]),
        batch_eval(intents, balances, ms) is Ok,
        net_supply(batch_eval(intents, balances, ms)->Ok_0.2, a) >= net_demand(
            batch_eval(intents, balances, ms)->Ok_0.2,
            a,
        ),
    ensures
        supply_sum(intents, ms, a) >= demand_sum(intents, ms, a),
{
    lemma_nets_are_sums(intents, balances, ms, a);
}

/// Identifiers are allocated strictly increasingly: an allocation hands
/// out the counter's current value and advances it past the value handed
/// out, no handler ever lowers the counter, and a later allocation hands
/// out the counter's value then. So of two successive allocations the
/// later identifier is strictly larger.
pub proof fn lemma_ids_strictly_increase(id1: u64, counter_after: u64, counter_later: u64, id2: u64)
    requires
        id1 < counter_after,
        counter_after <= counter_later,
        id2 >= counter_later,
    ensures
        id2 > id1,
{
}

/// Each sub-intent that a batch creates in `Verifying` has exactly one
/// signer dispatch in the batch's result, filed under its own identifier:
/// the dispatch identifiers are consecutive from the first fresh
/// identifier, hence pairwise distinct.
pub proof fn lemma_batch_dispatches_unique(ds: Seq<SignDispatch>, base: u64, n: int)
    requires
        0 <= n,
        base + n <= u64::MAX,
        ds.len() == n,
        forall|j: int| 0 <= j < n ==> (#[trigger] ds[j]).id == (base + j) as u64,
    ensures
        forall|j1: int, j2: int|
            0 <= j1 < j2 < n ==> (#[trigger] ds[j1]).id != (#[trigger] ds[j2]).id,
{
}

/// A refunded withdrawal restores every balance: debiting a user and then
/// crediting the same user, asset and amount leaves all balances of the
/// ledger as they were.
pub proof fn lemma_withdraw_refund(
    m: LedgerMap,
    user: Seq<char>,
    asset: Seq<char>,
    x: u128,
    u2: Seq<char>,
    a2: Seq<char>,
)
    requires
        m.contains_key(user),
        bal_of(m, user, asset) >= x,
    ensures
        bal_of(ledger_credit(ledger_debit(m, user, asset, x), user, asset, x), u2, a2) == bal_of(
            m,
            u2,
            a2,
        ),
{
    let d = ledger_debit(m, user, asset, x);
    let c = ledger_credit(d, user, asset, x);
    assert(bal_of(d, user, asset) == bal_of(m, user, asset) - x);
    if u2 == user {
        if fold_seq(a2) == fold_seq(asset) {
            assert(bal_of(c, u2, a2) == bal_of(m, user, asset));
        } else {
            assert(c[user].contains_key(fold_seq(a2)) == m[user].contains_key(fold_seq(a2)));
        }
    }
}

/// Every intent's fill equals the summed amounts of its sub-intents, so
/// the sibling amounts of a parent never exceed the parent's offer.
pub proof fn lemma_sibling_sum(ob: &Orderbook, id: u64)
    requires
        ob.wf(),
        ob.intents.m().contains_key(id),
    ensures
        sub_amount_sum(ob.sub_intents.seq(), id) == ob.intents.m()[id].filled_amount as int,
        sub_amount_sum(ob.sub_intents.seq(), id) <= ob.intents.m()[id].src_amount as int,
{
}

/// A signer failure after a match rolls the sub-intent back without
/// touching any balance: a sub-intent identifier is never a pending
/// withdrawal identifier, so the failure path of `on_signed` moves the
/// sub-intent to `Taken` and removes its expectation while every balance,
/// including the maker's credit from the match, stays as it was.
pub proof fn lemma_rollback_keeps_maker_credit(ob: &Orderbook, id: u64)
    requires
        ob.wf(),
        ob.sub_intents.m().contains_key(id),
    ensures
        !ob.pending_withdrawals.m().contains_key(id),
{
}

} // verus!
