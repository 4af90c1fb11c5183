//! The batch match validator: an atomic multi-leg fill. Each leg is checked
//! against the maker's posted price and accumulated into a per-asset
//! supply/demand account; the whole batch commits only if every leg passes
//! and, for every asset, aggregate supply covers aggregate demand.

use vstd::prelude::*;
use crate::ledger::{LedgerMap, bal_of, ledger_credit};
use crate::orderbook::{Orderbook, intent_ok, sub_amount_sum, sub_ok};
use crate::text::{eq_fold, fold_seq, transition_memo, transition_memo_seq};
use crate::types::{
    Intent, IntentStatus, MatchParams, OrderbookError, SignDispatch, SignRequest,
    SubIntent, TransitionExpectation,
};

verus! {

/// Per-asset running totals of a batch: what the legs supply of the asset
/// and what they demand of it.
pub type NetMap = Map<Seq<char>, (u128, u128)>;

/// Aggregate amount supplied of an asset so far (zero when untouched).
pub open spec fn net_supply(nets: NetMap, a: Seq<char>) -> u128 {
    if nets.contains_key(a) {
        nets[a].0
    } else {
        0
    }
}

/// Aggregate amount demanded of an asset so far (zero when untouched).
pub open spec fn net_demand(nets: NetMap, a: Seq<char>) -> u128 {
    if nets.contains_key(a) {
        nets[a].1
    } else {
        0
    }
}

/// The effect of one leg on the intent store, the ledger and the running
/// totals, or the error that rejects the batch. Checks run in order:
/// the intent must exist and be open, the fill must not exceed what
/// remains, the realized price must be at least the maker's posted ratio,
/// and every amount computation must fit in 128 bits.
pub open spec fn batch_leg(
    intents: Map<u64, Intent>,
    balances: LedgerMap,
    nets: NetMap,
    m: MatchParams,
) -> Result<(Map<u64, Intent>, LedgerMap, NetMap), OrderbookError> {
    if !intents.contains_key(m.intent_id) {
        Err(OrderbookError::NotFound)
    } else {
        let it = intents[m.intent_id];
        if it.status != IntentStatus::Open {
            Err(OrderbookError::IllegalState)
        } else if m.fill_amount > it.src_amount - it.filled_amount {
            Err(OrderbookError::InvalidInput)
        } else if m.get_amount * it.src_amount > u128::MAX {
            Err(OrderbookError::InvalidInput)
        } else if m.fill_amount * it.dst_amount > u128::MAX {
            Err(OrderbookError::InvalidInput)
        } else if m.get_amount * it.src_amount < m.fill_amount * it.dst_amount {
            Err(OrderbookError::InvalidInput)
        } else {
            let src = fold_seq(it.src_asset@);
            let dst = fold_seq(it.dst_asset@);
            if net_supply(nets, src) + m.fill_amount > u128::MAX {
                Err(OrderbookError::InvalidInput)
            } else {
                let nets1 = nets.insert(
                    src,
                    ((net_supply(nets, src) + m.fill_amount) as u128, net_demand(nets, src)),
                );
                if net_demand(nets1, dst) + m.get_amount > u128::MAX {
                    Err(OrderbookError::InvalidInput)
                } else {
                    let nets2 = nets1.insert(
                        dst,
                        (net_supply(nets1, dst), (net_demand(nets1, dst) + m.get_amount) as u128),
                    );
                    if bal_of(balances, it.maker@, it.dst_asset@) + m.get_amount > u128::MAX {
                        Err(OrderbookError::InvalidInput)
                    } else {
                        let updated = Intent {
                            filled_amount: (it.filled_amount + m.fill_amount) as u128,
                            status: if it.filled_amount + m.fill_amount == it.src_amount {
                                IntentStatus::Filled
                            } else {
                                it.status
                            },
                            ..it
                        };
                        Ok(
                            (
                                intents.insert(m.intent_id, updated),
                                ledger_credit(balances, it.maker@, it.dst_asset@, m.get_amount),
                                nets2,
                            ),
                        )
                    }
                }
            }
        }
    }
}

/// The legs of a batch applied left to right, or the first error.
pub open spec fn batch_eval(
    intents: Map<u64, Intent>,
    balances: LedgerMap,
    ms: Seq<MatchParams>,
) -> Result<(Map<u64, Intent>, LedgerMap, NetMap), OrderbookError>
    decreases ms.len(),
{
    if ms.len() == 0 {
        Ok((intents, balances, Map::empty()))
    } else {
        match batch_eval(intents, balances, ms.drop_last()) {
            Err(e) => Err(e),
            Ok((i1, b1, n1)) => batch_leg(i1, b1, n1, ms.last()),
        }
    }
}

/// A successful evaluation keeps the intent key set, changes only the fill
/// and status of each intent, keeps every intent well-formed, and admits
/// each leg's fill within its parent's offer.
pub proof fn lemma_batch_eval_props(
    intents: Map<u64, Intent>,
    balances: LedgerMap,
    ms: Seq<MatchParams>,
)
    requires
        forall|k: u64|
            #[trigger] intents.contains_key(k) ==> intents[k].id == k && intent_ok(intents[k]),
    ensures
        match batch_eval(intents, balances, ms) {
            Ok((i1, b1, n1)) => {
                &&& i1.dom() == intents.dom()
                &&& forall|k: u64|
                    #[trigger] i1.contains_key(k) ==> i1[k].id == k && intent_ok(i1[k])
                        && i1[k].maker == intents[k].maker && i1[k].src_asset
                        == intents[k].src_asset && i1[k].src_amount == intents[k].src_amount
                        && i1[k].dst_asset == intents[k].dst_asset && i1[k].dst_amount
                        == intents[k].dst_amount
                &&& forall|j: int|
                    0 <= j < ms.len() ==> i1.contains_key(#[trigger] ms[j].intent_id)
                        && ms[j].fill_amount <= i1[ms[j].intent_id].src_amount
            },
            Err(_) => true,
        },
    decreases ms.len(),
{
    if ms.len() > 0 {
        lemma_batch_eval_props(intents, balances, ms.drop_last());
        match batch_eval(intents, balances, ms.drop_last()) {
            Err(_) => {},
            Ok((i1, b1, n1)) => {
                match batch_leg(i1, b1, n1, ms.last()) {
                    Err(_) => {},
                    Ok((i2, b2, n2)) => {
                        assert(i2.dom() =~= i1.dom());
                        assert forall|j: int| 0 <= j < ms.len() implies i2.contains_key(
                            #[trigger] ms[j].intent_id,
                        ) && ms[j].fill_amount <= i2[ms[j].intent_id].src_amount by {
                            if j < ms.len() - 1 {
                                assert(ms.drop_last()[j] == ms[j]);
                            }
                        }
                    },
                }
            },
        }
    }
}

/// An evaluation that fails on a prefix fails on the whole batch with the
/// same error.
pub proof fn lemma_batch_eval_extends_err(
    intents: Map<u64, Intent>,
    balances: LedgerMap,
    ms: Seq<MatchParams>,
    k: int,
)
    requires
        0 <= k <= ms.len(),
        batch_eval(intents, balances, ms.subrange(0, k)) is Err,
    ensures
        batch_eval(intents, balances, ms) == batch_eval(intents, balances, ms.subrange(0, k)),
    decreases ms.len() - k,
{
    if k < ms.len() {
        assert(ms.subrange(0, k + 1).drop_last() =~= ms.subrange(0, k));
        assert(batch_eval(intents, balances, ms.subrange(0, k + 1)) == batch_eval(
            intents,
            balances,
            ms.subrange(0, k),
        ));
        lemma_batch_eval_extends_err(intents, balances, ms, k + 1);
    } else {
        assert(ms.subrange(0, k) =~= ms);
    }
}

/// The summed fills of the legs that reference one intent.
pub open spec fn fills_sum(ms: Seq<MatchParams>, id: u64) -> int
    decreases ms.len(),
{
    if ms.len() == 0 {
        0
    } else {
        fills_sum(ms.drop_last(), id) + (if ms.last().intent_id == id {
            ms.last().fill_amount as int
        } else {
            0
        })
    }
}

/// A successful evaluation raises each intent's fill by exactly the summed
/// fills of the legs that reference it.
pub proof fn lemma_batch_eval_fills(
    intents: Map<u64, Intent>,
    balances: LedgerMap,
    ms: Seq<MatchParams>,
)
    requires
        forall|k: u64|
            #[trigger] intents.contains_key(k) ==> intents[k].id == k && intent_ok(intents[k]),
    ensures
        match batch_eval(intents, balances, ms) {
            Ok((i1, b1, n1)) => forall|k: u64|
                #[trigger] i1.contains_key(k) ==> i1[k].filled_amount as int
                    == intents[k].filled_amount + fills_sum(ms, k),
            Err(_) => true,
        },
    decreases ms.len(),
{
    if ms.len() > 0 {
        lemma_batch_eval_fills(intents, balances, ms.drop_last());
        lemma_batch_eval_props(intents, balances, ms.drop_last());
        match batch_eval(intents, balances, ms.drop_last()) {
            Err(_) => {},
            Ok((i1, b1, n1)) => {
                match batch_leg(i1, b1, n1, ms.last()) {
                    Err(_) => {},
                    Ok((i2, b2, n2)) => {
                        assert forall|k: u64| #[trigger] i2.contains_key(k) implies
                            i2[k].filled_amount as int == intents[k].filled_amount + fills_sum(
                            ms,
                            k,
                        ) by {
                            assert(i1.contains_key(k));
                            assert(intents.contains_key(k));
                        }
                    },
                }
            },
        }
    }
}

/// One running-totals entry of the batch working state.
pub struct NetEntry {
    pub asset: String,
    pub supply: u128,
    pub demand: u128,
}

/// The running totals as a map keyed by folded asset name.
pub open spec fn nets_map(s: Seq<NetEntry>) -> NetMap
    decreases s.len(),
{
    if s.len() == 0 {
        Map::empty()
    } else {
        nets_map(s.drop_last()).insert(
            fold_seq(s.last().asset@),
            (s.last().supply, s.last().demand),
        )
    }
}

/// Whether the folded asset names of the entries are pairwise distinct.
pub open spec fn distinct_nets(s: Seq<NetEntry>) -> bool {
    forall|i: int, j: int|
        0 <= i < j < s.len() ==> fold_seq(#[trigger] s[i].asset@) != fold_seq(
            #[trigger] s[j].asset@,
        )
}

/// A folded asset key is in the totals exactly when some entry carries it;
/// under distinct keys the totals send each entry's key to its sums.
pub proof fn lemma_nets_map(s: Seq<NetEntry>)
    ensures
        forall|k: Seq<char>|
            #[trigger] nets_map(s).contains_key(k) <==> exists|i: int|
                0 <= i < s.len() && fold_seq(#[trigger] s[i].asset@) == k,
        distinct_nets(s) ==> forall|i: int|
            0 <= i < s.len() ==> nets_map(s).contains_key(fold_seq(#[trigger] s[i].asset@))
                && nets_map(s)[fold_seq(s[i].asset@)] == (s[i].supply, s[i].demand),
    decreases s.len(),
{
    if s.len() > 0 {
        let t = s.drop_last();
        lemma_nets_map(t);
        assert forall|k: Seq<char>| #[trigger] nets_map(s).contains_key(k) implies exists|i: int|
            0 <= i < s.len() && fold_seq(#[trigger] s[i].asset@) == k by {
            if k == fold_seq(s.last().asset@) {
                assert(fold_seq(s[s.len() - 1].asset@) == k);
            } else {
                assert(nets_map(t).contains_key(k));
                let i = choose|i: int| 0 <= i < t.len() && fold_seq(#[trigger] t[i].asset@) == k;
                assert(t[i] == s[i]);
                assert(fold_seq(s[i].asset@) == k);
            }
        }
        assert forall|k: Seq<char>|
            (exists|i: int| 0 <= i < s.len() && fold_seq(#[trigger] s[i].asset@) == k)
            implies nets_map(s).contains_key(k) by {
            let i = choose|i: int| 0 <= i < s.len() && fold_seq(#[trigger] s[i].asset@) == k;
            if i < s.len() - 1 {
                assert(fold_seq(t[i].asset@) == k);
                assert(nets_map(t).contains_key(k));
            } else {
                assert(fold_seq(s.last().asset@) == k);
            }
        }
        if distinct_nets(s) {
            assert(distinct_nets(t));
            assert forall|i: int| 0 <= i < s.len() implies nets_map(s).contains_key(
                fold_seq(#[trigger] s[i].asset@),
            ) && nets_map(s)[fold_seq(s[i].asset@)] == (s[i].supply, s[i].demand) by {
                if i < s.len() - 1 {
                    assert(t[i] == s[i]);
                    assert(fold_seq(s[i].asset@) != fold_seq(s.last().asset@));
                }
            }
        }
    }
}

/// Position of the totals entry for an asset, by folded comparison.
fn find_net(nets: &Vec<NetEntry>, asset: &str) -> (r: Option<usize>)
    ensures
        match r {
            Some(i) => i < nets@.len() && fold_seq(nets@[i as int].asset@) == fold_seq(asset@),
            None => forall|j: int|
                0 <= j < nets@.len() ==> fold_seq(#[trigger] nets@[j].asset@) != fold_seq(asset@),
        },
{
    let n = nets.len();
    let mut i: usize = 0;
    while i < n
        invariant
            i <= n == nets@.len(),
            forall|j: int| 0 <= j < i ==> fold_seq(#[trigger] nets@[j].asset@) != fold_seq(asset@),
        decreases n - i,
    {
        if eq_fold(nets[i].asset.as_str(), asset) {
            return Some(i);
        }
        i = i + 1;
    }
    None
}

/// Adds `fill` to the supply total of `asset`, or fails on overflow, in
/// which case the totals are unchanged.
fn add_supply(nets: &mut Vec<NetEntry>, asset: &str, fill: u128) -> (r: Result<(), OrderbookError>)
    requires
        distinct_nets(old(nets)@),
    ensures
        distinct_nets(final(nets)@),
        match r {
            Ok(()) => net_supply(nets_map(old(nets)@), fold_seq(asset@)) + fill <= u128::MAX
                && nets_map(final(nets)@) == nets_map(old(nets)@).insert(
                fold_seq(asset@),
                (
                    (net_supply(nets_map(old(nets)@), fold_seq(asset@)) + fill) as u128,
                    net_demand(nets_map(old(nets)@), fold_seq(asset@)),
                ),
            ),
            Err(e) => e == OrderbookError::InvalidInput && net_supply(
                nets_map(old(nets)@),
                fold_seq(asset@),
            ) + fill > u128::MAX && final(nets)@ == old(nets)@,
        },
{
    proof {
        lemma_nets_map(nets@);
    }
    match find_net(nets, asset) {
        Some(i) => {
            let cur = nets[i].supply;
            proof {
                assert(nets_map(nets@)[fold_seq(asset@)] == (nets@[i as int].supply, nets@[i as int].demand));
            }
            match cur.checked_add(fill) {
                None => Err(OrderbookError::InvalidInput),
                Some(new_supply) => {
                    let e = NetEntry {
                        asset: nets[i].asset.clone(),
                        supply: new_supply,
                        demand: nets[i].demand,
                    };
                    proof {
                        lemma_nets_map_update(nets@, i as int, e);
                    }
                    nets.set(i, e);
                    Ok(())
                },
            }
        },
        None => {
            nets.push(NetEntry { asset: String::from_str(asset), supply: fill, demand: 0 });
            proof {
                assert(final(nets)@.drop_last() =~= old(nets)@);
                assert forall|a: int, b: int| 0 <= a < b < nets@.len() implies fold_seq(
                    #[trigger] nets@[a].asset@,
                ) != fold_seq(#[trigger] nets@[b].asset@) by {
                    if b == nets@.len() - 1 {
                        assert(fold_seq(nets@[a].asset@) != fold_seq(asset@));
                    }
                }
            }
            Ok(())
        },
    }
}

/// Adds `get` to the demand total of `asset`, or fails on overflow, in
/// which case the totals are unchanged.
fn add_demand(nets: &mut Vec<NetEntry>, asset: &str, get: u128) -> (r: Result<(), OrderbookError>)
    requires
        distinct_nets(old(nets)@),
    ensures
        distinct_nets(final(nets)@),
        match r {
            Ok(()) => net_demand(nets_map(old(nets)@), fold_seq(asset@)) + get <= u128::MAX
                && nets_map(final(nets)@) == nets_map(old(nets)@).insert(
                fold_seq(asset@),
                (
                    net_supply(nets_map(old(nets)@), fold_seq(asset@)),
                    (net_demand(nets_map(old(nets)@), fold_seq(asset@)) + get) as u128,
                ),
            ),
            Err(e) => e == OrderbookError::InvalidInput && net_demand(
                nets_map(old(nets)@),
                fold_seq(asset@),
            ) + get > u128::MAX && final(nets)@ == old(nets)@,
        },
{
    proof {
        lemma_nets_map(nets@);
    }
    match find_net(nets, asset) {
        Some(i) => {
            let cur = nets[i].demand;
            proof {
                assert(nets_map(nets@)[fold_seq(asset@)] == (nets@[i as int].supply, nets@[i as int].demand));
            }
            match cur.checked_add(get) {
                None => Err(OrderbookError::InvalidInput),
                Some(new_demand) => {
                    let e = NetEntry {
                        asset: nets[i].asset.clone(),
                        supply: nets[i].supply,
                        demand: new_demand,
                    };
                    proof {
                        lemma_nets_map_update(nets@, i as int, e);
                    }
                    nets.set(i, e);
                    Ok(())
                },
            }
        },
        None => {
            nets.push(NetEntry { asset: String::from_str(asset), supply: 0, demand: get });
            proof {
                assert(final(nets)@.drop_last() =~= old(nets)@);
                assert forall|a: int, b: int| 0 <= a < b < nets@.len() implies fold_seq(
                    #[trigger] nets@[a].asset@,
                ) != fold_seq(#[trigger] nets@[b].asset@) by {
                    if b == nets@.len() - 1 {
                        assert(fold_seq(nets@[a].asset@) != fold_seq(asset@));
                    }
                }
            }
            Ok(())
        },
    }
}

impl Orderbook {
    /// Atomically fills a batch of two to six legs submitted by a solver.
    /// Each leg raises its intent's fill, pays the maker the counter-amount
    /// at once, files a sub-intent in `Verifying` and a transition
    /// expectation, all under fresh identifiers; the returned dispatches
    /// carry one signer request per leg, the attached deposit divided
    /// equally among them, and their outcomes are delivered to `on_signed`.
    /// The batch is rejected as a whole — with nothing changed — when the
    /// size is out of range, any leg references a missing or non-open
    /// intent, overfills, or pays under the maker's posted ratio, any
    /// amount overflows, or some asset's aggregate demand exceeds its
    /// aggregate supply.
    pub fn batch_match_intents(
        &mut self,
        solver: String,
        matches: Vec<MatchParams>,
        attached_deposit: u128,
    ) -> (r: Result<Vec<SignDispatch>, OrderbookError>)
        requires
            old(self).wf(),
            old(self).next_id + 6 <= u64::MAX,
        ensures
            final(self).wf(),
            final(self).owner == old(self).owner,
            final(self).mpc_contract == old(self).mpc_contract,
            final(self).light_client_contract == old(self).light_client_contract,
            match r {
                Ok(ds) => {
                    let n = matches@.len() as int;
                    let base = old(self).next_id;
                    let ev = batch_eval(old(self).intents.m(), old(self).balances(), matches@);
                    &&& 2 <= n <= 6
                    &&& ev is Ok
                    &&& final(self).intents.m() == ev->Ok_0.0
                    &&& final(self).balances() == ev->Ok_0.1
                    &&& (forall|a: Seq<char>|
                        net_supply(ev->Ok_0.2, a) >= net_demand(ev->Ok_0.2, a))
                    &&& final(self).intents.seq().len() == old(self).intents.seq().len()
                    &&& (forall|j: int|
                        0 <= j < old(self).intents.seq().len() ==> (#[trigger] final(self).intents.seq()[j]).id == old(self).intents.seq()[j].id)
                    &&& final(self).next_id == base + n
                    &&& (forall|j: int|
                        0 <= j < n ==> final(self).sub_intents.m().contains_key(
                            ((base + j) as u64),
                        ) && final(self).sub_intents.m()[((base + j) as u64)] == (SubIntent {
                            id: ((base + j) as u64),
                            parent_intent_id: (#[trigger] matches@[j]).intent_id,
                            taker: solver,
                            amount: matches@[j].fill_amount,
                            status: IntentStatus::Verifying,
                        }))
                    &&& (forall|kk: u64|
                        !(base <= kk < base + n) ==> ((#[trigger] final(self).sub_intents.m().contains_key(kk)) <==> old(self).sub_intents.m().contains_key(kk)) && (old(
                            self,
                        ).sub_intents.m().contains_key(kk) ==> final(self).sub_intents.m()[kk]
                            == old(self).sub_intents.m()[kk]))
                    &&& (forall|j: int|
                        0 <= j < n ==> final(self).transition_expectations.m().contains_key(
                            ((base + j) as u64),
                        ) && {
                            let e = final(self).transition_expectations.m()[((base + j) as u64)];
                            &&& e.sub_intent_id == ((base + j) as u64)
                            &&& e.chain_type == (#[trigger] matches@[j]).transition_chain_type
                            &&& old(self).intents.m().contains_key(matches@[j].intent_id)
                            &&& e.expected_asset == old(
                                self,
                            ).intents.m()[matches@[j].intent_id].src_asset
                            &&& e.expected_amount == matches@[j].fill_amount
                            &&& e.expected_memo@ == transition_memo_seq(((base + j) as u64))
                        })
                    &&& (forall|kk: u64|
                        !(base <= kk < base + n) ==> ((#[trigger] final(self).transition_expectations.m().contains_key(kk)) <==> old(
                            self,
                        ).transition_expectations.m().contains_key(kk)) && (old(
                            self,
                        ).transition_expectations.m().contains_key(kk) ==> final(self).transition_expectations.m()[kk]
                            == old(self).transition_expectations.m()[kk]))
                    &&& final(self).pending_withdrawals.m() == old(self).pending_withdrawals.m()
                    &&& ds@.len() == n
                    &&& (forall|j: int|
                        0 <= j < n ==> ds@[j] == (SignDispatch {
                            id: ((base + j) as u64),
                            chain_type: (#[trigger] matches@[j]).transition_chain_type,
                            request: SignRequest {
                                payload: matches@[j].payload,
                                path: matches@[j].path,
                                key_version: 0,
                            },
                            attached_deposit: attached_deposit / (n as u128),
                        }))
                },
                Err(e) => {
                    let n = matches@.len() as int;
                    &&& final(self).state_eq(old(self))
                    &&& (if n < 2 || n > 6 {
                        e == OrderbookError::InvalidInput
                    } else {
                        match batch_eval(old(self).intents.m(), old(self).balances(), matches@) {
                            Err(e2) => e == e2,
                            Ok((i1, b1, nets)) => e == OrderbookError::InvalidInput && exists|
                                a: Seq<char>,
                            | net_supply(nets, a) < (#[trigger] net_demand(nets, a)),
                        }
                    })
                },
            },
    {
        let n = matches.len();
        if n < 2 || n > 6 {
            return Err(OrderbookError::InvalidInput);
        }
        let deposit_share = attached_deposit / (n as u128);

        let mut w_intents = self.intents.dup();
        let mut w_ledger = self.ledger.dup();
        let mut w_nets: Vec<NetEntry> = Vec::new();
        let mut k: usize = 0;
        proof {
            assert(matches@.subrange(0, 0) =~= Seq::<MatchParams>::empty());
        }
        while k < n
            invariant
                old(self).wf(),
                *self == *old(self),
                k <= n == matches@.len(),
                2 <= n <= 6,
                w_intents.wf(),
                w_ledger.wf(),
                distinct_nets(w_nets@),
                batch_eval(old(self).intents.m(), old(self).balances(), matches@.subrange(0, k as int))
                    == Ok::<_, OrderbookError>((w_intents.m(), w_ledger.view(), nets_map(w_nets@))),
                w_intents.seq().len() == old(self).intents.seq().len(),
                forall|j: int|
                    0 <= j < w_intents.seq().len() ==> (#[trigger] w_intents.seq()[j]).id == old(
                        self,
                    ).intents.seq()[j].id,
            decreases n - k,
        {
            let ghost gi = w_intents.m();
            let ghost gb = w_ledger.view();
            let ghost gn = nets_map(w_nets@);
            let ghost prefix = matches@.subrange(0, k as int);
            let ghost prefix1 = matches@.subrange(0, k as int + 1);
            proof {
                assert(prefix1.drop_last() =~= prefix);
                assert(prefix1.last() == matches@[k as int]);
            }
            let m = &matches[k];
            let it = match w_intents.get(m.intent_id) {
                None => {
                    proof {
                        assert(batch_eval(old(self).intents.m(), old(self).balances(), prefix1)
                            == Err::<(Map<u64, Intent>, LedgerMap, NetMap), _>(OrderbookError::NotFound));
                        lemma_batch_eval_extends_err(
                            old(self).intents.m(),
                            old(self).balances(),
                            matches@,
                            k as int + 1,
                        );
                    }
                    return Err(OrderbookError::NotFound);
                },
                Some(found) => found.clone(),
            };
            if it.status != IntentStatus::Open {
                proof {
                    lemma_batch_eval_extends_err(
                        old(self).intents.m(),
                        old(self).balances(),
                        matches@,
                        k as int + 1,
                    );
                }
                return Err(OrderbookError::IllegalState);
            }
            proof {
                crate::table::lemma_map_of(w_intents.records@);
                lemma_batch_eval_props(old(self).intents.m(), old(self).balances(), prefix);
                assert(intent_ok(it));
            }
            let remaining = it.src_amount - it.filled_amount;
            if m.fill_amount > remaining {
                proof {
                    lemma_batch_eval_extends_err(
                        old(self).intents.m(),
                        old(self).balances(),
                        matches@,
                        k as int + 1,
                    );
                }
                return Err(OrderbookError::InvalidInput);
            }
            let lhs = match m.get_amount.checked_mul(it.src_amount) {
                Some(v) => v,
                None => {
                    proof {
                        lemma_batch_eval_extends_err(
                            old(self).intents.m(),
                            old(self).balances(),
                            matches@,
                            k as int + 1,
                        );
                    }
                    return Err(OrderbookError::InvalidInput);
                },
            };
            let rhs = match m.fill_amount.checked_mul(it.dst_amount) {
                Some(v) => v,
                None => {
                    proof {
                        lemma_batch_eval_extends_err(
                            old(self).intents.m(),
                            old(self).balances(),
                            matches@,
                            k as int + 1,
                        );
                    }
                    return Err(OrderbookError::InvalidInput);
                },
            };
            if lhs < rhs {
                proof {
                    lemma_batch_eval_extends_err(
                        old(self).intents.m(),
                        old(self).balances(),
                        matches@,
                        k as int + 1,
                    );
                }
                return Err(OrderbookError::InvalidInput);
            }
            if let Err(e) = add_supply(&mut w_nets, it.src_asset.as_str(), m.fill_amount) {
                proof {
                    lemma_batch_eval_extends_err(
                        old(self).intents.m(),
                        old(self).balances(),
                        matches@,
                        k as int + 1,
                    );
                }
                return Err(e);
            }
            if let Err(e) = add_demand(&mut w_nets, it.dst_asset.as_str(), m.get_amount) {
                proof {
                    lemma_batch_eval_extends_err(
                        old(self).intents.m(),
                        old(self).balances(),
                        matches@,
                        k as int + 1,
                    );
                }
                return Err(e);
            }
            let new_filled = it.filled_amount + m.fill_amount;
            let updated = Intent {
                filled_amount: new_filled,
                status: if new_filled == it.src_amount {
                    IntentStatus::Filled
                } else {
                    it.status
                },
                ..it.clone()
            };
            w_intents.replace(updated);
            if let Err(e) = w_ledger.credit(it.maker.as_str(), it.dst_asset.as_str(), m.get_amount)
                {
                proof {
                    lemma_batch_eval_extends_err(
                        old(self).intents.m(),
                        old(self).balances(),
                        matches@,
                        k as int + 1,
                    );
                }
                return Err(e);
            }
            proof {
                assert(batch_leg(gi, gb, gn, matches@[k as int]) == Ok::<_, OrderbookError>((
                    w_intents.m(),
                    w_ledger.view(),
                    nets_map(w_nets@),
                )));
            }
            k = k + 1;
        }
        proof {
            assert(matches@.subrange(0, n as int) =~= matches@);
            lemma_nets_map(w_nets@);
        }
        let mut i: usize = 0;
        while i < w_nets.len()
            invariant
                distinct_nets(w_nets@),
                i <= w_nets@.len(),
                forall|j: int| 0 <= j < i ==> (#[trigger] w_nets@[j]).supply >= w_nets@[j].demand,
                *self == *old(self),
                old(self).wf(),
                n == matches@.len(),
                2 <= n <= 6,
                batch_eval(old(self).intents.m(), old(self).balances(), matches@)
                    == Ok::<_, OrderbookError>((w_intents.m(), w_ledger.view(), nets_map(w_nets@))),
            decreases w_nets@.len() - i,
        {
            if w_nets[i].supply < w_nets[i].demand {
                proof {
                    lemma_nets_map(w_nets@);
                    let a = fold_seq(w_nets@[i as int].asset@);
                    let ge = batch_eval(old(self).intents.m(), old(self).balances(), matches@);
                    assert(ge->Ok_0.2 == nets_map(w_nets@));
                    assert(net_supply(ge->Ok_0.2, a) < net_demand(ge->Ok_0.2, a));
                }
                return Err(OrderbookError::InvalidInput);
            }
            i = i + 1;
        }
        proof {
            lemma_nets_map(w_nets@);
            assert forall|a: Seq<char>| net_supply(nets_map(w_nets@), a) >= net_demand(
                nets_map(w_nets@),
                a,
            ) by {
                if nets_map(w_nets@).contains_key(a) {
                    let j = choose|j: int|
                        0 <= j < w_nets@.len() && fold_seq(#[trigger] w_nets@[j].asset@) == a;
                    assert(w_nets@[j].supply >= w_nets@[j].demand);
                }
            }
        }
        self.intents = w_intents;
        self.ledger = w_ledger;
        proof {
            self.lemma_wf_commit(old(self), matches@);
            lemma_batch_eval_props(old(self).intents.m(), old(self).balances(), matches@);
        }
        let ghost mid = *self;
        let ghost base = old(self).next_id;
        let mut ds: Vec<SignDispatch> = Vec::new();
        let mut k2: usize = 0;
        while k2 < n
            invariant
                mid.wf_core(),
                self.wf_core(),
                k2 <= n == matches@.len(),
                n <= 6,
                base == mid.next_id,
                base + 6 <= u64::MAX,
                self.next_id == base + k2,
                self.owner == mid.owner,
                self.mpc_contract == mid.mpc_contract,
                self.light_client_contract == mid.light_client_contract,
                self.ledger == mid.ledger,
                self.intents == mid.intents,
                self.pending_withdrawals == mid.pending_withdrawals,
                forall|kk: u64|
                    #[trigger] self.intents.m().contains_key(kk) ==> sub_amount_sum(
                        self.sub_intents.seq(),
                        kk,
                    ) == sub_amount_sum(mid.sub_intents.seq(), kk) + fills_sum(
                        matches@.subrange(0, k2 as int),
                        kk,
                    ),
                forall|j: int|
                    0 <= j < k2 ==> self.sub_intents.m().contains_key(((base + j) as u64))
                        && self.sub_intents.m()[((base + j) as u64)] == (SubIntent {
                        id: ((base + j) as u64),
                        parent_intent_id: (#[trigger] matches@[j]).intent_id,
                        taker: solver,
                        amount: matches@[j].fill_amount,
                        status: IntentStatus::Verifying,
                    }),
                forall|kk: u64|
                    !(base <= kk < base + k2) ==> ((#[trigger] self.sub_intents.m().contains_key(
                        kk,
                    )) <==> mid.sub_intents.m().contains_key(kk)) && (mid.sub_intents.m().contains_key(kk)
                        ==> self.sub_intents.m()[kk] == mid.sub_intents.m()[kk]),
                forall|j: int|
                    0 <= j < k2 ==> self.transition_expectations.m().contains_key(
                        ((base + j) as u64),
                    ) && {
                        let e = self.transition_expectations.m()[((base + j) as u64)];
                        &&& e.sub_intent_id == ((base + j) as u64)
                        &&& e.chain_type == (#[trigger] matches@[j]).transition_chain_type
                        &&& mid.intents.m().contains_key(matches@[j].intent_id)
                        &&& e.expected_asset == mid.intents.m()[matches@[j].intent_id].src_asset
                        &&& e.expected_amount == matches@[j].fill_amount
                        &&& e.expected_memo@ == transition_memo_seq(((base + j) as u64))
                    },
                forall|kk: u64|
                    !(base <= kk < base + k2) ==> ((#[trigger] self.transition_expectations.m().contains_key(kk)) <==> mid.transition_expectations.m().contains_key(kk)) && (mid.transition_expectations.m().contains_key(kk)
                        ==> self.transition_expectations.m()[kk]
                        == mid.transition_expectations.m()[kk]),
                ds@.len() == k2,
                forall|j: int|
                    0 <= j < k2 ==> ds@[j] == (SignDispatch {
                        id: ((base + j) as u64),
                        chain_type: (#[trigger] matches@[j]).transition_chain_type,
                        request: SignRequest {
                            payload: matches@[j].payload,
                            path: matches@[j].path,
                            key_version: 0,
                        },
                        attached_deposit: deposit_share,
                    }),
                forall|j: int|
                    0 <= j < matches@.len() ==> mid.intents.m().contains_key(
                        (#[trigger] matches@[j]).intent_id,
                    ) && matches@[j].fill_amount <= mid.intents.m()[matches@[j].intent_id].src_amount,
            decreases n - k2,
        {
            let ghost pre_iter = *self;
            let m = &matches[k2];
            let sub_id = self.next_id;
            self.next_id = self.next_id + 1;
            let sub = SubIntent {
                id: sub_id,
                parent_intent_id: m.intent_id,
                taker: solver.clone(),
                amount: m.fill_amount,
                status: IntentStatus::Verifying,
            };
            proof {
                if self.sub_intents.m().contains_key(sub_id) {
                    if mid.sub_intents.m().contains_key(sub_id) {
                        assert(sub_id < mid.next_id);
                    }
                }
            }
            let ghost gsub = sub;
            self.sub_intents.insert_new(sub);
            let parent_src_asset = match self.intents.get(m.intent_id) {
                Some(p) => p.src_asset.clone(),
                None => {
                    proof {
                        assert(false);
                    }
                    return Err(OrderbookError::NotFound);
                },
            };
            self.transition_expectations.upsert(
                TransitionExpectation {
                    sub_intent_id: sub_id,
                    chain_type: m.transition_chain_type,
                    expected_asset: parent_src_asset,
                    expected_amount: m.fill_amount,
                    expected_memo: transition_memo(sub_id),
                },
            );
            ds.push(
                SignDispatch {
                    id: sub_id,
                    chain_type: m.transition_chain_type,
                    request: SignRequest {
                        payload: m.payload,
                        path: m.path.clone(),
                        key_version: 0,
                    },
                    attached_deposit: deposit_share,
                },
            );
            proof {
                self.lemma_wf_after_dispatch(&pre_iter, sub_id);
                crate::table::lemma_map_of(mid.intents.records@);
                assert(self.sub_intents.seq() == pre_iter.sub_intents.seq().push(gsub));
                assert(self.sub_intents.seq().drop_last() =~= pre_iter.sub_intents.seq());
                assert(matches@.subrange(0, k2 as int + 1).drop_last() =~= matches@.subrange(
                    0,
                    k2 as int,
                ));
                assert(matches@.subrange(0, k2 as int + 1).last() == matches@[k2 as int]);
                assert forall|kk: u64| #[trigger] self.intents.m().contains_key(kk) implies
                    sub_amount_sum(self.sub_intents.seq(), kk) == sub_amount_sum(
                    mid.sub_intents.seq(),
                    kk,
                ) + fills_sum(matches@.subrange(0, k2 as int + 1), kk) by {
                    assert(pre_iter.intents.m().contains_key(kk));
                    assert(sub_amount_sum(self.sub_intents.seq(), kk) == sub_amount_sum(
                        pre_iter.sub_intents.seq(),
                        kk,
                    ) + (if gsub.parent_intent_id == kk {
                        gsub.amount as int
                    } else {
                        0
                    }));
                }
            }
            k2 = k2 + 1;
        }
        proof {
            assert(matches@.subrange(0, n as int) =~= matches@);
            lemma_batch_eval_fills(old(self).intents.m(), old(self).balances(), matches@);
            assert(mid.sub_intents.seq() == old(self).sub_intents.seq());
            assert forall|kk: u64| #[trigger] self.intents.m().contains_key(kk) implies
                sub_amount_sum(self.sub_intents.seq(), kk) == self.intents.m()[kk].filled_amount as int by {
                assert(mid.intents.m().contains_key(kk));
                assert(old(self).intents.m().contains_key(kk));
                assert(sub_amount_sum(old(self).sub_intents.seq(), kk) == old(
                    self,
                ).intents.m()[kk].filled_amount as int);
            }
            assert(self.wf());
        }
        Ok(ds)
    }

    /// Well-formedness of the committed working state: the intents evolved
    /// by a successful evaluation, the ledger credited accordingly, and
    /// everything else as before.
    proof fn lemma_wf_commit(&self, pre: &Orderbook, ms: Seq<MatchParams>)
        requires
            pre.wf(),
            batch_eval(pre.intents.m(), pre.balances(), ms) is Ok,
            self.intents.m() == batch_eval(pre.intents.m(), pre.balances(), ms)->Ok_0.0,
            self.balances() == batch_eval(pre.intents.m(), pre.balances(), ms)->Ok_0.1,
            self.ledger.wf(),
            self.intents.wf(),
            self.sub_intents == pre.sub_intents,
            self.transition_expectations == pre.transition_expectations,
            self.pending_withdrawals == pre.pending_withdrawals,
            self.next_id == pre.next_id,
        ensures
            self.wf_core(),
    {
        lemma_batch_eval_props(pre.intents.m(), pre.balances(), ms);
        let i1 = batch_eval(pre.intents.m(), pre.balances(), ms)->Ok_0.0;
        assert forall|k: u64| #[trigger] self.intents.m().contains_key(k) implies self.intents.m()[k].id
            == k && intent_ok(self.intents.m()[k]) && k < self.next_id
            && !self.sub_intents.m().contains_key(k) && !self.pending_withdrawals.m().contains_key(
            k,
        ) by {
            assert(i1.dom() == pre.intents.m().dom());
            assert(pre.intents.m().contains_key(k));
        }
        assert forall|k: u64| #[trigger] self.sub_intents.m().contains_key(k) implies
            self.sub_intents.m()[k].id == k && sub_ok(self.sub_intents.m()[k]) && k < self.next_id
            && !self.pending_withdrawals.m().contains_key(k) && self.intents.m().contains_key(
            self.sub_intents.m()[k].parent_intent_id,
        ) && self.sub_intents.m()[k].amount <= self.intents.m()[self.sub_intents.m()[k].parent_intent_id].src_amount by {
            assert(pre.sub_intents.m().contains_key(k));
            let p = pre.sub_intents.m()[k].parent_intent_id;
            assert(pre.intents.m().contains_key(p));
            assert(i1.dom() == pre.intents.m().dom());
            assert(i1.contains_key(p));
            assert(i1[p].src_amount == pre.intents.m()[p].src_amount);
        }
    }

    /// Well-formedness after filing one settlement dispatch: a sub-intent
    /// in `Verifying` and its expectation under a fresh identifier.
    proof fn lemma_wf_after_dispatch(&self, pre: &Orderbook, sub_id: u64)
        requires
            pre.wf_core(),
            sub_id == pre.next_id,
            pre.next_id < u64::MAX,
            self.next_id == pre.next_id + 1,
            self.ledger == pre.ledger,
            self.intents == pre.intents,
            self.pending_withdrawals == pre.pending_withdrawals,
            self.sub_intents.wf(),
            self.transition_expectations.wf(),
            self.sub_intents.m() == pre.sub_intents.m().insert(
                sub_id,
                self.sub_intents.m()[sub_id],
            ),
            self.sub_intents.m().contains_key(sub_id),
            self.sub_intents.m()[sub_id].id == sub_id,
            sub_ok(self.sub_intents.m()[sub_id]),
            self.intents.m().contains_key(self.sub_intents.m()[sub_id].parent_intent_id),
            self.sub_intents.m()[sub_id].amount <= self.intents.m()[self.sub_intents.m()[sub_id].parent_intent_id].src_amount,
            self.transition_expectations.m() == pre.transition_expectations.m().insert(
                sub_id,
                self.transition_expectations.m()[sub_id],
            ),
            self.transition_expectations.m().contains_key(sub_id),
            self.transition_expectations.m()[sub_id].sub_intent_id == sub_id,
        ensures
            self.wf_core(),
    {
        assert forall|k: u64| #[trigger] self.intents.m().contains_key(k) implies self.intents.m()[k].id
            == k && intent_ok(self.intents.m()[k]) && k < self.next_id
            && !self.sub_intents.m().contains_key(k) && !self.pending_withdrawals.m().contains_key(
            k,
        ) by {
            assert(pre.intents.m().contains_key(k));
            assert(k < pre.next_id);
            if self.sub_intents.m().contains_key(k) {
                assert(k == sub_id || pre.sub_intents.m().contains_key(k));
            }
        }
        assert forall|k: u64| #[trigger] self.sub_intents.m().contains_key(k) implies
            self.sub_intents.m()[k].id == k && sub_ok(self.sub_intents.m()[k]) && k < self.next_id
            && !self.pending_withdrawals.m().contains_key(k) && self.intents.m().contains_key(
            self.sub_intents.m()[k].parent_intent_id,
        ) && self.sub_intents.m()[k].amount <= self.intents.m()[self.sub_intents.m()[k].parent_intent_id].src_amount by {
            if k != sub_id {
                assert(pre.sub_intents.m().contains_key(k));
            } else {
                if self.pending_withdrawals.m().contains_key(k) {
                    assert(k < pre.next_id);
                }
            }
        }
        assert forall|k: u64| #[trigger] self.transition_expectations.m().contains_key(k) implies
            self.transition_expectations.m()[k].sub_intent_id == k && k < self.next_id by {
            if k != sub_id {
                assert(pre.transition_expectations.m().contains_key(k));
            }
        }
        assert forall|k: u64| #[trigger] self.pending_withdrawals.m().contains_key(k) implies
            self.pending_withdrawals.m()[k].id == k && k < self.next_id by {
            assert(pre.pending_withdrawals.m().contains_key(k));
        }
    }
}

/// Replacing the entry at one position replaces its key's entry in the
/// totals.
pub proof fn lemma_nets_map_update(s: Seq<NetEntry>, i: int, x: NetEntry)
    requires
        distinct_nets(s),
        0 <= i < s.len(),
        fold_seq(x.asset@) == fold_seq(s[i].asset@),
    ensures
        nets_map(s.update(i, x)) == nets_map(s).insert(fold_seq(x.asset@), (x.supply, x.demand)),
        distinct_nets(s.update(i, x)),
    decreases s.len(),
{
    let s2 = s.update(i, x);
    assert forall|a: int, b: int| 0 <= a < b < s2.len() implies fold_seq(#[trigger] s2[a].asset@)
        != fold_seq(#[trigger] s2[b].asset@) by {
        assert(fold_seq(s[a].asset@) != fold_seq(s[b].asset@));
    }
    if i == s.len() - 1 {
        assert(s2.drop_last() =~= s.drop_last());
        assert(nets_map(s2) =~= nets_map(s).insert(fold_seq(x.asset@), (x.supply, x.demand)));
    } else {
        let t = s.drop_last();
        assert(distinct_nets(t));
        lemma_nets_map_update(t, i, x);
        assert(s2.drop_last() =~= t.update(i, x));
        assert(s2.last() == s.last());
        assert(fold_seq(x.asset@) != fold_seq(s.last().asset@));
        assert(nets_map(s2) =~= nets_map(s).insert(fold_seq(x.asset@), (x.supply, x.demand)));
    }
}

} // verus!
