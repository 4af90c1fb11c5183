//! The internal ledger: per-user, per-asset balances with a nested `Map`
//! view. Users are compared exactly; assets are compared by ASCII case
//! folding.

use vstd::prelude::*;
use crate::text::{fold_seq, eq_fold, str_eq};
use crate::types::OrderbookError;

verus! {

/// The balance a user holds in one asset.
pub struct AssetBalance {
    pub asset: String,
    pub amount: u128,
}

impl Clone for AssetBalance {
    fn clone(&self) -> (r: Self)
        ensures
            r == *self,
    {
        AssetBalance { asset: self.asset.clone(), amount: self.amount }
    }
}

/// All balances of one user.
pub struct AccountEntry {
    pub user: String,
    pub balances: Vec<AssetBalance>,
}

/// The ledger of all users.
pub struct Ledger {
    pub accounts: Vec<AccountEntry>,
}

/// The abstract value of a ledger: user (exact) to folded asset to amount.
pub type LedgerMap = Map<Seq<char>, Map<Seq<char>, u128>>;

/// One user's balances as a map keyed by folded asset name.
pub open spec fn assets_map(s: Seq<AssetBalance>) -> Map<Seq<char>, u128>
    decreases s.len(),
{
    if s.len() == 0 {
        Map::empty()
    } else {
        assets_map(s.drop_last()).insert(fold_seq(s.last().asset@), s.last().amount)
    }
}

/// A ledger's accounts as a nested map.
pub open spec fn accounts_map(s: Seq<AccountEntry>) -> LedgerMap
    decreases s.len(),
{
    if s.len() == 0 {
        Map::empty()
    } else {
        accounts_map(s.drop_last()).insert(s.last().user@, assets_map(s.last().balances@))
    }
}

/// Whether the folded asset names of a balance list are pairwise distinct.
pub open spec fn distinct_assets(s: Seq<AssetBalance>) -> bool {
    forall|i: int, j: int|
        0 <= i < j < s.len() ==> fold_seq(#[trigger] s[i].asset@) != fold_seq(
            #[trigger] s[j].asset@,
        )
}

/// Whether the user names of an account list are pairwise distinct.
pub open spec fn distinct_users(s: Seq<AccountEntry>) -> bool {
    forall|i: int, j: int| 0 <= i < j < s.len() ==> (#[trigger] s[i].user@) != (#[trigger] s[j].user@)
}

/// The balance of a user in an asset, zero for absent keys.
pub open spec fn bal_of(m: LedgerMap, user: Seq<char>, asset: Seq<char>) -> u128 {
    if m.contains_key(user) {
        if m[user].contains_key(fold_seq(asset)) {
            m[user][fold_seq(asset)]
        } else {
            0
        }
    } else {
        0
    }
}

/// The ledger after adding `x` to a balance, creating the keys on first use.
pub open spec fn ledger_credit(m: LedgerMap, user: Seq<char>, asset: Seq<char>, x: u128) -> LedgerMap {
    let inner = if m.contains_key(user) {
        m[user]
    } else {
        Map::empty()
    };
    m.insert(user, inner.insert(fold_seq(asset), (bal_of(m, user, asset) + x) as u128))
}

/// The ledger after subtracting `x` from a balance of an existing user.
pub open spec fn ledger_debit(m: LedgerMap, user: Seq<char>, asset: Seq<char>, x: u128) -> LedgerMap {
    m.insert(user, m[user].insert(fold_seq(asset), (bal_of(m, user, asset) - x) as u128))
}

/// A folded asset key is in the map exactly when some entry carries it; under
/// distinct keys the map sends each entry's key to its amount.
pub proof fn lemma_assets_map(s: Seq<AssetBalance>)
    ensures
        forall|k: Seq<char>|
            #[trigger] assets_map(s).contains_key(k) <==> exists|i: int|
                0 <= i < s.len() && fold_seq(#[trigger] s[i].asset@) == k,
        distinct_assets(s) ==> forall|i: int|
            0 <= i < s.len() ==> assets_map(s).contains_key(fold_seq(#[trigger] s[i].asset@))
                && assets_map(s)[fold_seq(s[i].asset@)] == s[i].amount,
    decreases s.len(),
{
    if s.len() > 0 {
        let t = s.drop_last();
        lemma_assets_map(t);
        assert forall|k: Seq<char>| #[trigger] assets_map(s).contains_key(k) implies exists|i: int|
            0 <= i < s.len() && fold_seq(#[trigger] s[i].asset@) == k by {
            if k == fold_seq(s.last().asset@) {
                assert(fold_seq(s[s.len() - 1].asset@) == k);
            } else {
                assert(assets_map(t).contains_key(k));
                let i = choose|i: int| 0 <= i < t.len() && fold_seq(#[trigger] t[i].asset@) == k;
                assert(t[i] == s[i]);
                assert(fold_seq(s[i].asset@) == k);
            }
        }
        assert forall|k: Seq<char>|
            (exists|i: int| 0 <= i < s.len() && fold_seq(#[trigger] s[i].asset@) == k)
            implies assets_map(s).contains_key(k) by {
            let i = choose|i: int| 0 <= i < s.len() && fold_seq(#[trigger] s[i].asset@) == k;
            if i < s.len() - 1 {
                assert(fold_seq(t[i].asset@) == k);
                assert(assets_map(t).contains_key(k));
            } else {
                assert(fold_seq(s.last().asset@) == k);
            }
        }
        if distinct_assets(s) {
            assert(distinct_assets(t));
            assert forall|i: int| 0 <= i < s.len() implies assets_map(s).contains_key(
                fold_seq(#[trigger] s[i].asset@),
            ) && assets_map(s)[fold_seq(s[i].asset@)] == s[i].amount by {
                if i < s.len() - 1 {
                    assert(t[i] == s[i]);
                    assert(fold_seq(s[i].asset@) != fold_seq(s.last().asset@));
                }
            }
        }
    }
}

/// Replacing the entry at one position replaces its key's entry in the map.
pub proof fn lemma_assets_map_update(s: Seq<AssetBalance>, i: int, x: AssetBalance)
    requires
        distinct_assets(s),
        0 <= i < s.len(),
        fold_seq(x.asset@) == fold_seq(s[i].asset@),
    ensures
        assets_map(s.update(i, x)) == assets_map(s).insert(fold_seq(x.asset@), x.amount),
        distinct_assets(s.update(i, x)),
    decreases s.len(),
{
    let s2 = s.update(i, x);
    assert forall|a: int, b: int| 0 <= a < b < s2.len() implies fold_seq(#[trigger] s2[a].asset@)
        != fold_seq(#[trigger] s2[b].asset@) by {
        assert(fold_seq(s[a].asset@) != fold_seq(s[b].asset@));
    }
    if i == s.len() - 1 {
        assert(s2.drop_last() =~= s.drop_last());
        assert(assets_map(s2) =~= assets_map(s).insert(fold_seq(x.asset@), x.amount));
    } else {
        let t = s.drop_last();
        assert(distinct_assets(t));
        lemma_assets_map_update(t, i, x);
        assert(s2.drop_last() =~= t.update(i, x));
        assert(s2.last() == s.last());
        assert(fold_seq(x.asset@) != fold_seq(s.last().asset@));
        assert(assets_map(s2) =~= assets_map(s).insert(fold_seq(x.asset@), x.amount));
    }
}

/// A user is in the map exactly when some account carries it; under distinct
/// users the map sends each account's user to its balances.
pub proof fn lemma_accounts_map(s: Seq<AccountEntry>)
    ensures
        forall|k: Seq<char>|
            #[trigger] accounts_map(s).contains_key(k) <==> exists|i: int|
                0 <= i < s.len() && (#[trigger] s[i].user@) == k,
        distinct_users(s) ==> forall|i: int|
            0 <= i < s.len() ==> accounts_map(s).contains_key(#[trigger] s[i].user@)
                && accounts_map(s)[s[i].user@] == assets_map(s[i].balances@),
    decreases s.len(),
{
    if s.len() > 0 {
        let t = s.drop_last();
        lemma_accounts_map(t);
        assert forall|k: Seq<char>| #[trigger] accounts_map(s).contains_key(k) implies exists|i: int|
            0 <= i < s.len() && (#[trigger] s[i].user@) == k by {
            if k == s.last().user@ {
                assert(s[s.len() - 1].user@ == k);
            } else {
                assert(accounts_map(t).contains_key(k));
                let i = choose|i: int| 0 <= i < t.len() && (#[trigger] t[i].user@) == k;
                assert(t[i] == s[i]);
                assert(s[i].user@ == k);
            }
        }
        assert forall|k: Seq<char>|
            (exists|i: int| 0 <= i < s.len() && (#[trigger] s[i].user@) == k)
            implies accounts_map(s).contains_key(k) by {
            let i = choose|i: int| 0 <= i < s.len() && (#[trigger] s[i].user@) == k;
            if i < s.len() - 1 {
                assert(t[i].user@ == k);
                assert(accounts_map(t).contains_key(k));
            } else {
                assert(s.last().user@ == k);
            }
        }
        if distinct_users(s) {
            assert(distinct_users(t));
            assert forall|i: int| 0 <= i < s.len() implies accounts_map(s).contains_key(
                #[trigger] s[i].user@,
            ) && accounts_map(s)[s[i].user@] == assets_map(s[i].balances@) by {
                if i < s.len() - 1 {
                    assert(t[i] == s[i]);
                    assert(s[i].user@ != s.last().user@);
                }
            }
        }
    }
}

/// Replacing the account at one position replaces its user's entry in the map.
pub proof fn lemma_accounts_map_update(s: Seq<AccountEntry>, i: int, x: AccountEntry)
    requires
        distinct_users(s),
        0 <= i < s.len(),
        x.user@ == s[i].user@,
    ensures
        accounts_map(s.update(i, x)) == accounts_map(s).insert(x.user@, assets_map(x.balances@)),
        distinct_users(s.update(i, x)),
    decreases s.len(),
{
    let s2 = s.update(i, x);
    assert forall|a: int, b: int| 0 <= a < b < s2.len() implies (#[trigger] s2[a].user@)
        != (#[trigger] s2[b].user@) by {
        assert(s[a].user@ != s[b].user@);
    }
    if i == s.len() - 1 {
        assert(s2.drop_last() =~= s.drop_last());
        assert(accounts_map(s2) =~= accounts_map(s).insert(x.user@, assets_map(x.balances@)));
    } else {
        let t = s.drop_last();
        assert(distinct_users(t));
        lemma_accounts_map_update(t, i, x);
        assert(s2.drop_last() =~= t.update(i, x));
        assert(s2.last() == s.last());
        assert(x.user@ != s.last().user@);
        assert(accounts_map(s2) =~= accounts_map(s).insert(x.user@, assets_map(x.balances@)));
    }
}

/// Two account lists with pointwise equal user names and balance views have
/// the same map.
pub proof fn lemma_accounts_map_congruence(s1: Seq<AccountEntry>, s2: Seq<AccountEntry>)
    requires
        s1.len() == s2.len(),
        forall|i: int|
            0 <= i < s1.len() ==> (#[trigger] s1[i].user@) == s2[i].user@ && s1[i].balances@
                == s2[i].balances@,
    ensures
        accounts_map(s1) == accounts_map(s2),
    decreases s1.len(),
{
    if s1.len() > 0 {
        let t1 = s1.drop_last();
        let t2 = s2.drop_last();
        assert forall|i: int| 0 <= i < t1.len() implies (#[trigger] t1[i].user@) == t2[i].user@
            && t1[i].balances@ == t2[i].balances@ by {
            assert(t1[i] == s1[i]);
            assert(t2[i] == s2[i]);
            assert(s1[i].user@ == s2[i].user@ && s1[i].balances@ == s2[i].balances@);
        }
        lemma_accounts_map_congruence(t1, t2);
        assert(s1[s1.len() - 1].user@ == s2[s1.len() - 1].user@ && s1[s1.len() - 1].balances@
            == s2[s1.len() - 1].balances@);
        assert(accounts_map(s1) == accounts_map(s2));
    }
}

/// Position of the balance entry for an asset, by folded comparison.
fn find_asset(balances: &Vec<AssetBalance>, asset: &str) -> (r: Option<usize>)
    ensures
        match r {
            Some(i) => i < balances@.len() && fold_seq(balances@[i as int].asset@) == fold_seq(
                asset@,
            ),
            None => forall|j: int|
                0 <= j < balances@.len() ==> fold_seq(#[trigger] balances@[j].asset@) != fold_seq(
                    asset@,
                ),
        },
{
    let n = balances.len();
    let mut i: usize = 0;
    while i < n
        invariant
            i <= n == balances@.len(),
            forall|j: int|
                0 <= j < i ==> fold_seq(#[trigger] balances@[j].asset@) != fold_seq(asset@),
        decreases n - i,
    {
        if eq_fold(balances[i].asset.as_str(), asset) {
            return Some(i);
        }
        i = i + 1;
    }
    None
}

/// Copies a balance list.
fn dup_balances(v: &Vec<AssetBalance>) -> (r: Vec<AssetBalance>)
    ensures
        r@ == v@,
{
    let n = v.len();
    let mut out: Vec<AssetBalance> = Vec::new();
    let mut i: usize = 0;
    while i < n
        invariant
            i <= n == v@.len(),
            out@.len() == i,
            forall|j: int| 0 <= j < i ==> out@[j] == v@[j],
        decreases n - i,
    {
        out.push(v[i].clone());
        i = i + 1;
    }
    proof {
        assert(out@ =~= v@);
    }
    out
}

impl Ledger {
    /// The abstract value of the ledger.
    pub open spec fn view(&self) -> LedgerMap {
        accounts_map(self.accounts@)
    }

    /// Well-formedness: distinct users; per user, distinct folded assets.
    pub open spec fn wf(&self) -> bool {
        &&& distinct_users(self.accounts@)
        &&& forall|i: int|
            0 <= i < self.accounts@.len() ==> distinct_assets(
                (#[trigger] self.accounts@[i]).balances@,
            )
    }

    /// An empty ledger.
    pub fn new() -> (r: Self)
        ensures
            r.wf(),
            r.view() == Map::<Seq<char>, Map<Seq<char>, u128>>::empty(),
    {
        Ledger { accounts: Vec::new() }
    }

    /// Position of a user's account, if any.
    fn find_user(&self, user: &str) -> (r: Option<usize>)
        ensures
            match r {
                Some(i) => i < self.accounts@.len() && self.accounts@[i as int].user@ == user@,
                None => forall|j: int|
                    0 <= j < self.accounts@.len() ==> (#[trigger] self.accounts@[j].user@) != user@,
            },
    {
        let n = self.accounts.len();
        let mut i: usize = 0;
        while i < n
            invariant
                i <= n == self.accounts@.len(),
                forall|j: int| 0 <= j < i ==> (#[trigger] self.accounts@[j].user@) != user@,
            decreases n - i,
        {
            if str_eq(self.accounts[i].user.as_str(), user) {
                return Some(i);
            }
            i = i + 1;
        }
        None
    }

    /// Whether the user has an account entry.
    pub fn has_user(&self, user: &str) -> (r: bool)
        requires
            self.wf(),
        ensures
            r == self.view().contains_key(user@),
    {
        proof {
            lemma_accounts_map(self.accounts@);
        }
        self.find_user(user).is_some()
    }

    /// The balance of a user in an asset; zero for absent keys.
    pub fn get_balance(&self, user: &str, asset: &str) -> (r: u128)
        requires
            self.wf(),
        ensures
            r == bal_of(self.view(), user@, asset@),
    {
        proof {
            lemma_accounts_map(self.accounts@);
        }
        match self.find_user(user) {
            None => 0,
            Some(i) => {
                let entry = &self.accounts[i];
                proof {
                    lemma_assets_map(entry.balances@);
                }
                match find_asset(&entry.balances, asset) {
                    None => 0,
                    Some(j) => entry.balances[j].amount,
                }
            },
        }
    }

    /// Adds to a balance, creating the account or asset entry on first use.
    /// Fails exactly when the new balance would not fit in 128 bits; on
    /// failure the ledger is unchanged.
    pub fn credit(&mut self, user: &str, asset: &str, amount: u128) -> (r: Result<
        (),
        OrderbookError,
    >)
        requires
            old(self).wf(),
        ensures
            final(self).wf(),
            match r {
                Ok(()) => bal_of(old(self).view(), user@, asset@) + amount <= u128::MAX
                    && final(self).view() == ledger_credit(
                    old(self).view(),
                    user@,
                    asset@,
                    amount,
                ),
                Err(e) => e == OrderbookError::InvalidInput && bal_of(
                    old(self).view(),
                    user@,
                    asset@,
                ) + amount > u128::MAX && final(self).view() == old(self).view(),
            },
    {
        proof {
            lemma_accounts_map(self.accounts@);
        }
        match self.find_user(user) {
            None => {
                proof {
                    assert(!old(self).view().contains_key(user@));
                }
                let mut balances: Vec<AssetBalance> = Vec::new();
                balances.push(AssetBalance { asset: String::from_str(asset), amount });
                let entry = AccountEntry { user: String::from_str(user), balances };
                proof {
                    assert(entry.balances@.drop_last() =~= Seq::<AssetBalance>::empty());
                    assert(assets_map(entry.balances@.drop_last()) == Map::<Seq<char>, u128>::empty());
                    assert(entry.balances@.last().asset@ == asset@);
                    assert(entry.balances@.last().amount == amount);
                    assert(assets_map(entry.balances@) =~= Map::<Seq<char>, u128>::empty().insert(
                        fold_seq(asset@),
                        amount,
                    ));
                }
                self.accounts.push(entry);
                proof {
                    assert(self.accounts@.drop_last() =~= old(self).accounts@);
                    assert(self.view() == accounts_map(old(self).accounts@).insert(
                        entry.user@,
                        assets_map(entry.balances@),
                    ));
                    assert(self.view() =~= ledger_credit(old(self).view(), user@, asset@, amount));
                    assert forall|i: int| 0 <= i < self.accounts@.len() implies distinct_assets(
                        (#[trigger] self.accounts@[i]).balances@,
                    ) by {
                        if i < self.accounts@.len() - 1 {
                            assert(self.accounts@[i] == old(self).accounts@[i]);
                        }
                    }
                }
                Ok(())
            },
            Some(i) => {
                let ghost pre = self.view();
                let entry_user = self.accounts[i].user.clone();
                let mut balances = dup_balances(&self.accounts[i].balances);
                proof {
                    lemma_assets_map(balances@);
                    assert(distinct_assets(balances@));
                }
                match find_asset(&balances, asset) {
                    None => {
                        proof {
                            assert(bal_of(pre, user@, asset@) == 0);
                        }
                        balances.push(AssetBalance { asset: String::from_str(asset), amount });
                        proof {
                            assert(balances@.drop_last() =~= old(self).accounts@[i as int].balances@);
                            assert forall|a: int, b: int| 0 <= a < b < balances@.len() implies
                                fold_seq(#[trigger] balances@[a].asset@) != fold_seq(
                                #[trigger] balances@[b].asset@,
                            ) by {
                                if b == balances@.len() - 1 {
                                    assert(fold_seq(balances@[a].asset@) != fold_seq(asset@));
                                }
                            }
                        }
                        let entry = AccountEntry { user: entry_user, balances };
                        proof {
                            lemma_accounts_map_update(self.accounts@, i as int, entry);
                        }
                        self.accounts.set(i, entry);
                        proof {
                            assert(self.view() =~= ledger_credit(pre, user@, asset@, amount));
                            assert forall|k: int| 0 <= k < self.accounts@.len() implies
                                distinct_assets((#[trigger] self.accounts@[k]).balances@) by {
                                if k != i {
                                    assert(self.accounts@[k] == old(self).accounts@[k]);
                                }
                            }
                        }
                        Ok(())
                    },
                    Some(j) => {
                        let cur = balances[j].amount;
                        proof {
                            assert(bal_of(pre, user@, asset@) == cur);
                        }
                        match cur.checked_add(amount) {
                            None => Err(OrderbookError::InvalidInput),
                            Some(new_amount) => {
                                let new_bal = AssetBalance {
                                    asset: balances[j].asset.clone(),
                                    amount: new_amount,
                                };
                                proof {
                                    lemma_assets_map_update(balances@, j as int, new_bal);
                                }
                                balances.set(j, new_bal);
                                let entry = AccountEntry { user: entry_user, balances };
                                proof {
                                    lemma_accounts_map_update(self.accounts@, i as int, entry);
                                }
                                self.accounts.set(i, entry);
                                proof {
                                    assert(self.view() =~= ledger_credit(pre, user@, asset@, amount));
                                    assert forall|k: int| 0 <= k < self.accounts@.len() implies
                                        distinct_assets((#[trigger] self.accounts@[k]).balances@) by {
                                        if k != i {
                                            assert(self.accounts@[k] == old(self).accounts@[k]);
                                        }
                                    }
                                }
                                Ok(())
                            },
                        }
                    },
                }
            },
        }
    }

    /// Subtracts from a balance. Fails with `NotFound` when the user has no
    /// account entry and with `InsufficientFunds` when the balance is short;
    /// on failure the ledger is unchanged.
    pub fn debit(&mut self, user: &str, asset: &str, amount: u128) -> (r: Result<
        (),
        OrderbookError,
    >)
        requires
            old(self).wf(),
        ensures
            final(self).wf(),
            match r {
                Ok(()) => old(self).view().contains_key(user@) && bal_of(
                    old(self).view(),
                    user@,
                    asset@,
                ) >= amount && final(self).view() == ledger_debit(
                    old(self).view(),
                    user@,
                    asset@,
                    amount,
                ),
                Err(e) => final(self).view() == old(self).view() && (if e
                    == OrderbookError::NotFound {
                    !old(self).view().contains_key(user@)
                } else {
                    e == OrderbookError::InsufficientFunds && old(self).view().contains_key(user@)
                        && bal_of(old(self).view(), user@, asset@) < amount
                }),
            },
    {
        proof {
            lemma_accounts_map(self.accounts@);
        }
        match self.find_user(user) {
            None => Err(OrderbookError::NotFound),
            Some(i) => {
                let ghost pre = self.view();
                let entry_user = self.accounts[i].user.clone();
                let mut balances = dup_balances(&self.accounts[i].balances);
                proof {
                    lemma_assets_map(balances@);
                    assert(distinct_assets(balances@));
                }
                let cur: u128 = match find_asset(&balances, asset) {
                    None => 0,
                    Some(j) => balances[j].amount,
                };
                proof {
                    assert(bal_of(pre, user@, asset@) == cur);
                }
                if cur < amount {
                    return Err(OrderbookError::InsufficientFunds);
                }
                let new_amount = cur - amount;
                match find_asset(&balances, asset) {
                    None => {
                        balances.push(AssetBalance { asset: String::from_str(asset), amount: new_amount });
                        proof {
                            assert(balances@.drop_last() =~= old(self).accounts@[i as int].balances@);
                            assert forall|a: int, b: int| 0 <= a < b < balances@.len() implies
                                fold_seq(#[trigger] balances@[a].asset@) != fold_seq(
                                #[trigger] balances@[b].asset@,
                            ) by {
                                if b == balances@.len() - 1 {
                                    assert(fold_seq(balances@[a].asset@) != fold_seq(asset@));
                                }
                            }
                        }
                    },
                    Some(j) => {
                        let new_bal = AssetBalance {
                            asset: balances[j].asset.clone(),
                            amount: new_amount,
                        };
                        proof {
                            lemma_assets_map_update(balances@, j as int, new_bal);
                        }
                        balances.set(j, new_bal);
                    },
                }
                let entry = AccountEntry { user: entry_user, balances };
                proof {
                    lemma_accounts_map_update(self.accounts@, i as int, entry);
                }
                self.accounts.set(i, entry);
                proof {
                    assert(self.view() =~= ledger_debit(pre, user@, asset@, amount));
                    assert forall|k: int| 0 <= k < self.accounts@.len() implies distinct_assets(
                        (#[trigger] self.accounts@[k]).balances@,
                    ) by {
                        if k != i {
                            assert(self.accounts@[k] == old(self).accounts@[k]);
                        }
                    }
                }
                Ok(())
            },
        }
    }

    /// A copy of the ledger with the same abstract value.
    pub fn dup(&self) -> (r: Self)
        ensures
            r.view() == self.view(),
            self.wf() ==> r.wf(),
    {
        let n = self.accounts.len();
        let mut out: Vec<AccountEntry> = Vec::new();
        let mut i: usize = 0;
        while i < n
            invariant
                i <= n == self.accounts@.len(),
                out@.len() == i,
                forall|j: int|
                    0 <= j < i ==> (#[trigger] out@[j].user@) == self.accounts@[j].user@
                        && out@[j].balances@ == self.accounts@[j].balances@,
            decreases n - i,
        {
            let e = &self.accounts[i];
            out.push(AccountEntry { user: e.user.clone(), balances: dup_balances(&e.balances) });
            i = i + 1;
        }
        proof {
            lemma_accounts_map_congruence(out@, self.accounts@);
            if self.wf() {
                assert forall|a: int, b: int| 0 <= a < b < out@.len() implies (
                #[trigger] out@[a].user@) != (#[trigger] out@[b].user@) by {
                    assert(self.accounts@[a].user@ != self.accounts@[b].user@);
                }
                assert forall|k: int| 0 <= k < out@.len() implies distinct_assets(
                    (#[trigger] out@[k]).balances@,
                ) by {
                    assert(out@[k].user@ == self.accounts@[k].user@);
                    assert(out@[k].balances@ == self.accounts@[k].balances@);
                    assert(distinct_assets(self.accounts@[k].balances@));
                }
            }
        }
        Ledger { accounts: out }
    }
}

} // verus!
