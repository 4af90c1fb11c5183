//! The matcher policy of the off-chain relayer: scan open intents for
//! exact-mirror counter-pairs on a configured asset pair and emit the legs
//! of a batch match. Fetching intents and submitting the batch are the
//! relayer's transport concerns; the pairing decision is verified here.

use vstd::prelude::*;
use crate::text::{eq_fold, fold_seq};
use crate::types::{Intent, IntentStatus};

verus! {

/// One leg emitted by the matcher.
#[derive(Clone, Copy, PartialEq, Eq, Structural, Debug)]
pub struct MatchParam {
    pub intent_id: u64,
    pub fill_amount: u128,
    pub get_amount: u128,
}

/// What remains to fill of an intent (saturating, as fetched data is not
/// trusted to keep the fill within the offer).
pub open spec fn remain(i: Intent) -> u128 {
    if i.filled_amount <= i.src_amount {
        (i.src_amount - i.filled_amount) as u128
    } else {
        0
    }
}

/// Whether an intent trades `a` for `b`, up to ASCII case.
pub open spec fn trades_pair(i: Intent, a: Seq<char>, b: Seq<char>) -> bool {
    fold_seq(i.src_asset@) == fold_seq(a) && fold_seq(i.dst_asset@) == fold_seq(b)
}

/// Whether each intent offers what the other asks, up to ASCII case.
pub open spec fn opposite_pair(a: Intent, b: Intent) -> bool {
    fold_seq(a.src_asset@) == fold_seq(b.dst_asset@) && fold_seq(a.dst_asset@) == fold_seq(
        b.src_asset@,
    )
}

/// Whether two open intents on the configured pair mirror each other
/// exactly: what remains of each is precisely what the other asks.
pub open spec fn mirror_pair(i: Intent, j: Intent, asset_a: Seq<char>, asset_b: Seq<char>) -> bool {
    &&& i.id != j.id
    &&& i.status == IntentStatus::Open
    &&& j.status == IntentStatus::Open
    &&& (trades_pair(i, asset_a, asset_b) || trades_pair(i, asset_b, asset_a))
    &&& opposite_pair(i, j)
    &&& remain(i) == j.dst_amount
    &&& remain(j) == i.dst_amount
}

/// Whether the `p`-th emitted pair of legs is justified by a mirror pair
/// among the scanned intents: leg `2p` fills one intent with what remains
/// of it and pays what remains of its counterpart, and leg `2p + 1` the
/// other way round.
pub open spec fn emitted_pair_justified(
    out: Seq<MatchParam>,
    intents: Seq<Intent>,
    asset_a: Seq<char>,
    asset_b: Seq<char>,
    p: int,
) -> bool {
    exists|x: int, y: int|
        0 <= x < intents.len() && 0 <= y < intents.len() && mirror_pair(
            #[trigger] intents[x],
            #[trigger] intents[y],
            asset_a,
            asset_b,
        ) && out[2 * p] == (MatchParam {
            intent_id: intents[x].id,
            fill_amount: remain(intents[x]),
            get_amount: remain(intents[y]),
        }) && out[2 * p + 1] == (MatchParam {
            intent_id: intents[y].id,
            fill_amount: remain(intents[y]),
            get_amount: remain(intents[x]),
        })
}

/// A justified pair stays justified in a longer output that keeps its two
/// legs.
proof fn lemma_pair_carries(
    out1: Seq<MatchParam>,
    out2: Seq<MatchParam>,
    intents: Seq<Intent>,
    asset_a: Seq<char>,
    asset_b: Seq<char>,
    p: int,
)
    requires
        emitted_pair_justified(out1, intents, asset_a, asset_b, p),
        0 <= 2 * p,
        2 * p + 1 < out1.len(),
        out1.len() <= out2.len(),
        out2[2 * p] == out1[2 * p],
        out2[2 * p + 1] == out1[2 * p + 1],
    ensures
        emitted_pair_justified(out2, intents, asset_a, asset_b, p),
{
    let (x, y) = choose|x: int, y: int|
        0 <= x < intents.len() && 0 <= y < intents.len() && mirror_pair(
            #[trigger] intents[x],
            #[trigger] intents[y],
            asset_a,
            asset_b,
        ) && out1[2 * p] == (MatchParam {
            intent_id: intents[x].id,
            fill_amount: remain(intents[x]),
            get_amount: remain(intents[y]),
        }) && out1[2 * p + 1] == (MatchParam {
            intent_id: intents[y].id,
            fill_amount: remain(intents[y]),
            get_amount: remain(intents[x]),
        });
    assert(mirror_pair(intents[x], intents[y], asset_a, asset_b));
}

/// True if the intent is still open for matching.
pub fn is_open(intent: &Intent) -> (r: bool)
    ensures
        r == (intent.status == IntentStatus::Open),
{
    intent.status == IntentStatus::Open
}

/// True if each intent offers what the other asks (counter-intents).
pub fn is_opposite_pair(a: &Intent, b: &Intent) -> (r: bool)
    ensures
        r == opposite_pair(*a, *b),
{
    eq_fold(a.src_asset.as_str(), b.dst_asset.as_str()) && eq_fold(
        a.dst_asset.as_str(),
        b.src_asset.as_str(),
    )
}

/// Whether an identifier is in the list.
fn contains_id(used: &Vec<u64>, id: u64) -> (r: bool)
    ensures
        r == used@.contains(id),
{
    let n = used.len();
    let mut i: usize = 0;
    while i < n
        invariant
            i <= n == used@.len(),
            forall|j: int| 0 <= j < i ==> used@[j] != id,
        decreases n - i,
    {
        if used[i] == id {
            assert(used@.contains(id));
            return true;
        }
        i = i + 1;
    }
    assert(!used@.contains(id));
    false
}

/// Finds exact-mirror counter-intents for the asset pair and emits two legs
/// per pair: each emitted pair of legs comes from a mirror pair among the
/// given intents, no intent is used for more than one pair, and if any
/// mirror pair exists among the given intents, at least one pair is
/// emitted.
pub fn build_mirror_matches(intents: &Vec<Intent>, asset_a: &str, asset_b: &str) -> (r: Vec<
    MatchParam,
>)
    ensures
        r@.len() % 2 == 0,
        forall|p: int|
            0 <= p < r@.len() / 2 ==> #[trigger] emitted_pair_justified(
                r@,
                intents@,
                asset_a@,
                asset_b@,
                p,
            ),
        forall|q1: int, q2: int|
            0 <= q1 < q2 < r@.len() ==> (#[trigger] r@[q1]).intent_id != (#[trigger] r@[q2]).intent_id,
        (exists|x: int, y: int|
            0 <= x < intents@.len() && 0 <= y < intents@.len() && #[trigger] mirror_pair(
                intents@[x],
                intents@[y],
                asset_a@,
                asset_b@,
            )) ==> r@.len() >= 2,
{
    let n = intents.len();
    let mut used: Vec<u64> = Vec::new();
    let mut out: Vec<MatchParam> = Vec::new();
    let mut i: usize = 0;
    while i < n
        invariant
            i <= n == intents@.len(),
            out@.len() % 2 == 0,
            used@.len() == out@.len(),
            forall|q: int| 0 <= q < out@.len() ==> used@.contains((#[trigger] out@[q]).intent_id),
            forall|q1: int, q2: int|
                0 <= q1 < q2 < out@.len() ==> (#[trigger] out@[q1]).intent_id != (
                #[trigger] out@[q2]).intent_id,
            forall|p: int|
                0 <= p < out@.len() / 2 ==> #[trigger] emitted_pair_justified(
                    out@,
                    intents@,
                    asset_a@,
                    asset_b@,
                    p,
                ),
            out@.len() == 0 ==> forall|x: int, y: int|
                0 <= x < i && 0 <= y < intents@.len() ==> !(#[trigger] mirror_pair(
                    intents@[x],
                    intents@[y],
                    asset_a@,
                    asset_b@,
                )),
        decreases n - i,
    {
        let a = &intents[i];
        let a_unused = !contains_id(&used, a.id);
        let a_open = is_open(a);
        let a_target = (eq_fold(a.src_asset.as_str(), asset_a) && eq_fold(
            a.dst_asset.as_str(),
            asset_b,
        )) || (eq_fold(a.src_asset.as_str(), asset_b) && eq_fold(a.dst_asset.as_str(), asset_a));
        let mut matched = false;
        if a_unused && a_open && a_target {
            let mut j: usize = 0;
            while j < n && !matched
                invariant
                    i < n == intents@.len(),
                    j <= n,
                    *a == intents@[i as int],
                    out@.len() % 2 == 0,
                    used@.len() == out@.len(),
                    matched ==> out@.len() > 0,
                    !matched ==> !used@.contains(intents@[i as int].id),
                    intents@[i as int].status == IntentStatus::Open,
                    trades_pair(intents@[i as int], asset_a@, asset_b@) || trades_pair(
                        intents@[i as int],
                        asset_b@,
                        asset_a@,
                    ),
                    forall|q: int|
                        0 <= q < out@.len() ==> used@.contains((#[trigger] out@[q]).intent_id),
                    forall|q1: int, q2: int|
                        0 <= q1 < q2 < out@.len() ==> (#[trigger] out@[q1]).intent_id != (
                        #[trigger] out@[q2]).intent_id,
                    forall|p: int|
                        0 <= p < out@.len() / 2 ==> #[trigger] emitted_pair_justified(
                            out@,
                            intents@,
                            asset_a@,
                            asset_b@,
                            p,
                        ),
                    out@.len() == 0 ==> forall|x: int, y: int|
                        0 <= x < i && 0 <= y < intents@.len() ==> !(#[trigger] mirror_pair(
                            intents@[x],
                            intents@[y],
                            asset_a@,
                            asset_b@,
                        )),
                    out@.len() == 0 ==> forall|y: int|
                        0 <= y < j ==> !(#[trigger] mirror_pair(
                            intents@[i as int],
                            intents@[y],
                            asset_a@,
                            asset_b@,
                        )),
                decreases n - j,
            {
                let b = &intents[j];
                let id_ok = a.id != b.id;
                let b_unused = !contains_id(&used, b.id);
                let b_open = is_open(b);
                let opposite = is_opposite_pair(a, b);
                let a_remain = if a.filled_amount <= a.src_amount {
                    a.src_amount - a.filled_amount
                } else {
                    0
                };
                let b_remain = if b.filled_amount <= b.src_amount {
                    b.src_amount - b.filled_amount
                } else {
                    0
                };
                let remains_mirror = a_remain == b.dst_amount && b_remain == a.dst_amount;
                if id_ok && b_unused && b_open && opposite && remains_mirror {
                    let ghost pre_out = out@;
                    let ghost pre_used = used@;
                    proof {
                        assert(!pre_used.contains(intents@[i as int].id));
                        assert(!pre_used.contains(intents@[j as int].id));
                    }
                    out.push(
                        MatchParam { intent_id: a.id, fill_amount: a_remain, get_amount: b_remain },
                    );
                    out.push(
                        MatchParam { intent_id: b.id, fill_amount: b_remain, get_amount: a_remain },
                    );
                    used.push(a.id);
                    used.push(b.id);
                    matched = true;
                    proof {
                        let x = i as int;
                        let y = j as int;
                        assert(mirror_pair(intents@[x], intents@[y], asset_a@, asset_b@));
                        assert forall|q: int| 0 <= q < out@.len() implies used@.contains(
                            (#[trigger] out@[q]).intent_id,
                        ) by {
                            if q < pre_out.len() {
                                assert(out@[q] == pre_out[q]);
                                assert(pre_used.contains(pre_out[q].intent_id));
                                let w = choose|w: int|
                                    0 <= w < pre_used.len() && pre_used[w] == pre_out[q].intent_id;
                                assert(used@[w] == pre_out[q].intent_id);
                                assert(used@.contains(out@[q].intent_id));
                            } else if q == pre_out.len() {
                                assert(used@[used@.len() - 2] == out@[q].intent_id);
                                assert(used@.contains(out@[q].intent_id));
                            } else {
                                assert(used@[used@.len() - 1] == out@[q].intent_id);
                                assert(used@.contains(out@[q].intent_id));
                            }
                        }
                        assert forall|q1: int, q2: int| 0 <= q1 < q2 < out@.len() implies (
                        #[trigger] out@[q1]).intent_id != (#[trigger] out@[q2]).intent_id by {
                            if q2 < pre_out.len() {
                                assert(out@[q1] == pre_out[q1] && out@[q2] == pre_out[q2]);
                            } else if q1 < pre_out.len() {
                                assert(pre_used.contains(pre_out[q1].intent_id));
                                assert(out@[q1] == pre_out[q1]);
                                assert(out@[q2].intent_id == intents@[x].id || out@[q2].intent_id
                                    == intents@[y].id);
                                assert(!pre_used.contains(intents@[x].id));
                                assert(!pre_used.contains(intents@[y].id));
                            } else {
                                assert(q1 == pre_out.len() && q2 == pre_out.len() + 1);
                                assert(out@[q1].intent_id == intents@[x].id);
                                assert(out@[q2].intent_id == intents@[y].id);
                            }
                        }
                        assert forall|p: int| 0 <= p < out@.len() / 2 implies
                            #[trigger] emitted_pair_justified(
                            out@,
                            intents@,
                            asset_a@,
                            asset_b@,
                            p,
                        ) by {
                            if p < pre_out.len() / 2 {
                                assert(emitted_pair_justified(
                                    pre_out,
                                    intents@,
                                    asset_a@,
                                    asset_b@,
                                    p,
                                ));
                                lemma_pair_carries(pre_out, out@, intents@, asset_a@, asset_b@, p);
                            } else {
                                assert(2 * p == pre_out.len());
                                assert(out@[2 * p] == (MatchParam {
                                    intent_id: intents@[x].id,
                                    fill_amount: remain(intents@[x]),
                                    get_amount: remain(intents@[y]),
                                }));
                                assert(out@[2 * p + 1] == (MatchParam {
                                    intent_id: intents@[y].id,
                                    fill_amount: remain(intents@[y]),
                                    get_amount: remain(intents@[x]),
                                }));
                                assert(emitted_pair_justified(
                                    out@,
                                    intents@,
                                    asset_a@,
                                    asset_b@,
                                    p,
                                ));
                            }
                        }
                    }
                }
                proof {
                    if out@.len() == 0 {
                        assert(used@.len() == 0);
                        assert(!used@.contains(intents@[j as int].id));
                        assert(!mirror_pair(
                            intents@[i as int],
                            intents@[j as int],
                            asset_a@,
                            asset_b@,
                        ));
                        assert forall|y: int| 0 <= y < j + 1 implies !(#[trigger] mirror_pair(
                            intents@[i as int],
                            intents@[y],
                            asset_a@,
                            asset_b@,
                        )) by {
                            if y < j {
                                assert(!mirror_pair(
                                    intents@[i as int],
                                    intents@[y],
                                    asset_a@,
                                    asset_b@,
                                ));
                            }
                        }
                    }
                }
                j = j + 1;
            }
        }
        proof {
            if out@.len() == 0 {
                assert(used@.len() == 0);
                assert forall|y: int| 0 <= y < intents@.len() implies !(#[trigger] mirror_pair(
                    intents@[i as int],
                    intents@[y],
                    asset_a@,
                    asset_b@,
                )) by {
                    if !a_open {
                        assert(intents@[i as int].status != IntentStatus::Open);
                    } else if !a_target {
                        assert(!trades_pair(intents@[i as int], asset_a@, asset_b@)
                            && !trades_pair(intents@[i as int], asset_b@, asset_a@));
                    }
                }
                assert forall|x: int, y: int| 0 <= x < i + 1 && 0 <= y < intents@.len() implies !(
                #[trigger] mirror_pair(intents@[x], intents@[y], asset_a@, asset_b@)) by {
                    if x < i {
                        assert(!mirror_pair(intents@[x], intents@[y], asset_a@, asset_b@));
                    }
                }
            }
        }
        i = i + 1;
    }
    proof {
        if out@.len() == 0 {
            assert forall|x: int, y: int|
                0 <= x < intents@.len() && 0 <= y < intents@.len() implies !(
            #[trigger] mirror_pair(intents@[x], intents@[y], asset_a@, asset_b@)) by {
                assert(!mirror_pair(intents@[x], intents@[y], asset_a@, asset_b@));
            }
        } else {
            assert(out@.len() >= 2);
        }
    }
    out
}

} // verus!
