//! The wagering ledger's rows and the sums the conservation invariant
//! speaks of: per-(bettor, outcome) stake, per-outcome aggregate, and the
//! grand total over all aggregates.

use vstd::prelude::*;

verus! {

/// One ledger row: the cumulative stake of `user` on `livestream_id`.
#[derive(Clone, Copy)]
pub struct BetEntry {
    pub user: u64,
    pub livestream_id: u64,
    pub amount: u128,
}

/// One aggregate row: the total stake ever placed on `livestream_id`.
#[derive(Clone, Copy)]
pub struct TotalEntry {
    pub livestream_id: u64,
    pub amount: u128,
}

/// No two ledger rows share a (bettor, outcome) key.
pub open spec fn bets_unique(s: Seq<BetEntry>) -> bool {
    forall|i: int, j: int|
        0 <= i < j < s.len() ==> !(s[i].user == s[j].user && s[i].livestream_id
            == s[j].livestream_id)
}

/// No two aggregate rows share an outcome id.
pub open spec fn totals_unique(s: Seq<TotalEntry>) -> bool {
    forall|i: int, j: int| 0 <= i < j < s.len() ==> s[i].livestream_id != s[j].livestream_id
}

/// The stake held by `user` on `livestream_id`: the sum of every row with
/// that key (the ledger keeps at most one).
pub open spec fn stake_of(s: Seq<BetEntry>, user: u64, livestream_id: u64) -> int
    decreases s.len(),
{
    if s.len() == 0 {
        0
    } else {
        stake_of(s.drop_last(), user, livestream_id) + (if s.last().user == user
            && s.last().livestream_id == livestream_id {
            s.last().amount as int
        } else {
            0
        })
    }
}

/// The sum of every bettor's stake on `livestream_id`.
pub open spec fn sum_stakes_for(s: Seq<BetEntry>, livestream_id: u64) -> int
    decreases s.len(),
{
    if s.len() == 0 {
        0
    } else {
        sum_stakes_for(s.drop_last(), livestream_id) + (if s.last().livestream_id
            == livestream_id {
            s.last().amount as int
        } else {
            0
        })
    }
}

/// The stored aggregate for `livestream_id`: the sum of every aggregate row
/// with that id (the ledger keeps at most one), zero when there is none.
pub open spec fn total_of(s: Seq<TotalEntry>, livestream_id: u64) -> int
    decreases s.len(),
{
    if s.len() == 0 {
        0
    } else {
        total_of(s.drop_last(), livestream_id) + (if s.last().livestream_id == livestream_id {
            s.last().amount as int
        } else {
            0
        })
    }
}

/// The sum of every outcome's stored aggregate.
pub open spec fn sum_totals(s: Seq<TotalEntry>) -> int
    decreases s.len(),
{
    if s.len() == 0 {
        0
    } else {
        sum_totals(s.drop_last()) + s.last().amount as int
    }
}

pub proof fn lemma_stake_of_push(s: Seq<BetEntry>, e: BetEntry, user: u64, livestream_id: u64)
    ensures
        stake_of(s.push(e), user, livestream_id) == stake_of(s, user, livestream_id) + (if e.user
            == user && e.livestream_id == livestream_id {
            e.amount as int
        } else {
            0
        }),
{
    assert(s.push(e).drop_last() =~= s);
}

pub proof fn lemma_sum_stakes_push(s: Seq<BetEntry>, e: BetEntry, livestream_id: u64)
    ensures
        sum_stakes_for(s.push(e), livestream_id) == sum_stakes_for(s, livestream_id) + (
        if e.livestream_id == livestream_id {
            e.amount as int
        } else {
            0
        }),
{
    assert(s.push(e).drop_last() =~= s);
}

pub proof fn lemma_total_of_push(s: Seq<TotalEntry>, e: TotalEntry, livestream_id: u64)
    ensures
        total_of(s.push(e), livestream_id) == total_of(s, livestream_id) + (if e.livestream_id
            == livestream_id {
            e.amount as int
        } else {
            0
        }),
{
    assert(s.push(e).drop_last() =~= s);
}

pub proof fn lemma_sum_totals_push(s: Seq<TotalEntry>, e: TotalEntry)
    ensures
        sum_totals(s.push(e)) == sum_totals(s) + e.amount as int,
{
    assert(s.push(e).drop_last() =~= s);
}

/// Replacing row `i` by a row with the same key shifts the keyed stake by
/// the difference of the amounts, and no other keyed stake at all.
pub proof fn lemma_stake_of_update(
    s: Seq<BetEntry>,
    i: int,
    e: BetEntry,
    user: u64,
    livestream_id: u64,
)
    requires
        0 <= i < s.len(),
        e.user == s[i].user,
        e.livestream_id == s[i].livestream_id,
    ensures
        stake_of(s.update(i, e), user, livestream_id) == stake_of(s, user, livestream_id) + (
        if s[i].user == user && s[i].livestream_id == livestream_id {
            e.amount - s[i].amount
        } else {
            0
        }),
    decreases s.len(),
{
    let t = s.update(i, e);
    if i == s.len() - 1 {
        assert(t.drop_last() =~= s.drop_last());
        assert(t.last() == e);
    } else {
        assert(t.drop_last() =~= s.drop_last().update(i, e));
        assert(s.drop_last()[i] == s[i]);
        lemma_stake_of_update(s.drop_last(), i, e, user, livestream_id);
        assert(t.last() == s.last());
    }
}

pub proof fn lemma_sum_stakes_update(s: Seq<BetEntry>, i: int, e: BetEntry, livestream_id: u64)
    requires
        0 <= i < s.len(),
        e.livestream_id == s[i].livestream_id,
    ensures
        sum_stakes_for(s.update(i, e), livestream_id) == sum_stakes_for(s, livestream_id) + (
        if s[i].livestream_id == livestream_id {
            e.amount - s[i].amount
        } else {
            0
        }),
    decreases s.len(),
{
    let t = s.update(i, e);
    if i == s.len() - 1 {
        assert(t.drop_last() =~= s.drop_last());
        assert(t.last() == e);
    } else {
        assert(t.drop_last() =~= s.drop_last().update(i, e));
        assert(s.drop_last()[i] == s[i]);
        lemma_sum_stakes_update(s.drop_last(), i, e, livestream_id);
        assert(t.last() == s.last());
    }
}

pub proof fn lemma_total_of_update(s: Seq<TotalEntry>, i: int, e: TotalEntry, livestream_id: u64)
    requires
        0 <= i < s.len(),
        e.livestream_id == s[i].livestream_id,
    ensures
        total_of(s.update(i, e), livestream_id) == total_of(s, livestream_id) + (
        if s[i].livestream_id == livestream_id {
            e.amount - s[i].amount
        } else {
            0
        }),
    decreases s.len(),
{
    let t = s.update(i, e);
    if i == s.len() - 1 {
        assert(t.drop_last() =~= s.drop_last());
        assert(t.last() == e);
    } else {
        assert(t.drop_last() =~= s.drop_last().update(i, e));
        assert(s.drop_last()[i] == s[i]);
        lemma_total_of_update(s.drop_last(), i, e, livestream_id);
        assert(t.last() == s.last());
    }
}

pub proof fn lemma_sum_totals_update(s: Seq<TotalEntry>, i: int, e: TotalEntry)
    requires
        0 <= i < s.len(),
    ensures
        sum_totals(s.update(i, e)) == sum_totals(s) + e.amount - s[i].amount,
    decreases s.len(),
{
    let t = s.update(i, e);
    if i == s.len() - 1 {
        assert(t.drop_last() =~= s.drop_last());
        assert(t.last() == e);
    } else {
        assert(t.drop_last() =~= s.drop_last().update(i, e));
        assert(s.drop_last()[i] == s[i]);
        lemma_sum_totals_update(s.drop_last(), i, e);
        assert(t.last() == s.last());
    }
}

/// One bettor's stake never exceeds the outcome's summed stake.
pub proof fn lemma_stake_le_sum(s: Seq<BetEntry>, user: u64, livestream_id: u64)
    ensures
        stake_of(s, user, livestream_id) <= sum_stakes_for(s, livestream_id),
    decreases s.len(),
{
    if s.len() > 0 {
        lemma_stake_le_sum(s.drop_last(), user, livestream_id);
    }
}

/// One outcome's stored aggregate never exceeds the grand total.
pub proof fn lemma_total_le_sum_totals(s: Seq<TotalEntry>, livestream_id: u64)
    ensures
        total_of(s, livestream_id) <= sum_totals(s),
    decreases s.len(),
{
    if s.len() > 0 {
        lemma_total_le_sum_totals(s.drop_last(), livestream_id);
    }
}

/// With no row for the key, the keyed stake is zero.
pub proof fn lemma_stake_of_absent(s: Seq<BetEntry>, user: u64, livestream_id: u64)
    requires
        forall|i: int|
            0 <= i < s.len() ==> !((#[trigger] s[i]).user == user && s[i].livestream_id
                == livestream_id),
    ensures
        stake_of(s, user, livestream_id) == 0,
    decreases s.len(),
{
    if s.len() > 0 {
        assert(forall|i: int|
            0 <= i < s.drop_last().len() ==> s.drop_last()[i] == s[i]);
        lemma_stake_of_absent(s.drop_last(), user, livestream_id);
    }
}

/// With no aggregate row for the id, the stored aggregate is zero.
pub proof fn lemma_total_of_absent(s: Seq<TotalEntry>, livestream_id: u64)
    requires
        forall|i: int| 0 <= i < s.len() ==> (#[trigger] s[i]).livestream_id != livestream_id,
    ensures
        total_of(s, livestream_id) == 0,
    decreases s.len(),
{
    if s.len() > 0 {
        assert(forall|i: int|
            0 <= i < s.drop_last().len() ==> s.drop_last()[i] == s[i]);
        lemma_total_of_absent(s.drop_last(), livestream_id);
    }
}

/// With unique keys, the keyed stake is exactly the one row's amount.
pub proof fn lemma_stake_of_at(s: Seq<BetEntry>, i: int)
    requires
        bets_unique(s),
        0 <= i < s.len(),
    ensures
        stake_of(s, s[i].user, s[i].livestream_id) == s[i].amount,
    decreases s.len(),
{
    if i == s.len() - 1 {
        assert(forall|k: int|
            0 <= k < s.drop_last().len() ==> !((#[trigger] s.drop_last()[k]).user == s[i].user
                && s.drop_last()[k].livestream_id == s[i].livestream_id)) by {
            assert(forall|k: int| 0 <= k < s.len() - 1 ==> s.drop_last()[k] == s[k]);
        }
        lemma_stake_of_absent(s.drop_last(), s[i].user, s[i].livestream_id);
    } else {
        assert(forall|k: int, j: int|
            0 <= k < j < s.drop_last().len() ==> !(s.drop_last()[k].user == s.drop_last()[j].user
                && s.drop_last()[k].livestream_id == s.drop_last()[j].livestream_id));
        assert(s.drop_last()[i] == s[i]);
        lemma_stake_of_at(s.drop_last(), i);
        assert(!(s.last().user == s[i].user && s.last().livestream_id == s[i].livestream_id));
    }
}

/// With unique ids, the stored aggregate is exactly the one row's amount.
pub proof fn lemma_total_of_at(s: Seq<TotalEntry>, i: int)
    requires
        totals_unique(s),
        0 <= i < s.len(),
    ensures
        total_of(s, s[i].livestream_id) == s[i].amount,
    decreases s.len(),
{
    if i == s.len() - 1 {
        assert(forall|k: int|
            0 <= k < s.drop_last().len() ==> (#[trigger] s.drop_last()[k]).livestream_id
                != s[i].livestream_id) by {
            assert(forall|k: int| 0 <= k < s.len() - 1 ==> s.drop_last()[k] == s[k]);
        }
        lemma_total_of_absent(s.drop_last(), s[i].livestream_id);
    } else {
        assert(forall|k: int, j: int|
            0 <= k < j < s.drop_last().len() ==> s.drop_last()[k].livestream_id
                != s.drop_last()[j].livestream_id);
        assert(s.drop_last()[i] == s[i]);
        lemma_total_of_at(s.drop_last(), i);
        assert(s.last().livestream_id != s[i].livestream_id);
    }
}


/// Pushing a row with a fresh key keeps ledger keys unique.
pub proof fn lemma_bets_unique_push(s: Seq<BetEntry>, e: BetEntry)
    requires
        bets_unique(s),
        forall|k: int|
            0 <= k < s.len() ==> !((#[trigger] s[k]).user == e.user && s[k].livestream_id
                == e.livestream_id),
    ensures
        bets_unique(s.push(e)),
{
    let t = s.push(e);
    assert forall|i: int, j: int|
        0 <= i < j < t.len() implies !(t[i].user == t[j].user && t[i].livestream_id
        == t[j].livestream_id) by {
        if j == s.len() {
            assert(t[i] == s[i]);
        }
    }
}

/// Replacing a row by one with the same key keeps ledger keys unique.
pub proof fn lemma_bets_unique_update(s: Seq<BetEntry>, i: int, e: BetEntry)
    requires
        bets_unique(s),
        0 <= i < s.len(),
        e.user == s[i].user,
        e.livestream_id == s[i].livestream_id,
    ensures
        bets_unique(s.update(i, e)),
{
    let t = s.update(i, e);
    assert forall|k: int, j: int|
        0 <= k < j < t.len() implies !(t[k].user == t[j].user && t[k].livestream_id
        == t[j].livestream_id) by {
        assert(t[k].user == s[k].user && t[k].livestream_id == s[k].livestream_id);
        assert(t[j].user == s[j].user && t[j].livestream_id == s[j].livestream_id);
    }
}

/// Pushing a row with a fresh id keeps aggregate ids unique.
pub proof fn lemma_totals_unique_push(s: Seq<TotalEntry>, e: TotalEntry)
    requires
        totals_unique(s),
        forall|k: int| 0 <= k < s.len() ==> (#[trigger] s[k]).livestream_id != e.livestream_id,
    ensures
        totals_unique(s.push(e)),
{
    let t = s.push(e);
    assert forall|i: int, j: int|
        0 <= i < j < t.len() implies t[i].livestream_id != t[j].livestream_id by {
        if j == s.len() {
            assert(t[i] == s[i]);
        }
    }
}

/// Replacing a row by one with the same id keeps aggregate ids unique.
pub proof fn lemma_totals_unique_update(s: Seq<TotalEntry>, i: int, e: TotalEntry)
    requires
        totals_unique(s),
        0 <= i < s.len(),
        e.livestream_id == s[i].livestream_id,
    ensures
        totals_unique(s.update(i, e)),
{
    let t = s.update(i, e);
    assert forall|k: int, j: int|
        0 <= k < j < t.len() implies t[k].livestream_id != t[j].livestream_id by {
        assert(t[k].livestream_id == s[k].livestream_id);
        assert(t[j].livestream_id == s[j].livestream_id);
    }
}

} // verus!
