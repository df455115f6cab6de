//! The prediction market core: the three-phase lifecycle, the outcome
//! (livestream) catalog, the wagering ledger, and the payout calculator.
//!
//! A deployed instance would wrap every operation with host services —
//! caller authentication, token transfer, storage, event delivery, a clock.
//! Here the operations take the already-authenticated caller and the current
//! timestamp as arguments and return the typed decision; the caller of the
//! library performs the value transfer around `place_bet` and `claim_payout`
//! in the fail-safe order their contracts describe.

use vstd::prelude::*;
use crate::arith::mul_div;
use crate::errors::MarketError;
use crate::seq_util::contains_u64;
use crate::seq_util::copy_u64_vec;
use crate::seq_util::lemma_remove_value_contains;
use crate::seq_util::lemma_remove_value_unique;
use crate::seq_util::lemma_unique_push;
use crate::seq_util::lemma_contains_push;
use crate::seq_util::remove_u64;
use crate::seq_util::remove_value;
use crate::seq_util::u64s_unique;
use crate::sums::BetEntry;
use crate::sums::TotalEntry;
use crate::sums::bets_unique;
use crate::sums::totals_unique;
use crate::sums::stake_of;
use crate::sums::sum_stakes_for;
use crate::sums::total_of;
use crate::sums::sum_totals;
use crate::sums::lemma_stake_of_push;
use crate::sums::lemma_sum_stakes_push;
use crate::sums::lemma_total_of_push;
use crate::sums::lemma_sum_totals_push;
use crate::sums::lemma_stake_of_update;
use crate::sums::lemma_sum_stakes_update;
use crate::sums::lemma_total_of_update;
use crate::sums::lemma_sum_totals_update;
use crate::sums::lemma_stake_le_sum;
use crate::sums::lemma_total_le_sum_totals;
use crate::sums::lemma_stake_of_absent;
use crate::sums::lemma_total_of_absent;
use crate::sums::lemma_stake_of_at;
use crate::sums::lemma_total_of_at;
use crate::sums::lemma_bets_unique_push;
use crate::sums::lemma_bets_unique_update;
use crate::sums::lemma_totals_unique_push;
use crate::sums::lemma_totals_unique_update;
use vstd::string::StringExecFns;

verus! {

/// Lifecycle phase: betting window open, closed for resolution, resolved.
/// The order is one-directional; no operation reopens a market.
#[derive(Clone, Copy, Debug, PartialEq, Eq, Structural)]
pub enum State {
    Open,
    Closed,
    Resolved,
}

/// Catalog record for one outcome. Retiring an outcome clears `active` but
/// keeps the record, so historical stakes stay readable.
pub struct LivestreamData {
    pub id: u64,
    pub title: String,
    pub active: bool,
    pub added_at: u64,
}

/// There is a record with the given id.
pub open spec fn registered_at(s: Seq<LivestreamData>, id: u64) -> bool {
    exists|i: int| 0 <= i < s.len() && s[i].id == id
}

/// The index of the record with the given id (meaningful when registered
/// and ids are unique).
pub open spec fn ls_index(s: Seq<LivestreamData>, id: u64) -> int {
    choose|i: int| 0 <= i < s.len() && s[i].id == id
}

/// The record with the given id.
pub open spec fn livestream_of(s: Seq<LivestreamData>, id: u64) -> LivestreamData {
    s[ls_index(s, id)]
}

/// No two records share an id.
pub open spec fn ls_unique(s: Seq<LivestreamData>) -> bool {
    forall|i: int, j: int| 0 <= i < j < s.len() ==> s[i].id != s[j].id
}

/// With unique ids, the record found at `i` is the record of its id.
pub proof fn lemma_ls_index_at(s: Seq<LivestreamData>, i: int)
    requires
        ls_unique(s),
        0 <= i < s.len(),
    ensures
        registered_at(s, s[i].id),
        ls_index(s, s[i].id) == i,
        livestream_of(s, s[i].id) == s[i],
{
    assert(registered_at(s, s[i].id));
    let k = ls_index(s, s[i].id);
    assert(0 <= k < s.len() && s[k].id == s[i].id);
    if k < i {
        assert(false);
    } else if i < k {
        assert(false);
    }
}

/// The placeholder title an auto-registered outcome receives.
pub open spec fn default_title() -> Seq<char> {
    "Project #"@
}

/// One pari-mutuel market: question, authority, phase, outcome catalog,
/// wagering ledger and pool. All operations go through the methods below;
/// `wf` is the invariant they keep.
pub struct PredictionMarket {
    pub question: String,
    pub oracle: u64,
    pub factory: u64,
    pub state: State,
    pub created_at: u64,
    pub closed_at: Option<u64>,
    pub resolved_at: Option<u64>,
    pub winning_livestream_id: Option<u64>,
    pub total_pool: u128,
    pub total_bettors: u64,
    pub livestreams: Vec<LivestreamData>,
    pub livestream_ids: Vec<u64>,
    pub bets: Vec<BetEntry>,
    pub totals: Vec<TotalEntry>,
    pub bettors: Vec<u64>,
}

/// The inputs `initialize` accepts: one title per id, every id nonzero,
/// no id twice.
pub open spec fn init_inputs_ok(ids: Seq<u64>, n_titles: int) -> bool {
    &&& ids.len() == n_titles
    &&& forall|k: int| 0 <= k < ids.len() ==> ids[k] != 0
    &&& u64s_unique(ids)
}

impl PredictionMarket {
    /// Well-formedness: unique keys everywhere; the enumerable id list holds
    /// exactly the active records; ledger rows point at registered outcomes;
    /// value is conserved (the pool is the sum of the aggregates, and — until
    /// claims start consuming stakes — each aggregate is the sum of its
    /// stakes); phase bookkeeping matches the phase.
    pub open spec fn wf(self) -> bool {
        &&& bets_unique(self.bets@)
        &&& totals_unique(self.totals@)
        &&& ls_unique(self.livestreams@)
        &&& u64s_unique(self.livestream_ids@)
        &&& u64s_unique(self.bettors@)
        &&& forall|i: int|
            0 <= i < self.livestreams@.len() ==> (#[trigger] self.livestreams@[i]).id != 0
        &&& forall|k: int|
            0 <= k < self.livestream_ids@.len() ==> registered_at(
                self.livestreams@,
                #[trigger] self.livestream_ids@[k],
            ) && livestream_of(self.livestreams@, self.livestream_ids@[k]).active
        &&& forall|i: int|
            0 <= i < self.livestreams@.len() && (#[trigger] self.livestreams@[i]).active
                ==> self.livestream_ids@.contains(self.livestreams@[i].id)
        &&& forall|i: int|
            0 <= i < self.bets@.len() ==> registered_at(
                self.livestreams@,
                (#[trigger] self.bets@[i]).livestream_id,
            )
        &&& forall|i: int|
            0 <= i < self.totals@.len() ==> registered_at(
                self.livestreams@,
                (#[trigger] self.totals@[i]).livestream_id,
            ) && self.totals@[i].amount > 0
        &&& sum_totals(self.totals@) == self.total_pool
        &&& forall|id: u64|
            #![trigger sum_stakes_for(self.bets@, id)]
            #![trigger total_of(self.totals@, id)]
            sum_stakes_for(self.bets@, id) <= total_of(self.totals@, id)
        &&& (self.state != State::Resolved ==> forall|id: u64|
            #![trigger sum_stakes_for(self.bets@, id)]
            #![trigger total_of(self.totals@, id)]
            sum_stakes_for(self.bets@, id) == total_of(self.totals@, id))
        &&& self.total_bettors == self.bettors@.len()
        &&& forall|i: int|
            0 <= i < self.bets@.len() ==> self.bettors@.contains(
                (#[trigger] self.bets@[i]).user,
            )
        &&& (self.state == State::Open ==> self.closed_at.is_none())
        &&& ((self.state == State::Open || self.state == State::Closed)
            ==> self.resolved_at.is_none() && self.winning_livestream_id.is_none())
        &&& ((self.state == State::Closed || self.state == State::Resolved)
            ==> self.closed_at.is_some())
        &&& (self.state == State::Resolved ==> self.resolved_at.is_some() && (
        self.winning_livestream_id matches Some(w) && registered_at(self.livestreams@, w)
            && livestream_of(self.livestreams@, w).active && total_of(self.totals@, w) > 0))
    }

    /// Set up a market in the Open phase with the given outcome catalog.
    /// Accepts exactly the inputs `init_inputs_ok` describes and rejects
    /// every other with `ValidationError`, leaving nothing behind.
    pub fn initialize(
        livestream_ids: Vec<u64>,
        question: String,
        livestream_titles: Vec<String>,
        oracle: u64,
        factory: u64,
        now: u64,
    ) -> (r: Result<PredictionMarket, MarketError>)
        ensures
            match r {
                Ok(m) => {
                    &&& init_inputs_ok(livestream_ids@, livestream_titles@.len() as int)
                    &&& m.wf()
                    &&& m.question == question
                    &&& m.oracle == oracle
                    &&& m.factory == factory
                    &&& m.state == State::Open
                    &&& m.created_at == now
                    &&& m.closed_at.is_none()
                    &&& m.resolved_at.is_none()
                    &&& m.winning_livestream_id.is_none()
                    &&& m.total_pool == 0
                    &&& m.total_bettors == 0
                    &&& m.bets@.len() == 0
                    &&& m.totals@.len() == 0
                    &&& m.bettors@.len() == 0
                    &&& m.livestream_ids@ == livestream_ids@
                    &&& m.livestreams@.len() == livestream_ids@.len()
                    &&& forall|k: int|
                        0 <= k < livestream_ids@.len() ==> (#[trigger] m.livestreams@[k]).id
                            == livestream_ids@[k] && m.livestreams@[k].title@
                            == livestream_titles@[k]@ && m.livestreams@[k].active
                            && m.livestreams@[k].added_at == now
                },
                Err(e) => e == MarketError::ValidationError && !init_inputs_ok(
                    livestream_ids@,
                    livestream_titles@.len() as int,
                ),
            },
    {
        if livestream_ids.len() != livestream_titles.len() {
            return Err(MarketError::ValidationError);
        }
        let mut lss: Vec<LivestreamData> = Vec::new();
        let mut idsv: Vec<u64> = Vec::new();
        for i in 0..livestream_ids.len()
            invariant
                livestream_ids@.len() == livestream_titles@.len(),
                lss@.len() == i,
                idsv@ == livestream_ids@.subrange(0, i as int),
                forall|k: int|
                    0 <= k < i ==> (#[trigger] lss@[k]).id == livestream_ids@[k]
                        && lss@[k].title@ == livestream_titles@[k]@ && lss@[k].active
                        && lss@[k].added_at == now,
                forall|k: int| 0 <= k < i ==> livestream_ids@[k] != 0,
                u64s_unique(livestream_ids@.subrange(0, i as int)),
        {
            let id = livestream_ids[i];
            if id == 0 {
                return Err(MarketError::ValidationError);
            }
            if contains_u64(&idsv, id) {
                proof {
                    let k = choose|k: int| 0 <= k < idsv@.len() && idsv@[k] == id;
                    assert(livestream_ids@[k] == livestream_ids@[i as int]);
                    assert(!u64s_unique(livestream_ids@));
                }
                return Err(MarketError::ValidationError);
            }
            lss.push(
                LivestreamData {
                    id,
                    title: livestream_titles[i].clone(),
                    active: true,
                    added_at: now,
                },
            );
            idsv.push(id);
            proof {
                assert(livestream_ids@.subrange(0, i as int + 1) =~= livestream_ids@.subrange(
                    0,
                    i as int,
                ).push(id));
            }
        }
        proof {
            assert(livestream_ids@.subrange(0, livestream_ids@.len() as int) =~= livestream_ids@);
        }
        let m = PredictionMarket {
            question,
            oracle,
            factory,
            state: State::Open,
            created_at: now,
            closed_at: None,
            resolved_at: None,
            winning_livestream_id: None,
            total_pool: 0,
            total_bettors: 0,
            livestreams: lss,
            livestream_ids: idsv,
            bets: Vec::new(),
            totals: Vec::new(),
            bettors: Vec::new(),
        };
        proof {
            let s = m.livestreams@;
            assert(ls_unique(s));
            assert forall|k: int|
                0 <= k < m.livestream_ids@.len() implies registered_at(
                s,
                m.livestream_ids@[k],
            ) && livestream_of(s, m.livestream_ids@[k]).active by {
                assert(s[k].id == m.livestream_ids@[k]);
                lemma_ls_index_at(s, k);
            }
            assert forall|i2: int|
                0 <= i2 < s.len() && (#[trigger] s[i2]).active implies m.livestream_ids@.contains(
                s[i2].id,
            ) by {
                assert(m.livestream_ids@[i2] == s[i2].id);
            }
            assert(sum_totals(m.totals@) == 0);
            assert(m.wf());
        }
        Ok(m)
    }

    /// The record index of a registered outcome.
    fn find_livestream(&self, livestream_id: u64) -> (r: Option<usize>)
        ensures
            match r {
                Some(i) => i < self.livestreams@.len() && self.livestreams@[i as int].id
                    == livestream_id,
                None => !registered_at(self.livestreams@, livestream_id),
            },
    {
        for i in 0..self.livestreams.len()
            invariant
                forall|k: int| 0 <= k < i ==> (#[trigger] self.livestreams@[k]).id != livestream_id,
        {
            if self.livestreams[i].id == livestream_id {
                return Some(i);
            }
        }
        None
    }

    /// The ledger row index of a (bettor, outcome) key.
    fn find_bet(&self, user: u64, livestream_id: u64) -> (r: Option<usize>)
        ensures
            match r {
                Some(i) => i < self.bets@.len() && self.bets@[i as int].user == user
                    && self.bets@[i as int].livestream_id == livestream_id,
                None => forall|k: int|
                    0 <= k < self.bets@.len() ==> !((#[trigger] self.bets@[k]).user == user
                        && self.bets@[k].livestream_id == livestream_id),
            },
    {
        for i in 0..self.bets.len()
            invariant
                forall|k: int|
                    0 <= k < i ==> !((#[trigger] self.bets@[k]).user == user
                        && self.bets@[k].livestream_id == livestream_id),
        {
            if self.bets[i].user == user && self.bets[i].livestream_id == livestream_id {
                return Some(i);
            }
        }
        None
    }

    /// The aggregate row index of an outcome.
    fn find_total(&self, livestream_id: u64) -> (r: Option<usize>)
        ensures
            match r {
                Some(i) => i < self.totals@.len() && self.totals@[i as int].livestream_id
                    == livestream_id,
                None => forall|k: int|
                    0 <= k < self.totals@.len() ==> (#[trigger] self.totals@[k]).livestream_id
                        != livestream_id,
            },
    {
        for i in 0..self.totals.len()
            invariant
                forall|k: int|
                    0 <= k < i ==> (#[trigger] self.totals@[k]).livestream_id != livestream_id,
        {
            if self.totals[i].livestream_id == livestream_id {
                return Some(i);
            }
        }
        None
    }

    /// Stop the betting window. Only the authority may, and only once.
    pub fn close_market(&mut self, caller: u64, now: u64) -> (r: Result<(), MarketError>)
        requires
            old(self).wf(),
        ensures
            final(self).wf(),
            close_rel(*old(self), *final(self), caller, now, r),
    {
        if caller != self.oracle {
            return Err(MarketError::AuthorizationError);
        }
        if !matches!(self.state, State::Open) {
            return Err(MarketError::StateError);
        }
        self.state = State::Closed;
        self.closed_at = Some(now);
        Ok(())
    }

    /// Declare the winner. Only the authority may, only when Closed, only
    /// for a registered, active outcome that has stake backing it — a
    /// zero-stake winner would leave the pool unclaimable.
    pub fn resolve_market(&mut self, caller: u64, winning_livestream_id: u64, now: u64) -> (r:
        Result<(), MarketError>)
        requires
            old(self).wf(),
        ensures
            final(self).wf(),
            resolve_rel(*old(self), *final(self), caller, winning_livestream_id, now, r),
    {
        if caller != self.oracle {
            return Err(MarketError::AuthorizationError);
        }
        if !matches!(self.state, State::Closed) {
            return Err(MarketError::StateError);
        }
        let i = match self.find_livestream(winning_livestream_id) {
            Some(i) => i,
            None => {
                return Err(MarketError::NotFoundError);
            },
        };
        proof {
            lemma_ls_index_at(self.livestreams@, i as int);
        }
        if !self.livestreams[i].active {
            return Err(MarketError::NotFoundError);
        }
        let k = match self.find_total(winning_livestream_id) {
            Some(k) => k,
            None => {
                proof {
                    lemma_total_of_absent(self.totals@, winning_livestream_id);
                }
                return Err(MarketError::NoStakeError);
            },
        };
        proof {
            lemma_total_of_at(self.totals@, k as int);
        }
        self.state = State::Resolved;
        self.winning_livestream_id = Some(winning_livestream_id);
        self.resolved_at = Some(now);
        Ok(())
    }

    /// A bettor's current stake on an outcome; zero when none was placed or
    /// the stake was already consumed by a claim.
    pub fn get_user_bet(&self, user: u64, livestream_id: u64) -> (r: u128)
        requires
            self.wf(),
        ensures
            r == stake_of(self.bets@, user, livestream_id),
    {
        match self.find_bet(user, livestream_id) {
            Some(i) => {
                proof {
                    lemma_stake_of_at(self.bets@, i as int);
                }
                self.bets[i].amount
            },
            None => {
                proof {
                    lemma_stake_of_absent(self.bets@, user, livestream_id);
                }
                0
            },
        }
    }
}

/// What `close_market` decides and does, as a relation between the market
/// before and after the call.
pub open spec fn close_rel(
    pre: PredictionMarket,
    post: PredictionMarket,
    caller: u64,
    now: u64,
    r: Result<(), MarketError>,
) -> bool {
    if caller != pre.oracle {
        r == Err::<(), MarketError>(MarketError::AuthorizationError) && post == pre
    } else if pre.state != State::Open {
        r == Err::<(), MarketError>(MarketError::StateError) && post == pre
    } else {
        r == Ok::<(), MarketError>(()) && post == (PredictionMarket {
            state: State::Closed,
            closed_at: Some(now),
            ..pre
        })
    }
}

/// What `resolve_market` decides and does.
pub open spec fn resolve_rel(
    pre: PredictionMarket,
    post: PredictionMarket,
    caller: u64,
    winning_livestream_id: u64,
    now: u64,
    r: Result<(), MarketError>,
) -> bool {
    if caller != pre.oracle {
        r == Err::<(), MarketError>(MarketError::AuthorizationError) && post == pre
    } else if pre.state != State::Closed {
        r == Err::<(), MarketError>(MarketError::StateError) && post == pre
    } else if !registered_at(pre.livestreams@, winning_livestream_id) || !livestream_of(
        pre.livestreams@,
        winning_livestream_id,
    ).active {
        r == Err::<(), MarketError>(MarketError::NotFoundError) && post == pre
    } else if total_of(pre.totals@, winning_livestream_id) == 0 {
        r == Err::<(), MarketError>(MarketError::NoStakeError) && post == pre
    } else {
        r == Ok::<(), MarketError>(()) && post == (PredictionMarket {
            state: State::Resolved,
            winning_livestream_id: Some(winning_livestream_id),
            resolved_at: Some(now),
            ..pre
        })
    }
}


/// The administrative scalars no ledger operation touches.
pub open spec fn admin_eq(pre: PredictionMarket, post: PredictionMarket) -> bool {
    &&& post.question == pre.question
    &&& post.oracle == pre.oracle
    &&& post.factory == pre.factory
    &&& post.state == pre.state
    &&& post.created_at == pre.created_at
    &&& post.closed_at == pre.closed_at
    &&& post.resolved_at == pre.resolved_at
    &&& post.winning_livestream_id == pre.winning_livestream_id
}

/// Everything but the outcome catalog is unchanged.
pub open spec fn ledger_and_frame_eq(pre: PredictionMarket, post: PredictionMarket) -> bool {
    &&& admin_eq(pre, post)
    &&& post.total_pool == pre.total_pool
    &&& post.total_bettors == pre.total_bettors
    &&& post.bets@ == pre.bets@
    &&& post.totals@ == pre.totals@
    &&& post.bettors@ == pre.bettors@
}

/// The idempotent registration step: a no-op when the id is already in the
/// catalog, otherwise one new active record with the placeholder title and
/// the id appended to the enumerable list.
pub open spec fn registry_ensure(
    pre_ls: Seq<LivestreamData>,
    pre_ids: Seq<u64>,
    post_ls: Seq<LivestreamData>,
    post_ids: Seq<u64>,
    livestream_id: u64,
    now: u64,
) -> bool {
    if registered_at(pre_ls, livestream_id) {
        post_ls == pre_ls && post_ids == pre_ids
    } else {
        &&& post_ls.len() == pre_ls.len() + 1
        &&& post_ls.drop_last() == pre_ls
        &&& post_ls.last().id == livestream_id
        &&& post_ls.last().title@ == default_title()
        &&& post_ls.last().active
        &&& post_ls.last().added_at == now
        &&& post_ids == pre_ids.push(livestream_id)
    }
}

/// What `add_livestream` decides and does.
pub open spec fn add_livestream_rel(
    pre: PredictionMarket,
    post: PredictionMarket,
    caller: u64,
    livestream_id: u64,
    title: String,
    now: u64,
    r: Result<(), MarketError>,
) -> bool {
    if caller != pre.oracle {
        r == Err::<(), MarketError>(MarketError::AuthorizationError) && post == pre
    } else if pre.state != State::Open {
        r == Err::<(), MarketError>(MarketError::StateError) && post == pre
    } else if livestream_id == 0 {
        r == Err::<(), MarketError>(MarketError::ValidationError) && post == pre
    } else if registered_at(pre.livestreams@, livestream_id) {
        r == Err::<(), MarketError>(MarketError::ValidationError) && post == pre
    } else {
        &&& r == Ok::<(), MarketError>(())
        &&& post.livestreams@ == pre.livestreams@.push(
            (LivestreamData { id: livestream_id, title, active: true, added_at: now }),
        )
        &&& post.livestream_ids@ == pre.livestream_ids@.push(livestream_id)
        &&& ledger_and_frame_eq(pre, post)
    }
}

/// What `update_livestream_title` decides and does.
pub open spec fn update_livestream_title_rel(
    pre: PredictionMarket,
    post: PredictionMarket,
    caller: u64,
    livestream_id: u64,
    new_title: String,
    r: Result<(), MarketError>,
) -> bool {
    if caller != pre.oracle {
        r == Err::<(), MarketError>(MarketError::AuthorizationError) && post == pre
    } else if pre.state != State::Open {
        r == Err::<(), MarketError>(MarketError::StateError) && post == pre
    } else if !registered_at(pre.livestreams@, livestream_id) {
        r == Err::<(), MarketError>(MarketError::NotFoundError) && post == pre
    } else if !livestream_of(pre.livestreams@, livestream_id).active {
        r == Err::<(), MarketError>(MarketError::InactiveError) && post == pre
    } else {
        &&& r == Ok::<(), MarketError>(())
        &&& post.livestreams@ == pre.livestreams@.update(
            ls_index(pre.livestreams@, livestream_id),
            (LivestreamData {
                title: new_title,
                ..livestream_of(pre.livestreams@, livestream_id)
            }),
        )
        &&& post.livestream_ids@ == pre.livestream_ids@
        &&& ledger_and_frame_eq(pre, post)
    }
}

/// What `add_livestream_with_title` decides and does: open to any
/// authenticated caller, rejects empty titles, and is idempotent — an id
/// already in the catalog is left exactly as it is.
pub open spec fn add_livestream_with_title_rel(
    pre: PredictionMarket,
    post: PredictionMarket,
    livestream_id: u64,
    title: String,
    now: u64,
    r: Result<(), MarketError>,
) -> bool {
    if pre.state != State::Open {
        r == Err::<(), MarketError>(MarketError::StateError) && post == pre
    } else if livestream_id == 0 {
        r == Err::<(), MarketError>(MarketError::ValidationError) && post == pre
    } else if title@.len() == 0 {
        r == Err::<(), MarketError>(MarketError::ValidationError) && post == pre
    } else if registered_at(pre.livestreams@, livestream_id) {
        r == Ok::<(), MarketError>(()) && post == pre
    } else {
        &&& r == Ok::<(), MarketError>(())
        &&& post.livestreams@ == pre.livestreams@.push(
            (LivestreamData { id: livestream_id, title, active: true, added_at: now }),
        )
        &&& post.livestream_ids@ == pre.livestream_ids@.push(livestream_id)
        &&& ledger_and_frame_eq(pre, post)
    }
}

/// What `remove_livestream` decides and does: the record is kept but marked
/// inactive, and the id leaves the enumerable list.
pub open spec fn remove_livestream_rel(
    pre: PredictionMarket,
    post: PredictionMarket,
    caller: u64,
    livestream_id: u64,
    r: Result<(), MarketError>,
) -> bool {
    if caller != pre.oracle {
        r == Err::<(), MarketError>(MarketError::AuthorizationError) && post == pre
    } else if pre.state != State::Open {
        r == Err::<(), MarketError>(MarketError::StateError) && post == pre
    } else if !registered_at(pre.livestreams@, livestream_id) {
        r == Err::<(), MarketError>(MarketError::NotFoundError) && post == pre
    } else if !livestream_of(pre.livestreams@, livestream_id).active {
        r == Err::<(), MarketError>(MarketError::InactiveError) && post == pre
    } else {
        &&& r == Ok::<(), MarketError>(())
        &&& post.livestreams@ == pre.livestreams@.update(
            ls_index(pre.livestreams@, livestream_id),
            (LivestreamData { active: false, ..livestream_of(pre.livestreams@, livestream_id) }),
        )
        &&& post.livestream_ids@ == remove_value(pre.livestream_ids@, livestream_id)
        &&& ledger_and_frame_eq(pre, post)
    }
}

/// What a successful `place_bet` does to the market.
pub open spec fn place_bet_ok(
    pre: PredictionMarket,
    post: PredictionMarket,
    user: u64,
    livestream_id: u64,
    amount: u128,
    now: u64,
) -> bool {
    &&& registry_ensure(
        pre.livestreams@,
        pre.livestream_ids@,
        post.livestreams@,
        post.livestream_ids@,
        livestream_id,
        now,
    )
    &&& stake_of(post.bets@, user, livestream_id) == stake_of(pre.bets@, user, livestream_id)
        + amount
    &&& forall|u2: u64, id2: u64|
        !(u2 == user && id2 == livestream_id) ==> #[trigger] stake_of(post.bets@, u2, id2)
            == stake_of(pre.bets@, u2, id2)
    &&& total_of(post.totals@, livestream_id) == total_of(pre.totals@, livestream_id) + amount
    &&& forall|id2: u64|
        id2 != livestream_id ==> #[trigger] total_of(post.totals@, id2) == total_of(
            pre.totals@,
            id2,
        )
    &&& post.total_pool == pre.total_pool + amount
    &&& post.bettors@ == (if pre.bettors@.contains(user) {
        pre.bettors@
    } else {
        pre.bettors@.push(user)
    })
    &&& post.total_bettors == post.bettors@.len()
    &&& admin_eq(pre, post)
}

/// What `place_bet` decides and does. The value transfer happens outside
/// the ledger: reject first, so a caller can move the stake into custody
/// only when the wager will be accepted, and a failed transfer leaves no
/// ledger trace.
pub open spec fn place_bet_rel(
    pre: PredictionMarket,
    post: PredictionMarket,
    user: u64,
    livestream_id: u64,
    amount: u128,
    now: u64,
    r: Result<(), MarketError>,
) -> bool {
    if pre.state != State::Open {
        r == Err::<(), MarketError>(MarketError::StateError) && post == pre
    } else if amount == 0 {
        r == Err::<(), MarketError>(MarketError::ValidationError) && post == pre
    } else if livestream_id == 0 {
        r == Err::<(), MarketError>(MarketError::ValidationError) && post == pre
    } else if registered_at(pre.livestreams@, livestream_id) && !livestream_of(
        pre.livestreams@,
        livestream_id,
    ).active {
        r == Err::<(), MarketError>(MarketError::InactiveError) && post == pre
    } else if pre.total_pool + amount > u128::MAX {
        r == Err::<(), MarketError>(MarketError::ArithmeticOverflowError) && post == pre
    } else {
        r == Ok::<(), MarketError>(()) && place_bet_ok(pre, post, user, livestream_id, amount, now)
    }
}

/// What `claim_payout` decides and does: the winner's stake is consumed —
/// set to zero before any value moves — and the payout is the exact
/// pari-mutuel share `floor(stake * pool / winning_total)`.
pub open spec fn claim_rel(
    pre: PredictionMarket,
    post: PredictionMarket,
    user: u64,
    r: Result<u128, MarketError>,
) -> bool {
    if pre.state != State::Resolved {
        r == Err::<u128, MarketError>(MarketError::StateError) && post == pre
    } else {
        let w = pre.winning_livestream_id.unwrap();
        if stake_of(pre.bets@, user, w) == 0 {
            r == Err::<u128, MarketError>(MarketError::NoWinningStakeError) && post == pre
        } else {
            &&& (r matches Ok(p) && p == (stake_of(pre.bets@, user, w) * (pre.total_pool as int))
                / total_of(pre.totals@, w) && p <= pre.total_pool)
            &&& stake_of(post.bets@, user, w) == 0
            &&& forall|u2: u64, id2: u64|
                !(u2 == user && id2 == w) ==> #[trigger] stake_of(post.bets@, u2, id2)
                    == stake_of(pre.bets@, u2, id2)
            &&& post.bets@.len() == pre.bets@.len()
            &&& post.livestreams@ == pre.livestreams@
            &&& post.livestream_ids@ == pre.livestream_ids@
            &&& post.totals@ == pre.totals@
            &&& post.total_pool == pre.total_pool
            &&& post.bettors@ == pre.bettors@
            &&& post.total_bettors == pre.total_bettors
            &&& admin_eq(pre, post)
        }
    }
}

/// Extending the catalog by a fresh active record keeps the market
/// well-formed.
proof fn lemma_registry_extend_wf(pre: PredictionMarket, post: PredictionMarket, id: u64, now: u64)
    requires
        pre.wf(),
        pre.state == State::Open,
        id != 0,
        !registered_at(pre.livestreams@, id),
        post.livestreams@.len() == pre.livestreams@.len() + 1,
        post.livestreams@.drop_last() == pre.livestreams@,
        post.livestreams@.last().id == id,
        post.livestreams@.last().active,
        post.livestream_ids@ == pre.livestream_ids@.push(id),
        ledger_and_frame_eq(pre, post),
    ensures
        post.wf(),
{
    let s = pre.livestreams@;
    let ps = post.livestreams@;
    let n = s.len() as int;
    assert(forall|i: int| 0 <= i < n ==> ps[i] == s[i]) by {
        assert(forall|i: int| 0 <= i < n ==> ps.drop_last()[i] == ps[i]);
    }
    assert(ls_unique(ps)) by {
        assert forall|i: int, j: int| 0 <= i < j < ps.len() implies ps[i].id != ps[j].id by {
            if j == n {
                if ps[i].id == id {
                    assert(s[i].id == id);
                    assert(registered_at(s, id));
                }
            }
        }
    }
    assert(!pre.livestream_ids@.contains(id)) by {
        if pre.livestream_ids@.contains(id) {
            let k = choose|k: int|
                0 <= k < pre.livestream_ids@.len() && pre.livestream_ids@[k] == id;
            assert(registered_at(s, pre.livestream_ids@[k]));
        }
    }
    lemma_unique_push(pre.livestream_ids@, id);
    assert forall|k: int|
        0 <= k < post.livestream_ids@.len() implies registered_at(
        ps,
        #[trigger] post.livestream_ids@[k],
    ) && livestream_of(ps, post.livestream_ids@[k]).active by {
        if k < pre.livestream_ids@.len() {
            let x = pre.livestream_ids@[k];
            assert(post.livestream_ids@[k] == x);
            assert(registered_at(s, x));
            let j = ls_index(s, x);
            assert(0 <= j < n && s[j].id == x);
            lemma_ls_index_at(s, j);
            assert(ps[j] == s[j]);
            lemma_ls_index_at(ps, j);
        } else {
            assert(post.livestream_ids@[k] == id);
            assert(ps[n].id == id && ps[n].active);
            lemma_ls_index_at(ps, n);
        }
    }
    assert forall|i: int|
        0 <= i < ps.len() && (#[trigger] ps[i]).active implies post.livestream_ids@.contains(
        ps[i].id,
    ) by {
        if i < n {
            assert(pre.livestream_ids@.contains(s[i].id));
            let k = choose|k: int|
                0 <= k < pre.livestream_ids@.len() && pre.livestream_ids@[k] == s[i].id;
            assert(post.livestream_ids@[k] == s[i].id);
        } else {
            assert(post.livestream_ids@[pre.livestream_ids@.len() as int] == id);
        }
    }
    assert forall|i: int|
        0 <= i < post.bets@.len() implies registered_at(
        ps,
        (#[trigger] post.bets@[i]).livestream_id,
    ) by {
        assert(registered_at(s, pre.bets@[i].livestream_id));
        let j = choose|j: int| 0 <= j < n && s[j].id == pre.bets@[i].livestream_id;
        assert(ps[j].id == pre.bets@[i].livestream_id);
    }
    assert forall|i: int|
        0 <= i < post.totals@.len() implies registered_at(
        ps,
        (#[trigger] post.totals@[i]).livestream_id,
    ) && post.totals@[i].amount > 0 by {
        assert(registered_at(s, pre.totals@[i].livestream_id));
        let j = choose|j: int| 0 <= j < n && s[j].id == pre.totals@[i].livestream_id;
        assert(ps[j].id == pre.totals@[i].livestream_id);
        assert(pre.totals@[i].amount > 0);
    }
}

/// A catalog rewrite that keeps every record's id and active flag keeps the
/// market well-formed.
proof fn lemma_registry_same_shape_wf(pre: PredictionMarket, post: PredictionMarket)
    requires
        pre.wf(),
        post.livestreams@.len() == pre.livestreams@.len(),
        forall|i: int|
            0 <= i < pre.livestreams@.len() ==> (#[trigger] post.livestreams@[i]).id
                == pre.livestreams@[i].id && post.livestreams@[i].active
                == pre.livestreams@[i].active,
        post.livestream_ids@ == pre.livestream_ids@,
        ledger_and_frame_eq(pre, post),
    ensures
        post.wf(),
{
    let s = pre.livestreams@;
    let ps = post.livestreams@;
    let n = s.len() as int;
    assert(ls_unique(ps));
    assert forall|k: int|
        0 <= k < post.livestream_ids@.len() implies registered_at(
        ps,
        #[trigger] post.livestream_ids@[k],
    ) && livestream_of(ps, post.livestream_ids@[k]).active by {
        let x = pre.livestream_ids@[k];
        assert(registered_at(s, x));
        let j = ls_index(s, x);
        assert(0 <= j < n && s[j].id == x);
        lemma_ls_index_at(s, j);
        assert(ps[j].id == x && ps[j].active == s[j].active);
        lemma_ls_index_at(ps, j);
    }
    assert forall|i: int|
        0 <= i < ps.len() && (#[trigger] ps[i]).active implies post.livestream_ids@.contains(
        ps[i].id,
    ) by {
        assert(s[i].active && s[i].id == ps[i].id);
        assert(pre.livestream_ids@.contains(s[i].id));
    }
    assert forall|i: int|
        0 <= i < post.bets@.len() implies registered_at(
        ps,
        (#[trigger] post.bets@[i]).livestream_id,
    ) by {
        assert(registered_at(s, pre.bets@[i].livestream_id));
        let j = choose|j: int| 0 <= j < n && s[j].id == pre.bets@[i].livestream_id;
        assert(ps[j].id == pre.bets@[i].livestream_id);
    }
    assert forall|i: int|
        0 <= i < post.totals@.len() implies registered_at(
        ps,
        (#[trigger] post.totals@[i]).livestream_id,
    ) && post.totals@[i].amount > 0 by {
        assert(registered_at(s, pre.totals@[i].livestream_id));
        let j = choose|j: int| 0 <= j < n && s[j].id == pre.totals@[i].livestream_id;
        assert(ps[j].id == pre.totals@[i].livestream_id);
    }
    if post.state == State::Resolved {
        let w = pre.winning_livestream_id.unwrap();
        let j = ls_index(s, w);
        assert(0 <= j < n && s[j].id == w);
        lemma_ls_index_at(s, j);
        assert(ps[j].id == w && ps[j].active == s[j].active);
        lemma_ls_index_at(ps, j);
    }
}

/// Retiring one outcome keeps the market well-formed (only while Open).
proof fn lemma_registry_retire_wf(pre: PredictionMarket, post: PredictionMarket, id: u64)
    requires
        pre.wf(),
        pre.state == State::Open,
        registered_at(pre.livestreams@, id),
        post.livestreams@.len() == pre.livestreams@.len(),
        forall|i: int|
            0 <= i < pre.livestreams@.len() ==> (#[trigger] post.livestreams@[i]).id
                == pre.livestreams@[i].id,
        forall|i: int|
            0 <= i < pre.livestreams@.len() && pre.livestreams@[i].id != id ==> (
            #[trigger] post.livestreams@[i]).active == pre.livestreams@[i].active,
        forall|i: int|
            0 <= i < post.livestreams@.len() && (#[trigger] post.livestreams@[i]).id == id
                ==> !post.livestreams@[i].active,
        post.livestream_ids@ == remove_value(pre.livestream_ids@, id),
        ledger_and_frame_eq(pre, post),
    ensures
        post.wf(),
{
    let s = pre.livestreams@;
    let ps = post.livestreams@;
    let n = s.len() as int;
    assert(ls_unique(ps));
    lemma_remove_value_unique(pre.livestream_ids@, id);
    assert forall|k: int|
        0 <= k < post.livestream_ids@.len() implies registered_at(
        ps,
        #[trigger] post.livestream_ids@[k],
    ) && livestream_of(ps, post.livestream_ids@[k]).active by {
        let x = post.livestream_ids@[k];
        assert(post.livestream_ids@.contains(x));
        lemma_remove_value_contains(pre.livestream_ids@, id, x);
        assert(pre.livestream_ids@.contains(x) && x != id);
        let k0 = choose|k0: int|
            0 <= k0 < pre.livestream_ids@.len() && pre.livestream_ids@[k0] == x;
        assert(registered_at(s, x));
        let j = ls_index(s, x);
        assert(0 <= j < n && s[j].id == x);
        lemma_ls_index_at(s, j);
        assert(ps[j].id == x && ps[j].active == s[j].active);
        lemma_ls_index_at(ps, j);
    }
    assert forall|i: int|
        0 <= i < ps.len() && (#[trigger] ps[i]).active implies post.livestream_ids@.contains(
        ps[i].id,
    ) by {
        assert(ps[i].id == s[i].id);
        assert(ps[i].id != id);
        assert(s[i].active);
        assert(pre.livestream_ids@.contains(s[i].id));
        lemma_remove_value_contains(pre.livestream_ids@, id, s[i].id);
    }
    assert forall|i: int|
        0 <= i < post.bets@.len() implies registered_at(
        ps,
        (#[trigger] post.bets@[i]).livestream_id,
    ) by {
        assert(registered_at(s, pre.bets@[i].livestream_id));
        let j = choose|j: int| 0 <= j < n && s[j].id == pre.bets@[i].livestream_id;
        assert(ps[j].id == pre.bets@[i].livestream_id);
    }
    assert forall|i: int|
        0 <= i < post.totals@.len() implies registered_at(
        ps,
        (#[trigger] post.totals@[i]).livestream_id,
    ) && post.totals@[i].amount > 0 by {
        assert(registered_at(s, pre.totals@[i].livestream_id));
        let j = choose|j: int| 0 <= j < n && s[j].id == pre.totals@[i].livestream_id;
        assert(ps[j].id == pre.totals@[i].livestream_id);
    }
}


impl PredictionMarket {
    /// Idempotent registration with the placeholder title, used by the
    /// ledger's auto-registration path.
    fn ensure_registered(&mut self, livestream_id: u64, now: u64)
        requires
            old(self).wf(),
            old(self).state == State::Open,
            livestream_id != 0,
            registered_at(old(self).livestreams@, livestream_id) ==> livestream_of(
                old(self).livestreams@,
                livestream_id,
            ).active,
        ensures
            final(self).wf(),
            registry_ensure(
                old(self).livestreams@,
                old(self).livestream_ids@,
                final(self).livestreams@,
                final(self).livestream_ids@,
                livestream_id,
                now,
            ),
            ledger_and_frame_eq(*old(self), *final(self)),
            registered_at(final(self).livestreams@, livestream_id),
            livestream_of(final(self).livestreams@, livestream_id).active,
    {
        match self.find_livestream(livestream_id) {
            Some(_i) => {},
            None => {
                let title = String::from_str("Project #");
                self.livestreams.push(
                    LivestreamData { id: livestream_id, title, active: true, added_at: now },
                );
                self.livestream_ids.push(livestream_id);
                proof {
                    assert(self.livestreams@.drop_last() =~= old(self).livestreams@);
                    lemma_registry_extend_wf(*old(self), *self, livestream_id, now);
                    lemma_ls_index_at(self.livestreams@, self.livestreams@.len() - 1);
                }
            },
        }
    }

    /// Register a new outcome: authority-only, only while Open, id nonzero
    /// and not already present.
    pub fn add_livestream(&mut self, caller: u64, livestream_id: u64, title: String, now: u64) -> (
        r: Result<(), MarketError>)
        requires
            old(self).wf(),
        ensures
            final(self).wf(),
            add_livestream_rel(*old(self), *final(self), caller, livestream_id, title, now, r),
    {
        if caller != self.oracle {
            return Err(MarketError::AuthorizationError);
        }
        if !matches!(self.state, State::Open) {
            return Err(MarketError::StateError);
        }
        if livestream_id == 0 {
            return Err(MarketError::ValidationError);
        }
        if self.find_livestream(livestream_id).is_some() {
            return Err(MarketError::ValidationError);
        }
        self.livestreams.push(
            LivestreamData { id: livestream_id, title, active: true, added_at: now },
        );
        self.livestream_ids.push(livestream_id);
        proof {
            assert(self.livestreams@.drop_last() =~= old(self).livestreams@);
            lemma_registry_extend_wf(*old(self), *self, livestream_id, now);
        }
        Ok(())
    }

    /// Rename an outcome: authority-only, only while Open, and only for an
    /// outcome that exists and is still active.
    pub fn update_livestream_title(
        &mut self,
        caller: u64,
        livestream_id: u64,
        new_title: String,
    ) -> (r: Result<(), MarketError>)
        requires
            old(self).wf(),
        ensures
            final(self).wf(),
            update_livestream_title_rel(
                *old(self),
                *final(self),
                caller,
                livestream_id,
                new_title,
                r,
            ),
    {
        if caller != self.oracle {
            return Err(MarketError::AuthorizationError);
        }
        if !matches!(self.state, State::Open) {
            return Err(MarketError::StateError);
        }
        let i = match self.find_livestream(livestream_id) {
            Some(i) => i,
            None => {
                return Err(MarketError::NotFoundError);
            },
        };
        proof {
            lemma_ls_index_at(self.livestreams@, i as int);
        }
        if !self.livestreams[i].active {
            return Err(MarketError::InactiveError);
        }
        self.livestreams[i] = LivestreamData {
            id: livestream_id,
            title: new_title,
            active: true,
            added_at: self.livestreams[i].added_at,
        };
        proof {
            lemma_registry_same_shape_wf(*old(self), *self);
        }
        Ok(())
    }

    /// Register an outcome if it is not yet present; a no-op otherwise.
    /// Any authenticated caller may use it; empty titles are rejected.
    pub fn add_livestream_with_title(
        &mut self,
        _caller: u64,
        livestream_id: u64,
        title: String,
        now: u64,
    ) -> (r: Result<(), MarketError>)
        requires
            old(self).wf(),
        ensures
            final(self).wf(),
            add_livestream_with_title_rel(
                *old(self),
                *final(self),
                livestream_id,
                title,
                now,
                r,
            ),
    {
        if !matches!(self.state, State::Open) {
            return Err(MarketError::StateError);
        }
        if livestream_id == 0 {
            return Err(MarketError::ValidationError);
        }
        if title.as_str().unicode_len() == 0 {
            return Err(MarketError::ValidationError);
        }
        if self.find_livestream(livestream_id).is_some() {
            return Ok(());
        }
        self.livestreams.push(
            LivestreamData { id: livestream_id, title, active: true, added_at: now },
        );
        self.livestream_ids.push(livestream_id);
        proof {
            assert(self.livestreams@.drop_last() =~= old(self).livestreams@);
            lemma_registry_extend_wf(*old(self), *self, livestream_id, now);
        }
        Ok(())
    }

    /// Retire an outcome: authority-only, only while Open. The record is
    /// kept (historical stakes stay readable) but it can no longer receive
    /// bets, be renamed, or be declared winner, and it leaves enumeration.
    pub fn remove_livestream(&mut self, caller: u64, livestream_id: u64) -> (r: Result<
        (),
        MarketError,
    >)
        requires
            old(self).wf(),
        ensures
            final(self).wf(),
            remove_livestream_rel(*old(self), *final(self), caller, livestream_id, r),
    {
        if caller != self.oracle {
            return Err(MarketError::AuthorizationError);
        }
        if !matches!(self.state, State::Open) {
            return Err(MarketError::StateError);
        }
        let i = match self.find_livestream(livestream_id) {
            Some(i) => i,
            None => {
                return Err(MarketError::NotFoundError);
            },
        };
        proof {
            lemma_ls_index_at(self.livestreams@, i as int);
        }
        if !self.livestreams[i].active {
            return Err(MarketError::InactiveError);
        }
        let old_rec_added = self.livestreams[i].added_at;
        let old_title = self.livestreams[i].title.clone();
        self.livestreams[i] = LivestreamData {
            id: livestream_id,
            title: old_title,
            active: false,
            added_at: old_rec_added,
        };
        let new_ids = remove_u64(&self.livestream_ids, livestream_id);
        self.livestream_ids = new_ids;
        proof {
            lemma_registry_retire_wf(*old(self), *self, livestream_id);
        }
        Ok(())
    }
}


impl PredictionMarket {
    /// Record a wager: only while Open, positive amount, nonzero id, not on
    /// a retired outcome, and only if the pool accumulator has room. An
    /// unseen outcome is auto-registered under the placeholder title. On
    /// success the bettor's stake, the outcome aggregate and the pool all
    /// grow by `amount`, and a first-time bettor is counted exactly once.
    pub fn place_bet(&mut self, user: u64, livestream_id: u64, amount: u128, now: u64) -> (r:
        Result<(), MarketError>)
        requires
            old(self).wf(),
        ensures
            final(self).wf(),
            place_bet_rel(*old(self), *final(self), user, livestream_id, amount, now, r),
    {
        if !matches!(self.state, State::Open) {
            return Err(MarketError::StateError);
        }
        if amount == 0 {
            return Err(MarketError::ValidationError);
        }
        if livestream_id == 0 {
            return Err(MarketError::ValidationError);
        }
        match self.find_livestream(livestream_id) {
            Some(i) => {
                proof {
                    lemma_ls_index_at(self.livestreams@, i as int);
                }
                if !self.livestreams[i].active {
                    return Err(MarketError::InactiveError);
                }
            },
            None => {},
        }
        if amount > u128::MAX - self.total_pool {
            return Err(MarketError::ArithmeticOverflowError);
        }
        self.ensure_registered(livestream_id, now);
        let ghost m1 = *self;
        // Track a first-time bettor exactly once.
        if !contains_u64(&self.bettors, user) {
            proof {
                lemma_unique_push(self.bettors@, user);
            }
            self.bettors.push(user);
            self.total_bettors = self.bettors.len() as u64;
        }
        proof {
            assert(u64s_unique(self.bettors@));
            assert(self.total_bettors == self.bettors@.len());
            assert(self.bettors@ == (if old(self).bettors@.contains(user) {
                old(self).bettors@
            } else {
                old(self).bettors@.push(user)
            }));
            assert forall|x: u64| old(self).bettors@.contains(x) implies self.bettors@.contains(
                x,
            ) by {
                lemma_contains_push(old(self).bettors@, user, x);
            }
            assert(self.bettors@.contains(user)) by {
                lemma_contains_push(old(self).bettors@, user, user);
            }
        }
        // Credit the stake row.
        let ghost pre_bets = self.bets@;
        match self.find_bet(user, livestream_id) {
            Some(j) => {
                proof {
                    lemma_stake_of_at(pre_bets, j as int);
                    lemma_stake_le_sum(pre_bets, user, livestream_id);
                    lemma_total_le_sum_totals(self.totals@, livestream_id);
                }
                let a = self.bets[j].amount;
                let e = BetEntry { user, livestream_id, amount: a + amount };
                self.bets[j] = e;
                proof {
                    lemma_bets_unique_update(pre_bets, j as int, e);
                    lemma_stake_of_update(pre_bets, j as int, e, user, livestream_id);
                    assert forall|u2: u64, id2: u64|
                        !(u2 == user && id2 == livestream_id) implies #[trigger] stake_of(
                        self.bets@,
                        u2,
                        id2,
                    ) == stake_of(pre_bets, u2, id2) by {
                        lemma_stake_of_update(pre_bets, j as int, e, u2, id2);
                    }
                    assert forall|id2: u64|
                        #![trigger sum_stakes_for(self.bets@, id2)]
                        sum_stakes_for(self.bets@, id2) == sum_stakes_for(pre_bets, id2) + (
                        if id2 == livestream_id {
                            amount as int
                        } else {
                            0int
                        }) by {
                        lemma_sum_stakes_update(pre_bets, j as int, e, id2);
                    }
                    assert(forall|i2: int|
                        0 <= i2 < self.bets@.len() ==> ((#[trigger] self.bets@[i2]).user == user
                            && self.bets@[i2].livestream_id == livestream_id) || (i2
                            < pre_bets.len() && self.bets@[i2].user == pre_bets[i2].user
                            && self.bets@[i2].livestream_id == pre_bets[i2].livestream_id));
                }
            },
            None => {
                let e = BetEntry { user, livestream_id, amount };
                proof {
                    lemma_stake_of_absent(pre_bets, user, livestream_id);
                    lemma_bets_unique_push(pre_bets, e);
                }
                self.bets.push(e);
                proof {
                    lemma_stake_of_push(pre_bets, e, user, livestream_id);
                    assert forall|u2: u64, id2: u64|
                        !(u2 == user && id2 == livestream_id) implies #[trigger] stake_of(
                        self.bets@,
                        u2,
                        id2,
                    ) == stake_of(pre_bets, u2, id2) by {
                        lemma_stake_of_push(pre_bets, e, u2, id2);
                    }
                    assert forall|id2: u64|
                        #![trigger sum_stakes_for(self.bets@, id2)]
                        sum_stakes_for(self.bets@, id2) == sum_stakes_for(pre_bets, id2) + (
                        if id2 == livestream_id {
                            amount as int
                        } else {
                            0int
                        }) by {
                        lemma_sum_stakes_push(pre_bets, e, id2);
                    }
                    assert(forall|i2: int|
                        0 <= i2 < self.bets@.len() ==> ((#[trigger] self.bets@[i2]).user == user
                            && self.bets@[i2].livestream_id == livestream_id) || (i2
                            < pre_bets.len() && self.bets@[i2].user == pre_bets[i2].user
                            && self.bets@[i2].livestream_id == pre_bets[i2].livestream_id));
                }
            },
        }
        // Credit the outcome aggregate.
        let ghost pre_totals = self.totals@;
        match self.find_total(livestream_id) {
            Some(k) => {
                proof {
                    lemma_total_of_at(pre_totals, k as int);
                    lemma_total_le_sum_totals(pre_totals, livestream_id);
                }
                let t = self.totals[k].amount;
                let e = TotalEntry { livestream_id, amount: t + amount };
                self.totals[k] = e;
                proof {
                    lemma_totals_unique_update(pre_totals, k as int, e);
                    lemma_total_of_update(pre_totals, k as int, e, livestream_id);
                    assert forall|id2: u64|
                        id2 != livestream_id implies #[trigger] total_of(self.totals@, id2)
                        == total_of(pre_totals, id2) by {
                        lemma_total_of_update(pre_totals, k as int, e, id2);
                    }
                    lemma_sum_totals_update(pre_totals, k as int, e);
                    assert(forall|i2: int|
                        0 <= i2 < self.totals@.len() ==> ((#[trigger] self.totals@[i2]).livestream_id
                            == livestream_id && self.totals@[i2].amount > 0) || (i2
                            < pre_totals.len() && self.totals@[i2] == pre_totals[i2]));
                }
            },
            None => {
                let e = TotalEntry { livestream_id, amount };
                proof {
                    lemma_total_of_absent(pre_totals, livestream_id);
                    lemma_totals_unique_push(pre_totals, e);
                }
                self.totals.push(e);
                proof {
                    lemma_total_of_push(pre_totals, e, livestream_id);
                    assert forall|id2: u64|
                        id2 != livestream_id implies #[trigger] total_of(self.totals@, id2)
                        == total_of(pre_totals, id2) by {
                        lemma_total_of_push(pre_totals, e, id2);
                    }
                    lemma_sum_totals_push(pre_totals, e);
                    assert(forall|i2: int|
                        0 <= i2 < self.totals@.len() ==> ((#[trigger] self.totals@[i2]).livestream_id
                            == livestream_id && self.totals@[i2].amount > 0) || (i2
                            < pre_totals.len() && self.totals@[i2] == pre_totals[i2]));
                }
            },
        }
        self.total_pool = self.total_pool + amount;
        proof {
            let pre = *old(self);
            let post = *self;
            // The market stays well-formed.
            assert forall|i2: int|
                0 <= i2 < post.bets@.len() implies registered_at(
                post.livestreams@,
                (#[trigger] post.bets@[i2]).livestream_id,
            ) && post.bettors@.contains(post.bets@[i2].user) by {
                if !(post.bets@[i2].user == user && post.bets@[i2].livestream_id
                    == livestream_id) {
                    assert(registered_at(m1.livestreams@, m1.bets@[i2].livestream_id));
                    assert(m1.bettors@.contains(m1.bets@[i2].user));
                }
            }
            assert forall|i2: int|
                0 <= i2 < post.totals@.len() implies registered_at(
                post.livestreams@,
                (#[trigger] post.totals@[i2]).livestream_id,
            ) && post.totals@[i2].amount > 0 by {
                if !(post.totals@[i2].livestream_id == livestream_id) {
                    assert(post.totals@[i2] == pre_totals[i2]);
                    assert(registered_at(m1.livestreams@, m1.totals@[i2].livestream_id));
                }
            }
            assert forall|id2: u64|
                #![trigger sum_stakes_for(post.bets@, id2)]
                #![trigger total_of(post.totals@, id2)]
                sum_stakes_for(post.bets@, id2) == total_of(post.totals@, id2) by {
                if id2 == livestream_id {
                } else {
                }
            }
            assert(post.wf());
            assert(place_bet_ok(pre, post, user, livestream_id, amount, now));
        }
        Ok(())
    }

    /// Pay a winner: only once Resolved, and only for a bettor whose stake
    /// on the winning outcome has not been consumed yet. The stake is set
    /// to zero — preventing any second claim — and the exact share
    /// `floor(stake * pool / winning_total)` is returned for the caller to
    /// transfer out of custody.
    pub fn claim_payout(&mut self, user: u64) -> (r: Result<u128, MarketError>)
        requires
            old(self).wf(),
        ensures
            final(self).wf(),
            claim_rel(*old(self), *final(self), user, r),
    {
        if !matches!(self.state, State::Resolved) {
            return Err(MarketError::StateError);
        }
        let w = match self.winning_livestream_id {
            Some(w) => w,
            None => {
                proof {
                    assert(false);
                }
                return Err(MarketError::StateError);
            },
        };
        let j = match self.find_bet(user, w) {
            Some(j) => j,
            None => {
                proof {
                    lemma_stake_of_absent(self.bets@, user, w);
                }
                return Err(MarketError::NoWinningStakeError);
            },
        };
        proof {
            lemma_stake_of_at(self.bets@, j as int);
        }
        let s_amt = self.bets[j].amount;
        if s_amt == 0 {
            return Err(MarketError::NoWinningStakeError);
        }
        let k = match self.find_total(w) {
            Some(k) => k,
            None => {
                proof {
                    lemma_total_of_absent(self.totals@, w);
                    assert(false);
                }
                return Err(MarketError::StateError);
            },
        };
        proof {
            lemma_total_of_at(self.totals@, k as int);
            lemma_stake_le_sum(self.bets@, user, w);
        }
        let wtot = self.totals[k].amount;
        let payout = mul_div(s_amt, self.total_pool, wtot);
        let ghost pre_bets = self.bets@;
        let e = BetEntry { user, livestream_id: w, amount: 0 };
        self.bets[j] = e;
        proof {
            lemma_bets_unique_update(pre_bets, j as int, e);
            lemma_stake_of_update(pre_bets, j as int, e, user, w);
            assert forall|u2: u64, id2: u64|
                !(u2 == user && id2 == w) implies #[trigger] stake_of(self.bets@, u2, id2)
                == stake_of(pre_bets, u2, id2) by {
                lemma_stake_of_update(pre_bets, j as int, e, u2, id2);
            }
            assert forall|id2: u64|
                #![trigger sum_stakes_for(self.bets@, id2)]
                sum_stakes_for(self.bets@, id2) <= total_of(self.totals@, id2) by {
                lemma_sum_stakes_update(pre_bets, j as int, e, id2);
            }
            assert forall|i2: int|
                0 <= i2 < self.bets@.len() implies registered_at(
                self.livestreams@,
                (#[trigger] self.bets@[i2]).livestream_id,
            ) && self.bettors@.contains(self.bets@[i2].user) by {
                assert(self.bets@[i2].user == pre_bets[i2].user && self.bets@[i2].livestream_id
                    == pre_bets[i2].livestream_id);
            }
            assert(self.wf());
        }
        Ok(payout)
    }

    /// The market summary: enumerable outcome ids, question, phase, winner
    /// (zero while unresolved), pool, and how many distinct bettors joined.
    pub fn get_market_info(&self) -> (r: (Vec<u64>, String, State, u64, u128, u64))
        ensures
            r.0@ == self.livestream_ids@,
            r.1@ == self.question@,
            r.2 == self.state,
            r.3 == (match self.winning_livestream_id {
                Some(w) => w,
                None => 0u64,
            }),
            r.4 == self.total_pool,
            r.5 == self.total_bettors,
    {
        let ids = copy_u64_vec(&self.livestream_ids);
        let q = self.question.clone();
        let w = match self.winning_livestream_id {
            Some(w) => w,
            None => 0,
        };
        (ids, q, self.state, w, self.total_pool, self.total_bettors)
    }

    /// One outcome's aggregate stake, its integer share of the pool in
    /// hundredths (zero while the pool is empty), and whether it is active.
    pub fn get_livestream_bets(&self, livestream_id: u64) -> (r: Result<
        (u128, u64, bool),
        MarketError,
    >)
        requires
            self.wf(),
        ensures
            match r {
                Ok(t) => {
                    &&& registered_at(self.livestreams@, livestream_id)
                    &&& t.0 == total_of(self.totals@, livestream_id)
                    &&& t.1 == (if self.total_pool > 0 {
                        (total_of(self.totals@, livestream_id) * 100) / (self.total_pool as int)
                    } else {
                        0int
                    })
                    &&& t.2 == livestream_of(self.livestreams@, livestream_id).active
                },
                Err(e) => e == MarketError::NotFoundError && !registered_at(
                    self.livestreams@,
                    livestream_id,
                ),
            },
    {
        let i = match self.find_livestream(livestream_id) {
            Some(i) => i,
            None => {
                return Err(MarketError::NotFoundError);
            },
        };
        proof {
            lemma_ls_index_at(self.livestreams@, i as int);
        }
        let amount: u128 = match self.find_total(livestream_id) {
            Some(k) => {
                proof {
                    lemma_total_of_at(self.totals@, k as int);
                }
                self.totals[k].amount
            },
            None => {
                proof {
                    lemma_total_of_absent(self.totals@, livestream_id);
                }
                0
            },
        };
        let percentage: u64 = if self.total_pool > 0 {
            proof {
                lemma_total_le_sum_totals(self.totals@, livestream_id);
            }
            let p = mul_div(amount, 100, self.total_pool);
            p as u64
        } else {
            0
        };
        Ok((amount, percentage, self.livestreams[i].active))
    }
}

} // verus!
