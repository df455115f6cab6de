//! The library's global guarantees — conservation of value, phase
//! monotonicity, no double payout, auto-registration, the resolve guard,
//! and the factory's index agreement — stated and proved over the
//! operation relations and the well-formedness invariants.

use vstd::prelude::*;
use crate::errors::MarketError;
use crate::factory::MarketFactory;
use crate::factory::markets_of;
use crate::factory::streams_of;
use crate::market::PredictionMarket;
use crate::market::State;
use crate::market::add_livestream_rel;
use crate::market::add_livestream_with_title_rel;
use crate::market::claim_rel;
use crate::market::close_rel;
use crate::market::default_title;
use crate::market::livestream_of;
use crate::market::lemma_ls_index_at;
use crate::market::place_bet_rel;
use crate::market::registered_at;
use crate::market::remove_livestream_rel;
use crate::market::resolve_rel;
use crate::market::update_livestream_title_rel;
use crate::seq_util::u64s_unique;
use crate::sums::stake_of;
use crate::sums::sum_stakes_for;
use crate::sums::sum_totals;
use crate::sums::total_of;

verus! {

/// Conservation of value: in every well-formed market the pool equals the
/// sum of the per-outcome aggregates, and — at every observation point
/// before payouts start consuming stakes — each aggregate equals the sum of
/// the stakes behind it. Once Resolved, claims only ever lower the summed
/// stakes, never past their aggregate.
pub proof fn lemma_conservation(m: PredictionMarket)
    requires
        m.wf(),
    ensures
        sum_totals(m.totals@) == m.total_pool,
        m.state != State::Resolved ==> forall|id: u64|
            #![trigger sum_stakes_for(m.bets@, id)]
            sum_stakes_for(m.bets@, id) == total_of(m.totals@, id),
        forall|id: u64|
            #![trigger sum_stakes_for(m.bets@, id)]
            sum_stakes_for(m.bets@, id) <= total_of(m.totals@, id),
{
}

/// Phase monotonicity, wagering side: once the market has left Open —
/// Closed or Resolved — `place_bet` always fails with `StateError` and
/// changes nothing.
pub proof fn lemma_closed_rejects_bets(
    pre: PredictionMarket,
    post: PredictionMarket,
    user: u64,
    livestream_id: u64,
    amount: u128,
    now: u64,
    r: Result<(), MarketError>,
)
    requires
        pre.state != State::Open,
        place_bet_rel(pre, post, user, livestream_id, amount, now, r),
    ensures
        r == Err::<(), MarketError>(MarketError::StateError),
        post == pre,
{
}

/// Phase monotonicity, registry side: once the market has left Open, every
/// catalog mutation the authority attempts fails with `StateError` and
/// changes nothing.
pub proof fn lemma_closed_rejects_registry(
    pre: PredictionMarket,
    caller: u64,
    livestream_id: u64,
    title: String,
    now: u64,
    post_add: PredictionMarket,
    r_add: Result<(), MarketError>,
    post_rename: PredictionMarket,
    r_rename: Result<(), MarketError>,
    post_retire: PredictionMarket,
    r_retire: Result<(), MarketError>,
    post_with_title: PredictionMarket,
    r_with_title: Result<(), MarketError>,
)
    requires
        pre.state != State::Open,
        caller == pre.oracle,
        add_livestream_rel(pre, post_add, caller, livestream_id, title, now, r_add),
        update_livestream_title_rel(pre, post_rename, caller, livestream_id, title, r_rename),
        remove_livestream_rel(pre, post_retire, caller, livestream_id, r_retire),
        add_livestream_with_title_rel(pre, post_with_title, livestream_id, title, now, r_with_title),
    ensures
        r_add == Err::<(), MarketError>(MarketError::StateError),
        r_rename == Err::<(), MarketError>(MarketError::StateError),
        r_retire == Err::<(), MarketError>(MarketError::StateError),
        r_with_title == Err::<(), MarketError>(MarketError::StateError),
        post_add == pre,
        post_rename == pre,
        post_retire == pre,
        post_with_title == pre,
{
}

/// Phase monotonicity, terminal side: once Resolved, `close_market` and
/// `resolve_market` always fail with `StateError` and change nothing — a
/// market never reopens and a winner is never revised.
pub proof fn lemma_resolved_is_terminal(
    pre: PredictionMarket,
    caller: u64,
    now: u64,
    winning_livestream_id: u64,
    post_close: PredictionMarket,
    r_close: Result<(), MarketError>,
    post_resolve: PredictionMarket,
    r_resolve: Result<(), MarketError>,
)
    requires
        pre.state == State::Resolved,
        caller == pre.oracle,
        close_rel(pre, post_close, caller, now, r_close),
        resolve_rel(pre, post_resolve, caller, winning_livestream_id, now, r_resolve),
    ensures
        r_close == Err::<(), MarketError>(MarketError::StateError),
        r_resolve == Err::<(), MarketError>(MarketError::StateError),
        post_close == pre,
        post_resolve == pre,
{
}

/// No double claim: after one successful `claim_payout`, a second claim by
/// the same bettor yields `NoWinningStakeError` and changes nothing — the
/// first claim consumed the stake.
pub proof fn lemma_no_double_claim(
    m0: PredictionMarket,
    m1: PredictionMarket,
    m2: PredictionMarket,
    user: u64,
    payout: u128,
    r2: Result<u128, MarketError>,
)
    requires
        claim_rel(m0, m1, user, Ok(payout)),
        claim_rel(m1, m2, user, r2),
    ensures
        r2 == Err::<u128, MarketError>(MarketError::NoWinningStakeError),
        m2 == m1,
{
    assert(m0.state == State::Resolved);
    assert(m1.state == State::Resolved);
    assert(m1.winning_livestream_id == m0.winning_livestream_id);
    assert(stake_of(m1.bets@, user, m1.winning_livestream_id.unwrap()) == 0);
}

/// The resolve guard: an outcome with zero aggregate stake is never
/// declared winner — the attempt fails with `NoStakeError` and changes
/// nothing, even when every other condition holds.
pub proof fn lemma_resolve_guard(
    pre: PredictionMarket,
    post: PredictionMarket,
    caller: u64,
    winning_livestream_id: u64,
    now: u64,
    r: Result<(), MarketError>,
)
    requires
        caller == pre.oracle,
        pre.state == State::Closed,
        total_of(pre.totals@, winning_livestream_id) == 0,
        resolve_rel(pre, post, caller, winning_livestream_id, now, r),
    ensures
        r == Err::<(), MarketError>(MarketError::NoStakeError) || r == Err::<(), MarketError>(
            MarketError::NotFoundError,
        ),
        registered_at(pre.livestreams@, winning_livestream_id) && livestream_of(
            pre.livestreams@,
            winning_livestream_id,
        ).active ==> r == Err::<(), MarketError>(MarketError::NoStakeError),
        post == pre,
{
}

/// Auto-registration: a successful bet on an id the catalog has never seen
/// registers it once, active, under the placeholder title, and appends it
/// to the enumeration — in which, the market being well-formed, no id ever
/// appears twice.
pub proof fn lemma_auto_registration(
    pre: PredictionMarket,
    post: PredictionMarket,
    user: u64,
    livestream_id: u64,
    amount: u128,
    now: u64,
)
    requires
        post.wf(),
        !registered_at(pre.livestreams@, livestream_id),
        place_bet_rel(pre, post, user, livestream_id, amount, now, Ok(())),
    ensures
        registered_at(post.livestreams@, livestream_id),
        livestream_of(post.livestreams@, livestream_id).title@ == default_title(),
        livestream_of(post.livestreams@, livestream_id).active,
        post.livestream_ids@ == pre.livestream_ids@.push(livestream_id),
        u64s_unique(post.livestream_ids@),
{
    let n = post.livestreams@.len() - 1;
    assert(post.livestreams@[n].id == livestream_id);
    lemma_ls_index_at(post.livestreams@, n);
}


/// The factory's two index tables always agree: a market lists a
/// livestream exactly when that livestream lists the market, and only
/// registered markets are ever listed.
pub proof fn lemma_index_tables_agree(f: MarketFactory, market_address: u64, livestream_id: u64)
    requires
        f.wf(),
    ensures
        streams_of(f.market_livestreams@, market_address).contains(livestream_id)
            <==> markets_of(f.livestream_markets@, livestream_id).contains(market_address),
        markets_of(f.livestream_markets@, livestream_id).contains(market_address)
            ==> f.all_markets@.contains(market_address),
{
    if markets_of(f.livestream_markets@, livestream_id).contains(market_address) {
        crate::factory::lemma_markets_of_elem(
            f.livestream_markets@,
            livestream_id,
            market_address,
        );
        let k = choose|k: int|
            0 <= k < f.livestream_markets@.len() && (
            #[trigger] f.livestream_markets@[k]).livestream_id == livestream_id
                && f.livestream_markets@[k].markets@.contains(market_address);
        let k2 = choose|k2: int|
            0 <= k2 < f.livestream_markets@[k].markets@.len()
                && f.livestream_markets@[k].markets@[k2] == market_address;
        assert(f.all_markets@.contains(market_address));
    }
}

} // verus!
