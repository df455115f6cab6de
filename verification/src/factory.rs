//! The market factory: deploys nothing itself — deployment is a host
//! concern — but keeps the index tables between livestreams and the market
//! instances that cover them, in both directions.

use vstd::prelude::*;
use crate::errors::MarketError;
use crate::seq_util::check_unique_u64;
use crate::seq_util::contains_u64;
use crate::seq_util::copy_u64_vec;
use crate::seq_util::lemma_contains_push;
use crate::seq_util::lemma_remove_value_contains;
use crate::seq_util::lemma_remove_value_unique;
use crate::seq_util::lemma_unique_push;
use crate::seq_util::remove_u64;
use crate::seq_util::remove_value;
use crate::seq_util::u64s_unique;

verus! {

/// One row of the market → livestreams table.
pub struct MarketEntry {
    pub market: u64,
    pub livestream_ids: Vec<u64>,
}

/// One row of the livestream → markets table.
pub struct StreamEntry {
    pub livestream_id: u64,
    pub markets: Vec<u64>,
}

/// No two rows for the same market.
pub open spec fn ml_unique(s: Seq<MarketEntry>) -> bool {
    forall|i: int, j: int| 0 <= i < j < s.len() ==> s[i].market != s[j].market
}

/// No two rows for the same livestream.
pub open spec fn sm_unique(s: Seq<StreamEntry>) -> bool {
    forall|i: int, j: int| 0 <= i < j < s.len() ==> s[i].livestream_id != s[j].livestream_id
}

/// There is a row for the market.
pub open spec fn ml_has(s: Seq<MarketEntry>, market: u64) -> bool {
    exists|i: int| 0 <= i < s.len() && s[i].market == market
}

/// The livestreams recorded for a market; empty when it has no row.
pub open spec fn streams_of(s: Seq<MarketEntry>, market: u64) -> Seq<u64>
    decreases s.len(),
{
    if s.len() == 0 {
        Seq::empty()
    } else if s.last().market == market {
        s.last().livestream_ids@
    } else {
        streams_of(s.drop_last(), market)
    }
}

/// The markets recorded for a livestream; empty when it has no row.
pub open spec fn markets_of(s: Seq<StreamEntry>, livestream_id: u64) -> Seq<u64>
    decreases s.len(),
{
    if s.len() == 0 {
        Seq::empty()
    } else if s.last().livestream_id == livestream_id {
        s.last().markets@
    } else {
        markets_of(s.drop_last(), livestream_id)
    }
}

pub proof fn lemma_streams_of_push(s: Seq<MarketEntry>, e: MarketEntry, market: u64)
    ensures
        streams_of(s.push(e), market) == (if e.market == market {
            e.livestream_ids@
        } else {
            streams_of(s, market)
        }),
{
    assert(s.push(e).drop_last() =~= s);
}

pub proof fn lemma_markets_of_push(s: Seq<StreamEntry>, e: StreamEntry, livestream_id: u64)
    ensures
        markets_of(s.push(e), livestream_id) == (if e.livestream_id == livestream_id {
            e.markets@
        } else {
            markets_of(s, livestream_id)
        }),
{
    assert(s.push(e).drop_last() =~= s);
}

pub proof fn lemma_streams_of_update(s: Seq<MarketEntry>, i: int, e: MarketEntry, market: u64)
    requires
        ml_unique(s),
        0 <= i < s.len(),
        e.market == s[i].market,
    ensures
        streams_of(s.update(i, e), market) == (if s[i].market == market {
            e.livestream_ids@
        } else {
            streams_of(s, market)
        }),
    decreases s.len(),
{
    let t = s.update(i, e);
    if i == s.len() - 1 {
        assert(t.drop_last() =~= s.drop_last());
        assert(t.last() == e);
    } else {
        assert(t.drop_last() =~= s.drop_last().update(i, e));
        assert(s.drop_last()[i] == s[i]);
        assert(forall|a: int, b: int|
            0 <= a < b < s.drop_last().len() ==> s.drop_last()[a].market
                != s.drop_last()[b].market);
        lemma_streams_of_update(s.drop_last(), i, e, market);
        assert(t.last() == s.last());
        assert(s.last().market != s[i].market);
    }
}

pub proof fn lemma_markets_of_update(s: Seq<StreamEntry>, i: int, e: StreamEntry, livestream_id: u64)
    requires
        sm_unique(s),
        0 <= i < s.len(),
        e.livestream_id == s[i].livestream_id,
    ensures
        markets_of(s.update(i, e), livestream_id) == (if s[i].livestream_id == livestream_id {
            e.markets@
        } else {
            markets_of(s, livestream_id)
        }),
    decreases s.len(),
{
    let t = s.update(i, e);
    if i == s.len() - 1 {
        assert(t.drop_last() =~= s.drop_last());
        assert(t.last() == e);
    } else {
        assert(t.drop_last() =~= s.drop_last().update(i, e));
        assert(s.drop_last()[i] == s[i]);
        assert(forall|a: int, b: int|
            0 <= a < b < s.drop_last().len() ==> s.drop_last()[a].livestream_id
                != s.drop_last()[b].livestream_id);
        lemma_markets_of_update(s.drop_last(), i, e, livestream_id);
        assert(t.last() == s.last());
        assert(s.last().livestream_id != s[i].livestream_id);
    }
}

pub proof fn lemma_markets_of_absent(s: Seq<StreamEntry>, livestream_id: u64)
    requires
        forall|i: int| 0 <= i < s.len() ==> (#[trigger] s[i]).livestream_id != livestream_id,
    ensures
        markets_of(s, livestream_id) == Seq::<u64>::empty(),
    decreases s.len(),
{
    if s.len() > 0 {
        assert(forall|i: int| 0 <= i < s.drop_last().len() ==> s.drop_last()[i] == s[i]);
        lemma_markets_of_absent(s.drop_last(), livestream_id);
    }
}

/// With unique keys, the row found at `i` is the row of its market.
pub proof fn lemma_streams_of_at(s: Seq<MarketEntry>, i: int)
    requires
        ml_unique(s),
        0 <= i < s.len(),
    ensures
        streams_of(s, s[i].market) == s[i].livestream_ids@,
    decreases s.len(),
{
    if i == s.len() - 1 {
    } else {
        assert(forall|a: int, b: int|
            0 <= a < b < s.drop_last().len() ==> s.drop_last()[a].market
                != s.drop_last()[b].market);
        assert(s.drop_last()[i] == s[i]);
        lemma_streams_of_at(s.drop_last(), i);
        assert(s.last().market != s[i].market);
    }
}

/// With unique keys, the row found at `i` is the row of its livestream.
pub proof fn lemma_markets_of_at(s: Seq<StreamEntry>, i: int)
    requires
        sm_unique(s),
        0 <= i < s.len(),
    ensures
        markets_of(s, s[i].livestream_id) == s[i].markets@,
    decreases s.len(),
{
    if i == s.len() - 1 {
    } else {
        assert(forall|a: int, b: int|
            0 <= a < b < s.drop_last().len() ==> s.drop_last()[a].livestream_id
                != s.drop_last()[b].livestream_id);
        assert(s.drop_last()[i] == s[i]);
        lemma_markets_of_at(s.drop_last(), i);
        assert(s.last().livestream_id != s[i].livestream_id);
    }
}

/// A value in a livestream's market list comes from some row of the table.
pub proof fn lemma_markets_of_elem(s: Seq<StreamEntry>, livestream_id: u64, x: u64)
    requires
        markets_of(s, livestream_id).contains(x),
    ensures
        exists|k: int|
            0 <= k < s.len() && (#[trigger] s[k]).livestream_id == livestream_id
                && s[k].markets@.contains(x),
    decreases s.len(),
{
    if s.len() > 0 {
        if s.last().livestream_id == livestream_id {
            assert(s[s.len() - 1].livestream_id == livestream_id && s[s.len()
                - 1].markets@.contains(x));
        } else {
            lemma_markets_of_elem(s.drop_last(), livestream_id, x);
            let k = choose|k: int|
                0 <= k < s.drop_last().len() && (#[trigger] s.drop_last()[k]).livestream_id
                    == livestream_id && s.drop_last()[k].markets@.contains(x);
            assert(s[k].livestream_id == livestream_id && s[k].markets@.contains(x));
        }
    }
}

/// The two index tables agree: a market's row lists a livestream exactly
/// when the livestream's row lists the market.
pub open spec fn tables_consistent(ml: Seq<MarketEntry>, lm: Seq<StreamEntry>) -> bool {
    forall|m: u64, id: u64|
        #![trigger markets_of(lm, id).contains(m)]
        #![trigger streams_of(ml, m).contains(id)]
        markets_of(lm, id).contains(m) <==> streams_of(ml, m).contains(id)
}

/// The registry of deployed markets and the two index tables over them.
pub struct MarketFactory {
    pub owner: u64,
    pub all_markets: Vec<u64>,
    pub market_livestreams: Vec<MarketEntry>,
    pub livestream_markets: Vec<StreamEntry>,
}

impl MarketFactory {
    /// Well-formedness: no market is listed twice; each table keys its rows
    /// uniquely; every tracked market has a livestream row and appears in
    /// the market list, as does every market a livestream row points at;
    /// and no market covers the same livestream twice.
    pub open spec fn wf(self) -> bool {
        &&& u64s_unique(self.all_markets@)
        &&& ml_unique(self.market_livestreams@)
        &&& sm_unique(self.livestream_markets@)
        &&& forall|i: int|
            0 <= i < self.market_livestreams@.len() ==> self.all_markets@.contains(
                (#[trigger] self.market_livestreams@[i]).market,
            ) && u64s_unique(self.market_livestreams@[i].livestream_ids@)
        &&& forall|j: int|
            0 <= j < self.all_markets@.len() ==> ml_has(
                self.market_livestreams@,
                #[trigger] self.all_markets@[j],
            )
        &&& forall|i: int, k: int|
            0 <= i < self.livestream_markets@.len() && 0 <= k
                < self.livestream_markets@[i].markets@.len() ==> self.all_markets@.contains(
                #[trigger] self.livestream_markets@[i].markets@[k],
            )
        &&& tables_consistent(self.market_livestreams@, self.livestream_markets@)
    }
}


/// What `create_market` decides and does: the new instance's address is
/// recorded as valid, its livestream list stored, and the market appended
/// to each covered livestream's index row.
pub open spec fn create_market_rel(
    pre: MarketFactory,
    post: MarketFactory,
    caller: u64,
    market_address: u64,
    livestream_ids: Seq<u64>,
    r: Result<(), MarketError>,
) -> bool {
    if caller != pre.owner {
        r == Err::<(), MarketError>(MarketError::AuthorizationError) && post == pre
    } else if pre.all_markets@.contains(market_address) {
        r == Err::<(), MarketError>(MarketError::ValidationError) && post == pre
    } else if !u64s_unique(livestream_ids) {
        r == Err::<(), MarketError>(MarketError::ValidationError) && post == pre
    } else {
        &&& r == Ok::<(), MarketError>(())
        &&& post.owner == pre.owner
        &&& post.all_markets@ == pre.all_markets@.push(market_address)
        &&& streams_of(post.market_livestreams@, market_address) == livestream_ids
        &&& forall|m: u64|
            m != market_address ==> #[trigger] streams_of(post.market_livestreams@, m)
                == streams_of(pre.market_livestreams@, m)
        &&& forall|id: u64|
            #[trigger] markets_of(post.livestream_markets@, id) == (if livestream_ids.contains(
                id,
            ) {
                markets_of(pre.livestream_markets@, id).push(market_address)
            } else {
                markets_of(pre.livestream_markets@, id)
            })
    }
}

/// What `add_livestream_to_market` decides and does.
pub open spec fn add_livestream_to_market_rel(
    pre: MarketFactory,
    post: MarketFactory,
    caller: u64,
    market_address: u64,
    livestream_id: u64,
    r: Result<(), MarketError>,
) -> bool {
    if caller != pre.owner {
        r == Err::<(), MarketError>(MarketError::AuthorizationError) && post == pre
    } else if !pre.all_markets@.contains(market_address) {
        r == Err::<(), MarketError>(MarketError::NotFoundError) && post == pre
    } else if streams_of(pre.market_livestreams@, market_address).contains(livestream_id) {
        r == Err::<(), MarketError>(MarketError::ValidationError) && post == pre
    } else {
        &&& r == Ok::<(), MarketError>(())
        &&& post.owner == pre.owner
        &&& post.all_markets@ == pre.all_markets@
        &&& streams_of(post.market_livestreams@, market_address) == streams_of(
            pre.market_livestreams@,
            market_address,
        ).push(livestream_id)
        &&& forall|m: u64|
            m != market_address ==> #[trigger] streams_of(post.market_livestreams@, m)
                == streams_of(pre.market_livestreams@, m)
        &&& markets_of(post.livestream_markets@, livestream_id) == markets_of(
            pre.livestream_markets@,
            livestream_id,
        ).push(market_address)
        &&& forall|id: u64|
            id != livestream_id ==> #[trigger] markets_of(post.livestream_markets@, id)
                == markets_of(pre.livestream_markets@, id)
    }
}

/// What `remove_livestream_from_market` decides and does: the pair leaves
/// both index tables (removing a pair that was never there is a no-op on
/// that table).
pub open spec fn remove_livestream_from_market_rel(
    pre: MarketFactory,
    post: MarketFactory,
    caller: u64,
    market_address: u64,
    livestream_id: u64,
    r: Result<(), MarketError>,
) -> bool {
    if caller != pre.owner {
        r == Err::<(), MarketError>(MarketError::AuthorizationError) && post == pre
    } else if !pre.all_markets@.contains(market_address) {
        r == Err::<(), MarketError>(MarketError::NotFoundError) && post == pre
    } else {
        &&& r == Ok::<(), MarketError>(())
        &&& post.owner == pre.owner
        &&& post.all_markets@ == pre.all_markets@
        &&& streams_of(post.market_livestreams@, market_address) == remove_value(
            streams_of(pre.market_livestreams@, market_address),
            livestream_id,
        )
        &&& forall|m: u64|
            m != market_address ==> #[trigger] streams_of(post.market_livestreams@, m)
                == streams_of(pre.market_livestreams@, m)
        &&& markets_of(post.livestream_markets@, livestream_id) == remove_value(
            markets_of(pre.livestream_markets@, livestream_id),
            market_address,
        )
        &&& forall|id: u64|
            id != livestream_id ==> #[trigger] markets_of(post.livestream_markets@, id)
                == markets_of(pre.livestream_markets@, id)
    }
}

impl MarketFactory {
    /// Set up the factory with its owning authority and no markets.
    pub fn initialize(owner: u64) -> (f: MarketFactory)
        ensures
            f.wf(),
            f.owner == owner,
            f.all_markets@.len() == 0,
            f.market_livestreams@.len() == 0,
            f.livestream_markets@.len() == 0,
    {
        MarketFactory {
            owner,
            all_markets: Vec::new(),
            market_livestreams: Vec::new(),
            livestream_markets: Vec::new(),
        }
    }

    /// The row index of a market in the market → livestreams table.
    fn find_market_entry(&self, market_address: u64) -> (r: Option<usize>)
        ensures
            match r {
                Some(i) => i < self.market_livestreams@.len()
                    && self.market_livestreams@[i as int].market == market_address,
                None => forall|k: int|
                    0 <= k < self.market_livestreams@.len() ==> (
                    #[trigger] self.market_livestreams@[k]).market != market_address,
            },
    {
        for i in 0..self.market_livestreams.len()
            invariant
                forall|k: int|
                    0 <= k < i ==> (#[trigger] self.market_livestreams@[k]).market
                        != market_address,
        {
            if self.market_livestreams[i].market == market_address {
                return Some(i);
            }
        }
        None
    }

    /// The row index of a livestream in the livestream → markets table.
    fn find_stream_entry(&self, livestream_id: u64) -> (r: Option<usize>)
        ensures
            match r {
                Some(i) => i < self.livestream_markets@.len()
                    && self.livestream_markets@[i as int].livestream_id == livestream_id,
                None => forall|k: int|
                    0 <= k < self.livestream_markets@.len() ==> (
                    #[trigger] self.livestream_markets@[k]).livestream_id != livestream_id,
            },
    {
        for i in 0..self.livestream_markets.len()
            invariant
                forall|k: int|
                    0 <= k < i ==> (#[trigger] self.livestream_markets@[k]).livestream_id
                        != livestream_id,
        {
            if self.livestream_markets[i].livestream_id == livestream_id {
                return Some(i);
            }
        }
        None
    }

    /// Register a freshly deployed market (owner-only): record its address
    /// as valid, store its livestream list, and index it under each of its
    /// livestreams. The address must be new and the list duplicate-free.
    pub fn create_market(
        &mut self,
        caller: u64,
        market_address: u64,
        livestream_ids: Vec<u64>,
    ) -> (r: Result<(), MarketError>)
        requires
            old(self).wf(),
        ensures
            final(self).wf(),
            create_market_rel(
                *old(self),
                *final(self),
                caller,
                market_address,
                livestream_ids@,
                r,
            ),
    {
        if caller != self.owner {
            return Err(MarketError::AuthorizationError);
        }
        if contains_u64(&self.all_markets, market_address) {
            return Err(MarketError::ValidationError);
        }
        if !check_unique_u64(&livestream_ids) {
            return Err(MarketError::ValidationError);
        }
        let ghost pre = *old(self);
        self.all_markets.push(market_address);
        proof {
            lemma_unique_push(pre.all_markets@, market_address);
            assert forall|x: u64| pre.all_markets@.contains(x) implies self.all_markets@.contains(
                x,
            ) by {
                lemma_contains_push(pre.all_markets@, market_address, x);
            }
            assert(self.all_markets@.contains(market_address)) by {
                lemma_contains_push(pre.all_markets@, market_address, market_address);
            }
        }
        let ids_copy = copy_u64_vec(&livestream_ids);
        let ghost pre_ml = self.market_livestreams@;
        let new_entry = MarketEntry { market: market_address, livestream_ids: ids_copy };
        self.market_livestreams.push(new_entry);
        proof {
            let ml = self.market_livestreams@;
            assert forall|i: int, j: int| 0 <= i < j < ml.len() implies ml[i].market
                != ml[j].market by {
                if j == pre_ml.len() {
                    assert(ml[i] == pre_ml[i]);
                    if pre_ml[i].market == market_address {
                        assert(pre.all_markets@.contains(pre_ml[i].market));
                    }
                }
            }
            assert(streams_of(ml, market_address) == livestream_ids@) by {
                lemma_streams_of_push(pre_ml, ml.last(), market_address);
            }
            assert forall|m: u64| m != market_address implies #[trigger] streams_of(ml, m)
                == streams_of(pre_ml, m) by {
                lemma_streams_of_push(pre_ml, ml.last(), m);
            }
            assert forall|j: int| 0 <= j < self.all_markets@.len() implies ml_has(
                ml,
                #[trigger] self.all_markets@[j],
            ) by {
                if j < pre.all_markets@.len() {
                    assert(ml_has(pre_ml, pre.all_markets@[j]));
                    let k = choose|k: int|
                        0 <= k < pre_ml.len() && pre_ml[k].market == pre.all_markets@[j];
                    assert(ml[k].market == pre.all_markets@[j]);
                } else {
                    assert(ml[pre_ml.len() as int].market == market_address);
                }
            }
        }
        let ghost mid = *self;
        let ghost pre_lm = self.livestream_markets@;
        for i in 0..livestream_ids.len()
            invariant
                u64s_unique(livestream_ids@),
                self.owner == mid.owner,
                self.all_markets@ == mid.all_markets@,
                self.market_livestreams@ == mid.market_livestreams@,
                self.all_markets@.contains(market_address),
                sm_unique(self.livestream_markets@),
                forall|i2: int, k2: int|
                    0 <= i2 < self.livestream_markets@.len() && 0 <= k2
                        < self.livestream_markets@[i2].markets@.len()
                        ==> self.all_markets@.contains(
                        #[trigger] self.livestream_markets@[i2].markets@[k2],
                    ),
                forall|id2: u64|
                    #[trigger] markets_of(self.livestream_markets@, id2) == (
                    if livestream_ids@.subrange(0, i as int).contains(id2) {
                        markets_of(pre_lm, id2).push(market_address)
                    } else {
                        markets_of(pre_lm, id2)
                    }),
        {
            let id = livestream_ids[i];
            proof {
                assert(!livestream_ids@.subrange(0, i as int).contains(id)) by {
                    if livestream_ids@.subrange(0, i as int).contains(id) {
                        let k = choose|k: int|
                            0 <= k < i && livestream_ids@.subrange(0, i as int)[k] == id;
                        assert(livestream_ids@[k] == livestream_ids@[i as int]);
                    }
                }
            }
            let ghost cur_lm = self.livestream_markets@;
            match self.find_stream_entry(id) {
                Some(k) => {
                    proof {
                        lemma_markets_of_at(cur_lm, k as int);
                    }
                    let mut ms = copy_u64_vec(&self.livestream_markets[k].markets);
                    ms.push(market_address);
                    let e = StreamEntry { livestream_id: id, markets: ms };
                    self.livestream_markets[k] = e;
                    proof {
                        let lm = self.livestream_markets@;
                        assert forall|a: int, b: int| 0 <= a < b < lm.len() implies lm[
                            a
                        ].livestream_id != lm[b].livestream_id by {
                            assert(lm[a].livestream_id == cur_lm[a].livestream_id);
                            assert(lm[b].livestream_id == cur_lm[b].livestream_id);
                        }
                        assert forall|id2: u64| true implies #[trigger] markets_of(lm, id2) == (
                        if id2 == id {
                            markets_of(cur_lm, id2).push(market_address)
                        } else {
                            markets_of(cur_lm, id2)
                        }) by {
                            lemma_markets_of_update(cur_lm, k as int, e, id2);
                        }
                        assert(livestream_ids@.subrange(0, i as int + 1)
                            =~= livestream_ids@.subrange(0, i as int).push(id));
                        assert forall|id2: u64|
                            livestream_ids@.subrange(0, i as int + 1).contains(id2) <==> (
                            livestream_ids@.subrange(0, i as int).contains(id2) || id2 == id) by {
                            lemma_contains_push(livestream_ids@.subrange(0, i as int), id, id2);
                        }
                        assert forall|i2: int, k2: int|
                            0 <= i2 < lm.len() && 0 <= k2 < lm[i2].markets@.len()
                                implies self.all_markets@.contains(
                            #[trigger] lm[i2].markets@[k2],
                        ) by {
                            if i2 == k as int {
                                assert(lm[i2].markets@ == cur_lm[k as int].markets@.push(
                                    market_address,
                                ));
                                if k2 < cur_lm[k as int].markets@.len() {
                                    assert(lm[i2].markets@[k2] == cur_lm[k as int].markets@[k2]);
                                } else {
                                    assert(lm[i2].markets@[k2] == market_address);
                                }
                            } else {
                                assert(lm[i2] == cur_lm[i2]);
                            }
                        }
                    }
                },
                None => {
                    proof {
                        lemma_markets_of_absent(cur_lm, id);
                    }
                    let mut ms: Vec<u64> = Vec::new();
                    ms.push(market_address);
                    let e = StreamEntry { livestream_id: id, markets: ms };
                    self.livestream_markets.push(e);
                    proof {
                        let lm = self.livestream_markets@;
                        assert forall|a: int, b: int| 0 <= a < b < lm.len() implies lm[
                            a
                        ].livestream_id != lm[b].livestream_id by {
                            if b == cur_lm.len() {
                                assert(lm[a] == cur_lm[a]);
                            }
                        }
                        assert(ms@ =~= markets_of(cur_lm, id).push(market_address));
                        assert forall|id2: u64| true implies #[trigger] markets_of(lm, id2) == (
                        if id2 == id {
                            markets_of(cur_lm, id2).push(market_address)
                        } else {
                            markets_of(cur_lm, id2)
                        }) by {
                            lemma_markets_of_push(cur_lm, e, id2);
                        }
                        assert(livestream_ids@.subrange(0, i as int + 1)
                            =~= livestream_ids@.subrange(0, i as int).push(id));
                        assert forall|id2: u64|
                            livestream_ids@.subrange(0, i as int + 1).contains(id2) <==> (
                            livestream_ids@.subrange(0, i as int).contains(id2) || id2 == id) by {
                            lemma_contains_push(livestream_ids@.subrange(0, i as int), id, id2);
                        }
                        assert forall|i2: int, k2: int|
                            0 <= i2 < lm.len() && 0 <= k2 < lm[i2].markets@.len()
                                implies self.all_markets@.contains(
                            #[trigger] lm[i2].markets@[k2],
                        ) by {
                            if i2 == cur_lm.len() as int {
                                assert(lm[i2].markets@[k2] == market_address);
                            } else {
                                assert(lm[i2] == cur_lm[i2]);
                            }
                        }
                    }
                },
            }
        }
        proof {
            assert(livestream_ids@.subrange(0, livestream_ids@.len() as int) =~= livestream_ids@);
            let pre = *old(self);
            assert forall|id2: u64|
                !(#[trigger] markets_of(pre.livestream_markets@, id2)).contains(
                market_address,
            ) by {
                if markets_of(pre.livestream_markets@, id2).contains(market_address) {
                    lemma_markets_of_elem(pre.livestream_markets@, id2, market_address);
                    let k = choose|k: int|
                        0 <= k < pre.livestream_markets@.len() && (
                        #[trigger] pre.livestream_markets@[k]).livestream_id == id2
                            && pre.livestream_markets@[k].markets@.contains(market_address);
                    let k2 = choose|k2: int|
                        0 <= k2 < pre.livestream_markets@[k].markets@.len()
                            && pre.livestream_markets@[k].markets@[k2] == market_address;
                    assert(pre.all_markets@.contains(market_address));
                }
            }
            assert forall|m: u64, id2: u64|
                #![trigger markets_of(self.livestream_markets@, id2).contains(m)]
                #![trigger streams_of(self.market_livestreams@, m).contains(id2)]
                markets_of(self.livestream_markets@, id2).contains(m) <==> streams_of(
                self.market_livestreams@,
                m,
            ).contains(id2) by {
                if livestream_ids@.contains(id2) {
                    lemma_contains_push(
                        markets_of(pre.livestream_markets@, id2),
                        market_address,
                        m,
                    );
                }
                assert(markets_of(pre.livestream_markets@, id2).contains(m) <==> streams_of(
                    pre.market_livestreams@,
                    m,
                ).contains(id2));
            }
            assert(tables_consistent(self.market_livestreams@, self.livestream_markets@));
        }
        Ok(())
    }

    /// Add one livestream to an existing market's coverage (owner-only);
    /// fails if the market already covers it.
    pub fn add_livestream_to_market(
        &mut self,
        caller: u64,
        market_address: u64,
        livestream_id: u64,
    ) -> (r: Result<(), MarketError>)
        requires
            old(self).wf(),
        ensures
            final(self).wf(),
            add_livestream_to_market_rel(
                *old(self),
                *final(self),
                caller,
                market_address,
                livestream_id,
                r,
            ),
    {
        if caller != self.owner {
            return Err(MarketError::AuthorizationError);
        }
        if !contains_u64(&self.all_markets, market_address) {
            return Err(MarketError::NotFoundError);
        }
        let j = match self.find_market_entry(market_address) {
            Some(j) => j,
            None => {
                proof {
                    let k = choose|k: int|
                        0 <= k < self.all_markets@.len() && self.all_markets@[k]
                            == market_address;
                    assert(ml_has(self.market_livestreams@, market_address));
                    assert(false);
                }
                return Err(MarketError::NotFoundError);
            },
        };
        proof {
            lemma_streams_of_at(self.market_livestreams@, j as int);
        }
        if contains_u64(&self.market_livestreams[j].livestream_ids, livestream_id) {
            return Err(MarketError::ValidationError);
        }
        let ghost pre = *old(self);
        let ghost pre_ml = self.market_livestreams@;
        let mut ids = copy_u64_vec(&self.market_livestreams[j].livestream_ids);
        ids.push(livestream_id);
        proof {
            lemma_unique_push(pre_ml[j as int].livestream_ids@, livestream_id);
        }
        let e = MarketEntry { market: market_address, livestream_ids: ids };
        self.market_livestreams[j] = e;
        proof {
            let ml = self.market_livestreams@;
            assert forall|a: int, b: int| 0 <= a < b < ml.len() implies ml[a].market
                != ml[b].market by {
                assert(ml[a].market == pre_ml[a].market);
                assert(ml[b].market == pre_ml[b].market);
            }
            assert forall|m: u64| true implies #[trigger] streams_of(ml, m) == (
            if m == market_address {
                streams_of(pre_ml, m).push(livestream_id)
            } else {
                streams_of(pre_ml, m)
            }) by {
                lemma_streams_of_update(pre_ml, j as int, e, m);
            }
            assert forall|j2: int| 0 <= j2 < self.all_markets@.len() implies ml_has(
                ml,
                #[trigger] self.all_markets@[j2],
            ) by {
                assert(ml_has(pre_ml, self.all_markets@[j2]));
                let k = choose|k: int|
                    0 <= k < pre_ml.len() && pre_ml[k].market == self.all_markets@[j2];
                assert(ml[k].market == self.all_markets@[j2]);
            }
        }
        let ghost cur_lm = self.livestream_markets@;
        match self.find_stream_entry(livestream_id) {
            Some(k) => {
                proof {
                    lemma_markets_of_at(cur_lm, k as int);
                }
                let mut ms = copy_u64_vec(&self.livestream_markets[k].markets);
                ms.push(market_address);
                let e2 = StreamEntry { livestream_id, markets: ms };
                self.livestream_markets[k] = e2;
                proof {
                    let lm = self.livestream_markets@;
                    assert forall|a: int, b: int| 0 <= a < b < lm.len() implies lm[
                        a
                    ].livestream_id != lm[b].livestream_id by {
                        assert(lm[a].livestream_id == cur_lm[a].livestream_id);
                        assert(lm[b].livestream_id == cur_lm[b].livestream_id);
                    }
                    assert forall|id2: u64| true implies #[trigger] markets_of(lm, id2) == (
                    if id2 == livestream_id {
                        markets_of(cur_lm, id2).push(market_address)
                    } else {
                        markets_of(cur_lm, id2)
                    }) by {
                        lemma_markets_of_update(cur_lm, k as int, e2, id2);
                    }
                }
            },
            None => {
                proof {
                    lemma_markets_of_absent(cur_lm, livestream_id);
                }
                let mut ms: Vec<u64> = Vec::new();
                ms.push(market_address);
                let e2 = StreamEntry { livestream_id, markets: ms };
                self.livestream_markets.push(e2);
                proof {
                    let lm = self.livestream_markets@;
                    assert forall|a: int, b: int| 0 <= a < b < lm.len() implies lm[
                        a
                    ].livestream_id != lm[b].livestream_id by {
                        if b == cur_lm.len() {
                            assert(lm[a] == cur_lm[a]);
                        }
                    }
                    assert(ms@ =~= markets_of(cur_lm, livestream_id).push(market_address));
                    assert forall|id2: u64| true implies #[trigger] markets_of(lm, id2) == (
                    if id2 == livestream_id {
                        markets_of(cur_lm, id2).push(market_address)
                    } else {
                        markets_of(cur_lm, id2)
                    }) by {
                        lemma_markets_of_push(cur_lm, e2, id2);
                    }
                }
            },
        }
        proof {
            let pre = *old(self);
            assert forall|m: u64, id2: u64|
                #![trigger markets_of(self.livestream_markets@, id2).contains(m)]
                #![trigger streams_of(self.market_livestreams@, m).contains(id2)]
                markets_of(self.livestream_markets@, id2).contains(m) <==> streams_of(
                self.market_livestreams@,
                m,
            ).contains(id2) by {
                lemma_contains_push(
                    streams_of(pre.market_livestreams@, market_address),
                    livestream_id,
                    id2,
                );
                lemma_contains_push(
                    markets_of(pre.livestream_markets@, livestream_id),
                    market_address,
                    m,
                );
                assert(markets_of(pre.livestream_markets@, id2).contains(m) <==> streams_of(
                    pre.market_livestreams@,
                    m,
                ).contains(id2));
            }
            assert(tables_consistent(self.market_livestreams@, self.livestream_markets@));
        }
        Ok(())
    }

    /// Remove one livestream from a market's coverage (owner-only); both
    /// index directions forget the pair.
    pub fn remove_livestream_from_market(
        &mut self,
        caller: u64,
        market_address: u64,
        livestream_id: u64,
    ) -> (r: Result<(), MarketError>)
        requires
            old(self).wf(),
        ensures
            final(self).wf(),
            remove_livestream_from_market_rel(
                *old(self),
                *final(self),
                caller,
                market_address,
                livestream_id,
                r,
            ),
    {
        if caller != self.owner {
            return Err(MarketError::AuthorizationError);
        }
        if !contains_u64(&self.all_markets, market_address) {
            return Err(MarketError::NotFoundError);
        }
        let j = match self.find_market_entry(market_address) {
            Some(j) => j,
            None => {
                proof {
                    let k = choose|k: int|
                        0 <= k < self.all_markets@.len() && self.all_markets@[k]
                            == market_address;
                    assert(ml_has(self.market_livestreams@, market_address));
                    assert(false);
                }
                return Err(MarketError::NotFoundError);
            },
        };
        proof {
            lemma_streams_of_at(self.market_livestreams@, j as int);
        }
        let ghost pre_ml = self.market_livestreams@;
        let ids = remove_u64(&self.market_livestreams[j].livestream_ids, livestream_id);
        proof {
            lemma_remove_value_unique(pre_ml[j as int].livestream_ids@, livestream_id);
        }
        let e = MarketEntry { market: market_address, livestream_ids: ids };
        self.market_livestreams[j] = e;
        proof {
            let ml = self.market_livestreams@;
            assert forall|a: int, b: int| 0 <= a < b < ml.len() implies ml[a].market
                != ml[b].market by {
                assert(ml[a].market == pre_ml[a].market);
                assert(ml[b].market == pre_ml[b].market);
            }
            assert forall|m: u64| true implies #[trigger] streams_of(ml, m) == (
            if m == market_address {
                remove_value(streams_of(pre_ml, m), livestream_id)
            } else {
                streams_of(pre_ml, m)
            }) by {
                lemma_streams_of_update(pre_ml, j as int, e, m);
            }
            assert forall|j2: int| 0 <= j2 < self.all_markets@.len() implies ml_has(
                ml,
                #[trigger] self.all_markets@[j2],
            ) by {
                assert(ml_has(pre_ml, self.all_markets@[j2]));
                let k = choose|k: int|
                    0 <= k < pre_ml.len() && pre_ml[k].market == self.all_markets@[j2];
                assert(ml[k].market == self.all_markets@[j2]);
            }
        }
        let ghost cur_lm = self.livestream_markets@;
        match self.find_stream_entry(livestream_id) {
            Some(k) => {
                proof {
                    lemma_markets_of_at(cur_lm, k as int);
                }
                let ms = remove_u64(&self.livestream_markets[k].markets, market_address);
                let e2 = StreamEntry { livestream_id, markets: ms };
                self.livestream_markets[k] = e2;
                proof {
                    let lm = self.livestream_markets@;
                    assert forall|a: int, b: int| 0 <= a < b < lm.len() implies lm[
                        a
                    ].livestream_id != lm[b].livestream_id by {
                        assert(lm[a].livestream_id == cur_lm[a].livestream_id);
                        assert(lm[b].livestream_id == cur_lm[b].livestream_id);
                    }
                    assert forall|id2: u64| true implies #[trigger] markets_of(lm, id2) == (
                    if id2 == livestream_id {
                        remove_value(markets_of(cur_lm, id2), market_address)
                    } else {
                        markets_of(cur_lm, id2)
                    }) by {
                        lemma_markets_of_update(cur_lm, k as int, e2, id2);
                    }
                    assert forall|i2: int, k2: int|
                        0 <= i2 < lm.len() && 0 <= k2 < lm[i2].markets@.len()
                            implies self.all_markets@.contains(
                        #[trigger] lm[i2].markets@[k2],
                    ) by {
                        if i2 == k {
                            assert(lm[i2].markets@[k2] == ms@[k2]);
                            assert(ms@.contains(ms@[k2]));
                            lemma_remove_value_contains(
                                cur_lm[k as int].markets@,
                                market_address,
                                ms@[k2],
                            );
                            assert(cur_lm[k as int].markets@.contains(ms@[k2]));
                            let k3 = choose|k3: int|
                                0 <= k3 < cur_lm[k as int].markets@.len() && cur_lm[
                                    k as int
                                ].markets@[k3] == ms@[k2];
                        }
                    }
                }
            },
            None => {
                proof {
                    lemma_markets_of_absent(cur_lm, livestream_id);
                    assert(remove_value(Seq::<u64>::empty(), market_address)
                        == Seq::<u64>::empty());
                }
            },
        }
        proof {
            let pre = *old(self);
            assert forall|m: u64, id2: u64|
                #![trigger markets_of(self.livestream_markets@, id2).contains(m)]
                #![trigger streams_of(self.market_livestreams@, m).contains(id2)]
                markets_of(self.livestream_markets@, id2).contains(m) <==> streams_of(
                self.market_livestreams@,
                m,
            ).contains(id2) by {
                lemma_remove_value_contains(
                    streams_of(pre.market_livestreams@, market_address),
                    livestream_id,
                    id2,
                );
                lemma_remove_value_contains(
                    markets_of(pre.livestream_markets@, livestream_id),
                    market_address,
                    m,
                );
                assert(markets_of(pre.livestream_markets@, id2).contains(m) <==> streams_of(
                    pre.market_livestreams@,
                    m,
                ).contains(id2));
            }
            assert(tables_consistent(self.market_livestreams@, self.livestream_markets@));
        }
        Ok(())
    }

    /// Every market currently covering the livestream.
    pub fn get_markets_for_livestream(&self, livestream_id: u64) -> (r: Vec<u64>)
        requires
            self.wf(),
        ensures
            r@ == markets_of(self.livestream_markets@, livestream_id),
    {
        match self.find_stream_entry(livestream_id) {
            Some(k) => {
                proof {
                    lemma_markets_of_at(self.livestream_markets@, k as int);
                }
                copy_u64_vec(&self.livestream_markets[k].markets)
            },
            None => {
                proof {
                    lemma_markets_of_absent(self.livestream_markets@, livestream_id);
                }
                Vec::new()
            },
        }
    }

    /// How many markets currently cover the livestream.
    pub fn get_market_count_for_livestream(&self, livestream_id: u64) -> (r: usize)
        requires
            self.wf(),
        ensures
            r == markets_of(self.livestream_markets@, livestream_id).len(),
    {
        match self.find_stream_entry(livestream_id) {
            Some(k) => {
                proof {
                    lemma_markets_of_at(self.livestream_markets@, k as int);
                }
                self.livestream_markets[k].markets.len()
            },
            None => {
                proof {
                    lemma_markets_of_absent(self.livestream_markets@, livestream_id);
                }
                0
            },
        }
    }

    /// How many markets the factory has registered in all.
    pub fn get_total_market_count(&self) -> (r: usize)
        ensures
            r == self.all_markets@.len(),
    {
        self.all_markets.len()
    }

    /// A page of the market list: `limit` addresses starting at `offset`,
    /// shorter at the end of the list; an offset past the end is rejected.
    pub fn get_all_markets(&self, offset: usize, limit: usize) -> (r: Result<Vec<u64>, MarketError>)
        ensures
            match r {
                Ok(v) => offset < self.all_markets@.len() && v@ == self.all_markets@.subrange(
                    offset as int,
                    if offset + limit > self.all_markets@.len() {
                        self.all_markets@.len() as int
                    } else {
                        offset + limit
                    },
                ),
                Err(e) => e == MarketError::ValidationError && offset >= self.all_markets@.len(),
            },
    {
        let len = self.all_markets.len();
        if offset >= len {
            return Err(MarketError::ValidationError);
        }
        let end: usize = if limit > len - offset {
            len
        } else {
            offset + limit
        };
        let mut out: Vec<u64> = Vec::new();
        for i in offset..end
            invariant
                offset <= i <= end <= self.all_markets@.len(),
                out@ == self.all_markets@.subrange(offset as int, i as int),
        {
            proof {
                assert(self.all_markets@.subrange(offset as int, i as int + 1)
                    =~= self.all_markets@.subrange(offset as int, i as int).push(
                    self.all_markets@[i as int],
                ));
            }
            out.push(self.all_markets[i]);
        }
        Ok(out)
    }

    /// The livestream list of a registered market.
    pub fn get_livestreams_for_market(&self, market_address: u64) -> (r: Result<
        Vec<u64>,
        MarketError,
    >)
        requires
            self.wf(),
        ensures
            match r {
                Ok(v) => self.all_markets@.contains(market_address) && v@ == streams_of(
                    self.market_livestreams@,
                    market_address,
                ),
                Err(e) => e == MarketError::NotFoundError && !self.all_markets@.contains(
                    market_address,
                ),
            },
    {
        if !contains_u64(&self.all_markets, market_address) {
            return Err(MarketError::NotFoundError);
        }
        match self.find_market_entry(market_address) {
            Some(j) => {
                proof {
                    lemma_streams_of_at(self.market_livestreams@, j as int);
                }
                Ok(copy_u64_vec(&self.market_livestreams[j].livestream_ids))
            },
            None => {
                proof {
                    let k = choose|k: int|
                        0 <= k < self.all_markets@.len() && self.all_markets@[k]
                            == market_address;
                    assert(ml_has(self.market_livestreams@, market_address));
                    assert(false);
                }
                Err(MarketError::NotFoundError)
            },
        }
    }

    /// Whether a registered market covers the livestream; false for an
    /// unknown market.
    pub fn is_livestream_in_market(&self, market_address: u64, livestream_id: u64) -> (r: bool)
        requires
            self.wf(),
        ensures
            r == (self.all_markets@.contains(market_address) && streams_of(
                self.market_livestreams@,
                market_address,
            ).contains(livestream_id)),
    {
        if !contains_u64(&self.all_markets, market_address) {
            return false;
        }
        match self.find_market_entry(market_address) {
            Some(j) => {
                proof {
                    lemma_streams_of_at(self.market_livestreams@, j as int);
                }
                contains_u64(&self.market_livestreams[j].livestream_ids, livestream_id)
            },
            None => {
                proof {
                    let k = choose|k: int|
                        0 <= k < self.all_markets@.len() && self.all_markets@[k]
                            == market_address;
                    assert(ml_has(self.market_livestreams@, market_address));
                    assert(false);
                }
                false
            },
        }
    }

    /// Accept a market's closing notice: only a market this factory
    /// registered may send one. The factory's own state never changes.
    pub fn notify_market_closed(&self, caller: u64, _livestream_ids: &Vec<u64>) -> (r: Result<
        (),
        MarketError,
    >)
        ensures
            r == (if self.all_markets@.contains(caller) {
                Ok::<(), MarketError>(())
            } else {
                Err::<(), MarketError>(MarketError::AuthorizationError)
            }),
    {
        if contains_u64(&self.all_markets, caller) {
            Ok(())
        } else {
            Err(MarketError::AuthorizationError)
        }
    }

    /// Hand the factory to a new owner (owner-only).
    pub fn transfer_ownership(&mut self, caller: u64, new_owner: u64) -> (r: Result<
        (),
        MarketError,
    >)
        requires
            old(self).wf(),
        ensures
            final(self).wf(),
            caller != old(self).owner ==> r == Err::<(), MarketError>(
                MarketError::AuthorizationError,
            ) && *final(self) == *old(self),
            caller == old(self).owner ==> r == Ok::<(), MarketError>(()) && *final(self) == (
            MarketFactory { owner: new_owner, ..*old(self) }),
    {
        if caller != self.owner {
            return Err(MarketError::AuthorizationError);
        }
        self.owner = new_owner;
        Ok(())
    }

    /// Whether the factory registered this market.
    pub fn is_valid_market(&self, market_address: u64) -> (r: bool)
        ensures
            r == self.all_markets@.contains(market_address),
    {
        contains_u64(&self.all_markets, market_address)
    }

    /// The current owner.
    pub fn get_owner(&self) -> (r: u64)
        ensures
            r == self.owner,
    {
        self.owner
    }
}

} // verus!
