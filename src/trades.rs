//! The append-only log of executed trades, numbered from one.
use vstd::prelude::*;
use crate::market::Outcome;

verus! {

/// Whether a trade bought or sold shares.
#[derive(Clone, Copy, Debug, PartialEq, Eq, Structural)]
pub enum Side {
    Buy,
    Sell,
}

/// An executed trade. `cost` is what a buy paid or what a sell returned.
#[derive(Clone, Debug)]
pub struct Trade {
    pub trade_id: u64,
    pub trader: String,
    pub outcome: Outcome,
    pub side: Side,
    pub shares: u64,
    pub cost: u64,
    pub timestamp: u64,
}

/// A trade as a mathematical value.
pub struct TradeView {
    pub trade_id: u64,
    pub trader: Seq<char>,
    pub outcome: Outcome,
    pub side: Side,
    pub shares: u64,
    pub cost: u64,
    pub timestamp: u64,
}

impl View for Trade {
    type V = TradeView;

    open spec fn view(&self) -> TradeView {
        TradeView {
            trade_id: self.trade_id,
            trader: self.trader@,
            outcome: self.outcome,
            side: self.side,
            shares: self.shares,
            cost: self.cost,
            timestamp: self.timestamp,
        }
    }
}

impl Trade {
    /// The shares as a signed amount: positive for a buy, negative for a sell.
    pub fn signed_shares(&self) -> (r: i128)
        ensures
            r == match self.side {
                Side::Buy => self.shares as int,
                Side::Sell => -(self.shares as int),
            },
    {
        match self.side {
            Side::Buy => self.shares as i128,
            Side::Sell => -(self.shares as i128),
        }
    }

    /// A copy of this trade.
    pub fn clone_trade(&self) -> (t: Trade)
        ensures
            t@ == self@,
    {
        Trade {
            trade_id: self.trade_id,
            trader: self.trader.clone(),
            outcome: self.outcome,
            side: self.side,
            shares: self.shares,
            cost: self.cost,
            timestamp: self.timestamp,
        }
    }
}

/// The trades in the order they were executed; the trade at index `i`
/// carries the id `i + 1`.
pub struct TradeLog {
    trades: Vec<Trade>,
    next_trade_id: u64,
}

impl View for TradeLog {
    type V = Seq<TradeView>;

    closed spec fn view(&self) -> Seq<TradeView> {
        self.trades@.map_values(|t: Trade| t@)
    }
}

/// Whether a log of `len` trades can take one more and still number the next.
pub open spec fn log_has_room(len: nat) -> bool {
    len + 2 <= u64::MAX
}

/// Whether `a` comes before `b` newest first: the later timestamp first,
/// and among equal timestamps the earlier trade first.
pub open spec fn newer_first(a: TradeView, b: TradeView) -> bool {
    a.timestamp > b.timestamp || (a.timestamp == b.timestamp && a.trade_id < b.trade_id)
}

/// The views of a sequence of trades.
pub open spec fn trade_views(s: Seq<Trade>) -> Seq<TradeView> {
    s.map_values(|t: Trade| t@)
}

/// Every trade comes before each later one newest first.
pub open spec fn sorted_newest_first(s: Seq<TradeView>) -> bool {
    forall|a: int, b: int| 0 <= a < b < s.len() ==> newer_first(#[trigger] s[a], #[trigger] s[b])
}

/// Inserting a trade with a larger id than all others, just after the
/// trades with timestamps at least its own, keeps the order.
proof fn lemma_insert_sorted(s: Seq<TradeView>, k: int, t: TradeView)
    requires
        sorted_newest_first(s),
        0 <= k <= s.len(),
        forall|a: int| 0 <= a < k ==> (#[trigger] s[a]).timestamp >= t.timestamp,
        k < s.len() ==> s[k].timestamp < t.timestamp,
        forall|a: int| 0 <= a < s.len() ==> (#[trigger] s[a]).trade_id < t.trade_id,
    ensures
        sorted_newest_first(s.insert(k, t)),
{
    let r = s.insert(k, t);
    assert forall|a: int, b: int| 0 <= a < b < r.len() implies newer_first(
        #[trigger] r[a],
        #[trigger] r[b],
    ) by {
        if b < k {
            assert(r[a] == s[a] && r[b] == s[b]);
        } else if b == k {
            assert(r[a] == s[a]);
        } else if a == k {
            assert(r[b] == s[b - 1]);
            if b - 1 > k {
                assert(newer_first(s[k], s[b - 1]));
            }
        } else if a < k {
            assert(r[a] == s[a] && r[b] == s[b - 1]);
        } else {
            assert(r[a] == s[a - 1] && r[b] == s[b - 1]);
        }
    }
}

impl TradeLog {
    pub closed spec fn wf(&self) -> bool {
        &&& self.next_trade_id == self.trades@.len() + 1
        &&& forall|i: int|
            0 <= i < self.trades@.len() ==> (#[trigger] self.trades@[i]).trade_id == i + 1
    }

    /// Trades are numbered from one in the order they were executed: the
    /// trade at index `i` carries the id `i + 1`.
    pub proof fn lemma_ids(&self)
        requires
            self.wf(),
        ensures
            forall|i: int| 0 <= i < self@.len() ==> (#[trigger] self@[i]).trade_id == i + 1,
    {
    }

    pub fn new() -> (log: TradeLog)
        ensures
            log.wf(),
            log@ == Seq::<TradeView>::empty(),
    {
        let log = TradeLog { trades: Vec::new(), next_trade_id: 1 };
        assert(log@ =~= Seq::<TradeView>::empty());
        log
    }

    /// The id that the next trade will get.
    pub fn next_trade_id(&self) -> (id: u64)
        requires
            self.wf(),
        ensures
            id == self@.len() + 1,
    {
        self.next_trade_id
    }

    pub fn has_room(&self) -> (r: bool)
        requires
            self.wf(),
        ensures
            r == log_has_room(self@.len()),
    {
        self.next_trade_id < u64::MAX
    }

    /// Appends a trade under the next id and returns that id.
    pub fn record(
        &mut self,
        trader: &String,
        outcome: Outcome,
        side: Side,
        shares: u64,
        cost: u64,
        timestamp: u64,
    ) -> (id: u64)
        requires
            old(self).wf(),
            log_has_room(old(self)@.len()),
        ensures
            final(self).wf(),
            id == old(self)@.len() + 1,
            final(self)@ == old(self)@.push(
                TradeView {
                    trade_id: id,
                    trader: trader@,
                    outcome,
                    side,
                    shares,
                    cost,
                    timestamp,
                },
            ),
    {
        let id = self.next_trade_id;
        let t = Trade {
            trade_id: id,
            trader: trader.clone(),
            outcome,
            side,
            shares,
            cost,
            timestamp,
        };
        let ghost old_trades = self.trades@;
        self.trades.push(t);
        self.next_trade_id = id + 1;
        assert(self.trades@.map_values(|t: Trade| t@) =~= old_trades.map_values(|t: Trade| t@).push(
            t@,
        ));
        id
    }

    /// Copies of the trades, oldest first.
    pub fn list(&self) -> (r: Vec<Trade>)
        requires
            self.wf(),
        ensures
            r@.map_values(|t: Trade| t@) == self@,
    {
        let mut r: Vec<Trade> = Vec::new();
        let mut i: usize = 0;
        while i < self.trades.len()
            invariant
                i <= self.trades@.len(),
                r@.len() == i,
                forall|j: int| 0 <= j < i ==> (#[trigger] r@[j])@ == self.trades@[j]@,
            decreases self.trades@.len() - i,
        {
            let c = self.trades[i].clone_trade();
            r.push(c);
            i = i + 1;
        }
        assert(r@.map_values(|t: Trade| t@) =~= self@);
        r
    }
    /// Copies of the trades, newest first: by timestamp, latest first, and
    /// in execution order among equal timestamps.
    pub fn newest_first(&self) -> (r: Vec<Trade>)
        requires
            self.wf(),
        ensures
            r@.len() == self@.len(),
            trade_views(r@).to_multiset() == self@.to_multiset(),
            sorted_newest_first(trade_views(r@)),
    {
        let mut r: Vec<Trade> = Vec::new();
        let mut i: usize = 0;
        proof {
            assert(trade_views(r@) =~= self@.subrange(0, 0));
        }
        while i < self.trades.len()
            invariant
                self.wf(),
                i <= self.trades@.len(),
                r@.len() == i,
                trade_views(r@).to_multiset() == self@.subrange(0, i as int).to_multiset(),
                sorted_newest_first(trade_views(r@)),
                forall|j: int| 0 <= j < r@.len() ==> (#[trigger] r@[j]).trade_id <= i,
            decreases self.trades@.len() - i,
        {
            let t = self.trades[i].clone_trade();
            let ghost tv = t@;
            proof {
                assert(tv == self@[i as int]);
                assert(tv.trade_id == i + 1);
            }
            let mut k: usize = 0;
            while k < r.len() && r[k].timestamp >= t.timestamp
                invariant
                    k <= r@.len(),
                    tv.timestamp == t.timestamp,
                    forall|a: int| 0 <= a < k ==> (#[trigger] r@[a]).timestamp >= tv.timestamp,
                decreases r@.len() - k,
            {
                k = k + 1;
            }
            let ghost old_r = r@;
            r.insert(k, t);
            proof {
                let ov = trade_views(old_r);
                assert(trade_views(r@) =~= ov.insert(k as int, tv));
                lemma_insert_sorted(ov, k as int, tv);
                vstd::seq_lib::to_multiset_insert(ov, k as int, tv);
                assert(self@.subrange(0, i + 1) =~= self@.subrange(0, i as int).push(tv));
                vstd::seq_lib::to_multiset_build(self@.subrange(0, i as int), tv);
                assert forall|j: int| 0 <= j < r@.len() implies (#[trigger] r@[j]).trade_id <= i
                    + 1 by {
                    if j < k {
                        assert(r@[j] == old_r[j]);
                    } else if j > k {
                        assert(r@[j] == old_r[j - 1]);
                    }
                }
            }
            i = i + 1;
        }
        proof {
            assert(self@.subrange(0, self@.len() as int) =~= self@);
        }
        r
    }
}

} // verus!
