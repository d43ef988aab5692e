//! The matching walk: which trades an incoming order makes with the resting
//! orders it faces, what is left of it, and what is left of them.

use crate::db::{Account, User};
use crate::error::OrderError;
use crate::order::settlement::{settle_all, settled_all};
use crate::order::{Order, Orderbook, TransactionType};
use vstd::prelude::*;

verus! {

/// One match: `qty` of the book's instrument changes hands at `price`.
#[derive(Debug, Clone, Copy, PartialEq, Eq, Structural)]
pub struct Trade {
    pub buyer_id: u32,
    pub seller_id: u32,
    pub price: u64,
    pub qty: u32,
}

/// Whether `resting` satisfies the limit of `incoming`: a sell takes any bid
/// at its price or above, a buy any ask at its price or below.
pub open spec fn crosses(incoming: Order, resting: Order) -> bool {
    match incoming.transaction_type {
        TransactionType::Ask => incoming.price <= resting.price,
        TransactionType::Bid => incoming.price >= resting.price,
    }
}

/// The trade of `qty` between `incoming` and `resting`. The resting order
/// sets the price.
pub open spec fn trade_between(incoming: Order, resting: Order, qty: u32) -> Trade {
    match incoming.transaction_type {
        TransactionType::Ask => Trade {
            buyer_id: resting.user_id,
            seller_id: incoming.user_id,
            price: resting.price,
            qty,
        },
        TransactionType::Bid => Trade {
            buyer_id: incoming.user_id,
            seller_id: resting.user_id,
            price: resting.price,
            qty,
        },
    }
}

/// `resting` with its quantity set to `qty`.
pub open spec fn with_qty(resting: Order, qty: u32) -> Order {
    Order { qty, ..resting }
}

/// What a walk comes to.
pub struct Walk {
    /// The trades, in the order in which they are made.
    pub trades: Seq<Trade>,
    /// What is left unfilled of the incoming order.
    pub remaining: u32,
    /// The resting orders that are left, best first.
    pub residue: Seq<Order>,
}

/// The walk of `incoming`, of which `remaining` is unfilled, along `facing`,
/// the resting orders of the other side, best first. It trades with the head
/// for as much as both allow, as long as something remains and the head
/// crosses; a head that is emptied leaves, one that is not keeps the rest.
pub open spec fn walk(incoming: Order, facing: Seq<Order>, remaining: u32) -> Walk
    decreases facing.len(),
{
    if remaining == 0 || facing.len() == 0 || !crosses(incoming, facing[0]) {
        Walk { trades: Seq::empty(), remaining, residue: facing }
    } else if remaining < facing[0].qty {
        Walk {
            trades: seq![trade_between(incoming, facing[0], remaining)],
            remaining: 0,
            residue: facing.update(0, with_qty(facing[0], (facing[0].qty - remaining) as u32)),
        }
    } else {
        let rest = walk(incoming, facing.drop_first(), (remaining - facing[0].qty) as u32);
        Walk {
            trades: seq![trade_between(incoming, facing[0], facing[0].qty)] + rest.trades,
            remaining: rest.remaining,
            residue: rest.residue,
        }
    }
}

/// The quantity that `trades` move in all.
pub open spec fn traded(trades: Seq<Trade>) -> nat
    decreases trades.len(),
{
    if trades.len() == 0 {
        0
    } else {
        trades[0].qty as nat + traded(trades.drop_first())
    }
}

/// The quantity that rests in `side` in all.
pub open spec fn liquidity(side: Seq<Order>) -> nat
    decreases side.len(),
{
    if side.len() == 0 {
        0
    } else {
        side[0].qty as nat + liquidity(side.drop_first())
    }
}

/// The resting orders that an incoming order of `side` faces, given best
/// first, in the order in which the book stores them.
pub open spec fn as_stored(side: TransactionType, facing: Seq<Order>) -> Seq<Order> {
    match side {
        TransactionType::Ask => facing,
        TransactionType::Bid => facing.reverse(),
    }
}

/// `facing` without its first `consumed` orders, the next one cut down to
/// `leftover` where there is one.
pub open spec fn residue_of(facing: Seq<Order>, consumed: int, leftover: Option<u32>) -> Seq<
    Order,
> {
    let rest = facing.skip(consumed);
    match leftover {
        Some(qty) => rest.update(0, with_qty(rest[0], qty)),
        None => rest,
    }
}

/// A walk as the book carries it out: the trades, what is left of the order,
/// how many of the resting orders it faced are emptied, and what is left of
/// the next one where the last trade took only a part of it.
#[derive(Debug)]
pub struct Plan {
    pub trades: Vec<Trade>,
    pub remaining: u32,
    pub consumed: usize,
    pub leftover: Option<u32>,
}

impl Plan {
    /// Whether the plan is the walk of `incoming` along `facing`.
    pub open spec fn is_walk(self, incoming: Order, facing: Seq<Order>) -> bool {
        let w = walk(incoming, facing, incoming.qty);
        &&& self.trades@ == w.trades
        &&& self.remaining == w.remaining
        &&& self.retires(facing)
        &&& residue_of(facing, self.consumed as int, self.leftover) == w.residue
    }

    /// Whether what the plan retires is there to retire.
    pub open spec fn retires(self, facing: Seq<Order>) -> bool {
        &&& self.consumed <= facing.len()
        &&& match self.leftover {
            Some(qty) => self.consumed < facing.len() && 0 < qty < facing[self.consumed as int].qty,
            None => true,
        }
    }
}

impl Orderbook {
    /// The resting orders that an incoming order of `side` faces, best first:
    /// a sell the bids from the head, a buy the asks from the tail.
    pub open spec fn facing(self, side: TransactionType) -> Seq<Order> {
        match side {
            TransactionType::Ask => self.bids@,
            TransactionType::Bid => self.asks@.reverse(),
        }
    }

    /// The resting orders of `side`, as stored.
    pub open spec fn resting(self, side: TransactionType) -> Seq<Order> {
        match side {
            TransactionType::Ask => self.asks@,
            TransactionType::Bid => self.bids@,
        }
    }

    /// How many resting orders an incoming order of `side` faces.
    pub fn facing_len(&self, side: TransactionType) -> (n: usize)
        ensures
            n == self.facing(side).len(),
    {
        match side {
            TransactionType::Ask => self.bids.len(),
            TransactionType::Bid => self.asks.len(),
        }
    }

    /// The resting order of the given rank among those that an incoming order
    /// of `side` faces; rank 0 is the best.
    pub fn facing_at(&self, side: TransactionType, rank: usize) -> (resting: Order)
        requires
            rank < self.facing(side).len(),
        ensures
            resting == self.facing(side)[rank as int],
    {
        match side {
            TransactionType::Ask => self.bids[rank],
            TransactionType::Bid => self.asks[self.asks.len() - 1 - rank],
        }
    }
}

/// Decides `crosses`.
pub fn does_cross(incoming: &Order, resting: &Order) -> (yes: bool)
    ensures
        yes == crosses(*incoming, *resting),
{
    match incoming.transaction_type {
        TransactionType::Ask => incoming.price <= resting.price,
        TransactionType::Bid => incoming.price >= resting.price,
    }
}

/// Computes `trade_between`.
pub fn make_trade(incoming: &Order, resting: &Order, qty: u32) -> (trade: Trade)
    ensures
        trade == trade_between(*incoming, *resting, qty),
{
    match incoming.transaction_type {
        TransactionType::Ask => Trade {
            buyer_id: resting.user_id,
            seller_id: incoming.user_id,
            price: resting.price,
            qty,
        },
        TransactionType::Bid => Trade {
            buyer_id: incoming.user_id,
            seller_id: resting.user_id,
            price: resting.price,
            qty,
        },
    }
}

impl Orderbook {
    /// Walks `order` along the resting orders it faces, without touching
    /// them.
    pub fn plan_fill(&self, order: &Order) -> (plan: Plan)
        ensures
            plan.is_walk(*order, self.facing(order.transaction_type)),
    {
        let side = order.transaction_type;
        let n = self.facing_len(side);
        let ghost facing = self.facing(side);
        let ghost whole = walk(*order, facing, order.qty);
        let mut trades: Vec<Trade> = Vec::new();
        let mut remaining: u32 = order.qty;
        let mut leftover: Option<u32> = None;
        let mut rank: usize = 0;
        proof {
            assert(facing.skip(0) =~= facing);
            assert(trades@ + whole.trades =~= whole.trades);
        }
        while rank < n && remaining > 0
            invariant_except_break
                leftover is None,
                whole.trades == trades@ + walk(*order, facing.skip(rank as int), remaining).trades,
                whole.remaining == walk(*order, facing.skip(rank as int), remaining).remaining,
                whole.residue == walk(*order, facing.skip(rank as int), remaining).residue,
            invariant
                rank <= n,
                n == facing.len(),
                side == order.transaction_type,
                facing == self.facing(side),
                whole == walk(*order, facing, order.qty),
            ensures
                rank <= n,
                trades@ == whole.trades,
                remaining == whole.remaining,
                residue_of(facing, rank as int, leftover) == whole.residue,
                match leftover {
                    Some(qty) => rank < n && 0 < qty < facing[rank as int].qty,
                    None => true,
                },
            decreases n - rank,
        {
            let resting = self.facing_at(side, rank);
            let ghost ahead = facing.skip(rank as int);
            assert(ahead[0] == resting);
            if !does_cross(order, &resting) {
                assert(trades@ + Seq::<Trade>::empty() =~= trades@);
                break ;
            }
            if remaining < resting.qty {
                trades.push(make_trade(order, &resting, remaining));
                leftover = Some(resting.qty - remaining);
                remaining = 0;
                break ;
            }
            trades.push(make_trade(order, &resting, resting.qty));
            remaining = remaining - resting.qty;
            rank = rank + 1;
            proof {
                assert(ahead.drop_first() =~= facing.skip(rank as int));
                let rest = walk(*order, facing.skip(rank as int), remaining);
                assert(whole.trades =~= trades@ + rest.trades);
            }
        }
        Plan { trades, remaining, consumed: rank, leftover }
    }

    /// Takes off the book what a walk of an incoming order of `side` has
    /// used up: the `consumed` best orders it faced leave, and the next one
    /// keeps `leftover` where there is one.
    fn retire(&mut self, side: TransactionType, consumed: usize, leftover: Option<u32>)
        requires
            old(self).wf(),
            consumed <= old(self).facing(side).len(),
            match leftover {
                Some(qty) => consumed < old(self).facing(side).len() && 0 < qty,
                None => true,
            },
        ensures
            final(self).facing(side) == residue_of(old(self).facing(side), consumed as int, leftover),
            final(self).resting(side.other()) == as_stored(side, final(self).facing(side)),
            final(self).resting(side) == old(self).resting(side),
            final(self).stock == old(self).stock,
            final(self).wf(),
    {
        let ghost facing = self.facing(side);
        match side {
            TransactionType::Ask => {
                let rest = self.bids.split_off(consumed);
                self.bids = rest;
                if let Some(qty) = leftover {
                    self.bids[0].qty = qty;
                }
                assert(self.bids@ =~= residue_of(facing, consumed as int, leftover));
            },
            TransactionType::Bid => {
                let keep = self.asks.len() - consumed;
                self.asks.truncate(keep);
                if let Some(qty) = leftover {
                    self.asks[keep - 1].qty = qty;
                }
                assert(self.asks@.reverse() =~= residue_of(facing, consumed as int, leftover));
                assert(self.asks@.reverse().reverse() =~= self.asks@);
            },
        }
    }
}

/// What became of an order that was filled against the book.
#[derive(Debug, PartialEq, Eq)]
pub struct Fill {
    /// The trades that were made and settled, in the order of the walk.
    pub trades: Vec<Trade>,
    /// What is left unfilled; nothing where the order was filled whole.
    pub remaining_qty: u32,
}

/// What filling `order` against `book` comes to, with `accounts` to settle
/// in: the walk and the accounts after it, or why nothing happens. An order
/// for another instrument is refused. Where a trade of the walk cannot
/// settle, the whole order is given up with that trade's failure.
pub open spec fn filled(book: Orderbook, accounts: Seq<Account>, order: Order) -> Result<
    (Walk, Seq<Account>),
    OrderError,
> {
    if order.stock_id != book.stock.stock_id {
        Err(OrderError::UnknownInstrument)
    } else {
        let w = walk(order, book.facing(order.transaction_type), order.qty);
        match settled_all(accounts, book.stock, w.trades) {
            Err(e) => Err(e),
            Ok(after) => Ok((w, after)),
        }
    }
}

impl Orderbook {
    /// Fills `order` against the resting orders it faces and settles each
    /// trade in `users`.
    ///
    /// The walk meets the resting orders best first and trades at the resting
    /// order's price. Resting orders that it empties leave the book, and one
    /// that it fills in part keeps the rest. The order itself is not placed:
    /// what the fill reports as remaining is for the caller to place.
    ///
    /// Policy on a trade that cannot settle: the whole incoming order is given
    /// up. The failure is returned, and book and accounts are as they were
    /// before the call; no earlier trade of the same walk stands.
    pub fn fill_order(&mut self, order: Order, users: &mut Vec<User>) -> (result: Result<
        Fill,
        OrderError,
    >)
        requires
            old(self).wf(),
        ensures
            final(self).wf(),
            match filled(*old(self), old(users).deep_view(), order) {
                Err(e) => {
                    &&& result == Err::<Fill, OrderError>(e)
                    &&& *final(self) == *old(self)
                    &&& *final(users) == *old(users)
                },
                Ok((w, accounts)) => {
                    &&& result is Ok
                    &&& result->Ok_0.trades@ == w.trades
                    &&& result->Ok_0.remaining_qty == w.remaining
                    &&& traded(result->Ok_0.trades@) + result->Ok_0.remaining_qty == order.qty
                    &&& final(self).facing(order.transaction_type) == w.residue
                    &&& final(self).resting(order.transaction_type.other()) == as_stored(
                        order.transaction_type,
                        w.residue,
                    )
                    &&& final(self).resting(order.transaction_type) == old(self).resting(
                        order.transaction_type,
                    )
                    &&& final(self).stock == old(self).stock
                    &&& final(users).deep_view() == accounts
                },
            },
    {
        if order.stock_id != self.stock.stock_id {
            return Err(OrderError::UnknownInstrument);
        }
        let plan = self.plan_fill(&order);
        proof {
            law_walk_conserves_quantity(order, self.facing(order.transaction_type), order.qty);
        }
        match settle_all(users, &self.stock, &plan.trades) {
            Err(e) => Err(e),
            Ok(()) => {
                self.retire(order.transaction_type, plan.consumed, plan.leftover);
                Ok(Fill { trades: plan.trades, remaining_qty: plan.remaining })
            },
        }
    }
}

/// Nothing is lost in a walk: what the trades move and what remains unfilled
/// make up what the walk set out with.
pub proof fn law_walk_conserves_quantity(incoming: Order, facing: Seq<Order>, remaining: u32)
    ensures
        traded(walk(incoming, facing, remaining).trades) + walk(
            incoming,
            facing,
            remaining,
        ).remaining == remaining,
    decreases facing.len(),
{
    let w = walk(incoming, facing, remaining);
    assert(traded(Seq::<Trade>::empty()) == 0);
    if remaining == 0 || facing.len() == 0 || !crosses(incoming, facing[0]) {
    } else if remaining < facing[0].qty {
        assert(w.trades.drop_first() =~= Seq::<Trade>::empty());
        assert(w.trades[0].qty == remaining);
    } else {
        let left = (remaining - facing[0].qty) as u32;
        law_walk_conserves_quantity(incoming, facing.drop_first(), left);
        assert(w.trades.drop_first() =~= walk(incoming, facing.drop_first(), left).trades);
        assert(w.trades[0].qty == facing[0].qty);
    }
}

/// An order that crosses nothing trades nothing: where the best resting
/// order it faces does not cross, or none is there, the walk makes no trade,
/// leaves the order whole and the resting orders as they were.
pub proof fn law_no_cross_no_trade(incoming: Order, facing: Seq<Order>, remaining: u32)
    requires
        facing.len() == 0 || !crosses(incoming, facing[0]),
    ensures
        walk(incoming, facing, remaining).trades == Seq::<Trade>::empty(),
        walk(incoming, facing, remaining).remaining == remaining,
        walk(incoming, facing, remaining).residue == facing,
{
}

/// Whether trade `k` of `trades` is the match of `incoming` with the resting
/// order of rank `k`: that order crosses, the trade is made with it at its
/// price and for no more than it holds, and for all that it holds unless the
/// trade is the last.
pub open spec fn is_match(incoming: Order, facing: Seq<Order>, trades: Seq<Trade>, k: int) -> bool {
    &&& crosses(incoming, facing[k])
    &&& trades[k] == trade_between(incoming, facing[k], trades[k].qty)
    &&& trades[k].qty <= facing[k].qty
    &&& k < trades.len() - 1 ==> trades[k].qty == facing[k].qty
}

/// A walk follows priority. Its trades are made with the resting orders it
/// faces in their order, best first and none passed over: trade `k` is the
/// match with the order of rank `k`. The walk goes on as long as it can:
/// where something remains unfilled, the next order it faces, if there is
/// one, does not cross.
pub proof fn law_walk_follows_priority(incoming: Order, facing: Seq<Order>, remaining: u32)
    ensures
        ({
            let w = walk(incoming, facing, remaining);
            let n = w.trades.len() as int;
            &&& n <= facing.len()
            &&& forall|k: int| 0 <= k < n ==> #[trigger] is_match(incoming, facing, w.trades, k)
            &&& w.remaining > 0 && n < facing.len() ==> !crosses(incoming, facing[n])
        }),
    decreases facing.len(),
{
    let w = walk(incoming, facing, remaining);
    if remaining == 0 || facing.len() == 0 || !crosses(incoming, facing[0]) {
        assert(w.trades.len() == 0);
    } else if remaining < facing[0].qty {
        assert(w.trades.len() == 1);
        assert(is_match(incoming, facing, w.trades, 0));
    } else {
        let left = (remaining - facing[0].qty) as u32;
        let rest = walk(incoming, facing.drop_first(), left);
        law_walk_follows_priority(incoming, facing.drop_first(), left);
        assert(w.trades.len() == 1 + rest.trades.len());
        assert forall|k: int| 0 <= k < w.trades.len() implies #[trigger] is_match(
            incoming,
            facing,
            w.trades,
            k,
        ) by {
            if k > 0 {
                assert(is_match(incoming, facing.drop_first(), rest.trades, k - 1));
                assert(w.trades[k] == rest.trades[k - 1]);
                assert(facing[k] == facing.drop_first()[k - 1]);
            }
        }
        if w.remaining > 0 && w.trades.len() < facing.len() {
            assert(facing[w.trades.len() as int] == facing.drop_first()[rest.trades.len() as int]);
        }
    }
}

/// What a walk leaves of the resting orders. The orders it emptied are gone
/// and the others stand as they stood, but for the last one traded with where
/// the trade did not empty it: that one has lost exactly what was traded.
pub proof fn law_walk_residue(incoming: Order, facing: Seq<Order>, remaining: u32)
    ensures
        ({
            let w = walk(incoming, facing, remaining);
            let n = w.trades.len() as int;
            &&& n <= facing.len()
            &&& w.residue == if n > 0 && w.trades[n - 1].qty < facing[n - 1].qty {
                facing.skip(n - 1).update(
                    0,
                    with_qty(facing[n - 1], (facing[n - 1].qty - w.trades[n - 1].qty) as u32),
                )
            } else {
                facing.skip(n)
            }
            &&& w.remaining > 0 ==> w.residue == facing.skip(n)
            &&& liquidity(w.residue) + traded(w.trades) == liquidity(facing)
        }),
    decreases facing.len(),
{
    let w = walk(incoming, facing, remaining);
    assert(traded(Seq::<Trade>::empty()) == 0);
    if remaining == 0 || facing.len() == 0 || !crosses(incoming, facing[0]) {
        assert(facing.skip(0) =~= facing);
    } else if remaining < facing[0].qty {
        assert(facing.skip(0) =~= facing);
        assert(w.trades.drop_first() =~= Seq::<Trade>::empty());
        assert(w.residue.drop_first() =~= facing.drop_first());
        assert(traded(w.trades) == remaining);
        assert(liquidity(w.residue) == (facing[0].qty - remaining) + liquidity(
            facing.drop_first(),
        ));
    } else {
        let left = (remaining - facing[0].qty) as u32;
        let rest = walk(incoming, facing.drop_first(), left);
        law_walk_residue(incoming, facing.drop_first(), left);
        law_walk_follows_priority(incoming, facing, remaining);
        let n = w.trades.len() as int;
        assert(w.trades.drop_first() =~= rest.trades);
        assert(traded(w.trades) == facing[0].qty + traded(rest.trades));
        assert(facing.drop_first().skip(n - 1) =~= facing.skip(n));
        if n > 1 {
            assert(w.trades[n - 1] == rest.trades[n - 2]);
            assert(facing[n - 1] == facing.drop_first()[n - 2]);
            assert(facing.drop_first().skip(n - 2) =~= facing.skip(n - 1));
        }
    }
}

/// Whether `facing` stands best first for an incoming order of `side`: bids
/// from the highest price down, asks from the lowest price up.
pub open spec fn best_first(side: TransactionType, facing: Seq<Order>) -> bool {
    forall|i: int, j: int|
        0 <= i < j < facing.len() ==> match side {
            TransactionType::Ask => facing[i].price >= facing[j].price,
            TransactionType::Bid => facing[i].price <= facing[j].price,
        }
}

/// Whether a trade at `price` keeps to the limit of `incoming` and is no
/// better for it than a trade at `earlier`.
pub open spec fn price_follows(incoming: Order, earlier: u64, price: u64) -> bool {
    match incoming.transaction_type {
        TransactionType::Ask => incoming.price <= price <= earlier,
        TransactionType::Bid => incoming.price >= price >= earlier,
    }
}

/// A fill follows price priority. On a well-formed book the orders that an
/// incoming order faces stand best first, so that its trades are made at
/// prices that never get better along the walk: a sell meets the bids from
/// the highest down, each at its limit or above, a buy the asks from the
/// lowest up, each at its limit or below. Among bids at one price the one
/// placed earlier is met earlier; among asks at one price the walk, which
/// comes from the tail, meets the one placed later first. Every trade moves
/// something. Where the order is not filled whole, no resting order that
/// crosses it is left.
pub proof fn law_fill_follows_priority(book: Orderbook, order: Order)
    requires
        book.wf(),
    ensures
        ({
            let facing = book.facing(order.transaction_type);
            let w = walk(order, facing, order.qty);
            let n = w.trades.len() as int;
            &&& best_first(order.transaction_type, facing)
            &&& n <= facing.len()
            &&& forall|k: int| 0 <= k < n ==> #[trigger] is_match(order, facing, w.trades, k)
            &&& forall|k: int| 0 <= k < n ==> (#[trigger] w.trades[k]).qty > 0
            &&& forall|j: int, k: int|
                0 <= j <= k < n ==> #[trigger] price_follows(
                    order,
                    w.trades[j].price,
                    w.trades[k].price,
                )
            &&& w.remaining > 0 ==> forall|i: int|
                0 <= i < w.residue.len() ==> !crosses(order, #[trigger] w.residue[i])
        }),
{
    let side = order.transaction_type;
    let facing = book.facing(side);
    let w = walk(order, facing, order.qty);
    let n = w.trades.len() as int;
    assert(best_first(side, facing)) by {
        assert forall|i: int, j: int| 0 <= i < j < facing.len() implies match side {
            TransactionType::Ask => facing[i].price >= facing[j].price,
            TransactionType::Bid => facing[i].price <= facing[j].price,
        } by {
            if side == TransactionType::Bid {
                let len = book.asks@.len() as int;
                assert(book.asks@[len - 1 - j].price >= book.asks@[len - 1 - i].price);
            }
        }
    }
    law_walk_follows_priority(order, facing, order.qty);
    law_walk_residue(order, facing, order.qty);
    lemma_walk_moves_something(order, facing, order.qty);
    assert forall|j: int, k: int| 0 <= j <= k < n implies #[trigger] price_follows(
        order,
        w.trades[j].price,
        w.trades[k].price,
    ) by {
        assert(is_match(order, facing, w.trades, j));
        assert(is_match(order, facing, w.trades, k));
    }
    if w.remaining > 0 {
        assert forall|i: int| 0 <= i < w.residue.len() implies !crosses(
            order,
            #[trigger] w.residue[i],
        ) by {
            assert(w.residue[i] == facing[n + i]);
        }
    }
}

/// Along resting orders that all hold something, every trade of a walk moves
/// something.
proof fn lemma_walk_moves_something(incoming: Order, facing: Seq<Order>, remaining: u32)
    requires
        forall|i: int| 0 <= i < facing.len() ==> (#[trigger] facing[i]).qty > 0,
    ensures
        forall|k: int|
            0 <= k < walk(incoming, facing, remaining).trades.len() ==> (#[trigger] walk(
                incoming,
                facing,
                remaining,
            ).trades[k]).qty > 0,
    decreases facing.len(),
{
    let w = walk(incoming, facing, remaining);
    if remaining == 0 || facing.len() == 0 || !crosses(incoming, facing[0]) {
    } else if remaining < facing[0].qty {
    } else {
        let left = (remaining - facing[0].qty) as u32;
        let rest = walk(incoming, facing.drop_first(), left);
        let behind = facing.drop_first();
        assert forall|i: int| 0 <= i < behind.len() implies (#[trigger] behind[i]).qty > 0 by {
            assert(behind[i] == facing[i + 1]);
        }
        lemma_walk_moves_something(incoming, facing.drop_first(), left);
        assert forall|k: int| 0 <= k < w.trades.len() implies (#[trigger] w.trades[k]).qty
            > 0 by {
            if k > 0 {
                assert(w.trades[k] == rest.trades[k - 1]);
            }
        }
    }
}

/// Liquidity is matched once. A second walk of the same order, made along
/// what the first one left, trades only with what is still there: the two
/// walks together move no more than rested before the first.
pub proof fn law_liquidity_is_matched_once(incoming: Order, facing: Seq<Order>, again: Order)
    ensures
        ({
            let first = walk(incoming, facing, incoming.qty);
            let second = walk(again, first.residue, again.qty);
            traded(first.trades) + traded(second.trades) + liquidity(second.residue)
                == liquidity(facing)
        }),
{
    let first = walk(incoming, facing, incoming.qty);
    law_walk_residue(incoming, facing, incoming.qty);
    law_walk_residue(again, first.residue, again.qty);
}

} // verus!
