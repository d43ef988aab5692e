//! Price-time priority: where a new order goes among the resting ones.

use crate::db::Stock;
use crate::order::{all_rest_on, Order, Orderbook, TransactionType};
use vstd::prelude::*;

verus! {

/// Prices never rise along `side`.
pub open spec fn sorted_by_price(side: Seq<Order>) -> bool {
    forall|i: int, j: int| 0 <= i < j < side.len() ==> side[i].price >= side[j].price
}

/// Whether `k` is where an order at `price` goes: behind every order whose
/// price is as high or higher, before every order whose price is lower.
pub open spec fn is_slot(side: Seq<Order>, price: u64, k: int) -> bool {
    &&& 0 <= k <= side.len()
    &&& forall|i: int| 0 <= i < k ==> (#[trigger] side[i]).price >= price
    &&& forall|i: int| k <= i < side.len() ==> (#[trigger] side[i]).price < price
}

/// The place of an order at `price` on a side ordered by price.
pub open spec fn slot(side: Seq<Order>, price: u64) -> int {
    choose|k: int| is_slot(side, price, k)
}

/// `side` with `order` placed at its slot.
pub open spec fn placed(side: Seq<Order>, order: Order) -> Seq<Order> {
    side.insert(slot(side, order.price), order)
}

/// A side has at most one slot for a price.
pub proof fn lemma_slot_is_unique(side: Seq<Order>, price: u64, k: int)
    requires
        is_slot(side, price, k),
    ensures
        slot(side, price) == k,
{
    let c = slot(side, price);
    assert(is_slot(side, price, c));
    if c < k {
        assert(side[c].price >= price);
    } else if k < c {
        assert(side[k].price >= price);
    }
}

/// Finds the slot by bisection.
pub fn find_slot(side: &Vec<Order>, price: u64) -> (k: usize)
    requires
        sorted_by_price(side@),
    ensures
        is_slot(side@, price, k as int),
        k as int == slot(side@, price),
{
    let mut lo: usize = 0;
    let mut hi: usize = side.len();
    while lo < hi
        invariant
            lo <= hi <= side.len(),
            sorted_by_price(side@),
            forall|i: int| 0 <= i < lo ==> (#[trigger] side@[i]).price >= price,
            forall|i: int| hi <= i < side.len() ==> (#[trigger] side@[i]).price < price,
        decreases hi - lo,
    {
        let mid: usize = lo + (hi - lo) / 2;
        if side[mid].price >= price {
            lo = mid + 1;
        } else {
            hi = mid;
        }
    }
    proof {
        lemma_slot_is_unique(side@, price, lo as int);
    }
    lo
}

/// The side that comes of placing `orders` one after another, the first on
/// an empty side.
pub open spec fn placed_in_turn(orders: Seq<Order>) -> Seq<Order>
    decreases orders.len(),
{
    if orders.len() == 0 {
        Seq::empty()
    } else {
        placed(placed_in_turn(orders.drop_last()), orders.last())
    }
}

/// The test for an order at `price`.
pub open spec fn priced(price: u64) -> spec_fn(Order) -> bool {
    |o: Order| o.price == price
}

/// The orders of `orders` at `price`, in their order.
pub open spec fn at_price(orders: Seq<Order>, price: u64) -> Seq<Order> {
    orders.filter(priced(price))
}

/// The test for an order that may rest on `side` of a book for `stock_id`.
pub open spec fn resting_on(stock_id: u32, side: TransactionType) -> spec_fn(Order) -> bool {
    |o: Order| o.rests_on(stock_id, side)
}

/// The orders of `orders` that may rest on `side` of a book for `stock_id`,
/// in their order.
pub open spec fn admitted(orders: Seq<Order>, stock_id: u32, side: TransactionType) -> Seq<Order> {
    orders.filter(resting_on(stock_id, side))
}

/// Placing an order on a side ordered by price leaves it ordered by price.
pub proof fn lemma_placed_is_sorted(side: Seq<Order>, order: Order)
    requires
        sorted_by_price(side),
    ensures
        is_slot(side, order.price, slot(side, order.price)),
        sorted_by_price(placed(side, order)),
{
    lemma_slot_exists(side, order.price, 0);
    let k = slot(side, order.price);
    let after = placed(side, order);
    assert forall|i: int, j: int| 0 <= i < j < after.len() implies after[i].price
        >= after[j].price by {
        if i < k && j > k {
            assert(side[i].price >= side[j - 1].price);
        }
    }
}

/// A side ordered by price has a slot for every price, at or behind any
/// position that has only prices as high before it.
proof fn lemma_slot_exists(side: Seq<Order>, price: u64, from: int)
    requires
        sorted_by_price(side),
        0 <= from <= side.len(),
        forall|i: int| 0 <= i < from ==> (#[trigger] side[i]).price >= price,
    ensures
        is_slot(side, price, slot(side, price)),
    decreases side.len() - from,
{
    if from < side.len() && side[from].price >= price {
        lemma_slot_exists(side, price, from + 1);
    } else {
        assert(is_slot(side, price, from)) by {
            assert forall|i: int| from <= i < side.len() implies (#[trigger] side[i]).price
                < price by {
                assert(side[from].price >= side[i].price || i == from);
            }
        }
    }
}

/// Placing an order adds it behind the resting orders at its price and
/// changes nothing at any other price.
pub proof fn lemma_placed_at_price(side: Seq<Order>, order: Order, price: u64)
    requires
        sorted_by_price(side),
    ensures
        at_price(placed(side, order), price) == if order.price == price {
            at_price(side, price).push(order)
        } else {
            at_price(side, price)
        },
{
    lemma_placed_is_sorted(side, order);
    let k = slot(side, order.price);
    let head = side.take(k);
    let tail = side.skip(k);
    let test = priced(price);
    assert(side =~= head + tail);
    assert(placed(side, order) =~= head.push(order) + tail);
    Seq::filter_distributes_over_add(head, tail, test);
    Seq::filter_distributes_over_add(head.push(order), tail, test);
    head.lemma_filter_push(order, test);
    if order.price == price {
        assert(tail.all(|o: Order| !test(o))) by {
            assert forall|i: int| 0 <= i < tail.len() implies !test(#[trigger] tail[i]) by {
                assert(tail[i] == side[k + i]);
            }
        }
        tail.lemma_all_neg_filter_empty(test);
        assert(head.filter(test) + tail.filter(test) =~= head.filter(test));
        assert(head.filter(test).push(order) + tail.filter(test) =~= head.filter(test).push(
            order,
        ));
    }
}

/// Price-time priority. However many orders are placed on a side, and in
/// whatever order, the side ends ordered by price, highest first, and at
/// every price its orders stand in the order in which they were placed.
pub proof fn law_price_time_priority(orders: Seq<Order>, price: u64)
    ensures
        sorted_by_price(placed_in_turn(orders)),
        at_price(placed_in_turn(orders), price) == at_price(orders, price),
        placed_in_turn(orders).len() == orders.len(),
    decreases orders.len(),
{
    reveal(Seq::filter);
    if orders.len() > 0 {
        let earlier = orders.drop_last();
        law_price_time_priority(earlier, price);
        lemma_placed_is_sorted(placed_in_turn(earlier), orders.last());
        lemma_placed_at_price(placed_in_turn(earlier), orders.last(), price);
        assert(orders =~= earlier.push(orders.last()));
        earlier.lemma_filter_push(orders.last(), priced(price));
    }
}

/// Placing an order that may rest on a side keeps the side to such orders.
proof fn lemma_placed_rests(side: Seq<Order>, order: Order, stock_id: u32, kind: TransactionType)
    requires
        sorted_by_price(side),
        all_rest_on(side, stock_id, kind),
        order.rests_on(stock_id, kind),
    ensures
        all_rest_on(placed(side, order), stock_id, kind),
{
    lemma_placed_is_sorted(side, order);
    let k = slot(side, order.price);
    let after = placed(side, order);
    assert forall|i: int| 0 <= i < after.len() implies (#[trigger] after[i]).rests_on(
        stock_id,
        kind,
    ) by {
        if i < k {
            assert(after[i] == side[i]);
        } else if i > k {
            assert(after[i] == side[i - 1]);
        }
    }
}

/// Decides `sorted_by_price`.
pub fn is_sorted_by_price(side: &Vec<Order>) -> (yes: bool)
    ensures
        yes == sorted_by_price(side@),
{
    let mut i: usize = 1;
    while i < side.len()
        invariant
            1 <= i,
            forall|a: int, b: int|
                0 <= a < b < i && b < side.len() ==> side@[a].price >= side@[b].price,
        decreases side.len() - i,
    {
        if side[i - 1].price < side[i].price {
            return false;
        }
        assert forall|a: int, b: int| 0 <= a < b < i + 1 && b < side.len() implies side@[a].price
            >= side@[b].price by {
            if b == i && a < i - 1 {
                assert(side@[a].price >= side@[i - 1].price);
            }
        }
        i += 1;
    }
    true
}

/// Decides `all_rest_on`.
pub fn do_all_rest_on(side: &Vec<Order>, stock_id: u32, kind: TransactionType) -> (yes: bool)
    ensures
        yes == all_rest_on(side@, stock_id, kind),
{
    let mut i: usize = 0;
    while i < side.len()
        invariant
            i <= side.len(),
            forall|j: int| 0 <= j < i ==> (#[trigger] side@[j]).rests_on(stock_id, kind),
        decreases side.len() - i,
    {
        if !side[i].can_rest_on(stock_id, kind) {
            return false;
        }
        i += 1;
    }
    true
}

/// Places `order` on `side` at its slot.
fn place(side: &mut Vec<Order>, order: Order)
    requires
        sorted_by_price(old(side)@),
    ensures
        final(side)@ == placed(old(side)@, order),
        sorted_by_price(final(side)@),
{
    let k = find_slot(side, order.price);
    proof {
        lemma_placed_is_sorted(side@, order);
    }
    side.insert(k, order);
}

impl Orderbook {
    /// Decides `wf`.
    pub fn is_well_formed(&self) -> (yes: bool)
        ensures
            yes == self.wf(),
    {
        let id = self.stock.stock_id;
        is_sorted_by_price(&self.bids) && is_sorted_by_price(&self.asks)
            && do_all_rest_on(&self.bids, id, TransactionType::Bid)
            && do_all_rest_on(&self.asks, id, TransactionType::Ask)
    }

    /// A book for `stock` on which the orders of `orders` that may rest on it
    /// have been placed in turn, each on its own side. The others are left
    /// out: those for another instrument, and those without a quantity or a
    /// price.
    pub fn from(stock: Stock, orders: Vec<Order>) -> (book: Self)
        ensures
            book.stock == stock,
            book.bids@ == placed_in_turn(
                admitted(orders@, stock.stock_id, TransactionType::Bid),
            ),
            book.asks@ == placed_in_turn(
                admitted(orders@, stock.stock_id, TransactionType::Ask),
            ),
            book.wf(),
    {
        let mut book = Orderbook::new(stock);
        let ghost id = book.stock.stock_id;
        let mut i: usize = 0;
        proof {
            reveal(Seq::filter);
            assert(orders@.take(0) =~= Seq::<Order>::empty());
        }
        while i < orders.len()
            invariant
                i <= orders.len(),
                book.stock == stock,
                id == stock.stock_id,
                book.wf(),
                book.bids@ == placed_in_turn(
                    admitted(orders@.take(i as int), id, TransactionType::Bid),
                ),
                book.asks@ == placed_in_turn(
                    admitted(orders@.take(i as int), id, TransactionType::Ask),
                ),
            decreases orders.len() - i,
        {
            let order = orders[i];
            proof {
                let before = orders@.take(i as int);
                assert(orders@.take(i as int + 1) =~= before.push(order));
                before.lemma_filter_push(order, resting_on(id, TransactionType::Bid));
                before.lemma_filter_push(order, resting_on(id, TransactionType::Ask));
                let bids = admitted(before, id, TransactionType::Bid);
                let asks = admitted(before, id, TransactionType::Ask);
                assert(bids.push(order).drop_last() =~= bids);
                assert(asks.push(order).drop_last() =~= asks);
            }
            if order.can_rest_on(book.stock.stock_id, order.transaction_type) {
                book.place_order(order);
            }
            i += 1;
        }
        assert(orders@.take(i as int) =~= orders@);
        book
    }

    /// Places a sell order among the asks: behind every ask at its price or
    /// above, before every ask below.
    pub fn ask(&mut self, order: Order)
        requires
            old(self).wf(),
            order.rests_on(old(self).stock.stock_id, TransactionType::Ask),
        ensures
            final(self).asks@ == placed(old(self).asks@, order),
            final(self).bids@ == old(self).bids@,
            final(self).stock == old(self).stock,
            final(self).wf(),
    {
        proof {
            lemma_placed_rests(self.asks@, order, self.stock.stock_id, TransactionType::Ask);
        }
        place(&mut self.asks, order);
    }

    /// Places a buy order among the bids: behind every bid at its price or
    /// above, before every bid below.
    pub fn bid(&mut self, order: Order)
        requires
            old(self).wf(),
            order.rests_on(old(self).stock.stock_id, TransactionType::Bid),
        ensures
            final(self).bids@ == placed(old(self).bids@, order),
            final(self).asks@ == old(self).asks@,
            final(self).stock == old(self).stock,
            final(self).wf(),
    {
        proof {
            lemma_placed_rests(self.bids@, order, self.stock.stock_id, TransactionType::Bid);
        }
        place(&mut self.bids, order);
    }

    /// Places `order` on its own side and hands the book back.
    pub fn place_order(&mut self, order: Order) -> (book: &mut Self)
        requires
            old(self).wf(),
            order.rests_on(old(self).stock.stock_id, order.transaction_type),
        ensures
            book.resting(order.transaction_type) == placed(
                old(self).resting(order.transaction_type),
                order,
            ),
            book.resting(order.transaction_type.other()) == old(self).resting(
                order.transaction_type.other(),
            ),
            book.stock == old(self).stock,
            book.wf(),
            *final(self) == *final(book),
    {
        match order.transaction_type {
            TransactionType::Ask => {
                self.ask(order);
            },
            TransactionType::Bid => {
                self.bid(order);
            },
        }
        self
    }
}

} // verus!
