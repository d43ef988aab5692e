//! Settlement: how one trade moves money and holdings between its two
//! parties, and when it may not.
//!
//! A settlement either goes through whole or changes nothing. A run of
//! settlements is held to the same rule: where one of them fails, none of them
//! has happened.

use crate::db::{
    account_index, entry_index, has_account, has_entry, holding, is_account, is_entry,
    lemma_account_is_unique, lemma_entry_is_unique, lemma_named_is_held, Account, Stock, User,
};
use crate::error::OrderError;
use crate::order::matching::Trade;
use crate::order::Orderbook;
use vstd::prelude::*;

verus! {

/// What `qty` costs at `price`.
pub open spec fn cost(price: u64, qty: u32) -> nat {
    (price as nat) * (qty as nat)
}

/// `holdings` with `qty` more of `stock`: added to its entry, or as a new last
/// entry that copies the instrument's reference data.
pub open spec fn credited(holdings: Seq<Stock>, stock: Stock, qty: u32) -> Seq<Stock> {
    if has_entry(holdings, stock.stock_id) {
        let i = entry_index(holdings, stock.stock_id);
        holdings.update(i, Stock { qty: (holdings[i].qty + qty) as u32, ..holdings[i] })
    } else {
        holdings.push(Stock { qty, ..stock })
    }
}

/// `holdings` with `qty` less of `stock_id`. The entry stays, also at zero.
pub open spec fn debited(holdings: Seq<Stock>, stock_id: u32, qty: u32) -> Seq<Stock> {
    if has_entry(holdings, stock_id) {
        let i = entry_index(holdings, stock_id);
        holdings.update(i, Stock { qty: (holdings[i].qty - qty) as u32, ..holdings[i] })
    } else {
        holdings
    }
}

/// The buyer after a trade: the cost paid, the quantity received.
pub open spec fn bought(buyer: Account, stock: Stock, price: u64, qty: u32) -> Account {
    Account {
        user_id: buyer.user_id,
        balance: (buyer.balance - cost(price, qty)) as u64,
        holdings: credited(buyer.holdings, stock, qty),
    }
}

/// The seller after a trade: the quantity delivered, the cost received.
pub open spec fn sold(seller: Account, stock_id: u32, price: u64, qty: u32) -> Account {
    Account {
        user_id: seller.user_id,
        balance: (seller.balance + cost(price, qty)) as u64,
        holdings: debited(seller.holdings, stock_id, qty),
    }
}

/// Why `buyer` and `seller` cannot settle `qty` of `stock_id` at `price`, if
/// they cannot. The conditions are tried in this order: the buyer's balance
/// covers the cost; the seller holds the quantity; the seller's balance and
/// the buyer's holding have room for what they receive.
pub open spec fn settlement_failure(
    buyer: Account,
    seller: Account,
    stock_id: u32,
    price: u64,
    qty: u32,
) -> Option<OrderError> {
    if buyer.balance < cost(price, qty) {
        Some(OrderError::InsufficientBalance)
    } else if holding(seller.holdings, stock_id) < qty {
        Some(OrderError::InsufficientHoldings)
    } else if seller.balance + cost(price, qty) > u64::MAX {
        Some(OrderError::BalanceOverflow)
    } else if holding(buyer.holdings, stock_id) + qty > u32::MAX {
        Some(OrderError::HoldingsOverflow)
    } else {
        None
    }
}

/// `accounts` after `trade` in `stock` has settled, or why it cannot. Both
/// parties must be known. The buyer's account changes first, then the
/// seller's, so that a party that trades with itself ends where it began.
pub open spec fn settled(accounts: Seq<Account>, stock: Stock, trade: Trade) -> Result<
    Seq<Account>,
    OrderError,
> {
    if !has_account(accounts, trade.buyer_id) || !has_account(accounts, trade.seller_id) {
        Err(OrderError::UnknownAccount)
    } else {
        let b = account_index(accounts, trade.buyer_id);
        let s = account_index(accounts, trade.seller_id);
        match settlement_failure(accounts[b], accounts[s], stock.stock_id, trade.price, trade.qty) {
            Some(e) => Err(e),
            None => {
                let paid = accounts.update(b, bought(accounts[b], stock, trade.price, trade.qty));
                Ok(paid.update(s, sold(paid[s], stock.stock_id, trade.price, trade.qty)))
            },
        }
    }
}

/// `accounts` after each of `trades` has settled in turn, or the failure of
/// the first that cannot.
pub open spec fn settled_all(accounts: Seq<Account>, stock: Stock, trades: Seq<Trade>) -> Result<
    Seq<Account>,
    OrderError,
>
    decreases trades.len(),
{
    if trades.len() == 0 {
        Ok(accounts)
    } else {
        match settled(accounts, stock, trades[0]) {
            Err(e) => Err(e),
            Ok(next) => settled_all(next, stock, trades.drop_first()),
        }
    }
}

/// Decides `settlement_failure`.
pub fn check_settlement(buyer: &User, seller: &User, stock_id: u32, price: u64, qty: u32) -> (failure:
    Option<OrderError>)
    ensures
        failure == settlement_failure(buyer@, seller@, stock_id, price, qty),
{
    assert(cost(price, qty) <= 0xffff_ffff_ffff_ffff * 0xffff_ffff) by (nonlinear_arith)
        requires
            price <= 0xffff_ffff_ffff_ffff,
            qty <= 0xffff_ffff,
    ;
    let total: u128 = (price as u128) * (qty as u128);
    if (buyer.balance as u128) < total {
        Some(OrderError::InsufficientBalance)
    } else if seller.holding(stock_id) < qty {
        Some(OrderError::InsufficientHoldings)
    } else if total > (u64::MAX - seller.balance) as u128 {
        Some(OrderError::BalanceOverflow)
    } else if buyer.holding(stock_id) > u32::MAX - qty {
        Some(OrderError::HoldingsOverflow)
    } else {
        None
    }
}

/// The buyer's half of a settlement.
fn pay(buyer: &mut User, stock: &Stock, price: u64, qty: u32)
    requires
        cost(price, qty) <= old(buyer).balance,
        holding(old(buyer)@.holdings, stock.stock_id) + qty <= u32::MAX,
    ensures
        final(buyer)@ == bought(old(buyer)@, *stock, price, qty),
{
    let total: u64 = price * (qty as u64);
    buyer.balance = buyer.balance - total;
    match buyer.holding_entry(stock.stock_id) {
        Some(i) => {
            proof {
                lemma_entry_is_unique(buyer@.holdings, stock.stock_id, i as int);
            }
            buyer.stocks[i].qty = buyer.stocks[i].qty + qty;
        },
        None => {
            buyer.stocks.push(
                Stock {
                    stock_id: stock.stock_id,
                    ticker: stock.ticker.clone(),
                    price: stock.price,
                    qty,
                },
            );
        },
    }
    assert(buyer@.holdings =~= credited(old(buyer)@.holdings, *stock, qty));
}

/// The seller's half of a settlement.
fn deliver(seller: &mut User, stock_id: u32, price: u64, qty: u32)
    requires
        holding(old(seller)@.holdings, stock_id) >= qty,
        old(seller).balance + cost(price, qty) <= u64::MAX,
    ensures
        final(seller)@ == sold(old(seller)@, stock_id, price, qty),
{
    let total: u64 = price * (qty as u64);
    seller.balance = seller.balance + total;
    match seller.holding_entry(stock_id) {
        Some(i) => {
            proof {
                lemma_entry_is_unique(seller@.holdings, stock_id, i as int);
            }
            seller.stocks[i].qty = seller.stocks[i].qty - qty;
        },
        None => {},
    }
    assert(seller@.holdings =~= debited(old(seller)@.holdings, stock_id, qty));
}

impl Orderbook {
    /// Settles a trade of `qty` of `stock` at `price` between two accounts:
    /// the buyer pays the cost and receives the quantity, the seller delivers
    /// it and is paid. Where `settlement_failure` names a reason, that reason
    /// comes back and neither account changes. The book is not touched.
    pub fn flip_balances(
        &mut self,
        buyer: &mut User,
        seller: &mut User,
        stock: Stock,
        price: u64,
        qty: u32,
    ) -> (result: Result<(), OrderError>)
        ensures
            *final(self) == *old(self),
            match settlement_failure(old(buyer)@, old(seller)@, stock.stock_id, price, qty) {
                Some(e) => {
                    &&& result == Err::<(), OrderError>(e)
                    &&& *final(buyer) == *old(buyer)
                    &&& *final(seller) == *old(seller)
                },
                None => {
                    &&& result is Ok
                    &&& final(buyer)@ == bought(old(buyer)@, stock, price, qty)
                    &&& final(seller)@ == sold(old(seller)@, stock.stock_id, price, qty)
                    &&& final(buyer).balance == old(buyer).balance - cost(price, qty)
                    &&& final(seller).balance == old(seller).balance + cost(price, qty)
                    &&& holding(final(buyer)@.holdings, stock.stock_id) == holding(
                        old(buyer)@.holdings,
                        stock.stock_id,
                    ) + qty
                    &&& holding(final(seller)@.holdings, stock.stock_id) == holding(
                        old(seller)@.holdings,
                        stock.stock_id,
                    ) - qty
                },
            },
    {
        match check_settlement(buyer, seller, stock.stock_id, price, qty) {
            Some(e) => Err(e),
            None => {
                proof {
                    lemma_credited_holding(buyer@.holdings, stock, qty, stock.stock_id);
                    lemma_debited_holding(seller@.holdings, stock.stock_id, qty, stock.stock_id);
                }
                pay(buyer, &stock, price, qty);
                deliver(seller, stock.stock_id, price, qty);
                Ok(())
            },
        }
    }
}

/// Settles `trade` in `stock` between the accounts of `users` that answer to
/// its two parties, or says why it cannot and leaves `users` alone.
pub fn settle(users: &mut Vec<User>, stock: &Stock, trade: &Trade) -> (result: Result<
    (),
    OrderError,
>)
    ensures
        match settled(old(users).deep_view(), *stock, *trade) {
            Ok(accounts) => result is Ok && final(users).deep_view() == accounts,
            Err(e) => result == Err::<(), OrderError>(e) && *final(users) == *old(users),
        },
{
    let ghost before = users.deep_view();
    let b = match User::position(users, trade.buyer_id) {
        Some(b) => b,
        None => {
            return Err(OrderError::UnknownAccount);
        },
    };
    let s = match User::position(users, trade.seller_id) {
        Some(s) => s,
        None => {
            return Err(OrderError::UnknownAccount);
        },
    };
    proof {
        lemma_account_is_unique(before, trade.buyer_id, b as int);
        lemma_account_is_unique(before, trade.seller_id, s as int);
    }
    match check_settlement(&users[b], &users[s], stock.stock_id, trade.price, trade.qty) {
        Some(e) => Err(e),
        None => {
            pay(&mut users[b], stock, trade.price, trade.qty);
            let ghost paid = users.deep_view();
            proof {
                assert(paid =~= before.update(
                    b as int,
                    bought(before[b as int], *stock, trade.price, trade.qty),
                ));
                if b == s {
                    lemma_credited_holding(
                        before[b as int].holdings,
                        *stock,
                        trade.qty,
                        stock.stock_id,
                    );
                }
            }
            deliver(&mut users[s], stock.stock_id, trade.price, trade.qty);
            assert(users.deep_view() =~= paid.update(
                s as int,
                sold(paid[s as int], stock.stock_id, trade.price, trade.qty),
            ));
            Ok(())
        },
    }
}

/// Settles `trades` in turn, all of them or none: where one cannot settle,
/// its failure comes back and `users` is as it was before the first. A run
/// of two or more is settled on a copy of `users`, which takes their place
/// once the last trade has settled.
pub fn settle_all(users: &mut Vec<User>, stock: &Stock, trades: &Vec<Trade>) -> (result: Result<
    (),
    OrderError,
>)
    ensures
        match settled_all(old(users).deep_view(), *stock, trades@) {
            Ok(accounts) => result is Ok && final(users).deep_view() == accounts,
            Err(e) => result == Err::<(), OrderError>(e) && *final(users) == *old(users),
        },
{
    if trades.len() == 0 {
        return Ok(());
    }
    if trades.len() == 1 {
        proof {
            let alone = settled(users.deep_view(), *stock, trades@[0]);
            if alone is Ok {
                assert(settled_all(alone->Ok_0, *stock, trades@.drop_first()) == alone);
            }
        }
        return settle(users, stock, &trades[0]);
    }
    let mut ledger = users.clone();
    assert(ledger.deep_view() =~= users.deep_view());
    let mut i: usize = 0;
    assert(trades@.skip(0) =~= trades@);
    while i < trades.len()
        invariant
            i <= trades.len(),
            *users == *old(users),
            settled_all(users.deep_view(), *stock, trades@) == settled_all(
                ledger.deep_view(),
                *stock,
                trades@.skip(i as int),
            ),
        decreases trades.len() - i,
    {
        assert(trades@.skip(i as int).drop_first() =~= trades@.skip(i as int + 1));
        match settle(&mut ledger, stock, &trades[i]) {
            Ok(()) => {},
            Err(e) => {
                return Err(e);
            },
        }
        i += 1;
    }
    *users = ledger;
    Ok(())
}

/// Crediting an instrument raises its holding by the quantity and leaves every
/// other holding as it was.
pub proof fn lemma_credited_holding(holdings: Seq<Stock>, stock: Stock, qty: u32, other: u32)
    requires
        holding(holdings, stock.stock_id) + qty <= u32::MAX,
    ensures
        holding(credited(holdings, stock, qty), stock.stock_id) == holding(
            holdings,
            stock.stock_id,
        ) + qty,
        other != stock.stock_id ==> holding(credited(holdings, stock, qty), other) == holding(
            holdings,
            other,
        ),
{
    let after = credited(holdings, stock, qty);
    if has_entry(holdings, stock.stock_id) {
        let i = entry_index(holdings, stock.stock_id);
        assert(is_entry(holdings, stock.stock_id, i));
        assert(is_entry(after, stock.stock_id, i)) by {
            assert forall|j: int| 0 <= j < i implies (#[trigger] after[j]).stock_id
                != stock.stock_id by {
                assert(holdings[j].stock_id != stock.stock_id);
            }
        }
        lemma_entry_is_unique(after, stock.stock_id, i);
    } else {
        let n = holdings.len() as int;
        assert(is_entry(after, stock.stock_id, n)) by {
            assert forall|j: int| 0 <= j < n implies (#[trigger] after[j]).stock_id
                != stock.stock_id by {
                if holdings[j].stock_id == stock.stock_id {
                    lemma_named_is_held(holdings, stock.stock_id, j);
                }
            }
        }
        lemma_entry_is_unique(after, stock.stock_id, n);
    }
    if other != stock.stock_id {
        lemma_same_names_same_holding(holdings, after, other);
    }
}

/// Debiting an instrument that is held in sufficient quantity lowers its
/// holding by the quantity and leaves every other holding as it was.
pub proof fn lemma_debited_holding(holdings: Seq<Stock>, stock_id: u32, qty: u32, other: u32)
    requires
        holding(holdings, stock_id) >= qty,
    ensures
        holding(debited(holdings, stock_id, qty), stock_id) == holding(holdings, stock_id) - qty,
        other != stock_id ==> holding(debited(holdings, stock_id, qty), other) == holding(
            holdings,
            other,
        ),
{
    let after = debited(holdings, stock_id, qty);
    if has_entry(holdings, stock_id) {
        let i = entry_index(holdings, stock_id);
        assert(is_entry(holdings, stock_id, i));
        assert(is_entry(after, stock_id, i)) by {
            assert forall|j: int| 0 <= j < i implies (#[trigger] after[j]).stock_id != stock_id by {
                assert(holdings[j].stock_id != stock_id);
            }
        }
        lemma_entry_is_unique(after, stock_id, i);
    }
    if other != stock_id {
        lemma_same_names_same_holding(holdings, after, other);
    }
}

/// Two runs of holdings that agree on every entry that names `stock_id`, and
/// on which entries name it, hold the same quantity of it.
proof fn lemma_same_names_same_holding(before: Seq<Stock>, after: Seq<Stock>, stock_id: u32)
    requires
        before.len() <= after.len(),
        forall|j: int|
            0 <= j < before.len() ==> ((#[trigger] before[j]).stock_id == stock_id
                <==> after[j].stock_id == stock_id),
        forall|j: int|
            0 <= j < before.len() && (#[trigger] before[j]).stock_id == stock_id ==> after[j].qty
                == before[j].qty,
        forall|j: int|
            before.len() <= j < after.len() ==> (#[trigger] after[j]).stock_id != stock_id,
    ensures
        holding(after, stock_id) == holding(before, stock_id),
{
    if has_entry(before, stock_id) {
        let i = entry_index(before, stock_id);
        assert(is_entry(before, stock_id, i));
        assert(is_entry(after, stock_id, i)) by {
            assert forall|j: int| 0 <= j < i implies (#[trigger] after[j]).stock_id != stock_id by {
                assert(before[j].stock_id != stock_id);
            }
        }
        lemma_entry_is_unique(after, stock_id, i);
    } else if has_entry(after, stock_id) {
        let i = entry_index(after, stock_id);
        assert(is_entry(after, stock_id, i));
        assert(i < before.len());
        assert(before[i].stock_id == stock_id);
        lemma_named_is_held(before, stock_id, i);
    }
}

/// Settlement is exact. Where a trade settles, the buyer's balance falls by
/// the cost and the seller's rises by it, the buyer's holding of the
/// instrument rises by the quantity and the seller's falls by it, and nothing
/// else changes: no other account, and no holding of another instrument.
/// Balances and holdings are unsigned, so none of them has gone below zero.
/// The law speaks of account `i` and of its holding of `stock_id`, whichever
/// they are.
pub proof fn law_settlement_is_exact(
    accounts: Seq<Account>,
    stock: Stock,
    trade: Trade,
    i: int,
    stock_id: u32,
)
    requires
        settled(accounts, stock, trade) is Ok,
        0 <= i < accounts.len(),
    ensures
        ({
            let after = settled(accounts, stock, trade)->Ok_0;
            let b = account_index(accounts, trade.buyer_id);
            let s = account_index(accounts, trade.seller_id);
            let paid = if i == b { cost(trade.price, trade.qty) as int } else { 0 };
            let earned = if i == s { cost(trade.price, trade.qty) as int } else { 0 };
            let got = if i == b && stock_id == stock.stock_id { trade.qty as int } else { 0 };
            let gave = if i == s && stock_id == stock.stock_id { trade.qty as int } else { 0 };
            &&& after.len() == accounts.len()
            &&& after[i].user_id == accounts[i].user_id
            &&& after[i].balance == accounts[i].balance - paid + earned
            &&& holding(after[i].holdings, stock_id) == holding(accounts[i].holdings, stock_id)
                + got - gave
            &&& i != b && i != s ==> after[i] == accounts[i]
        }),
{
    let b = account_index(accounts, trade.buyer_id);
    let s = account_index(accounts, trade.seller_id);
    assert(is_account(accounts, trade.buyer_id, b));
    assert(is_account(accounts, trade.seller_id, s));
    let buyer = bought(accounts[b], stock, trade.price, trade.qty);
    let paid = accounts.update(b, buyer);
    lemma_credited_holding(accounts[b].holdings, stock, trade.qty, stock_id);
    lemma_debited_holding(paid[s].holdings, stock.stock_id, trade.qty, stock_id);
}

} // verus!
