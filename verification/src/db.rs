//! Reference data and accounts: the instruments, the parties that trade them,
//! and what each party holds.

use crate::db::mock_db::{db_stocks, db_users, is_first_user, is_googl, is_second_user};
use vstd::prelude::*;

pub mod mock_db;

verus! {

/// An instrument. As reference data `qty` is the circulating quantity and
/// `price` a reference price that matching never reads; as an entry among a
/// user's holdings `qty` is the quantity that the user owns.
#[derive(Debug, PartialEq, Eq)]
pub struct Stock {
    pub stock_id: u32,
    pub ticker: String,
    pub price: u32,
    pub qty: u32,
}

impl Clone for Stock {
    fn clone(&self) -> (copy: Self)
        ensures
            copy == *self,
    {
        Stock {
            stock_id: self.stock_id,
            ticker: self.ticker.clone(),
            price: self.price,
            qty: self.qty,
        }
    }
}

/// A party: its balance and its holdings, one entry per instrument held.
/// Where two entries name one instrument, the first stands for it.
#[derive(Debug, PartialEq, Eq)]
pub struct User {
    pub user_id: u32,
    pub balance: u64,
    pub stocks: Vec<Stock>,
}

/// A user as the contracts see it: the holdings as a sequence.
pub struct Account {
    pub user_id: u32,
    pub balance: u64,
    pub holdings: Seq<Stock>,
}

impl View for User {
    type V = Account;

    open spec fn view(&self) -> Account {
        Account { user_id: self.user_id, balance: self.balance, holdings: self.stocks@ }
    }
}

impl DeepView for User {
    type V = Account;

    open spec fn deep_view(&self) -> Account {
        self@
    }
}

impl Clone for User {
    fn clone(&self) -> (copy: Self)
        ensures
            copy@ == self@,
    {
        let mut stocks: Vec<Stock> = Vec::new();
        let mut i: usize = 0;
        while i < self.stocks.len()
            invariant
                i <= self.stocks.len(),
                stocks@ == self.stocks@.take(i as int),
            decreases self.stocks.len() - i,
        {
            stocks.push(self.stocks[i].clone());
            i += 1;
        }
        assert(self.stocks@.take(i as int) =~= self.stocks@);
        User { user_id: self.user_id, balance: self.balance, stocks }
    }
}

/// Whether entry `i` of `holdings` stands for `stock_id`: it is the first one
/// that names it.
pub open spec fn is_entry(holdings: Seq<Stock>, stock_id: u32, i: int) -> bool {
    &&& 0 <= i < holdings.len()
    &&& holdings[i].stock_id == stock_id
    &&& forall|j: int| 0 <= j < i ==> (#[trigger] holdings[j]).stock_id != stock_id
}

/// Whether `holdings` has an entry for `stock_id`.
pub open spec fn has_entry(holdings: Seq<Stock>, stock_id: u32) -> bool {
    exists|i: int| is_entry(holdings, stock_id, i)
}

/// The entry of `holdings` that stands for `stock_id`, where there is one.
pub open spec fn entry_index(holdings: Seq<Stock>, stock_id: u32) -> int {
    choose|i: int| is_entry(holdings, stock_id, i)
}

/// The quantity of `stock_id` among `holdings`: that of its entry, or nothing.
pub open spec fn holding(holdings: Seq<Stock>, stock_id: u32) -> u32 {
    if has_entry(holdings, stock_id) {
        holdings[entry_index(holdings, stock_id)].qty
    } else {
        0
    }
}

/// Whether account `i` of `accounts` answers to `user_id`: it is the first one
/// with that identifier.
pub open spec fn is_account(accounts: Seq<Account>, user_id: u32, i: int) -> bool {
    &&& 0 <= i < accounts.len()
    &&& accounts[i].user_id == user_id
    &&& forall|j: int| 0 <= j < i ==> (#[trigger] accounts[j]).user_id != user_id
}

/// Whether `accounts` knows `user_id`.
pub open spec fn has_account(accounts: Seq<Account>, user_id: u32) -> bool {
    exists|i: int| is_account(accounts, user_id, i)
}

/// The account of `accounts` that answers to `user_id`, where there is one.
pub open spec fn account_index(accounts: Seq<Account>, user_id: u32) -> int {
    choose|i: int| is_account(accounts, user_id, i)
}

/// The entry that stands for an instrument is the only one that does.
pub proof fn lemma_entry_is_unique(holdings: Seq<Stock>, stock_id: u32, i: int)
    requires
        is_entry(holdings, stock_id, i),
    ensures
        has_entry(holdings, stock_id),
        entry_index(holdings, stock_id) == i,
        holding(holdings, stock_id) == holdings[i].qty,
{
    let c = entry_index(holdings, stock_id);
    assert(is_entry(holdings, stock_id, c));
    if c < i {
        assert(holdings[c].stock_id != stock_id);
    } else if i < c {
        assert(holdings[i].stock_id != stock_id);
    }
}

/// An entry that names an instrument shows that the holdings have an entry
/// for it.
pub proof fn lemma_named_is_held(holdings: Seq<Stock>, stock_id: u32, j: int)
    requires
        0 <= j < holdings.len(),
        holdings[j].stock_id == stock_id,
    ensures
        has_entry(holdings, stock_id),
    decreases j,
{
    if exists|k: int| 0 <= k < j && (#[trigger] holdings[k]).stock_id == stock_id {
        let k = choose|k: int| 0 <= k < j && (#[trigger] holdings[k]).stock_id == stock_id;
        lemma_named_is_held(holdings, stock_id, k);
    } else {
        assert(is_entry(holdings, stock_id, j));
    }
}

/// The account that answers to an identifier is the only one that does.
pub proof fn lemma_account_is_unique(accounts: Seq<Account>, user_id: u32, i: int)
    requires
        is_account(accounts, user_id, i),
    ensures
        has_account(accounts, user_id),
        account_index(accounts, user_id) == i,
{
    let c = account_index(accounts, user_id);
    assert(is_account(accounts, user_id, c));
    if c < i {
        assert(accounts[c].user_id != user_id);
    } else if i < c {
        assert(accounts[i].user_id != user_id);
    }
}

impl Stock {
    /// The instrument on file under `stock_id`: there is one, under 1.
    pub fn get_stock(stock_id: u32) -> (found: Option<Self>)
        ensures
            found is Some <==> stock_id == 1,
            found is Some ==> is_googl(found->Some_0),
    {
        let stocks = db_stocks();
        let mut i: usize = 0;
        while i < stocks.len()
            invariant
                i <= stocks.len(),
                stocks@.len() == 1,
                is_googl(stocks@[0]),
                forall|j: int| 0 <= j < i ==> (#[trigger] stocks@[j]).stock_id != stock_id,
            decreases stocks.len() - i,
        {
            if stocks[i].stock_id == stock_id {
                return Some(stocks[i].clone());
            }
            i += 1;
        }
        None
    }
}

impl User {
    /// The user on file under `user_id`: there are two, under 1 and 2.
    pub fn get_user(user_id: u32) -> (found: Option<User>)
        ensures
            found is Some <==> user_id == 1 || user_id == 2,
            user_id == 1 ==> is_first_user(found->Some_0@),
            user_id == 2 ==> is_second_user(found->Some_0@),
    {
        let users = db_users();
        match User::position(&users, user_id) {
            Some(i) => Some(users[i].clone()),
            None => {
                assert(is_account(users.deep_view(), 1, 0));
                assert(is_account(users.deep_view(), 2, 1));
                None
            },
        }
    }

    /// Where among the holdings the entry for `stock_id` stands.
    pub fn holding_entry(&self, stock_id: u32) -> (found: Option<usize>)
        ensures
            match found {
                Some(i) => is_entry(self@.holdings, stock_id, i as int),
                None => !has_entry(self@.holdings, stock_id),
            },
    {
        let mut i: usize = 0;
        while i < self.stocks.len()
            invariant
                i <= self.stocks.len(),
                forall|j: int| 0 <= j < i ==> (#[trigger] self.stocks@[j]).stock_id != stock_id,
            decreases self.stocks.len() - i,
        {
            if self.stocks[i].stock_id == stock_id {
                return Some(i);
            }
            i += 1;
        }
        None
    }

    /// How much of `stock_id` the user holds.
    pub fn holding(&self, stock_id: u32) -> (qty: u32)
        ensures
            qty == holding(self@.holdings, stock_id),
    {
        match self.holding_entry(stock_id) {
            Some(i) => {
                proof {
                    lemma_entry_is_unique(self@.holdings, stock_id, i as int);
                }
                self.stocks[i].qty
            },
            None => 0,
        }
    }

    /// Where among `users` the account of `user_id` stands.
    pub fn position(users: &Vec<User>, user_id: u32) -> (found: Option<usize>)
        ensures
            match found {
                Some(i) => is_account(users.deep_view(), user_id, i as int),
                None => !has_account(users.deep_view(), user_id),
            },
    {
        let mut i: usize = 0;
        while i < users.len()
            invariant
                i <= users.len(),
                forall|j: int| 0 <= j < i ==> (#[trigger] users.deep_view()[j]).user_id != user_id,
            decreases users.len() - i,
        {
            if users[i].user_id == user_id {
                return Some(i);
            }
            i += 1;
        }
        None
    }
}

} // verus!
