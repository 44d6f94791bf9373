//! The ledger: who holds how many tokens.

use crate::types::{Error, Identity, INITIAL_TOKENS};
use vstd::prelude::*;

verus! {

/// One participant's entry in the ledger.
#[derive(Debug, PartialEq, Eq)]
pub struct Account {
    pub owner: Identity,
    pub balance: u64,
}

/// A ledger entry as a mathematical value.
pub struct AccountView {
    pub owner: Seq<u8>,
    pub balance: u64,
}

impl View for Account {
    type V = AccountView;

    open spec fn view(&self) -> AccountView {
        AccountView { owner: self.owner@, balance: self.balance }
    }
}

impl Clone for Account {
    fn clone(&self) -> (account: Account)
        ensures
            account@ == self@,
    {
        Account { owner: self.owner.clone(), balance: self.balance }
    }
}

/// Whether `who` has an entry in `ledger`.
pub open spec fn registered(ledger: Seq<AccountView>, who: Seq<u8>) -> bool {
    exists|i: int| 0 <= i < ledger.len() && #[trigger] ledger[i].owner == who
}

/// Where the entry of `who` stands in `ledger`, if `who` is registered.
pub open spec fn position(ledger: Seq<AccountView>, who: Seq<u8>) -> int {
    choose|i: int| 0 <= i < ledger.len() && #[trigger] ledger[i].owner == who
}

/// The balance of `who`, if `who` is registered.
pub open spec fn balance(ledger: Seq<AccountView>, who: Seq<u8>) -> u64 {
    ledger[position(ledger, who)].balance
}

/// No two entries belong to one participant.
pub open spec fn distinct_owners(ledger: Seq<AccountView>) -> bool {
    forall|i: int, j: int|
        0 <= i < j < ledger.len() ==> #[trigger] ledger[i].owner != #[trigger] ledger[j].owner
}

/// The tokens that all the entries hold together.
pub open spec fn total(ledger: Seq<AccountView>) -> int
    decreases ledger.len(),
{
    if ledger.len() == 0 {
        0
    } else {
        total(ledger.drop_last()) + ledger.last().balance
    }
}

/// `ledger` with the balance of `who` set to `amount`.
pub open spec fn with_balance(ledger: Seq<AccountView>, who: Seq<u8>, amount: u64) -> Seq<
    AccountView,
> {
    Seq::new(
        ledger.len(),
        |i: int|
            if ledger[i].owner == who {
                AccountView { owner: who, balance: amount }
            } else {
                ledger[i]
            },
    )
}

/// The views of a list of accounts, in order.
pub open spec fn accounts_view(accounts: Seq<Account>) -> Seq<AccountView> {
    accounts.map_values(|a: Account| a@)
}

/// An entry that belongs to `who` is the one that `position` names.
pub proof fn lemma_position(ledger: Seq<AccountView>, who: Seq<u8>, i: int)
    requires
        distinct_owners(ledger),
        0 <= i < ledger.len(),
        ledger[i].owner == who,
    ensures
        registered(ledger, who),
        position(ledger, who) == i,
        balance(ledger, who) == ledger[i].balance,
{
}

/// Setting the balance of a participant without an entry changes nothing.
pub proof fn lemma_with_balance_unregistered(ledger: Seq<AccountView>, who: Seq<u8>, amount: u64)
    requires
        !registered(ledger, who),
    ensures
        with_balance(ledger, who, amount) == ledger,
{
}

/// No entry holds more than all entries together.
pub proof fn lemma_balance_le_total(ledger: Seq<AccountView>, i: int)
    requires
        0 <= i < ledger.len(),
    ensures
        0 <= ledger[i].balance <= total(ledger),
        0 <= total(ledger),
    decreases ledger.len(),
{
    lemma_total_nonnegative(ledger.drop_last());
    if i < ledger.len() - 1 {
        lemma_balance_le_total(ledger.drop_last(), i);
    }
}

/// The total is never negative.
pub proof fn lemma_total_nonnegative(ledger: Seq<AccountView>)
    ensures
        0 <= total(ledger),
    decreases ledger.len(),
{
    if ledger.len() > 0 {
        lemma_total_nonnegative(ledger.drop_last());
    }
}

/// A new entry adds its balance to the total.
pub proof fn lemma_total_push(ledger: Seq<AccountView>, account: AccountView)
    ensures
        total(ledger.push(account)) == total(ledger) + account.balance,
{
    assert(ledger.push(account).drop_last() =~= ledger);
}

/// Setting one balance moves the total by the difference.
pub proof fn lemma_total_with_balance(ledger: Seq<AccountView>, who: Seq<u8>, amount: u64)
    requires
        distinct_owners(ledger),
        registered(ledger, who),
    ensures
        total(with_balance(ledger, who, amount)) == total(ledger) - balance(ledger, who) + amount,
    decreases ledger.len(),
{
    let rest = ledger.drop_last();
    let last = ledger.last();
    let n = ledger.len() - 1;
    assert(with_balance(ledger, who, amount).drop_last() =~= with_balance(rest, who, amount));
    if last.owner == who {
        lemma_position(ledger, who, n);
        assert(!registered(rest, who)) by {
            if registered(rest, who) {
                let p = position(rest, who);
            }
        }
        lemma_with_balance_unregistered(rest, who, amount);
    } else {
        let p = position(ledger, who);
        lemma_position(rest, who, p);
        lemma_total_with_balance(rest, who, amount);
    }
}

/// Setting a balance keeps the owners, so it keeps them distinct.
pub proof fn lemma_with_balance_owners(ledger: Seq<AccountView>, who: Seq<u8>, amount: u64)
    ensures
        with_balance(ledger, who, amount).len() == ledger.len(),
        forall|i: int|
            0 <= i < ledger.len() ==> (#[trigger] with_balance(ledger, who, amount)[i]).owner
                == ledger[i].owner,
        distinct_owners(ledger) ==> distinct_owners(with_balance(ledger, who, amount)),
        forall|other: Seq<u8>|
            registered(with_balance(ledger, who, amount), other) == registered(ledger, other),
{
    let updated = with_balance(ledger, who, amount);
    assert forall|other: Seq<u8>| registered(updated, other) == registered(ledger, other) by {
        if registered(updated, other) {
            let p = position(updated, other);
        }
        if registered(ledger, other) {
            let p = position(ledger, other);
            assert(updated[p].owner == other);
        }
    }
}

/// The balances of the registered participants.
pub struct Ledger {
    accounts: Vec<Account>,
}

impl View for Ledger {
    type V = Seq<AccountView>;

    closed spec fn view(&self) -> Seq<AccountView> {
        accounts_view(self.accounts@)
    }
}

impl Ledger {
    /// No participant has two entries, and the total fits the balance type.
    pub open spec fn wf(&self) -> bool {
        &&& distinct_owners(self@)
        &&& total(self@) <= u64::MAX
    }

    /// A ledger without entries.
    pub fn new() -> (ledger: Ledger)
        ensures
            ledger@ == Seq::<AccountView>::empty(),
            ledger.wf(),
    {
        let ledger = Ledger { accounts: Vec::new() };
        ledger
    }

    /// The index of the entry of `who`, if there is one.
    fn find(&self, who: &Identity) -> (found: Option<usize>)
        ensures
            match found {
                Some(i) => i < self@.len() && self@[i as int].owner == who@,
                None => !registered(self@, who@),
            },
    {
        let mut i: usize = 0;
        while i < self.accounts.len()
            invariant
                i <= self.accounts.len(),
                forall|j: int| 0 <= j < i ==> (#[trigger] self@[j]).owner != who@,
            decreases self.accounts.len() - i,
        {
            if self.accounts[i].owner.same(who) {
                return Some(i);
            }
            i += 1;
        }
        None
    }

    /// Whether `who` has an entry.
    pub fn is_registered(&self, who: &Identity) -> (b: bool)
        ensures
            b == registered(self@, who@),
    {
        self.find(who).is_some()
    }

    /// Gives `who` an entry with the initial grant, unless `who` has one.
    pub fn register(&mut self, who: &Identity) -> (result: Result<(), Error>)
        requires
            old(self).wf(),
            !registered(old(self)@, who@) ==> total(old(self)@) + INITIAL_TOKENS <= u64::MAX,
        ensures
            final(self).wf(),
            match result {
                Ok(_) => {
                    &&& !registered(old(self)@, who@)
                    &&& final(self)@ == old(self)@.push(
                        AccountView { owner: who@, balance: INITIAL_TOKENS },
                    )
                    &&& total(final(self)@) == total(old(self)@) + INITIAL_TOKENS
                },
                Err(e) => {
                    &&& e == Error::AlreadyRegistered
                    &&& registered(old(self)@, who@)
                    &&& final(self)@ == old(self)@
                },
            },
    {
        match self.find(who) {
            Some(_) => Err(Error::AlreadyRegistered),
            None => {
                let account = Account { owner: who.clone(), balance: INITIAL_TOKENS };
                self.accounts.push(account);
                proof {
                    let entry = AccountView { owner: who@, balance: INITIAL_TOKENS };
                    assert(final(self)@ =~= old(self)@.push(entry));
                    lemma_total_push(old(self)@, entry);
                }
                Ok(())
            },
        }
    }

    /// The balance of `who`.
    pub fn balance_of(&self, who: &Identity) -> (result: Result<u64, Error>)
        requires
            self.wf(),
        ensures
            match result {
                Ok(amount) => registered(self@, who@) && amount == balance(self@, who@),
                Err(e) => e == Error::NotRegistered && !registered(self@, who@),
            },
    {
        match self.find(who) {
            Some(i) => {
                proof {
                    lemma_position(self@, who@, i as int);
                }
                Ok(self.accounts[i].balance)
            },
            None => Err(Error::NotRegistered),
        }
    }

    /// Sets the balance of the entry at `index`.
    fn set_balance(&mut self, index: usize, who: &Identity, amount: u64)
        requires
            distinct_owners(old(self)@),
            index < old(self)@.len(),
            old(self)@[index as int].owner == who@,
        ensures
            final(self)@ == with_balance(old(self)@, who@, amount),
            distinct_owners(final(self)@),
            total(final(self)@) == total(old(self)@) - balance(old(self)@, who@) + amount,
            balance(old(self)@, who@) == old(self)@[index as int].balance,
            forall|other: Seq<u8>| registered(final(self)@, other) == registered(old(self)@, other),
    {
        self.accounts[index].balance = amount;
        proof {
            lemma_position(old(self)@, who@, index as int);
            lemma_total_with_balance(old(self)@, who@, amount);
            lemma_with_balance_owners(old(self)@, who@, amount);
        }
    }

    /// Takes `amount` from the balance of `who`.
    pub fn debit(&mut self, who: &Identity, amount: u64) -> (result: Result<(), Error>)
        requires
            old(self).wf(),
        ensures
            final(self).wf(),
            match result {
                Ok(_) => {
                    &&& registered(old(self)@, who@)
                    &&& amount <= balance(old(self)@, who@)
                    &&& final(self)@ == with_balance(
                        old(self)@,
                        who@,
                        (balance(old(self)@, who@) - amount) as u64,
                    )
                    &&& total(final(self)@) == total(old(self)@) - amount
                },
                Err(e) => {
                    &&& final(self)@ == old(self)@
                    &&& e == Error::NotRegistered || e == Error::InsufficientFunds
                    &&& e == Error::NotRegistered <==> !registered(old(self)@, who@)
                    &&& e == Error::InsufficientFunds ==> amount > balance(old(self)@, who@)
                },
            },
    {
        match self.find(who) {
            None => Err(Error::NotRegistered),
            Some(i) => {
                proof {
                    lemma_position(self@, who@, i as int);
                }
                let held = self.accounts[i].balance;
                if held < amount {
                    Err(Error::InsufficientFunds)
                } else {
                    self.set_balance(i, who, held - amount);
                    Ok(())
                }
            },
        }
    }

    /// Adds `amount` to the balance of `who`.
    pub fn credit(&mut self, who: &Identity, amount: u64) -> (result: Result<(), Error>)
        requires
            old(self).wf(),
            registered(old(self)@, who@) ==> total(old(self)@) + amount <= u64::MAX,
        ensures
            final(self).wf(),
            match result {
                Ok(_) => {
                    &&& registered(old(self)@, who@)
                    &&& final(self)@ == with_balance(
                        old(self)@,
                        who@,
                        (balance(old(self)@, who@) + amount) as u64,
                    )
                    &&& total(final(self)@) == total(old(self)@) + amount
                },
                Err(e) => {
                    &&& e == Error::NotRegistered
                    &&& !registered(old(self)@, who@)
                    &&& final(self)@ == old(self)@
                },
            },
    {
        match self.find(who) {
            None => Err(Error::NotRegistered),
            Some(i) => {
                proof {
                    lemma_position(self@, who@, i as int);
                    lemma_balance_le_total(self@, i as int);
                }
                let held = self.accounts[i].balance;
                self.set_balance(i, who, held + amount);
                Ok(())
            },
        }
    }

    /// The tokens that all the entries hold together.
    pub fn total_balance(&self) -> (sum: u64)
        requires
            self.wf(),
        ensures
            sum == total(self@),
    {
        let mut sum: u64 = 0;
        let mut i: usize = 0;
        while i < self.accounts.len()
            invariant
                i <= self.accounts.len(),
                sum == total(self@.take(i as int)),
                total(self@) <= u64::MAX,
            decreases self.accounts.len() - i,
        {
            proof {
                lemma_total_prefix(self@, i as int + 1);
                assert(self@.take(i as int + 1).drop_last() =~= self@.take(i as int));
            }
            sum = sum + self.accounts[i].balance;
            i += 1;
        }
        assert(self@.take(self@.len() as int) =~= self@);
        sum
    }

    /// The number of entries.
    pub fn len(&self) -> (n: usize)
        ensures
            n == self@.len(),
    {
        self.accounts.len()
    }

    /// Whether no participant has two entries and the total fits the balance
    /// type.
    pub fn is_sound(&self) -> (b: bool)
        ensures
            b == self.wf(),
    {
        owners_distinct(&self.accounts) && checked_total(&self.accounts).is_some()
    }

    /// The ledger that holds `accounts`, if no participant has two of them and
    /// their total fits the balance type.
    pub fn from_accounts(accounts: Vec<Account>) -> (result: Option<Ledger>)
        ensures
            match result {
                Some(ledger) => ledger@ == accounts_view(accounts@) && ledger.wf(),
                None => !distinct_owners(accounts_view(accounts@)) || total(
                    accounts_view(accounts@),
                ) > u64::MAX,
            },
    {
        if !owners_distinct(&accounts) {
            return None;
        }
        if checked_total(&accounts).is_none() {
            return None;
        }
        Some(Ledger { accounts })
    }

    /// The entries, in the order of registration.
    pub fn accounts(&self) -> (accounts: Vec<Account>)
        ensures
            accounts_view(accounts@) == self@,
    {
        copy_accounts(&self.accounts)
    }
}

/// Copies a list of accounts.
pub fn copy_accounts(accounts: &Vec<Account>) -> (copy: Vec<Account>)
    ensures
        accounts_view(copy@) == accounts_view(accounts@),
{
    let mut copy: Vec<Account> = Vec::new();
    let mut i: usize = 0;
    while i < accounts.len()
        invariant
            i <= accounts.len(),
            copy.len() == i,
            forall|j: int| 0 <= j < i ==> copy@[j]@ == accounts@[j]@,
        decreases accounts.len() - i,
    {
        copy.push(accounts[i].clone());
        i += 1;
    }
    copy
}

/// Whether no two of `accounts` belong to one participant.
pub fn owners_distinct(accounts: &Vec<Account>) -> (b: bool)
    ensures
        b == distinct_owners(accounts_view(accounts@)),
{
    let ghost ledger = accounts_view(accounts@);
    let mut j: usize = 0;
    while j < accounts.len()
        invariant
            j <= accounts.len(),
            ledger == accounts_view(accounts@),
            forall|a: int, b: int|
                0 <= a < b < j ==> #[trigger] ledger[a].owner != #[trigger] ledger[b].owner,
        decreases accounts.len() - j,
    {
        let mut i: usize = 0;
        while i < j
            invariant
                i <= j < accounts.len(),
                ledger == accounts_view(accounts@),
                forall|a: int|
                    0 <= a < i ==> (#[trigger] ledger[a]).owner != ledger[j as int].owner,
            decreases j - i,
        {
            if accounts[i].owner.same(&accounts[j].owner) {
                assert(ledger[i as int].owner == ledger[j as int].owner);
                return false;
            }
            i += 1;
        }
        j += 1;
    }
    true
}

/// The total of `accounts`, if it fits the balance type.
pub fn checked_total(accounts: &Vec<Account>) -> (result: Option<u64>)
    ensures
        match result {
            Some(sum) => sum == total(accounts_view(accounts@)),
            None => total(accounts_view(accounts@)) > u64::MAX,
        },
{
    let ghost ledger = accounts_view(accounts@);
    let mut sum: u64 = 0;
    let mut i: usize = 0;
    while i < accounts.len()
        invariant
            i <= accounts.len(),
            ledger == accounts_view(accounts@),
            sum == total(ledger.take(i as int)),
        decreases accounts.len() - i,
    {
        proof {
            lemma_total_prefix(ledger, i as int + 1);
            assert(ledger.take(i as int + 1).drop_last() =~= ledger.take(i as int));
        }
        let held = accounts[i].balance;
        if held > u64::MAX - sum {
            return None;
        }
        sum = sum + held;
        i += 1;
    }
    assert(ledger.take(ledger.len() as int) =~= ledger);
    Some(sum)
}

/// A prefix of a ledger holds no more than the whole.
pub proof fn lemma_total_prefix(ledger: Seq<AccountView>, n: int)
    requires
        0 <= n <= ledger.len(),
    ensures
        0 <= total(ledger.take(n)) <= total(ledger),
    decreases ledger.len(),
{
    lemma_total_nonnegative(ledger.take(n));
    if n == ledger.len() {
        assert(ledger.take(n) =~= ledger);
    } else {
        assert(ledger.drop_last().take(n) =~= ledger.take(n));
        lemma_total_prefix(ledger.drop_last(), n);
    }
}

} // verus!
