use vstd::prelude::*;
use crate::account::AccountId;
use crate::error::LedgerError;
use crate::table::{map_of, Table};

verus! {

/// The balance of `account` in `balances`: an account that was never written
/// holds nothing.
pub open spec fn balance_in(balances: Map<AccountId, u32>, account: AccountId) -> nat {
    if balances.dom().contains(account) {
        balances[account] as nat
    } else {
        0
    }
}

/// The sum of all balances in `balances`.
pub open spec fn supply(balances: Map<AccountId, u32>) -> nat
    decreases balances.dom().len(),
    when balances.dom().finite()
{
    if balances.dom().len() == 0 {
        0
    } else {
        let account = balances.dom().choose();
        balances[account] as nat + supply(balances.remove(account))
    }
}

/// `balances` after `amount` has gone from `from` to `to`: first taken from
/// the one, then given to the other, so that a transfer to oneself changes no
/// balance.
pub open spec fn moved(balances: Map<AccountId, u32>, from: AccountId, to: AccountId, amount: u32) -> Map<
    AccountId,
    u32,
> {
    let debited = balances.insert(from, (balance_in(balances, from) - amount) as u32);
    debited.insert(to, (balance_in(debited, to) + amount) as u32)
}

/// The supply is the balance of any one account plus the supply of the rest.
pub proof fn lemma_supply_remove(balances: Map<AccountId, u32>, account: AccountId)
    requires
        balances.dom().finite(),
        balances.dom().contains(account),
    ensures
        supply(balances) == balances[account] as nat + supply(balances.remove(account)),
    decreases balances.dom().len(),
{
    let first = balances.dom().choose();
    if first != account {
        let rest = balances.remove(first);
        lemma_supply_remove(rest, account);
        lemma_supply_remove(balances.remove(account), first);
        assert(rest.remove(account) =~= balances.remove(account).remove(first));
    }
}

/// Writing one balance changes the supply by the difference to what the
/// account held before.
pub proof fn lemma_supply_insert(balances: Map<AccountId, u32>, account: AccountId, value: u32)
    requires
        balances.dom().finite(),
    ensures
        supply(balances.insert(account, value)) + balance_in(balances, account) == supply(balances)
            + value,
{
    let written = balances.insert(account, value);
    lemma_supply_remove(written, account);
    assert(written.remove(account) =~= balances.remove(account));
    if balances.dom().contains(account) {
        lemma_supply_remove(balances, account);
    } else {
        assert(balances.remove(account) =~= balances);
    }
}

/// No account holds more than the supply.
pub proof fn lemma_balance_le_supply(balances: Map<AccountId, u32>, account: AccountId)
    requires
        balances.dom().finite(),
    ensures
        balance_in(balances, account) <= supply(balances),
{
    if balances.dom().contains(account) {
        lemma_supply_remove(balances, account);
    }
}

/// A transfer that the sender can afford leaves the supply as it was, and
/// overflows no balance as long as the supply fits in a `u32`.
pub proof fn lemma_supply_moved(balances: Map<AccountId, u32>, from: AccountId, to: AccountId, amount: u32)
    requires
        balances.dom().finite(),
        supply(balances) <= u32::MAX,
        amount <= balance_in(balances, from),
    ensures
        supply(moved(balances, from, to, amount)) == supply(balances),
        balance_in(balances.insert(from, (balance_in(balances, from) - amount) as u32), to) + amount
            <= u32::MAX,
{
    let debited = balances.insert(from, (balance_in(balances, from) - amount) as u32);
    lemma_supply_insert(balances, from, (balance_in(balances, from) - amount) as u32);
    lemma_balance_le_supply(debited, to);
    lemma_supply_insert(debited, to, (balance_in(debited, to) + amount) as u32);
}

/// The balance ledger: a fungible balance for every account, with a supply
/// that fits in a `u32`, so that no credit can overflow.
pub struct BalanceLedger {
    accounts: Table<AccountId, u32>,
    total: u32,
}

impl View for BalanceLedger {
    type V = Map<AccountId, u32>;

    closed spec fn view(&self) -> Map<AccountId, u32> {
        self.accounts@
    }
}

impl BalanceLedger {
    pub closed spec fn wf(&self) -> bool {
        &&& self.accounts.wf()
        &&& self.total as nat == supply(self.accounts@)
    }

    /// A well-formed ledger has finitely many accounts and a supply that fits
    /// in a `u32`.
    pub proof fn lemma_bounded(&self)
        requires
            self.wf(),
        ensures
            self@.dom().finite(),
            supply(self@) <= u32::MAX,
    {
        self.accounts.lemma_finite();
    }

    /// The ledger in which nobody holds anything.
    pub fn new() -> (r: Self)
        ensures
            r.wf(),
            r@ == Map::<AccountId, u32>::empty(),
    {
        let r = BalanceLedger { accounts: Table::new(), total: 0 };
        assert(r.accounts@.dom().len() == 0);
        r
    }

    /// The ledger that `entries` write, one after the other, unless its
    /// supply would not fit in a `u32`.
    pub fn from_entries(entries: &Vec<(AccountId, u32)>) -> (r: Option<Self>)
        ensures
            r is Some <==> supply(map_of(entries@)) <= u32::MAX,
            r matches Some(ledger) ==> ledger.wf() && ledger@ == map_of(entries@),
    {
        let mut accounts: Table<AccountId, u32> = Table::new();
        let mut sum: u128 = 0;
        let mut i: usize = 0;
        assert(accounts@.dom().len() == 0);
        while i < entries.len()
            invariant
                i <= entries.len(),
                accounts.wf(),
                accounts@ == map_of(entries@.take(i as int)),
                sum == supply(accounts@),
                sum <= i * 0xFFFF_FFFF,
            decreases entries.len() - i,
        {
            let account = entries[i].0;
            let value = entries[i].1;
            let held = match accounts.get(&account) {
                Some(b) => b,
                None => 0,
            };
            proof {
                accounts.lemma_finite();
                lemma_balance_le_supply(accounts@, account);
                lemma_supply_insert(accounts@, account, value);
            }
            accounts.insert(account, value);
            sum = sum - held as u128 + value as u128;
            i += 1;
            assert(entries@.take(i as int).drop_last() =~= entries@.take(i as int - 1));
        }
        assert(entries@.take(entries.len() as int) =~= entries@);
        if sum > u32::MAX as u128 {
            None
        } else {
            Some(BalanceLedger { accounts, total: sum as u32 })
        }
    }

    /// Every account that was ever written with its balance, each once.
    pub fn entries(&self) -> (r: Vec<(AccountId, u32)>)
        requires
            self.wf(),
        ensures
            map_of(r@) == self@,
    {
        self.accounts.entries()
    }

    /// The current balance of `account`, 0 if it was never written.
    pub fn balance_of(&self, account: &AccountId) -> (r: u32)
        requires
            self.wf(),
        ensures
            r == balance_in(self@, *account),
    {
        match self.accounts.get(account) {
            Some(b) => b,
            None => 0,
        }
    }

    /// The sum of all balances.
    pub fn total_supply(&self) -> (r: u32)
        requires
            self.wf(),
        ensures
            r == supply(self@),
    {
        self.total
    }

    /// Adds `amount` to the balance of `account`, unless the supply would
    /// no longer fit in a `u32`: then nothing changes and the result is
    /// `false`.
    pub fn credit(&mut self, account: &AccountId, amount: u32) -> (r: bool)
        requires
            old(self).wf(),
        ensures
            final(self).wf(),
            r == (supply(old(self)@) + amount <= u32::MAX),
            r ==> final(self)@ == old(self)@.insert(
                *account,
                (balance_in(old(self)@, *account) + amount) as u32,
            ),
            !r ==> final(self)@ == old(self)@,
    {
        if amount > u32::MAX - self.total {
            return false;
        }
        let held = self.balance_of(account);
        proof {
            self.accounts.lemma_finite();
            lemma_balance_le_supply(self.accounts@, *account);
            lemma_supply_insert(self.accounts@, *account, (held + amount) as u32);
        }
        self.accounts.insert(*account, held + amount);
        self.total = self.total + amount;
        true
    }

    /// Moves `amount` from `sender` to `receiver` in one step, if `sender`
    /// holds that much; otherwise nothing changes.
    pub fn transfer(&mut self, sender: &AccountId, receiver: &AccountId, amount: u32) -> (r: Result<
        (),
        LedgerError,
    >)
        requires
            old(self).wf(),
        ensures
            final(self).wf(),
            balance_in(old(self)@, *sender) >= amount ==> r == Ok::<(), LedgerError>(())
                && final(self)@ == moved(old(self)@, *sender, *receiver, amount),
            balance_in(old(self)@, *sender) < amount ==> r == Err::<(), LedgerError>(
                LedgerError::InsufficientFunds,
            ) && final(self)@ == old(self)@,
            supply(final(self)@) == supply(old(self)@),
    {
        let held = self.balance_of(sender);
        if held < amount {
            return Err(LedgerError::InsufficientFunds);
        }
        proof {
            self.accounts.lemma_finite();
            lemma_supply_moved(self.accounts@, *sender, *receiver, amount);
        }
        self.accounts.insert(*sender, held - amount);
        let received = match self.accounts.get(receiver) {
            Some(b) => b,
            None => 0,
        };
        self.accounts.insert(*receiver, received + amount);
        Ok(())
    }
}

} // verus!
