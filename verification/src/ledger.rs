//! The ledger: a mapping from accounts to non-negative balances.

use vstd::prelude::*;
use crate::account::{Account, AccountId, owner_account};

verus! {

/// Why a ledger operation was refused. Every refused operation is a no-op.
#[derive(Debug, Clone, Copy, PartialEq, Eq, Structural)]
pub enum LedgerError {
    /// The debited account holds `current` tokens but `required` were asked for.
    InsufficientBalance { current: u128, required: u128 },
    /// The operation would push a balance, or the transaction marker, past the
    /// representable range.
    Overflow,
}

/// The destination and amount of a transfer; the debited account is always
/// the resolved caller.
pub struct TransferArgs {
    pub amount: u128,
    pub to_account: Account,
}

/// The account whose balance is asked for.
pub struct BalanceArgs {
    pub account: Account,
}

/// Whether some entry of `s` is for the account `a`.
spec fn has_key(s: Seq<(Account, u128)>, a: AccountId) -> bool {
    exists|i: int| 0 <= i < s.len() && s[i].0@ == a
}

/// The index of the entry for `a`; meaningful only under unique keys.
spec fn key_index(s: Seq<(Account, u128)>, a: AccountId) -> int {
    choose|i: int| 0 <= i < s.len() && s[i].0@ == a
}

/// No two entries are for the same account.
spec fn unique_keys(s: Seq<(Account, u128)>) -> bool {
    forall|i: int, j: int| 0 <= i < j < s.len() ==> s[i].0@ != s[j].0@
}

/// The balance that the entries `s` record for account `a`: the value of its
/// entry, or zero where no entry exists.
spec fn balance_in(s: Seq<(Account, u128)>, a: AccountId) -> nat {
    if has_key(s, a) {
        s[key_index(s, a)].1 as nat
    } else {
        0
    }
}

/// Under unique keys, the entry at index `i` is the one `key_index` finds for
/// its own account, so that account's balance is exactly the entry's value.
proof fn lemma_balance_at(s: Seq<(Account, u128)>, i: int)
    requires
        unique_keys(s),
        0 <= i < s.len(),
    ensures
        has_key(s, s[i].0@),
        key_index(s, s[i].0@) == i,
        balance_in(s, s[i].0@) == s[i].1 as nat,
{
    assert(has_key(s, s[i].0@));
    let j = key_index(s, s[i].0@);
    assert(0 <= j < s.len() && s[j].0@ == s[i].0@);
    if i < j {
        assert(false);
    } else if j < i {
        assert(false);
    }
}

/// Replacing the entry at `i` with one for the same account changes only that
/// account's balance, to the new entry's value.
proof fn lemma_balance_update(s: Seq<(Account, u128)>, i: int, p: (Account, u128))
    requires
        unique_keys(s),
        0 <= i < s.len(),
        p.0@ == s[i].0@,
    ensures
        unique_keys(s.update(i, p)),
        balance_in(s.update(i, p), s[i].0@) == p.1 as nat,
        forall|a: AccountId| a != s[i].0@ ==> balance_in(s.update(i, p), a) == balance_in(s, a),
{
    let s2 = s.update(i, p);
    assert(forall|k: int| 0 <= k < s2.len() ==> s2[k].0@ == s[k].0@);
    assert(unique_keys(s2));
    lemma_balance_at(s2, i);
    assert forall|a: AccountId| a != s[i].0@ implies balance_in(s2, a) == balance_in(s, a) by {
        if has_key(s, a) {
            let j = key_index(s, a);
            assert(0 <= j < s.len() && s[j].0@ == a);
            assert(j != i);
            lemma_balance_at(s, j);
            assert(s2[j].0@ == a);
            lemma_balance_at(s2, j);
        } else {
            assert(forall|k: int| 0 <= k < s2.len() ==> s2[k].0@ != a);
        }
    }
}

/// Appending an entry for a fresh account gives that account the entry's
/// value and leaves every other balance alone.
proof fn lemma_balance_push(s: Seq<(Account, u128)>, p: (Account, u128))
    requires
        unique_keys(s),
        !has_key(s, p.0@),
    ensures
        unique_keys(s.push(p)),
        balance_in(s.push(p), p.0@) == p.1 as nat,
        forall|a: AccountId| a != p.0@ ==> balance_in(s.push(p), a) == balance_in(s, a),
{
    let s2 = s.push(p);
    assert(forall|k: int| 0 <= k < s.len() ==> s2[k].0@ == s[k].0@);
    assert(s2[s.len() as int].0@ == p.0@);
    assert forall|i: int, j: int| 0 <= i < j < s2.len() implies s2[i].0@ != s2[j].0@ by {
        if j < s.len() {
        } else {
            assert(s2[j].0@ == p.0@);
            assert(s[i].0@ != p.0@);
        }
    }
    lemma_balance_at(s2, s.len() as int);
    assert forall|a: AccountId| a != p.0@ implies balance_in(s2, a) == balance_in(s, a) by {
        if has_key(s, a) {
            let j = key_index(s, a);
            lemma_balance_at(s, j);
            assert(s2[j].0@ == a);
            lemma_balance_at(s2, j);
        } else {
            assert(forall|k: int| 0 <= k < s2.len() ==> s2[k].0@ != a);
        }
    }
}

/// The ledger: per-account balances, plus the marker handed out for the next
/// successful transfer. Entries are created on first credit and each account
/// has at most one entry; an account without an entry has balance zero.
pub struct Ledger {
    entries: Vec<(Account, u128)>,
    next_marker: u64,
}

impl Ledger {
    /// Well-formedness: no account has two entries.
    pub closed spec fn wf(&self) -> bool {
        unique_keys(self.entries@)
    }

    /// The balance the ledger records for account `a`; zero where `a` has no
    /// entry.
    pub closed spec fn balance_of(&self, a: AccountId) -> nat {
        balance_in(self.entries@, a)
    }

    /// The transaction marker the next successful transfer will return.
    pub closed spec fn next_marker(&self) -> nat {
        self.next_marker as nat
    }

    /// A fresh ledger: every account reads as zero.
    pub fn new() -> (l: Ledger)
        ensures
            l.wf(),
            forall|a: AccountId| l.balance_of(a) == 0,
            l.next_marker() == 1,
    {
        Ledger { entries: Vec::new(), next_marker: 1 }
    }

    /// The index of `account`'s entry, if it has one.
    fn find_index(&self, account: &Account) -> (r: Option<usize>)
        ensures
            match r {
                Some(i) => i < self.entries@.len() && self.entries@[i as int].0@ == account@,
                None => !has_key(self.entries@, account@),
            },
    {
        let mut i: usize = 0;
        while i < self.entries.len()
            invariant
                i <= self.entries@.len(),
                forall|j: int| 0 <= j < i ==> self.entries@[j].0@ != account@,
            decreases self.entries@.len() - i,
        {
            if self.entries[i].0.same_id(account) {
                return Some(i);
            }
            i = i + 1;
        }
        None
    }

    /// The current balance of `account`; zero for a never-seen account. Reads
    /// never fail and never change the ledger.
    pub fn get_balance_internal(&self, account: &Account) -> (r: u128)
        requires
            self.wf(),
        ensures
            r == self.balance_of(account@),
    {
        match self.find_index(account) {
            Some(i) => {
                proof {
                    lemma_balance_at(self.entries@, i as int);
                }
                self.entries[i].1
            },
            None => 0,
        }
    }

    /// Adds `amount` to `account`'s balance, creating the entry if absent.
    /// The addition is known not to overflow.
    fn credit_unchecked(&mut self, account: Account, amount: u128)
        requires
            old(self).wf(),
            old(self).balance_of(account@) + amount <= u128::MAX,
        ensures
            final(self).wf(),
            final(self).balance_of(account@) == old(self).balance_of(account@) + amount,
            forall|b: AccountId|
                b != account@ ==> final(self).balance_of(b) == old(self).balance_of(b),
            final(self).next_marker() == old(self).next_marker(),
    {
        let ghost s0 = self.entries@;
        match self.find_index(&account) {
            Some(i) => {
                proof {
                    lemma_balance_at(s0, i as int);
                }
                let cur = self.entries[i].1;
                self.entries[i].1 = cur + amount;
                proof {
                    assert(self.entries@ =~= s0.update(i as int, self.entries@[i as int]));
                    lemma_balance_update(s0, i as int, self.entries@[i as int]);
                }
            },
            None => {
                self.entries.push((account, amount));
                proof {
                    lemma_balance_push(s0, self.entries@[s0.len() as int]);
                }
            },
        }
    }

    /// Removes `amount` from `account`'s balance, which is known to cover it.
    fn debit_internal(&mut self, account: &Account, amount: u128)
        requires
            old(self).wf(),
            amount <= old(self).balance_of(account@),
        ensures
            final(self).wf(),
            final(self).balance_of(account@) == old(self).balance_of(account@) - amount,
            forall|b: AccountId|
                b != account@ ==> final(self).balance_of(b) == old(self).balance_of(b),
            final(self).next_marker() == old(self).next_marker(),
    {
        let ghost s0 = self.entries@;
        match self.find_index(account) {
            Some(i) => {
                proof {
                    lemma_balance_at(s0, i as int);
                }
                let cur = self.entries[i].1;
                self.entries[i].1 = cur - amount;
                proof {
                    assert(self.entries@ =~= s0.update(i as int, self.entries@[i as int]));
                    lemma_balance_update(s0, i as int, self.entries@[i as int]);
                }
            },
            None => {
                proof {
                    assert(amount == 0);
                }
            },
        }
    }

    /// Credits `account` with `amount` (seeding for tests and administration).
    /// Succeeds for every amount the account's balance can still absorb, and
    /// fails with `Overflow`, changing nothing, exactly when it cannot.
    pub fn add_test_balance(&mut self, account: Account, amount: u128) -> (r: Result<
        (),
        LedgerError,
    >)
        requires
            old(self).wf(),
        ensures
            final(self).wf(),
            r is Ok <==> old(self).balance_of(account@) + amount <= u128::MAX,
            r is Ok ==> final(self).balance_of(account@) == old(self).balance_of(account@)
                + amount,
            r is Ok ==> forall|b: AccountId|
                b != account@ ==> final(self).balance_of(b) == old(self).balance_of(b),
            r is Err ==> *final(self) == *old(self) && r == Err::<(), LedgerError>(
                LedgerError::Overflow,
            ),
            final(self).next_marker() == old(self).next_marker(),
    {
        let current = self.get_balance_internal(&account);
        if amount > u128::MAX - current {
            return Err(LedgerError::Overflow);
        }
        self.credit_unchecked(account, amount);
        Ok(())
    }

    /// Credits the resolved caller's default account with `amount` in response
    /// to an external deposit event; `_from` is the deposit's source identity,
    /// recorded by the transport and irrelevant to the balance change. Same
    /// effect and guarantees as `add_test_balance` on that account.
    pub fn deposit_notification(&mut self, _from: Vec<u8>, caller: Vec<u8>, amount: u128) -> (r:
        Result<(), LedgerError>)
        requires
            old(self).wf(),
        ensures
            final(self).wf(),
            r is Ok <==> old(self).balance_of(owner_account(caller@)) + amount <= u128::MAX,
            r is Ok ==> final(self).balance_of(owner_account(caller@)) == old(self).balance_of(
                owner_account(caller@),
            ) + amount,
            r is Ok ==> forall|b: AccountId|
                b != owner_account(caller@) ==> final(self).balance_of(b) == old(self).balance_of(
                    b,
                ),
            r is Err ==> *final(self) == *old(self) && r == Err::<(), LedgerError>(
                LedgerError::Overflow,
            ),
            final(self).next_marker() == old(self).next_marker(),
    {
        let to_account = Account::from_owner(caller);
        self.add_test_balance(to_account, amount)
    }

    /// The current balance of the account named in `args`; zero for a
    /// never-seen account.
    pub fn balance(&self, args: BalanceArgs) -> (r: u128)
        requires
            self.wf(),
        ensures
            r == self.balance_of(args.account@),
    {
        self.get_balance_internal(&args.account)
    }

    /// Moves `args.amount` from the resolved caller's default account to
    /// `args.to_account`, atomically: on any failure nothing changes.
    ///
    /// Fails with `InsufficientBalance` exactly when the caller's balance is
    /// below the amount, and with `Overflow` exactly when the balance covers
    /// it but the destination's balance cannot absorb it or the marker space
    /// is exhausted. A transfer of an
    /// account to itself succeeds (given a covering balance) and changes no
    /// balance. Success returns a transaction marker that increases by one
    /// with each successful transfer, in invocation order.
    pub fn transfer(&mut self, caller: Vec<u8>, args: TransferArgs) -> (r: Result<
        u64,
        LedgerError,
    >)
        requires
            old(self).wf(),
        ensures
            final(self).wf(),
            r is Err ==> *final(self) == *old(self),
            old(self).balance_of(owner_account(caller@)) < args.amount <==> r == Err::<
                u64,
                LedgerError,
            >(
                LedgerError::InsufficientBalance {
                    current: old(self).balance_of(owner_account(caller@)) as u128,
                    required: args.amount,
                },
            ),
            r is Ok <==> old(self).balance_of(owner_account(caller@)) >= args.amount && (
            owner_account(caller@) == args.to_account@ || old(self).balance_of(args.to_account@)
                + args.amount <= u128::MAX) && old(self).next_marker() < u64::MAX,
            r is Err && old(self).balance_of(owner_account(caller@)) >= args.amount ==> r == Err::<
                u64,
                LedgerError,
            >(LedgerError::Overflow),
            r is Ok && owner_account(caller@) != args.to_account@
                ==> final(self).balance_of(owner_account(caller@))
                    == old(self).balance_of(owner_account(caller@)) - args.amount
                && final(self).balance_of(args.to_account@)
                    == old(self).balance_of(args.to_account@) + args.amount,
            r is Ok && owner_account(caller@) != args.to_account@
                ==> final(self).balance_of(owner_account(caller@))
                    + final(self).balance_of(args.to_account@)
                    == old(self).balance_of(owner_account(caller@))
                    + old(self).balance_of(args.to_account@),
            r is Ok ==> forall|b: AccountId|
                b != owner_account(caller@) && b != args.to_account@ ==> final(self).balance_of(b)
                    == old(self).balance_of(b),
            r is Ok && owner_account(caller@) == args.to_account@ ==> forall|b: AccountId|
                final(self).balance_of(b) == old(self).balance_of(b),
            r is Ok ==> r == Ok::<u64, LedgerError>(old(self).next_marker() as u64)
                && final(self).next_marker() == old(self).next_marker() + 1,
            r is Err ==> final(self).next_marker() == old(self).next_marker(),
    {
        let from_account = Account::from_owner(caller);
        let current_balance = self.get_balance_internal(&from_account);
        if current_balance < args.amount {
            return Err(LedgerError::InsufficientBalance {
                current: current_balance,
                required: args.amount,
            });
        }
        if self.next_marker == u64::MAX {
            return Err(LedgerError::Overflow);
        }
        if from_account.same_id(&args.to_account) {
            let marker = self.next_marker;
            self.next_marker = marker + 1;
            return Ok(marker);
        }
        let receiver_balance = self.get_balance_internal(&args.to_account);
        if args.amount > u128::MAX - receiver_balance {
            return Err(LedgerError::Overflow);
        }
        self.debit_internal(&from_account, args.amount);
        self.credit_unchecked(args.to_account, args.amount);
        let marker = self.next_marker;
        self.next_marker = marker + 1;
        Ok(marker)
    }
}

} // verus!
