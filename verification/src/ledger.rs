//! In-memory model of the host's balance and lock collaborator.
//!
//! The host ledger keeps a free balance per account and, for the vesting
//! accountant, at most one tagged lock per account whose value annotates how
//! much of the balance is restricted. The accountants only ever use the four
//! operations modelled here: read a free balance, transfer, set the vesting
//! lock, remove the vesting lock.

use vstd::prelude::*;

use crate::AccountId;
use crate::alist::{
    alist_find, alist_lookup, alist_unique, lemma_lookup_at_index, lemma_lookup_has,
    lemma_lookup_push, lemma_lookup_update, lemma_unique_push, lemma_unique_update,
};

verus! {

/// Per-account state held by the ledger.
#[derive(Clone, Copy, Debug, PartialEq, Eq)]
pub struct AccountData {
    /// Freely held balance.
    pub free: u64,
    /// Value of the vesting lock, if one is in place.
    pub lock: Option<u64>,
}

/// A failed transfer, reported to the caller.
#[derive(Clone, Copy, Debug, PartialEq, Eq, Structural)]
pub enum LedgerError {
    /// The source account holds less than the transferred amount.
    InsufficientBalance,
    /// Crediting the destination would exceed the balance type's maximum.
    Overflow,
}

/// The host ledger: every account's free balance and vesting lock.
/// Accounts not present hold a zero balance and no lock.
pub struct Ledger {
    accounts: Vec<(AccountId, AccountData)>,
}

impl Ledger {
    pub closed spec fn accounts_seq(self) -> Seq<(AccountId, AccountData)> {
        self.accounts@
    }

    /// Well-formed: one entry per account.
    pub open spec fn wf(self) -> bool {
        alist_unique(self.accounts_seq())
    }

    /// The state of `who`'s account; absent accounts are empty.
    pub open spec fn spec_account(self, who: AccountId) -> AccountData {
        match alist_lookup(self.accounts_seq(), who) {
            Some(a) => a,
            None => AccountData { free: 0, lock: None },
        }
    }

    pub open spec fn spec_free(self, who: AccountId) -> u64 {
        self.spec_account(who).free
    }

    pub open spec fn spec_lock(self, who: AccountId) -> Option<u64> {
        self.spec_account(who).lock
    }

    /// An empty ledger: every account has a zero balance and no lock.
    pub fn new() -> (r: Ledger)
        ensures
            r.wf(),
            forall|a: AccountId| #[trigger]
                r.spec_account(a) == (AccountData { free: 0u64, lock: None::<u64> }),
    {
        let r = Ledger { accounts: Vec::new() };
        proof {
            assert forall|a: AccountId| #[trigger]
                r.spec_account(a) == (AccountData { free: 0u64, lock: None::<u64> }) by {
                assert(r.accounts_seq().len() == 0);
            }
        }
        r
    }

    /// Position of `who`'s entry, if the account exists.
    fn find(&self, who: AccountId) -> (r: Option<usize>)
        requires
            self.wf(),
        ensures
            match r {
                Some(i) => i < self.accounts_seq().len() && self.accounts_seq()[i as int]
                    == (who, self.spec_account(who)) && alist_lookup(self.accounts_seq(), who)
                    is Some,
                None => alist_lookup(self.accounts_seq(), who) is None,
            },
    {
        let r = alist_find(&self.accounts, who);
        proof {
            match r {
                Some(i) => {
                    lemma_lookup_at_index(self.accounts_seq(), who, i as int);
                },
                None => {
                    lemma_lookup_has(self.accounts_seq(), who);
                },
            }
        }
        r
    }

    /// Overwrite or create `who`'s account state.
    fn put(&mut self, who: AccountId, data: AccountData)
        requires
            old(self).wf(),
        ensures
            final(self).wf(),
            final(self).spec_account(who) == data,
            forall|a: AccountId|
                a != who ==> #[trigger] final(self).spec_account(a) == old(self).spec_account(a),
    {
        let ghost s0 = self.accounts_seq();
        match self.find(who) {
            Some(i) => {
                self.accounts[i] = (who, data);
                proof {
                    lemma_lookup_update(s0, i as int, (who, data), who);
                    lemma_unique_update(s0, i as int, (who, data));
                    assert forall|a: AccountId|
                        a != who implies #[trigger] final(self).spec_account(a) == old(
                        self,
                    ).spec_account(a) by {
                        lemma_lookup_update(s0, i as int, (who, data), a);
                    }
                }
            },
            None => {
                proof {
                    lemma_lookup_has(s0, who);
                }
                self.accounts.push((who, data));
                proof {
                    lemma_unique_push(s0, (who, data));
                    lemma_lookup_push(s0, (who, data), who);
                    assert forall|a: AccountId|
                        a != who implies #[trigger] final(self).spec_account(a) == old(
                        self,
                    ).spec_account(a) by {
                        lemma_lookup_push(s0, (who, data), a);
                    }
                }
            },
        }
    }

    /// Read `who`'s free balance.
    pub fn free_balance(&self, who: AccountId) -> (r: u64)
        requires
            self.wf(),
        ensures
            r == self.spec_free(who),
    {
        match self.find(who) {
            Some(i) => self.accounts[i].1.free,
            None => 0,
        }
    }

    /// Read `who`'s vesting lock.
    pub fn lock_of(&self, who: AccountId) -> (r: Option<u64>)
        requires
            self.wf(),
        ensures
            r == self.spec_lock(who),
    {
        match self.find(who) {
            Some(i) => self.accounts[i].1.lock,
            None => None,
        }
    }

    /// Set `who`'s free balance outright; used to endow genesis accounts.
    pub fn set_balance(&mut self, who: AccountId, amount: u64)
        requires
            old(self).wf(),
        ensures
            final(self).wf(),
            final(self).spec_account(who) == (AccountData {
                free: amount,
                lock: old(self).spec_lock(who),
            }),
            forall|a: AccountId|
                a != who ==> #[trigger] final(self).spec_account(a) == old(self).spec_account(a),
    {
        let lock = self.lock_of(who);
        self.put(who, AccountData { free: amount, lock });
    }

    /// Move `amount` from `from` to `to`. Fails, changing nothing, if the
    /// source balance is too small or the destination balance would
    /// overflow; locks never restrict or change under a transfer.
    pub fn transfer(&mut self, from: AccountId, to: AccountId, amount: u64) -> (r: Result<
        (),
        LedgerError,
    >)
        requires
            old(self).wf(),
        ensures
            final(self).wf(),
            r is Ok <==> old(self).spec_free(from) >= amount && (from == to || old(self).spec_free(
                to,
            ) as int + amount as int <= u64::MAX as int),
            r == Err::<(), LedgerError>(LedgerError::InsufficientBalance) <==> old(self).spec_free(
                from,
            ) < amount,
            r is Err ==> *final(self) == *old(self),
            r is Ok && from == to ==> *final(self) == *old(self),
            r is Ok && from != to ==> {
                &&& final(self).spec_account(from) == (AccountData {
                    free: (old(self).spec_free(from) - amount) as u64,
                    lock: old(self).spec_lock(from),
                })
                &&& final(self).spec_account(to) == (AccountData {
                    free: (old(self).spec_free(to) + amount) as u64,
                    lock: old(self).spec_lock(to),
                })
                &&& forall|a: AccountId|
                    a != from && a != to ==> #[trigger] final(self).spec_account(a) == old(
                        self,
                    ).spec_account(a)
            },
    {
        let from_data = match self.find(from) {
            Some(i) => self.accounts[i].1,
            None => AccountData { free: 0, lock: None },
        };
        if from_data.free < amount {
            return Err(LedgerError::InsufficientBalance);
        }
        if from == to {
            return Ok(());
        }
        let to_data = match self.find(to) {
            Some(i) => self.accounts[i].1,
            None => AccountData { free: 0, lock: None },
        };
        if to_data.free > u64::MAX - amount {
            return Err(LedgerError::Overflow);
        }
        self.put(from, AccountData { free: from_data.free - amount, lock: from_data.lock });
        self.put(to, AccountData { free: to_data.free + amount, lock: to_data.lock });
        Ok(())
    }

    /// Install the vesting lock on `who` with the given value.
    pub fn set_lock(&mut self, who: AccountId, amount: u64)
        requires
            old(self).wf(),
        ensures
            final(self).wf(),
            final(self).spec_account(who) == (AccountData {
                free: old(self).spec_free(who),
                lock: Some(amount),
            }),
            forall|a: AccountId|
                a != who ==> #[trigger] final(self).spec_account(a) == old(self).spec_account(a),
    {
        let free = self.free_balance(who);
        self.put(who, AccountData { free, lock: Some(amount) });
    }

    /// Remove the vesting lock from `who`, if any.
    pub fn remove_lock(&mut self, who: AccountId)
        requires
            old(self).wf(),
        ensures
            final(self).wf(),
            final(self).spec_account(who) == (AccountData {
                free: old(self).spec_free(who),
                lock: None::<u64>,
            }),
            forall|a: AccountId|
                a != who ==> #[trigger] final(self).spec_account(a) == old(self).spec_account(a),
    {
        let free = self.free_balance(who);
        self.put(who, AccountData { free, lock: None });
    }
}

} // verus!
