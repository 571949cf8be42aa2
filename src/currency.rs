use vstd::prelude::*;
use std::collections::HashMap;
use crate::types::{AccountId, Balance, CurrencyError};

verus! {

broadcast use vstd::std_specs::hash::group_hash_axioms;

/// Whether a transfer may leave the sender below the minimum balance.
#[derive(Clone, Copy, Debug, PartialEq, Eq, Structural)]
pub enum ExistenceRequirement {
    /// The sender must keep at least the minimum balance.
    KeepAlive,
    /// The sender may fall below the minimum balance.
    AllowDeath,
}

/// The currency in which courses are paid for.
pub trait Currency: Sized {
    /// The free balance of `who`.
    spec fn balance(&self, who: AccountId) -> Balance;

    /// What a transfer of `value` from `source` to `dest` under `requirement`
    /// returns in this state.
    spec fn transfer_outcome(
        &self,
        source: AccountId,
        dest: AccountId,
        value: Balance,
        requirement: ExistenceRequirement,
    ) -> Result<(), CurrencyError>;

    /// Reads the free balance of `who`.
    fn free_balance(&self, who: AccountId) -> (r: Balance)
        ensures
            r == self.balance(who),
    ;

    /// Moves `value` from `source` to `dest`. A refused transfer moves
    /// nothing.
    fn transfer(
        &mut self,
        source: AccountId,
        dest: AccountId,
        value: Balance,
        requirement: ExistenceRequirement,
    ) -> (r: Result<(), CurrencyError>)
        ensures
            r == old(self).transfer_outcome(source, dest, value, requirement),
            r is Err ==> *final(self) == *old(self),
            r is Ok ==> old(self).balance(source) >= value,
            r is Ok && source != dest ==> final(self).balance(source) == old(self).balance(source)
                - value && final(self).balance(dest) == old(self).balance(dest) + value,
            r is Ok ==> forall|a: AccountId|
                a != source && a != dest ==> #[trigger] final(self).balance(a) == old(self).balance(
                    a,
                ),
            r is Ok && source == dest ==> final(self).balance(source) == old(self).balance(source),
    ;
}

/// An in-memory currency: a free balance per account and a minimum balance
/// that a sender must keep under `ExistenceRequirement::KeepAlive`.
pub struct Ledger {
    balances: HashMap<AccountId, Balance>,
    min_balance: Balance,
}

impl Ledger {
    /// The free balance of `who` (zero for an account never funded).
    pub closed spec fn balance_of(&self, who: AccountId) -> Balance {
        if self.balances@.contains_key(who) {
            self.balances@[who]
        } else {
            0
        }
    }

    /// The minimum balance that a sender must keep under `KeepAlive`.
    pub closed spec fn min_balance_spec(&self) -> Balance {
        self.min_balance
    }

    /// A ledger where every balance is zero.
    pub fn new(min_balance: Balance) -> (r: Ledger)
        ensures
            forall|a: AccountId| #[trigger] r.balance_of(a) == 0,
            r.min_balance_spec() == min_balance,
    {
        Ledger { balances: HashMap::new(), min_balance }
    }

    /// The minimum balance that a sender must keep under `KeepAlive`.
    pub fn min_balance(&self) -> (r: Balance)
        ensures
            r == self.min_balance_spec(),
    {
        self.min_balance
    }

    fn get(&self, who: AccountId) -> (r: Balance)
        ensures
            r == self.balance_of(who),
    {
        match self.balances.get(&who) {
            Some(b) => *b,
            None => 0,
        }
    }

    /// Sets the free balance of `who` to `amount`.
    pub fn make_free_balance_be(&mut self, who: AccountId, amount: Balance)
        ensures
            final(self).balance_of(who) == amount,
            forall|a: AccountId| a != who ==> #[trigger] final(self).balance_of(a) == old(self).balance_of(a),
            final(self).min_balance_spec() == old(self).min_balance_spec(),
    {
        self.balances.insert(who, amount);
    }
}

impl Currency for Ledger {
    open spec fn balance(&self, who: AccountId) -> Balance {
        self.balance_of(who)
    }

    /// Refuses, in this order: a sender holding less than `value`; a sender
    /// that `KeepAlive` would leave below the minimum balance; a recipient
    /// whose balance would overflow (never for a transfer of zero or to the
    /// sender itself).
    open spec fn transfer_outcome(
        &self,
        source: AccountId,
        dest: AccountId,
        value: Balance,
        requirement: ExistenceRequirement,
    ) -> Result<(), CurrencyError> {
        if self.balance_of(source) < value {
            Err(CurrencyError::InsufficientBalance)
        } else if requirement == ExistenceRequirement::KeepAlive && self.balance_of(source) - value
            < self.min_balance_spec() {
            Err(CurrencyError::KeepAlive)
        } else if source != dest && value != 0 && self.balance_of(dest) + value > Balance::MAX {
            Err(CurrencyError::Overflow)
        } else {
            Ok(())
        }
    }

    fn free_balance(&self, who: AccountId) -> (r: Balance) {
        self.get(who)
    }

    /// Refuses, in this order: a sender holding less than `value`; a sender
    /// that `KeepAlive` would leave below the minimum balance; a recipient
    /// whose balance would overflow. A transfer of zero, or to the sender
    /// itself, succeeds once the first two tests pass, and changes nothing.
    fn transfer(
        &mut self,
        source: AccountId,
        dest: AccountId,
        value: Balance,
        requirement: ExistenceRequirement,
    ) -> (r: Result<(), CurrencyError>)
        ensures
            (r == Err::<(), CurrencyError>(CurrencyError::InsufficientBalance)) <==> old(self).balance_of(source) < value,
            (r == Err::<(), CurrencyError>(CurrencyError::KeepAlive)) <==> (old(self).balance_of(source) >= value
                && requirement == ExistenceRequirement::KeepAlive
                && old(self).balance_of(source) - value < old(self).min_balance_spec()),
            (r == Err::<(), CurrencyError>(CurrencyError::Overflow)) <==> (old(self).balance_of(source) >= value
                && !(requirement == ExistenceRequirement::KeepAlive
                    && old(self).balance_of(source) - value < old(self).min_balance_spec())
                && source != dest && value != 0
                && old(self).balance_of(dest) + value > Balance::MAX),
            final(self).min_balance_spec() == old(self).min_balance_spec(),
    {
        let from_balance = self.get(source);
        if from_balance < value {
            return Err(CurrencyError::InsufficientBalance);
        }
        let rest = from_balance - value;
        if requirement == ExistenceRequirement::KeepAlive && rest < self.min_balance {
            return Err(CurrencyError::KeepAlive);
        }
        if source == dest || value == 0 {
            return Ok(());
        }
        let to_balance = self.get(dest);
        match to_balance.checked_add(value) {
            None => Err(CurrencyError::Overflow),
            Some(total) => {
                self.balances.insert(source, rest);
                self.balances.insert(dest, total);
                Ok(())
            },
        }
    }
}

} // verus!
