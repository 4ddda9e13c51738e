//! Per-client account state and the four balance-mutating operations.
use vstd::prelude::*;

use crate::amount::Amount;

verus! {

/// Identifies an account holder.
#[derive(Clone, Copy, Debug, PartialEq, Eq, Structural, Hash)]
pub struct ClientId(pub u16);

/// The balance state of one client: funds at free disposal, funds held
/// back by open disputes, their sum, and whether a chargeback has locked
/// the account.
#[derive(Clone, Copy, Debug)]
pub struct Client {
    pub available: Amount,
    pub held: Amount,
    pub total: Amount,
    pub locked: bool,
}

/// The balance invariant: the total is the available and the held funds
/// together.
pub open spec fn balanced(c: Client) -> bool {
    c.total@ == c.available@ + c.held@
}

/// A freshly created client: all balances zero, not locked.
pub open spec fn client_zero() -> Client {
    Client { available: Amount(0), held: Amount(0), total: Amount(0), locked: false }
}

/// `c` after a deposit of `a`.
pub open spec fn deposited(c: Client, a: Amount) -> Client {
    Client {
        available: Amount((c.available@ + a@) as u64),
        total: Amount((c.total@ + a@) as u64),
        ..c
    }
}

/// `c` after a withdrawal of `a`.
pub open spec fn withdrawn(c: Client, a: Amount) -> Client {
    Client {
        available: Amount((c.available@ - a@) as u64),
        total: Amount((c.total@ - a@) as u64),
        ..c
    }
}

/// `c` after a dispute moved `a` from available to held.
pub open spec fn held_back(c: Client, a: Amount) -> Client {
    Client {
        available: Amount((c.available@ - a@) as u64),
        held: Amount((c.held@ + a@) as u64),
        ..c
    }
}

/// `c` after a resolve released `a` from held back to available.
pub open spec fn released(c: Client, a: Amount) -> Client {
    Client {
        available: Amount((c.available@ + a@) as u64),
        held: Amount((c.held@ - a@) as u64),
        ..c
    }
}

/// `c` after a chargeback withdrew the held `a` and locked the account.
pub open spec fn charged_back(c: Client, a: Amount) -> Client {
    Client {
        held: Amount((c.held@ - a@) as u64),
        total: Amount((c.total@ - a@) as u64),
        locked: true,
        ..c
    }
}

impl Client {
    /// A new client account with zero balances, not locked.
    pub fn new() -> (r: Client)
        ensures
            r == client_zero(),
    {
        Client { available: Amount::zero(), held: Amount::zero(), total: Amount::zero(), locked: false }
    }

    /// Adds `amount` to the available and the total funds. The caller
    /// must have ruled out overflow of the scaled range.
    pub fn deposit(&mut self, amount: Amount)
        requires
            old(self).available@ + amount@ <= u64::MAX,
            old(self).total@ + amount@ <= u64::MAX,
        ensures
            *final(self) == deposited(*old(self), amount),
    {
        self.available.add_assign(amount);
        self.total.add_assign(amount);
    }

    /// Removes `amount` from the available and the total funds, unless
    /// more than the available funds was asked for, in which case nothing
    /// changes.
    pub fn withdrawal(&mut self, amount: Amount)
        requires
            amount@ <= old(self).available@ ==> amount@ <= old(self).total@,
        ensures
            amount@ > old(self).available@ ==> *final(self) == *old(self),
            amount@ <= old(self).available@ ==> *final(self) == withdrawn(*old(self), amount),
    {
        if amount > self.available {
            return ;
        }
        self.available.sub_assign(amount);
        self.total.sub_assign(amount);
    }

    /// Moves `amount` from the available to the held funds. The caller
    /// must have checked that at least `amount` is available.
    pub fn dispute(&mut self, amount: Amount)
        requires
            amount@ <= old(self).available@,
            old(self).held@ + amount@ <= u64::MAX,
        ensures
            *final(self) == held_back(*old(self), amount),
    {
        self.held.add_assign(amount);
        self.available.sub_assign(amount);
    }

    /// Moves `amount` from the held back to the available funds. The
    /// caller must have checked that at least `amount` is held.
    pub fn resolve(&mut self, amount: Amount)
        requires
            amount@ <= old(self).held@,
            old(self).available@ + amount@ <= u64::MAX,
        ensures
            *final(self) == released(*old(self), amount),
    {
        self.held.sub_assign(amount);
        self.available.add_assign(amount);
    }

    /// Withdraws the held `amount` from the held and the total funds and
    /// locks the account.
    pub fn chargeback(&mut self, amount: Amount)
        requires
            amount@ <= old(self).held@,
            amount@ <= old(self).total@,
        ensures
            *final(self) == charged_back(*old(self), amount),
    {
        self.held.sub_assign(amount);
        self.total.sub_assign(amount);
        self.locked = true;
    }
}

} // verus!
