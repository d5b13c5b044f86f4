use crate::transactions::{Amount, ClientID, Transaction, TransactionType};
use vstd::prelude::*;

verus! {

/// One client's balances.
#[derive(Debug, Clone, Copy)]
pub struct Account {
    pub client: ClientID,
    pub available: Amount,
    pub held: Amount,
    pub total: Amount,
    pub locked: bool,
}

#[derive(Debug, Clone, Copy, PartialEq, Eq, Structural)]
pub enum AccountPerfomErr {
    /// The operation does not apply to records of this kind.
    UnknownType(TransactionType),
    /// A balance would leave the range of `Amount`; nothing was changed.
    Overflow,
}

/// Whether `x` can be held in an `Amount`.
pub open spec fn fits(x: int) -> bool {
    i64::MIN <= x <= i64::MAX
}

/// The result of an operation whose intended effect is `expected`
/// (`None`: a balance would overflow): `post` is that effect and `r` is `Ok`,
/// or `post` is `pre` and `r` reports the overflow.
pub open spec fn settles(
    pre: Account,
    post: Account,
    r: Result<(), AccountPerfomErr>,
    expected: Option<Account>,
) -> bool {
    match expected {
        Some(a) => r is Ok && post == a,
        None => r == Err::<(), AccountPerfomErr>(AccountPerfomErr::Overflow) && post == pre,
    }
}

impl Account {
    /// `total` is exactly `available + held`.
    pub open spec fn wf(self) -> bool {
        self.total == self.available + self.held
    }

    /// The empty, unlocked account of `client`.
    pub open spec fn fresh(client: ClientID) -> Account {
        Account { client, available: 0, held: 0, total: 0, locked: false }
    }

    /// This account with `da` added to `available` and `dh` to `held`, and
    /// `total` recomputed; `None` where a balance leaves the range of `Amount`.
    pub open spec fn shifted(self, da: int, dh: int) -> Option<Account> {
        let a = self.available + da;
        let h = self.held + dh;
        if fits(a) && fits(h) && fits(a + h) {
            Some(Account { available: a as i64, held: h as i64, total: (a + h) as i64, ..self })
        } else {
            None
        }
    }

    /// A deposit: `amount` is added to `available`.
    pub open spec fn credited(self, amount: int) -> Option<Account> {
        self.shifted(amount, 0)
    }

    /// A withdrawal: `amount` leaves `available`, which may go negative.
    pub open spec fn debited(self, amount: int) -> Option<Account> {
        self.shifted(-amount, 0)
    }

    /// A dispute: `amount` moves from `available` to `held`.
    pub open spec fn holding(self, amount: int) -> Option<Account> {
        self.shifted(-amount, amount)
    }

    /// A resolve: `amount` moves from `held` back to `available`.
    pub open spec fn releasing(self, amount: int) -> Option<Account> {
        self.shifted(amount, -amount)
    }

    /// A chargeback: `amount` leaves `held` for good and the account locks.
    pub open spec fn forfeiting(self, amount: int) -> Option<Account> {
        match self.shifted(0, -amount) {
            Some(a) => Some(Account { locked: true, ..a }),
            None => None,
        }
    }

    pub fn for_client(client: ClientID) -> (r: Self)
        ensures
            r == Account::fresh(client),
            r.wf(),
    {
        Account { client, available: 0, held: 0, total: 0, locked: false }
    }

    /// Sets `available` and `held` to the given values and recomputes
    /// `total`, unless one of them (`None`) or their sum overflowed.
    fn settle(&mut self, available: Option<Amount>, held: Option<Amount>) -> (r: Result<
        (),
        AccountPerfomErr,
    >)
        ensures
            match (available, held) {
                (Some(a), Some(h)) => if fits(a + h) {
                    &&& r is Ok
                    &&& *final(self) == (Account {
                        available: a,
                        held: h,
                        total: (a + h) as i64,
                        ..*old(self)
                    })
                } else {
                    r == Err::<(), AccountPerfomErr>(AccountPerfomErr::Overflow) && *final(self)
                        == *old(self)
                },
                _ => r == Err::<(), AccountPerfomErr>(AccountPerfomErr::Overflow) && *final(self)
                    == *old(self),
            },
    {
        match (available, held) {
            (Some(a), Some(h)) => match a.checked_add(h) {
                Some(t) => {
                    self.available = a;
                    self.held = h;
                    self.total = t;
                    Ok(())
                },
                None => Err(AccountPerfomErr::Overflow),
            },
            _ => Err(AccountPerfomErr::Overflow),
        }
    }

    /// Applies a deposit or a withdrawal of this account's client. Other
    /// kinds are refused and leave the account unchanged.
    pub fn perform(&mut self, tx: &Transaction) -> (r: Result<(), AccountPerfomErr>)
        requires
            old(self).client == tx.client,
        ensures
            match tx.tx_type {
                TransactionType::Deposit => settles(
                    *old(self),
                    *final(self),
                    r,
                    old(self).credited(tx.amount() as int),
                ),
                TransactionType::Withdrawal => settles(
                    *old(self),
                    *final(self),
                    r,
                    old(self).debited(tx.amount() as int),
                ),
                other => r == Err::<(), AccountPerfomErr>(AccountPerfomErr::UnknownType(other))
                    && *final(self) == *old(self),
            },
            r is Ok ==> final(self).wf(),
    {
        let amount = tx.amount();
        match tx.tx_type {
            TransactionType::Deposit => {
                let held = self.held;
                self.settle(self.available.checked_add(amount), Some(held))
            },
            TransactionType::Withdrawal => {
                let held = self.held;
                self.settle(self.available.checked_sub(amount), Some(held))
            },
            other => Err(AccountPerfomErr::UnknownType(other)),
        }
    }

    /// Holds the amount of the disputed record `tx`.
    pub fn dispute(&mut self, tx: &Transaction) -> (r: Result<(), AccountPerfomErr>)
        ensures
            settles(*old(self), *final(self), r, old(self).holding(tx.amount() as int)),
            r is Ok ==> final(self).wf(),
    {
        let disputed = tx.amount();
        self.settle(self.available.checked_sub(disputed), self.held.checked_add(disputed))
    }

    /// Releases the held amount of the disputed record `tx`.
    pub fn resolve(&mut self, tx: &Transaction) -> (r: Result<(), AccountPerfomErr>)
        ensures
            settles(*old(self), *final(self), r, old(self).releasing(tx.amount() as int)),
            r is Ok ==> final(self).wf(),
    {
        let disputed = tx.amount();
        self.settle(self.available.checked_add(disputed), self.held.checked_sub(disputed))
    }

    /// Removes the held amount of the disputed record `tx` and locks the
    /// account.
    pub fn chargeback(&mut self, tx: &Transaction) -> (r: Result<(), AccountPerfomErr>)
        ensures
            settles(*old(self), *final(self), r, old(self).forfeiting(tx.amount() as int)),
            r is Ok ==> final(self).wf(),
    {
        let disputed = tx.amount();
        let available = self.available;
        let r = self.settle(Some(available), self.held.checked_sub(disputed));
        if r.is_ok() {
            self.locked = true;
        }
        r
    }

    /// `available + held`.
    pub fn calc_total(&self) -> (r: Amount)
        requires
            fits(self.available + self.held),
        ensures
            r == self.available + self.held,
    {
        self.available + self.held
    }

    /// `available + held`.
    pub fn total(&self) -> (r: Amount)
        requires
            fits(self.available + self.held),
        ensures
            r == self.available + self.held,
    {
        self.calc_total()
    }
}

} // verus!
