use vstd::prelude::*;

verus! {

/// Failures of the tuition subsystem.
#[derive(Clone, Debug, PartialEq, Eq)]
pub enum Error {
    UnknownDatabaseError(String),
    ActiveTuitionExists,
    InvalidAmount,
    TuitionNotFound,
}

} // verus!

verus! {

/// How long a payment keeps a tuition active, in seconds: 30 days.
pub const ACTIVE_TUITION_SECONDS: i64 = 2592000;

/// A tuition payment; `amount` is in cents.
#[derive(Clone, Copy, Debug, PartialEq, Eq, Structural)]
pub struct Tuition {
    pub id_tuition: u128,
    pub id_user: u128,
    pub amount: u64,
    pub payment_date: i64,
}

/// `t` is a payment by `user` of at least `required` made in the 30 days up to `now`.
pub open spec fn covers(t: Tuition, user: u128, required: u64, now: i64) -> bool {
    &&& t.id_user == user
    &&& t.payment_date >= now - ACTIVE_TUITION_SECONDS
    &&& t.amount >= required
}

/// The tuition payments.
pub struct TuitionBook {
    pub tuitions: Vec<Tuition>,
}

impl TuitionBook {
    pub open spec fn active_with_amount(self, user: u128, required: u64, now: i64) -> bool {
        exists|i: int| 0 <= i < self.tuitions@.len() && covers(#[trigger] self.tuitions@[i], user, required, now)
    }

    pub fn new() -> (r: TuitionBook)
        ensures
            r.tuitions@.len() == 0,
    {
        TuitionBook { tuitions: Vec::new() }
    }

    /// Records a payment of `amount` cents by `user` at `now` under the identity `id`;
    /// a payment of nothing is refused.
    pub fn pay_tuition(&mut self, user: u128, amount: u64, id: u128, now: i64) -> (r: Result<Tuition, Error>)
        ensures
            amount == 0 ==> r == Err::<Tuition, Error>(Error::InvalidAmount)
                && final(self).tuitions@ == old(self).tuitions@,
            amount > 0 ==> r == Ok::<Tuition, Error>(Tuition { id_tuition: id, id_user: user, amount, payment_date: now })
                && final(self).tuitions@ == old(self).tuitions@.push(r.unwrap()),
    {
        if amount == 0 {
            return Err(Error::InvalidAmount);
        }
        let t = Tuition { id_tuition: id, id_user: user, amount, payment_date: now };
        self.tuitions.push(t);
        Ok(t)
    }

    /// Whether `user` paid at least `required` cents in the 30 days up to `now`.
    pub fn has_active_tuition_with_amount(&self, user: u128, required: u64, now: i64) -> (r: bool)
        ensures
            r == self.active_with_amount(user, required, now),
    {
        let mut i: usize = 0;
        while i < self.tuitions.len()
            invariant
                i <= self.tuitions@.len(),
                forall|j: int| 0 <= j < i ==> !covers(#[trigger] self.tuitions@[j], user, required, now),
            decreases self.tuitions@.len() - i,
        {
            let t = self.tuitions[i];
            if t.id_user == user && (t.payment_date as i128) >= (now as i128) - (ACTIVE_TUITION_SECONDS as i128)
                && t.amount >= required {
                return true;
            }
            i = i + 1;
        }
        false
    }

    /// Whether `user` holds any active tuition at `now`.
    pub fn has_active_tuition(&self, user: u128, now: i64) -> (r: bool)
        ensures
            r == self.active_with_amount(user, 0, now),
    {
        self.has_active_tuition_with_amount(user, 0, now)
    }
}

} // verus!
