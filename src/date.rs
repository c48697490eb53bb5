//! Calendar days, counted as day numbers of the proleptic Gregorian calendar.
use chrono::Datelike;
use vstd::prelude::*;

verus! {

/// Day number of the first day that dates can take (January 1, 262144 BCE).
pub const MIN_DAY: i32 = -95746129;

/// Day number of the last day that dates can take (December 31, 262142 CE).
pub const MAX_DAY: i32 = 95745399;

/// The text `DD-MM-YYYY` of the day numbered `days`.
pub uninterp spec fn calendar_text(days: int) -> Seq<char>;

/// Relies on chrono's `Local::now().date_naive()` and `Datelike::num_days_from_ce`:
/// the local date today, as a day number (January 1 of year 1 is day 1), always
/// one that a `NaiveDate` can hold.
#[verifier::external_body]
fn today_day_number() -> (r: i32)
    ensures
        MIN_DAY <= r <= MAX_DAY,
{
    chrono::Local::now().date_naive().num_days_from_ce()
}

/// Relies on chrono's `NaiveDate::from_num_days_from_ce_opt` and `format("%d-%m-%Y")`:
/// the date of day number `days` written as day, month and year.
#[verifier::external_body]
fn day_number_text(days: i32) -> (r: String)
    requires
        MIN_DAY <= days <= MAX_DAY,
    ensures
        r@ == calendar_text(days as int),
{
    chrono::NaiveDate::from_num_days_from_ce_opt(days).unwrap().format("%d-%m-%Y").to_string()
}

/// A calendar day.
#[derive(Debug, Copy, Clone, PartialEq, Eq, Structural, PartialOrd, Ord)]
pub struct Date {
    days: i32,
}

impl View for Date {
    type V = int;

    closed spec fn view(&self) -> int {
        self.days as int
    }
}

impl Date {
    /// Width of the text of a date of years 1 to 9999.
    pub const STRING_WIDTH: usize = 2 + 1 + 2 + 1 + 4;

    #[verifier::type_invariant]
    spec fn in_range(&self) -> bool {
        MIN_DAY <= self.days <= MAX_DAY
    }

    /// The day numbered `days` (January 1 of year 1 is day 1), if a date can
    /// be that day.
    pub fn from_days(days: i32) -> (r: Option<Self>)
        ensures
            match r {
                Some(d) => d@ == days,
                None => !(MIN_DAY <= days <= MAX_DAY),
            },
    {
        if MIN_DAY <= days && days <= MAX_DAY {
            Some(Date { days })
        } else {
            None
        }
    }

    /// The day number of the date.
    pub fn days(&self) -> (r: i32)
        ensures
            r == self@,
            MIN_DAY <= r <= MAX_DAY,
    {
        proof {
            use_type_invariant(self);
        }
        self.days
    }

    /// The local date today.
    pub fn today() -> (r: Self) {
        Date { days: today_day_number() }
    }

    /// The date written `DD-MM-YYYY`.
    pub fn to_string(&self) -> (r: String)
        ensures
            r@ == calendar_text(self@),
    {
        proof {
            use_type_invariant(self);
        }
        day_number_text(self.days)
    }

    /// The next day.
    pub fn succ(&self) -> (r: Self)
        requires
            self@ < MAX_DAY,
        ensures
            r@ == self@ + 1,
    {
        proof {
            use_type_invariant(self);
        }
        Date { days: self.days + 1 }
    }

    /// The previous day.
    pub fn pred(&self) -> (r: Self)
        requires
            self@ > MIN_DAY,
        ensures
            r@ == self@ - 1,
    {
        proof {
            use_type_invariant(self);
        }
        Date { days: self.days - 1 }
    }

    /// Moves to the next day.
    pub fn incr(&mut self)
        requires
            old(self)@ < MAX_DAY,
        ensures
            final(self)@ == old(self)@ + 1,
    {
        *self = self.succ();
    }

    /// Moves to the previous day.
    pub fn decr(&mut self)
        requires
            old(self)@ > MIN_DAY,
        ensures
            final(self)@ == old(self)@ - 1,
    {
        *self = self.pred();
    }
}

} // verus!
