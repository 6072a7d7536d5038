//! Orders: the last number issued, and the next one.
use vstd::prelude::*;
use crate::text::{seq_lt, str_eq, str_lt};
use crate::models::AppSettings;
use crate::numbering::{DateParts, day_key, number_from, number_with_prior, format_day_key, next_sequence};
use crate::store::{Store, OrderRow, StoreError};

verus! {

/// The most recently created order, among those of business date `day`
/// where one is given (the later row among equal creation times).
pub open spec fn latest_order(os: Seq<OrderRow>, day: Option<Seq<char>>) -> Option<int>
    decreases os.len(),
{
    if os.len() == 0 {
        None
    } else {
        let prev = latest_order(os.drop_last(), day);
        let k = os.len() - 1;
        let in_window = match day {
            Some(d) => os[k].date@ == d,
            None => true,
        };
        if in_window && (prev is None || !seq_lt(os[k].created_at@, os[prev.unwrap()].created_at@)) {
            Some(k)
        } else {
            prev
        }
    }
}

proof fn lemma_latest_bounds(os: Seq<OrderRow>, day: Option<Seq<char>>)
    ensures
        latest_order(os, day) is Some ==> 0 <= latest_order(os, day).unwrap() < os.len(),
    decreases os.len(),
{
    if os.len() > 0 {
        lemma_latest_bounds(os.drop_last(), day);
    }
}

/// The last number issued in the settings' reference window: today's orders
/// under a daily reset, else all orders.
pub open spec fn prior_number(os: Seq<OrderRow>, settings: AppSettings, d: DateParts) -> Option<Seq<char>> {
    prior_in_window(os, settings.order_number_reset_daily, d)
}

/// The last number issued: on day `d` under a daily reset, else overall.
pub open spec fn prior_in_window(os: Seq<OrderRow>, reset_daily: bool, d: DateParts) -> Option<Seq<char>> {
    let day = if reset_daily {
        Some(day_key(d))
    } else {
        None
    };
    match latest_order(os, day) {
        Some(k) => Some(os[k].order_number@),
        None => None,
    }
}

/// The next order number on day `d`.
pub open spec fn number_for(os: Seq<OrderRow>, settings: AppSettings, d: DateParts) -> Seq<char> {
    number_with(os, settings.order_number_format@, settings.order_number_digits, settings.order_number_reset_daily, d)
}

/// The next order number on day `d` for a pattern, width and reset rule.
pub open spec fn number_with(os: Seq<OrderRow>, format: Seq<char>, digits: i32, reset_daily: bool, d: DateParts) -> Seq<char> {
    number_from(format, d, digits, prior_in_window(os, reset_daily, d))
}

proof fn lemma_no_order_that_day(os: Seq<OrderRow>, day: Seq<char>)
    requires
        forall|i: int| 0 <= i < os.len() ==> (#[trigger] os[i]).date@ != day,
    ensures
        latest_order(os, Some(day)) is None,
    decreases os.len(),
{
    if os.len() > 0 {
        lemma_no_order_that_day(os.drop_last(), day);
    }
}

/// Under a daily reset, a day with no orders yet starts its sequence at 1:
/// the number is the one made with no prior number, whatever the pattern,
/// so that any number of generations before the first order of the day
/// all give the same number with sequence value 1.
pub proof fn lemma_fresh_day_starts_at_one(os: Seq<OrderRow>, settings: AppSettings, d: DateParts)
    requires
        settings.order_number_reset_daily,
        forall|i: int| 0 <= i < os.len() ==> (#[trigger] os[i]).date@ != day_key(d),
    ensures
        prior_number(os, settings, d) is None,
        number_for(os, settings, d)
            == number_from(settings.order_number_format@, d, settings.order_number_digits, None),
        next_sequence(prior_number(os, settings, d)) == 1,
{
    lemma_no_order_that_day(os, day_key(d));
}

impl Store {
    /// The number of the most recently created order, among those of
    /// business date `day` where one is given.
    pub fn last_order_number(&self, day: Option<&str>) -> (r: Option<String>)
        ensures
            match latest_order(self.orders@, match day { Some(d) => Some(d@), None => None }) {
                Some(k) => r is Some && r.unwrap()@ == self.orders@[k].order_number@,
                None => r is None,
            },
    {
        let ghost dv: Option<Seq<char>> = match day { Some(d) => Some(d@), None => None };
        let n = self.orders.len();
        let mut best: Option<usize> = None;
        let mut i: usize = 0;
        assert(self.orders@.subrange(0, 0) =~= Seq::<OrderRow>::empty());
        while i < n
            invariant
                n == self.orders@.len(),
                i <= n,
                dv == match day { Some(d) => Some(d@), None => None::<Seq<char>> },
                match latest_order(self.orders@.subrange(0, i as int), dv) {
                    Some(k) => best is Some && best.unwrap() as int == k,
                    None => best is None,
                },
            decreases n - i,
        {
            let ghost pre = self.orders@.subrange(0, i as int);
            assert(self.orders@.subrange(0, i + 1).drop_last() =~= pre);
            proof { lemma_latest_bounds(pre, dv); }
            let o = &self.orders[i];
            let in_window = match day {
                Some(d) => str_eq(o.date.as_str(), d),
                None => true,
            };
            if in_window {
                match best {
                    None => { best = Some(i); },
                    Some(b) => {
                        if !str_lt(o.created_at.as_str(), self.orders[b].created_at.as_str()) {
                            best = Some(i);
                        }
                    },
                }
            }
            i += 1;
        }
        assert(self.orders@.subrange(0, n as int) =~= self.orders@);
        proof { lemma_latest_bounds(self.orders@, dv); }
        match best {
            Some(b) => Some(self.orders[b].order_number.clone()),
            None => None,
        }
    }

    /// The next order number on day `today` under `settings`.
    pub fn generate_order_number_on(&self, settings: &AppSettings, today: &DateParts) -> (r: String)
        ensures
            r@ == number_for(self.orders@, *settings, *today),
    {
        let last = if settings.order_number_reset_daily {
            let key = format_day_key(today);
            self.last_order_number(Some(key.as_str()))
        } else {
            self.last_order_number(None)
        };
        match &last {
            Some(p) => number_with_prior(settings.order_number_format.as_str(), today, settings.order_number_digits, Some(p.as_str())),
            None => number_with_prior(settings.order_number_format.as_str(), today, settings.order_number_digits, None),
        }
    }

    /// The next order number, on today's date by the clock. The order's own
    /// business date plays no part. Fails only where the clock gives no time.
    pub fn generate_order_number(&self, settings: &AppSettings, order_date: &str) -> (r: Result<String, StoreError>)
        ensures
            r is Ok ==> exists|d: DateParts| r.unwrap()@ == number_for(self.orders@, *settings, d),
            r is Err ==> r == Err::<String, StoreError>(StoreError::ClockUnavailable),
    {
        match crate::clock::clock_now() {
            Some((today, _stamp)) => Ok(self.generate_order_number_on(settings, &today)),
            None => Err(StoreError::ClockUnavailable),
        }
    }
}

} // verus!
