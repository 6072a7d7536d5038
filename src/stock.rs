//! The stock ledger: deductions for the lines of a new order.
use vstd::prelude::*;
use crate::models::Product;
use crate::store::{Store, products_unique};
use crate::text::{owned, str_eq};

verus! {

pub open spec fn is_tracked(p: Product) -> bool {
    p.track_stock == Some(true)
}

/// `s - q`, held to `0..=i64::MAX`.
pub open spec fn clamp_stock(s: int, q: int) -> i64 {
    if s - q <= 0 {
        0
    } else if s - q > i64::MAX {
        i64::MAX
    } else {
        (s - q) as i64
    }
}

/// `after` is the tracked product `before` with `q` taken from its stock.
pub open spec fn deducted(before: Product, after: Product, q: i64, now: Seq<char>) -> bool {
    &&& after.updated_at@ == now
    &&& after.stock == match before.stock {
        Some(s) => Some(clamp_stock(s as int, q as int)),
        None => None::<i64>,
    }
    &&& after == Product { stock: after.stock, updated_at: after.updated_at, ..before }
}

/// The products before and after taking `q` of product `id`: only a
/// tracked product changes.
pub open spec fn deduct_step(ps0: Seq<Product>, ps1: Seq<Product>, id: Seq<char>, q: i64, now: Seq<char>) -> bool {
    &&& ps1.len() == ps0.len()
    &&& forall|i: int| 0 <= i < ps0.len() ==> if (#[trigger] ps0[i]).id@ == id && is_tracked(ps0[i]) {
        deducted(ps0[i], ps1[i], q, now)
    } else {
        ps1[i] == ps0[i]
    }
}

pub fn clamp_sub(s: i64, q: i64) -> (r: i64)
    ensures
        r == clamp_stock(s as int, q as int),
{
    if q >= s {
        0
    } else if q < 0 && s > i64::MAX + q {
        i64::MAX
    } else {
        s - q
    }
}

impl Store {
    /// Takes `quantity` from the stock of product `product_id`, never below
    /// zero. Products without tracking, or without a stock figure, keep it.
    pub fn deduct_stock(&mut self, product_id: &str, quantity: i64, now: &str)
        requires
            old(self).wf(),
        ensures
            final(self).wf(),
            deduct_step(old(self).products@, final(self).products@, product_id@, quantity, now@),
            final(self).customers == old(self).customers,
            final(self).orders == old(self).orders,
            final(self).settings == old(self).settings,
    {
        let n = self.products.len();
        let mut i: usize = 0;
        while i < n
            invariant
                n == self.products@.len(),
                n == old(self).products@.len(),
                i <= n,
                self.customers == old(self).customers,
                self.orders == old(self).orders,
                self.settings == old(self).settings,
                forall|k: int| 0 <= k < i ==> if (#[trigger] old(self).products@[k]).id@ == product_id@
                    && is_tracked(old(self).products@[k]) {
                    deducted(old(self).products@[k], self.products@[k], quantity, now@)
                } else {
                    self.products@[k] == old(self).products@[k]
                },
                forall|k: int| i <= k < n ==> #[trigger] self.products@[k] == old(self).products@[k],
            decreases n - i,
        {
            let follows = match self.products[i].track_stock {
                Some(t) => t,
                None => false,
            };
            if follows && str_eq(self.products[i].id.as_str(), product_id) {
                let new_stock = match self.products[i].stock {
                    Some(s) => Some(clamp_sub(s, quantity)),
                    None => None,
                };
                self.products[i].stock = new_stock;
                self.products[i].updated_at = owned(now);
            }
            i += 1;
        }
        proof {
            assert forall|a: int, b: int|
                0 <= a < n && 0 <= b < n && a != b implies self.products@[a].id@ != self.products@[b].id@ by {
                assert(old(self).products@[a].id@ == self.products@[a].id@);
                assert(old(self).products@[b].id@ == self.products@[b].id@);
            }
        }
    }

    /// Applies `deduct_stock` to each `(product id, quantity)` in turn.
    /// A tracked product never ends below zero unless no line touched it,
    /// and an untracked product is left as it was.
    pub fn deduct_stock_batch(&mut self, items: &Vec<(String, i64)>, now: &str)
        requires
            old(self).wf(),
        ensures
            final(self).wf(),
            final(self).customers == old(self).customers,
            final(self).orders == old(self).orders,
            final(self).settings == old(self).settings,
            final(self).products@.len() == old(self).products@.len(),
            forall|i: int| 0 <= i < old(self).products@.len() && !is_tracked(#[trigger] old(self).products@[i])
                ==> final(self).products@[i] == old(self).products@[i],
            forall|i: int| 0 <= i < final(self).products@.len() && (#[trigger] final(self).products@[i]).stock is Some
                && final(self).products@[i].stock.unwrap() < 0
                ==> final(self).products@[i].stock == old(self).products@[i].stock,
            exists|tp: Seq<Seq<Product>>| {
                &&& tp.len() == items@.len() + 1
                &&& tp[0] == old(self).products@
                &&& tp[items@.len() as int] == final(self).products@
                &&& forall|k: int| 0 <= k < items@.len() ==> #[trigger] deduct_step(tp[k], tp[k + 1], items@[k].0@, items@[k].1, now@)
            },
    {
        let n = items.len();
        let mut i: usize = 0;
        let ghost mut tp: Seq<Seq<Product>> = seq![self.products@];
        while i < n
            invariant
                n == items@.len(),
                i <= n,
                self.wf(),
                self.customers == old(self).customers,
                self.orders == old(self).orders,
                self.settings == old(self).settings,
                self.products@.len() == old(self).products@.len(),
                forall|k: int| 0 <= k < old(self).products@.len() ==> {
                    &&& (#[trigger] self.products@[k]).id == old(self).products@[k].id
                    &&& self.products@[k].track_stock == old(self).products@[k].track_stock
                    &&& (!is_tracked(old(self).products@[k]) ==> self.products@[k] == old(self).products@[k])
                    &&& (self.products@[k].stock is Some && self.products@[k].stock.unwrap() < 0
                        ==> self.products@[k].stock == old(self).products@[k].stock)
                },
                tp.len() == i + 1,
                tp[0] == old(self).products@,
                tp[i as int] == self.products@,
                forall|k: int| 0 <= k < i ==> #[trigger] deduct_step(tp[k], tp[k + 1], items@[k].0@, items@[k].1, now@),
            decreases n - i,
        {
            let ghost before = self.products@;
            self.deduct_stock(items[i].0.as_str(), items[i].1, now);
            proof {
                assert forall|k: int| 0 <= k < old(self).products@.len() implies {
                    &&& (#[trigger] self.products@[k]).id == old(self).products@[k].id
                    &&& self.products@[k].track_stock == old(self).products@[k].track_stock
                    &&& (!is_tracked(old(self).products@[k]) ==> self.products@[k] == old(self).products@[k])
                    &&& (self.products@[k].stock is Some && self.products@[k].stock.unwrap() < 0
                        ==> self.products@[k].stock == old(self).products@[k].stock)
                } by {
                    let b = before[k];
                    if b.id@ == items@[i as int].0@ && is_tracked(b) {
                        assert(deducted(b, self.products@[k], items@[i as int].1, now@));
                    } else {
                        assert(self.products@[k] == b);
                    }
                }
                tp = tp.push(self.products@);
            }
            i += 1;
        }
    }
}

} // verus!
