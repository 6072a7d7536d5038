//! Order ingestion: number, resolve the customer, persist, deduct stock,
//! stamp the customer. Each stage's effects stay when a later one fails.
use vstd::prelude::*;
use crate::text::{concat, str_eq, owned};
use crate::models::{Customer, Order, OrderItem, AppSettings, Product, default_settings, opt_view};
use crate::customer_kind::{classify, kind_of, CustomerKind, snapshot_prefix};
use crate::customers::{is_identity_merge, touched};
use crate::numbering::DateParts;
use crate::orders::{number_for, number_with};
use crate::store::{Store, OrderRow, StoreError, has_customer, has_order, best_identity, customer_at};
use crate::stock::{deduct_step, is_tracked};
use crate::sorting::{sort_by_position, sorted_by_position};

verus! {

/// The customer id that an order ends up referring to: a snapshot id for a
/// temporary customer; for any other, the id of the regular row that its
/// phone or plate matches, else the id as given.
pub open spec fn resolved_id(cs: Seq<Customer>, o: Order) -> Seq<char> {
    if kind_of(o.customer_id@) == CustomerKind::Temporary {
        snapshot_prefix() + o.id@
    } else {
        match best_identity(cs, o.customer.phone@, o.customer.license_plate@) {
            Some(k) => cs[k].id@,
            None => o.customer_id@,
        }
    }
}

/// Whether a non-temporary order customer matched an existing regular row.
pub open spec fn matched(cs: Seq<Customer>, o: Order) -> bool {
    kind_of(o.customer_id@) != CustomerKind::Temporary
        && best_identity(cs, o.customer.phone@, o.customer.license_plate@) is Some
}

/// Another order than `id` holds `number`.
pub open spec fn number_taken(os: Seq<OrderRow>, number: Seq<char>, id: Seq<char>) -> bool {
    exists|j: int| 0 <= j < os.len() && os[j].order_number@ == number && os[j].id@ != id
}

pub open spec fn items_distinct(items: Seq<OrderItem>) -> bool {
    forall|a: int, b: int| 0 <= a < items.len() && 0 <= b < items.len() && a != b ==> items[a].id@ != items[b].id@
}

/// The row a new order is stored as.
pub open spec fn row_of(o: Order) -> OrderRow {
    OrderRow {
        id: o.id,
        order_number: o.order_number,
        date: o.date,
        customer_id: o.customer_id,
        total_amount: o.total_amount,
        remark: o.remark,
        template_id: o.template_id,
        status: o.status,
        created_at: o.created_at,
        updated_at: o.updated_at,
        items: o.items,
    }
}

/// An existing row after an update from `o`: its id, creation time and
/// lines stay.
pub open spec fn row_updated(row: OrderRow, o: Order) -> OrderRow {
    OrderRow {
        order_number: o.order_number,
        date: o.date,
        customer_id: o.customer_id,
        total_amount: o.total_amount,
        remark: o.remark,
        template_id: o.template_id,
        status: o.status,
        updated_at: o.updated_at,
        ..row
    }
}

/// The number an order is saved under: its own when it has one, else the
/// next number under the stored settings, or under the defaults where none
/// are stored.
pub open spec fn submitted_number(os: Seq<OrderRow>, stored: Option<AppSettings>, o: Order, d: DateParts) -> Seq<char> {
    if o.order_number@.len() > 0 {
        o.order_number@
    } else {
        match stored {
            Some(s) => number_for(os, s, d),
            None => number_with(os, "YYYYMMDD_{SEQ:6}"@, 6, true, d),
        }
    }
}

/// `o1` is `o` numbered `num` and stamped at `now`.
pub open spec fn numbered(o: Order, o1: Order, num: Seq<char>, now: Seq<char>) -> bool {
    &&& o1.order_number@ == num
    &&& o1.updated_at@ == now
    &&& o1 == Order { order_number: o1.order_number, updated_at: o1.updated_at, ..o }
}

/// The stages of one submission, from the tables before (`s0`) to after
/// (`s1`): `o1` is the numbered order, `o2` the order after customer
/// resolution, `mid` the customer table after it.
pub open spec fn stages_ok(
    s0: Store,
    s1: Store,
    o: Order,
    o1: Order,
    o2: Order,
    mid: Seq<Customer>,
    now: Seq<char>,
    d: DateParts,
    r: Result<String, StoreError>,
) -> bool {
    let rid = resolved_id(s0.customers@, o);
    &&& numbered(o, o1, submitted_number(s0.orders@, s0.settings, o, d), now)
    &&& resolution_ok(s0.customers@, mid, o1, o2, now)
    &&& match r {
        Err(e) => persist_ok(s0.orders@, s1.orders@, o2, Err(e)) && s1.customers@ == mid,
        Ok(_) => {
            &&& persist_ok(s0.orders@, s1.orders@, o2, Ok(!has_order(s0.orders@, o.id@)))
            &&& if kind_of(rid) == CustomerKind::OrderSnapshot {
                s1.customers@ == mid
            } else {
                touched(mid, s1.customers@, rid, now)
            }
        },
    }
}

/// The whole submission, from the tables before (`s0`) to after (`s1`).
pub open spec fn save_order_ok(s0: Store, s1: Store, o: Order, now: Seq<char>, d: DateParts, r: Result<String, StoreError>) -> bool {
    let num = submitted_number(s0.orders@, s0.settings, o, d);
    let rid = resolved_id(s0.customers@, o);
    let taken = number_taken(s0.orders@, num, o.id@);
    let is_new = !has_order(s0.orders@, o.id@);
    &&& s1.settings == s0.settings
    &&& s1.products@.len() == s0.products@.len()
    &&& forall|i: int| 0 <= i < s0.products@.len() && !is_tracked(#[trigger] s0.products@[i])
        ==> s1.products@[i] == s0.products@[i]
    &&& forall|i: int| 0 <= i < s1.products@.len() && (#[trigger] s1.products@[i]).stock is Some
        && s1.products@[i].stock.unwrap() < 0 ==> s1.products@[i].stock == s0.products@[i].stock
    &&& exists|o1: Order, o2: Order, mid: Seq<Customer>| #[trigger] stages_ok(s0, s1, o, o1, o2, mid, now, d, r)
    &&& has_customer(s1.customers@, rid)
    &&& (r == Err::<String, StoreError>(StoreError::DuplicateOrderNumber)) == taken
    &&& (r == Err::<String, StoreError>(StoreError::DuplicateItem)) == (!taken && is_new && !items_distinct(o.items@))
    &&& r is Err ==> s1.orders@ == s0.orders@ && s1.products@ == s0.products@
    &&& r is Ok ==> {
        &&& r.unwrap()@ == num
        &&& exists|i: int| 0 <= i < s1.orders@.len() && s1.orders@[i].id@ == o.id@
            && s1.orders@[i].customer_id@ == rid && s1.orders@[i].order_number@ == num
        &&& !is_new ==> s1.products@ == s0.products@
        &&& is_new ==> exists|tp: Seq<Seq<Product>>| {
            &&& tp.len() == o.items@.len() + 1
            &&& tp[0] == s0.products@
            &&& tp[o.items@.len() as int] == s1.products@
            &&& forall|k: int| 0 <= k < o.items@.len()
                ==> #[trigger] deduct_step(tp[k], tp[k + 1], o.items@[k].id@, o.items@[k].quantity, now)
        }
        &&& kind_of(rid) != CustomerKind::OrderSnapshot ==> {
            let c = s1.customers@[customer_at(s1.customers@, rid)];
            opt_view(c.last_purchase_at) == Some(now) && c.updated_at@ == now
        }
    }
}

/// The product id and quantity of each line.
pub fn stock_lines(items: &Vec<OrderItem>) -> (r: Vec<(String, i64)>)
    ensures
        r@.len() == items@.len(),
        forall|k: int| 0 <= k < items@.len() ==> (#[trigger] r@[k]).0@ == items@[k].id@ && r@[k].1 == items@[k].quantity,
{
    let n = items.len();
    let mut r: Vec<(String, i64)> = Vec::new();
    let mut i: usize = 0;
    while i < n
        invariant
            n == items@.len(),
            i <= n,
            r@.len() == i,
            forall|k: int| 0 <= k < i ==> (#[trigger] r@[k]).0@ == items@[k].id@ && r@[k].1 == items@[k].quantity,
        decreases n - i,
    {
        r.push((items[i].id.clone(), items[i].quantity));
        i += 1;
    }
    r
}

/// The customer stage took order `o0` to `o1` and the customer table from
/// `cs0` to `cs1`.
pub open spec fn resolution_ok(cs0: Seq<Customer>, cs1: Seq<Customer>, o0: Order, o1: Order, now: Seq<char>) -> bool {
    let rid = resolved_id(cs0, o0);
    &&& o1.customer_id@ == rid
    &&& o1.customer.id@ == rid
    &&& has_customer(cs1, rid)
    &&& o1 == Order { customer_id: o1.customer_id, customer: o1.customer, ..o0 }
    &&& matched(cs0, o0) ==> {
        let k = best_identity(cs0, o0.customer.phone@, o0.customer.license_plate@).unwrap();
        &&& is_identity_merge(o1.customer, cs0[k], o0.customer, now)
        &&& cs1 == cs0.update(k, o1.customer)
    }
    &&& !matched(cs0, o0) ==> {
        &&& o1.customer == Customer { id: o1.customer.id, ..o0.customer }
        &&& if has_customer(cs0, rid) {
            cs1 == cs0
        } else {
            cs1 == cs0.push(o1.customer)
        }
    }
}

/// The order stage: an error leaves the rows as they were; otherwise the
/// row with the order's id is updated, or a new row is added.
pub open spec fn persist_ok(os0: Seq<OrderRow>, os1: Seq<OrderRow>, o: Order, r: Result<bool, StoreError>) -> bool {
    let taken = number_taken(os0, o.order_number@, o.id@);
    let exists_row = has_order(os0, o.id@);
    &&& taken ==> r == Err::<bool, StoreError>(StoreError::DuplicateOrderNumber)
    &&& !taken && !exists_row && !items_distinct(o.items@) ==> r == Err::<bool, StoreError>(StoreError::DuplicateItem)
    &&& r is Err ==> os1 == os0
    &&& !taken && exists_row ==> r == Ok::<bool, StoreError>(false) && exists|i: int|
        0 <= i < os0.len() && os0[i].id@ == o.id@ && os1 == os0.update(i, row_updated(os0[i], o))
    &&& !taken && !exists_row && items_distinct(o.items@) ==> r == Ok::<bool, StoreError>(true) && os1 == os0.push(row_of(o))
}

/// Whether no two lines name the same product.
pub fn items_unique(items: &Vec<OrderItem>) -> (r: bool)
    ensures
        r == items_distinct(items@),
{
    let n = items.len();
    let mut a: usize = 0;
    while a < n
        invariant
            n == items@.len(),
            a <= n,
            forall|x: int, y: int| 0 <= x < a && 0 <= y < n && x != y ==> items@[x].id@ != items@[y].id@,
        decreases n - a,
    {
        let mut b: usize = 0;
        while b < n
            invariant
                n == items@.len(),
                a < n,
                b <= n,
                forall|x: int, y: int| 0 <= x < a && 0 <= y < n && x != y ==> items@[x].id@ != items@[y].id@,
                forall|y: int| 0 <= y < b && a != y ==> items@[a as int].id@ != items@[y].id@,
            decreases n - b,
        {
            if a != b && str_eq(items[a].id.as_str(), items[b].id.as_str()) {
                return false;
            }
            b += 1;
        }
        a += 1;
    }
    true
}

/// `a` is line `b` as read back: the line table keeps no category, so it
/// comes back empty; every other field is kept.
pub open spec fn line_read_back(a: OrderItem, b: OrderItem) -> bool {
    a.category@.len() == 0 && a == OrderItem { category: a.category, ..b }
}

/// The lines of `v` as read back, in the same order.
pub fn lines_read_back(v: &Vec<OrderItem>) -> (r: Vec<OrderItem>)
    ensures
        r@.len() == v@.len(),
        forall|k: int| 0 <= k < r@.len() ==> line_read_back(#[trigger] r@[k], v@[k]),
{
    let n = v.len();
    let mut r: Vec<OrderItem> = Vec::new();
    let mut i: usize = 0;
    while i < n
        invariant
            n == v@.len(),
            i <= n,
            r@.len() == i,
            forall|k: int| 0 <= k < i ==> line_read_back(#[trigger] r@[k], v@[k]),
        decreases n - i,
    {
        let mut line = v[i].copy();
        line.category = String::new();
        r.push(line);
        i += 1;
    }
    r
}

/// `o` is the order read back from `row`: the row's fields, its lines in
/// position order with an empty category, and its customer row (a blank
/// customer where there is none).
pub open spec fn read_back(o: Order, row: OrderRow, cs: Seq<Customer>) -> bool {
    &&& o.id == row.id
    &&& o.order_number == row.order_number
    &&& o.date == row.date
    &&& o.customer_id == row.customer_id
    &&& o.total_amount == row.total_amount
    &&& o.remark == row.remark
    &&& o.template_id == row.template_id
    &&& o.status == row.status
    &&& o.created_at == row.created_at
    &&& o.updated_at == row.updated_at
    &&& exists|cl: Seq<OrderItem>| {
        &&& cl.len() == row.items@.len()
        &&& forall|k: int| 0 <= k < cl.len() ==> line_read_back(#[trigger] cl[k], row.items@[k])
        &&& o.items@.to_multiset() == #[trigger] cl.to_multiset()
    }
    &&& sorted_by_position(o.items@)
    &&& if has_customer(cs, row.customer_id@) {
        o.customer == cs[customer_at(cs, row.customer_id@)]
    } else {
        o.customer.id@.len() == 0 && o.customer.name@.len() == 0
    }
}

impl Store {
    /// Points the order at a durable customer row. A temporary customer
    /// becomes the snapshot `order_customer_<order id>`, added if absent. Any
    /// other customer that matches a regular row by phone or plate is merged
    /// into it and the order takes that row's id; otherwise it is added if
    /// absent.
    pub fn resolve_order_customer(&mut self, order: &mut Order, now: &str)
        requires
            old(self).wf(),
        ensures
            final(self).wf(),
            final(self).orders == old(self).orders,
            final(self).products == old(self).products,
            final(self).settings == old(self).settings,
            resolution_ok(old(self).customers@, final(self).customers@, *old(order), *final(order), now@),
    {
        let kind = classify(order.customer_id.as_str());
        if kind == CustomerKind::Temporary {
            proof {
                reveal_strlit("order_customer_");
                assert("order_customer_"@ =~= snapshot_prefix());
            }
            let sid = concat("order_customer_", order.id.as_str());
            order.customer_id = sid.clone();
            order.customer.id = sid;
            if self.find_customer(order.customer_id.as_str()).is_none() {
                self.insert_customer(order.customer.copy());
            }
            proof { self.lemma_has_last_or_found(old(self).customers@, order.customer_id@); }
            return;
        }
        match self.find_by_identity(order.customer.phone.as_str(), order.customer.license_plate.as_str()) {
            Some(k) => {
                let m = crate::customers::merge_incoming(&self.customers[k], &order.customer, now);
                let ghost gm = m;
                order.customer_id = m.id.clone();
                self.customers.set(k, m.copy());
                order.customer = m;
                proof {
                    self.lemma_same_ids_wf(old(self).customers@, k as int);
                    assert(self.customers@[k as int].id@ == gm.id@);
                }
                return;
            },
            None => {},
        }
        order.customer.id = order.customer_id.clone();
        if self.find_customer(order.customer_id.as_str()).is_none() {
            self.insert_customer(order.customer.copy());
        }
        proof { self.lemma_has_last_or_found(old(self).customers@, order.customer_id@); }
    }

    proof fn lemma_has_last_or_found(&self, before: Seq<Customer>, id: Seq<char>)
        requires
            self.customers@ == before || (self.customers@ == before.push(self.customers@.last())
                && self.customers@.last().id@ == id),
            self.customers@ == before ==> has_customer(before, id),
        ensures
            has_customer(self.customers@, id),
    {
        if self.customers@ != before {
            let k = self.customers@.len() - 1;
            assert(self.customers@[k].id@ == id);
        }
    }

    /// Position of the order with id `id`.
    pub fn find_order(&self, id: &str) -> (r: Option<usize>)
        ensures
            match r {
                Some(i) => i < self.orders@.len() && self.orders@[i as int].id@ == id@,
                None => !has_order(self.orders@, id@),
            },
    {
        let n = self.orders.len();
        let mut i: usize = 0;
        while i < n
            invariant
                n == self.orders@.len(),
                i <= n,
                forall|k: int| 0 <= k < i ==> self.orders@[k].id@ != id@,
            decreases n - i,
        {
            if str_eq(self.orders[i].id.as_str(), id) {
                return Some(i);
            }
            i += 1;
        }
        None
    }

    /// Whether an order other than `id` holds `number`.
    pub fn order_number_taken(&self, number: &str, id: &str) -> (r: bool)
        ensures
            r == number_taken(self.orders@, number@, id@),
    {
        let n = self.orders.len();
        let mut i: usize = 0;
        while i < n
            invariant
                n == self.orders@.len(),
                i <= n,
                forall|k: int| 0 <= k < i ==> !(self.orders@[k].order_number@ == number@ && self.orders@[k].id@ != id@),
            decreases n - i,
        {
            if str_eq(self.orders[i].order_number.as_str(), number) && !str_eq(self.orders[i].id.as_str(), id) {
                return true;
            }
            i += 1;
        }
        false
    }

    /// Stores the order row: an update of the row with the same id (its
    /// lines and creation time stay), or a new row with the lines. Returns
    /// whether the row is new. Nothing changes on an error.
    pub fn persist_order(&mut self, order: Order) -> (r: Result<bool, StoreError>)
        requires
            old(self).wf(),
        ensures
            final(self).wf(),
            final(self).customers == old(self).customers,
            final(self).products == old(self).products,
            final(self).settings == old(self).settings,
            persist_ok(old(self).orders@, final(self).orders@, order, r),
    {
        let taken = self.order_number_taken(order.order_number.as_str(), order.id.as_str());
        match self.find_order(order.id.as_str()) {
            Some(i) => {
                if taken {
                    return Err(StoreError::DuplicateOrderNumber);
                }
                let ghost row = self.orders@[i as int];
                assert(has_order(old(self).orders@, order.id@));
                self.orders[i].order_number = order.order_number;
                self.orders[i].date = order.date;
                self.orders[i].customer_id = order.customer_id;
                self.orders[i].total_amount = order.total_amount;
                self.orders[i].remark = order.remark;
                self.orders[i].template_id = order.template_id;
                self.orders[i].status = order.status;
                self.orders[i].updated_at = order.updated_at;
                proof {
                    assert(self.orders@ == old(self).orders@.update(i as int, row_updated(row, order)));
                    assert forall|a: int, b: int| 0 <= a < self.orders@.len() && 0 <= b < self.orders@.len() && a != b
                        implies self.orders@[a].id@ != self.orders@[b].id@
                            && self.orders@[a].order_number@ != self.orders@[b].order_number@ by {
                        if a == i {
                            assert(!(old(self).orders@[b].order_number@ == order.order_number@ && old(self).orders@[b].id@ != order.id@));
                        } else if b == i {
                            assert(!(old(self).orders@[a].order_number@ == order.order_number@ && old(self).orders@[a].id@ != order.id@));
                        }
                    }
                }
                Ok(false)
            },
            None => {
                if taken {
                    return Err(StoreError::DuplicateOrderNumber);
                }
                if !items_unique(&order.items) {
                    return Err(StoreError::DuplicateItem);
                }
                let row = OrderRow {
                    id: order.id,
                    order_number: order.order_number,
                    date: order.date,
                    customer_id: order.customer_id,
                    total_amount: order.total_amount,
                    remark: order.remark,
                    template_id: order.template_id,
                    status: order.status,
                    created_at: order.created_at,
                    updated_at: order.updated_at,
                    items: order.items,
                };
                self.orders.push(row);
                proof {
                    let n = old(self).orders@.len();
                    assert forall|a: int, b: int| 0 <= a < self.orders@.len() && 0 <= b < self.orders@.len() && a != b
                        implies self.orders@[a].id@ != self.orders@[b].id@
                            && self.orders@[a].order_number@ != self.orders@[b].order_number@ by {
                        if a == n {
                            assert(old(self).orders@[b].id@ != order.id@);
                        } else if b == n {
                            assert(old(self).orders@[a].id@ != order.id@);
                        }
                    }
                }
                Ok(true)
            },
        }
    }

    /// Accepts one order submission on day `today` at time `now` and returns
    /// its number: numbering (when the order has none), customer resolution,
    /// the order row, stock deduction for a new order, and the customer's
    /// purchase stamp (not for order snapshots). See `save_order_ok`.
    pub fn save_order_at(&mut self, order: Order, now: &str, today: &DateParts) -> (r: Result<String, StoreError>)
        requires
            old(self).wf(),
        ensures
            final(self).wf(),
            save_order_ok(*old(self), *final(self), order, now@, *today, r),
    {
        let ghost o0 = order;
        let mut order = order;
        let number = if order.order_number.unicode_len() == 0 {
            let g = match &self.settings {
                Some(s) => self.generate_order_number_on(s, today),
                None => {
                    let d = default_settings(now);
                    self.generate_order_number_on(&d, today)
                },
            };
            order.order_number = g.clone();
            g
        } else {
            order.order_number.clone()
        };
        order.updated_at = owned(now);
        let ghost o1 = order;
        assert(numbered(o0, o1, submitted_number(old(self).orders@, old(self).settings, o0, *today), now@));
        assert(resolved_id(self.customers@, o1) == resolved_id(self.customers@, o0));
        self.resolve_order_customer(&mut order, now);
        let rid = order.customer_id.clone();
        let lines = stock_lines(&order.items);
        let ghost o2 = order;
        let ghost mid = self.customers@;
        let inserted = match self.persist_order(order) {
            Ok(b) => b,
            Err(e) => {
                proof {
                    let num = submitted_number(old(self).orders@, old(self).settings, o0, *today);
                    assert(o2.order_number@ == num);
                    assert(o2.items == o0.items);
                    assert(stages_ok(*old(self), *self, o0, o1, o2, mid, now@, *today, Err(e)));
                }
                return Err(e);
            },
        };
        let ghost s3 = *self;
        if inserted {
            self.deduct_stock_batch(&lines, now);
        }
        if classify(rid.as_str()) != CustomerKind::OrderSnapshot {
            self.touch_customer(rid.as_str(), now);
            proof {
                let i = customer_at(s3.customers@, rid@);
                let j = customer_at(self.customers@, rid@);
                assert(self.customers@[i].id@ == rid@);
                assert(has_customer(self.customers@, rid@));
                assert(self.customers@[j].id@ == rid@);
            }
        }
        proof {
            let num = submitted_number(old(self).orders@, old(self).settings, o0, *today);
            let rid0 = resolved_id(old(self).customers@, o0);
            let taken = number_taken(old(self).orders@, num, o0.id@);
            let is_new = !has_order(old(self).orders@, o0.id@);
            assert(o2.order_number@ == num);
            assert(rid@ == rid0);
            assert(number@ == num);
            assert(!taken);
            assert(is_new == inserted);
            assert(self.orders == s3.orders);
            if inserted {
                let k = s3.orders@.len() - 1;
                assert(self.orders@[k] == row_of(o2));
                assert(0 <= k < self.orders@.len() && self.orders@[k].id@ == o0.id@
                    && self.orders@[k].customer_id@ == rid0 && self.orders@[k].order_number@ == num);
            } else {
                let i = choose|i: int| 0 <= i < old(self).orders@.len() && old(self).orders@[i].id@ == o2.id@
                    && s3.orders@ == old(self).orders@.update(i, row_updated(old(self).orders@[i], o2));
                assert(self.orders@[i].id@ == o0.id@
                    && self.orders@[i].customer_id@ == rid0 && self.orders@[i].order_number@ == num);
            }
            assert(has_customer(self.customers@, rid0));
            if is_new {
                let tp = choose|tp: Seq<Seq<Product>>| {
                    &&& tp.len() == lines@.len() + 1
                    &&& tp[0] == s3.products@
                    &&& tp[lines@.len() as int] == self.products@
                    &&& forall|k: int| 0 <= k < lines@.len() ==> #[trigger] deduct_step(tp[k], tp[k + 1], lines@[k].0@, lines@[k].1, now@)
                };
                assert forall|k: int| 0 <= k < o0.items@.len() implies
                    #[trigger] deduct_step(tp[k], tp[k + 1], o0.items@[k].id@, o0.items@[k].quantity, now@) by {
                    assert(lines@[k].0@ == o2.items@[k].id@);
                    assert(deduct_step(tp[k], tp[k + 1], lines@[k].0@, lines@[k].1, now@));
                }
                assert(tp[0] == old(self).products@);
            }
            if kind_of(rid0) != CustomerKind::OrderSnapshot {
                let c = self.customers@[customer_at(self.customers@, rid0)];
                assert(opt_view(c.last_purchase_at) == Some(now@) && c.updated_at@ == now@);
            }
            assert(stages_ok(*old(self), *self, o0, o1, o2, mid, now@, *today, Ok(number)));
        }
        Ok(number)
    }

    /// Accepts one order submission, on the clock's date and time: see
    /// `save_order_at`, which this calls. Where the clock gives no time it
    /// fails with `ClockUnavailable` and changes nothing.
    pub fn save_order(&mut self, order: Order) -> (r: Result<String, StoreError>)
        requires
            old(self).wf(),
        ensures
            final(self).wf(),
            r == Err::<String, StoreError>(StoreError::ClockUnavailable) ==> final(self).customers@ == old(self).customers@
                && final(self).orders@ == old(self).orders@ && final(self).products@ == old(self).products@,
            r != Err::<String, StoreError>(StoreError::ClockUnavailable) ==> exists|now: Seq<char>, d: DateParts|
                #[trigger] save_order_ok(*old(self), *final(self), order, now, d, r),
    {
        match crate::clock::clock_now() {
            Some((today, stamp)) => self.save_order_at(order, stamp.as_str(), &today),
            None => Err(StoreError::ClockUnavailable),
        }
    }

    /// Every order with its customer row (a blank customer where the row is
    /// gone) and its lines, in table order.
    pub fn get_all_orders(&self) -> (r: Vec<Order>)
        requires
            self.wf(),
        ensures
            r@.len() == self.orders@.len(),
            forall|i: int| 0 <= i < r@.len() ==> read_back(#[trigger] r@[i], self.orders@[i], self.customers@),
    {
        let n = self.orders.len();
        let mut out: Vec<Order> = Vec::new();
        let mut i: usize = 0;
        while i < n
            invariant
                self.wf(),
                n == self.orders@.len(),
                i <= n,
                out@.len() == i,
                forall|k: int| 0 <= k < i ==> read_back(#[trigger] out@[k], self.orders@[k], self.customers@),
            decreases n - i,
        {
            let row = &self.orders[i];
            let customer = match self.get_customer_by_id(row.customer_id.as_str()) {
                Ok(c) => c,
                Err(_) => Customer::blank(),
            };
            let lines = lines_read_back(&row.items);
            let items = sort_by_position(&lines);
            assert(lines@.len() == row.items@.len()
                && (forall|k: int| 0 <= k < lines@.len() ==> line_read_back(#[trigger] lines@[k], row.items@[k]))
                && items@.to_multiset() == lines@.to_multiset());
            out.push(Order {
                id: row.id.clone(),
                order_number: row.order_number.clone(),
                date: row.date.clone(),
                customer_id: row.customer_id.clone(),
                customer,
                items,
                total_amount: row.total_amount,
                remark: crate::models::copy_text(&row.remark),
                template_id: crate::models::copy_text(&row.template_id),
                status: row.status.clone(),
                created_at: row.created_at.clone(),
                updated_at: row.updated_at.clone(),
            });
            i += 1;
        }
        out
    }
}

} // verus!
