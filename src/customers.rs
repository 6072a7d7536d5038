//! Customer identity: merging on write, explicit merges, and deletion that
//! keeps every order pointing at some customer row.
use vstd::prelude::*;
use crate::text::{is_blank, trimmed, trim, blank, owned, concat};
use crate::models::{copy_text, opt_view, Customer};
use crate::customer_kind::deleted_prefix;
use crate::store::{
    Store, OrderRow, StoreError, has_customer, customer_at, customers_unique, orders_unique,
    best_identity,
};

verus! {

/// The incoming value, trimmed, unless it is blank; else the existing one.
pub open spec fn overlay(incoming: Seq<char>, existing: Seq<char>) -> Seq<char> {
    if is_blank(incoming) {
        existing
    } else {
        trimmed(incoming)
    }
}

/// The kept value unless it is blank; else the fallback.
pub open spec fn prefer(kept: Seq<char>, fallback: Seq<char>) -> Seq<char> {
    if is_blank(kept) {
        fallback
    } else {
        kept
    }
}

pub open spec fn or_else(a: Option<String>, b: Option<String>) -> Option<String> {
    if a is Some {
        a
    } else {
        b
    }
}

/// `m` is what an incoming record makes of the existing row it matched.
pub open spec fn is_identity_merge(m: Customer, existing: Customer, incoming: Customer, now: Seq<char>) -> bool {
    &&& m.id == existing.id
    &&& m.name@ == overlay(incoming.name@, existing.name@)
    &&& m.phone@ == overlay(incoming.phone@, existing.phone@)
    &&& m.license_plate@ == overlay(incoming.license_plate@, existing.license_plate@)
    &&& m.address == or_else(incoming.address, existing.address)
    &&& m.last_purchase_at == existing.last_purchase_at
    &&& m.created_at == existing.created_at
    &&& m.updated_at@ == now
}

/// `m` is the target of an explicit merge after taking in the source.
pub open spec fn is_explicit_merge(m: Customer, target: Customer, source: Customer, now: Seq<char>) -> bool {
    &&& m.id == target.id
    &&& m.name@ == prefer(target.name@, source.name@)
    &&& m.phone@ == prefer(target.phone@, source.phone@)
    &&& m.license_plate@ == prefer(target.license_plate@, source.license_plate@)
    &&& m.address == or_else(target.address, source.address)
    &&& m.last_purchase_at == or_else(target.last_purchase_at, source.last_purchase_at)
    &&& m.created_at == target.created_at
    &&& m.updated_at@ == now
}

/// What an update statement leaves of `row` when given `c`: the names,
/// phone, plate, address and update time are taken over.
pub open spec fn is_row_update(r: Customer, row: Customer, c: Customer) -> bool {
    &&& r.id == row.id
    &&& r.name == c.name
    &&& r.phone == c.phone
    &&& r.license_plate == c.license_plate
    &&& r.address == c.address
    &&& r.last_purchase_at == row.last_purchase_at
    &&& r.created_at == row.created_at
    &&& r.updated_at == c.updated_at
}

/// Order `after` is order `before` moved from customer `from` to `to`.
pub open spec fn relinked(before: OrderRow, after: OrderRow, from: Seq<char>, to: Seq<char>, now: Seq<char>) -> bool {
    if before.customer_id@ == from {
        &&& after.customer_id@ == to
        &&& after.updated_at@ == now
        &&& after == OrderRow { customer_id: after.customer_id, updated_at: after.updated_at, ..before }
    } else {
        after == before
    }
}

pub open spec fn relink_all(os0: Seq<OrderRow>, os1: Seq<OrderRow>, from: Seq<char>, to: Seq<char>, now: Seq<char>) -> bool {
    os1.len() == os0.len() && forall|i: int| 0 <= i < os0.len() ==> relinked(#[trigger] os0[i], os1[i], from, to, now)
}

/// Customer `id`, if there is one, has its last purchase and update time
/// set to `now`; nothing else changes.
pub open spec fn touched(cs0: Seq<Customer>, cs1: Seq<Customer>, id: Seq<char>, now: Seq<char>) -> bool {
    if has_customer(cs0, id) {
        let i = customer_at(cs0, id);
        let c = cs1[i];
        &&& cs1.len() == cs0.len()
        &&& opt_view(c.last_purchase_at) == Some(now)
        &&& c.updated_at@ == now
        &&& c == Customer { last_purchase_at: c.last_purchase_at, updated_at: c.updated_at, ..cs0[i] }
        &&& forall|j: int| 0 <= j < cs1.len() && j != i ==> cs1[j] == cs0[j]
    } else {
        cs1 == cs0
    }
}

pub open spec fn placeholder_id(id: Seq<char>) -> Seq<char> {
    deleted_prefix() + id
}

pub open spec fn placeholder_name() -> Seq<char> {
    "已删除客户（历史保留）"@
}

pub open spec fn placeholder_note(id: Seq<char>) -> Seq<char> {
    "原客户ID: "@ + id
}

/// `c` is the placeholder row that stands in for deleted customer `id`.
pub open spec fn is_placeholder_for(c: Customer, id: Seq<char>, now: Seq<char>) -> bool {
    &&& c.id@ == placeholder_id(id)
    &&& c.name@ == placeholder_name()
    &&& c.phone@.len() == 0
    &&& c.license_plate@.len() == 0
    &&& opt_view(c.address) == Some(placeholder_note(id))
    &&& c.last_purchase_at is None
    &&& c.created_at@ == now
    &&& c.updated_at@ == now
}

/// The placeholder for `id` is added to `cs0`, unless it is there already.
pub open spec fn placeholder_stage(cs0: Seq<Customer>, mid: Seq<Customer>, id: Seq<char>, now: Seq<char>) -> bool {
    if has_customer(cs0, placeholder_id(id)) {
        mid == cs0
    } else {
        mid.len() == cs0.len() + 1 && mid.drop_last() == cs0 && is_placeholder_for(mid.last(), id, now)
    }
}

/// The row with id `id`, if any, is removed.
pub open spec fn removal_stage(mid: Seq<Customer>, cs1: Seq<Customer>, id: Seq<char>) -> bool {
    if has_customer(mid, id) {
        cs1 == mid.remove(customer_at(mid, id))
    } else {
        cs1 == mid
    }
}

/// The tables before and after deleting customer `id`.
pub open spec fn delete_step(
    cs0: Seq<Customer>,
    os0: Seq<OrderRow>,
    cs1: Seq<Customer>,
    os1: Seq<OrderRow>,
    id: Seq<char>,
    now: Seq<char>,
) -> bool {
    &&& exists|mid: Seq<Customer>| placeholder_stage(cs0, mid, id, now) && #[trigger] removal_stage(mid, cs1, id)
    &&& relink_all(os0, os1, id, placeholder_id(id), now)
}

proof fn lemma_remove_row(cs: Seq<Customer>, k: int)
    requires
        customers_unique(cs),
        0 <= k < cs.len(),
    ensures
        customers_unique(cs.remove(k)),
        !has_customer(cs.remove(k), cs[k].id@),
        forall|id: Seq<char>| id != cs[k].id@ && has_customer(cs, id) ==> #[trigger] has_customer(cs.remove(k), id),
{
    let r = cs.remove(k);
    assert forall|a: int, b: int| 0 <= a < r.len() && 0 <= b < r.len() && a != b implies r[a].id@ != r[b].id@ by {
        let a0 = if a < k { a } else { a + 1 };
        let b0 = if b < k { b } else { b + 1 };
        assert(r[a] == cs[a0] && r[b] == cs[b0]);
    }
    assert forall|j: int| 0 <= j < r.len() implies r[j].id@ != cs[k].id@ by {
        let j0 = if j < k { j } else { j + 1 };
        assert(r[j] == cs[j0]);
    }
    assert forall|id: Seq<char>| id != cs[k].id@ && has_customer(cs, id) implies #[trigger] has_customer(r, id) by {
        let j = choose|j: int| 0 <= j < cs.len() && cs[j].id@ == id;
        if j < k {
            assert(r[j] == cs[j]);
        } else {
            assert(j != k);
            assert(r[j - 1] == cs[j]);
        }
    }
}

pub fn overlay_text(incoming: &str, existing: &str) -> (r: String)
    ensures
        r@ == overlay(incoming@, existing@),
{
    let t = trim(incoming);
    if t.unicode_len() == 0 {
        owned(existing)
    } else {
        t
    }
}

pub fn prefer_text(kept: &String, fallback: &String) -> (r: String)
    ensures
        r@ == prefer(kept@, fallback@),
{
    if blank(kept.as_str()) {
        fallback.clone()
    } else {
        kept.clone()
    }
}

fn first_of(a: &Option<String>, b: &Option<String>) -> (r: Option<String>)
    ensures
        r == or_else(*a, *b),
{
    if a.is_some() {
        copy_text(a)
    } else {
        copy_text(b)
    }
}

/// The row that an incoming record makes of the existing one it matched.
pub fn merge_incoming(existing: &Customer, incoming: &Customer, now: &str) -> (m: Customer)
    ensures
        is_identity_merge(m, *existing, *incoming, now@),
{
    Customer {
        id: existing.id.clone(),
        name: overlay_text(incoming.name.as_str(), existing.name.as_str()),
        phone: overlay_text(incoming.phone.as_str(), existing.phone.as_str()),
        license_plate: overlay_text(incoming.license_plate.as_str(), existing.license_plate.as_str()),
        address: first_of(&incoming.address, &existing.address),
        last_purchase_at: copy_text(&existing.last_purchase_at),
        created_at: existing.created_at.clone(),
        updated_at: owned(now),
    }
}

/// The target row of an explicit merge, after taking in the source.
pub fn merge_pair(target: &Customer, source: &Customer, now: &str) -> (m: Customer)
    ensures
        is_explicit_merge(m, *target, *source, now@),
{
    Customer {
        id: target.id.clone(),
        name: prefer_text(&target.name, &source.name),
        phone: prefer_text(&target.phone, &source.phone),
        license_plate: prefer_text(&target.license_plate, &source.license_plate),
        address: first_of(&target.address, &source.address),
        last_purchase_at: first_of(&target.last_purchase_at, &source.last_purchase_at),
        created_at: target.created_at.clone(),
        updated_at: owned(now),
    }
}

/// The tables before and after merging customer `a` into `b`, with the
/// result `r`.
pub open spec fn merge_ok(
    cs0: Seq<Customer>,
    os0: Seq<OrderRow>,
    cs1: Seq<Customer>,
    os1: Seq<OrderRow>,
    a: Seq<char>,
    b: Seq<char>,
    now: Seq<char>,
    r: Result<(), StoreError>,
) -> bool {
    if a == b {
        r == Err::<(), StoreError>(StoreError::SameCustomer) && cs1 == cs0 && os1 == os0
    } else if !(has_customer(cs0, a) && has_customer(cs0, b)) {
        r == Err::<(), StoreError>(StoreError::NotFound) && cs1 == cs0 && os1 == os0
    } else {
        let si = customer_at(cs0, a);
        let ti = customer_at(cs0, b);
        &&& r is Ok
        &&& exists|m: Customer| is_explicit_merge(m, cs0[ti], cs0[si], now) && cs1 == cs0.update(ti, m).remove(si)
        &&& relink_all(os0, os1, a, b, now)
        &&& !has_customer(cs1, a)
        &&& has_customer(cs1, b)
    }
}

/// A merge of a customer into itself fails and changes nothing; after a
/// merge of `a` into `b`, no row has id `a` (so looking it up fails), and
/// every order that referred to `a` refers to `b`.
pub proof fn lemma_merge_law(
    cs0: Seq<Customer>,
    os0: Seq<OrderRow>,
    cs1: Seq<Customer>,
    os1: Seq<OrderRow>,
    a: Seq<char>,
    b: Seq<char>,
    now: Seq<char>,
    r: Result<(), StoreError>,
)
    requires
        merge_ok(cs0, os0, cs1, os1, a, b, now, r),
    ensures
        a == b ==> r is Err && cs1 == cs0 && os1 == os0,
        r is Ok ==> !has_customer(cs1, a) && has_customer(cs1, b),
        r is Ok ==> os1.len() == os0.len() && forall|i: int| 0 <= i < os0.len() && (#[trigger] os0[i]).customer_id@ == a
            ==> os1[i].customer_id@ == b,
{
    if r is Ok {
        assert forall|i: int| 0 <= i < os0.len() && (#[trigger] os0[i]).customer_id@ == a implies os1[i].customer_id@ == b by {
            assert(relinked(os0[i], os1[i], a, b, now));
        }
    }
}

/// Every order names an existing customer row.
pub open spec fn orders_linked(cs: Seq<Customer>, os: Seq<OrderRow>) -> bool {
    forall|i: int| 0 <= i < os.len() ==> has_customer(cs, #[trigger] os[i].customer_id@)
}

/// After deleting customer `id`, a `deleted_<id>` row exists, no row has id
/// `id`, and every order that referred to `id` refers to `deleted_<id>`;
/// no other order changes. Where every order named an existing customer
/// before, every order still does.
pub proof fn lemma_delete_law(
    cs0: Seq<Customer>,
    os0: Seq<OrderRow>,
    cs1: Seq<Customer>,
    os1: Seq<OrderRow>,
    id: Seq<char>,
    now: Seq<char>,
)
    requires
        delete_step(cs0, os0, cs1, os1, id, now),
        customers_unique(cs0),
    ensures
        has_customer(cs1, placeholder_id(id)),
        !has_customer(cs1, id),
        os1.len() == os0.len(),
        forall|i: int| 0 <= i < os0.len() ==> if (#[trigger] os0[i]).customer_id@ == id {
            os1[i].customer_id@ == placeholder_id(id)
        } else {
            os1[i] == os0[i]
        },
        orders_linked(cs0, os0) ==> orders_linked(cs1, os1),
{
    let pid = placeholder_id(id);
    assert(pid.len() == id.len() + 8);
    assert(pid != id);
    let mid = choose|mid: Seq<Customer>| placeholder_stage(cs0, mid, id, now) && #[trigger] removal_stage(mid, cs1, id);
    assert(has_customer(mid, pid)) by {
        if !has_customer(cs0, pid) {
            assert(mid[mid.len() - 1].id@ == pid);
        }
    }
    assert(customers_unique(mid)) by {
        if !has_customer(cs0, pid) {
            assert forall|x: int, y: int| 0 <= x < mid.len() && 0 <= y < mid.len() && x != y implies mid[x].id@ != mid[y].id@ by {
                if x < cs0.len() && y < cs0.len() {
                    assert(mid[x] == cs0[x] && mid[y] == cs0[y]);
                } else if x < cs0.len() {
                    assert(mid[x] == cs0[x]);
                } else if y < cs0.len() {
                    assert(mid[y] == cs0[y]);
                }
            }
        }
    }
    if has_customer(mid, id) {
        let k = customer_at(mid, id);
        lemma_remove_row(mid, k);
    }
    assert forall|i: int| 0 <= i < os0.len() implies if (#[trigger] os0[i]).customer_id@ == id {
        os1[i].customer_id@ == pid
    } else {
        os1[i] == os0[i]
    } by {
        assert(relinked(os0[i], os1[i], id, pid, now));
    }
    if orders_linked(cs0, os0) {
        assert forall|i: int| 0 <= i < os1.len() implies has_customer(cs1, #[trigger] os1[i].customer_id@) by {
            assert(relinked(os0[i], os1[i], id, pid, now));
            let x = os0[i].customer_id@;
            if x != id {
                assert(has_customer(cs0, x));
                let j = choose|j: int| 0 <= j < cs0.len() && cs0[j].id@ == x;
                if !has_customer(cs0, pid) {
                    assert(mid.drop_last()[j] == cs0[j]);
                }
                assert(mid[j].id@ == x);
                assert(has_customer(mid, x));
            }
        }
    }
}

impl Store {
    /// Points every order of customer `from` at customer `to`.
    pub fn relink_orders(&mut self, from: &str, to: &str, now: &str)
        requires
            old(self).wf(),
        ensures
            final(self).wf(),
            relink_all(old(self).orders@, final(self).orders@, from@, to@, now@),
            final(self).customers == old(self).customers,
            final(self).products == old(self).products,
            final(self).settings == old(self).settings,
    {
        let n = self.orders.len();
        let mut i: usize = 0;
        while i < n
            invariant
                n == self.orders@.len(),
                n == old(self).orders@.len(),
                i <= n,
                self.customers == old(self).customers,
                self.products == old(self).products,
                self.settings == old(self).settings,
                forall|k: int| 0 <= k < i ==> relinked(#[trigger] old(self).orders@[k], self.orders@[k], from@, to@, now@),
                forall|k: int| i <= k < n ==> #[trigger] self.orders@[k] == old(self).orders@[k],
            decreases n - i,
        {
            if crate::text::str_eq(self.orders[i].customer_id.as_str(), from) {
                self.orders[i].customer_id = owned(to);
                self.orders[i].updated_at = owned(now);
            }
            i += 1;
        }
        proof {
            assert forall|a: int, b: int|
                0 <= a < n && 0 <= b < n && a != b implies self.orders@[a].id@ != self.orders@[b].id@
                    && self.orders@[a].order_number@ != self.orders@[b].order_number@ by {
                assert(relinked(old(self).orders@[a], self.orders@[a], from@, to@, now@));
                assert(relinked(old(self).orders@[b], self.orders@[b], from@, to@, now@));
            }
        }
    }

    /// Stores `customer` with identity resolution: a regular row with the
    /// same non-empty phone or plate takes in its non-blank fields (see
    /// `is_identity_merge`); with no such row, the row with the same id is
    /// updated, or the record is added.
    pub fn save_customer(&mut self, customer: Customer, now: &str)
        requires
            old(self).wf(),
        ensures
            final(self).wf(),
            final(self).orders == old(self).orders,
            final(self).products == old(self).products,
            final(self).settings == old(self).settings,
            match best_identity(old(self).customers@, customer.phone@, customer.license_plate@) {
                Some(k) => exists|m: Customer| is_identity_merge(m, old(self).customers@[k], customer, now@)
                    && final(self).customers@ == old(self).customers@.update(k, m),
                None => if has_customer(old(self).customers@, customer.id@) {
                    let i = customer_at(old(self).customers@, customer.id@);
                    exists|r: Customer| is_row_update(r, old(self).customers@[i], customer)
                        && final(self).customers@ == old(self).customers@.update(i, r)
                } else {
                    final(self).customers@ == old(self).customers@.push(customer)
                },
            },
    {
        match self.find_by_identity(customer.phone.as_str(), customer.license_plate.as_str()) {
            Some(k) => {
                let m = merge_incoming(&self.customers[k], &customer, now);
                let ghost gm = m;
                self.customers.set(k, m);
                proof { self.lemma_same_ids_wf(old(self).customers@, k as int); }
                assert(is_identity_merge(gm, old(self).customers@[k as int], customer, now@)
                    && self.customers@ == old(self).customers@.update(k as int, gm));
            },
            None => match self.find_customer(customer.id.as_str()) {
                Some(i) => {
                    let row = &self.customers[i];
                    let r = Customer {
                        id: row.id.clone(),
                        name: customer.name,
                        phone: customer.phone,
                        license_plate: customer.license_plate,
                        address: customer.address,
                        last_purchase_at: copy_text(&row.last_purchase_at),
                        created_at: row.created_at.clone(),
                        updated_at: customer.updated_at,
                    };
                    let ghost gr = r;
                    self.customers.set(i, r);
                    proof { self.lemma_same_ids_wf(old(self).customers@, i as int); }
                    assert(is_row_update(gr, old(self).customers@[i as int], customer)
                        && self.customers@ == old(self).customers@.update(i as int, gr));
                },
                None => {
                    self.insert_customer(customer);
                },
            },
        }
    }

    pub(crate) proof fn lemma_same_ids_wf(&self, before: Seq<Customer>, k: int)
        requires
            customers_unique(before),
            orders_unique(self.orders@),
            crate::store::products_unique(self.products@),
            0 <= k < before.len(),
            self.customers@.len() == before.len(),
            self.customers@[k].id@ == before[k].id@,
            forall|j: int| 0 <= j < before.len() && j != k ==> self.customers@[j] == before[j],
        ensures
            self.wf(),
    {
        assert forall|a: int, b: int|
            0 <= a < before.len() && 0 <= b < before.len() && a != b implies
                self.customers@[a].id@ != self.customers@[b].id@ by {
            assert(before[a].id@ != before[b].id@);
        }
    }

    /// Stamps the customer's last purchase and update time.
    pub fn touch_customer(&mut self, id: &str, now: &str)
        requires
            old(self).wf(),
        ensures
            final(self).wf(),
            final(self).orders == old(self).orders,
            final(self).products == old(self).products,
            final(self).settings == old(self).settings,
            touched(old(self).customers@, final(self).customers@, id@, now@),
    {
        match self.find_customer(id) {
            Some(i) => {
                self.customers[i].last_purchase_at = Some(owned(now));
                self.customers[i].updated_at = owned(now);
                proof { self.lemma_same_ids_wf(old(self).customers@, i as int); }
            },
            None => {},
        }
    }

    /// Deletes customer `id`. First a placeholder row `deleted_<id>` is
    /// made sure of, then the customer's orders are moved to it, and only
    /// then is the row removed: every order keeps a customer row.
    pub fn delete_customer(&mut self, id: &str, now: &str)
        requires
            old(self).wf(),
        ensures
            final(self).wf(),
            delete_step(old(self).customers@, old(self).orders@, final(self).customers@, final(self).orders@, id@, now@),
            has_customer(final(self).customers@, placeholder_id(id@)),
            !has_customer(final(self).customers@, id@),
            orders_linked(old(self).customers@, old(self).orders@)
                ==> orders_linked(final(self).customers@, final(self).orders@),
            final(self).products == old(self).products,
            final(self).settings == old(self).settings,
    {
        proof {
            reveal_strlit("deleted_");
            assert("deleted_"@ =~= deleted_prefix());
        }
        let pid = concat("deleted_", id);
        assert(pid@ == placeholder_id(id@));
        assert(pid@ != id@) by {
            assert(pid@.len() == id@.len() + 8);
        }
        if self.find_customer(pid.as_str()).is_none() {
            let p = Customer {
                id: pid.clone(),
                name: owned("已删除客户（历史保留）"),
                phone: String::new(),
                license_plate: String::new(),
                address: Some(concat("原客户ID: ", id)),
                last_purchase_at: None,
                created_at: owned(now),
                updated_at: owned(now),
            };
            self.insert_customer(p);
            assert(self.customers@.drop_last() =~= old(self).customers@);
            assert(self.customers@[self.customers@.len() - 1] == p);
        }
        let ghost mid = self.customers@;
        assert(placeholder_stage(old(self).customers@, mid, id@, now@));
        proof {
            let k = self.customers@.len() - 1;
            if has_customer(old(self).customers@, pid@) {
            } else {
                assert(self.customers@[k].id@ == pid@);
            }
            assert(has_customer(mid, pid@));
        }
        self.relink_orders(id, pid.as_str(), now);
        match self.find_customer(id) {
            Some(i) => {
                proof { lemma_remove_row(self.customers@, i as int); }
                self.customers.remove(i);
            },
            None => {},
        }
        assert(removal_stage(mid, self.customers@, id@));
        proof {
            lemma_delete_law(old(self).customers@, old(self).orders@, self.customers@, self.orders@, id@, now@);
        }
    }

    /// Deletes the customers one after the other, as `delete_customer`.
    pub fn batch_delete_customers(&mut self, ids: &Vec<String>, now: &str)
        requires
            old(self).wf(),
        ensures
            final(self).wf(),
            final(self).products == old(self).products,
            final(self).settings == old(self).settings,
            exists|tc: Seq<Seq<Customer>>, to: Seq<Seq<OrderRow>>| {
                &&& tc.len() == ids@.len() + 1
                &&& to.len() == ids@.len() + 1
                &&& tc[0] == old(self).customers@
                &&& to[0] == old(self).orders@
                &&& tc[ids@.len() as int] == final(self).customers@
                &&& to[ids@.len() as int] == final(self).orders@
                &&& forall|k: int| 0 <= k < ids@.len() ==> #[trigger] delete_step(tc[k], to[k], tc[k + 1], to[k + 1], ids@[k]@, now@)
            },
    {
        let n = ids.len();
        let mut i: usize = 0;
        let ghost mut tc: Seq<Seq<Customer>> = seq![self.customers@];
        let ghost mut to: Seq<Seq<OrderRow>> = seq![self.orders@];
        while i < n
            invariant
                n == ids@.len(),
                i <= n,
                self.wf(),
                self.products == old(self).products,
                self.settings == old(self).settings,
                tc.len() == i + 1,
                to.len() == i + 1,
                tc[0] == old(self).customers@,
                to[0] == old(self).orders@,
                tc[i as int] == self.customers@,
                to[i as int] == self.orders@,
                forall|k: int| 0 <= k < i ==> #[trigger] delete_step(tc[k], to[k], tc[k + 1], to[k + 1], ids@[k]@, now@),
            decreases n - i,
        {
            self.delete_customer(ids[i].as_str(), now);
            proof {
                tc = tc.push(self.customers@);
                to = to.push(self.orders@);
            }
            i += 1;
        }
    }

    /// Merges customer `source_id` into `target_id`: the target keeps its
    /// own non-blank fields and takes the source's for the blank ones (see
    /// `is_explicit_merge`), the source's orders move to the target, and the
    /// source row is deleted. Fails when the ids are equal or a row is
    /// missing, changing nothing.
    pub fn merge_customers(&mut self, source_id: &str, target_id: &str, now: &str) -> (r: Result<(), StoreError>)
        requires
            old(self).wf(),
        ensures
            final(self).wf(),
            final(self).products == old(self).products,
            final(self).settings == old(self).settings,
            merge_ok(old(self).customers@, old(self).orders@, final(self).customers@, final(self).orders@, source_id@, target_id@, now@, r),
    {
        if crate::text::str_eq(source_id, target_id) {
            return Err(StoreError::SameCustomer);
        }
        let si = match self.find_customer(source_id) {
            Some(i) => i,
            None => { return Err(StoreError::NotFound); },
        };
        let ti = match self.find_customer(target_id) {
            Some(i) => i,
            None => { return Err(StoreError::NotFound); },
        };
        let m = merge_pair(&self.customers[ti], &self.customers[si], now);
        let ghost gm = m;
        self.customers.set(ti, m);
        proof { self.lemma_same_ids_wf(old(self).customers@, ti as int); }
        self.relink_orders(source_id, target_id, now);
        let ghost mid = self.customers@;
        proof {
            lemma_remove_row(mid, si as int);
            assert(mid[ti as int].id@ == target_id@);
            assert(has_customer(mid, target_id@));
        }
        self.customers.remove(si);
        assert(is_explicit_merge(gm, old(self).customers@[ti as int], old(self).customers@[si as int], now@)
            && self.customers@ == old(self).customers@.update(ti as int, gm).remove(si as int));
        Ok(())
    }
}

} // verus!
