//! The storage gateway: the customer, order and product tables, with the
//! lookups and row operations that the pipeline is built from.
use vstd::prelude::*;
use crate::text::{str_eq, str_lt, seq_lt, contains_folded, has_folded};
use crate::models::{AppSettings, Customer, OrderItem, Product, RequiredFields};
use crate::customer_kind::{classify, is_regular, CustomerKind};
use crate::sorting::{sort_by_name, sorted_by_name};

verus! {

/// An order row with the lines it owns.
#[derive(Clone, Debug)]
pub struct OrderRow {
    pub id: String,
    pub order_number: String,
    pub date: String,
    pub customer_id: String,
    pub total_amount: i64,
    pub remark: Option<String>,
    pub template_id: Option<String>,
    pub status: String,
    pub created_at: String,
    pub updated_at: String,
    pub items: Vec<OrderItem>,
}

#[derive(Clone, Copy, Debug, PartialEq, Eq, Structural)]
pub enum StoreError {
    /// No row has the id asked for.
    NotFound,
    /// A merge named the same customer twice.
    SameCustomer,
    /// Another order already holds the order number.
    DuplicateOrderNumber,
    /// Two lines of one order name the same product.
    DuplicateItem,
    /// The system clock gave no usable time.
    ClockUnavailable,
}

impl StoreError {
    /// A message for the user.
    pub fn message(&self) -> (r: String)
        ensures
            r@ == match *self {
                StoreError::NotFound => "no such record"@,
                StoreError::SameCustomer => "源客户和目标客户不能相同"@,
                StoreError::DuplicateOrderNumber => "order number already in use"@,
                StoreError::DuplicateItem => "an order lists the same product twice"@,
                StoreError::ClockUnavailable => "the system clock is not available"@,
            },
    {
        match self {
            StoreError::NotFound => crate::text::owned("no such record"),
            StoreError::SameCustomer => crate::text::owned("源客户和目标客户不能相同"),
            StoreError::DuplicateOrderNumber => crate::text::owned("order number already in use"),
            StoreError::DuplicateItem => crate::text::owned("an order lists the same product twice"),
            StoreError::ClockUnavailable => crate::text::owned("the system clock is not available"),
        }
    }
}

/// The tables. Row ids are unique in each table, and so are order numbers.
#[derive(Clone, Debug)]
pub struct Store {
    pub customers: Vec<Customer>,
    pub orders: Vec<OrderRow>,
    pub products: Vec<Product>,
    pub settings: Option<AppSettings>,
}

pub open spec fn customers_unique(cs: Seq<Customer>) -> bool {
    forall|i: int, j: int| 0 <= i < cs.len() && 0 <= j < cs.len() && i != j ==> cs[i].id@ != cs[j].id@
}

pub open spec fn orders_unique(os: Seq<OrderRow>) -> bool {
    forall|i: int, j: int| 0 <= i < os.len() && 0 <= j < os.len() && i != j
        ==> os[i].id@ != os[j].id@ && os[i].order_number@ != os[j].order_number@
}

pub open spec fn products_unique(ps: Seq<Product>) -> bool {
    forall|i: int, j: int| 0 <= i < ps.len() && 0 <= j < ps.len() && i != j ==> ps[i].id@ != ps[j].id@
}

pub open spec fn has_customer(cs: Seq<Customer>, id: Seq<char>) -> bool {
    exists|i: int| 0 <= i < cs.len() && cs[i].id@ == id
}

/// The row of `cs` with id `id` (meaningful where there is one).
pub open spec fn customer_at(cs: Seq<Customer>, id: Seq<char>) -> int {
    choose|i: int| 0 <= i < cs.len() && cs[i].id@ == id
}

pub open spec fn has_order(os: Seq<OrderRow>, id: Seq<char>) -> bool {
    exists|i: int| 0 <= i < os.len() && os[i].id@ == id
}

pub open spec fn has_product(ps: Seq<Product>, id: Seq<char>) -> bool {
    exists|i: int| 0 <= i < ps.len() && ps[i].id@ == id
}

/// The customer matches an identity key: same non-empty phone, or same
/// non-empty plate. Only regular customers take part.
pub open spec fn identity_match(c: Customer, phone: Seq<char>, plate: Seq<char>) -> bool {
    is_regular(c.id@) && ((phone.len() > 0 && c.phone@ == phone) || (plate.len() > 0 && c.license_plate@ == plate))
}

/// The most recently updated match (the first one among equals).
pub open spec fn best_identity(cs: Seq<Customer>, phone: Seq<char>, plate: Seq<char>) -> Option<int>
    decreases cs.len(),
{
    if cs.len() == 0 {
        None
    } else {
        let prev = best_identity(cs.drop_last(), phone, plate);
        let k = cs.len() - 1;
        if identity_match(cs[k], phone, plate) && (prev is None || seq_lt(
            cs[prev.unwrap()].updated_at@,
            cs[k].updated_at@,
        )) {
            Some(k)
        } else {
            prev
        }
    }
}

proof fn lemma_best_identity_bounds(cs: Seq<Customer>, phone: Seq<char>, plate: Seq<char>)
    ensures
        best_identity(cs, phone, plate) is Some ==> {
            let k = best_identity(cs, phone, plate).unwrap();
            0 <= k < cs.len() && identity_match(cs[k], phone, plate)
        },
    decreases cs.len(),
{
    if cs.len() > 0 {
        lemma_best_identity_bounds(cs.drop_last(), phone, plate);
    }
}

/// Regular customers, in table order.
pub open spec fn listed(cs: Seq<Customer>) -> Seq<Customer> {
    cs.filter(|c: Customer| is_regular(c.id@))
}

/// A regular customer whose name, plate or phone holds `q`, ignoring ASCII
/// case. `%` and `_` in `q` stand for themselves: the query is a plain text,
/// not an SQL `LIKE` pattern with wildcards.
pub open spec fn found_by(c: Customer, q: Seq<char>) -> bool {
    is_regular(c.id@) && (has_folded(c.name@, q) || has_folded(c.license_plate@, q) || has_folded(c.phone@, q))
}

/// Validation flags with nothing required.
pub open spec fn nothing_required() -> RequiredFields {
    RequiredFields {
        require_customer_name: false,
        require_customer_phone: false,
        require_customer_plate: false,
        require_date: false,
        require_order_number: false,
        require_order_remark: false,
        require_total_amount: false,
        require_item_name: false,
        require_item_unit: false,
        require_item_quantity: false,
        require_item_price: false,
        require_item_total: false,
        require_item_remark: false,
    }
}

/// The validation flags a settings row holds once stored.
pub open spec fn stored_validation(v: Option<RequiredFields>) -> RequiredFields {
    match v {
        Some(f) => f,
        None => nothing_required(),
    }
}

pub fn no_required_fields() -> (r: RequiredFields)
    ensures
        r == nothing_required(),
{
    RequiredFields {
        require_customer_name: false,
        require_customer_phone: false,
        require_customer_plate: false,
        require_date: false,
        require_order_number: false,
        require_order_remark: false,
        require_total_amount: false,
        require_item_name: false,
        require_item_unit: false,
        require_item_quantity: false,
        require_item_price: false,
        require_item_total: false,
        require_item_remark: false,
    }
}

/// Two sequences with the same members agree on what holds of all members.
proof fn lemma_same_members(r: Seq<Customer>, s: Seq<Customer>, p: spec_fn(Customer) -> bool)
    requires
        r.to_multiset() == s.to_multiset(),
        forall|i: int| 0 <= i < s.len() ==> p(#[trigger] s[i]),
    ensures
        forall|i: int| 0 <= i < r.len() ==> p(#[trigger] r[i]),
{
    broadcast use vstd::seq_lib::group_to_multiset_ensures;
    assert forall|i: int| 0 <= i < r.len() implies p(#[trigger] r[i]) by {
        assert(r.contains(r[i]));
        assert(r.to_multiset().count(r[i]) > 0);
        assert(s.contains(r[i]));
    }
}

impl Store {
    pub open spec fn wf(&self) -> bool {
        &&& customers_unique(self.customers@)
        &&& orders_unique(self.orders@)
        &&& products_unique(self.products@)
    }

    /// An empty store.
    pub fn new() -> (r: Store)
        ensures
            r.wf(),
            r.customers@.len() == 0,
            r.orders@.len() == 0,
            r.products@.len() == 0,
            r.settings is None,
    {
        Store { customers: Vec::new(), orders: Vec::new(), products: Vec::new(), settings: None }
    }

    /// Position of the customer with id `id`.
    pub fn find_customer(&self, id: &str) -> (r: Option<usize>)
        requires
            self.wf(),
        ensures
            match r {
                Some(i) => i < self.customers@.len() && self.customers@[i as int].id@ == id@
                    && i == customer_at(self.customers@, id@),
                None => !has_customer(self.customers@, id@),
            },
    {
        let n = self.customers.len();
        let mut i: usize = 0;
        while i < n
            invariant
                self.wf(),
                n == self.customers@.len(),
                i <= n,
                forall|k: int| 0 <= k < i ==> self.customers@[k].id@ != id@,
            decreases n - i,
        {
            if str_eq(self.customers[i].id.as_str(), id) {
                proof {
                    assert(0 <= i < n && self.customers@[i as int].id@ == id@);
                    assert(has_customer(self.customers@, id@));
                    let j = customer_at(self.customers@, id@);
                    assert(0 <= j < n && self.customers@[j].id@ == id@);
                }
                return Some(i);
            }
            i += 1;
        }
        None
    }

    /// The customer with id `id`.
    pub fn get_customer_by_id(&self, id: &str) -> (r: Result<Customer, StoreError>)
        requires
            self.wf(),
        ensures
            has_customer(self.customers@, id@) ==> r == Ok::<Customer, StoreError>(
                self.customers@[customer_at(self.customers@, id@)],
            ),
            !has_customer(self.customers@, id@) ==> r == Err::<Customer, StoreError>(StoreError::NotFound),
    {
        match self.find_customer(id) {
            Some(i) => Ok(self.customers[i].copy()),
            None => Err(StoreError::NotFound),
        }
    }

    /// Adds a customer whose id is not taken.
    pub fn insert_customer(&mut self, c: Customer)
        requires
            old(self).wf(),
            !has_customer(old(self).customers@, c.id@),
        ensures
            final(self).wf(),
            final(self).customers@ == old(self).customers@.push(c),
            final(self).orders == old(self).orders,
            final(self).products == old(self).products,
            final(self).settings == old(self).settings,
    {
        self.customers.push(c);
    }

    /// The customer that matches `phone` or `plate`: see `best_identity`.
    pub fn find_by_identity(&self, phone: &str, plate: &str) -> (r: Option<usize>)
        ensures
            match best_identity(self.customers@, phone@, plate@) {
                Some(k) => r is Some && r.unwrap() as int == k,
                None => r is None,
            },
            r is Some ==> r.unwrap() < self.customers@.len()
                && identity_match(self.customers@[r.unwrap() as int], phone@, plate@),
    {
        let n = self.customers.len();
        let has_phone = phone.unicode_len() > 0;
        let has_plate = plate.unicode_len() > 0;
        let mut best: Option<usize> = None;
        let mut i: usize = 0;
        assert(self.customers@.subrange(0, 0) =~= Seq::<Customer>::empty());
        while i < n
            invariant
                n == self.customers@.len(),
                i <= n,
                has_phone == (phone@.len() > 0),
                has_plate == (plate@.len() > 0),
                match best_identity(self.customers@.subrange(0, i as int), phone@, plate@) {
                    Some(k) => best is Some && best.unwrap() as int == k,
                    None => best is None,
                },
            decreases n - i,
        {
            let ghost pre = self.customers@.subrange(0, i as int);
            let ghost next = self.customers@.subrange(0, i + 1);
            assert(next.drop_last() =~= pre);
            proof { lemma_best_identity_bounds(pre, phone@, plate@); }
            let c = &self.customers[i];
            let m = classify(c.id.as_str()) == CustomerKind::Regular && (
                (has_phone && str_eq(c.phone.as_str(), phone))
                || (has_plate && str_eq(c.license_plate.as_str(), plate)));
            if m {
                match best {
                    None => { best = Some(i); },
                    Some(b) => {
                        if str_lt(self.customers[b].updated_at.as_str(), c.updated_at.as_str()) {
                            best = Some(i);
                        }
                    },
                }
            }
            i += 1;
        }
        assert(self.customers@.subrange(0, n as int) =~= self.customers@);
        proof { lemma_best_identity_bounds(self.customers@, phone@, plate@); }
        best
    }

    /// The regular customers: no temporary, snapshot or placeholder rows,
    /// ordered by name.
    pub fn get_all_customers(&self) -> (r: Vec<Customer>)
        ensures
            r@.to_multiset() == listed(self.customers@).to_multiset(),
            sorted_by_name(r@),
            forall|i: int| 0 <= i < r@.len() ==> is_regular(#[trigger] r@[i].id@),
    {
        let n = self.customers.len();
        let mut out: Vec<Customer> = Vec::new();
        let mut i: usize = 0;
        assert(self.customers@.subrange(0, 0) =~= Seq::<Customer>::empty());
        while i < n
            invariant
                n == self.customers@.len(),
                i <= n,
                out@ == listed(self.customers@.subrange(0, i as int)),
            decreases n - i,
        {
            assert(self.customers@.subrange(0, i + 1).drop_last() =~= self.customers@.subrange(0, i as int));
            proof { reveal(Seq::filter); }
            if classify(self.customers[i].id.as_str()) == CustomerKind::Regular {
                out.push(self.customers[i].copy());
            }
            i += 1;
        }
        assert(self.customers@.subrange(0, n as int) =~= self.customers@);
        proof {
            broadcast use vstd::seq_lib::group_filter_ensures;
            let f = |c: Customer| is_regular(c.id@);
            assert forall|i: int| 0 <= i < out@.len() implies is_regular(#[trigger] out@[i].id@) by {
                assert(out@ == self.customers@.filter(f));
            }
        }
        let r = sort_by_name(&out);
        proof { lemma_same_members(r@, out@, |c: Customer| is_regular(c.id@)); }
        r
    }

    /// The regular customers whose name, plate or phone contains `query`
    /// as plain text (no wildcards), ignoring ASCII case, ordered by name.
    pub fn search_customers(&self, query: &str) -> (r: Vec<Customer>)
        ensures
            r@.to_multiset() == self.customers@.filter(|c: Customer| found_by(c, query@)).to_multiset(),
            sorted_by_name(r@),
            forall|i: int| 0 <= i < r@.len() ==> is_regular(#[trigger] r@[i].id@),
    {
        let ghost f = |c: Customer| found_by(c, query@);
        let n = self.customers.len();
        let mut out: Vec<Customer> = Vec::new();
        let mut i: usize = 0;
        assert(self.customers@.subrange(0, 0) =~= Seq::<Customer>::empty());
        while i < n
            invariant
                n == self.customers@.len(),
                i <= n,
                f == |c: Customer| found_by(c, query@),
                out@ == self.customers@.subrange(0, i as int).filter(f),
            decreases n - i,
        {
            assert(self.customers@.subrange(0, i + 1).drop_last() =~= self.customers@.subrange(0, i as int));
            proof { reveal(Seq::filter); }
            let c = &self.customers[i];
            if classify(c.id.as_str()) == CustomerKind::Regular && (contains_folded(c.name.as_str(), query)
                || contains_folded(c.license_plate.as_str(), query) || contains_folded(c.phone.as_str(), query)) {
                out.push(c.copy());
            }
            i += 1;
        }
        assert(self.customers@.subrange(0, n as int) =~= self.customers@);
        proof {
            broadcast use vstd::seq_lib::group_filter_ensures;
            assert forall|i: int| 0 <= i < out@.len() implies is_regular(#[trigger] out@[i].id@) by {
                assert(f(out@[i]));
            }
        }
        let r = sort_by_name(&out);
        proof { lemma_same_members(r@, out@, |c: Customer| is_regular(c.id@)); }
        r
    }

    /// The stored settings.
    pub fn get_settings(&self) -> (r: Option<&AppSettings>)
        ensures
            match r {
                Some(s) => self.settings == Some(*s),
                None => self.settings is None,
            },
    {
        self.settings.as_ref()
    }

    /// Stores the settings as the one settings row. The template validation
    /// is stored as given, or as all-off flags where none is given, so that it
    /// always reads back as a value.
    pub fn save_settings(&mut self, settings: AppSettings, now: &str)
        requires
            old(self).wf(),
        ensures
            final(self).wf(),
            final(self).settings is Some,
            final(self).settings.unwrap().id@ == "settings"@,
            final(self).settings.unwrap().updated_at@ == now@,
            final(self).settings.unwrap().template_validation == Some(stored_validation(settings.template_validation)),
            final(self).settings.unwrap() == (AppSettings {
                id: final(self).settings.unwrap().id,
                updated_at: final(self).settings.unwrap().updated_at,
                template_validation: final(self).settings.unwrap().template_validation,
                ..settings
            }),
            final(self).customers == old(self).customers,
            final(self).orders == old(self).orders,
            final(self).products == old(self).products,
    {
        let mut s = settings;
        s.id = crate::text::owned("settings");
        s.updated_at = crate::text::owned(now);
        s.template_validation = Some(match s.template_validation {
            Some(v) => v,
            None => no_required_fields(),
        });
        self.settings = Some(s);
    }
}

} // verus!
