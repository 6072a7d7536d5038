//! Stable insertion sorts for the read-back orders of rows: customers by
//! name, order lines by position.
use vstd::prelude::*;
use crate::models::{Customer, OrderItem};
use crate::text::{seq_lt, str_lt, lemma_seq_lt_order};

verus! {

broadcast use vstd::seq_lib::group_to_multiset_ensures;

/// Customers in ascending name order.
pub open spec fn sorted_by_name(s: Seq<Customer>) -> bool {
    forall|a: int, b: int| 0 <= a < b < s.len() ==> !seq_lt(#[trigger] s[b].name@, #[trigger] s[a].name@)
}

/// Order lines in ascending `sort_value`.
pub open spec fn sorted_by_position(s: Seq<OrderItem>) -> bool {
    forall|a: int, b: int| 0 <= a < b < s.len() ==> (#[trigger] s[a]).sort_value <= (#[trigger] s[b]).sort_value
}

/// The customers of `v` ordered by name; equal names keep their order.
pub fn sort_by_name(v: &Vec<Customer>) -> (r: Vec<Customer>)
    ensures
        sorted_by_name(r@),
        r@.to_multiset() == v@.to_multiset(),
{
    let n = v.len();
    let mut out: Vec<Customer> = Vec::new();
    let mut i: usize = 0;
    assert(v@.subrange(0, 0) =~= Seq::<Customer>::empty());
    while i < n
        invariant
            n == v@.len(),
            i <= n,
            sorted_by_name(out@),
            out@.to_multiset() == v@.subrange(0, i as int).to_multiset(),
        decreases n - i,
    {
        let x = v[i].copy();
        let m = out.len();
        let mut p: usize = 0;
        while p < m && !str_lt(x.name.as_str(), out[p].name.as_str())
            invariant
                m == out@.len(),
                p <= m,
                forall|a: int| 0 <= a < p ==> !seq_lt(x.name@, (#[trigger] out@[a]).name@),
            decreases m - p,
        {
            p += 1;
        }
        let ghost before = out@;
        out.insert(p, x);
        proof {
            assert(out@ == before.insert(p as int, x));
            assert forall|a: int, b: int| 0 <= a < b < out@.len() implies
                !seq_lt(#[trigger] out@[b].name@, #[trigger] out@[a].name@) by {
                if b == p {
                    assert(out@[a] == before[a]);
                } else if a == p {
                    let y = before[b - 1];
                    assert(out@[b] == y);
                    lemma_seq_lt_order(y.name@, x.name@, before[p as int].name@);
                    lemma_seq_lt_order(x.name@, before[p as int].name@, y.name@);
                } else {
                    let a0 = if a < p { a } else { a - 1 };
                    let b0 = if b < p { b } else { b - 1 };
                    assert(out@[a] == before[a0] && out@[b] == before[b0]);
                }
            }
            assert(v@.subrange(0, i + 1) =~= v@.subrange(0, i as int).push(v@[i as int]));
        }
        i += 1;
    }
    assert(v@.subrange(0, n as int) =~= v@);
    out
}

/// The lines of `v` ordered by `sort_value`; equal values keep their order.
pub fn sort_by_position(v: &Vec<OrderItem>) -> (r: Vec<OrderItem>)
    ensures
        sorted_by_position(r@),
        r@.to_multiset() == v@.to_multiset(),
{
    let n = v.len();
    let mut out: Vec<OrderItem> = Vec::new();
    let mut i: usize = 0;
    assert(v@.subrange(0, 0) =~= Seq::<OrderItem>::empty());
    while i < n
        invariant
            n == v@.len(),
            i <= n,
            sorted_by_position(out@),
            out@.to_multiset() == v@.subrange(0, i as int).to_multiset(),
        decreases n - i,
    {
        let x = v[i].copy();
        let m = out.len();
        let mut p: usize = 0;
        while p < m && out[p].sort_value <= x.sort_value
            invariant
                m == out@.len(),
                p <= m,
                forall|a: int| 0 <= a < p ==> (#[trigger] out@[a]).sort_value <= x.sort_value,
            decreases m - p,
        {
            p += 1;
        }
        let ghost before = out@;
        out.insert(p, x);
        proof {
            assert(out@ == before.insert(p as int, x));
            assert forall|a: int, b: int| 0 <= a < b < out@.len() implies
                (#[trigger] out@[a]).sort_value <= (#[trigger] out@[b]).sort_value by {
                if b == p {
                    assert(out@[a] == before[a]);
                } else if a == p {
                    assert(out@[b] == before[b - 1]);
                    assert(before[p as int].sort_value > x.sort_value);
                    if b - 1 > p {
                        assert(before[p as int].sort_value <= before[b - 1].sort_value);
                    }
                } else {
                    let a0 = if a < p { a } else { a - 1 };
                    let b0 = if b < p { b } else { b - 1 };
                    assert(out@[a] == before[a0] && out@[b] == before[b0]);
                }
            }
            assert(v@.subrange(0, i + 1) =~= v@.subrange(0, i as int).push(v@[i as int]));
        }
        i += 1;
    }
    assert(v@.subrange(0, n as int) =~= v@);
    out
}

} // verus!
