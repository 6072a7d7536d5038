//! Customer classes, told apart by the prefix of the id.
use vstd::prelude::*;
use crate::text::{has_prefix, starts_with};

verus! {

#[derive(Clone, Copy, Debug, PartialEq, Eq, Structural)]
pub enum CustomerKind {
    /// An ordinary, durable customer.
    Regular,
    /// `temp_*`: a client-local identity, never stored as it is.
    Temporary,
    /// `order_customer_*`: a snapshot that anchors one order.
    OrderSnapshot,
    /// `deleted_*`: stands in for a deleted customer.
    DeletedPlaceholder,
}

pub open spec fn temp_prefix() -> Seq<char> { seq!['t', 'e', 'm', 'p', '_'] }

pub open spec fn snapshot_prefix() -> Seq<char> {
    seq!['o', 'r', 'd', 'e', 'r', '_', 'c', 'u', 's', 't', 'o', 'm', 'e', 'r', '_']
}

pub open spec fn deleted_prefix() -> Seq<char> { seq!['d', 'e', 'l', 'e', 't', 'e', 'd', '_'] }

pub open spec fn kind_of(id: Seq<char>) -> CustomerKind {
    if has_prefix(id, temp_prefix()) {
        CustomerKind::Temporary
    } else if has_prefix(id, snapshot_prefix()) {
        CustomerKind::OrderSnapshot
    } else if has_prefix(id, deleted_prefix()) {
        CustomerKind::DeletedPlaceholder
    } else {
        CustomerKind::Regular
    }
}

/// Only regular customers are listed, searched and matched by identity.
pub open spec fn is_regular(id: Seq<char>) -> bool {
    kind_of(id) == CustomerKind::Regular
}

pub fn classify(id: &str) -> (r: CustomerKind)
    ensures
        r == kind_of(id@),
{
    proof {
        reveal_strlit("temp_");
        reveal_strlit("order_customer_");
        reveal_strlit("deleted_");
        assert("temp_"@ =~= temp_prefix());
        assert("order_customer_"@ =~= snapshot_prefix());
        assert("deleted_"@ =~= deleted_prefix());
    }
    if starts_with(id, "temp_") {
        CustomerKind::Temporary
    } else if starts_with(id, "order_customer_") {
        CustomerKind::OrderSnapshot
    } else if starts_with(id, "deleted_") {
        CustomerKind::DeletedPlaceholder
    } else {
        CustomerKind::Regular
    }
}

} // verus!
