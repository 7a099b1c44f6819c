//! `==` and `partial_cmp` on cells, as `value_eq` and `value_order` define them.
use vstd::prelude::*;

use crate::text::Order;
use crate::value::{Value, value_eq, value_order};
use core::cmp::Ordering;

verus! {

/// The std ordering that an order of this crate stands for.
pub open spec fn std_ordering(o: Option<Order>) -> Option<Ordering> {
    match o {
        Some(Order::Less) => Some(Ordering::Less),
        Some(Order::Equal) => Some(Ordering::Equal),
        Some(Order::Greater) => Some(Ordering::Greater),
        None => None,
    }
}

impl PartialEq for Value {
    fn eq(&self, other: &Value) -> (r: bool) {
        self.equals(other)
    }
}

impl vstd::std_specs::cmp::PartialEqSpecImpl for Value {
    open spec fn obeys_eq_spec() -> bool {
        true
    }

    open spec fn eq_spec(&self, other: &Value) -> bool {
        value_eq(self@, other@)
    }
}

impl PartialOrd for Value {
    fn partial_cmp(&self, other: &Value) -> (r: Option<Ordering>) {
        match self.compare(other) {
            Some(Order::Less) => Some(Ordering::Less),
            Some(Order::Equal) => Some(Ordering::Equal),
            Some(Order::Greater) => Some(Ordering::Greater),
            None => None,
        }
    }
}

impl vstd::std_specs::cmp::PartialOrdSpecImpl for Value {
    open spec fn obeys_partial_cmp_spec() -> bool {
        true
    }

    open spec fn partial_cmp_spec(&self, other: &Value) -> Option<Ordering> {
        std_ordering(value_order(self@, other@))
    }
}

} // verus!
