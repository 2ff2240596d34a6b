use crate::fabric::Fabric;
use crate::links::{comes_later, is_later};
use std::cmp::Ordering;
use vstd::prelude::*;

verus! {

/// How two positions of links stand in the order of knitting: `Greater`
/// where `a` is knitted after `b`.
pub open spec fn knit_order(a: (u16, u16), b: (u16, u16)) -> Ordering {
    if comes_later(a, b) {
        Ordering::Greater
    } else if comes_later(b, a) {
        Ordering::Less
    } else {
        Ordering::Equal
    }
}

/// Two positions of which neither is knitted after the other are one.
pub proof fn lemma_knit_order_total(a: (u16, u16), b: (u16, u16))
    ensures
        knit_order(a, b) == Ordering::Equal <==> a == b,
        knit_order(a, b) == Ordering::Less <==> knit_order(b, a) == Ordering::Greater,
{
}

impl Fabric {
    /// How two positions of links stand in the order of knitting.
    pub fn compare_position_thread_order(&self, a: (u16, u16), b: (u16, u16)) -> (order: Ordering)
        ensures
            order == knit_order(a, b),
    {
        if is_later(a, b) {
            Ordering::Greater
        } else if is_later(b, a) {
            Ordering::Less
        } else {
            Ordering::Equal
        }
    }
}

} // verus!
