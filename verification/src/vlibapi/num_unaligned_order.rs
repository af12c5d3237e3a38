//! Laws of comparing unaligned integers with primitive integers

use vstd::prelude::*;
use vstd::std_specs::cmp::{PartialEqSpec, PartialOrdSpec};
use core::cmp::Ordering;
use super::num_unaligned::{
    UnalignedU16, UnalignedI16, UnalignedU32, UnalignedI32, UnalignedU64, UnalignedI64,
};

verus! {

/// Law: a `UnalignedU16` equals a `u16` exactly when its value does, and compares with it as its
/// value does in the integer order
pub proof fn lemma_u16_compare_follows_value_order(x: UnalignedU16, o: u16)
    ensures
        x.eq_spec(&o) == (x.value() == o),
        x.partial_cmp_spec(&o) == Some(Ordering::Less) <==> x.value() < o,
        x.partial_cmp_spec(&o) == Some(Ordering::Equal) <==> x.value() == o,
        x.partial_cmp_spec(&o) == Some(Ordering::Greater) <==> x.value() > o,
{
}

/// Law: a `UnalignedI16` equals a `i16` exactly when its value does, and compares with it as its
/// value does in the integer order
pub proof fn lemma_i16_compare_follows_value_order(x: UnalignedI16, o: i16)
    ensures
        x.eq_spec(&o) == (x.value() == o),
        x.partial_cmp_spec(&o) == Some(Ordering::Less) <==> x.value() < o,
        x.partial_cmp_spec(&o) == Some(Ordering::Equal) <==> x.value() == o,
        x.partial_cmp_spec(&o) == Some(Ordering::Greater) <==> x.value() > o,
{
}

/// Law: a `UnalignedU32` equals a `u32` exactly when its value does, and compares with it as its
/// value does in the integer order
pub proof fn lemma_u32_compare_follows_value_order(x: UnalignedU32, o: u32)
    ensures
        x.eq_spec(&o) == (x.value() == o),
        x.partial_cmp_spec(&o) == Some(Ordering::Less) <==> x.value() < o,
        x.partial_cmp_spec(&o) == Some(Ordering::Equal) <==> x.value() == o,
        x.partial_cmp_spec(&o) == Some(Ordering::Greater) <==> x.value() > o,
{
}

/// Law: a `UnalignedI32` equals a `i32` exactly when its value does, and compares with it as its
/// value does in the integer order
pub proof fn lemma_i32_compare_follows_value_order(x: UnalignedI32, o: i32)
    ensures
        x.eq_spec(&o) == (x.value() == o),
        x.partial_cmp_spec(&o) == Some(Ordering::Less) <==> x.value() < o,
        x.partial_cmp_spec(&o) == Some(Ordering::Equal) <==> x.value() == o,
        x.partial_cmp_spec(&o) == Some(Ordering::Greater) <==> x.value() > o,
{
}

/// Law: a `UnalignedU64` equals a `u64` exactly when its value does, and compares with it as its
/// value does in the integer order
pub proof fn lemma_u64_compare_follows_value_order(x: UnalignedU64, o: u64)
    ensures
        x.eq_spec(&o) == (x.value() == o),
        x.partial_cmp_spec(&o) == Some(Ordering::Less) <==> x.value() < o,
        x.partial_cmp_spec(&o) == Some(Ordering::Equal) <==> x.value() == o,
        x.partial_cmp_spec(&o) == Some(Ordering::Greater) <==> x.value() > o,
{
}

/// Law: a `UnalignedI64` equals a `i64` exactly when its value does, and compares with it as its
/// value does in the integer order
pub proof fn lemma_i64_compare_follows_value_order(x: UnalignedI64, o: i64)
    ensures
        x.eq_spec(&o) == (x.value() == o),
        x.partial_cmp_spec(&o) == Some(Ordering::Less) <==> x.value() < o,
        x.partial_cmp_spec(&o) == Some(Ordering::Equal) <==> x.value() == o,
        x.partial_cmp_spec(&o) == Some(Ordering::Greater) <==> x.value() > o,
{
}

} // verus!
