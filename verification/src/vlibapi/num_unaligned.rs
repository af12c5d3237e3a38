//! Utilities for unaligned numeric types used in VPP API messages.
//!
//! Each type holds one integer, as it appears in a packed API message, and converts its byte
//! order to and from the network (big endian) order.

use vstd::prelude::*;
use vstd::endian::{Endian, endianness};
use vstd::std_specs::cmp::{PartialEqSpecImpl, PartialOrdSpecImpl};
use vstd::std_specs::ops::{AddSpec, SubSpec, MulSpec, DivSpec};
use vstd::std_specs::convert::FromSpec;
use core::cmp::Ordering;
use core::num::ParseIntError;
use core::str::FromStr;

verus! {

/// `x` with the order of its bytes reversed
pub open spec fn swap_u16(x: u16) -> u16 {
    ((x & 0xff) << 8) | (x >> 8)
}

/// `x` converted between the target's byte order and big endian: unchanged on big-endian
/// targets, with its bytes reversed on little-endian ones
pub open spec fn be_u16(x: u16) -> u16 {
    match endianness() {
        Endian::Big => x,
        Endian::Little => swap_u16(x),
    }
}

/// Law: reversing the bytes twice gives back the value
pub proof fn lemma_swap_u16_involutive(x: u16)
    ensures
        swap_u16(swap_u16(x)) == x,
{
    assert((((((x & 0xff) << 8) | (x >> 8)) & 0xff) << 8) | ((((x & 0xff) << 8) | (x >> 8)) >> 8) == x) by (bit_vector);
}

/// `x` with the order of its bytes reversed
pub open spec fn swap_u32(x: u32) -> u32 {
    ((x & 0xff) << 24) | ((x & 0xff00) << 8) | ((x >> 8) & 0xff00) | (x >> 24)
}

/// `x` converted between the target's byte order and big endian: unchanged on big-endian
/// targets, with its bytes reversed on little-endian ones
pub open spec fn be_u32(x: u32) -> u32 {
    match endianness() {
        Endian::Big => x,
        Endian::Little => swap_u32(x),
    }
}

/// Law: reversing the bytes twice gives back the value
pub proof fn lemma_swap_u32_involutive(x: u32)
    ensures
        swap_u32(swap_u32(x)) == x,
{
    assert((((((x & 0xff) << 24) | ((x & 0xff00) << 8) | ((x >> 8) & 0xff00) | (x >> 24)) & 0xff) << 24) | (((((x & 0xff) << 24) | ((x & 0xff00) << 8) | ((x >> 8) & 0xff00) | (x >> 24)) & 0xff00) << 8) | (((((x & 0xff) << 24) | ((x & 0xff00) << 8) | ((x >> 8) & 0xff00) | (x >> 24)) >> 8) & 0xff00) | ((((x & 0xff) << 24) | ((x & 0xff00) << 8) | ((x >> 8) & 0xff00) | (x >> 24)) >> 24) == x) by (bit_vector);
}

/// `x` with the order of its bytes reversed
pub open spec fn swap_u64(x: u64) -> u64 {
    ((x & 0xff) << 56) | ((x & 0xff00) << 40) | ((x & 0xff0000) << 24) | ((x & 0xff000000) << 8) | ((x >> 8) & 0xff000000) | ((x >> 24) & 0xff0000) | ((x >> 40) & 0xff00) | (x >> 56)
}

/// `x` converted between the target's byte order and big endian: unchanged on big-endian
/// targets, with its bytes reversed on little-endian ones
pub open spec fn be_u64(x: u64) -> u64 {
    match endianness() {
        Endian::Big => x,
        Endian::Little => swap_u64(x),
    }
}

/// Law: reversing the bytes twice gives back the value
pub proof fn lemma_swap_u64_involutive(x: u64)
    ensures
        swap_u64(swap_u64(x)) == x,
{
    assert((((((x & 0xff) << 56) | ((x & 0xff00) << 40) | ((x & 0xff0000) << 24) | ((x & 0xff000000) << 8) | ((x >> 8) & 0xff000000) | ((x >> 24) & 0xff0000) | ((x >> 40) & 0xff00) | (x >> 56)) & 0xff) << 56) | (((((x & 0xff) << 56) | ((x & 0xff00) << 40) | ((x & 0xff0000) << 24) | ((x & 0xff000000) << 8) | ((x >> 8) & 0xff000000) | ((x >> 24) & 0xff0000) | ((x >> 40) & 0xff00) | (x >> 56)) & 0xff00) << 40) | (((((x & 0xff) << 56) | ((x & 0xff00) << 40) | ((x & 0xff0000) << 24) | ((x & 0xff000000) << 8) | ((x >> 8) & 0xff000000) | ((x >> 24) & 0xff0000) | ((x >> 40) & 0xff00) | (x >> 56)) & 0xff0000) << 24) | (((((x & 0xff) << 56) | ((x & 0xff00) << 40) | ((x & 0xff0000) << 24) | ((x & 0xff000000) << 8) | ((x >> 8) & 0xff000000) | ((x >> 24) & 0xff0000) | ((x >> 40) & 0xff00) | (x >> 56)) & 0xff000000) << 8) | (((((x & 0xff) << 56) | ((x & 0xff00) << 40) | ((x & 0xff0000) << 24) | ((x & 0xff000000) << 8) | ((x >> 8) & 0xff000000) | ((x >> 24) & 0xff0000) | ((x >> 40) & 0xff00) | (x >> 56)) >> 8) & 0xff000000) | (((((x & 0xff) << 56) | ((x & 0xff00) << 40) | ((x & 0xff0000) << 24) | ((x & 0xff000000) << 8) | ((x >> 8) & 0xff000000) | ((x >> 24) & 0xff0000) | ((x >> 40) & 0xff00) | (x >> 56)) >> 24) & 0xff0000) | (((((x & 0xff) << 56) | ((x & 0xff00) << 40) | ((x & 0xff0000) << 24) | ((x & 0xff000000) << 8) | ((x >> 8) & 0xff000000) | ((x >> 24) & 0xff0000) | ((x >> 40) & 0xff00) | (x >> 56)) >> 40) & 0xff00) | ((((x & 0xff) << 56) | ((x & 0xff00) << 40) | ((x & 0xff0000) << 24) | ((x & 0xff000000) << 8) | ((x >> 8) & 0xff000000) | ((x >> 24) & 0xff0000) | ((x >> 40) & 0xff00) | (x >> 56)) >> 56) == x) by (bit_vector);
}

/// `u16::to_be`: on big-endian targets a no-op, on little-endian ones the bytes are swapped.
#[verifier::external_body]
fn u16_to_be(x: u16) -> (r: u16)
    ensures
        r == be_u16(x),
{
    x.to_be()
}

/// `u16::from_be`: on big-endian targets a no-op, on little-endian ones the bytes are
/// swapped.
#[verifier::external_body]
fn u16_from_be(x: u16) -> (r: u16)
    ensures
        r == be_u16(x),
{
    u16::from_be(x)
}

/// A u16 that has an alignment requirement of 1 byte, i.e. is unaligned, as in packed
/// structures and slices of data in variable-length arrays of VPP messages
#[derive(Copy, Clone, PartialEq, Eq, Structural, PartialOrd, Ord, Hash)]
pub struct UnalignedU16(u16);

impl UnalignedU16 {
    /// The contained value
    pub closed spec fn value(self) -> u16 {
        self.0
    }

    /// Creates a u16 that has an alignment requirement of 1 byte, i.e. is unaligned.
    pub fn new(value: u16) -> (r: Self)
        ensures
            r.value() == value,
    {
        UnalignedU16(value)
    }

    /// Returns the contained value as a primitive type.
    pub fn get(self) -> (r: u16)
        ensures
            r == self.value(),
    {
        self.0
    }

    /// Reverses the byte order of the integer, so that `0x1234` becomes `0x3412`.
    pub fn swap_bytes(self) -> (r: Self)
        ensures
            r.value() == swap_u16(self.value()),
    {
        let u = self.0;
        let swapped = ((u & 0xff) << 8) | (u >> 8);
        UnalignedU16(swapped)
    }

    /// Converts `self` to big endian from the target's endianness.
    ///
    /// On big endian this is a no-op. On little endian the bytes are swapped.
    pub fn to_be(self) -> (r: Self)
        ensures
            r.value() == be_u16(self.value()),
    {
        UnalignedU16(u16_to_be(self.0))
    }

    /// Converts an integer from big endian to the target's endianness.
    ///
    /// On big endian this is a no-op. On little endian the bytes are swapped.
    pub fn from_be(x: Self) -> (r: Self)
        ensures
            r.value() == be_u16(x.value()),
    {
        UnalignedU16::new(u16_from_be(x.get()))
    }

    /// Law: converting to big endian and back gives back the value
    pub proof fn lemma_be_round_trip(x: u16)
        ensures
            be_u16(be_u16(x)) == x,
    {
        lemma_swap_u16_involutive(x);
    }
}

impl From<u16> for UnalignedU16 {
    fn from(value: u16) -> (r: Self) {
        Self::new(value)
    }
}

impl vstd::std_specs::convert::FromSpecImpl<u16> for UnalignedU16 {
    closed spec fn obeys_from_spec() -> bool {
        true
    }

    closed spec fn from_spec(v: u16) -> Self {
        UnalignedU16(v)
    }
}

impl From<UnalignedU16> for u16 {
    fn from(value: UnalignedU16) -> (r: Self) {
        value.get()
    }
}

impl vstd::std_specs::convert::FromSpecImpl<UnalignedU16> for u16 {
    closed spec fn obeys_from_spec() -> bool {
        true
    }

    closed spec fn from_spec(v: UnalignedU16) -> Self {
        v.0
    }
}

/// `x` with the order of its bytes reversed
pub open spec fn swap_i16(x: i16) -> i16 {
    swap_u16(x as u16) as i16
}

/// `x` converted between the target's byte order and big endian
pub open spec fn be_i16(x: i16) -> i16 {
    match endianness() {
        Endian::Big => x,
        Endian::Little => swap_i16(x),
    }
}

/// Law: reversing the bytes twice gives back the value
pub proof fn lemma_swap_i16_involutive(x: i16)
    ensures
        swap_i16(swap_i16(x)) == x,
{
    let u = x as u16;
    lemma_swap_u16_involutive(u);
    let s = swap_u16(u);
    assert((s as i16) as u16 == s) by (bit_vector);
    assert((u as i16) == x) by (bit_vector)
        requires
            u == x as u16,
    ;
}

/// `i16::to_be`: on big-endian targets a no-op, on little-endian ones the bytes are swapped.
#[verifier::external_body]
fn i16_to_be(x: i16) -> (r: i16)
    ensures
        r == be_i16(x),
{
    x.to_be()
}

/// `i16::from_be`: on big-endian targets a no-op, on little-endian ones the bytes are
/// swapped.
#[verifier::external_body]
fn i16_from_be(x: i16) -> (r: i16)
    ensures
        r == be_i16(x),
{
    i16::from_be(x)
}

/// A i16 that has an alignment requirement of 1 byte, i.e. is unaligned, as in packed
/// structures and slices of data in variable-length arrays of VPP messages
#[derive(Copy, Clone, PartialEq, Eq, Structural, PartialOrd, Ord, Hash)]
pub struct UnalignedI16(i16);

impl UnalignedI16 {
    /// The contained value
    pub closed spec fn value(self) -> i16 {
        self.0
    }

    /// Creates a i16 that has an alignment requirement of 1 byte, i.e. is unaligned.
    pub fn new(value: i16) -> (r: Self)
        ensures
            r.value() == value,
    {
        UnalignedI16(value)
    }

    /// Returns the contained value as a primitive type.
    pub fn get(self) -> (r: i16)
        ensures
            r == self.value(),
    {
        self.0
    }

    /// Reverses the byte order of the integer, so that `0x1234` becomes `0x3412`.
    pub fn swap_bytes(self) -> (r: Self)
        ensures
            r.value() == swap_i16(self.value()),
    {
        let u = self.0 as u16;
        let swapped = ((u & 0xff) << 8) | (u >> 8);
        UnalignedI16(swapped as i16)
    }

    /// Converts `self` to big endian from the target's endianness.
    ///
    /// On big endian this is a no-op. On little endian the bytes are swapped.
    pub fn to_be(self) -> (r: Self)
        ensures
            r.value() == be_i16(self.value()),
    {
        UnalignedI16(i16_to_be(self.0))
    }

    /// Converts an integer from big endian to the target's endianness.
    ///
    /// On big endian this is a no-op. On little endian the bytes are swapped.
    pub fn from_be(x: Self) -> (r: Self)
        ensures
            r.value() == be_i16(x.value()),
    {
        UnalignedI16::new(i16_from_be(x.get()))
    }

    /// Law: converting to big endian and back gives back the value
    pub proof fn lemma_be_round_trip(x: i16)
        ensures
            be_i16(be_i16(x)) == x,
    {
        lemma_swap_i16_involutive(x);
    }
}

impl From<i16> for UnalignedI16 {
    fn from(value: i16) -> (r: Self) {
        Self::new(value)
    }
}

impl vstd::std_specs::convert::FromSpecImpl<i16> for UnalignedI16 {
    closed spec fn obeys_from_spec() -> bool {
        true
    }

    closed spec fn from_spec(v: i16) -> Self {
        UnalignedI16(v)
    }
}

impl From<UnalignedI16> for i16 {
    fn from(value: UnalignedI16) -> (r: Self) {
        value.get()
    }
}

impl vstd::std_specs::convert::FromSpecImpl<UnalignedI16> for i16 {
    closed spec fn obeys_from_spec() -> bool {
        true
    }

    closed spec fn from_spec(v: UnalignedI16) -> Self {
        v.0
    }
}

/// `u32::to_be`: on big-endian targets a no-op, on little-endian ones the bytes are swapped.
#[verifier::external_body]
fn u32_to_be(x: u32) -> (r: u32)
    ensures
        r == be_u32(x),
{
    x.to_be()
}

/// `u32::from_be`: on big-endian targets a no-op, on little-endian ones the bytes are
/// swapped.
#[verifier::external_body]
fn u32_from_be(x: u32) -> (r: u32)
    ensures
        r == be_u32(x),
{
    u32::from_be(x)
}

/// A u32 that has an alignment requirement of 1 byte, i.e. is unaligned, as in packed
/// structures and slices of data in variable-length arrays of VPP messages
#[derive(Copy, Clone, PartialEq, Eq, Structural, PartialOrd, Ord, Hash)]
pub struct UnalignedU32(u32);

impl UnalignedU32 {
    /// The contained value
    pub closed spec fn value(self) -> u32 {
        self.0
    }

    /// Creates a u32 that has an alignment requirement of 1 byte, i.e. is unaligned.
    pub fn new(value: u32) -> (r: Self)
        ensures
            r.value() == value,
    {
        UnalignedU32(value)
    }

    /// Returns the contained value as a primitive type.
    pub fn get(self) -> (r: u32)
        ensures
            r == self.value(),
    {
        self.0
    }

    /// Reverses the byte order of the integer, so that `0x12345678` becomes `0x78563412`.
    pub fn swap_bytes(self) -> (r: Self)
        ensures
            r.value() == swap_u32(self.value()),
    {
        let u = self.0;
        let swapped = ((u & 0xff) << 24) | ((u & 0xff00) << 8) | ((u >> 8) & 0xff00) | (u >> 24);
        UnalignedU32(swapped)
    }

    /// Converts `self` to big endian from the target's endianness.
    ///
    /// On big endian this is a no-op. On little endian the bytes are swapped.
    pub fn to_be(self) -> (r: Self)
        ensures
            r.value() == be_u32(self.value()),
    {
        UnalignedU32(u32_to_be(self.0))
    }

    /// Converts an integer from big endian to the target's endianness.
    ///
    /// On big endian this is a no-op. On little endian the bytes are swapped.
    pub fn from_be(x: Self) -> (r: Self)
        ensures
            r.value() == be_u32(x.value()),
    {
        UnalignedU32::new(u32_from_be(x.get()))
    }

    /// Law: converting to big endian and back gives back the value
    pub proof fn lemma_be_round_trip(x: u32)
        ensures
            be_u32(be_u32(x)) == x,
    {
        lemma_swap_u32_involutive(x);
    }
}

impl From<u32> for UnalignedU32 {
    fn from(value: u32) -> (r: Self) {
        Self::new(value)
    }
}

impl vstd::std_specs::convert::FromSpecImpl<u32> for UnalignedU32 {
    closed spec fn obeys_from_spec() -> bool {
        true
    }

    closed spec fn from_spec(v: u32) -> Self {
        UnalignedU32(v)
    }
}

impl From<UnalignedU32> for u32 {
    fn from(value: UnalignedU32) -> (r: Self) {
        value.get()
    }
}

impl vstd::std_specs::convert::FromSpecImpl<UnalignedU32> for u32 {
    closed spec fn obeys_from_spec() -> bool {
        true
    }

    closed spec fn from_spec(v: UnalignedU32) -> Self {
        v.0
    }
}

/// `x` with the order of its bytes reversed
pub open spec fn swap_i32(x: i32) -> i32 {
    swap_u32(x as u32) as i32
}

/// `x` converted between the target's byte order and big endian
pub open spec fn be_i32(x: i32) -> i32 {
    match endianness() {
        Endian::Big => x,
        Endian::Little => swap_i32(x),
    }
}

/// Law: reversing the bytes twice gives back the value
pub proof fn lemma_swap_i32_involutive(x: i32)
    ensures
        swap_i32(swap_i32(x)) == x,
{
    let u = x as u32;
    lemma_swap_u32_involutive(u);
    let s = swap_u32(u);
    assert((s as i32) as u32 == s) by (bit_vector);
    assert((u as i32) == x) by (bit_vector)
        requires
            u == x as u32,
    ;
}

/// `i32::to_be`: on big-endian targets a no-op, on little-endian ones the bytes are swapped.
#[verifier::external_body]
fn i32_to_be(x: i32) -> (r: i32)
    ensures
        r == be_i32(x),
{
    x.to_be()
}

/// `i32::from_be`: on big-endian targets a no-op, on little-endian ones the bytes are
/// swapped.
#[verifier::external_body]
fn i32_from_be(x: i32) -> (r: i32)
    ensures
        r == be_i32(x),
{
    i32::from_be(x)
}

/// A i32 that has an alignment requirement of 1 byte, i.e. is unaligned, as in packed
/// structures and slices of data in variable-length arrays of VPP messages
#[derive(Copy, Clone, PartialEq, Eq, Structural, PartialOrd, Ord, Hash)]
pub struct UnalignedI32(i32);

impl UnalignedI32 {
    /// The contained value
    pub closed spec fn value(self) -> i32 {
        self.0
    }

    /// Creates a i32 that has an alignment requirement of 1 byte, i.e. is unaligned.
    pub fn new(value: i32) -> (r: Self)
        ensures
            r.value() == value,
    {
        UnalignedI32(value)
    }

    /// Returns the contained value as a primitive type.
    pub fn get(self) -> (r: i32)
        ensures
            r == self.value(),
    {
        self.0
    }

    /// Reverses the byte order of the integer, so that `0x12345678` becomes `0x78563412`.
    pub fn swap_bytes(self) -> (r: Self)
        ensures
            r.value() == swap_i32(self.value()),
    {
        let u = self.0 as u32;
        let swapped = ((u & 0xff) << 24) | ((u & 0xff00) << 8) | ((u >> 8) & 0xff00) | (u >> 24);
        UnalignedI32(swapped as i32)
    }

    /// Converts `self` to big endian from the target's endianness.
    ///
    /// On big endian this is a no-op. On little endian the bytes are swapped.
    pub fn to_be(self) -> (r: Self)
        ensures
            r.value() == be_i32(self.value()),
    {
        UnalignedI32(i32_to_be(self.0))
    }

    /// Converts an integer from big endian to the target's endianness.
    ///
    /// On big endian this is a no-op. On little endian the bytes are swapped.
    pub fn from_be(x: Self) -> (r: Self)
        ensures
            r.value() == be_i32(x.value()),
    {
        UnalignedI32::new(i32_from_be(x.get()))
    }

    /// Law: converting to big endian and back gives back the value
    pub proof fn lemma_be_round_trip(x: i32)
        ensures
            be_i32(be_i32(x)) == x,
    {
        lemma_swap_i32_involutive(x);
    }
}

impl From<i32> for UnalignedI32 {
    fn from(value: i32) -> (r: Self) {
        Self::new(value)
    }
}

impl vstd::std_specs::convert::FromSpecImpl<i32> for UnalignedI32 {
    closed spec fn obeys_from_spec() -> bool {
        true
    }

    closed spec fn from_spec(v: i32) -> Self {
        UnalignedI32(v)
    }
}

impl From<UnalignedI32> for i32 {
    fn from(value: UnalignedI32) -> (r: Self) {
        value.get()
    }
}

impl vstd::std_specs::convert::FromSpecImpl<UnalignedI32> for i32 {
    closed spec fn obeys_from_spec() -> bool {
        true
    }

    closed spec fn from_spec(v: UnalignedI32) -> Self {
        v.0
    }
}

/// `u64::to_be`: on big-endian targets a no-op, on little-endian ones the bytes are swapped.
#[verifier::external_body]
fn u64_to_be(x: u64) -> (r: u64)
    ensures
        r == be_u64(x),
{
    x.to_be()
}

/// `u64::from_be`: on big-endian targets a no-op, on little-endian ones the bytes are
/// swapped.
#[verifier::external_body]
fn u64_from_be(x: u64) -> (r: u64)
    ensures
        r == be_u64(x),
{
    u64::from_be(x)
}

/// A u64 that has an alignment requirement of 1 byte, i.e. is unaligned, as in packed
/// structures and slices of data in variable-length arrays of VPP messages
#[derive(Copy, Clone, PartialEq, Eq, Structural, PartialOrd, Ord, Hash)]
pub struct UnalignedU64(u64);

impl UnalignedU64 {
    /// The contained value
    pub closed spec fn value(self) -> u64 {
        self.0
    }

    /// Creates a u64 that has an alignment requirement of 1 byte, i.e. is unaligned.
    pub fn new(value: u64) -> (r: Self)
        ensures
            r.value() == value,
    {
        UnalignedU64(value)
    }

    /// Returns the contained value as a primitive type.
    pub fn get(self) -> (r: u64)
        ensures
            r == self.value(),
    {
        self.0
    }

    /// Reverses the byte order of the integer, so that `0x1234567890123456` becomes `0x5634129078563412`.
    pub fn swap_bytes(self) -> (r: Self)
        ensures
            r.value() == swap_u64(self.value()),
    {
        let u = self.0;
        let swapped = ((u & 0xff) << 56) | ((u & 0xff00) << 40) | ((u & 0xff0000) << 24) | ((u & 0xff000000) << 8) | ((u >> 8) & 0xff000000) | ((u >> 24) & 0xff0000) | ((u >> 40) & 0xff00) | (u >> 56);
        UnalignedU64(swapped)
    }

    /// Converts `self` to big endian from the target's endianness.
    ///
    /// On big endian this is a no-op. On little endian the bytes are swapped.
    pub fn to_be(self) -> (r: Self)
        ensures
            r.value() == be_u64(self.value()),
    {
        UnalignedU64(u64_to_be(self.0))
    }

    /// Converts an integer from big endian to the target's endianness.
    ///
    /// On big endian this is a no-op. On little endian the bytes are swapped.
    pub fn from_be(x: Self) -> (r: Self)
        ensures
            r.value() == be_u64(x.value()),
    {
        UnalignedU64::new(u64_from_be(x.get()))
    }

    /// Law: converting to big endian and back gives back the value
    pub proof fn lemma_be_round_trip(x: u64)
        ensures
            be_u64(be_u64(x)) == x,
    {
        lemma_swap_u64_involutive(x);
    }
}

impl From<u64> for UnalignedU64 {
    fn from(value: u64) -> (r: Self) {
        Self::new(value)
    }
}

impl vstd::std_specs::convert::FromSpecImpl<u64> for UnalignedU64 {
    closed spec fn obeys_from_spec() -> bool {
        true
    }

    closed spec fn from_spec(v: u64) -> Self {
        UnalignedU64(v)
    }
}

impl From<UnalignedU64> for u64 {
    fn from(value: UnalignedU64) -> (r: Self) {
        value.get()
    }
}

impl vstd::std_specs::convert::FromSpecImpl<UnalignedU64> for u64 {
    closed spec fn obeys_from_spec() -> bool {
        true
    }

    closed spec fn from_spec(v: UnalignedU64) -> Self {
        v.0
    }
}

/// `x` with the order of its bytes reversed
pub open spec fn swap_i64(x: i64) -> i64 {
    swap_u64(x as u64) as i64
}

/// `x` converted between the target's byte order and big endian
pub open spec fn be_i64(x: i64) -> i64 {
    match endianness() {
        Endian::Big => x,
        Endian::Little => swap_i64(x),
    }
}

/// Law: reversing the bytes twice gives back the value
pub proof fn lemma_swap_i64_involutive(x: i64)
    ensures
        swap_i64(swap_i64(x)) == x,
{
    let u = x as u64;
    lemma_swap_u64_involutive(u);
    let s = swap_u64(u);
    assert((s as i64) as u64 == s) by (bit_vector);
    assert((u as i64) == x) by (bit_vector)
        requires
            u == x as u64,
    ;
}

/// `i64::to_be`: on big-endian targets a no-op, on little-endian ones the bytes are swapped.
#[verifier::external_body]
fn i64_to_be(x: i64) -> (r: i64)
    ensures
        r == be_i64(x),
{
    x.to_be()
}

/// `i64::from_be`: on big-endian targets a no-op, on little-endian ones the bytes are
/// swapped.
#[verifier::external_body]
fn i64_from_be(x: i64) -> (r: i64)
    ensures
        r == be_i64(x),
{
    i64::from_be(x)
}

/// A i64 that has an alignment requirement of 1 byte, i.e. is unaligned, as in packed
/// structures and slices of data in variable-length arrays of VPP messages
#[derive(Copy, Clone, PartialEq, Eq, Structural, PartialOrd, Ord, Hash)]
pub struct UnalignedI64(i64);

impl UnalignedI64 {
    /// The contained value
    pub closed spec fn value(self) -> i64 {
        self.0
    }

    /// Creates a i64 that has an alignment requirement of 1 byte, i.e. is unaligned.
    pub fn new(value: i64) -> (r: Self)
        ensures
            r.value() == value,
    {
        UnalignedI64(value)
    }

    /// Returns the contained value as a primitive type.
    pub fn get(self) -> (r: i64)
        ensures
            r == self.value(),
    {
        self.0
    }

    /// Reverses the byte order of the integer, so that `0x1234567890123456` becomes `0x5634129078563412`.
    pub fn swap_bytes(self) -> (r: Self)
        ensures
            r.value() == swap_i64(self.value()),
    {
        let u = self.0 as u64;
        let swapped = ((u & 0xff) << 56) | ((u & 0xff00) << 40) | ((u & 0xff0000) << 24) | ((u & 0xff000000) << 8) | ((u >> 8) & 0xff000000) | ((u >> 24) & 0xff0000) | ((u >> 40) & 0xff00) | (u >> 56);
        UnalignedI64(swapped as i64)
    }

    /// Converts `self` to big endian from the target's endianness.
    ///
    /// On big endian this is a no-op. On little endian the bytes are swapped.
    pub fn to_be(self) -> (r: Self)
        ensures
            r.value() == be_i64(self.value()),
    {
        UnalignedI64(i64_to_be(self.0))
    }

    /// Converts an integer from big endian to the target's endianness.
    ///
    /// On big endian this is a no-op. On little endian the bytes are swapped.
    pub fn from_be(x: Self) -> (r: Self)
        ensures
            r.value() == be_i64(x.value()),
    {
        UnalignedI64::new(i64_from_be(x.get()))
    }

    /// Law: converting to big endian and back gives back the value
    pub proof fn lemma_be_round_trip(x: i64)
        ensures
            be_i64(be_i64(x)) == x,
    {
        lemma_swap_i64_involutive(x);
    }
}

impl From<i64> for UnalignedI64 {
    fn from(value: i64) -> (r: Self) {
        Self::new(value)
    }
}

impl vstd::std_specs::convert::FromSpecImpl<i64> for UnalignedI64 {
    closed spec fn obeys_from_spec() -> bool {
        true
    }

    closed spec fn from_spec(v: i64) -> Self {
        UnalignedI64(v)
    }
}

impl From<UnalignedI64> for i64 {
    fn from(value: UnalignedI64) -> (r: Self) {
        value.get()
    }
}

impl vstd::std_specs::convert::FromSpecImpl<UnalignedI64> for i64 {
    closed spec fn obeys_from_spec() -> bool {
        true
    }

    closed spec fn from_spec(v: UnalignedI64) -> Self {
        v.0
    }
}



impl PartialEq<u16> for UnalignedU16 {
    fn eq(&self, other: &u16) -> (r: bool) {
        self.0 == *other
    }
}

impl PartialEqSpecImpl<u16> for UnalignedU16 {
    open spec fn obeys_eq_spec() -> bool {
        true
    }

    open spec fn eq_spec(&self, other: &u16) -> bool {
        self.value() == *other
    }
}

impl PartialOrd<u16> for UnalignedU16 {
    fn partial_cmp(&self, other: &u16) -> (r: Option<Ordering>) {
        if self.0 < *other {
            Some(Ordering::Less)
        } else if self.0 == *other {
            Some(Ordering::Equal)
        } else {
            Some(Ordering::Greater)
        }
    }
}

impl PartialOrdSpecImpl<u16> for UnalignedU16 {
    open spec fn obeys_partial_cmp_spec() -> bool {
        true
    }

    open spec fn partial_cmp_spec(&self, other: &u16) -> Option<Ordering> {
        if self.value() < *other {
            Some(Ordering::Less)
        } else if self.value() == *other {
            Some(Ordering::Equal)
        } else {
            Some(Ordering::Greater)
        }
    }
}

impl core::ops::Add for UnalignedU16 {
    type Output = Self;

    fn add(self, rhs: Self) -> (r: Self)
        ensures
            r.value() == AddSpec::add_spec(self.value(), rhs.value()),
    {
        UnalignedU16(core::ops::Add::add(self.0, rhs.0))
    }
}

impl vstd::std_specs::ops::AddSpecImpl for UnalignedU16 {
    closed spec fn obeys_add_spec() -> bool {
        true
    }

    open spec fn add_req(self, rhs: Self) -> bool {
        AddSpec::add_req(self.value(), rhs.value())
    }

    closed spec fn add_spec(self, rhs: Self) -> Self {
        UnalignedU16(AddSpec::add_spec(self.value(), rhs.value()))
    }
}

impl core::ops::Add<u16> for UnalignedU16 {
    type Output = u16;

    fn add(self, rhs: u16) -> (r: u16)
        ensures
            r == AddSpec::add_spec(self.value(), rhs),
    {
        core::ops::Add::add(self.0, rhs)
    }
}

impl vstd::std_specs::ops::AddSpecImpl<u16> for UnalignedU16 {
    open spec fn obeys_add_spec() -> bool {
        true
    }

    open spec fn add_req(self, rhs: u16) -> bool {
        AddSpec::add_req(self.value(), rhs)
    }

    open spec fn add_spec(self, rhs: u16) -> u16 {
        AddSpec::add_spec(self.value(), rhs)
    }
}

impl core::ops::Sub for UnalignedU16 {
    type Output = Self;

    fn sub(self, rhs: Self) -> (r: Self)
        ensures
            r.value() == SubSpec::sub_spec(self.value(), rhs.value()),
    {
        UnalignedU16(core::ops::Sub::sub(self.0, rhs.0))
    }
}

impl vstd::std_specs::ops::SubSpecImpl for UnalignedU16 {
    closed spec fn obeys_sub_spec() -> bool {
        true
    }

    open spec fn sub_req(self, rhs: Self) -> bool {
        SubSpec::sub_req(self.value(), rhs.value())
    }

    closed spec fn sub_spec(self, rhs: Self) -> Self {
        UnalignedU16(SubSpec::sub_spec(self.value(), rhs.value()))
    }
}

impl core::ops::Sub<u16> for UnalignedU16 {
    type Output = u16;

    fn sub(self, rhs: u16) -> (r: u16)
        ensures
            r == SubSpec::sub_spec(self.value(), rhs),
    {
        core::ops::Sub::sub(self.0, rhs)
    }
}

impl vstd::std_specs::ops::SubSpecImpl<u16> for UnalignedU16 {
    open spec fn obeys_sub_spec() -> bool {
        true
    }

    open spec fn sub_req(self, rhs: u16) -> bool {
        SubSpec::sub_req(self.value(), rhs)
    }

    open spec fn sub_spec(self, rhs: u16) -> u16 {
        SubSpec::sub_spec(self.value(), rhs)
    }
}

impl core::ops::Mul for UnalignedU16 {
    type Output = Self;

    fn mul(self, rhs: Self) -> (r: Self)
        ensures
            r.value() == MulSpec::mul_spec(self.value(), rhs.value()),
    {
        UnalignedU16(core::ops::Mul::mul(self.0, rhs.0))
    }
}

impl vstd::std_specs::ops::MulSpecImpl for UnalignedU16 {
    closed spec fn obeys_mul_spec() -> bool {
        true
    }

    open spec fn mul_req(self, rhs: Self) -> bool {
        MulSpec::mul_req(self.value(), rhs.value())
    }

    closed spec fn mul_spec(self, rhs: Self) -> Self {
        UnalignedU16(MulSpec::mul_spec(self.value(), rhs.value()))
    }
}

impl core::ops::Mul<u16> for UnalignedU16 {
    type Output = u16;

    fn mul(self, rhs: u16) -> (r: u16)
        ensures
            r == MulSpec::mul_spec(self.value(), rhs),
    {
        core::ops::Mul::mul(self.0, rhs)
    }
}

impl vstd::std_specs::ops::MulSpecImpl<u16> for UnalignedU16 {
    open spec fn obeys_mul_spec() -> bool {
        true
    }

    open spec fn mul_req(self, rhs: u16) -> bool {
        MulSpec::mul_req(self.value(), rhs)
    }

    open spec fn mul_spec(self, rhs: u16) -> u16 {
        MulSpec::mul_spec(self.value(), rhs)
    }
}

impl core::ops::Div for UnalignedU16 {
    type Output = Self;

    fn div(self, rhs: Self) -> (r: Self)
        ensures
            r.value() == DivSpec::div_spec(self.value(), rhs.value()),
    {
        UnalignedU16(core::ops::Div::div(self.0, rhs.0))
    }
}

impl vstd::std_specs::ops::DivSpecImpl for UnalignedU16 {
    closed spec fn obeys_div_spec() -> bool {
        true
    }

    open spec fn div_req(self, rhs: Self) -> bool {
        DivSpec::div_req(self.value(), rhs.value())
    }

    closed spec fn div_spec(self, rhs: Self) -> Self {
        UnalignedU16(DivSpec::div_spec(self.value(), rhs.value()))
    }
}

impl core::ops::Div<u16> for UnalignedU16 {
    type Output = u16;

    fn div(self, rhs: u16) -> (r: u16)
        ensures
            r == DivSpec::div_spec(self.value(), rhs),
    {
        core::ops::Div::div(self.0, rhs)
    }
}

impl vstd::std_specs::ops::DivSpecImpl<u16> for UnalignedU16 {
    open spec fn obeys_div_spec() -> bool {
        true
    }

    open spec fn div_req(self, rhs: u16) -> bool {
        DivSpec::div_req(self.value(), rhs)
    }

    open spec fn div_spec(self, rhs: u16) -> u16 {
        DivSpec::div_spec(self.value(), rhs)
    }
}



impl PartialEq<i16> for UnalignedI16 {
    fn eq(&self, other: &i16) -> (r: bool) {
        self.0 == *other
    }
}

impl PartialEqSpecImpl<i16> for UnalignedI16 {
    open spec fn obeys_eq_spec() -> bool {
        true
    }

    open spec fn eq_spec(&self, other: &i16) -> bool {
        self.value() == *other
    }
}

impl PartialOrd<i16> for UnalignedI16 {
    fn partial_cmp(&self, other: &i16) -> (r: Option<Ordering>) {
        if self.0 < *other {
            Some(Ordering::Less)
        } else if self.0 == *other {
            Some(Ordering::Equal)
        } else {
            Some(Ordering::Greater)
        }
    }
}

impl PartialOrdSpecImpl<i16> for UnalignedI16 {
    open spec fn obeys_partial_cmp_spec() -> bool {
        true
    }

    open spec fn partial_cmp_spec(&self, other: &i16) -> Option<Ordering> {
        if self.value() < *other {
            Some(Ordering::Less)
        } else if self.value() == *other {
            Some(Ordering::Equal)
        } else {
            Some(Ordering::Greater)
        }
    }
}

impl core::ops::Add for UnalignedI16 {
    type Output = Self;

    fn add(self, rhs: Self) -> (r: Self)
        ensures
            r.value() == AddSpec::add_spec(self.value(), rhs.value()),
    {
        UnalignedI16(core::ops::Add::add(self.0, rhs.0))
    }
}

impl vstd::std_specs::ops::AddSpecImpl for UnalignedI16 {
    closed spec fn obeys_add_spec() -> bool {
        true
    }

    open spec fn add_req(self, rhs: Self) -> bool {
        AddSpec::add_req(self.value(), rhs.value())
    }

    closed spec fn add_spec(self, rhs: Self) -> Self {
        UnalignedI16(AddSpec::add_spec(self.value(), rhs.value()))
    }
}

impl core::ops::Add<i16> for UnalignedI16 {
    type Output = i16;

    fn add(self, rhs: i16) -> (r: i16)
        ensures
            r == AddSpec::add_spec(self.value(), rhs),
    {
        core::ops::Add::add(self.0, rhs)
    }
}

impl vstd::std_specs::ops::AddSpecImpl<i16> for UnalignedI16 {
    open spec fn obeys_add_spec() -> bool {
        true
    }

    open spec fn add_req(self, rhs: i16) -> bool {
        AddSpec::add_req(self.value(), rhs)
    }

    open spec fn add_spec(self, rhs: i16) -> i16 {
        AddSpec::add_spec(self.value(), rhs)
    }
}

impl core::ops::Sub for UnalignedI16 {
    type Output = Self;

    fn sub(self, rhs: Self) -> (r: Self)
        ensures
            r.value() == SubSpec::sub_spec(self.value(), rhs.value()),
    {
        UnalignedI16(core::ops::Sub::sub(self.0, rhs.0))
    }
}

impl vstd::std_specs::ops::SubSpecImpl for UnalignedI16 {
    closed spec fn obeys_sub_spec() -> bool {
        true
    }

    open spec fn sub_req(self, rhs: Self) -> bool {
        SubSpec::sub_req(self.value(), rhs.value())
    }

    closed spec fn sub_spec(self, rhs: Self) -> Self {
        UnalignedI16(SubSpec::sub_spec(self.value(), rhs.value()))
    }
}

impl core::ops::Sub<i16> for UnalignedI16 {
    type Output = i16;

    fn sub(self, rhs: i16) -> (r: i16)
        ensures
            r == SubSpec::sub_spec(self.value(), rhs),
    {
        core::ops::Sub::sub(self.0, rhs)
    }
}

impl vstd::std_specs::ops::SubSpecImpl<i16> for UnalignedI16 {
    open spec fn obeys_sub_spec() -> bool {
        true
    }

    open spec fn sub_req(self, rhs: i16) -> bool {
        SubSpec::sub_req(self.value(), rhs)
    }

    open spec fn sub_spec(self, rhs: i16) -> i16 {
        SubSpec::sub_spec(self.value(), rhs)
    }
}

impl core::ops::Mul for UnalignedI16 {
    type Output = Self;

    fn mul(self, rhs: Self) -> (r: Self)
        ensures
            r.value() == MulSpec::mul_spec(self.value(), rhs.value()),
    {
        UnalignedI16(core::ops::Mul::mul(self.0, rhs.0))
    }
}

impl vstd::std_specs::ops::MulSpecImpl for UnalignedI16 {
    closed spec fn obeys_mul_spec() -> bool {
        true
    }

    open spec fn mul_req(self, rhs: Self) -> bool {
        MulSpec::mul_req(self.value(), rhs.value())
    }

    closed spec fn mul_spec(self, rhs: Self) -> Self {
        UnalignedI16(MulSpec::mul_spec(self.value(), rhs.value()))
    }
}

impl core::ops::Mul<i16> for UnalignedI16 {
    type Output = i16;

    fn mul(self, rhs: i16) -> (r: i16)
        ensures
            r == MulSpec::mul_spec(self.value(), rhs),
    {
        core::ops::Mul::mul(self.0, rhs)
    }
}

impl vstd::std_specs::ops::MulSpecImpl<i16> for UnalignedI16 {
    open spec fn obeys_mul_spec() -> bool {
        true
    }

    open spec fn mul_req(self, rhs: i16) -> bool {
        MulSpec::mul_req(self.value(), rhs)
    }

    open spec fn mul_spec(self, rhs: i16) -> i16 {
        MulSpec::mul_spec(self.value(), rhs)
    }
}

impl core::ops::Div for UnalignedI16 {
    type Output = Self;

    fn div(self, rhs: Self) -> (r: Self)
        ensures
            r.value() == DivSpec::div_spec(self.value(), rhs.value()),
    {
        UnalignedI16(core::ops::Div::div(self.0, rhs.0))
    }
}

impl vstd::std_specs::ops::DivSpecImpl for UnalignedI16 {
    closed spec fn obeys_div_spec() -> bool {
        true
    }

    open spec fn div_req(self, rhs: Self) -> bool {
        DivSpec::div_req(self.value(), rhs.value())
    }

    closed spec fn div_spec(self, rhs: Self) -> Self {
        UnalignedI16(DivSpec::div_spec(self.value(), rhs.value()))
    }
}

impl core::ops::Div<i16> for UnalignedI16 {
    type Output = i16;

    fn div(self, rhs: i16) -> (r: i16)
        ensures
            r == DivSpec::div_spec(self.value(), rhs),
    {
        core::ops::Div::div(self.0, rhs)
    }
}

impl vstd::std_specs::ops::DivSpecImpl<i16> for UnalignedI16 {
    open spec fn obeys_div_spec() -> bool {
        true
    }

    open spec fn div_req(self, rhs: i16) -> bool {
        DivSpec::div_req(self.value(), rhs)
    }

    open spec fn div_spec(self, rhs: i16) -> i16 {
        DivSpec::div_spec(self.value(), rhs)
    }
}

impl PartialEq<u32> for UnalignedU32 {
    fn eq(&self, other: &u32) -> (r: bool) {
        self.0 == *other
    }
}

impl PartialEqSpecImpl<u32> for UnalignedU32 {
    open spec fn obeys_eq_spec() -> bool {
        true
    }

    open spec fn eq_spec(&self, other: &u32) -> bool {
        self.value() == *other
    }
}

impl PartialOrd<u32> for UnalignedU32 {
    fn partial_cmp(&self, other: &u32) -> (r: Option<Ordering>) {
        if self.0 < *other {
            Some(Ordering::Less)
        } else if self.0 == *other {
            Some(Ordering::Equal)
        } else {
            Some(Ordering::Greater)
        }
    }
}

impl PartialOrdSpecImpl<u32> for UnalignedU32 {
    open spec fn obeys_partial_cmp_spec() -> bool {
        true
    }

    open spec fn partial_cmp_spec(&self, other: &u32) -> Option<Ordering> {
        if self.value() < *other {
            Some(Ordering::Less)
        } else if self.value() == *other {
            Some(Ordering::Equal)
        } else {
            Some(Ordering::Greater)
        }
    }
}

impl core::ops::Add for UnalignedU32 {
    type Output = Self;

    fn add(self, rhs: Self) -> (r: Self)
        ensures
            r.value() == AddSpec::add_spec(self.value(), rhs.value()),
    {
        UnalignedU32(core::ops::Add::add(self.0, rhs.0))
    }
}

impl vstd::std_specs::ops::AddSpecImpl for UnalignedU32 {
    closed spec fn obeys_add_spec() -> bool {
        true
    }

    open spec fn add_req(self, rhs: Self) -> bool {
        AddSpec::add_req(self.value(), rhs.value())
    }

    closed spec fn add_spec(self, rhs: Self) -> Self {
        UnalignedU32(AddSpec::add_spec(self.value(), rhs.value()))
    }
}

impl core::ops::Add<u32> for UnalignedU32 {
    type Output = u32;

    fn add(self, rhs: u32) -> (r: u32)
        ensures
            r == AddSpec::add_spec(self.value(), rhs),
    {
        core::ops::Add::add(self.0, rhs)
    }
}

impl vstd::std_specs::ops::AddSpecImpl<u32> for UnalignedU32 {
    open spec fn obeys_add_spec() -> bool {
        true
    }

    open spec fn add_req(self, rhs: u32) -> bool {
        AddSpec::add_req(self.value(), rhs)
    }

    open spec fn add_spec(self, rhs: u32) -> u32 {
        AddSpec::add_spec(self.value(), rhs)
    }
}

impl core::ops::Sub for UnalignedU32 {
    type Output = Self;

    fn sub(self, rhs: Self) -> (r: Self)
        ensures
            r.value() == SubSpec::sub_spec(self.value(), rhs.value()),
    {
        UnalignedU32(core::ops::Sub::sub(self.0, rhs.0))
    }
}

impl vstd::std_specs::ops::SubSpecImpl for UnalignedU32 {
    closed spec fn obeys_sub_spec() -> bool {
        true
    }

    open spec fn sub_req(self, rhs: Self) -> bool {
        SubSpec::sub_req(self.value(), rhs.value())
    }

    closed spec fn sub_spec(self, rhs: Self) -> Self {
        UnalignedU32(SubSpec::sub_spec(self.value(), rhs.value()))
    }
}

impl core::ops::Sub<u32> for UnalignedU32 {
    type Output = u32;

    fn sub(self, rhs: u32) -> (r: u32)
        ensures
            r == SubSpec::sub_spec(self.value(), rhs),
    {
        core::ops::Sub::sub(self.0, rhs)
    }
}

impl vstd::std_specs::ops::SubSpecImpl<u32> for UnalignedU32 {
    open spec fn obeys_sub_spec() -> bool {
        true
    }

    open spec fn sub_req(self, rhs: u32) -> bool {
        SubSpec::sub_req(self.value(), rhs)
    }

    open spec fn sub_spec(self, rhs: u32) -> u32 {
        SubSpec::sub_spec(self.value(), rhs)
    }
}

impl core::ops::Mul for UnalignedU32 {
    type Output = Self;

    fn mul(self, rhs: Self) -> (r: Self)
        ensures
            r.value() == MulSpec::mul_spec(self.value(), rhs.value()),
    {
        UnalignedU32(core::ops::Mul::mul(self.0, rhs.0))
    }
}

impl vstd::std_specs::ops::MulSpecImpl for UnalignedU32 {
    closed spec fn obeys_mul_spec() -> bool {
        true
    }

    open spec fn mul_req(self, rhs: Self) -> bool {
        MulSpec::mul_req(self.value(), rhs.value())
    }

    closed spec fn mul_spec(self, rhs: Self) -> Self {
        UnalignedU32(MulSpec::mul_spec(self.value(), rhs.value()))
    }
}

impl core::ops::Mul<u32> for UnalignedU32 {
    type Output = u32;

    fn mul(self, rhs: u32) -> (r: u32)
        ensures
            r == MulSpec::mul_spec(self.value(), rhs),
    {
        core::ops::Mul::mul(self.0, rhs)
    }
}

impl vstd::std_specs::ops::MulSpecImpl<u32> for UnalignedU32 {
    open spec fn obeys_mul_spec() -> bool {
        true
    }

    open spec fn mul_req(self, rhs: u32) -> bool {
        MulSpec::mul_req(self.value(), rhs)
    }

    open spec fn mul_spec(self, rhs: u32) -> u32 {
        MulSpec::mul_spec(self.value(), rhs)
    }
}

impl core::ops::Div for UnalignedU32 {
    type Output = Self;

    fn div(self, rhs: Self) -> (r: Self)
        ensures
            r.value() == DivSpec::div_spec(self.value(), rhs.value()),
    {
        UnalignedU32(core::ops::Div::div(self.0, rhs.0))
    }
}

impl vstd::std_specs::ops::DivSpecImpl for UnalignedU32 {
    closed spec fn obeys_div_spec() -> bool {
        true
    }

    open spec fn div_req(self, rhs: Self) -> bool {
        DivSpec::div_req(self.value(), rhs.value())
    }

    closed spec fn div_spec(self, rhs: Self) -> Self {
        UnalignedU32(DivSpec::div_spec(self.value(), rhs.value()))
    }
}

impl core::ops::Div<u32> for UnalignedU32 {
    type Output = u32;

    fn div(self, rhs: u32) -> (r: u32)
        ensures
            r == DivSpec::div_spec(self.value(), rhs),
    {
        core::ops::Div::div(self.0, rhs)
    }
}

impl vstd::std_specs::ops::DivSpecImpl<u32> for UnalignedU32 {
    open spec fn obeys_div_spec() -> bool {
        true
    }

    open spec fn div_req(self, rhs: u32) -> bool {
        DivSpec::div_req(self.value(), rhs)
    }

    open spec fn div_spec(self, rhs: u32) -> u32 {
        DivSpec::div_spec(self.value(), rhs)
    }
}

impl PartialEq<i32> for UnalignedI32 {
    fn eq(&self, other: &i32) -> (r: bool) {
        self.0 == *other
    }
}

impl PartialEqSpecImpl<i32> for UnalignedI32 {
    open spec fn obeys_eq_spec() -> bool {
        true
    }

    open spec fn eq_spec(&self, other: &i32) -> bool {
        self.value() == *other
    }
}

impl PartialOrd<i32> for UnalignedI32 {
    fn partial_cmp(&self, other: &i32) -> (r: Option<Ordering>) {
        if self.0 < *other {
            Some(Ordering::Less)
        } else if self.0 == *other {
            Some(Ordering::Equal)
        } else {
            Some(Ordering::Greater)
        }
    }
}

impl PartialOrdSpecImpl<i32> for UnalignedI32 {
    open spec fn obeys_partial_cmp_spec() -> bool {
        true
    }

    open spec fn partial_cmp_spec(&self, other: &i32) -> Option<Ordering> {
        if self.value() < *other {
            Some(Ordering::Less)
        } else if self.value() == *other {
            Some(Ordering::Equal)
        } else {
            Some(Ordering::Greater)
        }
    }
}

impl core::ops::Add for UnalignedI32 {
    type Output = Self;

    fn add(self, rhs: Self) -> (r: Self)
        ensures
            r.value() == AddSpec::add_spec(self.value(), rhs.value()),
    {
        UnalignedI32(core::ops::Add::add(self.0, rhs.0))
    }
}

impl vstd::std_specs::ops::AddSpecImpl for UnalignedI32 {
    closed spec fn obeys_add_spec() -> bool {
        true
    }

    open spec fn add_req(self, rhs: Self) -> bool {
        AddSpec::add_req(self.value(), rhs.value())
    }

    closed spec fn add_spec(self, rhs: Self) -> Self {
        UnalignedI32(AddSpec::add_spec(self.value(), rhs.value()))
    }
}

impl core::ops::Add<i32> for UnalignedI32 {
    type Output = i32;

    fn add(self, rhs: i32) -> (r: i32)
        ensures
            r == AddSpec::add_spec(self.value(), rhs),
    {
        core::ops::Add::add(self.0, rhs)
    }
}

impl vstd::std_specs::ops::AddSpecImpl<i32> for UnalignedI32 {
    open spec fn obeys_add_spec() -> bool {
        true
    }

    open spec fn add_req(self, rhs: i32) -> bool {
        AddSpec::add_req(self.value(), rhs)
    }

    open spec fn add_spec(self, rhs: i32) -> i32 {
        AddSpec::add_spec(self.value(), rhs)
    }
}

impl core::ops::Sub for UnalignedI32 {
    type Output = Self;

    fn sub(self, rhs: Self) -> (r: Self)
        ensures
            r.value() == SubSpec::sub_spec(self.value(), rhs.value()),
    {
        UnalignedI32(core::ops::Sub::sub(self.0, rhs.0))
    }
}

impl vstd::std_specs::ops::SubSpecImpl for UnalignedI32 {
    closed spec fn obeys_sub_spec() -> bool {
        true
    }

    open spec fn sub_req(self, rhs: Self) -> bool {
        SubSpec::sub_req(self.value(), rhs.value())
    }

    closed spec fn sub_spec(self, rhs: Self) -> Self {
        UnalignedI32(SubSpec::sub_spec(self.value(), rhs.value()))
    }
}

impl core::ops::Sub<i32> for UnalignedI32 {
    type Output = i32;

    fn sub(self, rhs: i32) -> (r: i32)
        ensures
            r == SubSpec::sub_spec(self.value(), rhs),
    {
        core::ops::Sub::sub(self.0, rhs)
    }
}

impl vstd::std_specs::ops::SubSpecImpl<i32> for UnalignedI32 {
    open spec fn obeys_sub_spec() -> bool {
        true
    }

    open spec fn sub_req(self, rhs: i32) -> bool {
        SubSpec::sub_req(self.value(), rhs)
    }

    open spec fn sub_spec(self, rhs: i32) -> i32 {
        SubSpec::sub_spec(self.value(), rhs)
    }
}

impl core::ops::Mul for UnalignedI32 {
    type Output = Self;

    fn mul(self, rhs: Self) -> (r: Self)
        ensures
            r.value() == MulSpec::mul_spec(self.value(), rhs.value()),
    {
        UnalignedI32(core::ops::Mul::mul(self.0, rhs.0))
    }
}

impl vstd::std_specs::ops::MulSpecImpl for UnalignedI32 {
    closed spec fn obeys_mul_spec() -> bool {
        true
    }

    open spec fn mul_req(self, rhs: Self) -> bool {
        MulSpec::mul_req(self.value(), rhs.value())
    }

    closed spec fn mul_spec(self, rhs: Self) -> Self {
        UnalignedI32(MulSpec::mul_spec(self.value(), rhs.value()))
    }
}

impl core::ops::Mul<i32> for UnalignedI32 {
    type Output = i32;

    fn mul(self, rhs: i32) -> (r: i32)
        ensures
            r == MulSpec::mul_spec(self.value(), rhs),
    {
        core::ops::Mul::mul(self.0, rhs)
    }
}

impl vstd::std_specs::ops::MulSpecImpl<i32> for UnalignedI32 {
    open spec fn obeys_mul_spec() -> bool {
        true
    }

    open spec fn mul_req(self, rhs: i32) -> bool {
        MulSpec::mul_req(self.value(), rhs)
    }

    open spec fn mul_spec(self, rhs: i32) -> i32 {
        MulSpec::mul_spec(self.value(), rhs)
    }
}

impl core::ops::Div for UnalignedI32 {
    type Output = Self;

    fn div(self, rhs: Self) -> (r: Self)
        ensures
            r.value() == DivSpec::div_spec(self.value(), rhs.value()),
    {
        UnalignedI32(core::ops::Div::div(self.0, rhs.0))
    }
}

impl vstd::std_specs::ops::DivSpecImpl for UnalignedI32 {
    closed spec fn obeys_div_spec() -> bool {
        true
    }

    open spec fn div_req(self, rhs: Self) -> bool {
        DivSpec::div_req(self.value(), rhs.value())
    }

    closed spec fn div_spec(self, rhs: Self) -> Self {
        UnalignedI32(DivSpec::div_spec(self.value(), rhs.value()))
    }
}

impl core::ops::Div<i32> for UnalignedI32 {
    type Output = i32;

    fn div(self, rhs: i32) -> (r: i32)
        ensures
            r == DivSpec::div_spec(self.value(), rhs),
    {
        core::ops::Div::div(self.0, rhs)
    }
}

impl vstd::std_specs::ops::DivSpecImpl<i32> for UnalignedI32 {
    open spec fn obeys_div_spec() -> bool {
        true
    }

    open spec fn div_req(self, rhs: i32) -> bool {
        DivSpec::div_req(self.value(), rhs)
    }

    open spec fn div_spec(self, rhs: i32) -> i32 {
        DivSpec::div_spec(self.value(), rhs)
    }
}

impl PartialEq<u64> for UnalignedU64 {
    fn eq(&self, other: &u64) -> (r: bool) {
        self.0 == *other
    }
}

impl PartialEqSpecImpl<u64> for UnalignedU64 {
    open spec fn obeys_eq_spec() -> bool {
        true
    }

    open spec fn eq_spec(&self, other: &u64) -> bool {
        self.value() == *other
    }
}

impl PartialOrd<u64> for UnalignedU64 {
    fn partial_cmp(&self, other: &u64) -> (r: Option<Ordering>) {
        if self.0 < *other {
            Some(Ordering::Less)
        } else if self.0 == *other {
            Some(Ordering::Equal)
        } else {
            Some(Ordering::Greater)
        }
    }
}

impl PartialOrdSpecImpl<u64> for UnalignedU64 {
    open spec fn obeys_partial_cmp_spec() -> bool {
        true
    }

    open spec fn partial_cmp_spec(&self, other: &u64) -> Option<Ordering> {
        if self.value() < *other {
            Some(Ordering::Less)
        } else if self.value() == *other {
            Some(Ordering::Equal)
        } else {
            Some(Ordering::Greater)
        }
    }
}

impl core::ops::Add for UnalignedU64 {
    type Output = Self;

    fn add(self, rhs: Self) -> (r: Self)
        ensures
            r.value() == AddSpec::add_spec(self.value(), rhs.value()),
    {
        UnalignedU64(core::ops::Add::add(self.0, rhs.0))
    }
}

impl vstd::std_specs::ops::AddSpecImpl for UnalignedU64 {
    closed spec fn obeys_add_spec() -> bool {
        true
    }

    open spec fn add_req(self, rhs: Self) -> bool {
        AddSpec::add_req(self.value(), rhs.value())
    }

    closed spec fn add_spec(self, rhs: Self) -> Self {
        UnalignedU64(AddSpec::add_spec(self.value(), rhs.value()))
    }
}

impl core::ops::Add<u64> for UnalignedU64 {
    type Output = u64;

    fn add(self, rhs: u64) -> (r: u64)
        ensures
            r == AddSpec::add_spec(self.value(), rhs),
    {
        core::ops::Add::add(self.0, rhs)
    }
}

impl vstd::std_specs::ops::AddSpecImpl<u64> for UnalignedU64 {
    open spec fn obeys_add_spec() -> bool {
        true
    }

    open spec fn add_req(self, rhs: u64) -> bool {
        AddSpec::add_req(self.value(), rhs)
    }

    open spec fn add_spec(self, rhs: u64) -> u64 {
        AddSpec::add_spec(self.value(), rhs)
    }
}

impl core::ops::Sub for UnalignedU64 {
    type Output = Self;

    fn sub(self, rhs: Self) -> (r: Self)
        ensures
            r.value() == SubSpec::sub_spec(self.value(), rhs.value()),
    {
        UnalignedU64(core::ops::Sub::sub(self.0, rhs.0))
    }
}

impl vstd::std_specs::ops::SubSpecImpl for UnalignedU64 {
    closed spec fn obeys_sub_spec() -> bool {
        true
    }

    open spec fn sub_req(self, rhs: Self) -> bool {
        SubSpec::sub_req(self.value(), rhs.value())
    }

    closed spec fn sub_spec(self, rhs: Self) -> Self {
        UnalignedU64(SubSpec::sub_spec(self.value(), rhs.value()))
    }
}

impl core::ops::Sub<u64> for UnalignedU64 {
    type Output = u64;

    fn sub(self, rhs: u64) -> (r: u64)
        ensures
            r == SubSpec::sub_spec(self.value(), rhs),
    {
        core::ops::Sub::sub(self.0, rhs)
    }
}

impl vstd::std_specs::ops::SubSpecImpl<u64> for UnalignedU64 {
    open spec fn obeys_sub_spec() -> bool {
        true
    }

    open spec fn sub_req(self, rhs: u64) -> bool {
        SubSpec::sub_req(self.value(), rhs)
    }

    open spec fn sub_spec(self, rhs: u64) -> u64 {
        SubSpec::sub_spec(self.value(), rhs)
    }
}

impl core::ops::Mul for UnalignedU64 {
    type Output = Self;

    fn mul(self, rhs: Self) -> (r: Self)
        ensures
            r.value() == MulSpec::mul_spec(self.value(), rhs.value()),
    {
        UnalignedU64(core::ops::Mul::mul(self.0, rhs.0))
    }
}

impl vstd::std_specs::ops::MulSpecImpl for UnalignedU64 {
    closed spec fn obeys_mul_spec() -> bool {
        true
    }

    open spec fn mul_req(self, rhs: Self) -> bool {
        MulSpec::mul_req(self.value(), rhs.value())
    }

    closed spec fn mul_spec(self, rhs: Self) -> Self {
        UnalignedU64(MulSpec::mul_spec(self.value(), rhs.value()))
    }
}

impl core::ops::Mul<u64> for UnalignedU64 {
    type Output = u64;

    fn mul(self, rhs: u64) -> (r: u64)
        ensures
            r == MulSpec::mul_spec(self.value(), rhs),
    {
        core::ops::Mul::mul(self.0, rhs)
    }
}

impl vstd::std_specs::ops::MulSpecImpl<u64> for UnalignedU64 {
    open spec fn obeys_mul_spec() -> bool {
        true
    }

    open spec fn mul_req(self, rhs: u64) -> bool {
        MulSpec::mul_req(self.value(), rhs)
    }

    open spec fn mul_spec(self, rhs: u64) -> u64 {
        MulSpec::mul_spec(self.value(), rhs)
    }
}

impl core::ops::Div for UnalignedU64 {
    type Output = Self;

    fn div(self, rhs: Self) -> (r: Self)
        ensures
            r.value() == DivSpec::div_spec(self.value(), rhs.value()),
    {
        UnalignedU64(core::ops::Div::div(self.0, rhs.0))
    }
}

impl vstd::std_specs::ops::DivSpecImpl for UnalignedU64 {
    closed spec fn obeys_div_spec() -> bool {
        true
    }

    open spec fn div_req(self, rhs: Self) -> bool {
        DivSpec::div_req(self.value(), rhs.value())
    }

    closed spec fn div_spec(self, rhs: Self) -> Self {
        UnalignedU64(DivSpec::div_spec(self.value(), rhs.value()))
    }
}

impl core::ops::Div<u64> for UnalignedU64 {
    type Output = u64;

    fn div(self, rhs: u64) -> (r: u64)
        ensures
            r == DivSpec::div_spec(self.value(), rhs),
    {
        core::ops::Div::div(self.0, rhs)
    }
}

impl vstd::std_specs::ops::DivSpecImpl<u64> for UnalignedU64 {
    open spec fn obeys_div_spec() -> bool {
        true
    }

    open spec fn div_req(self, rhs: u64) -> bool {
        DivSpec::div_req(self.value(), rhs)
    }

    open spec fn div_spec(self, rhs: u64) -> u64 {
        DivSpec::div_spec(self.value(), rhs)
    }
}

impl PartialEq<i64> for UnalignedI64 {
    fn eq(&self, other: &i64) -> (r: bool) {
        self.0 == *other
    }
}

impl PartialEqSpecImpl<i64> for UnalignedI64 {
    open spec fn obeys_eq_spec() -> bool {
        true
    }

    open spec fn eq_spec(&self, other: &i64) -> bool {
        self.value() == *other
    }
}

impl PartialOrd<i64> for UnalignedI64 {
    fn partial_cmp(&self, other: &i64) -> (r: Option<Ordering>) {
        if self.0 < *other {
            Some(Ordering::Less)
        } else if self.0 == *other {
            Some(Ordering::Equal)
        } else {
            Some(Ordering::Greater)
        }
    }
}

impl PartialOrdSpecImpl<i64> for UnalignedI64 {
    open spec fn obeys_partial_cmp_spec() -> bool {
        true
    }

    open spec fn partial_cmp_spec(&self, other: &i64) -> Option<Ordering> {
        if self.value() < *other {
            Some(Ordering::Less)
        } else if self.value() == *other {
            Some(Ordering::Equal)
        } else {
            Some(Ordering::Greater)
        }
    }
}

impl core::ops::Add for UnalignedI64 {
    type Output = Self;

    fn add(self, rhs: Self) -> (r: Self)
        ensures
            r.value() == AddSpec::add_spec(self.value(), rhs.value()),
    {
        UnalignedI64(core::ops::Add::add(self.0, rhs.0))
    }
}

impl vstd::std_specs::ops::AddSpecImpl for UnalignedI64 {
    closed spec fn obeys_add_spec() -> bool {
        true
    }

    open spec fn add_req(self, rhs: Self) -> bool {
        AddSpec::add_req(self.value(), rhs.value())
    }

    closed spec fn add_spec(self, rhs: Self) -> Self {
        UnalignedI64(AddSpec::add_spec(self.value(), rhs.value()))
    }
}

impl core::ops::Add<i64> for UnalignedI64 {
    type Output = i64;

    fn add(self, rhs: i64) -> (r: i64)
        ensures
            r == AddSpec::add_spec(self.value(), rhs),
    {
        core::ops::Add::add(self.0, rhs)
    }
}

impl vstd::std_specs::ops::AddSpecImpl<i64> for UnalignedI64 {
    open spec fn obeys_add_spec() -> bool {
        true
    }

    open spec fn add_req(self, rhs: i64) -> bool {
        AddSpec::add_req(self.value(), rhs)
    }

    open spec fn add_spec(self, rhs: i64) -> i64 {
        AddSpec::add_spec(self.value(), rhs)
    }
}

impl core::ops::Sub for UnalignedI64 {
    type Output = Self;

    fn sub(self, rhs: Self) -> (r: Self)
        ensures
            r.value() == SubSpec::sub_spec(self.value(), rhs.value()),
    {
        UnalignedI64(core::ops::Sub::sub(self.0, rhs.0))
    }
}

impl vstd::std_specs::ops::SubSpecImpl for UnalignedI64 {
    closed spec fn obeys_sub_spec() -> bool {
        true
    }

    open spec fn sub_req(self, rhs: Self) -> bool {
        SubSpec::sub_req(self.value(), rhs.value())
    }

    closed spec fn sub_spec(self, rhs: Self) -> Self {
        UnalignedI64(SubSpec::sub_spec(self.value(), rhs.value()))
    }
}

impl core::ops::Sub<i64> for UnalignedI64 {
    type Output = i64;

    fn sub(self, rhs: i64) -> (r: i64)
        ensures
            r == SubSpec::sub_spec(self.value(), rhs),
    {
        core::ops::Sub::sub(self.0, rhs)
    }
}

impl vstd::std_specs::ops::SubSpecImpl<i64> for UnalignedI64 {
    open spec fn obeys_sub_spec() -> bool {
        true
    }

    open spec fn sub_req(self, rhs: i64) -> bool {
        SubSpec::sub_req(self.value(), rhs)
    }

    open spec fn sub_spec(self, rhs: i64) -> i64 {
        SubSpec::sub_spec(self.value(), rhs)
    }
}

impl core::ops::Mul for UnalignedI64 {
    type Output = Self;

    fn mul(self, rhs: Self) -> (r: Self)
        ensures
            r.value() == MulSpec::mul_spec(self.value(), rhs.value()),
    {
        UnalignedI64(core::ops::Mul::mul(self.0, rhs.0))
    }
}

impl vstd::std_specs::ops::MulSpecImpl for UnalignedI64 {
    closed spec fn obeys_mul_spec() -> bool {
        true
    }

    open spec fn mul_req(self, rhs: Self) -> bool {
        MulSpec::mul_req(self.value(), rhs.value())
    }

    closed spec fn mul_spec(self, rhs: Self) -> Self {
        UnalignedI64(MulSpec::mul_spec(self.value(), rhs.value()))
    }
}

impl core::ops::Mul<i64> for UnalignedI64 {
    type Output = i64;

    fn mul(self, rhs: i64) -> (r: i64)
        ensures
            r == MulSpec::mul_spec(self.value(), rhs),
    {
        core::ops::Mul::mul(self.0, rhs)
    }
}

impl vstd::std_specs::ops::MulSpecImpl<i64> for UnalignedI64 {
    open spec fn obeys_mul_spec() -> bool {
        true
    }

    open spec fn mul_req(self, rhs: i64) -> bool {
        MulSpec::mul_req(self.value(), rhs)
    }

    open spec fn mul_spec(self, rhs: i64) -> i64 {
        MulSpec::mul_spec(self.value(), rhs)
    }
}

impl core::ops::Div for UnalignedI64 {
    type Output = Self;

    fn div(self, rhs: Self) -> (r: Self)
        ensures
            r.value() == DivSpec::div_spec(self.value(), rhs.value()),
    {
        UnalignedI64(core::ops::Div::div(self.0, rhs.0))
    }
}

impl vstd::std_specs::ops::DivSpecImpl for UnalignedI64 {
    closed spec fn obeys_div_spec() -> bool {
        true
    }

    open spec fn div_req(self, rhs: Self) -> bool {
        DivSpec::div_req(self.value(), rhs.value())
    }

    closed spec fn div_spec(self, rhs: Self) -> Self {
        UnalignedI64(DivSpec::div_spec(self.value(), rhs.value()))
    }
}

impl core::ops::Div<i64> for UnalignedI64 {
    type Output = i64;

    fn div(self, rhs: i64) -> (r: i64)
        ensures
            r == DivSpec::div_spec(self.value(), rhs),
    {
        core::ops::Div::div(self.0, rhs)
    }
}

impl vstd::std_specs::ops::DivSpecImpl<i64> for UnalignedI64 {
    open spec fn obeys_div_spec() -> bool {
        true
    }

    open spec fn div_req(self, rhs: i64) -> bool {
        DivSpec::div_req(self.value(), rhs)
    }

    open spec fn div_spec(self, rhs: i64) -> i64 {
        DivSpec::div_spec(self.value(), rhs)
    }
}


/// Law: converting a `u16` into a `UnalignedU16` keeps its value, and converting back gives the `u16`
/// that went in; converting a `UnalignedU16` into a `u16` gives its value
pub proof fn lemma_u16_conversions_keep_value(v: u16, x: UnalignedU16)
    ensures
        <UnalignedU16 as FromSpec<u16>>::obeys_from_spec(),
        <UnalignedU16 as FromSpec<u16>>::from_spec(v).value() == v,
        <u16 as FromSpec<UnalignedU16>>::obeys_from_spec(),
        <u16 as FromSpec<UnalignedU16>>::from_spec(<UnalignedU16 as FromSpec<u16>>::from_spec(v)) == v,
        <u16 as FromSpec<UnalignedU16>>::from_spec(x) == x.value(),
{
}


/// Law: converting a `i16` into a `UnalignedI16` keeps its value, and converting back gives the `i16`
/// that went in; converting a `UnalignedI16` into a `i16` gives its value
pub proof fn lemma_i16_conversions_keep_value(v: i16, x: UnalignedI16)
    ensures
        <UnalignedI16 as FromSpec<i16>>::obeys_from_spec(),
        <UnalignedI16 as FromSpec<i16>>::from_spec(v).value() == v,
        <i16 as FromSpec<UnalignedI16>>::obeys_from_spec(),
        <i16 as FromSpec<UnalignedI16>>::from_spec(<UnalignedI16 as FromSpec<i16>>::from_spec(v)) == v,
        <i16 as FromSpec<UnalignedI16>>::from_spec(x) == x.value(),
{
}


/// Law: converting a `u32` into a `UnalignedU32` keeps its value, and converting back gives the `u32`
/// that went in; converting a `UnalignedU32` into a `u32` gives its value
pub proof fn lemma_u32_conversions_keep_value(v: u32, x: UnalignedU32)
    ensures
        <UnalignedU32 as FromSpec<u32>>::obeys_from_spec(),
        <UnalignedU32 as FromSpec<u32>>::from_spec(v).value() == v,
        <u32 as FromSpec<UnalignedU32>>::obeys_from_spec(),
        <u32 as FromSpec<UnalignedU32>>::from_spec(<UnalignedU32 as FromSpec<u32>>::from_spec(v)) == v,
        <u32 as FromSpec<UnalignedU32>>::from_spec(x) == x.value(),
{
}


/// Law: converting a `i32` into a `UnalignedI32` keeps its value, and converting back gives the `i32`
/// that went in; converting a `UnalignedI32` into a `i32` gives its value
pub proof fn lemma_i32_conversions_keep_value(v: i32, x: UnalignedI32)
    ensures
        <UnalignedI32 as FromSpec<i32>>::obeys_from_spec(),
        <UnalignedI32 as FromSpec<i32>>::from_spec(v).value() == v,
        <i32 as FromSpec<UnalignedI32>>::obeys_from_spec(),
        <i32 as FromSpec<UnalignedI32>>::from_spec(<UnalignedI32 as FromSpec<i32>>::from_spec(v)) == v,
        <i32 as FromSpec<UnalignedI32>>::from_spec(x) == x.value(),
{
}


/// Law: converting a `u64` into a `UnalignedU64` keeps its value, and converting back gives the `u64`
/// that went in; converting a `UnalignedU64` into a `u64` gives its value
pub proof fn lemma_u64_conversions_keep_value(v: u64, x: UnalignedU64)
    ensures
        <UnalignedU64 as FromSpec<u64>>::obeys_from_spec(),
        <UnalignedU64 as FromSpec<u64>>::from_spec(v).value() == v,
        <u64 as FromSpec<UnalignedU64>>::obeys_from_spec(),
        <u64 as FromSpec<UnalignedU64>>::from_spec(<UnalignedU64 as FromSpec<u64>>::from_spec(v)) == v,
        <u64 as FromSpec<UnalignedU64>>::from_spec(x) == x.value(),
{
}


/// Law: converting a `i64` into a `UnalignedI64` keeps its value, and converting back gives the `i64`
/// that went in; converting a `UnalignedI64` into a `i64` gives its value
pub proof fn lemma_i64_conversions_keep_value(v: i64, x: UnalignedI64)
    ensures
        <UnalignedI64 as FromSpec<i64>>::obeys_from_spec(),
        <UnalignedI64 as FromSpec<i64>>::from_spec(v).value() == v,
        <i64 as FromSpec<UnalignedI64>>::obeys_from_spec(),
        <i64 as FromSpec<UnalignedI64>>::from_spec(<UnalignedI64 as FromSpec<i64>>::from_spec(v)) == v,
        <i64 as FromSpec<UnalignedI64>>::from_spec(x) == x.value(),
{
}



/// Law: add, sub, mul, div of `UnalignedU16` values, or of a `UnalignedU16` and a `u16`, compute on the values, for
/// every pair that the `u16` operation accepts (no overflow, no division by zero)
pub proof fn lemma_u16_arithmetic_on_values(x: UnalignedU16, y: UnalignedU16, o: u16)
    ensures
        AddSpec::add_req(x.value(), y.value()) ==> <UnalignedU16 as AddSpec>::add_req(x, y) && (<UnalignedU16 as AddSpec>::add_spec(x, y)).value() == x.value() + y.value(),
        AddSpec::add_req(x.value(), o) ==> <UnalignedU16 as AddSpec<u16>>::add_req(x, o) && <UnalignedU16 as AddSpec<u16>>::add_spec(x, o) == x.value() + o,
        SubSpec::sub_req(x.value(), y.value()) ==> <UnalignedU16 as SubSpec>::sub_req(x, y) && (<UnalignedU16 as SubSpec>::sub_spec(x, y)).value() == x.value() - y.value(),
        SubSpec::sub_req(x.value(), o) ==> <UnalignedU16 as SubSpec<u16>>::sub_req(x, o) && <UnalignedU16 as SubSpec<u16>>::sub_spec(x, o) == x.value() - o,
        MulSpec::mul_req(x.value(), y.value()) ==> <UnalignedU16 as MulSpec>::mul_req(x, y) && (<UnalignedU16 as MulSpec>::mul_spec(x, y)).value() == x.value() * y.value(),
        MulSpec::mul_req(x.value(), o) ==> <UnalignedU16 as MulSpec<u16>>::mul_req(x, o) && <UnalignedU16 as MulSpec<u16>>::mul_spec(x, o) == x.value() * o,
        DivSpec::div_req(x.value(), y.value()) ==> <UnalignedU16 as DivSpec>::div_req(x, y) && (<UnalignedU16 as DivSpec>::div_spec(x, y)).value() == x.value() / y.value(),
        DivSpec::div_req(x.value(), o) ==> <UnalignedU16 as DivSpec<u16>>::div_req(x, o) && <UnalignedU16 as DivSpec<u16>>::div_spec(x, o) == x.value() / o,
{
}

/// Law: add, sub, mul of `UnalignedI16` values, or of a `UnalignedI16` and a `i16`, compute on the values, for
/// every pair that the `i16` operation accepts (no overflow)
pub proof fn lemma_i16_arithmetic_on_values(x: UnalignedI16, y: UnalignedI16, o: i16)
    ensures
        AddSpec::add_req(x.value(), y.value()) ==> <UnalignedI16 as AddSpec>::add_req(x, y) && (<UnalignedI16 as AddSpec>::add_spec(x, y)).value() == x.value() + y.value(),
        AddSpec::add_req(x.value(), o) ==> <UnalignedI16 as AddSpec<i16>>::add_req(x, o) && <UnalignedI16 as AddSpec<i16>>::add_spec(x, o) == x.value() + o,
        SubSpec::sub_req(x.value(), y.value()) ==> <UnalignedI16 as SubSpec>::sub_req(x, y) && (<UnalignedI16 as SubSpec>::sub_spec(x, y)).value() == x.value() - y.value(),
        SubSpec::sub_req(x.value(), o) ==> <UnalignedI16 as SubSpec<i16>>::sub_req(x, o) && <UnalignedI16 as SubSpec<i16>>::sub_spec(x, o) == x.value() - o,
        MulSpec::mul_req(x.value(), y.value()) ==> <UnalignedI16 as MulSpec>::mul_req(x, y) && (<UnalignedI16 as MulSpec>::mul_spec(x, y)).value() == x.value() * y.value(),
        MulSpec::mul_req(x.value(), o) ==> <UnalignedI16 as MulSpec<i16>>::mul_req(x, o) && <UnalignedI16 as MulSpec<i16>>::mul_spec(x, o) == x.value() * o,
{
}

/// Law: add, sub, mul, div of `UnalignedU32` values, or of a `UnalignedU32` and a `u32`, compute on the values, for
/// every pair that the `u32` operation accepts (no overflow, no division by zero)
pub proof fn lemma_u32_arithmetic_on_values(x: UnalignedU32, y: UnalignedU32, o: u32)
    ensures
        AddSpec::add_req(x.value(), y.value()) ==> <UnalignedU32 as AddSpec>::add_req(x, y) && (<UnalignedU32 as AddSpec>::add_spec(x, y)).value() == x.value() + y.value(),
        AddSpec::add_req(x.value(), o) ==> <UnalignedU32 as AddSpec<u32>>::add_req(x, o) && <UnalignedU32 as AddSpec<u32>>::add_spec(x, o) == x.value() + o,
        SubSpec::sub_req(x.value(), y.value()) ==> <UnalignedU32 as SubSpec>::sub_req(x, y) && (<UnalignedU32 as SubSpec>::sub_spec(x, y)).value() == x.value() - y.value(),
        SubSpec::sub_req(x.value(), o) ==> <UnalignedU32 as SubSpec<u32>>::sub_req(x, o) && <UnalignedU32 as SubSpec<u32>>::sub_spec(x, o) == x.value() - o,
        MulSpec::mul_req(x.value(), y.value()) ==> <UnalignedU32 as MulSpec>::mul_req(x, y) && (<UnalignedU32 as MulSpec>::mul_spec(x, y)).value() == x.value() * y.value(),
        MulSpec::mul_req(x.value(), o) ==> <UnalignedU32 as MulSpec<u32>>::mul_req(x, o) && <UnalignedU32 as MulSpec<u32>>::mul_spec(x, o) == x.value() * o,
        DivSpec::div_req(x.value(), y.value()) ==> <UnalignedU32 as DivSpec>::div_req(x, y) && (<UnalignedU32 as DivSpec>::div_spec(x, y)).value() == x.value() / y.value(),
        DivSpec::div_req(x.value(), o) ==> <UnalignedU32 as DivSpec<u32>>::div_req(x, o) && <UnalignedU32 as DivSpec<u32>>::div_spec(x, o) == x.value() / o,
{
}

/// Law: add, sub, mul of `UnalignedI32` values, or of a `UnalignedI32` and a `i32`, compute on the values, for
/// every pair that the `i32` operation accepts (no overflow)
pub proof fn lemma_i32_arithmetic_on_values(x: UnalignedI32, y: UnalignedI32, o: i32)
    ensures
        AddSpec::add_req(x.value(), y.value()) ==> <UnalignedI32 as AddSpec>::add_req(x, y) && (<UnalignedI32 as AddSpec>::add_spec(x, y)).value() == x.value() + y.value(),
        AddSpec::add_req(x.value(), o) ==> <UnalignedI32 as AddSpec<i32>>::add_req(x, o) && <UnalignedI32 as AddSpec<i32>>::add_spec(x, o) == x.value() + o,
        SubSpec::sub_req(x.value(), y.value()) ==> <UnalignedI32 as SubSpec>::sub_req(x, y) && (<UnalignedI32 as SubSpec>::sub_spec(x, y)).value() == x.value() - y.value(),
        SubSpec::sub_req(x.value(), o) ==> <UnalignedI32 as SubSpec<i32>>::sub_req(x, o) && <UnalignedI32 as SubSpec<i32>>::sub_spec(x, o) == x.value() - o,
        MulSpec::mul_req(x.value(), y.value()) ==> <UnalignedI32 as MulSpec>::mul_req(x, y) && (<UnalignedI32 as MulSpec>::mul_spec(x, y)).value() == x.value() * y.value(),
        MulSpec::mul_req(x.value(), o) ==> <UnalignedI32 as MulSpec<i32>>::mul_req(x, o) && <UnalignedI32 as MulSpec<i32>>::mul_spec(x, o) == x.value() * o,
{
}

/// Law: add, sub, mul, div of `UnalignedU64` values, or of a `UnalignedU64` and a `u64`, compute on the values, for
/// every pair that the `u64` operation accepts (no overflow, no division by zero)
pub proof fn lemma_u64_arithmetic_on_values(x: UnalignedU64, y: UnalignedU64, o: u64)
    ensures
        AddSpec::add_req(x.value(), y.value()) ==> <UnalignedU64 as AddSpec>::add_req(x, y) && (<UnalignedU64 as AddSpec>::add_spec(x, y)).value() == x.value() + y.value(),
        AddSpec::add_req(x.value(), o) ==> <UnalignedU64 as AddSpec<u64>>::add_req(x, o) && <UnalignedU64 as AddSpec<u64>>::add_spec(x, o) == x.value() + o,
        SubSpec::sub_req(x.value(), y.value()) ==> <UnalignedU64 as SubSpec>::sub_req(x, y) && (<UnalignedU64 as SubSpec>::sub_spec(x, y)).value() == x.value() - y.value(),
        SubSpec::sub_req(x.value(), o) ==> <UnalignedU64 as SubSpec<u64>>::sub_req(x, o) && <UnalignedU64 as SubSpec<u64>>::sub_spec(x, o) == x.value() - o,
        MulSpec::mul_req(x.value(), y.value()) ==> <UnalignedU64 as MulSpec>::mul_req(x, y) && (<UnalignedU64 as MulSpec>::mul_spec(x, y)).value() == x.value() * y.value(),
        MulSpec::mul_req(x.value(), o) ==> <UnalignedU64 as MulSpec<u64>>::mul_req(x, o) && <UnalignedU64 as MulSpec<u64>>::mul_spec(x, o) == x.value() * o,
        DivSpec::div_req(x.value(), y.value()) ==> <UnalignedU64 as DivSpec>::div_req(x, y) && (<UnalignedU64 as DivSpec>::div_spec(x, y)).value() == x.value() / y.value(),
        DivSpec::div_req(x.value(), o) ==> <UnalignedU64 as DivSpec<u64>>::div_req(x, o) && <UnalignedU64 as DivSpec<u64>>::div_spec(x, o) == x.value() / o,
{
}

/// Law: add, sub, mul of `UnalignedI64` values, or of a `UnalignedI64` and a `i64`, compute on the values, for
/// every pair that the `i64` operation accepts (no overflow)
pub proof fn lemma_i64_arithmetic_on_values(x: UnalignedI64, y: UnalignedI64, o: i64)
    ensures
        AddSpec::add_req(x.value(), y.value()) ==> <UnalignedI64 as AddSpec>::add_req(x, y) && (<UnalignedI64 as AddSpec>::add_spec(x, y)).value() == x.value() + y.value(),
        AddSpec::add_req(x.value(), o) ==> <UnalignedI64 as AddSpec<i64>>::add_req(x, o) && <UnalignedI64 as AddSpec<i64>>::add_spec(x, o) == x.value() + o,
        SubSpec::sub_req(x.value(), y.value()) ==> <UnalignedI64 as SubSpec>::sub_req(x, y) && (<UnalignedI64 as SubSpec>::sub_spec(x, y)).value() == x.value() - y.value(),
        SubSpec::sub_req(x.value(), o) ==> <UnalignedI64 as SubSpec<i64>>::sub_req(x, o) && <UnalignedI64 as SubSpec<i64>>::sub_spec(x, o) == x.value() - o,
        MulSpec::mul_req(x.value(), y.value()) ==> <UnalignedI64 as MulSpec>::mul_req(x, y) && (<UnalignedI64 as MulSpec>::mul_spec(x, y)).value() == x.value() * y.value(),
        MulSpec::mul_req(x.value(), o) ==> <UnalignedI64 as MulSpec<i64>>::mul_req(x, o) && <UnalignedI64 as MulSpec<i64>>::mul_spec(x, o) == x.value() * o,
{
}


/// Law: reversing the bytes of a `u16` puts byte `k` (counting from the least significant) of
/// the value at byte `1 - k` of the result
pub proof fn lemma_swap_u16_reverses_bytes(x: u16)
    by (bit_vector)
    ensures
        (swap_u16(x) >> 0u16) & 0xff == (x >> 8u16) & 0xff,
        (swap_u16(x) >> 8u16) & 0xff == (x >> 0u16) & 0xff,
{
}

/// Law: reversing the bytes of an `i16` puts byte `k` (counting from the least significant) of
/// its two's complement bits at byte `1 - k` of the result
pub proof fn lemma_swap_i16_reverses_bytes(x: i16)
    by (bit_vector)
    ensures
        ((swap_i16(x) as u16) >> 0u16) & 0xff == ((x as u16) >> 8u16) & 0xff,
        ((swap_i16(x) as u16) >> 8u16) & 0xff == ((x as u16) >> 0u16) & 0xff,
{
}

/// Law: reversing the bytes of a `u32` puts byte `k` (counting from the least significant) of
/// the value at byte `3 - k` of the result
pub proof fn lemma_swap_u32_reverses_bytes(x: u32)
    by (bit_vector)
    ensures
        (swap_u32(x) >> 0u32) & 0xff == (x >> 24u32) & 0xff,
        (swap_u32(x) >> 8u32) & 0xff == (x >> 16u32) & 0xff,
        (swap_u32(x) >> 16u32) & 0xff == (x >> 8u32) & 0xff,
        (swap_u32(x) >> 24u32) & 0xff == (x >> 0u32) & 0xff,
{
}

/// Law: reversing the bytes of an `i32` puts byte `k` (counting from the least significant) of
/// its two's complement bits at byte `3 - k` of the result
pub proof fn lemma_swap_i32_reverses_bytes(x: i32)
    by (bit_vector)
    ensures
        ((swap_i32(x) as u32) >> 0u32) & 0xff == ((x as u32) >> 24u32) & 0xff,
        ((swap_i32(x) as u32) >> 8u32) & 0xff == ((x as u32) >> 16u32) & 0xff,
        ((swap_i32(x) as u32) >> 16u32) & 0xff == ((x as u32) >> 8u32) & 0xff,
        ((swap_i32(x) as u32) >> 24u32) & 0xff == ((x as u32) >> 0u32) & 0xff,
{
}

/// Law: reversing the bytes of a `u64` puts byte `k` (counting from the least significant) of
/// the value at byte `7 - k` of the result
pub proof fn lemma_swap_u64_reverses_bytes(x: u64)
    by (bit_vector)
    ensures
        (swap_u64(x) >> 0u64) & 0xff == (x >> 56u64) & 0xff,
        (swap_u64(x) >> 8u64) & 0xff == (x >> 48u64) & 0xff,
        (swap_u64(x) >> 16u64) & 0xff == (x >> 40u64) & 0xff,
        (swap_u64(x) >> 24u64) & 0xff == (x >> 32u64) & 0xff,
        (swap_u64(x) >> 32u64) & 0xff == (x >> 24u64) & 0xff,
        (swap_u64(x) >> 40u64) & 0xff == (x >> 16u64) & 0xff,
        (swap_u64(x) >> 48u64) & 0xff == (x >> 8u64) & 0xff,
        (swap_u64(x) >> 56u64) & 0xff == (x >> 0u64) & 0xff,
{
}

/// Law: reversing the bytes of an `i64` puts byte `k` (counting from the least significant) of
/// its two's complement bits at byte `7 - k` of the result
pub proof fn lemma_swap_i64_reverses_bytes(x: i64)
    by (bit_vector)
    ensures
        ((swap_i64(x) as u64) >> 0u64) & 0xff == ((x as u64) >> 56u64) & 0xff,
        ((swap_i64(x) as u64) >> 8u64) & 0xff == ((x as u64) >> 48u64) & 0xff,
        ((swap_i64(x) as u64) >> 16u64) & 0xff == ((x as u64) >> 40u64) & 0xff,
        ((swap_i64(x) as u64) >> 24u64) & 0xff == ((x as u64) >> 32u64) & 0xff,
        ((swap_i64(x) as u64) >> 32u64) & 0xff == ((x as u64) >> 24u64) & 0xff,
        ((swap_i64(x) as u64) >> 40u64) & 0xff == ((x as u64) >> 16u64) & 0xff,
        ((swap_i64(x) as u64) >> 48u64) & 0xff == ((x as u64) >> 8u64) & 0xff,
        ((swap_i64(x) as u64) >> 56u64) & 0xff == ((x as u64) >> 0u64) & 0xff,
{
}


/// `core::num::ParseIntError`, the error of parsing an integer from a string
#[verifier::external_type_specification]
#[verifier::external_body]
pub struct ExParseIntError(ParseIntError);

/// The value of a non-empty string of decimal digits
pub open spec fn digits_value(s: Seq<char>) -> int
    decreases s.len(),
{
    if s.len() == 0 {
        0
    } else {
        digits_value(s.drop_last()) * 10 + (s.last() as int - '0' as int)
    }
}

/// A non-empty string of ASCII decimal digits
pub open spec fn all_digits(s: Seq<char>) -> bool {
    s.len() > 0 && forall|i: int| 0 <= i < s.len() ==> '0' <= #[trigger] s[i] <= '9'
}

/// The integer that a string writes in decimal: an optional `+` sign (or, where `signed`, a
/// `-` sign) followed by one or more digits, and nothing else
pub open spec fn parse_decimal(s: Seq<char>, signed: bool) -> Option<int> {
    if s.len() > 0 && s[0] == '+' && all_digits(s.drop_first()) {
        Some(digits_value(s.drop_first()))
    } else if signed && s.len() > 0 && s[0] == '-' && all_digits(s.drop_first()) {
        Some(-digits_value(s.drop_first()))
    } else if all_digits(s) {
        Some(digits_value(s))
    } else {
        None
    }
}

/// `str::parse::<u16>` (`u16::from_str`, that is `u16::from_str_radix(src, 10)`): parses an
/// optional `+` sign followed by decimal digits, and fails on anything else or on a value
/// out of range.
#[verifier::external_body]
fn parse_u16(src: &str) -> (r: Result<u16, ParseIntError>)
    ensures
        r is Ok <==> (parse_decimal(src@, false) matches Some(v) && u16::MIN <= v <= u16::MAX),
        r matches Ok(v) ==> parse_decimal(src@, false) == Some(v as int),
{
    src.parse::<u16>()
}

impl UnalignedU16 {
    /// Parses the value from its decimal representation, as `u16` parses it
    pub fn parse(src: &str) -> (r: Result<Self, ParseIntError>)
        ensures
            r is Ok <==> (parse_decimal(src@, false) matches Some(v) && u16::MIN <= v <= u16::MAX),
            r matches Ok(x) ==> parse_decimal(src@, false) == Some(x.value() as int),
    {
        match parse_u16(src) {
            Ok(v) => Ok(Self::new(v)),
            Err(e) => Err(e),
        }
    }
}

impl FromStr for UnalignedU16 {
    type Err = ParseIntError;

    fn from_str(src: &str) -> Result<Self, ParseIntError> {
        Self::parse(src)
    }
}

/// `str::parse::<i16>` (`i16::from_str`, that is `i16::from_str_radix(src, 10)`): parses an
/// optional `+` or `-` sign followed by decimal digits, and fails on anything else or on a value
/// out of range.
#[verifier::external_body]
fn parse_i16(src: &str) -> (r: Result<i16, ParseIntError>)
    ensures
        r is Ok <==> (parse_decimal(src@, true) matches Some(v) && i16::MIN <= v <= i16::MAX),
        r matches Ok(v) ==> parse_decimal(src@, true) == Some(v as int),
{
    src.parse::<i16>()
}

impl UnalignedI16 {
    /// Parses the value from its decimal representation, as `i16` parses it
    pub fn parse(src: &str) -> (r: Result<Self, ParseIntError>)
        ensures
            r is Ok <==> (parse_decimal(src@, true) matches Some(v) && i16::MIN <= v <= i16::MAX),
            r matches Ok(x) ==> parse_decimal(src@, true) == Some(x.value() as int),
    {
        match parse_i16(src) {
            Ok(v) => Ok(Self::new(v)),
            Err(e) => Err(e),
        }
    }
}

impl FromStr for UnalignedI16 {
    type Err = ParseIntError;

    fn from_str(src: &str) -> Result<Self, ParseIntError> {
        Self::parse(src)
    }
}

/// `str::parse::<u32>` (`u32::from_str`, that is `u32::from_str_radix(src, 10)`): parses an
/// optional `+` sign followed by decimal digits, and fails on anything else or on a value
/// out of range.
#[verifier::external_body]
fn parse_u32(src: &str) -> (r: Result<u32, ParseIntError>)
    ensures
        r is Ok <==> (parse_decimal(src@, false) matches Some(v) && u32::MIN <= v <= u32::MAX),
        r matches Ok(v) ==> parse_decimal(src@, false) == Some(v as int),
{
    src.parse::<u32>()
}

impl UnalignedU32 {
    /// Parses the value from its decimal representation, as `u32` parses it
    pub fn parse(src: &str) -> (r: Result<Self, ParseIntError>)
        ensures
            r is Ok <==> (parse_decimal(src@, false) matches Some(v) && u32::MIN <= v <= u32::MAX),
            r matches Ok(x) ==> parse_decimal(src@, false) == Some(x.value() as int),
    {
        match parse_u32(src) {
            Ok(v) => Ok(Self::new(v)),
            Err(e) => Err(e),
        }
    }
}

impl FromStr for UnalignedU32 {
    type Err = ParseIntError;

    fn from_str(src: &str) -> Result<Self, ParseIntError> {
        Self::parse(src)
    }
}

/// `str::parse::<i32>` (`i32::from_str`, that is `i32::from_str_radix(src, 10)`): parses an
/// optional `+` or `-` sign followed by decimal digits, and fails on anything else or on a value
/// out of range.
#[verifier::external_body]
fn parse_i32(src: &str) -> (r: Result<i32, ParseIntError>)
    ensures
        r is Ok <==> (parse_decimal(src@, true) matches Some(v) && i32::MIN <= v <= i32::MAX),
        r matches Ok(v) ==> parse_decimal(src@, true) == Some(v as int),
{
    src.parse::<i32>()
}

impl UnalignedI32 {
    /// Parses the value from its decimal representation, as `i32` parses it
    pub fn parse(src: &str) -> (r: Result<Self, ParseIntError>)
        ensures
            r is Ok <==> (parse_decimal(src@, true) matches Some(v) && i32::MIN <= v <= i32::MAX),
            r matches Ok(x) ==> parse_decimal(src@, true) == Some(x.value() as int),
    {
        match parse_i32(src) {
            Ok(v) => Ok(Self::new(v)),
            Err(e) => Err(e),
        }
    }
}

impl FromStr for UnalignedI32 {
    type Err = ParseIntError;

    fn from_str(src: &str) -> Result<Self, ParseIntError> {
        Self::parse(src)
    }
}

/// `str::parse::<u64>` (`u64::from_str`, that is `u64::from_str_radix(src, 10)`): parses an
/// optional `+` sign followed by decimal digits, and fails on anything else or on a value
/// out of range.
#[verifier::external_body]
fn parse_u64(src: &str) -> (r: Result<u64, ParseIntError>)
    ensures
        r is Ok <==> (parse_decimal(src@, false) matches Some(v) && u64::MIN <= v <= u64::MAX),
        r matches Ok(v) ==> parse_decimal(src@, false) == Some(v as int),
{
    src.parse::<u64>()
}

impl UnalignedU64 {
    /// Parses the value from its decimal representation, as `u64` parses it
    pub fn parse(src: &str) -> (r: Result<Self, ParseIntError>)
        ensures
            r is Ok <==> (parse_decimal(src@, false) matches Some(v) && u64::MIN <= v <= u64::MAX),
            r matches Ok(x) ==> parse_decimal(src@, false) == Some(x.value() as int),
    {
        match parse_u64(src) {
            Ok(v) => Ok(Self::new(v)),
            Err(e) => Err(e),
        }
    }
}

impl FromStr for UnalignedU64 {
    type Err = ParseIntError;

    fn from_str(src: &str) -> Result<Self, ParseIntError> {
        Self::parse(src)
    }
}

/// `str::parse::<i64>` (`i64::from_str`, that is `i64::from_str_radix(src, 10)`): parses an
/// optional `+` or `-` sign followed by decimal digits, and fails on anything else or on a value
/// out of range.
#[verifier::external_body]
fn parse_i64(src: &str) -> (r: Result<i64, ParseIntError>)
    ensures
        r is Ok <==> (parse_decimal(src@, true) matches Some(v) && i64::MIN <= v <= i64::MAX),
        r matches Ok(v) ==> parse_decimal(src@, true) == Some(v as int),
{
    src.parse::<i64>()
}

impl UnalignedI64 {
    /// Parses the value from its decimal representation, as `i64` parses it
    pub fn parse(src: &str) -> (r: Result<Self, ParseIntError>)
        ensures
            r is Ok <==> (parse_decimal(src@, true) matches Some(v) && i64::MIN <= v <= i64::MAX),
            r matches Ok(x) ==> parse_decimal(src@, true) == Some(x.value() as int),
    {
        match parse_i64(src) {
            Ok(v) => Ok(Self::new(v)),
            Err(e) => Err(e),
        }
    }
}

impl FromStr for UnalignedI64 {
    type Err = ParseIntError;

    fn from_str(src: &str) -> Result<Self, ParseIntError> {
        Self::parse(src)
    }
}


} // verus!
