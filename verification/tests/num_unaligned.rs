use vpp_plugin::vlibapi::num_unaligned::{UnalignedU16, UnalignedI16, UnalignedU32, UnalignedI32, UnalignedU64, UnalignedI64};

#[test]
fn test_unaligned_u16_new_and_get() {
    let value = 42u16;
    let unaligned = UnalignedU16::new(value);
    assert_eq!(unaligned.get(), value);
}

#[test]
fn test_unaligned_u16_from_be() {
    let value = 0x1234u16;
    let unaligned = UnalignedU16::new(value);
    let be = unaligned.to_be();
    let from_be = UnalignedU16::from_be(be);
    assert!(from_be == unaligned);
}

#[test]
fn test_unaligned_u16_from_u16() {
    let value = 42u16;
    let unaligned: UnalignedU16 = value.into();
    assert_eq!(unaligned.get(), value);
}

#[test]
fn test_unaligned_u16_into_u16() {
    let value = 42u16;
    let unaligned = UnalignedU16::new(value);
    let primitive: u16 = unaligned.into();
    assert_eq!(primitive, value);
}

#[test]
fn test_unaligned_u16_swap_bytes() {
    let value = 0x1234u16;
    let unaligned = UnalignedU16::new(value);
    let swapped = unaligned.swap_bytes();
    assert_eq!(swapped.get(), value.swap_bytes());
    assert!(swapped.swap_bytes() == unaligned);
}

#[test]
fn test_unaligned_u16_to_be() {
    let value = 0x1234u16;
    let unaligned = UnalignedU16::new(value);
    let be = unaligned.to_be();
    assert_eq!(be.get(), value.to_be());
}

#[test]
fn test_unaligned_u16_hash() {
    let mut set = std::collections::HashSet::new();
    let a = UnalignedU16::new(1);
    let b = UnalignedU16::new(1);
    set.insert(a);
    assert!(set.contains(&b));
}

#[test]
fn test_unaligned_u16_ord() {
    let a = UnalignedU16::new(1);
    let b = UnalignedU16::new(2);
    let c = UnalignedU16::new(1);
    assert!(a < b);
    assert!(a <= c);
    assert!(b > a);
    assert!(a >= c);
    assert_eq!(a.cmp(&c), std::cmp::Ordering::Equal);
}

#[test]
fn test_unaligned_u16_min_max() {
    assert_eq!(UnalignedU16::new(u16::MIN).get(), u16::MIN);
    assert_eq!(UnalignedU16::new(u16::MAX).get(), u16::MAX);
}

#[test]
fn test_unaligned_i16_new_and_get() {
    let value = 42i16;
    let unaligned = UnalignedI16::new(value);
    assert_eq!(unaligned.get(), value);
}

#[test]
fn test_unaligned_i16_from_be() {
    let value = 0x1234i16;
    let unaligned = UnalignedI16::new(value);
    let be = unaligned.to_be();
    let from_be = UnalignedI16::from_be(be);
    assert!(from_be == unaligned);
}

#[test]
fn test_unaligned_i16_from_i16() {
    let value = 42i16;
    let unaligned: UnalignedI16 = value.into();
    assert_eq!(unaligned.get(), value);
}

#[test]
fn test_unaligned_i16_into_i16() {
    let value = 42i16;
    let unaligned = UnalignedI16::new(value);
    let primitive: i16 = unaligned.into();
    assert_eq!(primitive, value);
}

#[test]
fn test_unaligned_i16_swap_bytes() {
    let value = 0x1234i16;
    let unaligned = UnalignedI16::new(value);
    let swapped = unaligned.swap_bytes();
    assert_eq!(swapped.get(), value.swap_bytes());
    assert!(swapped.swap_bytes() == unaligned);
}

#[test]
fn test_unaligned_i16_to_be() {
    let value = 0x1234i16;
    let unaligned = UnalignedI16::new(value);
    let be = unaligned.to_be();
    assert_eq!(be.get(), value.to_be());
}

#[test]
fn test_unaligned_i16_hash() {
    let mut set = std::collections::HashSet::new();
    let a = UnalignedI16::new(1);
    let b = UnalignedI16::new(1);
    set.insert(a);
    assert!(set.contains(&b));
}

#[test]
fn test_unaligned_i16_ord() {
    let a = UnalignedI16::new(1);
    let b = UnalignedI16::new(2);
    let c = UnalignedI16::new(1);
    assert!(a < b);
    assert!(a <= c);
    assert!(b > a);
    assert!(a >= c);
    assert_eq!(a.cmp(&c), std::cmp::Ordering::Equal);
}

#[test]
fn test_unaligned_i16_min_max() {
    assert_eq!(UnalignedI16::new(i16::MIN).get(), i16::MIN);
    assert_eq!(UnalignedI16::new(i16::MAX).get(), i16::MAX);
}

#[test]
fn test_unaligned_u32_new_and_get() {
    let value = 42u32;
    let unaligned = UnalignedU32::new(value);
    assert_eq!(unaligned.get(), value);
}

#[test]
fn test_unaligned_u32_from_be() {
    let value = 0x12345678u32;
    let unaligned = UnalignedU32::new(value);
    let be = unaligned.to_be();
    let from_be = UnalignedU32::from_be(be);
    assert!(from_be == unaligned);
}

#[test]
fn test_unaligned_u32_from_u32() {
    let value = 42u32;
    let unaligned: UnalignedU32 = value.into();
    assert_eq!(unaligned.get(), value);
}

#[test]
fn test_unaligned_u32_into_u32() {
    let value = 42u32;
    let unaligned = UnalignedU32::new(value);
    let primitive: u32 = unaligned.into();
    assert_eq!(primitive, value);
}

#[test]
fn test_unaligned_u32_swap_bytes() {
    let value = 0x12345678u32;
    let unaligned = UnalignedU32::new(value);
    let swapped = unaligned.swap_bytes();
    assert_eq!(swapped.get(), value.swap_bytes());
    assert!(swapped.swap_bytes() == unaligned);
}

#[test]
fn test_unaligned_u32_to_be() {
    let value = 0x12345678u32;
    let unaligned = UnalignedU32::new(value);
    let be = unaligned.to_be();
    assert_eq!(be.get(), value.to_be());
}

#[test]
fn test_unaligned_u32_hash() {
    let mut set = std::collections::HashSet::new();
    let a = UnalignedU32::new(1);
    let b = UnalignedU32::new(1);
    set.insert(a);
    assert!(set.contains(&b));
}

#[test]
fn test_unaligned_u32_ord() {
    let a = UnalignedU32::new(1);
    let b = UnalignedU32::new(2);
    let c = UnalignedU32::new(1);
    assert!(a < b);
    assert!(a <= c);
    assert!(b > a);
    assert!(a >= c);
    assert_eq!(a.cmp(&c), std::cmp::Ordering::Equal);
}

#[test]
fn test_unaligned_u32_min_max() {
    assert_eq!(UnalignedU32::new(u32::MIN).get(), u32::MIN);
    assert_eq!(UnalignedU32::new(u32::MAX).get(), u32::MAX);
}

#[test]
fn test_unaligned_i32_new_and_get() {
    let value = 42i32;
    let unaligned = UnalignedI32::new(value);
    assert_eq!(unaligned.get(), value);
}

#[test]
fn test_unaligned_i32_from_be() {
    let value = 0x12345678i32;
    let unaligned = UnalignedI32::new(value);
    let be = unaligned.to_be();
    let from_be = UnalignedI32::from_be(be);
    assert!(from_be == unaligned);
}

#[test]
fn test_unaligned_i32_from_i32() {
    let value = 42i32;
    let unaligned: UnalignedI32 = value.into();
    assert_eq!(unaligned.get(), value);
}

#[test]
fn test_unaligned_i32_into_i32() {
    let value = 42i32;
    let unaligned = UnalignedI32::new(value);
    let primitive: i32 = unaligned.into();
    assert_eq!(primitive, value);
}

#[test]
fn test_unaligned_i32_swap_bytes() {
    let value = 0x12345678i32;
    let unaligned = UnalignedI32::new(value);
    let swapped = unaligned.swap_bytes();
    assert_eq!(swapped.get(), value.swap_bytes());
    assert!(swapped.swap_bytes() == unaligned);
}

#[test]
fn test_unaligned_i32_to_be() {
    let value = 0x12345678i32;
    let unaligned = UnalignedI32::new(value);
    let be = unaligned.to_be();
    assert_eq!(be.get(), value.to_be());
}

#[test]
fn test_unaligned_i32_hash() {
    let mut set = std::collections::HashSet::new();
    let a = UnalignedI32::new(1);
    let b = UnalignedI32::new(1);
    set.insert(a);
    assert!(set.contains(&b));
}

#[test]
fn test_unaligned_i32_ord() {
    let a = UnalignedI32::new(1);
    let b = UnalignedI32::new(2);
    let c = UnalignedI32::new(1);
    assert!(a < b);
    assert!(a <= c);
    assert!(b > a);
    assert!(a >= c);
    assert_eq!(a.cmp(&c), std::cmp::Ordering::Equal);
}

#[test]
fn test_unaligned_i32_min_max() {
    assert_eq!(UnalignedI32::new(i32::MIN).get(), i32::MIN);
    assert_eq!(UnalignedI32::new(i32::MAX).get(), i32::MAX);
}

#[test]
fn test_unaligned_u64_new_and_get() {
    let value = 42u64;
    let unaligned = UnalignedU64::new(value);
    assert_eq!(unaligned.get(), value);
}

#[test]
fn test_unaligned_u64_from_be() {
    let value = 0x1234567890123456u64;
    let unaligned = UnalignedU64::new(value);
    let be = unaligned.to_be();
    let from_be = UnalignedU64::from_be(be);
    assert!(from_be == unaligned);
}

#[test]
fn test_unaligned_u64_from_u64() {
    let value = 42u64;
    let unaligned: UnalignedU64 = value.into();
    assert_eq!(unaligned.get(), value);
}

#[test]
fn test_unaligned_u64_into_u64() {
    let value = 42u64;
    let unaligned = UnalignedU64::new(value);
    let primitive: u64 = unaligned.into();
    assert_eq!(primitive, value);
}

#[test]
fn test_unaligned_u64_swap_bytes() {
    let value = 0x1234567890123456u64;
    let unaligned = UnalignedU64::new(value);
    let swapped = unaligned.swap_bytes();
    assert_eq!(swapped.get(), value.swap_bytes());
    assert!(swapped.swap_bytes() == unaligned);
}

#[test]
fn test_unaligned_u64_to_be() {
    let value = 0x1234567890123456u64;
    let unaligned = UnalignedU64::new(value);
    let be = unaligned.to_be();
    assert_eq!(be.get(), value.to_be());
}

#[test]
fn test_unaligned_u64_hash() {
    let mut set = std::collections::HashSet::new();
    let a = UnalignedU64::new(1);
    let b = UnalignedU64::new(1);
    set.insert(a);
    assert!(set.contains(&b));
}

#[test]
fn test_unaligned_u64_ord() {
    let a = UnalignedU64::new(1);
    let b = UnalignedU64::new(2);
    let c = UnalignedU64::new(1);
    assert!(a < b);
    assert!(a <= c);
    assert!(b > a);
    assert!(a >= c);
    assert_eq!(a.cmp(&c), std::cmp::Ordering::Equal);
}

#[test]
fn test_unaligned_u64_min_max() {
    assert_eq!(UnalignedU64::new(u64::MIN).get(), u64::MIN);
    assert_eq!(UnalignedU64::new(u64::MAX).get(), u64::MAX);
}

#[test]
fn test_unaligned_i64_new_and_get() {
    let value = 42i64;
    let unaligned = UnalignedI64::new(value);
    assert_eq!(unaligned.get(), value);
}

#[test]
fn test_unaligned_i64_from_be() {
    let value = 0x1234567890123456i64;
    let unaligned = UnalignedI64::new(value);
    let be = unaligned.to_be();
    let from_be = UnalignedI64::from_be(be);
    assert!(from_be == unaligned);
}

#[test]
fn test_unaligned_i64_from_i64() {
    let value = 42i64;
    let unaligned: UnalignedI64 = value.into();
    assert_eq!(unaligned.get(), value);
}

#[test]
fn test_unaligned_i64_into_i64() {
    let value = 42i64;
    let unaligned = UnalignedI64::new(value);
    let primitive: i64 = unaligned.into();
    assert_eq!(primitive, value);
}

#[test]
fn test_unaligned_i64_swap_bytes() {
    let value = 0x1234567890123456i64;
    let unaligned = UnalignedI64::new(value);
    let swapped = unaligned.swap_bytes();
    assert_eq!(swapped.get(), value.swap_bytes());
    assert!(swapped.swap_bytes() == unaligned);
}

#[test]
fn test_unaligned_i64_to_be() {
    let value = 0x1234567890123456i64;
    let unaligned = UnalignedI64::new(value);
    let be = unaligned.to_be();
    assert_eq!(be.get(), value.to_be());
}

#[test]
fn test_unaligned_i64_hash() {
    let mut set = std::collections::HashSet::new();
    let a = UnalignedI64::new(1);
    let b = UnalignedI64::new(1);
    set.insert(a);
    assert!(set.contains(&b));
}

#[test]
fn test_unaligned_i64_ord() {
    let a = UnalignedI64::new(1);
    let b = UnalignedI64::new(2);
    let c = UnalignedI64::new(1);
    assert!(a < b);
    assert!(a <= c);
    assert!(b > a);
    assert!(a >= c);
    assert_eq!(a.cmp(&c), std::cmp::Ordering::Equal);
}

#[test]
fn test_unaligned_i64_min_max() {
    assert_eq!(UnalignedI64::new(i64::MIN).get(), i64::MIN);
    assert_eq!(UnalignedI64::new(i64::MAX).get(), i64::MAX);
}

#[test]
fn test_unaligned_u16_swap_bytes_example() {
    let n = UnalignedU16::new(0x1234u16);
    let m = n.swap_bytes();
    assert_eq!(m.get(), 0x3412u16);
}

#[test]
fn test_unaligned_i16_swap_bytes_example() {
    let n = UnalignedI16::new(0x1234i16);
    let m = n.swap_bytes();
    assert_eq!(m.get(), 0x3412i16);
}

#[test]
fn test_unaligned_u32_swap_bytes_example() {
    let n = UnalignedU32::new(0x12345678u32);
    let m = n.swap_bytes();
    assert_eq!(m.get(), 0x78563412u32);
}

#[test]
fn test_unaligned_i32_swap_bytes_example() {
    let n = UnalignedI32::new(0x12345678i32);
    let m = n.swap_bytes();
    assert_eq!(m.get(), 0x78563412i32);
}

#[test]
fn test_unaligned_u64_swap_bytes_example() {
    let n = UnalignedU64::new(0x1234567890123456u64);
    let m = n.swap_bytes();
    assert_eq!(m.get(), 0x5634129078563412u64);
}

#[test]
fn test_unaligned_i64_swap_bytes_example() {
    let n = UnalignedI64::new(0x1234567890123456i64);
    let m = n.swap_bytes();
    assert_eq!(m.get(), 0x5634129078563412i64);
}

#[test]
fn test_unaligned_i16_swap_bytes_negative() {
    let n = UnalignedI16::new(-2);
    assert_eq!(n.swap_bytes().get(), (-2i16).swap_bytes());
    assert_eq!(n.swap_bytes().get(), -257);
}

#[test]
fn test_unaligned_u16_partial_eq_u16() {
    let unaligned = UnalignedU16::new(42u16);
    assert!(unaligned == 42u16);
    assert!(unaligned != 42u16 + 20u16);
}

#[test]
fn test_unaligned_u16_partial_ord_u16() {
    let unaligned = UnalignedU16::new(42u16);
    assert!(unaligned < 42u16 + 20u16);
    assert!(unaligned > 42u16 - 20u16);
    assert!(unaligned <= 42u16);
    assert!(unaligned >= 42u16);
}

#[test]
fn test_unaligned_u16_from_str() {
    let unaligned: UnalignedU16 = "42".parse().unwrap();
    assert_eq!(unaligned.get(), 42u16);
    assert_eq!(unaligned.get().to_string(), "42");
}

#[test]
fn test_unaligned_u16_from_str_invalid() {
    let result: Result<UnalignedU16, _> = "invalid".parse();
    assert!(result.is_err());
}

#[test]
fn unaligned_u16_parse_signs_and_range() {
    assert_eq!(UnalignedU16::parse("+42").unwrap().get(), 42u16);
    assert!(UnalignedU16::parse("").is_err());
    assert!(UnalignedU16::parse("+").is_err());
    assert!(UnalignedU16::parse(" 42").is_err());
    assert_eq!(UnalignedU16::parse(&u16::MAX.to_string()).unwrap().get(), u16::MAX);
    assert!(UnalignedU16::parse(&((u16::MAX as i128) + 1).to_string()).is_err());
    assert_eq!(UnalignedU16::parse("-42").is_ok(), false);
}

#[test]
fn test_unaligned_u16_add() {
    let result = UnalignedU16::new(42u16) + UnalignedU16::new(20u16);
    assert_eq!(result.get(), 42u16 + 20u16);
}

#[test]
fn test_unaligned_u16_add_u16() {
    let result = UnalignedU16::new(42u16) + 20u16;
    assert_eq!(result, 42u16 + 20u16);
}

#[test]
fn test_unaligned_u16_sub() {
    let result = UnalignedU16::new(42u16 + 10u16) - UnalignedU16::new(10u16);
    assert_eq!(result.get(), 42u16);
}

#[test]
fn test_unaligned_u16_sub_u16() {
    let result = UnalignedU16::new(42u16 + 10u16) - 10u16;
    assert_eq!(result, 42u16);
}

#[test]
fn test_unaligned_u16_mul() {
    let result = UnalignedU16::new(42u16) * UnalignedU16::new(7u16);
    assert_eq!(result.get(), 42u16 * 7u16);
}

#[test]
fn test_unaligned_u16_mul_u16() {
    let result = UnalignedU16::new(42u16) * 7u16;
    assert_eq!(result, 42u16 * 7u16);
}

#[test]
fn test_unaligned_u16_div() {
    let result = UnalignedU16::new(42u16 * 5u16) / UnalignedU16::new(5u16);
    assert_eq!(result.get(), 42u16);
}

#[test]
fn test_unaligned_u16_div_u16() {
    let result = UnalignedU16::new(42u16 * 5u16) / 5u16;
    assert_eq!(result, 42u16);
}

#[test]
fn test_unaligned_i16_partial_eq_i16() {
    let unaligned = UnalignedI16::new(42i16);
    assert!(unaligned == 42i16);
    assert!(unaligned != 42i16 + 20i16);
}

#[test]
fn test_unaligned_i16_partial_ord_i16() {
    let unaligned = UnalignedI16::new(42i16);
    assert!(unaligned < 42i16 + 20i16);
    assert!(unaligned > 42i16 - 20i16);
    assert!(unaligned <= 42i16);
    assert!(unaligned >= 42i16);
}

#[test]
fn test_unaligned_i16_from_str() {
    let unaligned: UnalignedI16 = "42".parse().unwrap();
    assert_eq!(unaligned.get(), 42i16);
    assert_eq!(unaligned.get().to_string(), "42");
}

#[test]
fn test_unaligned_i16_from_str_invalid() {
    let result: Result<UnalignedI16, _> = "invalid".parse();
    assert!(result.is_err());
}

#[test]
fn unaligned_i16_parse_signs_and_range() {
    assert_eq!(UnalignedI16::parse("+42").unwrap().get(), 42i16);
    assert!(UnalignedI16::parse("").is_err());
    assert!(UnalignedI16::parse("+").is_err());
    assert!(UnalignedI16::parse(" 42").is_err());
    assert_eq!(UnalignedI16::parse(&i16::MAX.to_string()).unwrap().get(), i16::MAX);
    assert!(UnalignedI16::parse(&((i16::MAX as i128) + 1).to_string()).is_err());
    assert_eq!(UnalignedI16::parse("-42").is_ok(), true);
}

#[test]
fn test_unaligned_i16_add() {
    let result = UnalignedI16::new(42i16) + UnalignedI16::new(20i16);
    assert_eq!(result.get(), 42i16 + 20i16);
}

#[test]
fn test_unaligned_i16_add_i16() {
    let result = UnalignedI16::new(42i16) + 20i16;
    assert_eq!(result, 42i16 + 20i16);
}

#[test]
fn test_unaligned_i16_sub() {
    let result = UnalignedI16::new(42i16 + 10i16) - UnalignedI16::new(10i16);
    assert_eq!(result.get(), 42i16);
}

#[test]
fn test_unaligned_i16_sub_i16() {
    let result = UnalignedI16::new(42i16 + 10i16) - 10i16;
    assert_eq!(result, 42i16);
}

#[test]
fn test_unaligned_i16_mul() {
    let result = UnalignedI16::new(42i16) * UnalignedI16::new(7i16);
    assert_eq!(result.get(), 42i16 * 7i16);
}

#[test]
fn test_unaligned_i16_mul_i16() {
    let result = UnalignedI16::new(42i16) * 7i16;
    assert_eq!(result, 42i16 * 7i16);
}

#[test]
fn test_unaligned_i16_div() {
    let result = UnalignedI16::new(42i16 * 5i16) / UnalignedI16::new(5i16);
    assert_eq!(result.get(), 42i16);
}

#[test]
fn test_unaligned_i16_div_i16() {
    let result = UnalignedI16::new(42i16 * 5i16) / 5i16;
    assert_eq!(result, 42i16);
}

#[test]
fn test_unaligned_u32_partial_eq_u32() {
    let unaligned = UnalignedU32::new(42u32);
    assert!(unaligned == 42u32);
    assert!(unaligned != 42u32 + 20u32);
}

#[test]
fn test_unaligned_u32_partial_ord_u32() {
    let unaligned = UnalignedU32::new(42u32);
    assert!(unaligned < 42u32 + 20u32);
    assert!(unaligned > 42u32 - 20u32);
    assert!(unaligned <= 42u32);
    assert!(unaligned >= 42u32);
}

#[test]
fn test_unaligned_u32_from_str() {
    let unaligned: UnalignedU32 = "42".parse().unwrap();
    assert_eq!(unaligned.get(), 42u32);
    assert_eq!(unaligned.get().to_string(), "42");
}

#[test]
fn test_unaligned_u32_from_str_invalid() {
    let result: Result<UnalignedU32, _> = "invalid".parse();
    assert!(result.is_err());
}

#[test]
fn unaligned_u32_parse_signs_and_range() {
    assert_eq!(UnalignedU32::parse("+42").unwrap().get(), 42u32);
    assert!(UnalignedU32::parse("").is_err());
    assert!(UnalignedU32::parse("+").is_err());
    assert!(UnalignedU32::parse(" 42").is_err());
    assert_eq!(UnalignedU32::parse(&u32::MAX.to_string()).unwrap().get(), u32::MAX);
    assert!(UnalignedU32::parse(&((u32::MAX as i128) + 1).to_string()).is_err());
    assert_eq!(UnalignedU32::parse("-42").is_ok(), false);
}

#[test]
fn test_unaligned_u32_add() {
    let result = UnalignedU32::new(42u32) + UnalignedU32::new(20u32);
    assert_eq!(result.get(), 42u32 + 20u32);
}

#[test]
fn test_unaligned_u32_add_u32() {
    let result = UnalignedU32::new(42u32) + 20u32;
    assert_eq!(result, 42u32 + 20u32);
}

#[test]
fn test_unaligned_u32_sub() {
    let result = UnalignedU32::new(42u32 + 10u32) - UnalignedU32::new(10u32);
    assert_eq!(result.get(), 42u32);
}

#[test]
fn test_unaligned_u32_sub_u32() {
    let result = UnalignedU32::new(42u32 + 10u32) - 10u32;
    assert_eq!(result, 42u32);
}

#[test]
fn test_unaligned_u32_mul() {
    let result = UnalignedU32::new(42u32) * UnalignedU32::new(7u32);
    assert_eq!(result.get(), 42u32 * 7u32);
}

#[test]
fn test_unaligned_u32_mul_u32() {
    let result = UnalignedU32::new(42u32) * 7u32;
    assert_eq!(result, 42u32 * 7u32);
}

#[test]
fn test_unaligned_u32_div() {
    let result = UnalignedU32::new(42u32 * 5u32) / UnalignedU32::new(5u32);
    assert_eq!(result.get(), 42u32);
}

#[test]
fn test_unaligned_u32_div_u32() {
    let result = UnalignedU32::new(42u32 * 5u32) / 5u32;
    assert_eq!(result, 42u32);
}

#[test]
fn test_unaligned_i32_partial_eq_i32() {
    let unaligned = UnalignedI32::new(42i32);
    assert!(unaligned == 42i32);
    assert!(unaligned != 42i32 + 20i32);
}

#[test]
fn test_unaligned_i32_partial_ord_i32() {
    let unaligned = UnalignedI32::new(42i32);
    assert!(unaligned < 42i32 + 20i32);
    assert!(unaligned > 42i32 - 20i32);
    assert!(unaligned <= 42i32);
    assert!(unaligned >= 42i32);
}

#[test]
fn test_unaligned_i32_from_str() {
    let unaligned: UnalignedI32 = "42".parse().unwrap();
    assert_eq!(unaligned.get(), 42i32);
    assert_eq!(unaligned.get().to_string(), "42");
}

#[test]
fn test_unaligned_i32_from_str_invalid() {
    let result: Result<UnalignedI32, _> = "invalid".parse();
    assert!(result.is_err());
}

#[test]
fn unaligned_i32_parse_signs_and_range() {
    assert_eq!(UnalignedI32::parse("+42").unwrap().get(), 42i32);
    assert!(UnalignedI32::parse("").is_err());
    assert!(UnalignedI32::parse("+").is_err());
    assert!(UnalignedI32::parse(" 42").is_err());
    assert_eq!(UnalignedI32::parse(&i32::MAX.to_string()).unwrap().get(), i32::MAX);
    assert!(UnalignedI32::parse(&((i32::MAX as i128) + 1).to_string()).is_err());
    assert_eq!(UnalignedI32::parse("-42").is_ok(), true);
}

#[test]
fn test_unaligned_i32_add() {
    let result = UnalignedI32::new(42i32) + UnalignedI32::new(20i32);
    assert_eq!(result.get(), 42i32 + 20i32);
}

#[test]
fn test_unaligned_i32_add_i32() {
    let result = UnalignedI32::new(42i32) + 20i32;
    assert_eq!(result, 42i32 + 20i32);
}

#[test]
fn test_unaligned_i32_sub() {
    let result = UnalignedI32::new(42i32 + 10i32) - UnalignedI32::new(10i32);
    assert_eq!(result.get(), 42i32);
}

#[test]
fn test_unaligned_i32_sub_i32() {
    let result = UnalignedI32::new(42i32 + 10i32) - 10i32;
    assert_eq!(result, 42i32);
}

#[test]
fn test_unaligned_i32_mul() {
    let result = UnalignedI32::new(42i32) * UnalignedI32::new(7i32);
    assert_eq!(result.get(), 42i32 * 7i32);
}

#[test]
fn test_unaligned_i32_mul_i32() {
    let result = UnalignedI32::new(42i32) * 7i32;
    assert_eq!(result, 42i32 * 7i32);
}

#[test]
fn test_unaligned_i32_div() {
    let result = UnalignedI32::new(42i32 * 5i32) / UnalignedI32::new(5i32);
    assert_eq!(result.get(), 42i32);
}

#[test]
fn test_unaligned_i32_div_i32() {
    let result = UnalignedI32::new(42i32 * 5i32) / 5i32;
    assert_eq!(result, 42i32);
}

#[test]
fn test_unaligned_u64_partial_eq_u64() {
    let unaligned = UnalignedU64::new(42u64);
    assert!(unaligned == 42u64);
    assert!(unaligned != 42u64 + 20u64);
}

#[test]
fn test_unaligned_u64_partial_ord_u64() {
    let unaligned = UnalignedU64::new(42u64);
    assert!(unaligned < 42u64 + 20u64);
    assert!(unaligned > 42u64 - 20u64);
    assert!(unaligned <= 42u64);
    assert!(unaligned >= 42u64);
}

#[test]
fn test_unaligned_u64_from_str() {
    let unaligned: UnalignedU64 = "42".parse().unwrap();
    assert_eq!(unaligned.get(), 42u64);
    assert_eq!(unaligned.get().to_string(), "42");
}

#[test]
fn test_unaligned_u64_from_str_invalid() {
    let result: Result<UnalignedU64, _> = "invalid".parse();
    assert!(result.is_err());
}

#[test]
fn unaligned_u64_parse_signs_and_range() {
    assert_eq!(UnalignedU64::parse("+42").unwrap().get(), 42u64);
    assert!(UnalignedU64::parse("").is_err());
    assert!(UnalignedU64::parse("+").is_err());
    assert!(UnalignedU64::parse(" 42").is_err());
    assert_eq!(UnalignedU64::parse(&u64::MAX.to_string()).unwrap().get(), u64::MAX);
    assert!(UnalignedU64::parse(&((u64::MAX as i128) + 1).to_string()).is_err());
    assert_eq!(UnalignedU64::parse("-42").is_ok(), false);
}

#[test]
fn test_unaligned_u64_add() {
    let result = UnalignedU64::new(42u64) + UnalignedU64::new(20u64);
    assert_eq!(result.get(), 42u64 + 20u64);
}

#[test]
fn test_unaligned_u64_add_u64() {
    let result = UnalignedU64::new(42u64) + 20u64;
    assert_eq!(result, 42u64 + 20u64);
}

#[test]
fn test_unaligned_u64_sub() {
    let result = UnalignedU64::new(42u64 + 10u64) - UnalignedU64::new(10u64);
    assert_eq!(result.get(), 42u64);
}

#[test]
fn test_unaligned_u64_sub_u64() {
    let result = UnalignedU64::new(42u64 + 10u64) - 10u64;
    assert_eq!(result, 42u64);
}

#[test]
fn test_unaligned_u64_mul() {
    let result = UnalignedU64::new(42u64) * UnalignedU64::new(7u64);
    assert_eq!(result.get(), 42u64 * 7u64);
}

#[test]
fn test_unaligned_u64_mul_u64() {
    let result = UnalignedU64::new(42u64) * 7u64;
    assert_eq!(result, 42u64 * 7u64);
}

#[test]
fn test_unaligned_u64_div() {
    let result = UnalignedU64::new(42u64 * 5u64) / UnalignedU64::new(5u64);
    assert_eq!(result.get(), 42u64);
}

#[test]
fn test_unaligned_u64_div_u64() {
    let result = UnalignedU64::new(42u64 * 5u64) / 5u64;
    assert_eq!(result, 42u64);
}

#[test]
fn test_unaligned_i64_partial_eq_i64() {
    let unaligned = UnalignedI64::new(42i64);
    assert!(unaligned == 42i64);
    assert!(unaligned != 42i64 + 20i64);
}

#[test]
fn test_unaligned_i64_partial_ord_i64() {
    let unaligned = UnalignedI64::new(42i64);
    assert!(unaligned < 42i64 + 20i64);
    assert!(unaligned > 42i64 - 20i64);
    assert!(unaligned <= 42i64);
    assert!(unaligned >= 42i64);
}

#[test]
fn test_unaligned_i64_from_str() {
    let unaligned: UnalignedI64 = "42".parse().unwrap();
    assert_eq!(unaligned.get(), 42i64);
    assert_eq!(unaligned.get().to_string(), "42");
}

#[test]
fn test_unaligned_i64_from_str_invalid() {
    let result: Result<UnalignedI64, _> = "invalid".parse();
    assert!(result.is_err());
}

#[test]
fn unaligned_i64_parse_signs_and_range() {
    assert_eq!(UnalignedI64::parse("+42").unwrap().get(), 42i64);
    assert!(UnalignedI64::parse("").is_err());
    assert!(UnalignedI64::parse("+").is_err());
    assert!(UnalignedI64::parse(" 42").is_err());
    assert_eq!(UnalignedI64::parse(&i64::MAX.to_string()).unwrap().get(), i64::MAX);
    assert!(UnalignedI64::parse(&((i64::MAX as i128) + 1).to_string()).is_err());
    assert_eq!(UnalignedI64::parse("-42").is_ok(), true);
}

#[test]
fn test_unaligned_i64_add() {
    let result = UnalignedI64::new(42i64) + UnalignedI64::new(20i64);
    assert_eq!(result.get(), 42i64 + 20i64);
}

#[test]
fn test_unaligned_i64_add_i64() {
    let result = UnalignedI64::new(42i64) + 20i64;
    assert_eq!(result, 42i64 + 20i64);
}

#[test]
fn test_unaligned_i64_sub() {
    let result = UnalignedI64::new(42i64 + 10i64) - UnalignedI64::new(10i64);
    assert_eq!(result.get(), 42i64);
}

#[test]
fn test_unaligned_i64_sub_i64() {
    let result = UnalignedI64::new(42i64 + 10i64) - 10i64;
    assert_eq!(result, 42i64);
}

#[test]
fn test_unaligned_i64_mul() {
    let result = UnalignedI64::new(42i64) * UnalignedI64::new(7i64);
    assert_eq!(result.get(), 42i64 * 7i64);
}

#[test]
fn test_unaligned_i64_mul_i64() {
    let result = UnalignedI64::new(42i64) * 7i64;
    assert_eq!(result, 42i64 * 7i64);
}

#[test]
fn test_unaligned_i64_div() {
    let result = UnalignedI64::new(42i64 * 5i64) / UnalignedI64::new(5i64);
    assert_eq!(result.get(), 42i64);
}

#[test]
fn test_unaligned_i64_div_i64() {
    let result = UnalignedI64::new(42i64 * 5i64) / 5i64;
    assert_eq!(result, 42i64);
}


#[test]
fn signed_division_truncates_towards_zero() {
    assert_eq!((UnalignedI16::new(-7) / UnalignedI16::new(2)).get(), -3);
    assert_eq!(UnalignedI32::new(-7) / 2, -3);
    assert_eq!(UnalignedI64::parse("-42").unwrap().get(), -42);
    assert!(UnalignedU64::parse("-0").is_err());
}
