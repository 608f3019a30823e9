use more_interesting::base128::{decode, digit_char, encode, Base128, Base128Error};
use std::collections::HashSet;

#[test]
fn base128_no_duplicates() {
    let mut h = HashSet::new();
    for d in 0..128u128 {
        let c = digit_char(d);
        if h.contains(&c) {
            panic!("duplicate {}", c);
        }
        h.insert(c);
    }
}

#[test]
fn base128_round_trip_samples() {
    let samples = [0u128, 1, 127, 128, 129, 16383, 16384, u64::MAX as u128, u128::MAX - 1, u128::MAX];
    for &n in &samples {
        assert_eq!(decode(&encode(n)).unwrap(), n);
    }
    let mut x: u128 = 0x0123_4567_89AB_CDEF_0011_2233_4455_6677;
    for _ in 0..1000 {
        x = x.wrapping_mul(0x2360_ED05_1FC6_5DA4_4385_DF64_9FCC_F645).wrapping_add(0x5851_F42D_4C95_7F2D);
        assert_eq!(decode(&encode(x)).unwrap(), x);
    }
}

#[test]
fn base128_zero_and_errors() {
    assert_eq!(encode(0), "0");
    assert_eq!(decode("0"), Ok(0));
    assert_eq!(decode("a"), Err(Base128Error));
    assert_eq!(decode("0a"), Err(Base128Error));
    assert_eq!(Base128::from_u128(77).into_u128(), 77);
    let b = Base128::from_u128(1 << 100);
    assert_eq!(Base128::parse(&b.to_string()).unwrap(), b);
}

#[test]
fn base128_binary_form() {
    let b = Base128::from_u128(0x0102_0304_0506_0708_090a_0b0c_0d0e_0f10);
    let bytes = b.to_bytes();
    assert_eq!(bytes, (1u8..=16).collect::<Vec<u8>>());
    assert_eq!(Base128::from_bytes(&bytes), b);
    assert_eq!(Base128::from_bytes(&Base128::from_u128(u128::MAX).to_bytes()).into_u128(), u128::MAX);
}

#[test]
fn base128_from_str_reads_like_parse() {
    let b = Base128::from_u128(1 << 100);
    let read: Base128 = b.to_string().parse().unwrap();
    assert_eq!(read, b);
    assert_eq!("0a".parse::<Base128>(), Err(Base128Error));
}

#[test]
fn base128_orders_as_its_numbers() {
    let a = Base128::from_u128(5);
    let b = Base128::from_u128(1 << 100);
    assert!(a < b);
    assert_eq!(b.partial_cmp(&a), Some(std::cmp::Ordering::Greater));
    assert_eq!(a.cmp(&a), std::cmp::Ordering::Equal);
}

#[test]
fn base128_uuid_round_trip() {
    let n: u128 = 0x0102_0304_0506_0708_090a_0b0c_0d0e_0f10;
    let b = Base128::from_u128(n);
    let u = b.into_uuid();
    assert_eq!(u.as_u128(), n);
    assert_eq!(u.to_string(), "01020304-0506-0708-090a-0b0c0d0e0f10");
    assert_eq!(Base128::from_uuid(u), b);
    let v = uuid::Uuid::from_u128(77);
    assert_eq!(Base128::from_uuid(v).into_u128(), 77);
}
