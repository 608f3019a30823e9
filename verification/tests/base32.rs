use more_interesting::base32::{decode, digit_char, digit_value, encode, equiv_chars as equiv_char, Base32, Base32Error};
use std::collections::HashSet;

#[test]
fn lib_no_duplicates() {
    let mut h = HashSet::new();
    for d in 0..32u64 {
        let c = digit_char(d);
        if h.contains(&c) {
            panic!("duplicate {}", c);
        }
        h.insert(c);
    }
}

#[test]
fn special_urls() {
    assert_eq!("RSS2", &encode(decode("RSS").expect("RSS is valid base32")));
    assert_eq!("R.0R", &encode(decode("R..R").expect("avoid double-dot for linkification purposes")));
    assert_eq!("R$ER", &encode(decode("R$$R").expect("avoid double-dollar for linkification purposes")));
    assert_eq!("2", &encode(0));
}

#[test]
fn special_urls_roundtrip() {
    assert_eq!(decode("RSS2").expect("RSS2 is valid base32"), decode("RSS").expect("RSS is valid base32"));
    assert_eq!("R.0R", &encode(decode("R..R").expect("replace . with 0 is still valid base32")));
    assert_eq!("R$ER", &encode(decode("R$$R").expect("replace $ with E is still valid base32")));
}

#[test]
fn equiv_chars() {
    assert_eq!(decode("-").expect("- is valid base32"), decode("_").expect("_ is valid base32"));
    assert_eq!(decode(" ").expect("space is valid base32"), decode("_").expect("_ is valid base32"));
}

#[test]
fn base32_round_trip_samples() {
    let samples = [0u64, 1, 2, 31, 32, 33, 1023, 1024, 123456789, u64::MAX / 3, u64::MAX - 1, u64::MAX];
    for &n in &samples {
        assert_eq!(decode(&encode(n)).unwrap(), n);
    }
    let mut x: u64 = 0x9E37_79B9_7F4A_7C15;
    for _ in 0..1000 {
        x = x.wrapping_mul(6364136223846793005).wrapping_add(1442695040888963407);
        assert_eq!(decode(&encode(x)).unwrap(), x);
    }
}

#[test]
fn base32_encoding_shape_samples() {
    let mut x: u64 = 7;
    for _ in 0..2000 {
        x = x.wrapping_mul(2862933555777941757).wrapping_add(3037000493);
        let s = encode(x);
        assert!(!s.is_empty());
        assert_ne!(s, "RSS");
        assert!(!s.ends_with('.'));
        assert!(!s.contains(".."));
        assert!(!s.contains("$$"));
    }
}

#[test]
fn base32_invalid_text_is_an_error() {
    assert_eq!(decode("@"), Err(Base32Error));
    assert_eq!(decode("ab!"), Err(Base32Error));
    assert_eq!(Base32::parse("#"), Err(Base32Error));
    assert_eq!(Base32Error.to_string(), "Invalid base128 number");
    assert_eq!(Base32Error.description(), "Invalid base32 number");
}

#[test]
fn base32_digit_values() {
    for d in 0..32u64 {
        assert_eq!(digit_value(digit_char(d)), Some(d));
    }
    assert_eq!(equiv_char('-'), equiv_char('_'));
}

#[test]
fn base32_wrapper_type() {
    assert_eq!(Base32::zero().into_u64(), 0);
    assert_eq!(Base32::from_u64(42).into_u64(), 42);
    assert_eq!(Base32::from_i64(-1).into_u64(), u64::MAX);
    assert_eq!(Base32::from_i64(-5).into_i64(), -5);
    let b = Base32::from_u64(987654321);
    assert_eq!(Base32::parse(&b.to_string()).unwrap(), b);
    let parsed: Base32 = "RSS".parse().unwrap();
    assert_eq!(parsed.to_string(), "RSS2");
}

#[test]
fn base32_binary_form() {
    let b = Base32::from_u64(0x0102_0304_0506_0708);
    assert_eq!(b.to_bytes(), vec![1, 2, 3, 4, 5, 6, 7, 8]);
    assert_eq!(Base32::from_bytes(&[1, 2, 3, 4, 5, 6, 7, 8, 9]), b);
    assert_eq!(Base32::from_bytes(&b.to_bytes()), b);
}

#[test]
fn base32_from_str_reads_like_parse() {
    let b = Base32::from_u64(987654321);
    let read: Base32 = b.to_string().parse().unwrap();
    assert_eq!(read, b);
    assert_eq!("#".parse::<Base32>(), Err(Base32Error));
}

#[test]
fn base32_orders_as_its_numbers() {
    let a = Base32::from_u64(5);
    let b = Base32::from_u64(40);
    assert!(a < b);
    assert!(a <= b);
    assert!(b > a);
    assert_eq!(a.partial_cmp(&b), Some(std::cmp::Ordering::Less));
    assert_eq!(b.partial_cmp(&a), Some(std::cmp::Ordering::Greater));
    assert_eq!(a.partial_cmp(&Base32::from_u64(5)), Some(std::cmp::Ordering::Equal));
    assert_eq!(Base32::zero(), Base32::from_u64(0));
    assert!(Base32::from_i64(-1) > Base32::from_u64(1));
}
