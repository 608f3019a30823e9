use more_interesting::base128;
use more_interesting::base32;
use unicode_normalization::UnicodeNormalization;

#[test]
fn all_base_32_nfc_normalizes_to_one_char() {
    let mut s = String::new();
    let mut s2 = String::new();
    for d in 0..32u64 {
        let c = base32::digit_char(d);
        s.clear();
        s.push(c);
        s2.clear();
        s2.extend(s.nfc());
        if s != s2 {
            panic!("Digit does not round-trip through NFC: {} -> {}", s, s2);
        }
    }
}

#[test]
fn all_base_128_nfc_normalizes_to_one_char() {
    let mut s = String::new();
    let mut s2 = String::new();
    for d in 0..128u128 {
        let c = base128::digit_char(d);
        s.clear();
        s.push(c);
        s2.clear();
        s2.extend(s.nfc());
        if s != s2 {
            panic!("Digit does not round-trip through NFC: {} -> {}", s, s2);
        }
    }
}
