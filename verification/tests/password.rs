use more_interesting::password::{parts, password_hash, password_hash_with_salt, password_verify, PasswordResult};

#[test]
fn hash_then_verify() {
    let mut h = password_hash("correct horse").expect("the system has a random generator");
    assert_eq!(h.len(), 65);
    assert_eq!(h[0], 1);
    assert_eq!(password_verify("correct horse", &mut h[..]), PasswordResult::Passed);
    assert_eq!(password_verify("wrong horse", &mut h[..]), PasswordResult::Failed);
    let other = password_hash("correct horse").expect("the system has a random generator");
    assert_ne!(other[33..], h[33..]);
}

#[test]
fn hash_with_fixed_salt() {
    let salt = [7u8; 32];
    let a = password_hash_with_salt("pw", &salt);
    let b = password_hash_with_salt("pw", &salt);
    assert_eq!(a, b);
    assert_eq!(a.len(), 65);
    assert_eq!(a[0], 1);
    assert_eq!(&a[33..], &salt[..]);
    assert_ne!(&a[1..33], &[0u8; 32][..]);
    let c = password_hash_with_salt("pw", &[8u8; 32]);
    assert_ne!(a[1..33], c[1..33]);
    let mut a2 = a.clone();
    assert_eq!(password_verify("pw", &mut a2[..]), PasswordResult::Passed);
    assert_eq!(a2, a);
}

#[test]
fn parts_split() {
    let mut whole: Vec<u8> = (0..65).collect();
    let p = parts(&mut whole[..]);
    assert_eq!(p.version, &[0u8][..]);
    assert_eq!(p.hash.len(), 32);
    assert_eq!(p.hash[0], 1);
    assert_eq!(p.salt.len(), 32);
    assert_eq!(p.salt[0], 33);
    p.version[0] = 9;
    assert_eq!(whole[0], 9);
}

#[test]
fn another_password_fails() {
    let salt = [9u8; 32];
    let mut h = password_hash_with_salt("correct horse", &salt);
    assert_eq!(password_verify("correct horse", &mut h), PasswordResult::Passed);
    assert_eq!(password_verify("correct hors", &mut h), PasswordResult::Failed);
    assert_eq!(password_verify("", &mut h), PasswordResult::Failed);
    assert_eq!(h, password_hash_with_salt("correct horse", &salt));
}
