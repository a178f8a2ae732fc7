use keyforge::sensitive::SecretVec;

#[test]
fn preserves_bytes_and_accessors() {
    let secret = SecretVec::new(vec![1, 2, 3, 4, 5]).unwrap();

    assert_eq!(secret.as_bytes(), &[1, 2, 3, 4, 5]);
    assert_eq!(secret.len(), 5);
    assert!(!secret.is_empty());
}

#[test]
fn empty_secret_reports_empty() {
    let secret = SecretVec::new(Vec::new()).unwrap();

    assert!(secret.is_empty());
    assert_eq!(secret.len(), 0);
    assert!(secret.as_bytes().is_empty());
}

#[test]
fn drop_does_not_panic() {
    for len in [0usize, 1, 64, 4096] {
        let secret = SecretVec::new(vec![0xAB; len]).unwrap();
        drop(secret);
    }
}
