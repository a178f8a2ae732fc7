use hmac::{Hmac, Mac};
use keyforge::encode::{
    covers_all, draw_from_block, encode, expand, BUILTIN_SYMBOLS, DIGIT, LOWER, UPPER,
};
use keyforge::sensitive::SecretVec;

fn base_classes() -> Vec<&'static [u8]> {
    vec![&LOWER[..], &UPPER[..], &DIGIT[..]]
}

fn classes_with_symbols(symbols: &'static [u8]) -> Vec<&'static [u8]> {
    let mut classes = base_classes();
    classes.push(symbols);
    classes
}

fn assert_coverage(password: &[u8], classes: &[&[u8]]) {
    for class in classes {
        assert!(
            password.iter().any(|&c| class.contains(&c)),
            "password is missing at least one character from class {class:?}"
        );
    }
}

fn assert_charset_membership(password: &[u8], classes: &[&[u8]]) {
    let mut charset = Vec::new();
    for class in classes {
        charset.extend_from_slice(class);
    }
    assert!(password.iter().all(|c| charset.contains(c)));
}

fn test_seed(i: u8) -> SecretVec {
    SecretVec::new(vec![i; 64]).unwrap()
}

#[test]
fn encode_is_deterministic() {
    let seed = test_seed(42);
    let classes = base_classes();

    let first = encode(&seed, 16, &classes).unwrap();
    let second = encode(&seed, 16, &classes).unwrap();

    assert_eq!(first.as_bytes(), second.as_bytes());
    assert_eq!(first.len(), 16);
}

#[test]
fn encode_respects_length() {
    let seed = test_seed(42);
    let classes = base_classes();

    assert_eq!(encode(&seed, 8, &classes).unwrap().len(), 8);
    assert_eq!(encode(&seed, 36, &classes).unwrap().len(), 36);
}

#[test]
fn shorter_password_is_not_prefix_of_longer_password() {
    let seed = test_seed(42);
    let classes = base_classes();

    let short = encode(&seed, 8, &classes).unwrap();
    let long = encode(&seed, 16, &classes).unwrap();

    assert_ne!(short.as_bytes(), &long.as_bytes()[..short.len()]);
}

#[test]
fn symbols_changes_output() {
    let seed = test_seed(42);
    let without_symbols = base_classes();
    let with_symbols = classes_with_symbols(BUILTIN_SYMBOLS.as_bytes());

    let with_symbols = encode(&seed, 16, &with_symbols).unwrap();
    let without_symbols = encode(&seed, 16, &without_symbols).unwrap();

    assert_ne!(with_symbols.as_bytes(), without_symbols.as_bytes());
}

#[test]
fn every_active_class_is_covered() {
    for symbols in [None, Some(BUILTIN_SYMBOLS.as_bytes())] {
        let classes = match symbols {
            Some(symbols) => classes_with_symbols(symbols),
            None => base_classes(),
        };

        for i in 0..32u8 {
            let seed = test_seed(i);
            let password = encode(&seed, 12, &classes).unwrap();
            assert_coverage(password.as_bytes(), &classes);
        }
    }
}

#[test]
fn custom_symbols_stay_in_charset() {
    let classes = classes_with_symbols(&b"./{}"[..]);

    for i in 0..16u8 {
        let seed = test_seed(i);
        let password = encode(&seed, 16, &classes).unwrap();
        assert_coverage(password.as_bytes(), &classes);
        assert_charset_membership(password.as_bytes(), &classes);
    }
}

#[test]
fn empty_symbol_set_never_contains_symbols() {
    let classes = base_classes();

    for i in 0..16u8 {
        let seed = test_seed(i);
        let password = encode(&seed, 16, &classes).unwrap();
        assert!(!password
            .as_bytes()
            .iter()
            .any(|c| BUILTIN_SYMBOLS.as_bytes().contains(c)));
    }
}

#[test]
fn different_symbol_sets_change_output() {
    let seed = test_seed(42);
    let first = classes_with_symbols(BUILTIN_SYMBOLS.as_bytes());
    let second = classes_with_symbols(&b"./{}"[..]);

    let first = encode(&seed, 16, &first).unwrap();
    let second = encode(&seed, 16, &second).unwrap();

    assert_ne!(first.as_bytes(), second.as_bytes());
}

#[test]
fn length_short_than_classes_is_rejected() {
    let seed = test_seed(42);
    let classes = classes_with_symbols(BUILTIN_SYMBOLS.as_bytes());

    assert!(encode(&seed, 3, &classes).is_err());
}

/// Coverage rejection changes the marginal frequency of each class, so the
/// whole-charset chi-squared test does not apply. Uniformity should still
/// hold within each class: rejection sampling must not bias one character
/// over another in the same class.
#[test]
fn class_internal_distribution_is_uniform_chi_squared() {
    let classes = base_classes();
    let length = 64u32;
    let seeds = 128u32;

    for &class in &classes {
        let mut counts = vec![0u64; class.len()];

        for i in 0..seeds {
            let seed = test_seed(i as u8);
            let password = encode(&seed, length, &classes).unwrap();

            for &byte in password.as_bytes() {
                if let Some(index) = class.iter().position(|&c| c == byte) {
                    counts[index] += 1;
                }
            }
        }

        let total: u64 = counts.iter().sum();
        let expected = total as f64 / class.len() as f64;
        let chi2: f64 = counts
            .iter()
            .map(|&observed| {
                let diff = observed as f64 - expected;
                diff * diff / expected
            })
            .sum();
        let threshold = 2.0 * (class.len() as f64 - 1.0);

        assert!(
            chi2 < threshold,
            "chi2 = {chi2:.2} exceeds threshold {threshold:.0}; class {class:?} is not uniform"
        );
    }
}

#[test]
fn short_length_error_names_length_and_class_count() {
    let seed = test_seed(1);
    let classes = classes_with_symbols(BUILTIN_SYMBOLS.as_bytes());
    let err = encode(&seed, 3, &classes).err().unwrap();
    assert_eq!(err, "password length 3 is too short for 4 required classes");
}

#[test]
fn single_class_equal_to_length_is_accepted() {
    let seed = test_seed(7);
    let classes: Vec<&[u8]> = vec![&DIGIT[..]];
    let password = encode(&seed, 1, &classes).unwrap();
    assert_eq!(password.len(), 1);
    assert!(DIGIT.contains(&password.as_bytes()[0]));
}

#[test]
fn empty_class_can_never_be_covered() {
    let seed = test_seed(3);
    let classes: Vec<&[u8]> = vec![&LOWER[..], &b""[..]];
    let err = encode(&seed, 4, &classes).err().unwrap();
    assert_eq!(err, "could not satisfy all 2 classes after 4096 rounds");
}

#[test]
fn expand_depends_on_every_input() {
    let seed = [9u8; 64];
    let base = expand(&seed, 16, b"abc", 0, 0).unwrap();
    assert_eq!(base.len(), 32);
    assert_eq!(base, expand(&seed, 16, b"abc", 0, 0).unwrap());
    assert_ne!(base, expand(&seed, 17, b"abc", 0, 0).unwrap());
    assert_ne!(base, expand(&seed, 16, b"abd", 0, 0).unwrap());
    assert_ne!(base, expand(&seed, 16, b"abc", 1, 0).unwrap());
    assert_ne!(base, expand(&seed, 16, b"abc", 0, 1).unwrap());
    assert_ne!(base, expand(&[8u8; 64], 16, b"abc", 0, 0).unwrap());
}

#[test]
fn expand_is_hmac_sha256_of_the_expansion_message() {
    let seed = [5u8; 64];
    let mut message = b"keyforge-password-encode-v2".to_vec();
    message.extend_from_slice(&20u32.to_be_bytes());
    message.extend_from_slice(b"xyz");
    message.extend_from_slice(&2u64.to_be_bytes());
    message.extend_from_slice(&7u64.to_be_bytes());
    let mut mac = <Hmac<sha2::Sha256> as Mac>::new_from_slice(&seed).unwrap();
    mac.update(&message);
    let expected: [u8; 32] = mac.finalize().into_bytes().into();
    assert_eq!(expand(&seed, 20, b"xyz", 2, 7).unwrap(), expected);
}

#[test]
fn rejection_sampling_of_one_block() {
    // three characters: bytes below 255 are accepted, byte % 3 picks the character
    let mut password = Vec::new();
    draw_from_block(&mut password, &[0, 1, 2, 255, 4], b"abc", 10);
    assert_eq!(password, b"abcb".to_vec());

    let mut password = b"xy".to_vec();
    draw_from_block(&mut password, &[5, 6, 7], b"abc", 3);
    assert_eq!(password, b"xyc".to_vec());
}

#[test]
fn charset_dividing_256_accepts_every_byte() {
    let charset: Vec<u8> = (0u8..64).collect();
    let block: Vec<u8> = (0u8..32).map(|b| b * 8).collect();
    let mut password = Vec::new();
    draw_from_block(&mut password, &block, &charset, 16);
    let expected: Vec<u8> = (0u8..16).map(|b| (b * 8) % 64).collect();
    assert_eq!(password, expected);
}

#[test]
fn sixty_four_character_set_is_encoded() {
    let seed = test_seed(11);
    let classes: Vec<&[u8]> = vec![&LOWER[..], &UPPER[..], &DIGIT[..], &b"-_"[..]];
    let password = encode(&seed, 16, &classes).unwrap();
    assert_eq!(password.len(), 16);
    assert_coverage(password.as_bytes(), &classes);
    assert_charset_membership(password.as_bytes(), &classes);
}

#[test]
fn class_coverage_check() {
    let classes: Vec<&[u8]> = vec![&LOWER[..], &DIGIT[..]];
    assert!(covers_all(b"a1", &classes));
    assert!(!covers_all(b"ab", &classes));
    assert!(covers_all(b"", &[]));
}
