use keyforge::term::{after_confirmation, after_first_entry, is_affirmative, validate_password, PromptStep};

#[test]
fn master_password_length_bounds() {
    assert_eq!(
        validate_password("short").unwrap_err(),
        "master password must be at least 12 characters"
    );
    assert!(validate_password("twelve-chars").is_ok());
    assert!(validate_password(&"x".repeat(128)).is_ok());
    assert_eq!(
        validate_password(&"x".repeat(129)).unwrap_err(),
        "master password must be at most 128 characters"
    );
}

#[test]
fn master_password_counts_characters_not_bytes() {
    // twelve characters, twenty-four bytes
    assert!(validate_password("éééééééééééé").is_ok());
    assert!(validate_password("ééééééééééé").is_err());
}

#[test]
fn prompt_steps() {
    assert!(matches!(after_first_entry("too short", true), PromptStep::Reject(_)));
    assert!(matches!(after_first_entry("long enough pw", true), PromptStep::AskConfirmation));
    assert!(matches!(after_first_entry("long enough pw", false), PromptStep::Accept));
    assert!(matches!(after_confirmation("long enough pw", "long enough pw"), PromptStep::Accept));
    assert!(matches!(after_confirmation("long enough pw", "long enough pW"), PromptStep::Mismatch));
}

#[test]
fn affirmative_answers() {
    assert!(is_affirmative(2, "y\n"));
    assert!(is_affirmative(6, "  Yes\n"));
    assert!(!is_affirmative(2, "n\n"));
    assert!(!is_affirmative(1, "\n"));
    assert!(!is_affirmative(0, ""));
    assert!(!is_affirmative(3, " x y"));
}
