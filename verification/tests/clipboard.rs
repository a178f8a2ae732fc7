use keyforge::clipboard::should_clear;

#[test]
fn clears_when_unchanged() {
    assert!(should_clear(Some("hunter2"), "hunter2"));
}

#[test]
fn does_not_clear_when_changed() {
    assert!(!should_clear(Some("something-else"), "hunter2"));
}

#[test]
fn does_not_clear_when_unreadable() {
    assert!(!should_clear(None, "hunter2"));
}

#[test]
fn does_not_clear_on_prefix_match() {
    assert!(!should_clear(Some("hunter"), "hunter2"));
    assert!(!should_clear(Some("hunter22"), "hunter2"));
}
