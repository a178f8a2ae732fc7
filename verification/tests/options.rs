use keyforge::cli::GenArgs;
use keyforge::config::{Config, SiteConfig};
use keyforge::options::{
    derive_password, is_new_site, password_classes, remember_action, remember_site,
    resolve_options, valid_options, RememberAction, ResolvedOptions,
};
use keyforge::sensitive::SecretVec;

fn args() -> GenArgs {
    GenArgs {
        site: "github.com".to_string(),
        username: None,
        length: None,
        symbols: false,
        print: false,
        remember: false,
        timeout: None,
    }
}

fn options(length: u32, timeout: u32) -> ResolvedOptions {
    ResolvedOptions {
        site: "github.com".to_string(),
        username: "alice".to_string(),
        length,
        symbols: false,
        timeout,
        print: false,
        remember: false,
    }
}

#[test]
fn defaults_apply_to_unknown_site() {
    let mut cfg = Config::default();
    cfg.default_user_name = "Carol".to_string();
    let o = resolve_options(&args(), &cfg, "github.com".to_string());
    assert_eq!(o.username, "carol");
    assert_eq!(o.length, 16);
    assert!(!o.symbols);
    assert_eq!(o.timeout, 45);
    assert!(is_new_site(&cfg, "github.com"));
}

#[test]
fn arguments_override_remembered_settings() {
    let mut cfg = Config::default();
    cfg.sites.insert(
        "github.com".to_string(),
        SiteConfig { user_name: Some("bob".to_string()), length: Some(30), symbols: Some(false) },
    );
    let o = resolve_options(&args(), &cfg, "github.com".to_string());
    assert_eq!((o.username.as_str(), o.length, o.symbols), ("bob", 30, false));
    assert!(!is_new_site(&cfg, "github.com"));

    let mut a = args();
    a.username = Some("ALICE".to_string());
    a.length = Some(24);
    a.symbols = true;
    a.timeout = Some(5);
    a.print = true;
    let o = resolve_options(&a, &cfg, "github.com".to_string());
    assert_eq!((o.username.as_str(), o.length, o.symbols), ("alice", 24, true));
    assert_eq!(o.timeout, 5);
    assert!(o.print);
}

#[test]
fn option_limits() {
    assert_eq!(valid_options(&options(11, 45)).unwrap_err(), "password length must be at least 12");
    assert_eq!(valid_options(&options(129, 45)).unwrap_err(), "password length must be at most 128");
    assert_eq!(
        valid_options(&options(16, 3601)).unwrap_err(),
        "clipboard timeout must be at most 3600"
    );
    assert!(valid_options(&options(12, 3600)).is_ok());
    assert!(valid_options(&options(128, 0)).is_ok());
}

#[test]
fn remembering_a_site_then_resolving_it() {
    let mut cfg = Config::default();
    let mut o = options(20, 45);
    o.symbols = true;
    assert!(matches!(remember_action(&cfg, &o), RememberAction::Save));
    remember_site(&mut cfg, &o);
    let r = resolve_options(&args(), &cfg, "github.com".to_string());
    assert_eq!((r.username.as_str(), r.length, r.symbols), ("alice", 20, true));
    assert!(matches!(remember_action(&cfg, &o), RememberAction::Save));
}

#[test]
fn overwriting_another_username_asks_first() {
    let mut cfg = Config::default();
    remember_site(&mut cfg, &options(20, 45));
    let mut o = options(20, 45);
    o.username = "bob".to_string();
    match remember_action(&cfg, &o) {
        RememberAction::Confirm(q) => {
            assert_eq!(q, "github.com is remembered as alice; overwrite with bob? [y/N] ")
        }
        RememberAction::Save => panic!("expected a question"),
    }
    cfg.sites.insert(
        "github.com".to_string(),
        SiteConfig { user_name: None, length: None, symbols: None },
    );
    match remember_action(&cfg, &o) {
        RememberAction::Confirm(q) => {
            assert_eq!(q, "github.com is remembered as (none); overwrite with bob? [y/N] ")
        }
        RememberAction::Save => panic!("expected a question"),
    }
}

#[test]
fn classes_with_and_without_symbols() {
    assert_eq!(password_classes(false).len(), 3);
    let with = password_classes(true);
    assert_eq!(with.len(), 4);
    assert_eq!(with[3], b"!@#$%^&*");
}

#[test]
fn derivation_pipeline_is_stable_and_well_formed() {
    let master = SecretVec::new(b"correct-horse-battery-staple".to_vec()).unwrap();
    let a = derive_password(&master, "github.com", "alice", 20, true).unwrap();
    let b = derive_password(&master, "github.com", "alice", 20, true).unwrap();
    assert_eq!(a.as_bytes(), b.as_bytes());
    assert_eq!(a.len(), 20);
    assert!(a.as_bytes().iter().any(|c| b"!@#$%^&*".contains(c)));
}
