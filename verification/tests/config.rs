use keyforge::config::{
    default_length, default_timeout, permissions_need_fix, render_config_summary, Config,
    SiteConfig, SiteTable,
};

#[test]
fn default_config_has_expected_values() {
    let cfg = Config::default();

    assert_eq!(cfg.default_user_name, "");
    assert_eq!(cfg.default_length, 16);
    assert!(!cfg.default_symbols);
    assert_eq!(cfg.default_timeout, 45);
    assert!(!cfg.default_print);
    assert!(!cfg.default_remember);
    assert!(cfg.sites.is_empty());
}

#[test]
fn serde_defaults_match_default_config() {
    assert_eq!(default_length(), 16);
    assert_eq!(default_timeout(), 45);
}

fn site(user: Option<&str>, length: Option<u32>, symbols: Option<bool>) -> SiteConfig {
    SiteConfig {
        user_name: user.map(|u| u.to_string()),
        length,
        symbols,
    }
}

#[test]
fn site_table_reads_back_what_was_inserted() {
    let mut table = SiteTable::new();
    table.insert("github.com".to_string(), site(Some("alice"), Some(20), Some(true)));
    table.insert("example.org".to_string(), site(None, None, None));
    assert_eq!(table.len(), 2);
    let gh = table.get("github.com").unwrap();
    assert_eq!(gh.user_name.as_deref(), Some("alice"));
    assert_eq!(gh.length, Some(20));
    assert_eq!(gh.symbols, Some(true));
    assert!(table.get("gitlab.com").is_none());

    table.insert("github.com".to_string(), site(Some("bob"), Some(12), None));
    assert_eq!(table.len(), 2);
    let gh = table.get("github.com").unwrap();
    assert_eq!(gh.user_name.as_deref(), Some("bob"));
    assert_eq!(gh.symbols, None);
    assert!(table.get("example.org").unwrap().user_name.is_none());
}

#[test]
fn site_table_keeps_sites_sorted() {
    let mut table = SiteTable::new();
    for name in ["zeta.io", "alpha.io", "mid.io", "Alpha.io", "alpha.io"] {
        table.insert(name.to_string(), site(None, None, None));
    }
    let names: Vec<&str> = (0..table.len()).map(|i| table.entry(i).0.as_str()).collect();
    assert_eq!(names, vec!["Alpha.io", "alpha.io", "mid.io", "zeta.io"]);
}

#[test]
fn summary_of_default_config() {
    let cfg = Config::default();
    let text = render_config_summary(&cfg, "/home/u/.config/keyforge/config.json");
    assert_eq!(
        text,
        "Config file: /home/u/.config/keyforge/config.json\n\
         \n\
         Defaults:\n\
         \x20 username: (none)\n\
         \x20 length  : 16\n\
         \x20 symbols : false\n\
         \x20 timeout : 45\n\
         \x20 print   : false\n\
         \x20 remember: false\n\
         \n\
         Remembered sites:\n\
         \x20 (none)\n"
    );
}

#[test]
fn summary_lists_sites_in_order() {
    let mut cfg = Config::default();
    cfg.default_user_name = "carol".to_string();
    cfg.default_symbols = true;
    cfg.sites
        .insert("github.com".to_string(), site(Some("alice"), Some(20), Some(true)));
    cfg.sites.insert("b.example".to_string(), site(Some(""), None, None));
    let text = render_config_summary(&cfg, "cfg.json");
    assert_eq!(
        text,
        "Config file: cfg.json\n\
         \n\
         Defaults:\n\
         \x20 username: carol\n\
         \x20 length  : 16\n\
         \x20 symbols : true\n\
         \x20 timeout : 45\n\
         \x20 print   : false\n\
         \x20 remember: false\n\
         \n\
         Remembered sites:\n\
         \x20 b.example:\n\
         \x20   username: (none)\n\
         \x20   length  : (default)\n\
         \x20   symbols : (default)\n\
         \x20 github.com:\n\
         \x20   username: alice\n\
         \x20   length  : 20\n\
         \x20   symbols : true\n"
    );
}

#[test]
fn config_file_mode_check() {
    assert!(!permissions_need_fix(0o600));
    assert!(!permissions_need_fix(0o100600));
    assert!(permissions_need_fix(0o644));
    assert!(permissions_need_fix(0o100640));
}
