use keyforge::cli::{normalize_site, site_from_host, site_url};

#[test]
fn normalize_site_hostname() {
    assert_eq!(normalize_site("Github.com").unwrap(), "github.com");
    assert_eq!(
        normalize_site("https://GitHub.com/path").unwrap(),
        "github.com"
    );
    assert_eq!(normalize_site(" github.com   ").unwrap(), "github.com");
}

#[test]
fn rejects_empty_site() {
    assert!(normalize_site(" ").is_err());
    assert!(normalize_site("    ").is_err());
}

#[test]
fn empty_site_error_text() {
    assert_eq!(normalize_site("\t\n ").unwrap_err(), "site cannot be empty");
}

#[test]
fn path_query_and_fragment_do_not_matter() {
    let a = normalize_site("https://example.com/login").unwrap();
    let b = normalize_site("https://example.com/account?x=1#top").unwrap();
    assert_eq!(a, "example.com");
    assert_eq!(a, b);
}

#[test]
fn explicit_scheme_is_kept() {
    assert_eq!(normalize_site("http://Example.ORG:8080/x").unwrap(), "example.org");
}

#[test]
fn url_without_host_is_rejected() {
    assert_eq!(
        normalize_site("file:///etc/passwd").unwrap_err(),
        "site must contain a hostname"
    );
}

#[test]
fn unparsable_site_is_rejected() {
    assert!(normalize_site("exa mple.com").is_err());
}

#[test]
fn url_text_for_site_argument() {
    assert_eq!(site_url("  Github.com ").unwrap(), "https://Github.com");
    assert_eq!(site_url("ftp://Host/x").unwrap(), "ftp://Host/x");
    assert_eq!(site_url("\u{3000}").unwrap_err(), "site cannot be empty");
}

#[test]
fn site_from_parsed_host() {
    assert_eq!(site_from_host(Some("GitHub.COM".to_string())).unwrap(), "github.com");
    assert_eq!(site_from_host(None).unwrap_err(), "site must contain a hostname");
}
