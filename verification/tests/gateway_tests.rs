use tana_edge::gateway::{authorize_fetch, hostname_allowed, FetchError};

#[test]
fn disallowed_domain_blocked_with_named_host() {
    let r = authorize_fetch("https://evil.example.com/x");
    match r {
        Err(FetchError::DomainBlocked { ref host }) => {
            assert_eq!(host, "evil.example.com");
        }
        _ => panic!("expected a blocked domain"),
    }
    let msg = r.unwrap_err().message();
    assert_eq!(
        msg,
        "fetch blocked: domain \"evil.example.com\" not in whitelist. Allowed domains: \
         pokeapi.co, tana.dev, api.tana.dev, blockchain.tana.dev, localhost, 127.0.0.1"
    );
}

#[test]
fn allowlisted_domains_pass() {
    assert_eq!(authorize_fetch("https://api.tana.dev/x").unwrap(), "api.tana.dev");
    assert_eq!(authorize_fetch("https://tana.dev/x").unwrap(), "tana.dev");
    assert_eq!(authorize_fetch("https://pokeapi.co/api/v2").unwrap(), "pokeapi.co");
    assert_eq!(authorize_fetch("http://localhost:8080/x").unwrap(), "localhost");
    assert_eq!(authorize_fetch("http://127.0.0.1/x").unwrap(), "127.0.0.1");
}

#[test]
fn subdomains_pass() {
    assert_eq!(authorize_fetch("https://sub.tana.dev/x").unwrap(), "sub.tana.dev");
    assert_eq!(
        authorize_fetch("https://deep.sub.tana.dev/x").unwrap(),
        "deep.sub.tana.dev"
    );
}

#[test]
fn lookalike_domains_blocked() {
    // A suffix that is not preceded by a dot is a different domain.
    assert!(matches!(
        authorize_fetch("https://eviltana.dev/x"),
        Err(FetchError::DomainBlocked { .. })
    ));
    // An allowlisted name used as a subdomain of an attacker's domain.
    assert!(matches!(
        authorize_fetch("https://tana.dev.evil.com/x"),
        Err(FetchError::DomainBlocked { .. })
    ));
}

#[test]
fn malformed_url_rejected() {
    let r = authorize_fetch("not a url");
    assert!(matches!(r, Err(FetchError::InvalidUrl)));
    assert_eq!(r.unwrap_err().message(), "Invalid URL");
}

#[test]
fn url_without_host_rejected() {
    let r = authorize_fetch("data:text/plain,stuff");
    assert!(matches!(r, Err(FetchError::MissingHost)));
    assert_eq!(r.unwrap_err().message(), "Invalid hostname");
}

#[test]
fn hostname_check_is_exact_or_dot_suffix() {
    assert!(hostname_allowed("tana.dev"));
    assert!(hostname_allowed("x.tana.dev"));
    assert!(!hostname_allowed("tana.devx"));
    assert!(!hostname_allowed("xtana.dev"));
    assert!(!hostname_allowed(""));
}
