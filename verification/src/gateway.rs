//! The egress gateway's admission decision: a URL's hostname must equal an
//! allowlisted domain or be a subdomain of one before any outbound request
//! may be made. URL parsing is delegated to the url parser behind a named
//! contract; the allowlist check and the error message are verified here.

use vstd::prelude::*;
use vstd::string::StrSliceExecFns;
use vstd::string::StringExecFns;
use crate::text::str_eq;

verus! {

/// Whether the url parser accepts this text as an absolute URL; depends on
/// the text alone.
pub uninterp spec fn url_well_formed(s: Seq<char>) -> bool;

/// The hostname of a well-formed URL, if it has one; depends on the text
/// alone.
pub uninterp spec fn url_hostname(s: Seq<char>) -> Option<Seq<char>>;

/// Relies on `reqwest::Url::parse` and `reqwest::Url::host_str`: parsing
/// accepts or rejects, and the parsed host is read off, as functions of the
/// url text alone. `None` means the text did not parse.
#[verifier::external_body]
fn parse_hostname(url: &str) -> (r: Option<Option<String>>)
    ensures
        r is Some <==> url_well_formed(url@),
        r is Some ==> (match (r, url_hostname(url@)) {
            (Some(Some(a)), Some(b)) => a@ == b,
            (Some(None), None) => true,
            _ => false,
        }),
{
    match reqwest::Url::parse(url) {
        Ok(u) => Some(u.host_str().map(|h| h.to_string())),
        Err(_) => None,
    }
}

/// The fixed set of egress domains.
pub open spec fn allowlist() -> Seq<Seq<char>> {
    seq![
        "pokeapi.co"@,
        "tana.dev"@,
        "api.tana.dev"@,
        "blockchain.tana.dev"@,
        "localhost"@,
        "127.0.0.1"@,
    ]
}

/// Whether `h` ends in a dot followed by the whole domain `d`.
pub open spec fn dot_suffix(h: Seq<char>, d: Seq<char>) -> bool {
    h.len() > d.len() && h.subrange(h.len() - d.len() - 1, h.len() as int) == seq!['.'] + d
}

/// Whether one allowlist entry admits the hostname: an exact match or a
/// subdomain.
pub open spec fn domain_permits(h: Seq<char>, d: Seq<char>) -> bool {
    h == d || dot_suffix(h, d)
}

/// Whether some allowlist entry admits the hostname.
pub open spec fn host_allowed(h: Seq<char>) -> bool {
    exists|i: int| 0 <= i < allowlist().len() && domain_permits(h, #[trigger] allowlist()[i])
}

fn permits(h: &str, d: &str) -> (r: bool)
    ensures
        r == domain_permits(h@, d@),
{
    if str_eq(h, d) {
        return true;
    }
    let hn = h.unicode_len();
    let dn = d.unicode_len();
    if hn <= dn {
        return false;
    }
    let start = hn - dn - 1;
    if h.get_char(start) != '.' {
        proof {
            let suf = h@.subrange(h@.len() - d@.len() - 1, h@.len() as int);
            if suf == seq!['.'] + d@ {
                assert(suf[0] == h@[start as int]);
                assert((seq!['.'] + d@)[0] == '.');
            }
        }
        return false;
    }
    let mut i: usize = 0;
    while i < dn
        invariant
            hn == h@.len(),
            dn == d@.len(),
            hn > dn,
            start == hn - dn - 1,
            i <= dn,
            h@[start as int] == '.',
            forall|j: int| 0 <= j < i ==> h@[start + 1 + j] == d@[j],
        decreases dn - i,
    {
        if h.get_char(start + 1 + i) != d.get_char(i) {
            proof {
                let suf = h@.subrange(h@.len() - d@.len() - 1, h@.len() as int);
                if suf == seq!['.'] + d@ {
                    assert(suf[1 + i] == (seq!['.'] + d@)[1 + i]);
                    assert(h@[start + 1 + i] == d@[i as int]);
                }
            }
            return false;
        }
        i += 1;
    }
    proof {
        assert(h@.subrange(h@.len() - d@.len() - 1, h@.len() as int) =~= seq!['.'] + d@);
    }
    true
}

/// Whether the hostname passes the fixed allowlist.
pub fn hostname_allowed(h: &str) -> (r: bool)
    ensures
        r == host_allowed(h@),
{
    if permits(h, "pokeapi.co") {
        proof {
            assert(domain_permits(h@, allowlist()[0]));
        }
        return true;
    }
    if permits(h, "tana.dev") {
        proof {
            assert(domain_permits(h@, allowlist()[1]));
        }
        return true;
    }
    if permits(h, "api.tana.dev") {
        proof {
            assert(domain_permits(h@, allowlist()[2]));
        }
        return true;
    }
    if permits(h, "blockchain.tana.dev") {
        proof {
            assert(domain_permits(h@, allowlist()[3]));
        }
        return true;
    }
    if permits(h, "localhost") {
        proof {
            assert(domain_permits(h@, allowlist()[4]));
        }
        return true;
    }
    if permits(h, "127.0.0.1") {
        proof {
            assert(domain_permits(h@, allowlist()[5]));
        }
        return true;
    }
    proof {
        assert forall|i: int| 0 <= i < allowlist().len() implies !domain_permits(
            h@,
            #[trigger] allowlist()[i],
        ) by {
            if i == 0 {
                assert(allowlist()[0] == "pokeapi.co"@);
            } else if i == 1 {
                assert(allowlist()[1] == "tana.dev"@);
            } else if i == 2 {
                assert(allowlist()[2] == "api.tana.dev"@);
            } else if i == 3 {
                assert(allowlist()[3] == "blockchain.tana.dev"@);
            } else if i == 4 {
                assert(allowlist()[4] == "localhost"@);
            } else {
                assert(allowlist()[5] == "127.0.0.1"@);
            }
        }
    }
    false
}

/// Why a fetch was refused before any request went out.
#[derive(Debug)]
pub enum FetchError {
    InvalidUrl,
    MissingHost,
    DomainBlocked { host: String },
}

/// The message of a refusal for a blocked domain; the blocked host and the
/// whole allowlist are part of it.
pub open spec fn blocked_message(host: Seq<char>) -> Seq<char> {
    "fetch blocked: domain \""@ + host
        + "\" not in whitelist. Allowed domains: pokeapi.co, tana.dev, api.tana.dev, blockchain.tana.dev, localhost, 127.0.0.1"@
}

impl FetchError {
    /// The message a refusal carries.
    pub fn message(&self) -> (r: String)
        ensures
            r@ == (match self {
                FetchError::InvalidUrl => "Invalid URL"@,
                FetchError::MissingHost => "Invalid hostname"@,
                FetchError::DomainBlocked { host } => blocked_message(host@),
            }),
    {
        match self {
            FetchError::InvalidUrl => String::from_str("Invalid URL"),
            FetchError::MissingHost => String::from_str("Invalid hostname"),
            FetchError::DomainBlocked { host } => {
                let mut m = String::from_str("fetch blocked: domain \"");
                m.append(host.as_str());
                m.append(
                    "\" not in whitelist. Allowed domains: pokeapi.co, tana.dev, api.tana.dev, blockchain.tana.dev, localhost, 127.0.0.1",
                );
                m
            },
        }
    }
}

/// Decides whether an outbound fetch to this URL may proceed, returning the
/// admitted hostname. This is the only gate in front of the network: a URL
/// that does not parse, has no hostname, or names a host outside the
/// allowlist is refused here.
pub fn authorize_fetch(url: &str) -> (r: Result<String, FetchError>)
    ensures
        !url_well_formed(url@) ==> r == Err::<String, FetchError>(FetchError::InvalidUrl),
        url_well_formed(url@) ==> (match url_hostname(url@) {
            Some(h) => {
                &&& (host_allowed(h) ==> (r matches Ok(s) && s@ == h))
                &&& (!host_allowed(h) ==> (r matches Err(e) && (e matches FetchError::DomainBlocked
                    { host } && host@ == h)))
            },
            None => r == Err::<String, FetchError>(FetchError::MissingHost),
        }),
        r is Ok <==> url_well_formed(url@) && (match url_hostname(url@) {
            Some(h) => host_allowed(h),
            None => false,
        }),
{
    match parse_hostname(url) {
        None => Err(FetchError::InvalidUrl),
        Some(None) => Err(FetchError::MissingHost),
        Some(Some(host)) => {
            if hostname_allowed(host.as_str()) {
                Ok(host)
            } else {
                Err(FetchError::DomainBlocked { host })
            }
        },
    }
}

} // verus!
