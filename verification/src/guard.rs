//! The guard in front of a request: which URLs may be fetched at all, which
//! host has to be resolved first, and which resolved addresses stop the
//! request.

use crate::error::{Error, ErrorView};
use crate::resolve::{
    describe_parse_error, parse_error_text, parse_url, parts_of, read_parts, url_parsed, UrlParts,
    UrlPartsView,
};
use crate::net::{
    internal_name, ip_is_private, ip_text, ipv4_is_private, is_internal_host, is_private_ip,
    lowercased, IpAddress,
};
use crate::text::str_eq;
use vstd::prelude::*;
use vstd::string::StringExecFns;

verus! {

/// The host and port that have to be resolved before the request is made.
#[derive(Clone, Debug)]
pub struct LookupTarget {
    /// The host, as it stands in the URL.
    pub host: String,
    /// The port: the URL's own, else 443 for `https` and 80 for `http`.
    pub port: u16,
}

/// What a [`LookupTarget`] holds.
pub struct LookupTargetView {
    pub host: Seq<char>,
    pub port: u16,
}

impl View for LookupTarget {
    type V = LookupTargetView;

    open spec fn view(&self) -> LookupTargetView {
        LookupTargetView { host: self.host@, port: self.port }
    }
}

/// The view of a result whose two sides have views.
pub open spec fn result_view<T: View, E: View>(r: Result<T, E>) -> Result<T::V, E::V> {
    match r {
        Ok(t) => Ok(t@),
        Err(e) => Err(e@),
    }
}

/// The message for a URL whose scheme is not accepted.
pub open spec fn unsupported_scheme_message(scheme: Seq<char>) -> Seq<char> {
    "unsupported scheme '"@ + scheme + "', only http/https allowed"@
}

/// The message for a URL whose host is internal.
pub open spec fn internal_host_message(host: Seq<char>) -> Seq<char> {
    "blocked request to internal host: "@ + host
}

/// The message for a host that resolves to a private address.
pub open spec fn private_ip_message(ip: IpAddress, host: Seq<char>) -> Seq<char> {
    "blocked request to private IP: "@ + ip_text(ip) + " (resolved from "@ + host + ")"@
}

/// The port that a scheme implies.
pub open spec fn default_port(scheme: Seq<char>) -> u16 {
    if scheme == "https"@ {
        443
    } else {
        80
    }
}

/// The guard's verdict on a parsed URL, before anything is resolved. The
/// scheme is checked first, then the presence of a host, then the host's
/// name.
pub open spec fn vetted(parts: UrlPartsView) -> Result<LookupTargetView, ErrorView> {
    if parts.scheme != "http"@ && parts.scheme != "https"@ {
        Err(ErrorView::InvalidUrl(unsupported_scheme_message(parts.scheme)))
    } else {
        match parts.host {
            None => Err(ErrorView::InvalidUrl("missing host"@)),
            Some(host) => if internal_name(lowercased(host)) {
                Err(ErrorView::SsrfBlocked(internal_host_message(host)))
            } else {
                Ok(
                    LookupTargetView {
                        host,
                        port: match parts.port {
                            Some(p) => p,
                            None => default_port(parts.scheme),
                        },
                    },
                )
            },
        }
    }
}

/// The guard's verdict on a URL as text.
pub open spec fn vetted_text(text: Seq<char>) -> Result<LookupTargetView, ErrorView> {
    match url_parsed(text) {
        Ok(u) => vetted(parts_of(u)@),
        Err(e) => Err(ErrorView::InvalidUrl(parse_error_text(e))),
    }
}

/// Judges a parsed URL: an error where the request must not be made, else
/// the host and port to resolve.
pub fn vet_parts(parts: UrlParts) -> (r: Result<LookupTarget, Error>)
    ensures
        result_view(r) == vetted(parts@),
{
    let is_http = str_eq(parts.scheme.as_str(), "http");
    let is_https = str_eq(parts.scheme.as_str(), "https");
    if !is_http && !is_https {
        let message = String::from_str("unsupported scheme '").concat(parts.scheme.as_str()).concat(
            "', only http/https allowed",
        );
        return Err(Error::InvalidUrl(message));
    }
    match parts.host {
        None => Err(Error::InvalidUrl(String::from_str("missing host"))),
        Some(host) => {
            if is_internal_host(host.as_str()) {
                let message = String::from_str("blocked request to internal host: ").concat(
                    host.as_str(),
                );
                Err(Error::SsrfBlocked(message))
            } else {
                let port: u16 = match parts.port {
                    Some(p) => p,
                    None => if is_https {
                        443
                    } else {
                        80
                    },
                };
                Ok(LookupTarget { host, port })
            }
        },
    }
}

/// Judges a URL: an error where it does not parse or the request must not be
/// made, else the host and port to resolve.
pub fn vet_url(url: &str) -> (r: Result<LookupTarget, Error>)
    ensures
        result_view(r) == vetted_text(url@),
{
    match parse_url(url) {
        Ok(u) => vet_parts(read_parts(&u)),
        Err(e) => Err(Error::InvalidUrl(describe_parse_error(&e))),
    }
}

/// The first private address among the first `n` of a list, if there is one.
pub open spec fn first_private(addrs: Seq<IpAddress>, n: int) -> Option<IpAddress>
    decreases n,
{
    if n <= 0 {
        None
    } else {
        match first_private(addrs, n - 1) {
            Some(ip) => Some(ip),
            None => if ip_is_private(addrs[n - 1]) {
                Some(addrs[n - 1])
            } else {
                None
            },
        }
    }
}

/// The guard's verdict on the addresses that a host resolved to: blocked by
/// the first private one.
pub open spec fn addresses_vetted(host: Seq<char>, addrs: Seq<IpAddress>) -> Result<(), ErrorView> {
    match first_private(addrs, addrs.len() as int) {
        Some(ip) => Err(ErrorView::SsrfBlocked(private_ip_message(ip, host))),
        None => Ok(()),
    }
}

/// The view of a verdict that carries no value.
pub open spec fn verdict_view(r: Result<(), Error>) -> Result<(), ErrorView> {
    match r {
        Ok(_) => Ok(()),
        Err(e) => Err(e@),
    }
}

/// Judges the addresses that `host` resolved to: an error at the first one
/// that is private.
pub fn vet_addresses(host: &str, addrs: &Vec<IpAddress>) -> (r: Result<(), Error>)
    ensures
        verdict_view(r) == addresses_vetted(host@, addrs@),
{
    let mut i: usize = 0;
    while i < addrs.len()
        invariant
            i <= addrs@.len(),
            first_private(addrs@, i as int) is None,
        decreases addrs@.len() - i,
    {
        let ip = addrs[i];
        if is_private_ip(ip) {
            let message = String::from_str("blocked request to private IP: ").concat(
                ip.to_text().as_str(),
            ).concat(" (resolved from ").concat(host).concat(")");
            proof {
                lemma_first_private_stays(addrs@, i + 1, addrs@.len() as int);
            }
            return Err(Error::SsrfBlocked(message));
        }
        i += 1;
    }
    Ok(())
}

/// The guard's verdict on a lookup: that on its addresses, and no objection
/// where the lookup failed.
pub open spec fn lookup_vetted(host: Seq<char>, found: Option<Seq<IpAddress>>) -> Result<
    (),
    ErrorView,
> {
    match found {
        Some(addrs) => addresses_vetted(host, addrs),
        None => Ok(()),
    }
}

/// Judges the outcome of resolving `host`. A host that did not resolve
/// passes: the request itself will report it.
pub fn vet_lookup(host: &str, found: Option<&Vec<IpAddress>>) -> (r: Result<(), Error>)
    ensures
        verdict_view(r) == lookup_vetted(
            host@,
            match found {
                Some(addrs) => Some(addrs@),
                None => None,
            },
        ),
{
    match found {
        Some(addrs) => vet_addresses(host, addrs),
        None => Ok(()),
    }
}

/// Once a private address has been found, looking further finds the same.
pub proof fn lemma_first_private_stays(addrs: Seq<IpAddress>, n: int, m: int)
    requires
        n <= m,
        first_private(addrs, n) is Some,
    ensures
        first_private(addrs, m) == first_private(addrs, n),
    decreases m - n,
{
    if n < m {
        lemma_first_private_stays(addrs, n, m - 1);
    }
}

/// No list of addresses passes the guard unless every one of them is
/// public; a list with a private address is always blocked.
pub proof fn lemma_private_address_blocks(host: Seq<char>, addrs: Seq<IpAddress>)
    ensures
        addresses_vetted(host, addrs) is Ok <==> forall|i: int|
            0 <= i < addrs.len() ==> !ip_is_private(#[trigger] addrs[i]),
{
    lemma_first_private_none(addrs, addrs.len() as int);
}

/// A host that resolves to nothing but one private IPv4 address is always
/// blocked.
pub proof fn lemma_private_ipv4_blocks(host: Seq<char>, a: [u8; 4])
    requires
        ipv4_is_private(a@),
    ensures
        addresses_vetted(host, seq![IpAddress::V4(a)]) == Err::<(), ErrorView>(
            ErrorView::SsrfBlocked(private_ip_message(IpAddress::V4(a), host)),
        ),
{
    let addrs = seq![IpAddress::V4(a)];
    assert(first_private(addrs, 0) is None);
    assert(ip_is_private(addrs[0]));
}

/// No private address is found among the first `n` exactly where none of
/// them is private.
pub proof fn lemma_first_private_none(addrs: Seq<IpAddress>, n: int)
    requires
        0 <= n <= addrs.len(),
    ensures
        first_private(addrs, n) is None <==> forall|i: int|
            0 <= i < n ==> !ip_is_private(#[trigger] addrs[i]),
    decreases n,
{
    if n > 0 {
        lemma_first_private_none(addrs, n - 1);
    }
}

} // verus!
