//! Checks of startup arguments.

use crate::config;
use crate::config::UrlParts;
use crate::config::UrlView;
use crate::text;
use vstd::prelude::*;

verus! {

/// What is given back for an argument: the argument itself, or a message.
pub open spec fn verdict(r: Result<String, String>) -> Result<Seq<char>, Seq<char>> {
    match r {
        Ok(s) => Ok(s@),
        Err(m) => Err(m@),
    }
}

/// Checks an argument that should be an address with a port; `parses` says whether it is one.
pub fn verify_sock_addr(arg_val: &str, parses: bool) -> (r: Result<String, String>)
    ensures
        verdict(r) == (if parses {
            Ok::<Seq<char>, Seq<char>>(arg_val@)
        } else {
            Err(
                "Could not parse \""@ + arg_val@ + "\" as a valid socket address (with port)."@,
            )
        }),
{
    if parses {
        Ok(arg_val.to_owned())
    } else {
        let mut m = text::joined("Could not parse \"", arg_val);
        m.append("\" as a valid socket address (with port).");
        Err(m)
    }
}

/// The verdict on a server: `found` says whether the name has an address, or why that could not be
/// found out.
pub open spec fn remote_verdict(arg_val: Seq<char>, found: Result<bool, Seq<char>>) -> Result<
    Seq<char>,
    Seq<char>,
> {
    match found {
        Ok(true) => Ok(arg_val),
        Ok(false) => Err("Could not parse \""@ + arg_val + "\" as a valid remote uri"@),
        Err(reason) => Err(reason),
    }
}

/// What a lookup found.
pub open spec fn lookup_view(found: Result<bool, String>) -> Result<bool, Seq<char>> {
    match found {
        Ok(any) => Ok(any),
        Err(reason) => Err(reason@),
    }
}

/// Checks an argument that should be the name or the address of a server, with a port.
pub fn verify_remote_server(arg_val: &str, found: Result<bool, String>) -> (r: Result<
    String,
    String,
>)
    ensures
        verdict(r) == remote_verdict(arg_val@, lookup_view(found)),
{
    match found {
        Ok(true) => Ok(arg_val.to_owned()),
        Ok(false) => {
            let mut m = text::joined("Could not parse \"", arg_val);
            m.append("\" as a valid remote uri");
            Err(m)
        },
        Err(reason) => Err(reason),
    }
}

/// The verdict on the URL of a server.
pub open spec fn url_verdict(arg_val: Seq<char>, parsed: Result<UrlView, Seq<char>>) -> Result<
    Seq<char>,
    Seq<char>,
> {
    match parsed {
        Err(reason) => Err("Invalid URL: "@ + reason),
        Ok(url) => if url.scheme == "http"@ {
            Err("Only https://, h3://, or tls:// URLs are supported for upstreams"@)
        } else if url.scheme != "https"@ && url.scheme != "h3"@ && url.scheme != "tls"@ {
            Err("Unsupported URL scheme '"@ + url.scheme + "'"@)
        } else if url.host_str is None {
            Err("URL must include a host"@)
        } else {
            Ok(arg_val)
        },
    }
}

/// Checks the parts of a server's URL.
pub fn verify_url(arg_val: &str, parsed: Result<UrlParts, String>) -> (r: Result<String, String>)
    ensures
        verdict(r) == url_verdict(arg_val@, config::url_result(parsed)),
{
    let url = match parsed {
        Ok(url) => url,
        Err(reason) => {
            return Err(text::joined("Invalid URL: ", reason.as_str()));
        },
    };
    let scheme = url.scheme.as_str();
    if text::same_text(scheme, "http") {
        return Err(
            "Only https://, h3://, or tls:// URLs are supported for upstreams".to_owned(),
        );
    }
    if !text::same_text(scheme, "https") && !text::same_text(scheme, "h3") && !text::same_text(
        scheme,
        "tls",
    ) {
        let mut m = text::joined("Unsupported URL scheme '", scheme);
        m.append("'");
        return Err(m);
    }
    if url.host_str.is_none() {
        return Err("URL must include a host".to_owned());
    }
    Ok(arg_val.to_owned())
}

/// What the check of a server's argument comes to: a verdict, or a lookup of the name is needed.
#[derive(Debug)]
pub enum UpstreamCheck {
    Verdict(Result<String, String>),
    Lookup,
}

/// Checks an argument that should be a server: a URL, or else a name or an address that
/// `verify_remote_server` decides on.
pub fn verify_upstream(arg_val: &str) -> (check: UpstreamCheck)
    ensures
        if config::looks_like_url(arg_val@) {
            check matches UpstreamCheck::Verdict(r) && verdict(r) == url_verdict(
                arg_val@,
                config::parsed_url(arg_val@),
            )
        } else {
            check is Lookup
        },
{
    if config::is_url(arg_val) {
        UpstreamCheck::Verdict(verify_url(arg_val, config::parse_url(arg_val)))
    } else {
        UpstreamCheck::Lookup
    }
}

/// A URL that passes the check is that of a server over HTTPS or TLS: it is refused later only for
/// want of a host that can be written into a request.
pub proof fn law_checked_urls_are_upstreams(
    arg_val: Seq<char>,
    url: UrlView,
    default_path: Seq<char>,
)
    requires
        url_verdict(arg_val, Ok(url)) is Ok,
        url.host is Some,
    ensures
        config::url_upstream(url, arg_val, default_path) is Ok,
{
}

/// A URL that the check refuses is refused as a server too.
pub proof fn law_refused_urls_are_no_upstreams(
    arg_val: Seq<char>,
    parsed: Result<UrlView, Seq<char>>,
    default_path: Seq<char>,
)
    requires
        url_verdict(arg_val, parsed) is Err,
    ensures
        config::parsed_upstream(parsed, arg_val, default_path) is Err,
{
    reveal_strlit("http");
    reveal_strlit("https");
    reveal_strlit("h3");
    reveal_strlit("tls");
    assert("http"@.len() == 4 && "https"@.len() == 5 && "h3"@.len() == 2 && "tls"@.len() == 3);
}

/// A URL with a host is taken as it is where its scheme is one of three, whatever else it holds.
/// Any other scheme is refused, and so is a URL without a host, or a text that is no URL.
pub proof fn law_schemes_of_servers(arg_val: Seq<char>, url: UrlView, reason: Seq<char>)
    ensures
        (url.scheme == "https"@ || url.scheme == "h3"@ || url.scheme == "tls"@) && url.host_str
            is Some ==> url_verdict(arg_val, Ok(url)) == Ok::<Seq<char>, Seq<char>>(arg_val),
        (url.scheme == "https"@ || url.scheme == "h3"@ || url.scheme == "tls"@) && url.host_str
            is None ==> url_verdict(arg_val, Ok(url)) == Err::<Seq<char>, Seq<char>>(
            "URL must include a host"@,
        ),
        url.scheme == "http"@ ==> url_verdict(arg_val, Ok(url)) == Err::<Seq<char>, Seq<char>>(
            "Only https://, h3://, or tls:// URLs are supported for upstreams"@,
        ),
        url.scheme != "https"@ && url.scheme != "h3"@ && url.scheme != "tls"@ ==> url_verdict(
            arg_val,
            Ok(url),
        ) is Err,
        url_verdict(arg_val, Err(reason)) == Err::<Seq<char>, Seq<char>>(
            "Invalid URL: "@ + reason,
        ),
{
    reveal_strlit("http");
    reveal_strlit("https");
    reveal_strlit("h3");
    reveal_strlit("tls");
    assert("http"@.len() == 4 && "https"@.len() == 5 && "h3"@.len() == 2 && "tls"@.len() == 3);
}

/// A server's name is taken as it is exactly where it has an address.
pub proof fn law_servers_need_an_address(arg_val: Seq<char>, reason: Seq<char>)
    ensures
        remote_verdict(arg_val, Ok(true)) == Ok::<Seq<char>, Seq<char>>(arg_val),
        remote_verdict(arg_val, Ok(false)) == Err::<Seq<char>, Seq<char>>(
            "Could not parse \""@ + arg_val + "\" as a valid remote uri"@,
        ),
        remote_verdict(arg_val, Err(reason)) == Err::<Seq<char>, Seq<char>>(reason),
{
}

} // verus!
