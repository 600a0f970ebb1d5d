//! Forward-proxy resolution from plain configuration values: an
//! environment value wins outright; otherwise the first configuration
//! file present decides, an empty file standing for a fixed default
//! address; with nothing present no proxy is used.

use vstd::prelude::*;
use vstd::string::StringExecFns;
use crate::text::{trim_end, trimmed_end};

verus! {

/// The proxy address that an empty configuration file stands for.
pub open spec fn default_proxy() -> Seq<char> {
    "http://127.0.0.1:10808"@
}

/// What a configuration file's contents resolve to: the contents with
/// trailing whitespace removed, or the default address when nothing is
/// left.
pub open spec fn proxy_from_contents_view(contents: Seq<char>) -> Seq<char> {
    if trimmed_end(contents).len() == 0 {
        default_proxy()
    } else {
        trimmed_end(contents)
    }
}

/// The view of an optional owned string.
pub open spec fn opt_string_view(s: Option<String>) -> Option<Seq<char>> {
    match s {
        Some(t) => Some(t@),
        None => None,
    }
}

/// The proxy that a run uses, given the environment value and the
/// contents of the user-level and system-level configuration files,
/// each `None` where absent. The environment value wins verbatim, even
/// empty; else the user file decides, even empty; else the system file;
/// else there is no proxy.
pub open spec fn chosen_proxy(
    env: Option<Seq<char>>,
    user: Option<Seq<char>>,
    system: Option<Seq<char>>,
) -> Option<Seq<char>> {
    match env {
        Some(v) => Some(v),
        None => match user {
            Some(c) => Some(proxy_from_contents_view(c)),
            None => match system {
                Some(c) => Some(proxy_from_contents_view(c)),
                None => None,
            },
        },
    }
}

/// Resolves a configuration file's contents to a proxy address.
pub fn proxy_from_contents(contents: &str) -> (r: String)
    ensures
        r@ == proxy_from_contents_view(contents@),
{
    let t = trim_end(contents);
    if t.unicode_len() == 0 {
        String::from_str("http://127.0.0.1:10808")
    } else {
        String::from_str(t)
    }
}

/// Picks the proxy for a run. `env` is the value of the proxy
/// environment variable, `user` and `system` are the contents of the two
/// configuration files; each is `None` where the source is absent.
pub fn detect_proxy(
    env: Option<String>,
    user: Option<String>,
    system: Option<String>,
) -> (r: Option<String>)
    ensures
        opt_string_view(r) == chosen_proxy(
            opt_string_view(env),
            opt_string_view(user),
            opt_string_view(system),
        ),
{
    match env {
        Some(v) => Some(v),
        None => match user {
            Some(c) => Some(proxy_from_contents(c.as_str())),
            None => match system {
                Some(c) => Some(proxy_from_contents(c.as_str())),
                None => None,
            },
        },
    }
}

} // verus!
