//! Normalisation of discovered web-server virtual hosts into canonical sites.
//!
//! Raw `{domain, port}` records pass through [`filter::filter_vhosts`], which
//! applies the ignore list and the port policy, drops repeats and lets HTTPS
//! supersede plain HTTP, and then through [`site::get_sites_from_vhosts`],
//! which gives each retained host its display name and URL.

use vstd::prelude::*;

pub mod domain;
pub mod filter;
pub mod filter_laws;
pub mod site;
pub mod text;
pub mod wildcard;

verus! {

/// The well-known port of plain HTTP.
pub const DEFAULT_HTTP_PORT: i32 = 80;

/// The well-known port of HTTPS.
pub const DEFAULT_HTTPS_PORT: i32 = 443;

/// The prefix that marks the `www` alias of a domain.
pub const WWW_SEARCH_PATTERN: &'static str = "www.";

/// Whether `port` is one of the two well-known ports.
pub open spec fn is_standard_port(port: int) -> bool {
    port == DEFAULT_HTTP_PORT || port == DEFAULT_HTTPS_PORT
}

} // verus!
