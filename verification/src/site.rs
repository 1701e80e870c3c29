//! Derivation of the reportable sites from retained virtual hosts.

use vstd::prelude::*;
use vstd::string::*;

use crate::domain::{endpoints, site_texts, Endpoint, Site, SiteText, VirtualHost};
use crate::text::{
    append_decimal, decimal_text, law_decimal_text_injective, lemma_decimal_digits_shape,
    starts_with,
};
use crate::{is_standard_port, DEFAULT_HTTPS_PORT, DEFAULT_HTTP_PORT, WWW_SEARCH_PATTERN};

verus! {

/// The scheme prefix of a URL on the HTTPS port.
pub const HTTPS_SCHEME: &'static str = "https://";

/// The scheme prefix of a URL on any other port.
pub const HTTP_SCHEME: &'static str = "http://";

/// What is written between a domain and a port number.
pub const PORT_SEPARATOR: &'static str = ":";

/// What follows the domain in the name of a site on the HTTP port.
pub const HTTP_NAME_SUFFIX: &'static str = "_http";

/// The address of a site: `https://` and the domain on the HTTPS port,
/// `http://` and the domain on the HTTP port, and on any other port `http://`,
/// the domain, a colon and the port in decimal.
pub open spec fn site_url(domain: Seq<char>, port: int) -> Seq<char> {
    if port == DEFAULT_HTTPS_PORT {
        HTTPS_SCHEME@ + domain
    } else if port == DEFAULT_HTTP_PORT {
        HTTP_SCHEME@ + domain
    } else {
        HTTP_SCHEME@ + domain + PORT_SEPARATOR@ + decimal_text(port)
    }
}

/// The display name of a site: the bare domain on the HTTPS port, the domain
/// and `_http` on the HTTP port, and on any other port the domain, a colon and
/// the port in decimal.
pub open spec fn site_name(domain: Seq<char>, port: int) -> Seq<char> {
    if port == DEFAULT_HTTPS_PORT {
        domain
    } else if port == DEFAULT_HTTP_PORT {
        domain + HTTP_NAME_SUFFIX@
    } else {
        domain + PORT_SEPARATOR@ + decimal_text(port)
    }
}

/// The site that stands for a retained virtual host.
pub open spec fn site_of(host: Endpoint) -> SiteText {
    SiteText { name: site_name(host.domain, host.port), url: site_url(host.domain, host.port) }
}

/// Whether a virtual host contributes a site: hosts whose domain begins
/// with `www.` are skipped unless they are included, and hosts on the HTTP
/// port are skipped when plain HTTP is excluded.
pub open spec fn is_reported(host: Endpoint, include_www: bool, exclude_http: bool) -> bool {
    &&& include_www || !WWW_SEARCH_PATTERN@.is_prefix_of(host.domain)
    &&& !(exclude_http && host.port == DEFAULT_HTTP_PORT)
}

/// The sites of the reported hosts, in the order of the hosts.
pub open spec fn derived_sites(
    hosts: Seq<Endpoint>,
    include_www: bool,
    exclude_http: bool,
) -> Seq<SiteText> {
    hosts.filter(|host: Endpoint| is_reported(host, include_www, exclude_http)).map_values(
        |host: Endpoint| site_of(host),
    )
}

/// No hosts, no sites.
pub proof fn law_derived_sites_empty(include_www: bool, exclude_http: bool)
    ensures
        derived_sites(Seq::empty(), include_www, exclude_http) == Seq::<SiteText>::empty(),
{
    reveal(Seq::filter);
}

/// One more host at the end adds its site at the end where it is reported,
/// and nothing where it is skipped.
pub proof fn law_derived_sites_push(
    hosts: Seq<Endpoint>,
    last: Endpoint,
    include_www: bool,
    exclude_http: bool,
)
    ensures
        derived_sites(hosts.push(last), include_www, exclude_http) == (if is_reported(
            last,
            include_www,
            exclude_http,
        ) {
            derived_sites(hosts, include_www, exclude_http).push(site_of(last))
        } else {
            derived_sites(hosts, include_www, exclude_http)
        }),
{
    reveal(Seq::filter);
    assert(hosts.push(last).drop_last() == hosts);
}

/// Where every host is reported, each contributes its site, in order.
pub proof fn law_all_reported(hosts: Seq<Endpoint>, include_www: bool, exclude_http: bool)
    requires
        forall|i: int|
            0 <= i < hosts.len() ==> is_reported(#[trigger] hosts[i], include_www, exclude_http),
    ensures
        derived_sites(hosts, include_www, exclude_http) == hosts.map_values(
            |host: Endpoint| site_of(host),
        ),
    decreases hosts.len(),
{
    if hosts.len() == 0 {
        law_derived_sites_empty(include_www, exclude_http);
        assert(hosts == Seq::<Endpoint>::empty());
    } else {
        let before = hosts.drop_last();
        assert(hosts == before.push(hosts.last()));
        assert forall|i: int| 0 <= i < before.len() implies is_reported(
            #[trigger] before[i],
            include_www,
            exclude_http,
        ) by {
            assert(before[i] == hosts[i]);
        }
        law_all_reported(before, include_www, exclude_http);
        law_derived_sites_push(before, hosts.last(), include_www, exclude_http);
        assert(is_reported(hosts[hosts.len() - 1], include_www, exclude_http));
    }
}

/// Where no host is reported, there is no site.
pub proof fn law_none_reported(hosts: Seq<Endpoint>, include_www: bool, exclude_http: bool)
    requires
        forall|i: int|
            0 <= i < hosts.len() ==> !is_reported(#[trigger] hosts[i], include_www, exclude_http),
    ensures
        derived_sites(hosts, include_www, exclude_http) == Seq::<SiteText>::empty(),
    decreases hosts.len(),
{
    if hosts.len() == 0 {
        law_derived_sites_empty(include_www, exclude_http);
        assert(hosts == Seq::<Endpoint>::empty());
    } else {
        let before = hosts.drop_last();
        assert(hosts == before.push(hosts.last()));
        assert forall|i: int| 0 <= i < before.len() implies !is_reported(
            #[trigger] before[i],
            include_www,
            exclude_http,
        ) by {
            assert(before[i] == hosts[i]);
        }
        law_none_reported(before, include_www, exclude_http);
        law_derived_sites_push(before, hosts.last(), include_www, exclude_http);
        assert(!is_reported(hosts[hosts.len() - 1], include_www, exclude_http));
    }
}

/// There is one site for each reported host, and none besides.
pub proof fn law_one_site_per_reported_host(
    hosts: Seq<Endpoint>,
    include_www: bool,
    exclude_http: bool,
)
    ensures
        derived_sites(hosts, include_www, exclude_http).len() == hosts.filter(
            |host: Endpoint| is_reported(host, include_www, exclude_http),
        ).len(),
        derived_sites(hosts, include_www, exclude_http).len() <= hosts.len(),
{
    hosts.lemma_filter_len(|host: Endpoint| is_reported(host, include_www, exclude_http));
}

/// Within one domain the name tells the ports apart: two ports that give
/// the same name are the same port.
pub proof fn law_site_name_tells_ports_apart(domain: Seq<char>, first: int, second: int)
    requires
        site_name(domain, first) == site_name(domain, second),
    ensures
        first == second,
{
    reveal_strlit("_http");
    reveal_strlit(":");
    let prefix = domain + PORT_SEPARATOR@;
    let at = domain.len() as int;
    if !is_standard_port(first) {
        lemma_decimal_digits_shape(if first < 0 { (-first) as nat } else { first as nat });
        assert(site_name(domain, first).len() >= at + 2);
        assert(site_name(domain, first)[at] == ':');
    }
    if !is_standard_port(second) {
        lemma_decimal_digits_shape(if second < 0 { (-second) as nat } else { second as nat });
        assert(site_name(domain, second).len() >= at + 2);
        assert(site_name(domain, second)[at] == ':');
    }
    if first == DEFAULT_HTTP_PORT {
        assert(site_name(domain, first)[at] == '_');
    }
    if second == DEFAULT_HTTP_PORT {
        assert(site_name(domain, second)[at] == '_');
    }
    if !is_standard_port(first) && !is_standard_port(second) {
        assert((prefix + decimal_text(first)).skip(at + 1) =~= decimal_text(first));
        assert((prefix + decimal_text(second)).skip(at + 1) =~= decimal_text(second));
        law_decimal_text_injective(first, second);
    }
}

/// The address tells the scheme: it begins with `https://` exactly on the
/// HTTPS port, and with `http://` on every other port.
pub proof fn law_site_url_scheme(domain: Seq<char>, port: int)
    ensures
        port == DEFAULT_HTTPS_PORT ==> HTTPS_SCHEME@.is_prefix_of(site_url(domain, port)),
        port != DEFAULT_HTTPS_PORT ==> HTTP_SCHEME@.is_prefix_of(site_url(domain, port)),
        HTTPS_SCHEME@.is_prefix_of(site_url(domain, port)) ==> port == DEFAULT_HTTPS_PORT,
{
    reveal_strlit("https://");
    reveal_strlit("http://");
    let url = site_url(domain, port);
    if port == DEFAULT_HTTPS_PORT {
        assert(url.subrange(0, HTTPS_SCHEME@.len() as int) =~= HTTPS_SCHEME@);
    } else {
        assert(url.subrange(0, HTTP_SCHEME@.len() as int) =~= HTTP_SCHEME@);
        assert(url[4] == ':');
        if HTTPS_SCHEME@.is_prefix_of(url) {
            assert(url.subrange(0, HTTPS_SCHEME@.len() as int)[4] == 's');
        }
    }
}


/// Builds the address of a site from its domain and port.
pub fn get_url(domain: &str, port: i32) -> (url: String)
    ensures
        url@ == site_url(domain@, port as int),
{
    if port == DEFAULT_HTTPS_PORT {
        let mut url = String::from_str(HTTPS_SCHEME);
        url.append(domain);
        url
    } else if port == DEFAULT_HTTP_PORT {
        let mut url = String::from_str(HTTP_SCHEME);
        url.append(domain);
        url
    } else {
        let mut url = String::from_str(HTTP_SCHEME);
        url.append(domain);
        url.append(PORT_SEPARATOR);
        append_decimal(&mut url, port);
        url
    }
}

/// Builds the display name of a site from its domain and port.
pub fn get_site_name(domain: &str, port: i32) -> (name: String)
    ensures
        name@ == site_name(domain@, port as int),
{
    let mut name = String::from_str(domain);
    if port == DEFAULT_HTTPS_PORT {
    } else if port == DEFAULT_HTTP_PORT {
        name.append(HTTP_NAME_SUFFIX);
    } else {
        name.append(PORT_SEPARATOR);
        append_decimal(&mut name, port);
    }
    name
}

/// Derives one site per reported virtual host, in input order.
pub fn get_sites_from_vhosts(
    vhosts: Vec<VirtualHost>,
    include_domains_with_www: bool,
    exclude_http: bool,
) -> (sites: Vec<Site>)
    ensures
        site_texts(sites@) == derived_sites(
            endpoints(vhosts@),
            include_domains_with_www,
            exclude_http,
        ),
{
    let ghost hosts = endpoints(vhosts@);
    let mut sites: Vec<Site> = Vec::new();
    proof {
        law_derived_sites_empty(include_domains_with_www, exclude_http);
        assert(hosts.take(0) == Seq::<Endpoint>::empty());
    }
    let mut i: usize = 0;
    while i < vhosts.len()
        invariant
            i <= vhosts.len(),
            hosts == endpoints(vhosts@),
            site_texts(sites@) == derived_sites(
                hosts.take(i as int),
                include_domains_with_www,
                exclude_http,
            ),
        decreases vhosts.len() - i,
    {
        let vhost = &vhosts[i];
        proof {
            assert(hosts.take(i + 1) == hosts.take(i as int).push(vhost@));
            law_derived_sites_push(
                hosts.take(i as int),
                vhost@,
                include_domains_with_www,
                exclude_http,
            );
        }
        let skip_www = !include_domains_with_www && starts_with(
            vhost.domain.as_str(),
            WWW_SEARCH_PATTERN,
        );
        let skip_http = exclude_http && vhost.port == DEFAULT_HTTP_PORT;
        if !skip_www && !skip_http {
            let site = Site {
                name: get_site_name(vhost.domain.as_str(), vhost.port),
                url: get_url(vhost.domain.as_str(), vhost.port),
            };
            let ghost before = sites@;
            sites.push(site);
            assert(site_texts(sites@) == site_texts(before).push(site_of(vhost@)));
        }
        i += 1;
    }
    assert(hosts.take(vhosts.len() as int) == hosts);
    sites
}

} // verus!
