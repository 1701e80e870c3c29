//! Filtering of discovered virtual hosts down to a permitted, deduplicated list.

use vstd::prelude::*;

use crate::domain::{endpoints, texts, Endpoint, VirtualHost};
use crate::wildcard::{wild_match, wildcard_matches};
use crate::{is_standard_port, DEFAULT_HTTPS_PORT, DEFAULT_HTTP_PORT};

verus! {

/// Whether some pattern of `patterns` matches the whole of `domain`.
pub open spec fn is_ignored(domain: Seq<char>, patterns: Seq<Seq<char>>) -> bool {
    exists|i: int| 0 <= i < patterns.len() && wildcard_matches(#[trigger] patterns[i], domain)
}

/// The admission policy on one endpoint taken alone: its domain is not
/// ignored, and its port is well known unless custom ports are allowed.
pub open spec fn is_eligible(
    host: Endpoint,
    allow_custom_ports: bool,
    patterns: Seq<Seq<char>>,
) -> bool {
    !is_ignored(host.domain, patterns) && (allow_custom_ports || is_standard_port(host.port))
}

/// Whether `host` may join `buffer`: it is eligible and not yet in it.
pub open spec fn is_permitted(
    host: Endpoint,
    buffer: Seq<Endpoint>,
    allow_custom_ports: bool,
    patterns: Seq<Seq<char>>,
) -> bool {
    is_eligible(host, allow_custom_ports, patterns) && !buffer.contains(host)
}

/// The buffer after the admission pass over `hosts`: each host joins, in
/// order, when it is permitted with respect to those admitted before it.
pub open spec fn admitted(
    hosts: Seq<Endpoint>,
    allow_custom_ports: bool,
    patterns: Seq<Seq<char>>,
) -> Seq<Endpoint>
    decreases hosts.len(),
{
    if hosts.len() == 0 {
        Seq::empty()
    } else {
        let buffer = admitted(hosts.drop_last(), allow_custom_ports, patterns);
        if is_permitted(hosts.last(), buffer, allow_custom_ports, patterns) {
            buffer.push(hosts.last())
        } else {
            buffer
        }
    }
}

/// The endpoint on the HTTPS port with the domain of `host`.
pub open spec fn https_sibling(host: Endpoint) -> Endpoint {
    Endpoint { domain: host.domain, port: DEFAULT_HTTPS_PORT as int }
}

/// Whether `host` is a plain-HTTP entry whose domain also serves HTTPS in `buffer`.
pub open spec fn is_superseded(host: Endpoint, buffer: Seq<Endpoint>) -> bool {
    host.port == DEFAULT_HTTP_PORT && buffer.contains(https_sibling(host))
}

/// The entries of `entries`, in order, without those that `buffer` supersedes.
pub open spec fn retained(entries: Seq<Endpoint>, buffer: Seq<Endpoint>) -> Seq<Endpoint> {
    entries.filter(|host: Endpoint| !is_superseded(host, buffer))
}

/// The buffer after the HTTPS-preference pass: every entry that the buffer
/// itself supersedes is dropped, and the others keep their order.
pub open spec fn prefer_https(buffer: Seq<Endpoint>) -> Seq<Endpoint> {
    retained(buffer, buffer)
}

/// Nothing is retained of no entries.
pub proof fn lemma_retained_empty(buffer: Seq<Endpoint>)
    ensures
        retained(Seq::empty(), buffer) == Seq::<Endpoint>::empty(),
{
    reveal(Seq::filter);
}

/// One more entry at the end is retained at the end unless it is superseded.
pub proof fn lemma_retained_push(entries: Seq<Endpoint>, last: Endpoint, buffer: Seq<Endpoint>)
    ensures
        retained(entries.push(last), buffer) == (if is_superseded(last, buffer) {
            retained(entries, buffer)
        } else {
            retained(entries, buffer).push(last)
        }),
{
    reveal(Seq::filter);
    assert(entries.push(last).drop_last() == entries);
}

/// The result of filtering: admission, then HTTPS preference.
pub open spec fn filtered(
    hosts: Seq<Endpoint>,
    allow_custom_ports: bool,
    patterns: Seq<Seq<char>>,
) -> Seq<Endpoint> {
    prefer_https(admitted(hosts, allow_custom_ports, patterns))
}

/// Tells whether no pattern of the ignore list matches the whole domain.
pub fn vhost_not_in_ignore_list(domain: &String, ignore_list: &Vec<&str>) -> (kept: bool)
    ensures
        kept == !is_ignored(domain@, texts(ignore_list@)),
{
    let mut i: usize = 0;
    while i < ignore_list.len()
        invariant
            i <= ignore_list.len(),
            forall|j: int| 0 <= j < i ==> !wildcard_matches(#[trigger] texts(ignore_list@)[j], domain@),
        decreases ignore_list.len() - i,
    {
        if wild_match(ignore_list[i], domain.as_str()) {
            assert(wildcard_matches(texts(ignore_list@)[i as int], domain@));
            return false;
        }
        i += 1;
    }
    true
}

/// Tells whether a port is one of the two well-known ports.
pub fn vhost_has_standard_port(port: i32) -> (standard: bool)
    ensures
        standard == is_standard_port(port as int),
{
    port == DEFAULT_HTTP_PORT || port == DEFAULT_HTTPS_PORT
}

/// Tells whether the list holds an entry with this domain and this port.
pub fn vec_contains_same_domain_with_port(
    vhosts: &Vec<VirtualHost>,
    domain: &String,
    port: i32,
) -> (found: bool)
    ensures
        found == endpoints(vhosts@).contains(Endpoint { domain: domain@, port: port as int }),
{
    let ghost wanted = Endpoint { domain: domain@, port: port as int };
    let mut i: usize = 0;
    while i < vhosts.len()
        invariant
            i <= vhosts.len(),
            wanted == (Endpoint { domain: domain@, port: port as int }),
            forall|j: int| 0 <= j < i ==> #[trigger] endpoints(vhosts@)[j] != wanted,
        decreases vhosts.len() - i,
    {
        if vhosts[i].domain == *domain && vhosts[i].port == port {
            assert(endpoints(vhosts@)[i as int] == wanted);
            return true;
        }
        i += 1;
    }
    false
}

/// Tells whether the list holds an entry with this domain on the HTTPS port.
pub fn vec_contains_same_domain_with_https_port(
    vhosts: &Vec<VirtualHost>,
    domain: &String,
) -> (found: bool)
    ensures
        found == endpoints(vhosts@).contains(
            Endpoint { domain: domain@, port: DEFAULT_HTTPS_PORT as int },
        ),
{
    vec_contains_same_domain_with_port(vhosts, domain, DEFAULT_HTTPS_PORT)
}

/// Decides whether a virtual host may join the buffer of admitted hosts.
///
/// The ignore list is consulted first, then the port policy, then the buffer.
pub fn vhost_add_permitted(
    vhost: &VirtualHost,
    buffer: &Vec<VirtualHost>,
    include_custom_ports: bool,
    ignore_list: &Vec<&str>,
) -> (permitted: bool)
    ensures
        permitted == is_permitted(
            vhost@,
            endpoints(buffer@),
            include_custom_ports,
            texts(ignore_list@),
        ),
{
    let mut permitted = false;
    if vhost_not_in_ignore_list(&vhost.domain, ignore_list) {
        if include_custom_ports {
            if !vec_contains_same_domain_with_port(buffer, &vhost.domain, vhost.port) {
                permitted = true;
            }
        } else {
            if vhost_has_standard_port(vhost.port) {
                if !vec_contains_same_domain_with_port(buffer, &vhost.domain, vhost.port) {
                    permitted = true;
                }
            }
        }
    }
    permitted
}

/// Filters discovered virtual hosts in two passes.
///
/// The admission pass keeps, in order, each host whose domain no ignore
/// pattern matches, whose port is well known unless custom ports are included,
/// and which was not admitted before. The HTTPS-preference pass then drops
/// each entry on the HTTP port whose domain was also admitted on the HTTPS port.
pub fn filter_vhosts(
    vhosts: &Vec<VirtualHost>,
    include_custom_domains: bool,
    ignore_list: &Vec<&str>,
) -> (results_dedup: Vec<VirtualHost>)
    ensures
        endpoints(results_dedup@) == filtered(
            endpoints(vhosts@),
            include_custom_domains,
            texts(ignore_list@),
        ),
{
    let ghost hosts = endpoints(vhosts@);
    let ghost patterns = texts(ignore_list@);
    let mut results: Vec<VirtualHost> = Vec::new();
    let mut results_dedup: Vec<VirtualHost> = Vec::new();

    let mut i: usize = 0;
    while i < vhosts.len()
        invariant
            i <= vhosts.len(),
            hosts == endpoints(vhosts@),
            patterns == texts(ignore_list@),
            endpoints(results@) == admitted(hosts.take(i as int), include_custom_domains, patterns),
        decreases vhosts.len() - i,
    {
        let vhost = &vhosts[i];
        proof {
            let next = hosts.take(i + 1);
            assert(next.drop_last() == hosts.take(i as int));
            assert(next.last() == vhost@);
        }
        if vhost_add_permitted(vhost, &results, include_custom_domains, ignore_list) {
            let ghost before = results@;
            results.push(vhost.clone());
            assert(endpoints(results@) == endpoints(before).push(vhost@));
        }
        i += 1;
    }
    assert(hosts.take(vhosts.len() as int) == hosts);

    let ghost buffer = endpoints(results@);
    proof {
        lemma_retained_empty(buffer);
        assert(buffer.take(0) == Seq::<Endpoint>::empty());
    }
    let mut k: usize = 0;
    while k < results.len()
        invariant
            k <= results.len(),
            buffer == endpoints(results@),
            endpoints(results_dedup@) == retained(buffer.take(k as int), buffer),
        decreases results.len() - k,
    {
        let result = &results[k];
        proof {
            assert(buffer.take(k + 1) == buffer.take(k as int).push(result@));
            lemma_retained_push(buffer.take(k as int), result@, buffer);
        }
        let superseded = result.port == DEFAULT_HTTP_PORT
            && vec_contains_same_domain_with_https_port(&results, &result.domain);
        assert(superseded == is_superseded(result@, buffer));
        if !superseded {
            let ghost before = results_dedup@;
            results_dedup.push(result.clone());
            assert(endpoints(results_dedup@) == endpoints(before).push(result@));
        }
        k += 1;
    }
    assert(buffer.take(results.len() as int) == buffer);
    results_dedup
}

} // verus!
