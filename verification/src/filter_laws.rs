//! What holds of every filtering result.

use vstd::prelude::*;

use crate::domain::Endpoint;
use crate::filter::{
    admitted, filtered, https_sibling, is_eligible, is_ignored, is_permitted, is_superseded,
    lemma_retained_empty, lemma_retained_push, retained,
};
use crate::wildcard::{law_suffix_pattern, wildcard_matches, MULTI_WILDCARD};
use crate::{is_standard_port, DEFAULT_HTTPS_PORT, DEFAULT_HTTP_PORT};

verus! {

proof fn lemma_push_contains(items: Seq<Endpoint>, last: Endpoint, host: Endpoint)
    ensures
        items.push(last).contains(host) <==> items.contains(host) || host == last,
{
    let pushed = items.push(last);
    if items.contains(host) {
        let i = choose|i: int| 0 <= i < items.len() && items[i] == host;
        assert(pushed[i] == host);
    }
    if host == last {
        assert(pushed[items.len() as int] == host);
    }
    if pushed.contains(host) {
        let i = choose|i: int| 0 <= i < pushed.len() && pushed[i] == host;
        if i < items.len() {
            assert(items[i] == host);
        }
    }
}

proof fn lemma_push_distinct(items: Seq<Endpoint>, last: Endpoint)
    requires
        items.no_duplicates(),
        !items.contains(last),
    ensures
        items.push(last).no_duplicates(),
{
    let pushed = items.push(last);
    assert forall|i: int, j: int|
        0 <= i < pushed.len() && 0 <= j < pushed.len() && i != j implies pushed[i] != pushed[j] by {
        if i < items.len() && j < items.len() {
            assert(items[i] != items[j]);
        } else if i < items.len() {
            assert(items[i] != last);
        } else {
            assert(items[j] != last);
        }
    }
}

/// An endpoint is in the admitted buffer exactly when it occurs among the
/// hosts and is eligible.
pub proof fn lemma_admitted_members(
    hosts: Seq<Endpoint>,
    allow_custom_ports: bool,
    patterns: Seq<Seq<char>>,
    host: Endpoint,
)
    ensures
        admitted(hosts, allow_custom_ports, patterns).contains(host) <==> hosts.contains(host)
            && is_eligible(host, allow_custom_ports, patterns),
    decreases hosts.len(),
{
    if hosts.len() > 0 {
        let before = hosts.drop_last();
        let last = hosts.last();
        let buffer = admitted(before, allow_custom_ports, patterns);
        lemma_admitted_members(before, allow_custom_ports, patterns, host);
        lemma_admitted_members(before, allow_custom_ports, patterns, last);
        assert(hosts == before.push(last));
        lemma_push_contains(before, last, host);
        lemma_push_contains(buffer, last, host);
    }
}

/// The admitted buffer holds no endpoint twice.
pub proof fn lemma_admitted_distinct(
    hosts: Seq<Endpoint>,
    allow_custom_ports: bool,
    patterns: Seq<Seq<char>>,
)
    ensures
        admitted(hosts, allow_custom_ports, patterns).no_duplicates(),
    decreases hosts.len(),
{
    if hosts.len() > 0 {
        let buffer = admitted(hosts.drop_last(), allow_custom_ports, patterns);
        lemma_admitted_distinct(hosts.drop_last(), allow_custom_ports, patterns);
        if is_permitted(hosts.last(), buffer, allow_custom_ports, patterns) {
            lemma_push_distinct(buffer, hosts.last());
        }
    }
}

/// Admission changes nothing in a list of distinct, eligible endpoints.
pub proof fn lemma_admitted_fixed(
    hosts: Seq<Endpoint>,
    allow_custom_ports: bool,
    patterns: Seq<Seq<char>>,
)
    requires
        hosts.no_duplicates(),
        forall|i: int|
            0 <= i < hosts.len() ==> is_eligible(#[trigger] hosts[i], allow_custom_ports, patterns),
    ensures
        admitted(hosts, allow_custom_ports, patterns) == hosts,
    decreases hosts.len(),
{
    if hosts.len() == 0 {
        assert(hosts == Seq::<Endpoint>::empty());
    } else {
        let before = hosts.drop_last();
        let last = hosts.last();
        assert forall|i: int| 0 <= i < before.len() implies is_eligible(
            #[trigger] before[i],
            allow_custom_ports,
            patterns,
        ) by {
            assert(before[i] == hosts[i]);
        }
        assert forall|i: int, j: int|
            0 <= i < before.len() && 0 <= j < before.len() && i != j implies before[i]
            != before[j] by {
            assert(hosts[i] != hosts[j]);
        }
        lemma_admitted_fixed(before, allow_custom_ports, patterns);
        if before.contains(last) {
            let i = choose|i: int| 0 <= i < before.len() && before[i] == last;
            assert(hosts[i] == hosts[hosts.len() - 1]);
        }
        assert(is_eligible(hosts[hosts.len() - 1], allow_custom_ports, patterns));
        assert(hosts == before.push(last));
    }
}

/// An entry is retained exactly when it is one of the entries and the
/// buffer does not supersede it.
pub proof fn lemma_retained_members(entries: Seq<Endpoint>, buffer: Seq<Endpoint>, host: Endpoint)
    ensures
        retained(entries, buffer).contains(host) <==> entries.contains(host) && !is_superseded(
            host,
            buffer,
        ),
    decreases entries.len(),
{
    if entries.len() == 0 {
        lemma_retained_empty(buffer);
        assert(entries == Seq::<Endpoint>::empty());
    } else {
        let before = entries.drop_last();
        let last = entries.last();
        assert(entries == before.push(last));
        lemma_retained_members(before, buffer, host);
        lemma_retained_push(before, last, buffer);
        lemma_push_contains(before, last, host);
        lemma_push_contains(retained(before, buffer), last, host);
    }
}

/// What is retained of distinct entries is distinct.
pub proof fn lemma_retained_distinct(entries: Seq<Endpoint>, buffer: Seq<Endpoint>)
    requires
        entries.no_duplicates(),
    ensures
        retained(entries, buffer).no_duplicates(),
    decreases entries.len(),
{
    if entries.len() == 0 {
        lemma_retained_empty(buffer);
        assert(entries == Seq::<Endpoint>::empty());
    } else {
        let before = entries.drop_last();
        let last = entries.last();
        assert(entries == before.push(last));
        assert forall|i: int, j: int|
            0 <= i < before.len() && 0 <= j < before.len() && i != j implies before[i]
            != before[j] by {
            assert(entries[i] != entries[j]);
        }
        lemma_retained_distinct(before, buffer);
        lemma_retained_push(before, last, buffer);
        lemma_retained_members(before, buffer, last);
        if before.contains(last) {
            let i = choose|i: int| 0 <= i < before.len() && before[i] == last;
            assert(entries[i] == entries[entries.len() - 1]);
        }
        if !is_superseded(last, buffer) {
            lemma_push_distinct(retained(before, buffer), last);
        }
    }
}

/// Where the buffer supersedes none of the entries, all of them are retained.
pub proof fn lemma_retained_fixed(entries: Seq<Endpoint>, buffer: Seq<Endpoint>)
    requires
        forall|i: int| 0 <= i < entries.len() ==> !is_superseded(#[trigger] entries[i], buffer),
    ensures
        retained(entries, buffer) == entries,
    decreases entries.len(),
{
    if entries.len() == 0 {
        lemma_retained_empty(buffer);
        assert(entries == Seq::<Endpoint>::empty());
    } else {
        let before = entries.drop_last();
        let last = entries.last();
        assert(entries == before.push(last));
        assert forall|i: int| 0 <= i < before.len() implies !is_superseded(
            #[trigger] before[i],
            buffer,
        ) by {
            assert(before[i] == entries[i]);
        }
        lemma_retained_fixed(before, buffer);
        lemma_retained_push(before, last, buffer);
        assert(!is_superseded(entries[entries.len() - 1], buffer));
    }
}

/// Whether `hosts[at]` is the first entry of `hosts` with its domain and port.
pub open spec fn is_first_occurrence(hosts: Seq<Endpoint>, at: int) -> bool {
    &&& 0 <= at < hosts.len()
    &&& forall|before: int| 0 <= before < at ==> hosts[before] != hosts[at]
}

/// Whether `earlier` is first met in `hosts` before `later` is first met.
pub open spec fn first_met_before(hosts: Seq<Endpoint>, earlier: Endpoint, later: Endpoint) -> bool {
    exists|a: int, b: int|
        #![trigger is_first_occurrence(hosts, a), is_first_occurrence(hosts, b)]
        {
            &&& a < b
            &&& is_first_occurrence(hosts, a)
            &&& is_first_occurrence(hosts, b)
            &&& hosts[a] == earlier
            &&& hosts[b] == later
        }
}

proof fn lemma_first_occurrence_exists(hosts: Seq<Endpoint>, host: Endpoint) -> (at: int)
    requires
        hosts.contains(host),
    ensures
        is_first_occurrence(hosts, at),
        hosts[at] == host,
    decreases hosts.len(),
{
    let before = hosts.drop_last();
    if before.contains(host) {
        let at = lemma_first_occurrence_exists(before, host);
        assert forall|k: int| 0 <= k < at implies hosts[k] != hosts[at] by {
            assert(before[k] != before[at]);
        }
        at
    } else {
        let at = hosts.len() - 1;
        let i = choose|i: int| 0 <= i < hosts.len() && hosts[i] == host;
        if i < at {
            assert(before[i] == host);
        }
        assert forall|k: int| 0 <= k < at implies hosts[k] != hosts[at] by {
            assert(before[k] == hosts[k]);
        }
        at
    }
}

proof fn lemma_first_occurrence_extends(hosts: Seq<Endpoint>, last: Endpoint, at: int)
    requires
        is_first_occurrence(hosts, at),
    ensures
        is_first_occurrence(hosts.push(last), at),
        hosts.push(last)[at] == hosts[at],
{
    let longer = hosts.push(last);
    assert forall|k: int| 0 <= k < at implies longer[k] != longer[at] by {
        assert(hosts[k] != hosts[at]);
    }
}

proof fn lemma_admitted_order(
    hosts: Seq<Endpoint>,
    allow_custom_ports: bool,
    patterns: Seq<Seq<char>>,
    i: int,
    j: int,
)
    requires
        0 <= i < j < admitted(hosts, allow_custom_ports, patterns).len(),
    ensures
        first_met_before(
            hosts,
            admitted(hosts, allow_custom_ports, patterns)[i],
            admitted(hosts, allow_custom_ports, patterns)[j],
        ),
    decreases hosts.len(),
{
    let before = hosts.drop_last();
    let last = hosts.last();
    let buffer = admitted(before, allow_custom_ports, patterns);
    let result = admitted(hosts, allow_custom_ports, patterns);
    assert(hosts == before.push(last));
    if j < buffer.len() {
        lemma_admitted_order(before, allow_custom_ports, patterns, i, j);
        let (a, b) = choose|a: int, b: int|
            #![trigger is_first_occurrence(before, a), is_first_occurrence(before, b)]
            a < b && is_first_occurrence(before, a) && is_first_occurrence(before, b) && before[a]
                == buffer[i] && before[b] == buffer[j];
        lemma_first_occurrence_extends(before, last, a);
        lemma_first_occurrence_extends(before, last, b);
        assert(is_first_occurrence(hosts, a) && is_first_occurrence(hosts, b));
    } else {
        assert(result == buffer.push(last));
        assert(buffer.contains(buffer[i]));
        lemma_admitted_members(before, allow_custom_ports, patterns, buffer[i]);
        lemma_admitted_members(before, allow_custom_ports, patterns, last);
        let a = lemma_first_occurrence_exists(before, buffer[i]);
        lemma_first_occurrence_extends(before, last, a);
        let b = hosts.len() - 1;
        assert forall|k: int| 0 <= k < b implies hosts[k] != hosts[b] by {
            if hosts[k] == hosts[b] {
                assert(before[k] == last);
            }
        }
        assert(is_first_occurrence(hosts, a) && is_first_occurrence(hosts, b));
    }
}

proof fn lemma_retained_order(
    entries: Seq<Endpoint>,
    buffer: Seq<Endpoint>,
    i: int,
    j: int,
) -> (places: (int, int))
    requires
        0 <= i < j < retained(entries, buffer).len(),
    ensures
        0 <= places.0 < places.1 < entries.len(),
        entries[places.0] == retained(entries, buffer)[i],
        entries[places.1] == retained(entries, buffer)[j],
    decreases entries.len(),
{
    if entries.len() == 0 {
        lemma_retained_empty(buffer);
        assert(entries == Seq::<Endpoint>::empty());
        (0, 0)
    } else {
        let before = entries.drop_last();
        let last = entries.last();
        let kept = retained(before, buffer);
        assert(entries == before.push(last));
        lemma_retained_push(before, last, buffer);
        if j < kept.len() {
            lemma_retained_order(before, buffer, i, j)
        } else {
            assert(kept.contains(kept[i]));
            lemma_retained_members(before, buffer, kept[i]);
            let a = choose|a: int| 0 <= a < before.len() && before[a] == kept[i];
            (a, entries.len() - 1)
        }
    }
}

/// Order of first encounter: of two entries of the result, the one that
/// stands first is also first met among the hosts before the other is.
pub proof fn law_filtered_keeps_encounter_order(
    hosts: Seq<Endpoint>,
    allow_custom_ports: bool,
    patterns: Seq<Seq<char>>,
    i: int,
    j: int,
)
    requires
        0 <= i < j < filtered(hosts, allow_custom_ports, patterns).len(),
    ensures
        first_met_before(
            hosts,
            filtered(hosts, allow_custom_ports, patterns)[i],
            filtered(hosts, allow_custom_ports, patterns)[j],
        ),
{
    let buffer = admitted(hosts, allow_custom_ports, patterns);
    let places = lemma_retained_order(buffer, buffer, i, j);
    lemma_admitted_order(hosts, allow_custom_ports, patterns, places.0, places.1);
}

/// Membership in the filtering result: an endpoint is retained exactly when
/// it occurs among the hosts, is eligible, and is not a plain-HTTP entry
/// whose domain occurs among the hosts on the HTTPS port as well.
pub proof fn law_filtered_members(
    hosts: Seq<Endpoint>,
    allow_custom_ports: bool,
    patterns: Seq<Seq<char>>,
    host: Endpoint,
)
    ensures
        filtered(hosts, allow_custom_ports, patterns).contains(host) <==> ({
            &&& hosts.contains(host)
            &&& is_eligible(host, allow_custom_ports, patterns)
            &&& !(host.port == DEFAULT_HTTP_PORT && hosts.contains(https_sibling(host)))
        }),
{
    let buffer = admitted(hosts, allow_custom_ports, patterns);
    lemma_retained_members(buffer, buffer, host);
    lemma_admitted_members(hosts, allow_custom_ports, patterns, host);
    lemma_admitted_members(hosts, allow_custom_ports, patterns, https_sibling(host));
}

/// The filtering result never holds two entries with the same domain and port.
pub proof fn law_filtered_distinct(
    hosts: Seq<Endpoint>,
    allow_custom_ports: bool,
    patterns: Seq<Seq<char>>,
)
    ensures
        filtered(hosts, allow_custom_ports, patterns).no_duplicates(),
{
    let buffer = admitted(hosts, allow_custom_ports, patterns);
    lemma_admitted_distinct(hosts, allow_custom_ports, patterns);
    lemma_retained_distinct(buffer, buffer);
}

/// Filtering is idempotent: filtering a filtering result under the same
/// policy gives that result again.
pub proof fn law_filter_idempotent(
    hosts: Seq<Endpoint>,
    allow_custom_ports: bool,
    patterns: Seq<Seq<char>>,
)
    ensures
        filtered(filtered(hosts, allow_custom_ports, patterns), allow_custom_ports, patterns)
            == filtered(hosts, allow_custom_ports, patterns),
{
    let once = filtered(hosts, allow_custom_ports, patterns);
    law_filtered_distinct(hosts, allow_custom_ports, patterns);
    assert forall|i: int| 0 <= i < once.len() implies is_eligible(
        #[trigger] once[i],
        allow_custom_ports,
        patterns,
    ) by {
        law_filtered_members(hosts, allow_custom_ports, patterns, once[i]);
    }
    lemma_admitted_fixed(once, allow_custom_ports, patterns);
    assert forall|i: int| 0 <= i < once.len() implies !is_superseded(#[trigger] once[i], once) by {
        law_filtered_members(hosts, allow_custom_ports, patterns, once[i]);
        law_filtered_members(hosts, allow_custom_ports, patterns, https_sibling(once[i]));
    }
    lemma_retained_fixed(once, once);
}

/// HTTPS precedence: where a domain that no pattern ignores occurs on both
/// well-known ports, the result holds its HTTPS entry and not its HTTP entry.
pub proof fn law_https_precedence(
    hosts: Seq<Endpoint>,
    allow_custom_ports: bool,
    patterns: Seq<Seq<char>>,
    domain: Seq<char>,
)
    requires
        hosts.contains(Endpoint { domain, port: DEFAULT_HTTP_PORT as int }),
        hosts.contains(Endpoint { domain, port: DEFAULT_HTTPS_PORT as int }),
        !is_ignored(domain, patterns),
    ensures
        filtered(hosts, allow_custom_ports, patterns).contains(
            Endpoint { domain, port: DEFAULT_HTTPS_PORT as int },
        ),
        !filtered(hosts, allow_custom_ports, patterns).contains(
            Endpoint { domain, port: DEFAULT_HTTP_PORT as int },
        ),
{
    law_filtered_members(
        hosts,
        allow_custom_ports,
        patterns,
        Endpoint { domain, port: DEFAULT_HTTP_PORT as int },
    );
    law_filtered_members(
        hosts,
        allow_custom_ports,
        patterns,
        Endpoint { domain, port: DEFAULT_HTTPS_PORT as int },
    );
}

/// A domain that occurs on the HTTP port only keeps its HTTP entry.
pub proof fn law_http_alone_retained(
    hosts: Seq<Endpoint>,
    allow_custom_ports: bool,
    patterns: Seq<Seq<char>>,
    domain: Seq<char>,
)
    requires
        hosts.contains(Endpoint { domain, port: DEFAULT_HTTP_PORT as int }),
        !hosts.contains(Endpoint { domain, port: DEFAULT_HTTPS_PORT as int }),
        !is_ignored(domain, patterns),
    ensures
        filtered(hosts, allow_custom_ports, patterns).contains(
            Endpoint { domain, port: DEFAULT_HTTP_PORT as int },
        ),
{
    law_filtered_members(
        hosts,
        allow_custom_ports,
        patterns,
        Endpoint { domain, port: DEFAULT_HTTP_PORT as int },
    );
}

/// Ignore list: an endpoint whose domain some pattern matches is absent from
/// the result, whatever its port and whatever the port policy.
pub proof fn law_ignored_absent(
    hosts: Seq<Endpoint>,
    allow_custom_ports: bool,
    patterns: Seq<Seq<char>>,
    host: Endpoint,
)
    requires
        is_ignored(host.domain, patterns),
    ensures
        !filtered(hosts, allow_custom_ports, patterns).contains(host),
{
    law_filtered_members(hosts, allow_custom_ports, patterns, host);
}

/// Ignore list, by suffix: under the single pattern `*.internal`, no entry
/// whose domain ends in `.internal` is in the result, whatever its port and
/// whatever the port policy.
pub proof fn law_internal_domains_absent(
    hosts: Seq<Endpoint>,
    allow_custom_ports: bool,
    label: Seq<char>,
    port: int,
)
    ensures
        !filtered(hosts, allow_custom_ports, seq!["*.internal"@]).contains(
            Endpoint { domain: label + ".internal"@, port },
        ),
{
    reveal_strlit("*.internal");
    reveal_strlit(".internal");
    let patterns = seq!["*.internal"@];
    let suffix = ".internal"@;
    law_suffix_pattern(suffix, label);
    assert("*.internal"@ =~= seq![MULTI_WILDCARD] + suffix);
    assert(wildcard_matches(patterns[0], label + suffix));
    law_ignored_absent(
        hosts,
        allow_custom_ports,
        patterns,
        Endpoint { domain: label + suffix, port },
    );
}

/// Custom-port gating, closed: without custom ports, every retained entry is
/// on a well-known port.
pub proof fn law_custom_ports_excluded(
    hosts: Seq<Endpoint>,
    patterns: Seq<Seq<char>>,
    host: Endpoint,
)
    requires
        !is_standard_port(host.port),
    ensures
        !filtered(hosts, false, patterns).contains(host),
{
    law_filtered_members(hosts, false, patterns, host);
}

/// Custom-port gating, open: with custom ports, an entry on a port other
/// than the well-known two is retained whenever it occurs among the hosts and
/// no pattern ignores its domain.
pub proof fn law_custom_ports_included(
    hosts: Seq<Endpoint>,
    patterns: Seq<Seq<char>>,
    host: Endpoint,
)
    requires
        hosts.contains(host),
        !is_standard_port(host.port),
        !is_ignored(host.domain, patterns),
    ensures
        filtered(hosts, true, patterns).contains(host),
{
    law_filtered_members(hosts, true, patterns, host);
}

/// No hosts, no result.
pub proof fn law_filtered_empty(allow_custom_ports: bool, patterns: Seq<Seq<char>>)
    ensures
        filtered(Seq::empty(), allow_custom_ports, patterns) == Seq::<Endpoint>::empty(),
{
}

} // verus!
