use site_discovery_flea::domain::{Site, VirtualHost};
use site_discovery_flea::filter::{
    filter_vhosts, vec_contains_same_domain_with_https_port, vhost_add_permitted,
    vhost_has_standard_port, vhost_not_in_ignore_list,
};
use site_discovery_flea::site::get_sites_from_vhosts;

fn vhost(domain: &str, port: i32) -> VirtualHost {
    VirtualHost { domain: domain.to_string(), port }
}

#[test]
fn filter_of_nothing_is_nothing() {
    let none: Vec<VirtualHost> = Vec::new();
    assert_eq!(filter_vhosts(&none, false, &Vec::new()), Vec::<VirtualHost>::new());
    assert_eq!(filter_vhosts(&none, true, &vec!["*"]), Vec::<VirtualHost>::new());
}

#[test]
fn empty_ignore_list_ignores_nothing() {
    let vhosts = vec![vhost("a.com", 443), vhost("b.net", 80)];
    assert_eq!(filter_vhosts(&vhosts, false, &Vec::new()), vhosts);
}

#[test]
fn filter_is_idempotent_on_a_mixed_list() {
    let vhosts = vec![
        vhost("a.com", 80),
        vhost("b.net", 8080),
        vhost("a.com", 443),
        vhost("a.com", 80),
        vhost("x.internal", 443),
        vhost("c.org", 80),
        vhost("b.net", 8080),
        vhost("c.org", 81),
    ];
    let ignore: Vec<&str> = vec!["*.internal"];
    for allow in [false, true] {
        let once = filter_vhosts(&vhosts, allow, &ignore);
        let twice = filter_vhosts(&once, allow, &ignore);
        assert_eq!(twice, once);
    }
}

#[test]
fn filter_output_has_no_duplicates() {
    let vhosts = vec![
        vhost("a.com", 443),
        vhost("a.com", 443),
        vhost("b.net", 80),
        vhost("a.com", 443),
        vhost("b.net", 80),
        vhost("b.net", 8080),
        vhost("b.net", 8080),
    ];
    let out = filter_vhosts(&vhosts, true, &Vec::new());
    assert_eq!(out, vec![vhost("a.com", 443), vhost("b.net", 80), vhost("b.net", 8080)]);
    for (i, first) in out.iter().enumerate() {
        for second in out.iter().skip(i + 1) {
            assert_ne!(first, second);
        }
    }
}

#[test]
fn https_entry_supersedes_http_entry_of_the_same_domain() {
    let ignore: Vec<&str> = Vec::new();
    let http_first = vec![vhost("d.com", 80), vhost("e.com", 80), vhost("d.com", 443)];
    assert_eq!(filter_vhosts(&http_first, false, &ignore), vec![vhost("e.com", 80), vhost("d.com", 443)]);

    let https_first = vec![vhost("d.com", 443), vhost("d.com", 80)];
    assert_eq!(filter_vhosts(&https_first, true, &ignore), vec![vhost("d.com", 443)]);
}

#[test]
fn http_entry_stays_when_its_https_sibling_is_ignored_or_absent() {
    let only_http = vec![vhost("d.com", 80)];
    assert_eq!(filter_vhosts(&only_http, false, &Vec::new()), only_http);

    let other_domain = vec![vhost("d.com", 80), vhost("www.d.com", 443)];
    assert_eq!(filter_vhosts(&other_domain, false, &Vec::new()), other_domain);
}

#[test]
fn https_preference_never_touches_custom_ports() {
    let vhosts = vec![vhost("d.com", 8080), vhost("d.com", 443), vhost("d.com", 8443), vhost("d.com", 80)];
    assert_eq!(
        filter_vhosts(&vhosts, true, &Vec::new()),
        vec![vhost("d.com", 8080), vhost("d.com", 443), vhost("d.com", 8443)]
    );
}

#[test]
fn internal_domains_are_absent_whatever_port_and_policy() {
    let ignore: Vec<&str> = vec!["*.internal"];
    let vhosts = vec![
        vhost("x.internal", 80),
        vhost("x.internal", 443),
        vhost("x.internal", 8080),
        vhost("deep.x.internal", 443),
        vhost(".internal", 443),
        vhost("x.internal.com", 443),
        vhost("internal", 443),
        vhost("x.INTERNAL", 443),
    ];
    let expected = vec![vhost("x.internal.com", 443), vhost("internal", 443), vhost("x.INTERNAL", 443)];
    assert_eq!(filter_vhosts(&vhosts, false, &ignore), expected);
    assert_eq!(filter_vhosts(&vhosts, true, &ignore), expected);
}

#[test]
fn ignored_https_entry_does_not_supersede() {
    let vhosts = vec![vhost("a.b", 80), vhost("a.b", 443)];
    assert_eq!(filter_vhosts(&vhosts, false, &vec!["zzz"]), vec![vhost("a.b", 443)]);
    assert_eq!(filter_vhosts(&vhosts, false, &vec!["a.b"]), Vec::<VirtualHost>::new());
}

#[test]
fn custom_port_is_gated_by_the_flag() {
    let vhosts = vec![vhost("b.net", 8080), vhost("b.net", 443), vhost("c.org", 0), vhost("c.org", -5)];
    let ignore: Vec<&str> = Vec::new();
    assert_eq!(filter_vhosts(&vhosts, false, &ignore), vec![vhost("b.net", 443)]);
    assert_eq!(filter_vhosts(&vhosts, true, &ignore), vhosts);
}

#[test]
fn first_occurrence_order_is_kept() {
    let vhosts = vec![
        vhost("z.com", 443),
        vhost("a.com", 80),
        vhost("m.com", 9000),
        vhost("a.com", 80),
        vhost("z.com", 443),
        vhost("b.com", 443),
    ];
    assert_eq!(
        filter_vhosts(&vhosts, true, &Vec::new()),
        vec![vhost("z.com", 443), vhost("a.com", 80), vhost("m.com", 9000), vhost("b.com", 443)]
    );
}

#[test]
fn any_of_several_patterns_ignores() {
    let ignore: Vec<&str> = vec!["a.*", "?.net", "exact.org"];
    let vhosts = vec![
        vhost("a.com", 443),
        vhost("b.net", 443),
        vhost("bb.net", 443),
        vhost("exact.org", 443),
        vhost("inexact.org", 443),
        vhost("exact.org.uk", 443),
    ];
    assert_eq!(
        filter_vhosts(&vhosts, false, &ignore),
        vec![vhost("bb.net", 443), vhost("inexact.org", 443), vhost("exact.org.uk", 443)]
    );
}

#[test]
fn input_is_left_untouched() {
    let vhosts = vec![vhost("a.com", 80), vhost("a.com", 443)];
    let copy = vhosts.clone();
    let _ = filter_vhosts(&vhosts, false, &Vec::new());
    assert_eq!(vhosts, copy);
}

#[test]
fn combined_pipeline_scenario() {
    let vhosts = vec![vhost("a.com", 80), vhost("a.com", 443), vhost("b.net", 8080), vhost("internal.io", 80)];
    let ignore: Vec<&str> = vec!["internal.*"];

    let kept = filter_vhosts(&vhosts, false, &ignore);
    assert_eq!(kept, vec![vhost("a.com", 443)]);

    let sites = get_sites_from_vhosts(kept, true, false);
    assert_eq!(sites, vec![Site { name: "a.com".to_string(), url: "https://a.com".to_string() }]);
}

#[test]
fn separately_filtered_lists_are_not_deduplicated_against_each_other() {
    let ignore: Vec<&str> = Vec::new();
    let mut merged = filter_vhosts(&vec![vhost("a.com", 80)], false, &ignore);
    merged.extend(filter_vhosts(&vec![vhost("a.com", 443), vhost("a.com", 80)], false, &ignore));
    assert_eq!(merged, vec![vhost("a.com", 80), vhost("a.com", 443)]);
    assert_eq!(filter_vhosts(&merged, false, &ignore), vec![vhost("a.com", 443)]);
}

#[test]
fn standard_ports_are_80_and_443_only() {
    assert!(vhost_has_standard_port(80));
    assert!(vhost_has_standard_port(443));
    assert!(!vhost_has_standard_port(8080));
    assert!(!vhost_has_standard_port(0));
    assert!(!vhost_has_standard_port(-80));
    assert!(!vhost_has_standard_port(8443));
}

#[test]
fn admission_consults_ignore_list_then_port_then_buffer() {
    let buffer = vec![vhost("a.com", 443), vhost("b.net", 8080)];
    let ignore: Vec<&str> = vec!["*.internal"];

    assert!(vhost_add_permitted(&vhost("a.com", 80), &buffer, false, &ignore));
    assert!(!vhost_add_permitted(&vhost("a.com", 443), &buffer, false, &ignore));
    assert!(!vhost_add_permitted(&vhost("a.com", 443), &buffer, true, &ignore));
    assert!(!vhost_add_permitted(&vhost("c.org", 8080), &buffer, false, &ignore));
    assert!(vhost_add_permitted(&vhost("c.org", 8080), &buffer, true, &ignore));
    assert!(!vhost_add_permitted(&vhost("b.net", 8080), &buffer, true, &ignore));
    assert!(!vhost_add_permitted(&vhost("x.internal", 443), &buffer, true, &ignore));
    assert!(!vhost_add_permitted(&vhost("x.internal", 9), &Vec::new(), true, &ignore));
}

#[test]
fn https_sibling_lookup_matches_domain_exactly() {
    let vhosts = vec![vhost("a.com", 443), vhost("b.net", 80), vhost("c.org", 4430)];
    assert!(vec_contains_same_domain_with_https_port(&vhosts, &"a.com".to_string()));
    assert!(!vec_contains_same_domain_with_https_port(&vhosts, &"b.net".to_string()));
    assert!(!vec_contains_same_domain_with_https_port(&vhosts, &"c.org".to_string()));
    assert!(!vec_contains_same_domain_with_https_port(&vhosts, &"a.co".to_string()));
}

#[test]
fn ignore_list_matches_the_whole_domain_only() {
    let domain = "shop.example.com".to_string();
    assert!(vhost_not_in_ignore_list(&domain, &Vec::new()));
    assert!(vhost_not_in_ignore_list(&domain, &vec!["example"]));
    assert!(vhost_not_in_ignore_list(&domain, &vec!["example.com"]));
    assert!(vhost_not_in_ignore_list(&domain, &vec!["shop.*.org", "??.example.com"]));
    assert!(vhost_not_in_ignore_list(&domain, &vec!["SHOP.example.com"]));
    assert!(vhost_not_in_ignore_list(&domain, &vec![""]));
    assert!(!vhost_not_in_ignore_list(&domain, &vec!["shop.example.com"]));
    assert!(!vhost_not_in_ignore_list(&domain, &vec!["*"]));
    assert!(!vhost_not_in_ignore_list(&domain, &vec!["*.example.com"]));
    assert!(!vhost_not_in_ignore_list(&domain, &vec!["shop.*"]));
    assert!(!vhost_not_in_ignore_list(&domain, &vec!["s??p.ex*le.c?m"]));
    assert!(!vhost_not_in_ignore_list(&domain, &vec!["nothing", "*example*"]));
    assert!(!vhost_not_in_ignore_list(&"".to_string(), &vec!["**"]));
    assert!(vhost_not_in_ignore_list(&"".to_string(), &vec!["?"]));
    assert!(!vhost_not_in_ignore_list(&"a*b".to_string(), &vec!["a?b"]));
    assert!(vhost_not_in_ignore_list(&"ab".to_string(), &vec!["a?b"]));
}

#[test]
fn wildcards_count_characters_not_bytes() {
    assert!(!vhost_not_in_ignore_list(&"é.fr".to_string(), &vec!["?.fr"]));
    assert!(vhost_not_in_ignore_list(&"é.fr".to_string(), &vec!["??.fr"]));
}
