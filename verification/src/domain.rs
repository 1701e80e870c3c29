//! The records that flow through the pipeline and their mathematical models.

use vstd::prelude::*;

verus! {

/// One declared server block: a hostname and the port it listens on.
#[derive(Debug, PartialEq, Eq)]
pub struct VirtualHost {
    pub domain: String,
    pub port: i32,
}

/// The reportable identity of a retained virtual host.
#[derive(Debug, PartialEq, Eq)]
pub struct Site {
    pub name: String,
    pub url: String,
}

/// Model of a [`VirtualHost`]: the characters of its domain and its port.
///
/// Two virtual hosts are the same endpoint exactly when their models are equal.
pub struct Endpoint {
    pub domain: Seq<char>,
    pub port: int,
}

/// Model of a [`Site`]: the characters of its name and of its URL.
pub struct SiteText {
    pub name: Seq<char>,
    pub url: Seq<char>,
}

impl View for VirtualHost {
    type V = Endpoint;

    open spec fn view(&self) -> Endpoint {
        Endpoint { domain: self.domain@, port: self.port as int }
    }
}

impl View for Site {
    type V = SiteText;

    open spec fn view(&self) -> SiteText {
        SiteText { name: self.name@, url: self.url@ }
    }
}

/// The models of a sequence of virtual hosts, in order.
pub open spec fn endpoints(hosts: Seq<VirtualHost>) -> Seq<Endpoint> {
    hosts.map_values(|host: VirtualHost| host@)
}

/// The models of a sequence of sites, in order.
pub open spec fn site_texts(sites: Seq<Site>) -> Seq<SiteText> {
    sites.map_values(|site: Site| site@)
}

/// The character sequences of a list of string slices, in order.
pub open spec fn texts(items: Seq<&str>) -> Seq<Seq<char>> {
    items.map_values(|item: &str| item@)
}

impl Clone for VirtualHost {
    fn clone(&self) -> (copy: VirtualHost)
        ensures
            copy == *self,
    {
        VirtualHost { domain: self.domain.clone(), port: self.port }
    }
}

impl Clone for Site {
    fn clone(&self) -> (copy: Site)
        ensures
            copy == *self,
    {
        Site { name: self.name.clone(), url: self.url.clone() }
    }
}

} // verus!
