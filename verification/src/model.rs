//! Shared data model. The same values back the CLI tables, the `--json`
//! output and the HTTP API. Each type has a view whose text fields are
//! character sequences; the contracts of the parsers speak of those views.

use vstd::prelude::*;

use crate::text::{lemma_views_push, to_string, views};

verus! {

/// The view of an optional string.
pub open spec fn opt_str(o: Option<String>) -> Option<Seq<char>> {
    match o {
        Some(s) => Some(s@),
        None => None,
    }
}

/// Wrapper used for every section in the summary. The contract is:
///
/// * `data == Some && error == None`: the collector ran cleanly
/// * `data == None && error == Some`: the collector failed or timed out
/// * `data == None && error == Some("requires root")`: privileged section
///
/// Both fields can be `None` for sections that simply weren't requested.
#[derive(Debug, Clone)]
pub struct Section<T> {
    pub data: Option<T>,
    pub error: Option<String>,
}

/// The message of a section that needs root.
pub open spec fn requires_root_msg() -> Seq<char> {
    "requires root"@
}

impl<T> Section<T> {
    pub fn ok(data: T) -> (s: Self)
        ensures
            s.data == Some(data),
            s.error.is_none(),
    {
        Section { data: Some(data), error: None }
    }

    pub fn err(msg: String) -> (s: Self)
        ensures
            s.data.is_none(),
            s.error == Some(msg),
    {
        Section { data: None, error: Some(msg) }
    }

    pub fn requires_root() -> (s: Self)
        ensures
            s.data.is_none(),
            opt_str(s.error) == Some(requires_root_msg()),
    {
        Self::err(String::from_str("requires root"))
    }
}

#[derive(Debug, Clone, Copy, PartialEq, Eq, Structural)]
pub enum IpFamily {
    V4,
    V6,
}

#[derive(Debug, Clone)]
pub struct Route {
    pub family: IpFamily,
    pub destination: String,
    pub gateway: String,
    pub flags: String,
    pub interface: String,
    pub expire: Option<String>,
    /// Tunnel attribution label if the egress interface is a known VPN.
    pub label: Option<String>,
}

pub struct RouteV {
    pub family: IpFamily,
    pub destination: Seq<char>,
    pub gateway: Seq<char>,
    pub flags: Seq<char>,
    pub interface: Seq<char>,
    pub expire: Option<Seq<char>>,
    pub label: Option<Seq<char>>,
}

impl View for Route {
    type V = RouteV;

    open spec fn view(&self) -> RouteV {
        RouteV {
            family: self.family,
            destination: self.destination@,
            gateway: self.gateway@,
            flags: self.flags@,
            interface: self.interface@,
            expire: opt_str(self.expire),
            label: opt_str(self.label),
        }
    }
}

#[derive(Debug, Clone)]
pub struct Interface {
    pub name: String,
    pub flags: String,
    pub mtu: Option<u32>,
    pub status: Option<String>,
    pub ether: Option<String>,
    pub inet: Vec<String>,
    pub inet6: Vec<String>,
    /// For utun: peer/destination if `PtP`.
    pub peer: Option<String>,
}

pub struct InterfaceV {
    pub name: Seq<char>,
    pub flags: Seq<char>,
    pub mtu: Option<u32>,
    pub status: Option<Seq<char>>,
    pub ether: Option<Seq<char>>,
    pub inet: Seq<Seq<char>>,
    pub inet6: Seq<Seq<char>>,
    pub peer: Option<Seq<char>>,
}

impl View for Interface {
    type V = InterfaceV;

    open spec fn view(&self) -> InterfaceV {
        InterfaceV {
            name: self.name@,
            flags: self.flags@,
            mtu: self.mtu,
            status: opt_str(self.status),
            ether: opt_str(self.ether),
            inet: views(self.inet@),
            inet6: views(self.inet6@),
            peer: opt_str(self.peer),
        }
    }
}

#[derive(Debug, Clone)]
pub struct Tunnel {
    pub interface: String,
    /// Short label, e.g. "Tailscale", "Zscaler", "Axis", "Unknown".
    pub label: String,
    /// Longer human-readable description (signal that matched).
    pub description: String,
    pub local_ip: Option<String>,
    pub peer_or_gateway: Option<String>,
    pub mtu: Option<u32>,
    pub status: Option<String>,
}

pub struct TunnelV {
    pub interface: Seq<char>,
    pub label: Seq<char>,
    pub description: Seq<char>,
    pub local_ip: Option<Seq<char>>,
    pub peer_or_gateway: Option<Seq<char>>,
    pub mtu: Option<u32>,
    pub status: Option<Seq<char>>,
}

impl View for Tunnel {
    type V = TunnelV;

    open spec fn view(&self) -> TunnelV {
        TunnelV {
            interface: self.interface@,
            label: self.label@,
            description: self.description@,
            local_ip: opt_str(self.local_ip),
            peer_or_gateway: opt_str(self.peer_or_gateway),
            mtu: self.mtu,
            status: opt_str(self.status),
        }
    }
}

#[derive(Debug, Clone, Copy, PartialEq, Eq, Structural)]
pub enum ResolverScope {
    /// Default DNS configuration block.
    Default,
    /// `DNS configuration (for scoped queries)`: interface-scoped.
    Scoped,
}

#[derive(Debug, Clone)]
pub struct Resolver {
    pub number: u32,
    pub scope: ResolverScope,
    pub nameservers: Vec<String>,
    pub search: Vec<String>,
    /// Single `domain :` line (supplemental match domain).
    pub domain: Option<String>,
    pub if_index: Option<u32>,
    pub interface: Option<String>,
    pub flags: Option<String>,
    pub order: Option<u64>,
    pub options: Option<String>,
}

pub struct ResolverV {
    pub number: u32,
    pub scope: ResolverScope,
    pub nameservers: Seq<Seq<char>>,
    pub search: Seq<Seq<char>>,
    pub domain: Option<Seq<char>>,
    pub if_index: Option<u32>,
    pub interface: Option<Seq<char>>,
    pub flags: Option<Seq<char>>,
    pub order: Option<u64>,
    pub options: Option<Seq<char>>,
}

impl View for Resolver {
    type V = ResolverV;

    open spec fn view(&self) -> ResolverV {
        ResolverV {
            number: self.number,
            scope: self.scope,
            nameservers: views(self.nameservers@),
            search: views(self.search@),
            domain: opt_str(self.domain),
            if_index: self.if_index,
            interface: opt_str(self.interface),
            flags: opt_str(self.flags),
            order: self.order,
            options: opt_str(self.options),
        }
    }
}

#[derive(Debug, Clone)]
pub struct NetworkInfo {
    /// Ordered list of service interfaces from `Network interfaces:` line.
    pub order: Vec<String>,
    /// One entry per interface that appears in the v4 or v6 block.
    pub services: Vec<ServiceEntry>,
}

pub struct NetworkInfoV {
    pub order: Seq<Seq<char>>,
    pub services: Seq<ServiceEntryV>,
}

impl View for NetworkInfo {
    type V = NetworkInfoV;

    open spec fn view(&self) -> NetworkInfoV {
        NetworkInfoV { order: views(self.order@), services: views(self.services@) }
    }
}

#[derive(Debug, Clone)]
pub struct ServiceEntry {
    pub interface: String,
    pub family: IpFamily,
    pub flags: Option<String>,
    pub address: Option<String>,
    pub reach: Option<String>,
}

pub struct ServiceEntryV {
    pub interface: Seq<char>,
    pub family: IpFamily,
    pub flags: Option<Seq<char>>,
    pub address: Option<Seq<char>>,
    pub reach: Option<Seq<char>>,
}

impl View for ServiceEntry {
    type V = ServiceEntryV;

    open spec fn view(&self) -> ServiceEntryV {
        ServiceEntryV {
            interface: self.interface@,
            family: self.family,
            flags: opt_str(self.flags),
            address: opt_str(self.address),
            reach: opt_str(self.reach),
        }
    }
}

#[derive(Debug, Clone)]
pub struct LookupResult {
    pub target: String,
    pub resolved: Vec<String>,
    /// Resolver number (`scutil --dns` numbering) that the matched supplemental
    /// or scoped block belonged to, if we could correlate.
    pub resolver_number: Option<u32>,
    pub resolver_match: Option<String>,
    pub resolver_nameservers: Vec<String>,
    pub interface: Option<String>,
    pub gateway: Option<String>,
    pub destination: Option<String>,
    pub flags: Option<String>,
    pub label: Option<String>,
    /// Verbose verdict text including the application-layer caveat.
    pub verdict: String,
}

pub struct LookupResultV {
    pub target: Seq<char>,
    pub resolved: Seq<Seq<char>>,
    pub resolver_number: Option<u32>,
    pub resolver_match: Option<Seq<char>>,
    pub resolver_nameservers: Seq<Seq<char>>,
    pub interface: Option<Seq<char>>,
    pub gateway: Option<Seq<char>>,
    pub destination: Option<Seq<char>>,
    pub flags: Option<Seq<char>>,
    pub label: Option<Seq<char>>,
    pub verdict: Seq<char>,
}

impl View for LookupResult {
    type V = LookupResultV;

    open spec fn view(&self) -> LookupResultV {
        LookupResultV {
            target: self.target@,
            resolved: views(self.resolved@),
            resolver_number: self.resolver_number,
            resolver_match: opt_str(self.resolver_match),
            resolver_nameservers: views(self.resolver_nameservers@),
            interface: opt_str(self.interface),
            gateway: opt_str(self.gateway),
            destination: opt_str(self.destination),
            flags: opt_str(self.flags),
            label: opt_str(self.label),
            verdict: self.verdict@,
        }
    }
}

#[derive(Debug, Clone)]
pub struct Socket {
    pub command: String,
    pub pid: u32,
    pub user: String,
    pub fd: String,
    /// IPv4 / IPv6
    pub kind: String,
    pub protocol: String,
    pub local: String,
    pub remote: String,
    pub state: Option<String>,
}

pub struct SocketV {
    pub command: Seq<char>,
    pub pid: u32,
    pub user: Seq<char>,
    pub fd: Seq<char>,
    pub kind: Seq<char>,
    pub protocol: Seq<char>,
    pub local: Seq<char>,
    pub remote: Seq<char>,
    pub state: Option<Seq<char>>,
}

impl View for Socket {
    type V = SocketV;

    open spec fn view(&self) -> SocketV {
        SocketV {
            command: self.command@,
            pid: self.pid,
            user: self.user@,
            fd: self.fd@,
            kind: self.kind@,
            protocol: self.protocol@,
            local: self.local@,
            remote: self.remote@,
            state: opt_str(self.state),
        }
    }
}

#[derive(Debug, Clone)]
pub struct ThroughputRow {
    pub process: String,
    pub interface: String,
    pub bytes_in: u64,
    pub bytes_out: u64,
}

pub struct ThroughputRowV {
    pub process: Seq<char>,
    pub interface: Seq<char>,
    pub bytes_in: u64,
    pub bytes_out: u64,
}

impl View for ThroughputRow {
    type V = ThroughputRowV;

    open spec fn view(&self) -> ThroughputRowV {
        ThroughputRowV {
            process: self.process@,
            interface: self.interface@,
            bytes_in: self.bytes_in,
            bytes_out: self.bytes_out,
        }
    }
}

#[derive(Debug, Clone)]
pub struct PfRules {
    pub rules: Vec<String>,
    pub anchors: Vec<String>,
}

pub struct PfRulesV {
    pub rules: Seq<Seq<char>>,
    pub anchors: Seq<Seq<char>>,
}

impl View for PfRules {
    type V = PfRulesV;

    open spec fn view(&self) -> PfRulesV {
        PfRulesV { rules: views(self.rules@), anchors: views(self.anchors@) }
    }
}

#[derive(Debug, Clone)]
pub struct Summary {
    pub collected_at: String,
    pub platform: &'static str,
    pub privileged: bool,
    pub routes: Section<Vec<Route>>,
    pub tunnels: Section<Vec<Tunnel>>,
    pub dns: Section<Vec<Resolver>>,
    pub services: Section<NetworkInfo>,
    pub pf: Section<PfRules>,
}

/// `Vec<Vec<char>>` to `Vec<String>`.
pub(crate) fn strings_of(v: &Vec<Vec<char>>) -> (r: Vec<String>)
    ensures
        views(r@) == views(v@),
{
    let mut r: Vec<String> = Vec::new();
    let mut i: usize = 0;
    while i < v.len()
        invariant
            i <= v@.len(),
            views(r@) == views(v@.take(i as int)),
        decreases v@.len() - i,
    {
        let s = to_string(&v[i]);
        proof {
            lemma_views_push(r@, s);
            assert(views(v@.take(i + 1)) =~= views(v@.take(i as int)).push(v@[i as int]@));
        }
        r.push(s);
        i = i + 1;
    }
    assert(v@.take(i as int) =~= v@);
    r
}

}
