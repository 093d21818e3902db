//! Tests of the parsers and the summary assembly, on captured command
//! output written inline.

use whichway::attribute::TunnelProbes;
use whichway::collect::lookup::{
    answer_lines, build_verdict, correlate_by_keys, correlate_resolver, label_for_interface, lookup, parse_route_get,
    route_target,
};
use whichway::collect::{
    collect_pf, collect_summary, dns, format_rfc3339, interfaces, now_rfc3339, pf, routes,
    services, sockets, throughput, CommandOutputs,
};
use whichway::model::{IpFamily, LookupResult, PfRules, ResolverScope, Section, Tunnel};

const NETSTAT: &str = "Routing tables

Internet:
Destination        Gateway            Flags               Netif Expire
default            192.168.6.1        UGScg                 en7
10/8               link#25            UCS                 utun6
127                127.0.0.1          UCS                   lo0
192.168.6.1/32     link#13            UCS                   en7      !
192.168.6.1        a0:36:bc:1a:2b:3c  UHLWIir               en7   1199

Internet6:
Destination                             Gateway                                 Flags               Netif Expire
default                                 fe80::%utun0                            UGcIg               utun0
::1                                     ::1                                     UHL                   lo0
";

const IFCONFIG: &str = "lo0: flags=8049<UP,LOOPBACK,RUNNING,MULTICAST> mtu 16384
\toptions=1203<RXCSUM,TXCSUM,TXSTATUS,SW_TIMESTAMP>
\tinet 127.0.0.1 netmask 0xff000000
\tinet6 ::1 prefixlen 128
en7: flags=8863<UP,BROADCAST,SMART,RUNNING,SIMPLEX,MULTICAST> mtu 1500
\tether a0:ce:c8:12:34:56
\tinet6 fe80::1c2b:3a4d:5e6f:7a8b%en7 prefixlen 64 secured scopeid 0xd
\tinet 192.168.6.204 netmask 0xffffff00 broadcast 192.168.6.255
\tstatus: active
utun6: flags=8051<UP,POINTOPOINT,RUNNING,MULTICAST> mtu 1300
\tinet 100.65.0.1 --> 100.65.0.1 netmask 0xffffffff
utun2: flags=8051<UP,POINTOPOINT,RUNNING,MULTICAST> mtu 1400
\tinet6 fe80::aa%utun2 prefixlen 64 scopeid 0x12
utun1: flags=8051<UP,POINTOPOINT,RUNNING,MULTICAST> mtu 1280
\tinet 100.96.0.1 --> 100.96.0.1 netmask 0xffffffff
";

const SCUTIL_DNS: &str = "DNS configuration

resolver #1
  nameserver[0] : 100.65.0.2
  if_index : 25 (utun6)
  flags    : Request A records
  reach    : 0x00000003 (Reachable,Transient Connection)
  order    : 300000

resolver #2
  nameserver[0] : 9.9.9.9
  nameserver[1] : 149.112.112.112
  if_index : 13 (en7)
  order    : 200000

resolver #3
  domain   : local
  options  : mdns
  timeout  : 5
  flags    : Request A records
  order    : 300000

resolver #4
  domain   : corp.example.
  nameserver[0] : 10.0.0.53
  order    : 400000

resolver #5
  domain   : eu.corp.example
  nameserver[0] : 10.1.0.53

DNS configuration (for scoped queries)

resolver #1
  search domain[0] : corp.example
  search domain[1] : example.net
  nameserver[0] : 192.168.6.1
  if_index : 13 (en7)
  flags    : Scoped, Request A records
";

const SCUTIL_NWI: &str = "Network information

IPv4 network interface information
     en7 : flags      : 0x5 (IPv4,DNS)
           address    : 192.168.6.204
           reach      : 0x00000002 (Reachable)
   utun6 : flags      : 0x5 (IPv4,DNS)
           address    : 100.65.0.1
           VPN server : 203.0.113.5
           reach      : 0x00000003 (Reachable,Transient Connection)

   REACH : flags 0x00000002 (Reachable)

IPv6 network interface information
     en7 : flags      : 0x6 (IPv6,DNS)
           address    : fe80::1
           reach      : 0x00000002 (Reachable)

   REACH : flags 0x00000002 (Reachable)

Network interfaces: en7 utun6
";

const ROUTE_GET: &str = "   route to: 1.1.1.1
destination: default
       mask: default
    gateway: 192.168.6.1
  interface: en7
      flags: <UP,GATEWAY,DONE,STATIC,PRCLONING,GLOBAL>
 recvpipe  sendpipe  ssthresh  rtt,msec    rttvar  hopcount      mtu     expire
       0         0         0         0         0         0      1500         0
";

const LSOF: &str = "COMMAND     PID   USER   FD   TYPE             DEVICE SIZE/OFF NODE NAME
firefox    1234  alice   45u  IPv4 0x1234567890abcdef      0t0  TCP 192.168.6.204:50123->93.184.216.34:443 (ESTABLISHED)
cupsd       567   root    5u  IPv6 0xfedcba0987654321      0t0  TCP *:631 (LISTEN)
mDNSRespo   400  _mdns    7u  IPv4 0x1111111111111111      0t0  UDP *:5353
";

const NETTOP: &str = "                   interface        bytes_in       bytes_out
launchd.1                                  0               0
mDNSResponder.461                    1498396          248922
firefox.1234          en7             300000           12000
Google Chrome H.999   utun6              500             600
                   interface        bytes_in       bytes_out
firefox.1234          en7             300100           12100
";

const PFCTL_SR: &str = "No ALTQ support in kernel
ALTQ related functions disabled
scrub-anchor \"com.apple/*\" all fragment reassemble
pass quick on lo0 all flags any
anchor \"com.apple/*\" all
";

const PFCTL_SA: &str = "FILTER RULES:
pass quick on lo0 all flags any

ANCHORS:
  com.apple
  com.apple/250.ApplicationFirewall
  com.obdev.littlesnitch

INFO:
Status: Enabled for 0 days 01:02:03
";

#[test]
fn rfc3339_format_shape() {
    let s = now_rfc3339();
    assert_eq!(s.len(), 20, "{s}");
    assert!(s.ends_with('Z'));
}

#[test]
fn rfc3339_exact_values() {
    assert_eq!(format_rfc3339(0), "1970-01-01T00:00:00Z");
    assert_eq!(format_rfc3339(86399), "1970-01-01T23:59:59Z");
    assert_eq!(format_rfc3339(951782400), "2000-02-29T00:00:00Z");
    assert_eq!(format_rfc3339(1709251200), "2024-03-01T00:00:00Z");
    assert_eq!(format_rfc3339(1715690096), "2024-05-14T12:34:56Z");
    assert_eq!(format_rfc3339(253402300799), "9999-12-31T23:59:59Z");
}

#[test]
fn routes_parse_v4_table() {
    let rs = routes::parse(NETSTAT, IpFamily::V4);
    assert_eq!(rs.len(), 5);
    assert_eq!(rs[0].destination, "default");
    assert_eq!(rs[0].gateway, "192.168.6.1");
    assert_eq!(rs[0].flags, "UGScg");
    assert_eq!(rs[0].interface, "en7");
    assert_eq!(rs[0].expire, None);
    assert_eq!(rs[1].interface, "utun6");
    assert_eq!(rs[3].expire.as_deref(), Some("!"));
    assert_eq!(rs[4].expire.as_deref(), Some("1199"));
    for r in &rs {
        assert_eq!(r.family, IpFamily::V4);
        assert!(r.label.is_none());
        assert!(!r.destination.is_empty() && !r.gateway.is_empty());
    }
}

#[test]
fn routes_parse_v6_table() {
    let rs = routes::parse(NETSTAT, IpFamily::V6);
    assert_eq!(rs.len(), 2);
    assert!(rs.iter().all(|r| r.family == IpFamily::V6));
    assert_eq!(rs[0].interface, "utun0");
    assert_eq!(rs[1].destination, "::1");
}

#[test]
fn routes_parse_without_table() {
    assert!(routes::parse("", IpFamily::V4).is_empty());
    assert!(routes::parse("Internet:\ndefault 1.2.3.4 UG en0\n", IpFamily::V4).is_empty());
    // A short row is skipped; a section title ends the table.
    let text = "Internet:\nDestination Gateway Flags Netif\nshort row\na b c d\nInternet6:\ne f g h\n";
    let rs = routes::parse(text, IpFamily::V4);
    assert_eq!(rs.len(), 1);
    assert_eq!(rs[0].destination, "a");
}

#[test]
fn interfaces_parse_blocks() {
    let ifs = interfaces::parse(IFCONFIG);
    assert_eq!(ifs.len(), 5);
    let lo = &ifs[0];
    assert_eq!(lo.name, "lo0");
    assert_eq!(lo.mtu, Some(16384));
    assert_eq!(lo.flags, "8049<UP,LOOPBACK,RUNNING,MULTICAST>");
    let en7 = &ifs[1];
    assert_eq!(en7.name, "en7");
    assert_eq!(en7.mtu, Some(1500));
    assert_eq!(en7.status.as_deref(), Some("active"));
    assert_eq!(en7.ether.as_deref(), Some("a0:ce:c8:12:34:56"));
    assert_eq!(en7.inet, vec!["192.168.6.204".to_string()]);
    assert_eq!(en7.inet6, vec!["fe80::1c2b:3a4d:5e6f:7a8b%en7".to_string()]);
    assert_eq!(en7.peer, None);
    let utun6 = &ifs[2];
    assert_eq!(utun6.mtu, Some(1300));
    assert_eq!(utun6.inet.first().map(String::as_str), Some("100.65.0.1"));
    assert_eq!(utun6.peer.as_deref(), Some("100.65.0.1"));
    assert_eq!(ifs[3].mtu, Some(1400));
    assert!(ifs[3].inet.is_empty());
}

#[test]
fn interfaces_parse_edge_cases() {
    // Indented lines before any header are ignored; a bad MTU is dropped;
    // `+` is accepted as integer FromStr accepts it.
    let ifs = interfaces::parse("\tinet 1.2.3.4\nx0: flags=1<UP> mtu abc\ny0: mtu +42\nnocolon\n\tinet 5.6.7.8\n");
    assert_eq!(ifs.len(), 2);
    assert_eq!(ifs[0].name, "x0");
    assert_eq!(ifs[0].mtu, None);
    assert!(ifs[0].inet.is_empty());
    assert_eq!(ifs[1].mtu, Some(42));
    assert_eq!(ifs[1].flags, "");
    assert!(ifs[1].inet.is_empty());
}

#[test]
fn dns_parse_resolvers() {
    let rs = dns::parse(SCUTIL_DNS);
    let default: Vec<_> = rs.iter().filter(|r| r.scope == ResolverScope::Default).collect();
    let scoped: Vec<_> = rs.iter().filter(|r| r.scope == ResolverScope::Scoped).collect();
    assert_eq!(default.len(), 5);
    assert_eq!(scoped.len(), 1);
    let r1 = default[0];
    assert_eq!(r1.number, 1);
    assert_eq!(r1.nameservers, vec!["100.65.0.2"]);
    assert_eq!(r1.if_index, Some(25));
    assert_eq!(r1.interface.as_deref(), Some("utun6"));
    assert_eq!(r1.flags.as_deref(), Some("Request A records"));
    assert_eq!(r1.order, Some(300000));
    let r3 = default[2];
    assert_eq!(r3.domain.as_deref(), Some("local"));
    assert_eq!(r3.options.as_deref(), Some("mdns"));
    assert_eq!(default[1].nameservers.len(), 2);
    let s1 = scoped[0];
    assert_eq!(s1.search, vec!["corp.example", "example.net"]);
    assert_eq!(s1.interface.as_deref(), Some("en7"));
    assert_eq!(s1.flags.as_deref(), Some("Scoped, Request A records"));
}

#[test]
fn dns_parse_bad_number_is_zero() {
    let rs = dns::parse("resolver #x\n  nameserver[0] : 1.1.1.1\n");
    assert_eq!(rs.len(), 1);
    assert_eq!(rs[0].number, 0);
    assert_eq!(rs[0].scope, ResolverScope::Default);
}

#[test]
fn services_parse_nwi() {
    let info = services::parse(SCUTIL_NWI);
    assert_eq!(info.order, vec!["en7", "utun6"]);
    assert_eq!(info.services.len(), 3);
    let e = &info.services[0];
    assert_eq!(e.interface, "en7");
    assert_eq!(e.family, IpFamily::V4);
    assert_eq!(e.flags.as_deref(), Some("0x5 (IPv4,DNS)"));
    assert_eq!(e.address.as_deref(), Some("192.168.6.204"));
    assert_eq!(e.reach.as_deref(), Some("0x00000002 (Reachable)"));
    assert_eq!(info.services[1].interface, "utun6");
    assert_eq!(info.services[1].address.as_deref(), Some("100.65.0.1"));
    let v6 = &info.services[2];
    assert_eq!(v6.family, IpFamily::V6);
    assert_eq!(v6.address.as_deref(), Some("fe80::1"));
}

#[test]
fn route_get_parse() {
    let rg = parse_route_get(ROUTE_GET);
    assert_eq!(rg.interface.as_deref(), Some("en7"));
    assert_eq!(rg.gateway.as_deref(), Some("192.168.6.1"));
    assert_eq!(rg.destination.as_deref(), Some("default"));
    assert_eq!(rg.flags.as_deref(), Some("<UP,GATEWAY,DONE,STATIC,PRCLONING,GLOBAL>"));
    let empty = parse_route_get("nothing here\n");
    assert!(empty.interface.is_none() && empty.gateway.is_none());
}

#[test]
fn sockets_parse_lsof() {
    let socks = sockets::parse(LSOF);
    assert_eq!(socks.len(), 3);
    let ff = &socks[0];
    assert_eq!(ff.command, "firefox");
    assert_eq!(ff.pid, 1234);
    assert_eq!(ff.user, "alice");
    assert_eq!(ff.fd, "45u");
    assert_eq!(ff.kind, "IPv4");
    assert_eq!(ff.protocol, "TCP");
    assert_eq!(ff.local, "192.168.6.204:50123");
    assert_eq!(ff.remote, "93.184.216.34:443");
    assert_eq!(ff.state.as_deref(), Some("ESTABLISHED"));
    let lis = &socks[1];
    assert_eq!(lis.state.as_deref(), Some("LISTEN"));
    assert!(lis.local.contains(":631"));
    assert_eq!(lis.remote, "");
    let udp = &socks[2];
    assert_eq!(udp.local, "*:5353");
    assert_eq!(udp.state, None);
}

#[test]
fn throughput_parse_nettop() {
    let rows = throughput::parse(NETTOP);
    assert_eq!(rows.len(), 5);
    assert_eq!(rows[0].process, "launchd.1");
    assert_eq!(rows[0].interface, "");
    assert_eq!(rows[1].bytes_in, 1498396);
    assert_eq!(rows[1].bytes_out, 248922);
    assert_eq!(rows[2].process, "firefox.1234");
    assert_eq!(rows[2].interface, "en7");
    assert_eq!(rows[3].process, "Google Chrome H.999");
    assert_eq!(rows[3].interface, "utun6");
    assert_eq!(rows[4].bytes_in, 300100);
}

#[test]
fn pf_parse_rules_and_anchors() {
    let rules = pf::parse(PFCTL_SR, PFCTL_SA);
    assert_eq!(rules.rules.len(), 4);
    assert!(rules.rules.iter().all(|r| !r.starts_with("No ALTQ")));
    assert!(rules.rules.iter().any(|r| r.contains("pass quick on lo0")));
    assert_eq!(
        rules.anchors,
        vec!["com.apple", "com.apple/250.ApplicationFirewall", "com.obdev.littlesnitch"]
    );
    let lower = pf::parse("", "anchors:\n  x\n");
    assert_eq!(lower.anchors, vec!["x"]);
}

#[test]
fn correlate_fallback_for_unmatched_host() {
    let rs = dns::parse(SCUTIL_DNS);
    let r = correlate_resolver("example.com", false, &rs).expect("fallback");
    assert_eq!(r.number, 2);
    assert!(r.nameservers.iter().any(|n| n == "9.9.9.9"));
}

#[test]
fn correlate_ip_target_uses_default() {
    let rs = dns::parse(SCUTIL_DNS);
    let r = correlate_resolver("10.1.2.3", true, &rs).expect("fallback");
    assert_eq!(r.scope, ResolverScope::Default);
    assert_eq!(r.number, 2);
}

#[test]
fn correlate_longest_supplemental_domain() {
    let rs = dns::parse(SCUTIL_DNS);
    let r = correlate_resolver("API.EU.Corp.Example.", false, &rs).expect("match");
    assert_eq!(r.number, 5);
    let r = correlate_resolver("wiki.corp.example", false, &rs).expect("match");
    assert_eq!(r.number, 4);
    let r = correlate_resolver("corp.example", false, &rs).expect("match");
    assert_eq!(r.number, 4);
    // Not a suffix on a label boundary.
    let r = correlate_resolver("notcorp.example", false, &rs).expect("fallback");
    assert_eq!(r.number, 2);
}

#[test]
fn correlate_by_lowercased_keys() {
    let rs = dns::parse(SCUTIL_DNS);
    let keys: Vec<Option<String>> = rs
        .iter()
        .map(|r| r.domain.as_ref().map(|d| d.trim_end_matches('.').to_lowercase()))
        .collect();
    let r = correlate_by_keys("api.eu.corp.example", &keys, false, &rs).expect("match");
    assert_eq!(r.number, 5);
    let r = correlate_by_keys("wiki.corp.example", &keys, false, &rs).expect("match");
    assert_eq!(r.number, 4);
    // The host is compared as given: upper case does not match a key.
    let r = correlate_by_keys("WIKI.CORP.EXAMPLE", &keys, false, &rs).expect("fallback");
    assert_eq!(r.number, 2);
    let r = correlate_by_keys("wiki.corp.example", &keys, true, &rs).expect("fallback");
    assert_eq!(r.number, 2);
}

#[test]
fn correlate_none_without_candidates() {
    assert!(correlate_resolver("x.y", false, &[]).is_none());
}

fn sample_tunnels() -> Vec<Tunnel> {
    vec![
        Tunnel {
            interface: "utun6".to_string(),
            label: "Zscaler".to_string(),
            description: "d".to_string(),
            local_ip: None,
            peer_or_gateway: None,
            mtu: None,
            status: None,
        },
        Tunnel {
            interface: "utun6".to_string(),
            label: "Second".to_string(),
            description: "d".to_string(),
            local_ip: None,
            peer_or_gateway: None,
            mtu: None,
            status: None,
        },
    ]
}

#[test]
fn label_for_interface_first_match() {
    let ts = sample_tunnels();
    assert_eq!(label_for_interface("utun6", &ts).as_deref(), Some("Zscaler"));
    assert_eq!(label_for_interface("en7", &ts), None);
}

fn empty_lookup(target: &str) -> LookupResult {
    LookupResult {
        target: target.to_string(),
        resolved: Vec::new(),
        resolver_number: None,
        resolver_match: None,
        resolver_nameservers: Vec::new(),
        interface: None,
        gateway: None,
        destination: None,
        flags: None,
        label: None,
        verdict: String::new(),
    }
}

#[test]
fn verdict_text_exact() {
    let mut l = empty_lookup("private.corp.example");
    l.interface = Some("utun4".to_string());
    l.label = Some("Zscaler".to_string());
    assert_eq!(
        build_verdict(&l),
        "Per the IP routing table, traffic to private.corp.example exits via utun4 (Zscaler).\n\
         Application-layer tools may override this. Run `whichway sockets` as\n\
         root to see live per-process connections."
    );
    let l = empty_lookup("1.1.1.1");
    assert!(build_verdict(&l).starts_with("Per the IP routing table, traffic to 1.1.1.1 exits via (unknown).\n"));
}

#[test]
fn lookup_assembles_result() {
    let rs = dns::parse(SCUTIL_DNS);
    let ts = sample_tunnels();
    let resolved = vec!["10.20.30.40".to_string()];
    let route = "destination: 10.20.30.0\ngateway: link#42\ninterface: utun6\nflags: <UP>\n";
    let l = lookup("private.corp.example", false, resolved, Some(route), &rs, &ts);
    assert_eq!(l.target, "private.corp.example");
    assert_eq!(l.resolved, vec!["10.20.30.40"]);
    assert_eq!(l.resolver_number, Some(4));
    assert_eq!(l.resolver_match.as_deref(), Some("corp.example."));
    assert_eq!(l.resolver_nameservers, vec!["10.0.0.53"]);
    assert_eq!(l.interface.as_deref(), Some("utun6"));
    assert_eq!(l.gateway.as_deref(), Some("link#42"));
    assert_eq!(l.label.as_deref(), Some("Zscaler"));
    assert!(l.verdict.contains("exits via utun6 (Zscaler)."));
    let none = lookup("x", false, Vec::new(), None, &[], &[]);
    assert!(none.interface.is_none() && none.label.is_none() && none.resolver_number.is_none());
}

#[test]
fn route_target_prefers_first_v4() {
    let resolved = vec!["2001:db8::1".to_string(), "10.0.0.1".to_string(), "10.0.0.2".to_string()];
    assert_eq!(route_target("h", &resolved, &[false, true, true]), "10.0.0.1");
    assert_eq!(route_target("h", &resolved, &[false, false, false]), "h");
}

#[test]
fn answer_lines_trims() {
    assert_eq!(answer_lines(" 1.2.3.4 \n\n  cname.example.\n"), vec!["1.2.3.4", "cname.example."]);
    assert!(answer_lines("").is_empty());
}

fn outputs_ok() -> CommandOutputs {
    CommandOutputs {
        routes_v4: Ok(NETSTAT.to_string()),
        routes_v6: Ok(NETSTAT.to_string()),
        ifconfig: Ok(IFCONFIG.to_string()),
        dns: Ok(SCUTIL_DNS.to_string()),
        nwi: Ok(SCUTIL_NWI.to_string()),
    }
}

fn no_probes() -> TunnelProbes {
    TunnelProbes {
        tailscale_ips: vec!["100.96.0.1".to_string()],
        zscaler_installed: true,
        zscaler_running: true,
        atmos_installed: false,
        atmos_running: false,
        ipsec: Vec::new(),
    }
}

#[test]
fn summary_assembles_sections() {
    let pf = Section::ok(PfRules { rules: vec!["r".to_string()], anchors: Vec::new() });
    let s = collect_summary("2024-05-14T12:34:56Z".to_string(), false, &outputs_ok(), &no_probes(), pf);
    assert_eq!(s.platform, "macos");
    assert!(!s.privileged);
    assert_eq!(s.collected_at, "2024-05-14T12:34:56Z");
    let routes = s.routes.data.as_ref().expect("routes");
    assert_eq!(routes.len(), 7);
    assert!(s.routes.error.is_none());
    // utun6 route is not claimed by a detector: Unknown; en7 is no tunnel.
    assert_eq!(routes[1].label.as_deref(), Some("Unknown"));
    assert_eq!(routes[0].label, None);
    let tunnels = s.tunnels.data.as_ref().expect("tunnels");
    assert_eq!(tunnels.len(), 3);
    assert_eq!(tunnels[0].interface, "utun6");
    assert_eq!(tunnels[1].interface, "utun2");
    assert_eq!(tunnels[1].label, "Zscaler");
    assert_eq!(tunnels[2].label, "Tailscale");
    assert_eq!(s.dns.data.as_ref().map(Vec::len), Some(6));
    assert!(s.services.data.is_some() && s.services.error.is_none());
    assert!(s.pf.data.is_none());
    assert_eq!(s.pf.error.as_deref(), Some("requires root"));
}

#[test]
fn summary_privileged_keeps_pf() {
    let pf = Section::ok(PfRules { rules: vec!["r".to_string()], anchors: Vec::new() });
    let s = collect_summary(String::new(), true, &outputs_ok(), &no_probes(), pf);
    assert!(s.privileged);
    assert_eq!(s.pf.data.as_ref().map(|p| p.rules.len()), Some(1));
    assert!(s.pf.error.is_none());
}

#[test]
fn summary_failures_stay_in_their_section() {
    let outputs = CommandOutputs {
        routes_v4: Err("boom".to_string()),
        routes_v6: Err("bang".to_string()),
        ifconfig: Err("timed out".to_string()),
        dns: Err("no scutil".to_string()),
        nwi: Ok(SCUTIL_NWI.to_string()),
    };
    let s = collect_summary(String::new(), false, &outputs, &no_probes(), Section::requires_root());
    assert!(s.routes.data.is_none());
    assert_eq!(s.routes.error.as_deref(), Some("ipv4: boom; ipv6: bang"));
    assert!(s.tunnels.data.is_none());
    assert_eq!(s.tunnels.error.as_deref(), Some("ifconfig: timed out"));
    assert_eq!(s.dns.error.as_deref(), Some("scutil --dns: no scutil"));
    assert!(s.services.data.is_some());
}

#[test]
fn summary_one_family_failing() {
    let outputs = CommandOutputs {
        routes_v4: Ok(NETSTAT.to_string()),
        routes_v6: Err("bang".to_string()),
        ifconfig: Err("x".to_string()),
        dns: Ok(String::new()),
        nwi: Ok(String::new()),
    };
    let s = collect_summary(String::new(), false, &outputs, &no_probes(), Section::requires_root());
    // Routes were found, so the other family's error is not shown; with no
    // tunnel table, routes stay unlabelled.
    assert_eq!(s.routes.data.as_ref().map(Vec::len), Some(5));
    assert!(s.routes.error.is_none());
    assert!(s.routes.data.as_ref().unwrap().iter().all(|r| r.label.is_none()));
    let outputs = CommandOutputs {
        routes_v4: Ok(String::new()),
        routes_v6: Err("bang".to_string()),
        ifconfig: Ok(String::new()),
        dns: Ok(String::new()),
        nwi: Ok(String::new()),
    };
    let s = collect_summary(String::new(), false, &outputs, &no_probes(), Section::requires_root());
    assert!(s.routes.data.is_none());
    assert_eq!(s.routes.error.as_deref(), Some("ipv6: bang"));
}

#[test]
fn pf_section_from_results() {
    let s = collect_pf(&Ok(PFCTL_SR.to_string()), &Ok(PFCTL_SA.to_string()));
    assert_eq!(s.data.as_ref().map(|p| p.anchors.len()), Some(3));
    let s = collect_pf(&Err("a".to_string()), &Err("b".to_string()));
    assert_eq!(s.error.as_deref(), Some("pfctl: a"));
    let s = collect_pf(&Ok(String::new()), &Err("b".to_string()));
    assert_eq!(s.error.as_deref(), Some("pfctl: b"));
    assert!(s.data.is_none());
}

#[test]
fn section_constructors() {
    let s = Section::ok(3u32);
    assert_eq!(s.data, Some(3));
    assert!(s.error.is_none());
    let e: Section<u32> = Section::err("bad".to_string());
    assert!(e.data.is_none());
    assert_eq!(e.error.as_deref(), Some("bad"));
    let r: Section<u32> = Section::requires_root();
    assert_eq!(r.error.as_deref(), Some("requires root"));
}
