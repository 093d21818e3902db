//! Parser tests against captured command output (macOS shapes), written
//! inline. No commands are executed.

use whichway::collect::{dns, interfaces, lookup, pf, routes, services, sockets, throughput};
use whichway::model::{IpFamily, ResolverScope};

const NETSTAT_INET: &str = "Routing tables

Internet:
Destination        Gateway            Flags               Netif Expire
default            192.168.6.1        UGScg                 en7
default            link#25            UCSIg               utun6
10/8               link#25            UCS                 utun6
100.65.0.1         100.65.0.1         UH                  utun6
127                127.0.0.1          UCS                   lo0
127.0.0.1          127.0.0.1          UH                    lo0
192.168.6          link#13            UCS                   en7      !
192.168.6.1/32     link#13            UCS                   en7      !
192.168.6.1        a0:36:bc:1a:2b:3c  UHLWIir               en7   1199
";

const NETSTAT_INET6: &str = "Routing tables

Internet6:
Destination                             Gateway                                 Flags               Netif Expire
default                                 fe80::%utun0                            UGcIg               utun0
::1                                     ::1                                     UHL                   lo0
fe80::%lo0/64                           fe80::1%lo0                             UcI                   lo0
fe80::1%lo0                             link#1                                  UHLI                  lo0
";

const NETSTAT_MULTIVPN: &str = "Routing tables

Internet:
Destination        Gateway            Flags               Netif Expire
default            192.168.1.1        UGScg                 en0
default            10.255.0.1         UGScIg              utun2
100.96.0.1/32      link#20            UCS                 utun1
100.100.100.100/32 link#20            UCS                 utun1
192.168.1          link#6             UCS                   en0      !

Internet6:
Destination                             Gateway                                 Flags               Netif Expire
default                                 fe80::%utun0                            UGcIg               utun0
fd7a:115c:a1e0::/48                     fe80::%utun1                            UGcS                utun1
";

const IFCONFIG: &str = "lo0: flags=8049<UP,LOOPBACK,RUNNING,MULTICAST> mtu 16384
\toptions=1203<RXCSUM,TXCSUM,TXSTATUS,SW_TIMESTAMP>
\tinet 127.0.0.1 netmask 0xff000000
\tinet6 ::1 prefixlen 128
\tnd6 options=201<PERFORMNUD,DAD>
en7: flags=8863<UP,BROADCAST,SMART,RUNNING,SIMPLEX,MULTICAST> mtu 1500
\toptions=6464<VLAN_MTU,TSO4,TSO6,CHANNEL_IO,PARTIAL_CSUM,ZEROINVERT_CSUM>
\tether a0:ce:c8:12:34:56
\tinet6 fe80::1c2b:3a4d:5e6f:7a8b%en7 prefixlen 64 secured scopeid 0xd
\tinet 192.168.6.204 netmask 0xffffff00 broadcast 192.168.6.255
\tnd6 options=201<PERFORMNUD,DAD>
\tmedia: autoselect (1000baseT <full-duplex>)
\tstatus: active
utun6: flags=8051<UP,POINTOPOINT,RUNNING,MULTICAST> mtu 1300
\tinet 100.65.0.1 --> 100.65.0.1 netmask 0xffffffff
";

const IFCONFIG_MULTIVPN: &str = "en0: flags=8863<UP,BROADCAST,SMART,RUNNING,SIMPLEX,MULTICAST> mtu 1500
\tether 3c:22:fb:00:11:22
\tinet 192.168.1.42 netmask 0xffffff00 broadcast 192.168.1.255
\tstatus: active
utun0: flags=8051<UP,POINTOPOINT,RUNNING,MULTICAST> mtu 1380
\tinet6 fe80::ce81:b1c:bd2c:69e%utun0 prefixlen 64 scopeid 0x10
utun1: flags=8051<UP,POINTOPOINT,RUNNING,MULTICAST> mtu 1280
\tinet 100.96.0.1 --> 100.96.0.1 netmask 0xffffffff
\tinet6 fd7a:115c:a1e0::1 prefixlen 48
utun2: flags=8051<UP,POINTOPOINT,RUNNING,MULTICAST> mtu 1400
\tinet 10.255.0.2 --> 10.255.0.1 netmask 0xffffffff
";

const SCUTIL_DNS: &str = "DNS configuration

resolver #1
  nameserver[0] : 100.65.0.2
  if_index : 25 (utun6)
  flags    : Request A records
  reach    : 0x00000003 (Reachable,Transient Connection)
  order    : 300000

resolver #2
  nameserver[0] : 9.9.9.9
  if_index : 13 (en7)
  flags    : Request A records
  reach    : 0x00000002 (Reachable)
  order    : 200000

resolver #3
  domain   : local
  options  : mdns
  timeout  : 5
  flags    : Request A records
  reach    : 0x00000000 (Not Reachable)
  order    : 300000

resolver #4
  domain   : 254.169.in-addr.arpa
  options  : mdns
  timeout  : 5
  order    : 300200

resolver #5
  domain   : 8.e.f.ip6.arpa
  options  : mdns
  timeout  : 5
  order    : 300400

resolver #6
  domain   : 9.e.f.ip6.arpa
  options  : mdns
  timeout  : 5
  order    : 300600

resolver #7
  domain   : a.e.f.ip6.arpa
  options  : mdns
  timeout  : 5
  order    : 300800

resolver #8
  domain   : b.e.f.ip6.arpa
  options  : mdns
  timeout  : 5
  order    : 301000

DNS configuration (for scoped queries)

resolver #1
  nameserver[0] : 9.9.9.9
  if_index : 13 (en7)
  flags    : Scoped, Request A records
  reach    : 0x00000002 (Reachable)

resolver #2
  nameserver[0] : 100.65.0.2
  if_index : 25 (utun6)
  flags    : Scoped, Request A records
  reach    : 0x00000003 (Reachable,Transient Connection)
";

const SCUTIL_NWI: &str = "Network information

IPv4 network interface information
     en7 : flags      : 0x5 (IPv4,DNS)
           address    : 192.168.6.204
           reach      : 0x00000002 (Reachable)
   utun6 : flags      : 0x5 (IPv4,DNS)
           address    : 100.65.0.1
           VPN server : 203.0.113.5
           reach      : 0x00000003 (Reachable,Transient Connection)

   REACH : flags 0x00000002 (Reachable)

IPv6 network interface information
     en7 : flags      : 0x6 (IPv6,DNS)
           address    : fe80::1c2b:3a4d:5e6f:7a8b
           reach      : 0x00000002 (Reachable)

   REACH : flags 0x00000002 (Reachable)

Network interfaces: en7 utun6
";

const ROUTE_GET: &str = "   route to: 1.1.1.1
destination: default
       mask: default
    gateway: 192.168.6.1
  interface: en7
      flags: <UP,GATEWAY,DONE,STATIC,PRCLONING,GLOBAL>
 recvpipe  sendpipe  ssthresh  rtt,msec    rttvar  hopcount      mtu     expire
       0         0         0         0         0         0      1500         0
";

const LSOF: &str = "COMMAND     PID   USER   FD   TYPE             DEVICE SIZE/OFF NODE NAME
launchd       1   root    7u  IPv6 0x3c1d8a2b4e5f6071      0t0  TCP *:22 (LISTEN)
firefox    1234  alice   45u  IPv4 0x1234567890abcdef      0t0  TCP 192.168.6.204:50123->93.184.216.34:443 (ESTABLISHED)
cupsd       567   root    5u  IPv6 0xfedcba0987654321      0t0  TCP [::1]:631 (LISTEN)
mDNSRespo   400  _mdns    7u  IPv4 0x1111111111111111      0t0  UDP *:5353
";

const NETTOP: &str = "                   interface        bytes_in       bytes_out
launchd.1                                  0               0
mDNSResponder.461                    1498396          248922
opencode.7781         en7             82311            19003
Microsoft Teams.8842  utun6          4411021          990231
firefox.1234          en7             300000           12000
";

const PFCTL_SR: &str = "No ALTQ support in kernel
ALTQ related functions disabled
scrub-anchor \"com.apple/*\" all fragment reassemble
pass quick on lo0 all flags any
anchor \"com.apple/*\" all
anchor \"com.obdev.littlesnitch\" all
";

const PFCTL_SA: &str = "FILTER RULES:
scrub-anchor \"com.apple/*\" all fragment reassemble
pass quick on lo0 all flags any

ANCHORS:
  com.apple/200.AirDrop/Bonjour
  com.apple/250.ApplicationFirewall
  com.obdev.littlesnitch

INFO:
Status: Enabled for 0 days 01:02:03           Debug: Urgent
";

#[test]
fn parses_netstat_inet() {
    let rs = routes::parse(NETSTAT_INET, IpFamily::V4);
    assert!(!rs.is_empty(), "should have v4 routes");
    let default = rs
        .iter()
        .find(|r| r.destination == "default" && r.interface == "en7");
    assert!(default.is_some(), "default route on en7 should be present");
    assert!(
        rs.iter().any(|r| r.interface == "utun6"),
        "utun6 routes present"
    );
    // Sanity: every row has the four required columns parsed.
    for r in &rs {
        assert!(!r.destination.is_empty());
        assert!(!r.gateway.is_empty());
        assert!(!r.flags.is_empty());
        assert!(!r.interface.is_empty());
        assert_eq!(r.family, IpFamily::V4);
    }
}

#[test]
fn parses_netstat_inet6() {
    let rs = routes::parse(NETSTAT_INET6, IpFamily::V6);
    assert!(!rs.is_empty());
    assert!(rs.iter().all(|r| r.family == IpFamily::V6));
}

#[test]
fn parses_multivpn_routes() {
    let s = NETSTAT_MULTIVPN;
    let v4 = routes::parse(s, IpFamily::V4);
    let v6 = routes::parse(s, IpFamily::V6);
    // The two `default` rows on en0 (native) and utun2 (Zscaler-shaped) and a
    // utun1 (Tailscale-shaped) /32 should all appear.
    assert!(
        v4.iter()
            .any(|r| r.destination == "default" && r.interface == "en0")
    );
    assert!(
        v4.iter()
            .any(|r| r.destination == "default" && r.interface == "utun2")
    );
    assert!(
        v4.iter()
            .any(|r| r.destination == "100.96.0.1/32" && r.interface == "utun1")
    );
    assert!(!v6.is_empty());
}

#[test]
fn parses_ifconfig() {
    let ifs = interfaces::parse(IFCONFIG);
    let en7 = ifs.iter().find(|i| i.name == "en7").expect("en7 present");
    assert_eq!(en7.mtu, Some(1500));
    assert_eq!(en7.status.as_deref(), Some("active"));
    assert!(en7.inet.iter().any(|a| a == "192.168.6.204"));
    assert!(!en7.inet6.is_empty());
    let utun6 = ifs
        .iter()
        .find(|i| i.name == "utun6")
        .expect("utun6 present");
    assert_eq!(utun6.mtu, Some(1300));
    assert_eq!(utun6.inet.first().map(String::as_str), Some("100.65.0.1"));
    assert_eq!(utun6.peer.as_deref(), Some("100.65.0.1"));
}

#[test]
fn parses_ifconfig_multivpn() {
    let ifs = interfaces::parse(IFCONFIG_MULTIVPN);
    assert!(
        ifs.iter()
            .any(|i| i.name == "en0" && i.inet.contains(&"192.168.1.42".to_string()))
    );
    let utun1 = ifs.iter().find(|i| i.name == "utun1").expect("utun1");
    assert_eq!(utun1.inet.first().map(String::as_str), Some("100.96.0.1"));
    let utun2 = ifs.iter().find(|i| i.name == "utun2").expect("utun2");
    assert_eq!(utun2.mtu, Some(1400));
}

#[test]
fn parses_scutil_dns() {
    let rs = dns::parse(SCUTIL_DNS);
    // 8 default + 2 scoped from the fixture.
    let default: Vec<_> = rs
        .iter()
        .filter(|r| r.scope == ResolverScope::Default)
        .collect();
    let scoped: Vec<_> = rs
        .iter()
        .filter(|r| r.scope == ResolverScope::Scoped)
        .collect();
    assert_eq!(default.len(), 8);
    assert_eq!(scoped.len(), 2);
    let r1 = &default[0];
    assert_eq!(r1.number, 1);
    assert_eq!(r1.nameservers, vec!["100.65.0.2"]);
    assert_eq!(r1.if_index, Some(25));
    assert_eq!(r1.interface.as_deref(), Some("utun6"));
    // resolver #3 has a `domain : local` line.
    let r3 = default.iter().find(|r| r.number == 3).unwrap();
    assert_eq!(r3.domain.as_deref(), Some("local"));
}

#[test]
fn parses_scutil_nwi() {
    let info = services::parse(SCUTIL_NWI);
    assert_eq!(info.order, vec!["en7", "utun6"]);
    assert!(
        info.services
            .iter()
            .any(|s| s.interface == "en7" && s.family == IpFamily::V4)
    );
    assert!(
        info.services
            .iter()
            .any(|s| s.interface == "en7" && s.family == IpFamily::V6)
    );
}

#[test]
fn parses_route_get() {
    let rg = lookup::parse_route_get(ROUTE_GET);
    assert_eq!(rg.interface.as_deref(), Some("en7"));
    assert_eq!(rg.gateway.as_deref(), Some("192.168.6.1"));
    assert_eq!(rg.destination.as_deref(), Some("default"));
}

#[test]
fn parses_lsof() {
    let socks = sockets::parse(LSOF);
    assert!(socks.iter().any(|s| s.command == "firefox"
        && s.protocol == "TCP"
        && s.state.as_deref() == Some("ESTABLISHED")));
    let lis = socks
        .iter()
        .find(|s| s.state.as_deref() == Some("LISTEN") && s.command == "cupsd")
        .unwrap();
    assert!(lis.local.contains(":631"));
}

#[test]
fn parses_nettop() {
    let rows = throughput::parse(NETTOP);
    assert!(!rows.is_empty());
    assert!(rows.iter().any(|r| r.process.contains("opencode")
        || r.process.contains("Microsoft")
        || r.process.contains("firefox")));
}

#[test]
fn parses_pfctl() {
    let rules = pf::parse(PFCTL_SR, PFCTL_SA);
    assert!(rules.anchors.iter().any(|a| a.contains("com.apple/")));
    assert!(rules.anchors.iter().any(|a| a.contains("littlesnitch")));
    assert!(rules.rules.iter().any(|r| r.contains("pass quick on lo0")));
}

#[test]
fn resolver_correlation_supplemental_domain() {
    let resolvers = dns::parse(SCUTIL_DNS);
    // No fixture domain matches example.com so we should fall back to the
    // default resolver with the lowest order: resolver #2 (ns 9.9.9.9, order 200000).
    let r = lookup::correlate_resolver("example.com", false, &resolvers).expect("fallback");
    assert_eq!(r.number, 2);
    assert!(r.nameservers.iter().any(|n| n == "9.9.9.9"));
}

#[test]
fn resolver_correlation_ip_target() {
    let resolvers = dns::parse(SCUTIL_DNS);
    let r = lookup::correlate_resolver("1.1.1.1", true, &resolvers).expect("fallback");
    // IP target -> fallback default resolver.
    assert_eq!(r.scope, ResolverScope::Default);
}
