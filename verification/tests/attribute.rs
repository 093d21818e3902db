//! Tests of tunnel attribution and the probes' helpers.

use whichway::attribute::process::{any_found, any_path_exists, pgrep_matched, pgrep_pattern};
use whichway::attribute::{atmos, label_tunnels, tailscale, zscaler, TunnelProbes};
use whichway::collect::interfaces;

const IFCONFIG: &str = "en0: flags=8863<UP> mtu 1500
\tinet 192.168.1.42 netmask 0xffffff00
utun0: flags=8051<UP> mtu 1380
\tinet6 fe80::1%utun0 prefixlen 64
utun1: flags=8051<UP> mtu 1280
\tinet 100.96.0.1 --> 100.96.0.1 netmask 0xffffffff
utun2: flags=8051<UP> mtu 1400
\tinet 10.255.0.2 --> 10.255.0.1 netmask 0xffffffff
\tstatus: active
";

fn probes() -> TunnelProbes {
    TunnelProbes {
        tailscale_ips: vec!["fd7a::1".to_string(), "100.96.0.1".to_string()],
        zscaler_installed: true,
        zscaler_running: true,
        atmos_installed: true,
        atmos_running: true,
        ipsec: vec![("utun0".to_string(), "axis service".to_string())],
    }
}

#[test]
fn tailscale_matches_reported_ip() {
    let ifs = interfaces::parse(IFCONFIG);
    let (iface, desc) = tailscale::detect(&ifs, &["100.96.0.1".to_string()]).expect("match");
    assert_eq!(iface, "utun1");
    assert_eq!(desc, "Tailscale (Self.TailscaleIPs match: 100.96.0.1)");
    // CGNAT-looking addresses alone are never enough.
    assert!(tailscale::detect(&ifs, &[]).is_none());
    assert!(tailscale::detect(&ifs, &["100.64.0.9".to_string()]).is_none());
    // en0 carries the address but is not a utun.
    assert!(tailscale::detect(&ifs, &["192.168.1.42".to_string()]).is_none());
}

#[test]
fn zscaler_prefers_mtu_1400() {
    let ifs = interfaces::parse(IFCONFIG);
    let (iface, desc) = zscaler::detect(&ifs, true, true).expect("match");
    assert_eq!(iface, "utun2");
    assert_eq!(desc, "Zscaler (install path present, daemon running, MTU 1400)");
    assert!(zscaler::detect(&ifs, false, true).is_none());
    assert!(zscaler::detect(&ifs, true, false).is_none());
    // Without an MTU 1400 utun, the first utun with an IPv4 address.
    let ifs = interfaces::parse("utun3: flags=1 mtu 1500\n\tinet 10.0.0.1\n");
    let (iface, desc) = zscaler::detect(&ifs, true, true).expect("fallback");
    assert_eq!(iface, "utun3");
    assert_eq!(desc, "Zscaler (install path present, daemon running, MTU 1500)");
    let ifs = interfaces::parse("utun3: flags=1\n\tinet 10.0.0.1\n");
    let (_, desc) = zscaler::detect(&ifs, true, true).expect("fallback");
    assert_eq!(desc, "Zscaler (install path present, daemon running, MTU ?)");
}

#[test]
fn atmos_first_utun_with_v4() {
    let ifs = interfaces::parse(IFCONFIG);
    let (iface, desc) = atmos::detect(&ifs, true, true).expect("match");
    assert_eq!(iface, "utun1");
    assert_eq!(desc, "Atmos / Axis (install path present, agent running)");
    assert!(atmos::detect(&ifs, true, false).is_none());
}

#[test]
fn label_tunnels_priority() {
    let ifs = interfaces::parse(IFCONFIG);
    let ts = label_tunnels(&ifs, &probes());
    assert_eq!(ts.len(), 3);
    assert_eq!(ts[0].interface, "utun0");
    assert_eq!(ts[0].label, "IPSec/IKEv2");
    assert_eq!(ts[0].description, "axis service");
    assert_eq!(ts[0].local_ip.as_deref(), Some("fe80::1%utun0"));
    // utun1 is claimed by Tailscale and by Atmos: Tailscale wins.
    assert_eq!(ts[1].interface, "utun1");
    assert_eq!(ts[1].label, "Tailscale");
    assert_eq!(ts[1].peer_or_gateway.as_deref(), Some("100.96.0.1"));
    assert_eq!(ts[2].label, "Zscaler");
    assert_eq!(ts[2].mtu, Some(1400));
    assert_eq!(ts[2].status.as_deref(), Some("active"));
}

#[test]
fn label_tunnels_unknown_without_claims() {
    let ifs = interfaces::parse(IFCONFIG);
    let none = TunnelProbes {
        tailscale_ips: Vec::new(),
        zscaler_installed: false,
        zscaler_running: false,
        atmos_installed: false,
        atmos_running: false,
        ipsec: Vec::new(),
    };
    let ts = label_tunnels(&ifs, &none);
    assert_eq!(ts.len(), 3);
    assert!(ts.iter().all(|t| t.label == "Unknown" && t.description == "no signature matched"));
}

#[test]
fn pgrep_helpers() {
    assert_eq!(pgrep_pattern("/Applications/Zscaler/"), "^/Applications/Zscaler/");
    assert!(!pgrep_matched(""));
    assert!(!pgrep_matched("  \n\n"));
    assert!(pgrep_matched("123 /Applications/Zscaler/daemon\n"));
}

#[test]
fn install_paths_checks() {
    assert!(!any_path_exists(&[]));
    assert!(!any_found(&[]));
    assert!(!any_found(&[false, false]));
    assert!(any_found(&[false, true, false]));
    assert!(any_path_exists(&["/definitely/not/here", "/"]));
    assert!(!any_path_exists(&["/definitely/not/here"]));
    assert_eq!(zscaler::install_paths().len(), 2);
    assert_eq!(atmos::install_paths().len(), 3);
    assert_eq!(zscaler::process_anchor(), "/Applications/Zscaler/");
}
