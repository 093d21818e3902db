//! Tunnel labeling.
//!
//! The candidate detectors run in priority order and label utun interfaces.
//! Anything left over after all detectors have run is labeled "Unknown"
//! with raw interface info. The probes themselves (install paths, running
//! processes, `tailscale status --json`) are taken as arguments.

pub mod atmos;
pub mod process;
pub mod tailscale;
pub mod zscaler;

use vstd::prelude::*;

use crate::model::{Interface, InterfaceV, Tunnel, TunnelV};
use crate::text::{
    first_where, has_prefix, lemma_first_where, lemma_first_where_found, lemma_views_push,
    starts_with, to_chars, views,
};

verus! {

/// What the probes found: the `Self.TailscaleIPs` of `tailscale status
/// --json` (empty when unavailable), the install-path and process checks of
/// Zscaler and Atmos / Axis, and named VPN services as (interface,
/// description) pairs.
pub struct TunnelProbes {
    pub tailscale_ips: Vec<String>,
    pub zscaler_installed: bool,
    pub zscaler_running: bool,
    pub atmos_installed: bool,
    pub atmos_running: bool,
    pub ipsec: Vec<(String, String)>,
}

/// A detector's claim as (interface, label, description).
pub open spec fn claim(d: Option<(Seq<char>, Seq<char>)>, label: Seq<char>) -> Seq<(Seq<char>, Seq<char>, Seq<char>)> {
    match d {
        Some((i, desc)) => seq![(i, label, desc)],
        None => seq![],
    }
}

/// The detectors' claims in priority order: Tailscale, Zscaler,
/// Atmos / Axis, then generic IPSec/IKEv2 services.
pub open spec fn claims(ifs: Seq<InterfaceV>, p: TunnelProbes) -> Seq<(Seq<char>, Seq<char>, Seq<char>)> {
    claim(tailscale::detect_spec(ifs, views(p.tailscale_ips@)), "Tailscale"@) + claim(
        zscaler::detect_spec(ifs, p.zscaler_installed, p.zscaler_running),
        "Zscaler"@,
    ) + claim(atmos::detect_spec(ifs, p.atmos_installed, p.atmos_running), "Atmos / Axis"@)
        + views(p.ipsec@).map_values(
        |c: (Seq<char>, Seq<char>)| (c.0, "IPSec/IKEv2"@, c.1),
    )
}

pub open spec fn claims_iface_fn(name: Seq<char>) -> spec_fn((Seq<char>, Seq<char>, Seq<char>)) -> bool {
    |c: (Seq<char>, Seq<char>, Seq<char>)| c.0 == name
}

/// The (label, description) of the first claim on `name`, or `Unknown`.
pub open spec fn pick(name: Seq<char>, cs: Seq<(Seq<char>, Seq<char>, Seq<char>)>) -> (Seq<char>, Seq<char>) {
    let k = first_where(cs, claims_iface_fn(name));
    if 0 <= k < cs.len() {
        (cs[k].1, cs[k].2)
    } else {
        ("Unknown"@, "no signature matched"@)
    }
}

/// The tunnel row of a utun interface.
pub open spec fn tunnel_of(i: InterfaceV, cs: Seq<(Seq<char>, Seq<char>, Seq<char>)>) -> TunnelV {
    TunnelV {
        interface: i.name,
        label: pick(i.name, cs).0,
        description: pick(i.name, cs).1,
        local_ip: if i.inet.len() > 0 {
            Some(i.inet[0])
        } else if i.inet6.len() > 0 {
            Some(i.inet6[0])
        } else {
            None
        },
        peer_or_gateway: i.peer,
        mtu: i.mtu,
        status: i.status,
    }
}

/// One row per utun interface, in interface order.
pub open spec fn tunnels_of(ifs: Seq<InterfaceV>, cs: Seq<(Seq<char>, Seq<char>, Seq<char>)>) -> Seq<TunnelV>
    decreases ifs.len(),
{
    if ifs.len() == 0 {
        seq![]
    } else if starts_with(ifs.last().name, "utun"@) {
        tunnels_of(ifs.drop_last(), cs).push(tunnel_of(ifs.last(), cs))
    } else {
        tunnels_of(ifs.drop_last(), cs)
    }
}

pub open spec fn label_tunnels_spec(ifs: Seq<InterfaceV>, p: TunnelProbes) -> Seq<TunnelV> {
    tunnels_of(ifs, claims(ifs, p))
}

fn push_claim(
    cs: &mut Vec<(String, String, String)>,
    d: Option<(String, String)>,
    label: &str,
)
    ensures
        views(final(cs)@) == views(old(cs)@) + claim(
            match d {
                Some((a, b)) => Some((a@, b@)),
                None => None,
            },
            label@,
        ),
{
    match d {
        Some((i, desc)) => {
            let c = (i, String::from_str(label), desc);
            proof {
                lemma_views_push(cs@, c);
            }
            cs.push(c);
        },
        None => {
            assert(views(cs@) + Seq::<(Seq<char>, Seq<char>, Seq<char>)>::empty() =~= views(cs@));
        },
    }
}

fn first_claim(cs: &Vec<(String, String, String)>, name: &String) -> (r: Option<usize>)
    ensures
        match r {
            Some(k) => k < cs@.len() && first_where(views(cs@), claims_iface_fn(name@)) == k as int,
            None => first_where(views(cs@), claims_iface_fn(name@)) == -1,
        },
{
    let ghost vs = views(cs@);
    let ghost p = claims_iface_fn(name@);
    let mut k: usize = 0;
    while k < cs.len()
        invariant
            k <= cs@.len(),
            vs == views(cs@),
            p == claims_iface_fn(name@),
            forall|j: int| 0 <= j < k ==> !p(#[trigger] vs[j]),
        decreases cs@.len() - k,
    {
        assert(vs[k as int] == cs@[k as int]@);
        if cs[k].0 == *name {
            proof {
                lemma_first_where(vs, p, k as int);
            }
            return Some(k);
        }
        k = k + 1;
    }
    proof {
        lemma_first_where(vs, p, k as int);
    }
    None
}

/// Returns one `Tunnel` row per utun interface, in interface order.
///
/// The detectors claim interfaces in priority order (Tailscale, Zscaler,
/// Atmos / Axis, IPSec/IKEv2); the first claim on an interface gives its
/// label. en/bridge interfaces stay in the route table context; for the
/// Tunnels view, utun is the meaningful subset.
pub fn label_tunnels(interfaces: &[Interface], probes: &TunnelProbes) -> (out: Vec<Tunnel>)
    ensures
        views(out@) == label_tunnels_spec(views(interfaces@), *probes),
{
    let ghost ifs = views(interfaces@);
    let mut cs: Vec<(String, String, String)> = Vec::new();
    assert(views(cs@) =~= Seq::<(Seq<char>, Seq<char>, Seq<char>)>::empty());
    push_claim(&mut cs, tailscale::detect(interfaces, probes.tailscale_ips.as_slice()), "Tailscale");
    push_claim(
        &mut cs,
        zscaler::detect(interfaces, probes.zscaler_installed, probes.zscaler_running),
        "Zscaler",
    );
    push_claim(
        &mut cs,
        atmos::detect(interfaces, probes.atmos_installed, probes.atmos_running),
        "Atmos / Axis",
    );
    let ghost before = views(cs@);
    let mut j: usize = 0;
    while j < probes.ipsec.len()
        invariant
            j <= probes.ipsec@.len(),
            views(cs@) == before + views(probes.ipsec@.take(j as int)).map_values(
                |c: (Seq<char>, Seq<char>)| (c.0, "IPSec/IKEv2"@, c.1),
            ),
        decreases probes.ipsec@.len() - j,
    {
        let c = (probes.ipsec[j].0.clone(), String::from_str("IPSec/IKEv2"), probes.ipsec[j].1.clone());
        proof {
            lemma_views_push(cs@, c);
        }
        cs.push(c);
        assert(views(probes.ipsec@.take(j + 1)) =~= views(probes.ipsec@.take(j as int)).push(
            probes.ipsec@[j as int]@,
        ));
        j = j + 1;
        assert(views(cs@) =~= before + views(probes.ipsec@.take(j as int)).map_values(
            |c: (Seq<char>, Seq<char>)| (c.0, "IPSec/IKEv2"@, c.1),
        ));
    }
    assert(probes.ipsec@.take(j as int) =~= probes.ipsec@);
    assert(views(cs@) =~= claims(ifs, *probes));
    let ghost cv = views(cs@);

    let utun = to_chars("utun");
    let mut out: Vec<Tunnel> = Vec::new();
    assert(views(out@) =~= Seq::<TunnelV>::empty());
    let mut i: usize = 0;
    while i < interfaces.len()
        invariant
            i <= interfaces@.len(),
            ifs == views(interfaces@),
            cv == views(cs@),
            utun@ == "utun"@,
            views(out@) == tunnels_of(ifs.take(i as int), cv),
        decreases interfaces@.len() - i,
    {
        let f = &interfaces[i];
        proof {
            assert(ifs.take(i + 1).drop_last() =~= ifs.take(i as int));
            assert(ifs.take(i + 1).last() == f@);
        }
        if has_prefix(&to_chars(f.name.as_str()), &utun) {
            let (label, description) = match first_claim(&cs, &f.name) {
                Some(k) => (cs[k].1.clone(), cs[k].2.clone()),
                None => (String::from_str("Unknown"), String::from_str("no signature matched")),
            };
            let local_ip = if f.inet.len() > 0 {
                Some(f.inet[0].clone())
            } else if f.inet6.len() > 0 {
                Some(f.inet6[0].clone())
            } else {
                None
            };
            let t = Tunnel {
                interface: f.name.clone(),
                label,
                description,
                local_ip,
                peer_or_gateway: match &f.peer {
                    Some(p) => Some(p.clone()),
                    None => None,
                },
                mtu: f.mtu,
                status: match &f.status {
                    Some(s) => Some(s.clone()),
                    None => None,
                },
            };
            proof {
                lemma_views_push(out@, t);
                assert(t@ == tunnel_of(f@, cv));
            }
            out.push(t);
        }
        i = i + 1;
    }
    assert(ifs.take(i as int) =~= ifs);
    out
}

// ---------------------------------------------------------------------------
// Laws
// ---------------------------------------------------------------------------

/// The names of the utun interfaces, in interface order.
pub open spec fn utun_names(ifs: Seq<InterfaceV>) -> Seq<Seq<char>>
    decreases ifs.len(),
{
    if ifs.len() == 0 {
        seq![]
    } else if starts_with(ifs.last().name, "utun"@) {
        utun_names(ifs.drop_last()).push(ifs.last().name)
    } else {
        utun_names(ifs.drop_last())
    }
}

/// Every row is a utun interface labelled by the first claim on it.
pub proof fn lemma_tunnel_rows(ifs: Seq<InterfaceV>, cs: Seq<(Seq<char>, Seq<char>, Seq<char>)>)
    ensures
        tunnels_of(ifs, cs).map_values(|t: TunnelV| t.interface) == utun_names(ifs),
        forall|k: int|
            0 <= k < tunnels_of(ifs, cs).len() ==> {
                let t = #[trigger] tunnels_of(ifs, cs)[k];
                &&& starts_with(t.interface, "utun"@)
                &&& (t.label, t.description) == pick(t.interface, cs)
            },
    decreases ifs.len(),
{
    if ifs.len() > 0 {
        let p = ifs.drop_last();
        lemma_tunnel_rows(p, cs);
        let prev = tunnels_of(p, cs);
        if starts_with(ifs.last().name, "utun"@) {
            let t = tunnel_of(ifs.last(), cs);
            assert(prev.push(t).map_values(|t: TunnelV| t.interface) =~= prev.map_values(
                |t: TunnelV| t.interface,
            ).push(t.interface));
            assert forall|k: int| 0 <= k < prev.push(t).len() implies {
                let u = #[trigger] prev.push(t)[k];
                &&& starts_with(u.interface, "utun"@)
                &&& (u.label, u.description) == pick(u.interface, cs)
            } by {
                if k < prev.len() {
                    assert(prev.push(t)[k] == prev[k]);
                }
            }
        }
    }
}

/// One tunnel row per utun interface, in interface order; other interfaces
/// get none.
pub proof fn law_one_row_per_utun(ifs: Seq<InterfaceV>, p: TunnelProbes)
    ensures
        label_tunnels_spec(ifs, p).map_values(|t: TunnelV| t.interface) == utun_names(ifs),
{
    lemma_tunnel_rows(ifs, claims(ifs, p));
}

/// The utun interfaces, in interface order.
pub open spec fn utun_ifaces(ifs: Seq<InterfaceV>) -> Seq<InterfaceV>
    decreases ifs.len(),
{
    if ifs.len() == 0 {
        seq![]
    } else if starts_with(ifs.last().name, "utun"@) {
        utun_ifaces(ifs.drop_last()).push(ifs.last())
    } else {
        utun_ifaces(ifs.drop_last())
    }
}

proof fn lemma_tunnel_fields(ifs: Seq<InterfaceV>, cs: Seq<(Seq<char>, Seq<char>, Seq<char>)>)
    ensures
        tunnels_of(ifs, cs).len() == utun_ifaces(ifs).len(),
        forall|k: int|
            0 <= k < tunnels_of(ifs, cs).len() ==> {
                let t = #[trigger] tunnels_of(ifs, cs)[k];
                let i = utun_ifaces(ifs)[k];
                &&& t.interface == i.name
                &&& i.inet.len() > 0 ==> t.local_ip == Some(i.inet[0])
                &&& i.inet.len() == 0 && i.inet6.len() > 0 ==> t.local_ip == Some(i.inet6[0])
                &&& i.inet.len() == 0 && i.inet6.len() == 0 ==> t.local_ip is None
                &&& t.peer_or_gateway == i.peer
                &&& t.mtu == i.mtu
                &&& t.status == i.status
            },
    decreases ifs.len(),
{
    if ifs.len() > 0 {
        let p = ifs.drop_last();
        lemma_tunnel_fields(p, cs);
        let prev = tunnels_of(p, cs);
        let us = utun_ifaces(p);
        if starts_with(ifs.last().name, "utun"@) {
            let t = tunnel_of(ifs.last(), cs);
            assert forall|k: int| 0 <= k < prev.push(t).len() implies {
                let u = #[trigger] prev.push(t)[k];
                let i = us.push(ifs.last())[k];
                &&& u.interface == i.name
                &&& i.inet.len() > 0 ==> u.local_ip == Some(i.inet[0])
                &&& i.inet.len() == 0 && i.inet6.len() > 0 ==> u.local_ip == Some(i.inet6[0])
                &&& i.inet.len() == 0 && i.inet6.len() == 0 ==> u.local_ip is None
                &&& u.peer_or_gateway == i.peer
                &&& u.mtu == i.mtu
                &&& u.status == i.status
            } by {
                if k < prev.len() {
                    assert(prev.push(t)[k] == prev[k]);
                    assert(us.push(ifs.last())[k] == us[k]);
                }
            }
        }
    }
}

/// Each tunnel row, in order, is one utun interface and carries that
/// interface's own addresses: its first IPv4 address whenever it has one,
/// its first IPv6 address only when it has no IPv4 address, and none when
/// it has neither; the peer, MTU and status are the interface's.
pub proof fn law_tunnel_addresses(ifs: Seq<InterfaceV>, p: TunnelProbes)
    ensures
        label_tunnels_spec(ifs, p).len() == utun_ifaces(ifs).len(),
        forall|k: int|
            0 <= k < label_tunnels_spec(ifs, p).len() ==> {
                let t = #[trigger] label_tunnels_spec(ifs, p)[k];
                let i = utun_ifaces(ifs)[k];
                &&& starts_with(i.name, "utun"@)
                &&& t.interface == i.name
                &&& i.inet.len() > 0 ==> t.local_ip == Some(i.inet[0])
                &&& i.inet.len() == 0 && i.inet6.len() > 0 ==> t.local_ip == Some(i.inet6[0])
                &&& i.inet.len() == 0 && i.inet6.len() == 0 ==> t.local_ip is None
                &&& t.peer_or_gateway == i.peer
                &&& t.mtu == i.mtu
                &&& t.status == i.status
            },
{
    let cs = claims(ifs, p);
    lemma_tunnel_fields(ifs, cs);
    lemma_tunnel_rows(ifs, cs);
}

/// The detector result `d` claims interface `name`.
pub open spec fn claims_name(d: Option<(Seq<char>, Seq<char>)>, name: Seq<char>) -> bool {
    d matches Some((n, _)) && n == name
}

/// The label that `pick` gives follows the detector priority: Tailscale,
/// then Zscaler, then Atmos / Axis; with no claim at all, `Unknown`.
pub proof fn lemma_pick_priority(ifs: Seq<InterfaceV>, p: TunnelProbes, name: Seq<char>)
    ensures
        ({
            let ts = tailscale::detect_spec(ifs, views(p.tailscale_ips@));
            let zs = zscaler::detect_spec(ifs, p.zscaler_installed, p.zscaler_running);
            let at = atmos::detect_spec(ifs, p.atmos_installed, p.atmos_running);
            let ipsec = views(p.ipsec@);
            let l = pick(name, claims(ifs, p)).0;
            &&& claims_name(ts, name) ==> l == "Tailscale"@
            &&& !claims_name(ts, name) && claims_name(zs, name) ==> l == "Zscaler"@
            &&& !claims_name(ts, name) && !claims_name(zs, name) && claims_name(at, name) ==> l
                == "Atmos / Axis"@
            &&& !claims_name(ts, name) && !claims_name(zs, name) && !claims_name(at, name) && (
            forall|j: int| 0 <= j < ipsec.len() ==> (#[trigger] ipsec[j]).0 != name) ==> l
                == "Unknown"@
        }),
{
    let ts = tailscale::detect_spec(ifs, views(p.tailscale_ips@));
    let zs = zscaler::detect_spec(ifs, p.zscaler_installed, p.zscaler_running);
    let at = atmos::detect_spec(ifs, p.atmos_installed, p.atmos_running);
    let ipsec = views(p.ipsec@);
    let c1 = claim(ts, "Tailscale"@);
    let c2 = claim(zs, "Zscaler"@);
    let c3 = claim(at, "Atmos / Axis"@);
    let c4 = ipsec.map_values(|c: (Seq<char>, Seq<char>)| (c.0, "IPSec/IKEv2"@, c.1));
    let cs = claims(ifs, p);
    assert(cs == c1 + c2 + c3 + c4);
    let f = claims_iface_fn(name);
    let n1 = c1.len() as int;
    let n2 = n1 + c2.len();
    let n3 = n2 + c3.len();
    assert forall|j: int| 0 <= j < n1 implies #[trigger] cs[j] == c1[j] by {}
    assert forall|j: int| n1 <= j < n2 implies #[trigger] cs[j] == c2[j - n1] by {}
    assert forall|j: int| n2 <= j < n3 implies #[trigger] cs[j] == c3[j - n2] by {}
    assert forall|j: int| n3 <= j < cs.len() implies #[trigger] cs[j] == c4[j - n3] by {}
    if claims_name(ts, name) {
        lemma_first_where(cs, f, 0);
    } else if claims_name(zs, name) {
        assert forall|j: int| 0 <= j < n1 implies !f(#[trigger] cs[j]) by {}
        lemma_first_where(cs, f, n1);
    } else if claims_name(at, name) {
        assert forall|j: int| 0 <= j < n2 implies !f(#[trigger] cs[j]) by {
            if j >= n1 {
                assert(cs[j] == c2[j - n1]);
            }
        }
        lemma_first_where(cs, f, n2);
    } else if forall|j: int| 0 <= j < ipsec.len() ==> (#[trigger] ipsec[j]).0 != name {
        assert forall|j: int| 0 <= j < cs.len() implies !f(#[trigger] cs[j]) by {
            if j >= n3 {
                assert(cs[j] == c4[j - n3]);
                assert(c4[j - n3].0 == ipsec[j - n3].0);
            } else if j >= n2 {
                assert(cs[j] == c3[j - n2]);
            } else if j >= n1 {
                assert(cs[j] == c2[j - n1]);
            }
        }
        lemma_first_where(cs, f, cs.len() as int);
    }
}

/// Each tunnel row's label follows the detector priority: an interface that
/// Tailscale claims is labelled `Tailscale` whatever else claims it; then
/// Zscaler; then Atmos / Axis; an interface no detector claims is `Unknown`.
pub proof fn law_tunnel_label_priority(ifs: Seq<InterfaceV>, p: TunnelProbes)
    ensures
        forall|k: int|
            0 <= k < label_tunnels_spec(ifs, p).len() ==> {
                let t = #[trigger] label_tunnels_spec(ifs, p)[k];
                let ts = tailscale::detect_spec(ifs, views(p.tailscale_ips@));
                let zs = zscaler::detect_spec(ifs, p.zscaler_installed, p.zscaler_running);
                let at = atmos::detect_spec(ifs, p.atmos_installed, p.atmos_running);
                let ipsec = views(p.ipsec@);
                &&& claims_name(ts, t.interface) ==> t.label == "Tailscale"@
                &&& !claims_name(ts, t.interface) && claims_name(zs, t.interface) ==> t.label
                    == "Zscaler"@
                &&& !claims_name(ts, t.interface) && !claims_name(zs, t.interface) && claims_name(
                    at,
                    t.interface,
                ) ==> t.label == "Atmos / Axis"@
                &&& !claims_name(ts, t.interface) && !claims_name(zs, t.interface) && !claims_name(
                    at,
                    t.interface,
                ) && (forall|j: int| 0 <= j < ipsec.len() ==> (#[trigger] ipsec[j]).0 != t.interface)
                    ==> t.label == "Unknown"@
            },
{
    lemma_tunnel_rows(ifs, claims(ifs, p));
    assert forall|k: int| 0 <= k < label_tunnels_spec(ifs, p).len() implies {
        let t = #[trigger] label_tunnels_spec(ifs, p)[k];
        let ts = tailscale::detect_spec(ifs, views(p.tailscale_ips@));
        let zs = zscaler::detect_spec(ifs, p.zscaler_installed, p.zscaler_running);
        let at = atmos::detect_spec(ifs, p.atmos_installed, p.atmos_running);
        let ipsec = views(p.ipsec@);
        &&& claims_name(ts, t.interface) ==> t.label == "Tailscale"@
        &&& !claims_name(ts, t.interface) && claims_name(zs, t.interface) ==> t.label == "Zscaler"@
        &&& !claims_name(ts, t.interface) && !claims_name(zs, t.interface) && claims_name(
            at,
            t.interface,
        ) ==> t.label == "Atmos / Axis"@
        &&& !claims_name(ts, t.interface) && !claims_name(zs, t.interface) && !claims_name(
            at,
            t.interface,
        ) && (forall|j: int| 0 <= j < ipsec.len() ==> (#[trigger] ipsec[j]).0 != t.interface)
            ==> t.label == "Unknown"@
    } by {
        let t = label_tunnels_spec(ifs, p)[k];
        lemma_pick_priority(ifs, p, t.interface);
    }
}

/// Tailscale is attributed only on evidence: the interface it names is a
/// utun that carries one of the reported `Self.TailscaleIPs` (no address
/// range is guessed).
pub proof fn law_tailscale_needs_ip_match(ifs: Seq<InterfaceV>, ips: Seq<Seq<char>>)
    ensures
        tailscale::detect_spec(ifs, ips) matches Some((n, _)) ==> exists|k: int, j: int|
            0 <= k < ifs.len() && 0 <= j < ips.len() && #[trigger] ifs[k].name == n && starts_with(
                n,
                "utun"@,
            ) && tailscale::has_address(ifs[k], #[trigger] ips[j]),
{
    let f = tailscale::tailscale_iface_fn(ips);
    lemma_first_where_found(ifs, f);
    let k = first_where(ifs, f);
    if k >= 0 {
        lemma_first_where_found(ips, tailscale::has_address_fn(ifs[k]));
        let j = tailscale::first_ip(ifs[k], ips);
        assert(ifs[k].name == ifs[k].name && tailscale::has_address(ifs[k], ips[j]));
    }
}

/// Zscaler and Atmos / Axis are attributed only when installed (the
/// primary signal) and running (the confirming evidence).
pub proof fn law_install_and_process_required(ifs: Seq<InterfaceV>, installed: bool, running: bool)
    ensures
        zscaler::detect_spec(ifs, installed, running) is Some ==> installed && running,
        atmos::detect_spec(ifs, installed, running) is Some ==> installed && running,
{
}

/// Zscaler prefers the utun with MTU 1400: when one exists, the first such
/// interface is the one attributed.
pub proof fn law_zscaler_prefers_mtu_1400(ifs: Seq<InterfaceV>, k: int)
    requires
        0 <= k < ifs.len(),
        zscaler::utun_mtu_1400(ifs[k]),
        forall|j: int| 0 <= j < k ==> !zscaler::utun_mtu_1400(#[trigger] ifs[j]),
    ensures
        zscaler::detect_spec(ifs, true, true) matches Some((n, _)) && n == ifs[k].name,
{
    lemma_first_where(ifs, zscaler::utun_mtu_1400_fn(), k);
}

} // verus!
