//! Tailscale attribution.
//!
//! Primary signal: `tailscale status --json` returns a `Self.TailscaleIPs`
//! list which we match against utun interface addresses. We never use the
//! CGNAT range as a fallback heuristic. Reading the JSON happens outside
//! the library; the addresses are handed in.

use vstd::prelude::*;

use crate::model::{Interface, InterfaceV};
use crate::text::{first_where, has_prefix, lemma_first_where, starts_with, to_chars, to_string, views};

verus! {

/// `ip` is one of the interface's IPv4 or IPv6 addresses.
pub open spec fn has_address(i: InterfaceV, ip: Seq<char>) -> bool {
    i.inet.contains(ip) || i.inet6.contains(ip)
}

pub open spec fn has_address_fn(i: InterfaceV) -> spec_fn(Seq<char>) -> bool {
    |ip: Seq<char>| has_address(i, ip)
}

/// The index of the first Tailscale address that the interface carries.
pub open spec fn first_ip(i: InterfaceV, ips: Seq<Seq<char>>) -> int {
    first_where(ips, has_address_fn(i))
}

/// A utun interface carrying one of the Tailscale addresses.
pub open spec fn tailscale_iface(i: InterfaceV, ips: Seq<Seq<char>>) -> bool {
    starts_with(i.name, "utun"@) && first_ip(i, ips) >= 0
}

pub open spec fn tailscale_iface_fn(ips: Seq<Seq<char>>) -> spec_fn(InterfaceV) -> bool {
    |i: InterfaceV| tailscale_iface(i, ips)
}

/// The first utun (in interface order) that carries a Tailscale address,
/// with the first such address (in `ips` order) named in the description.
pub open spec fn detect_spec(ifs: Seq<InterfaceV>, ips: Seq<Seq<char>>) -> Option<(Seq<char>, Seq<char>)> {
    let k = first_where(ifs, tailscale_iface_fn(ips));
    if 0 <= k < ifs.len() {
        Some(
            (
                ifs[k].name,
                "Tailscale (Self.TailscaleIPs match: "@ + ips[first_ip(ifs[k], ips)] + ")"@,
            ),
        )
    } else {
        None
    }
}

fn contains_str(v: &Vec<String>, s: &String) -> (r: bool)
    ensures
        r == views(v@).contains(s@),
{
    let mut i: usize = 0;
    while i < v.len()
        invariant
            i <= v@.len(),
            forall|j: int| 0 <= j < i ==> #[trigger] v@[j]@ != s@,
        decreases v@.len() - i,
    {
        if v[i] == *s {
            assert(views(v@)[i as int] == s@);
            return true;
        }
        i = i + 1;
    }
    assert forall|j: int| 0 <= j < views(v@).len() implies #[trigger] views(v@)[j] != s@ by {
        assert(views(v@)[j] == v@[j]@);
    }
    false
}

fn first_ip_of(f: &Interface, ips: &[String]) -> (r: Option<usize>)
    ensures
        match r {
            Some(j) => j < ips@.len() && first_ip(f@, views(ips@)) == j as int,
            None => first_ip(f@, views(ips@)) == -1,
        },
{
    let ghost is = views(ips@);
    let ghost p = has_address_fn(f@);
    let mut j: usize = 0;
    while j < ips.len()
        invariant
            j <= ips@.len(),
            is == views(ips@),
            p == has_address_fn(f@),
            forall|k: int| 0 <= k < j ==> !p(#[trigger] is[k]),
        decreases ips@.len() - j,
    {
        assert(is[j as int] == ips@[j as int]@);
        if contains_str(&f.inet, &ips[j]) || contains_str(&f.inet6, &ips[j]) {
            proof {
                lemma_first_where(is, p, j as int);
            }
            return Some(j);
        }
        j = j + 1;
    }
    proof {
        lemma_first_where(is, p, j as int);
    }
    None
}

/// Identify which interface (if any) belongs to Tailscale, given the
/// `Self.TailscaleIPs` that `tailscale status --json` reported (empty when
/// the tool is missing or failed).
///
/// Returns `(interface_name, description)`.
pub fn detect(interfaces: &[Interface], tailscale_ips: &[String]) -> (r: Option<(String, String)>)
    ensures
        match r {
            Some((a, b)) => detect_spec(views(interfaces@), views(tailscale_ips@)) == Some((a@, b@)),
            None => detect_spec(views(interfaces@), views(tailscale_ips@)).is_none(),
        },
{
    let ghost ifs = views(interfaces@);
    let ghost ips = views(tailscale_ips@);
    let ghost p = tailscale_iface_fn(ips);
    let utun = to_chars("utun");
    let mut i: usize = 0;
    while i < interfaces.len()
        invariant
            i <= interfaces@.len(),
            ifs == views(interfaces@),
            ips == views(tailscale_ips@),
            p == tailscale_iface_fn(ips),
            utun@ == "utun"@,
            forall|j: int| 0 <= j < i ==> !p(#[trigger] ifs[j]),
        decreases interfaces@.len() - i,
    {
        let f = &interfaces[i];
        assert(ifs[i as int] == f@);
        if has_prefix(&to_chars(f.name.as_str()), &utun) {
            match first_ip_of(f, tailscale_ips) {
                Some(j) => {
                    proof {
                        lemma_first_where(ifs, p, i as int);
                    }
                    let mut d = to_chars("Tailscale (Self.TailscaleIPs match: ");
                    crate::text::push_all(&mut d, &to_chars(tailscale_ips[j].as_str()));
                    crate::text::push_all(&mut d, &to_chars(")"));
                    return Some((f.name.clone(), to_string(&d)));
                },
                None => {},
            }
        }
        i = i + 1;
    }
    proof {
        lemma_first_where(ifs, p, i as int);
    }
    None
}

} // verus!
