//! Zscaler attribution.
//!
//! The Zscaler Client Connector installs to `/Applications/Zscaler/` and
//! runs daemons under `/Applications/Zscaler/`. Their tunnel is typically
//! MTU 1400, and the peer IP is in a known range (we don't enforce that
//! strictly; we just use it as confirming evidence).

use vstd::prelude::*;

use crate::attribute::atmos::{utun_with_v4, utun_with_v4_fn};
use crate::model::{Interface, InterfaceV};
use crate::text::{
    dec_chars, dec_str, first_where, has_prefix, lemma_first_where, starts_with, to_chars,
    to_string, views,
};

verus! {

/// Where the Client Connector is installed.
pub fn install_paths() -> (r: Vec<&'static str>)
    ensures
        r@ == seq!["/Applications/Zscaler", "/Library/Application Support/Zscaler"],
{
    let mut r: Vec<&'static str> = Vec::new();
    r.push("/Applications/Zscaler");
    r.push("/Library/Application Support/Zscaler");
    r
}

/// The executable-path anchor of its daemons.
pub fn process_anchor() -> (r: &'static str)
    ensures
        r@ == "/Applications/Zscaler/"@,
{
    "/Applications/Zscaler/"
}

/// A utun interface with MTU 1400.
pub open spec fn utun_mtu_1400(i: InterfaceV) -> bool {
    starts_with(i.name, "utun"@) && i.mtu == Some(1400u32)
}

pub open spec fn utun_mtu_1400_fn() -> spec_fn(InterfaceV) -> bool {
    |i: InterfaceV| utun_mtu_1400(i)
}

/// The interface Zscaler is taken to own: the first utun with MTU 1400,
/// else the first utun with an IPv4 address; -1 if neither exists.
pub open spec fn chosen_index(ifs: Seq<InterfaceV>) -> int {
    let by_mtu = first_where(ifs, utun_mtu_1400_fn());
    if by_mtu >= 0 {
        by_mtu
    } else {
        first_where(ifs, utun_with_v4_fn())
    }
}

pub open spec fn zscaler_description(mtu: Option<u32>) -> Seq<char> {
    "Zscaler (install path present, daemon running, MTU "@ + match mtu {
        Some(m) => dec_str(m as nat),
        None => "?"@,
    } + ")"@
}

pub open spec fn detect_spec(ifs: Seq<InterfaceV>, installed: bool, running: bool) -> Option<
    (Seq<char>, Seq<char>),
> {
    let i = chosen_index(ifs);
    if installed && running && 0 <= i < ifs.len() {
        Some((ifs[i].name, zscaler_description(ifs[i].mtu)))
    } else {
        None
    }
}

/// The index of the first interface satisfying the MTU (`by_mtu`) or the
/// IPv4 (`!by_mtu`) rule.
fn first_utun(interfaces: &[Interface], by_mtu: bool) -> (r: Option<usize>)
    ensures
        ({
            let p = if by_mtu {
                utun_mtu_1400_fn()
            } else {
                utun_with_v4_fn()
            };
            match r {
                Some(i) => i < interfaces@.len() && first_where(views(interfaces@), p) == i as int,
                None => first_where(views(interfaces@), p) == -1,
            }
        }),
{
    let ghost ifs = views(interfaces@);
    let ghost p = if by_mtu {
        utun_mtu_1400_fn()
    } else {
        utun_with_v4_fn()
    };
    let utun = to_chars("utun");
    let mut i: usize = 0;
    while i < interfaces.len()
        invariant
            i <= interfaces@.len(),
            ifs == views(interfaces@),
            p == if by_mtu {
                utun_mtu_1400_fn()
            } else {
                utun_with_v4_fn()
            },
            utun@ == "utun"@,
            forall|j: int| 0 <= j < i ==> !p(#[trigger] ifs[j]),
        decreases interfaces@.len() - i,
    {
        let f = &interfaces[i];
        assert(ifs[i as int] == f@);
        let ok = has_prefix(&to_chars(f.name.as_str()), &utun) && if by_mtu {
            f.mtu == Some(1400u32)
        } else {
            f.inet.len() > 0
        };
        if ok {
            proof {
                lemma_first_where(ifs, p, i as int);
            }
            return Some(i);
        }
        i = i + 1;
    }
    proof {
        lemma_first_where(ifs, p, i as int);
    }
    None
}

/// Pick the first utun with MTU == 1400. Fall back to first utun with an
/// inet address if no exact-MTU match exists. `installed` and `running` are
/// the install-path and daemon checks.
pub fn detect(interfaces: &[Interface], installed: bool, running: bool) -> (r: Option<(String, String)>)
    ensures
        match r {
            Some((a, b)) => detect_spec(views(interfaces@), installed, running) == Some((a@, b@)),
            None => detect_spec(views(interfaces@), installed, running).is_none(),
        },
{
    if !installed || !running {
        return None;
    }
    let chosen = match first_utun(interfaces, true) {
        Some(i) => Some(i),
        None => first_utun(interfaces, false),
    };
    match chosen {
        None => None,
        Some(i) => {
            let f = &interfaces[i];
            let m = match f.mtu {
                Some(m) => dec_chars(m as u64),
                None => to_chars("?"),
            };
            let mut d = to_chars("Zscaler (install path present, daemon running, MTU ");
            crate::text::push_all(&mut d, &m);
            crate::text::push_all(&mut d, &to_chars(")"));
            assert(views(interfaces@)[i as int] == f@);
            Some((f.name.clone(), to_string(&d)))
        },
    }
}

} // verus!
