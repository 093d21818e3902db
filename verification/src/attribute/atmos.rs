//! Atmos / Axis attribution. Atmos Networks ZTNA ships under
//! `/Applications/Atmos.app`; Axis Security ships as `/Applications/Axis Security`.

use vstd::prelude::*;

use crate::model::{Interface, InterfaceV};
use crate::text::{first_where, lemma_first_where, starts_with, to_chars, has_prefix, to_string, views};

verus! {

/// Where the agent is installed.
pub fn install_paths() -> (r: Vec<&'static str>)
    ensures
        r@ == seq!["/Applications/Atmos.app", "/Applications/Axis Security", "/Applications/Axis Security.app"],
{
    let mut r: Vec<&'static str> = Vec::new();
    r.push("/Applications/Atmos.app");
    r.push("/Applications/Axis Security");
    r.push("/Applications/Axis Security.app");
    r
}

/// The executable-path anchors of the agent's processes.
pub fn process_anchors() -> (r: Vec<&'static str>)
    ensures
        r@ == seq!["/Applications/Atmos.app/", "/Applications/Axis Security"],
{
    let mut r: Vec<&'static str> = Vec::new();
    r.push("/Applications/Atmos.app/");
    r.push("/Applications/Axis Security");
    r
}

/// A utun interface with an IPv4 address.
pub open spec fn utun_with_v4(i: InterfaceV) -> bool {
    starts_with(i.name, "utun"@) && i.inet.len() > 0
}

pub open spec fn utun_with_v4_fn() -> spec_fn(InterfaceV) -> bool {
    |i: InterfaceV| utun_with_v4(i)
}

pub open spec fn atmos_description() -> Seq<char> {
    "Atmos / Axis (install path present, agent running)"@
}

/// The interface that Atmos / Axis is taken to own: the first utun with an
/// IPv4 address, when the agent is installed and running.
pub open spec fn detect_spec(ifs: Seq<InterfaceV>, installed: bool, running: bool) -> Option<(Seq<char>, Seq<char>)> {
    let i = first_where(ifs, utun_with_v4_fn());
    if installed && running && 0 <= i < ifs.len() {
        Some((ifs[i].name, atmos_description()))
    } else {
        None
    }
}

/// Take the first utun with a routable address; the caller dedupes. utuns
/// from Atmos/Axis typically have a v4 address set (unlike many other
/// utuns). `installed` and `running` are the install-path and process checks.
pub fn detect(interfaces: &[Interface], installed: bool, running: bool) -> (r: Option<(String, String)>)
    ensures
        match r {
            Some((a, b)) => detect_spec(views(interfaces@), installed, running) == Some((a@, b@)),
            None => detect_spec(views(interfaces@), installed, running).is_none(),
        },
{
    if !installed || !running {
        return None;
    }
    let ghost ifs = views(interfaces@);
    let utun = to_chars("utun");
    let mut i: usize = 0;
    while i < interfaces.len()
        invariant
            i <= interfaces@.len(),
            installed && running,
            ifs == views(interfaces@),
            utun@ == "utun"@,
            forall|j: int| 0 <= j < i ==> !utun_with_v4_fn()(#[trigger] ifs[j]),
        decreases interfaces@.len() - i,
    {
        let f = &interfaces[i];
        assert(ifs[i as int] == f@);
        if has_prefix(&to_chars(f.name.as_str()), &utun) && f.inet.len() > 0 {
            proof {
                lemma_first_where(ifs, utun_with_v4_fn(), i as int);
            }
            return Some(
                (
                    f.name.clone(),
                    String::from_str("Atmos / Axis (install path present, agent running)"),
                ),
            );
        }
        i = i + 1;
    }
    proof {
        lemma_first_where(ifs, utun_with_v4_fn(), i as int);
    }
    None
}

} // verus!
