//! `scutil --nwi` parser. The output has v4 and v6 blocks plus a trailing
//! `Network interfaces:` list giving the active service order.

use vstd::prelude::*;

use crate::model::{IpFamily, NetworkInfo, NetworkInfoV, ServiceEntry, ServiceEntryV};
use crate::model::strings_of;
use crate::text::{
    fold_lines, has_prefix, lemma_fold_lines_start, lemma_fold_lines_step, lemma_views_push,
    lines, same, split_once, split_once_at, split_words, starts_with, str_lines, strip_prefix,
    to_chars, to_string, trim, trim_end, trimmed, trimmed_end, views, words,
};

verus! {

pub open spec fn opt_entry(o: Option<ServiceEntry>) -> Option<ServiceEntryV> {
    match o {
        Some(e) => Some(e@),
        None => None,
    }
}

pub struct NwiState {
    pub order: Seq<Seq<char>>,
    pub services: Seq<ServiceEntryV>,
    pub family: Option<IpFamily>,
    pub current: Option<ServiceEntryV>,
}

pub open spec fn flush(services: Seq<ServiceEntryV>, current: Option<ServiceEntryV>) -> Seq<
    ServiceEntryV,
> {
    match current {
        Some(e) => services.push(e),
        None => services,
    }
}

/// An attribute line `key : val` applied to the current entry.
pub open spec fn apply_attr(e: ServiceEntryV, key: Seq<char>, val: Seq<char>) -> ServiceEntryV {
    if key == "address"@ {
        ServiceEntryV { address: Some(val), ..e }
    } else if key == "reach"@ {
        ServiceEntryV { reach: Some(val), ..e }
    } else {
        e
    }
}

/// One line of `scutil --nwi` output. The `IPv4`/`IPv6 network interface
/// information` titles set the family; `en7 : flags : ...` starts an entry;
/// `address` and `reach` lines fill it in; `Network interfaces:` gives the
/// service order. Nothing before the first family title is read but that
/// order line.
pub open spec fn nwi_step(st: NwiState, raw: Seq<char>) -> NwiState {
    let trimmed = trim(trim_end(raw));
    if trimmed.len() == 0 {
        st
    } else if starts_with(trimmed, "IPv4 network interface information"@) {
        NwiState {
            services: flush(st.services, st.current),
            current: None,
            family: Some(IpFamily::V4),
            ..st
        }
    } else if starts_with(trimmed, "IPv6 network interface information"@) {
        NwiState {
            services: flush(st.services, st.current),
            current: None,
            family: Some(IpFamily::V6),
            ..st
        }
    } else if starts_with(trimmed, "Network interfaces:"@) {
        NwiState {
            services: flush(st.services, st.current),
            current: None,
            order: words(trimmed.skip(19)),
            ..st
        }
    } else {
        match st.family {
            None => st,
            Some(fam) => if starts_with(trimmed, "REACH "@) {
                st
            } else {
                match split_once(trimmed, ":"@) {
                    None => st,
                    Some((k, v)) => {
                        let key = trim(k);
                        let val = trim(v);
                        match split_once(val, ":"@) {
                            Some((fk, rest)) if trim(fk) == "flags"@ => NwiState {
                                services: flush(st.services, st.current),
                                current: Some(
                                    ServiceEntryV {
                                        interface: key,
                                        family: fam,
                                        flags: Some(trim(rest)),
                                        address: None,
                                        reach: None,
                                    },
                                ),
                                ..st
                            },
                            _ => match st.current {
                                Some(e) => NwiState { current: Some(apply_attr(e, key, val)), ..st },
                                None => st,
                            },
                        }
                    },
                }
            },
        }
    }
}

pub open spec fn nwi_step_fn() -> spec_fn(NwiState, Seq<char>) -> NwiState {
    |st: NwiState, l: Seq<char>| nwi_step(st, l)
}

pub open spec fn nwi_start() -> NwiState {
    NwiState { order: seq![], services: seq![], family: None, current: None }
}

/// The service order and entries that `parse` finds in `input`.
pub open spec fn parse_network_info(input: Seq<char>) -> NetworkInfoV {
    let st = fold_lines(nwi_start(), lines(input), nwi_step_fn());
    NetworkInfoV { order: st.order, services: flush(st.services, st.current) }
}

fn attr(e: ServiceEntry, key: &Vec<char>, val: &Vec<char>) -> (r: ServiceEntry)
    ensures
        r@ == apply_attr(e@, key@, val@),
{
    let mut e = e;
    if same(key, &to_chars("address")) {
        e.address = Some(to_string(val));
    } else if same(key, &to_chars("reach")) {
        e.reach = Some(to_string(val));
    }
    e
}

/// Parse the output of `scutil --nwi`.
pub fn parse(input: &str) -> (info: NetworkInfo)
    ensures
        info@ == parse_network_info(input@),
{
    let ls = str_lines(input);
    let v4 = to_chars("IPv4 network interface information");
    let v6 = to_chars("IPv6 network interface information");
    let order_kw = to_chars("Network interfaces:");
    let reach_kw = to_chars("REACH ");
    let colon = to_chars(":");
    let flags_kw = to_chars("flags");
    let ghost lv = views(ls@);
    let ghost step = nwi_step_fn();
    let mut order: Vec<String> = Vec::new();
    let mut services: Vec<ServiceEntry> = Vec::new();
    let mut family: Option<IpFamily> = None;
    let mut current: Option<ServiceEntry> = None;
    proof {
        lemma_fold_lines_start(nwi_start(), lv, step);
        assert(views(services@) =~= Seq::<ServiceEntryV>::empty());
        assert(views(order@) =~= Seq::<Seq<char>>::empty());
        reveal_strlit("Network interfaces:");
    }
    let mut k: usize = 0;
    while k < ls.len()
        invariant
            k <= ls@.len(),
            lv == views(ls@),
            lv == lines(input@),
            step == nwi_step_fn(),
            v4@ == "IPv4 network interface information"@,
            v6@ == "IPv6 network interface information"@,
            order_kw@ == "Network interfaces:"@,
            order_kw@.len() == 19,
            reach_kw@ == "REACH "@,
            colon@ == ":"@,
            flags_kw@ == "flags"@,
            fold_lines(
                NwiState {
                    order: views(order@),
                    services: views(services@),
                    family,
                    current: opt_entry(current),
                },
                lv.skip(k as int),
                step,
            ) == fold_lines(nwi_start(), lv, step),
        decreases ls@.len() - k,
    {
        let ghost st = NwiState {
            order: views(order@),
            services: views(services@),
            family,
            current: opt_entry(current),
        };
        proof {
            lemma_fold_lines_step(st, lv, k as int, step);
        }
        let t = trimmed(&trimmed_end(&ls[k]));
        let is_v4 = has_prefix(&t, &v4);
        let is_v6 = has_prefix(&t, &v6);
        let order_rest = strip_prefix(&t, &order_kw);
        if t.len() == 0 {
        } else if is_v4 || is_v6 || order_rest.is_some() {
            match current {
                Some(e) => {
                    proof {
                        lemma_views_push(services@, e);
                    }
                    services.push(e);
                },
                None => {},
            }
            current = None;
            if is_v4 {
                family = Some(IpFamily::V4);
            } else if is_v6 {
                family = Some(IpFamily::V6);
            } else {
                match order_rest {
                    Some(rest) => {
                        order = strings_of(&split_words(&rest));
                    },
                    None => {},
                }
            }
        } else {
            match family {
                None => {},
                Some(fam) => if !has_prefix(&t, &reach_kw) {
                    match split_once_at(&t, &colon) {
                        None => {},
                        Some((k0, v0)) => {
                            let key = trimmed(&k0);
                            let val = trimmed(&v0);
                            let mut is_entry = false;
                            match split_once_at(&val, &colon) {
                                Some((fk, rest)) => {
                                    if same(&trimmed(&fk), &flags_kw) {
                                        is_entry = true;
                                        match current {
                                            Some(e) => {
                                                proof {
                                                    lemma_views_push(services@, e);
                                                }
                                                services.push(e);
                                            },
                                            None => {},
                                        }
                                        current = Some(
                                            ServiceEntry {
                                                interface: to_string(&key),
                                                family: fam,
                                                flags: Some(to_string(&trimmed(&rest))),
                                                address: None,
                                                reach: None,
                                            },
                                        );
                                    }
                                },
                                None => {},
                            }
                            if !is_entry {
                                current = match current {
                                    Some(e) => Some(attr(e, &key, &val)),
                                    None => None,
                                };
                            }
                        },
                    }
                },
            }
        }
        k = k + 1;
    }
    proof {
        lemma_fold_lines_start(
            NwiState {
                order: views(order@),
                services: views(services@),
                family,
                current: opt_entry(current),
            },
            lv,
            step,
        );
    }
    match current {
        Some(e) => {
            proof {
                lemma_views_push(services@, e);
            }
            services.push(e);
        },
        None => {},
    }
    NetworkInfo { order, services }
}

} // verus!
