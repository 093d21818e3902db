//! Focused-lookup logic.
//!
//! A hostname is resolved with `dig`, the kernel is asked how it would route
//! the result with `route get`, and the resolver is correlated against the
//! `scutil --dns` layout already collected. Running those commands, and
//! deciding which strings are IP addresses (`std::net`), happens outside the
//! library; what follows from their results is here.

use vstd::prelude::*;

use crate::model::{
    opt_str, LookupResult, LookupResultV, Resolver, ResolverScope, ResolverV, Tunnel, TunnelV,
};
use crate::text::{
    ends_with, fold_lines, has_suffix, lemma_fold_lines_start, lemma_fold_lines_step,
    lemma_position, lemma_views_push, lines, lowercase, position, push_all, same, split_once,
    split_once_at, str_lines, to_chars, to_lowercase, to_string, trim, trimmed, views,
};

verus! {

// ---------------------------------------------------------------------------
// `route get`
// ---------------------------------------------------------------------------

/// Parsed output of `route get <ip>`.
#[derive(Debug)]
pub struct RouteGet {
    pub destination: Option<String>,
    pub gateway: Option<String>,
    pub interface: Option<String>,
    pub flags: Option<String>,
}

pub struct RouteGetV {
    pub destination: Option<Seq<char>>,
    pub gateway: Option<Seq<char>>,
    pub interface: Option<Seq<char>>,
    pub flags: Option<Seq<char>>,
}

impl View for RouteGet {
    type V = RouteGetV;

    open spec fn view(&self) -> RouteGetV {
        RouteGetV {
            destination: opt_str(self.destination),
            gateway: opt_str(self.gateway),
            interface: opt_str(self.interface),
            flags: opt_str(self.flags),
        }
    }
}

pub open spec fn empty_route_get() -> RouteGetV {
    RouteGetV { destination: None, gateway: None, interface: None, flags: None }
}

impl Default for RouteGet {
    fn default() -> (r: Self)
        ensures
            r@ == empty_route_get(),
    {
        RouteGet { destination: None, gateway: None, interface: None, flags: None }
    }
}

/// One line of `route get` output: `key: value` with the key one of
/// `destination`, `gateway`, `interface`, `flags`; a later line for the same
/// key replaces an earlier one.
pub open spec fn route_get_step(rg: RouteGetV, raw: Seq<char>) -> RouteGetV {
    match split_once(trim(raw), ":"@) {
        None => rg,
        Some((k, v)) => {
            let key = trim(k);
            let val = trim(v);
            if key == "destination"@ {
                RouteGetV { destination: Some(val), ..rg }
            } else if key == "gateway"@ {
                RouteGetV { gateway: Some(val), ..rg }
            } else if key == "interface"@ {
                RouteGetV { interface: Some(val), ..rg }
            } else if key == "flags"@ {
                RouteGetV { flags: Some(val), ..rg }
            } else {
                rg
            }
        },
    }
}

pub open spec fn route_get_step_fn() -> spec_fn(RouteGetV, Seq<char>) -> RouteGetV {
    |rg: RouteGetV, l: Seq<char>| route_get_step(rg, l)
}

pub open spec fn parse_route_get_spec(input: Seq<char>) -> RouteGetV {
    fold_lines(empty_route_get(), lines(input), route_get_step_fn())
}

pub fn parse_route_get(input: &str) -> (r: RouteGet)
    ensures
        r@ == parse_route_get_spec(input@),
{
    let ls = str_lines(input);
    let colon = to_chars(":");
    let kd = to_chars("destination");
    let kg = to_chars("gateway");
    let ki = to_chars("interface");
    let kf = to_chars("flags");
    let ghost lv = views(ls@);
    let mut r = RouteGet::default();
    proof {
        lemma_fold_lines_start(empty_route_get(), lv, route_get_step_fn());
    }
    let mut k: usize = 0;
    while k < ls.len()
        invariant
            k <= ls@.len(),
            lv == views(ls@),
            lv == lines(input@),
            colon@ == ":"@,
            kd@ == "destination"@,
            kg@ == "gateway"@,
            ki@ == "interface"@,
            kf@ == "flags"@,
            fold_lines(r@, lv.skip(k as int), route_get_step_fn()) == fold_lines(
                empty_route_get(),
                lv,
                route_get_step_fn(),
            ),
        decreases ls@.len() - k,
    {
        proof {
            lemma_fold_lines_step(r@, lv, k as int, route_get_step_fn());
        }
        match split_once_at(&trimmed(&ls[k]), &colon) {
            None => {},
            Some((k0, v0)) => {
                let key = trimmed(&k0);
                let val = to_string(&trimmed(&v0));
                if same(&key, &kd) {
                    r.destination = Some(val);
                } else if same(&key, &kg) {
                    r.gateway = Some(val);
                } else if same(&key, &ki) {
                    r.interface = Some(val);
                } else if same(&key, &kf) {
                    r.flags = Some(val);
                }
            },
        }
        k = k + 1;
    }
    proof {
        lemma_fold_lines_start(r@, lv, route_get_step_fn());
    }
    r
}

// ---------------------------------------------------------------------------
// Resolver correlation
// ---------------------------------------------------------------------------

/// `str::trim_end_matches('.')`.
pub open spec fn trim_dots(s: Seq<char>) -> Seq<char>
    decreases s.len(),
{
    if s.len() > 0 && s.last() == '.' {
        trim_dots(s.drop_last())
    } else {
        s
    }
}

fn without_dots(s: &Vec<char>) -> (r: Vec<char>)
    ensures
        r@ == trim_dots(s@),
{
    let mut e = s.len();
    assert(s@.take(e as int) =~= s@);
    while e > 0 && s[e - 1] == '.'
        invariant
            e <= s@.len(),
            trim_dots(s@) == trim_dots(s@.take(e as int)),
        decreases e,
    {
        assert(s@.take(e as int).drop_last() =~= s@.take(e - 1));
        e = e - 1;
    }
    assert(s@.take(e as int) =~= s@.subrange(0, e as int));
    crate::text::slice_of(s, 0, e)
}

/// The number of bytes of the UTF-8 encoding of `c`.
pub open spec fn char_utf8_len(c: char) -> nat {
    let n = c as u32;
    if n < 0x80 {
        1
    } else if n < 0x800 {
        2
    } else if n < 0x10000 {
        3
    } else {
        4
    }
}

/// The number of bytes of the UTF-8 encoding of `s` (`str::len`).
pub open spec fn utf8_len(s: Seq<char>) -> nat
    decreases s.len(),
{
    if s.len() == 0 {
        0
    } else {
        utf8_len(s.drop_last()) + char_utf8_len(s.last())
    }
}

fn byte_len(s: &Vec<char>) -> (n: u128)
    ensures
        n as nat == utf8_len(s@),
{
    let mut n: u128 = 0;
    let mut i: usize = 0;
    while i < s.len()
        invariant
            i <= s@.len(),
            n as nat == utf8_len(s@.take(i as int)),
            n <= 4 * i,
        decreases s@.len() - i,
    {
        let c = s[i] as u32;
        let w: u128 = if c < 0x80 {
            1
        } else if c < 0x800 {
            2
        } else if c < 0x10000 {
            3
        } else {
            4
        };
        assert(s@.take(i + 1).drop_last() =~= s@.take(i as int));
        n = n + w;
        i = i + 1;
    }
    assert(s@.take(i as int) =~= s@);
    n
}

/// The lower-cased domain of a resolver without trailing dots.
pub open spec fn domain_key(r: ResolverV) -> Option<Seq<char>> {
    match r.domain {
        Some(d) => Some(lowercase(trim_dots(d))),
        None => None,
    }
}

/// `host` is the domain `d` or lies under it.
pub open spec fn host_matches(host: Seq<char>, d: Seq<char>) -> bool {
    d.len() > 0 && (host == d || ends_with(host, seq!['.'] + d))
}

/// The lower-cased domain keys of the resolvers, in order.
pub open spec fn domain_keys(rs: Seq<ResolverV>) -> Seq<Option<Seq<char>>> {
    rs.map_values(|r: ResolverV| domain_key(r))
}

/// The characters of each optional string.
pub open spec fn opt_views(keys: Seq<Option<String>>) -> Seq<Option<Seq<char>>> {
    keys.map_values(|k: Option<String>| opt_str(k))
}

/// The index of the key that matches `host` with the most bytes (the first
/// of those), with that length; (-1, 0) if none matches.
pub open spec fn best_key(host: Seq<char>, keys: Seq<Option<Seq<char>>>) -> (int, nat)
    decreases keys.len(),
{
    if keys.len() == 0 {
        (-1, 0)
    } else {
        let (bi, bl) = best_key(host, keys.drop_last());
        match keys.last() {
            Some(d) => if host_matches(host, d) && (bi < 0 || utf8_len(d) > bl) {
                (keys.len() - 1, utf8_len(d))
            } else {
                (bi, bl)
            },
            None => (bi, bl),
        }
    }
}

/// The sort key of the fallback: `order`, with a missing order last.
pub open spec fn order_key(r: ResolverV) -> nat {
    match r.order {
        Some(o) => o as nat,
        None => u64::MAX as nat,
    }
}

pub open spec fn fallback_candidate(r: ResolverV) -> bool {
    r.scope == ResolverScope::Default && r.nameservers.len() > 0
}

/// The first default resolver with nameservers and the lowest order key, or -1.
pub open spec fn fallback_index(rs: Seq<ResolverV>) -> int
    decreases rs.len(),
{
    if rs.len() == 0 {
        -1
    } else {
        let m = fallback_index(rs.drop_last());
        if fallback_candidate(rs.last()) && (m < 0 || order_key(rs.last()) < order_key(rs[m])) {
            rs.len() - 1
        } else {
            m
        }
    }
}

/// The index of the resolver picked for the lower-cased host `host`, given
/// each resolver's lower-cased domain key, or -1: for a hostname, the
/// resolver whose key matches it with the most bytes; otherwise, and for an
/// IP address, the default resolver with nameservers and the lowest `order`.
pub open spec fn correlate_keys_index(
    host: Seq<char>,
    keys: Seq<Option<Seq<char>>>,
    target_is_ip: bool,
    rs: Seq<ResolverV>,
) -> int {
    let b = best_key(host, keys).0;
    if !target_is_ip && b >= 0 {
        b
    } else {
        fallback_index(rs)
    }
}

/// The index of the resolver that `correlate_resolver` picks, or -1: the
/// host and the domains are compared without trailing dots and lower-cased.
pub open spec fn correlate_index(target: Seq<char>, target_is_ip: bool, rs: Seq<ResolverV>) -> int {
    correlate_keys_index(lowercase(trim_dots(target)), domain_keys(rs), target_is_ip, rs)
}

pub proof fn lemma_best_key_bounds(host: Seq<char>, keys: Seq<Option<Seq<char>>>)
    ensures
        -1 <= best_key(host, keys).0 < keys.len(),
        best_key(host, keys).0 >= 0 ==> keys[best_key(host, keys).0] is Some
            && host_matches(host, keys[best_key(host, keys).0]->0)
            && best_key(host, keys).1 == utf8_len(keys[best_key(host, keys).0]->0),
        best_key(host, keys).0 < 0 ==> forall|i: int|
            0 <= i < keys.len() ==> !(#[trigger] keys[i] matches Some(d) && host_matches(host, d)),
        forall|i: int|
            0 <= i < keys.len() ==> (#[trigger] keys[i] matches Some(d) ==> (host_matches(host, d)
                ==> utf8_len(d) <= best_key(host, keys).1)),
    decreases keys.len(),
{
    if keys.len() > 0 {
        let p = keys.drop_last();
        lemma_best_key_bounds(host, p);
        let n = keys.len() - 1;
        assert forall|i: int| 0 <= i < p.len() implies #[trigger] p[i] == keys[i] by {}
        let b = best_key(host, keys);
        assert forall|i: int| 0 <= i < keys.len() implies (#[trigger] keys[i] matches Some(d) ==> (
        host_matches(host, d) ==> utf8_len(d) <= b.1)) by {
            if i < n {
                assert(p[i] == keys[i]);
            }
        }
        if b.0 < 0 {
            assert forall|i: int| 0 <= i < keys.len() implies !(#[trigger] keys[i] matches Some(d)
                && host_matches(host, d)) by {
                if i < n {
                    assert(p[i] == keys[i]);
                }
            }
        }
    }
}

pub proof fn lemma_fallback_bounds(rs: Seq<ResolverV>)
    ensures
        -1 <= fallback_index(rs) < rs.len(),
        fallback_index(rs) >= 0 ==> fallback_candidate(rs[fallback_index(rs)]),
        fallback_index(rs) < 0 ==> forall|i: int| 0 <= i < rs.len() ==> !fallback_candidate(#[trigger] rs[i]),
        fallback_index(rs) >= 0 ==> forall|i: int|
            0 <= i < rs.len() && fallback_candidate(#[trigger] rs[i]) ==> order_key(rs[fallback_index(rs)]) <= order_key(rs[i]),
    decreases rs.len(),
{
    if rs.len() > 0 {
        let p = rs.drop_last();
        lemma_fallback_bounds(p);
        let n = rs.len() - 1;
        assert forall|i: int| 0 <= i < p.len() implies #[trigger] p[i] == rs[i] by {}
        let m = fallback_index(rs);
        if m < 0 {
            assert forall|i: int| 0 <= i < rs.len() implies !fallback_candidate(#[trigger] rs[i]) by {
                if i < n {
                    assert(p[i] == rs[i]);
                }
            }
        } else {
            assert forall|i: int| 0 <= i < rs.len() && fallback_candidate(#[trigger] rs[i]) implies order_key(
                rs[m],
            ) <= order_key(rs[i]) by {
                if i < n {
                    assert(p[i] == rs[i]);
                }
            }
        }
    }
}

/// The pick of `correlate_resolver`, given the lower-cased target without
/// trailing dots (`host`) and each resolver's lower-cased domain without
/// trailing dots (`keys[i]` for `resolvers[i]`, `None` without a domain).
///
/// The resolver whose key is the longest match of the host (in bytes;
/// equal to it, or a suffix after a `.`) wins. For bare IPs (`target_is_ip`)
/// nothing matches and we fall through to the default resolver with
/// nameservers and the lowest `order`.
pub fn correlate_by_keys<'a>(
    host: &str,
    keys: &[Option<String>],
    target_is_ip: bool,
    resolvers: &'a [Resolver],
) -> (r: Option<&'a Resolver>)
    requires
        keys@.len() == resolvers@.len(),
    ensures
        ({
            let i = correlate_keys_index(host@, opt_views(keys@), target_is_ip, views(resolvers@));
            match r {
                Some(x) => 0 <= i < resolvers@.len() && x == resolvers@[i],
                None => i == -1,
            }
        }),
{
    let ghost rs = views(resolvers@);
    let ghost ks = opt_views(keys@);
    let host = to_chars(host);
    let mut best: Option<usize> = None;
    let mut best_len: u128 = 0;
    if !target_is_ip {
        let mut i: usize = 0;
        while i < keys.len()
            invariant
                i <= keys@.len(),
                keys@.len() == resolvers@.len(),
                ks == opt_views(keys@),
                best_key(host@, ks.take(i as int)) == (match best {
                    Some(b) => b as int,
                    None => -1,
                }, best_len as nat),
                best matches Some(b) ==> b < i,
            decreases keys@.len() - i,
        {
            let ghost p = ks.take(i + 1);
            assert(p.drop_last() =~= ks.take(i as int));
            assert(p.last() == opt_str(keys@[i as int]));
            match &keys[i] {
                Some(k) => {
                    let key = to_chars(k.as_str());
                    let mut dotted: Vec<char> = Vec::new();
                    dotted.push('.');
                    push_all(&mut dotted, &key);
                    assert(dotted@ =~= seq!['.'] + key@);
                    if key.len() > 0 && (same(&host, &key) || has_suffix(&host, &dotted)) {
                        let len = byte_len(&key);
                        if best.is_none() || len > best_len {
                            best = Some(i);
                            best_len = len;
                        }
                    }
                },
                None => {},
            }
            i = i + 1;
        }
        assert(ks.take(i as int) =~= ks);
    }
    if let Some(b) = best {
        return Some(&resolvers[b]);
    }
    proof {
        if !target_is_ip {
            assert(best_key(host@, ks).0 == -1);
        }
    }
    let mut m: Option<usize> = None;
    let mut i: usize = 0;
    while i < resolvers.len()
        invariant
            i <= resolvers@.len(),
            rs == views(resolvers@),
            fallback_index(rs.take(i as int)) == match m {
                Some(b) => b as int,
                None => -1,
            },
            m matches Some(b) ==> b < i,
        decreases resolvers@.len() - i,
    {
        let ghost p = rs.take(i + 1);
        assert(p.drop_last() =~= rs.take(i as int));
        assert(p.last() == resolvers@[i as int]@);
        let r = &resolvers[i];
        let eligible = match r.scope {
            ResolverScope::Default => r.nameservers.len() > 0,
            ResolverScope::Scoped => false,
        };
        assert(views(r.nameservers@).len() == r.nameservers@.len());
        if eligible {
            let key: u64 = match r.order {
                Some(o) => o,
                None => u64::MAX,
            };
            let better = match m {
                None => true,
                Some(b) => {
                    let cur: u64 = match resolvers[b].order {
                        Some(o) => o,
                        None => u64::MAX,
                    };
                    assert(p[b as int] == resolvers@[b as int]@);
                    key < cur
                },
            };
            if better {
                m = Some(i);
            }
        }
        i = i + 1;
    }
    assert(rs.take(i as int) =~= rs);
    match m {
        Some(b) => Some(&resolvers[b]),
        None => None,
    }
}

/// Correlate a hostname/IP target against parsed resolvers.
///
/// Picks the resolver whose `domain` is the longest suffix match of the
/// hostname, both compared without trailing dots and lower-cased. For bare
/// IPs (`target_is_ip`, decided by the caller with `std::net::IpAddr`'s
/// parser) nothing matches and we fall through to the default resolver with
/// nameservers and the lowest `order`.
pub fn correlate_resolver<'a>(target: &str, target_is_ip: bool, resolvers: &'a [Resolver]) -> (r:
    Option<&'a Resolver>)
    ensures
        ({
            let i = correlate_index(target@, target_is_ip, views(resolvers@));
            match r {
                Some(x) => 0 <= i < resolvers@.len() && x == resolvers@[i],
                None => i == -1,
            }
        }),
{
    let ghost rs = views(resolvers@);
    let host = to_string(&to_lowercase(&without_dots(&to_chars(target))));
    let mut keys: Vec<Option<String>> = Vec::new();
    let mut i: usize = 0;
    while i < resolvers.len()
        invariant
            i <= resolvers@.len(),
            rs == views(resolvers@),
            keys@.len() == i,
            opt_views(keys@) == domain_keys(rs.take(i as int)),
        decreases resolvers@.len() - i,
    {
        let key = match &resolvers[i].domain {
            Some(d) => Some(to_string(&to_lowercase(&without_dots(&to_chars(d.as_str()))))),
            None => None,
        };
        assert(opt_str(key) == domain_key(resolvers@[i as int]@));
        let ghost before = keys@;
        keys.push(key);
        proof {
            assert forall|j: int| 0 <= j < i + 1 implies #[trigger] opt_views(keys@)[j] == domain_keys(
                rs.take(i + 1),
            )[j] by {
                if j < i {
                    assert(keys@[j] == before[j]);
                    assert(opt_views(before)[j] == domain_keys(rs.take(i as int))[j]);
                    assert(rs.take(i + 1)[j] == rs.take(i as int)[j]);
                } else {
                    assert(rs.take(i + 1)[j] == resolvers@[i as int]@);
                }
            }
        }
        assert(opt_views(keys@) =~= domain_keys(rs.take(i + 1)));
        i = i + 1;
    }
    assert(rs.take(i as int) =~= rs);
    correlate_by_keys(host.as_str(), keys.as_slice(), target_is_ip, resolvers)
}

// ---------------------------------------------------------------------------
// Verdict and labels
// ---------------------------------------------------------------------------

/// The verdict of a lookup: the egress interface (or `(unknown)`), its
/// tunnel label if any, and the application-layer caveat.
pub open spec fn verdict_text(target: Seq<char>, iface: Option<Seq<char>>, label: Option<Seq<char>>) -> Seq<char> {
    "Per the IP routing table, traffic to "@ + target + " exits via "@ + match iface {
        Some(i) => i,
        None => "(unknown)"@,
    } + match label {
        Some(l) => " ("@ + l + ")"@,
        None => seq![],
    } + ".\nApplication-layer tools may override this. Run `whichway sockets` as\nroot to see live per-process connections."@
}

/// Build the verdict string for a focused lookup. We keep this in a single
/// place so the CLI and the web UI can render identical text.
pub fn build_verdict(lookup: &LookupResult) -> (s: String)
    ensures
        s@ == verdict_text(lookup.target@, opt_str(lookup.interface), opt_str(lookup.label)),
{
    let mut v = to_chars("Per the IP routing table, traffic to ");
    push_all(&mut v, &to_chars(lookup.target.as_str()));
    push_all(&mut v, &to_chars(" exits via "));
    match &lookup.interface {
        Some(i) => push_all(&mut v, &to_chars(i.as_str())),
        None => push_all(&mut v, &to_chars("(unknown)")),
    }
    match &lookup.label {
        Some(l) => {
            push_all(&mut v, &to_chars(" ("));
            push_all(&mut v, &to_chars(l.as_str()));
            push_all(&mut v, &to_chars(")"));
        },
        None => {},
    }
    push_all(
        &mut v,
        &to_chars(
            ".\nApplication-layer tools may override this. Run `whichway sockets` as\nroot to see live per-process connections.",
        ),
    );
    let ghost tail = ".\nApplication-layer tools may override this. Run `whichway sockets` as\nroot to see live per-process connections."@;
    assert(v@ =~= verdict_text(lookup.target@, opt_str(lookup.interface), opt_str(lookup.label)));
    to_string(&v)
}

/// The interface names of a sequence of tunnels.
pub open spec fn tunnel_ifaces(ts: Seq<TunnelV>) -> Seq<Seq<char>> {
    ts.map_values(|t: TunnelV| t.interface)
}

/// The label of the first tunnel on `iface`, if any.
pub open spec fn tunnel_label(iface: Seq<char>, ts: Seq<TunnelV>) -> Option<Seq<char>> {
    let i = position(tunnel_ifaces(ts), iface);
    if 0 <= i < ts.len() {
        Some(ts[i].label)
    } else {
        None
    }
}

/// Apply tunnel attribution to a route interface. We look up by interface
/// name; on no match the label stays `None`.
pub fn label_for_interface(iface: &str, tunnels: &[Tunnel]) -> (r: Option<String>)
    ensures
        opt_str(r) == tunnel_label(iface@, views(tunnels@)),
{
    let ghost ts = views(tunnels@);
    let name = String::from_str(iface);
    let mut i: usize = 0;
    while i < tunnels.len()
        invariant
            i <= tunnels@.len(),
            ts == views(tunnels@),
            name@ == iface@,
            forall|j: int| 0 <= j < i ==> #[trigger] tunnel_ifaces(ts)[j] != iface@,
        decreases tunnels@.len() - i,
    {
        assert(tunnel_ifaces(ts)[i as int] == tunnels@[i as int].interface@);
        if tunnels[i].interface == name {
            proof {
                lemma_position(tunnel_ifaces(ts), iface@, i as int);
            }
            return Some(tunnels[i].label.clone());
        }
        i = i + 1;
    }
    proof {
        lemma_position(tunnel_ifaces(ts), iface@, i as int);
    }
    None
}

// ---------------------------------------------------------------------------
// Lookup assembly
// ---------------------------------------------------------------------------

/// The address that `route get` is asked about: the first resolved address
/// that is an IPv4 address, else the target itself.
pub open spec fn route_target_spec(target: Seq<char>, resolved: Seq<Seq<char>>, is_v4: Seq<bool>) -> Seq<char> {
    let i = position(is_v4, true);
    if 0 <= i < resolved.len() {
        resolved[i]
    } else {
        target
    }
}

/// Picks the address for `route get`. `resolved_is_v4[i]` tells whether
/// `resolved[i]` parses as an `Ipv4Addr` (decided by the caller).
pub fn route_target(target: &str, resolved: &[String], resolved_is_v4: &[bool]) -> (r: String)
    requires
        resolved@.len() == resolved_is_v4@.len(),
    ensures
        r@ == route_target_spec(target@, views(resolved@), resolved_is_v4@),
{
    let mut i: usize = 0;
    while i < resolved_is_v4.len()
        invariant
            i <= resolved_is_v4@.len(),
            resolved@.len() == resolved_is_v4@.len(),
            forall|j: int| 0 <= j < i ==> #[trigger] resolved_is_v4@[j] != true,
        decreases resolved_is_v4@.len() - i,
    {
        if resolved_is_v4[i] {
            proof {
                lemma_position(resolved_is_v4@, true, i as int);
            }
            return resolved[i].clone();
        }
        i = i + 1;
    }
    proof {
        lemma_position(resolved_is_v4@, true, i as int);
    }
    String::from_str(target)
}

/// The trimmed non-empty lines of `dig +short` output.
pub open spec fn answer_step(out: Seq<Seq<char>>, raw: Seq<char>) -> Seq<Seq<char>> {
    let l = trim(raw);
    if l.len() > 0 {
        out.push(l)
    } else {
        out
    }
}

pub open spec fn answer_step_fn() -> spec_fn(Seq<Seq<char>>, Seq<char>) -> Seq<Seq<char>> {
    |out: Seq<Seq<char>>, l: Seq<char>| answer_step(out, l)
}

pub open spec fn answer_lines_spec(out: Seq<char>) -> Seq<Seq<char>> {
    fold_lines(seq![], lines(out), answer_step_fn())
}

/// The candidate answers in `dig +short` output: one per non-empty line,
/// trimmed. (Which of them are addresses is decided by the caller.)
pub fn answer_lines(out: &str) -> (r: Vec<String>)
    ensures
        views(r@) == answer_lines_spec(out@),
{
    let ls = str_lines(out);
    let ghost lv = views(ls@);
    let mut r: Vec<String> = Vec::new();
    proof {
        lemma_fold_lines_start(seq![], lv, answer_step_fn());
        assert(views(r@) =~= Seq::<Seq<char>>::empty());
    }
    let mut k: usize = 0;
    while k < ls.len()
        invariant
            k <= ls@.len(),
            lv == views(ls@),
            fold_lines(views(r@), lv.skip(k as int), answer_step_fn()) == fold_lines(
                seq![],
                lv,
                answer_step_fn(),
            ),
        decreases ls@.len() - k,
    {
        proof {
            lemma_fold_lines_step(views(r@), lv, k as int, answer_step_fn());
        }
        let l = trimmed(&ls[k]);
        if l.len() > 0 {
            let s = to_string(&l);
            proof {
                lemma_views_push(r@, s);
            }
            r.push(s);
        }
        k = k + 1;
    }
    proof {
        lemma_fold_lines_start(views(r@), lv, answer_step_fn());
    }
    r
}

/// What a focused lookup reports, from the target, its resolved addresses,
/// the parsed `route get` answer and the already-collected resolvers and
/// tunnels.
pub open spec fn lookup_spec(
    target: Seq<char>,
    target_is_ip: bool,
    resolved: Seq<Seq<char>>,
    rg: RouteGetV,
    rs: Seq<ResolverV>,
    ts: Seq<TunnelV>,
) -> LookupResultV {
    let m = correlate_index(target, target_is_ip, rs);
    let label = match rg.interface {
        Some(i) => tunnel_label(i, ts),
        None => None,
    };
    LookupResultV {
        target,
        resolved,
        resolver_number: if m >= 0 {
            Some(rs[m].number)
        } else {
            None
        },
        resolver_match: if m >= 0 {
            rs[m].domain
        } else {
            None
        },
        resolver_nameservers: if m >= 0 {
            rs[m].nameservers
        } else {
            seq![]
        },
        interface: rg.interface,
        gateway: rg.gateway,
        destination: rg.destination,
        flags: rg.flags,
        label,
        verdict: verdict_text(target, rg.interface, label),
    }
}

fn copy_opt(o: &Option<String>) -> (r: Option<String>)
    ensures
        opt_str(r) == opt_str(*o),
{
    match o {
        Some(s) => Some(s.clone()),
        None => None,
    }
}

fn copy_strings(v: &Vec<String>) -> (r: Vec<String>)
    ensures
        views(r@) == views(v@),
{
    let mut r: Vec<String> = Vec::new();
    let mut i: usize = 0;
    while i < v.len()
        invariant
            i <= v@.len(),
            views(r@) == views(v@.take(i as int)),
        decreases v@.len() - i,
    {
        let s = v[i].clone();
        proof {
            lemma_views_push(r@, s);
            assert(views(v@.take(i + 1)) =~= views(v@.take(i as int)).push(v@[i as int]@));
        }
        r.push(s);
        i = i + 1;
    }
    assert(v@.take(i as int) =~= v@);
    r
}

/// Top-level lookup logic. `resolvers` and `tunnels` come from the
/// already-collected summary; `route_get_output` is the output of
/// `route -n get`, if that command succeeded.
pub fn lookup(
    target: &str,
    target_is_ip: bool,
    resolved: Vec<String>,
    route_get_output: Option<&str>,
    resolvers: &[Resolver],
    tunnels: &[Tunnel],
) -> (r: LookupResult)
    ensures
        r@ == lookup_spec(
            target@,
            target_is_ip,
            views(resolved@),
            match route_get_output {
                Some(o) => parse_route_get_spec(o@),
                None => empty_route_get(),
            },
            views(resolvers@),
            views(tunnels@),
        ),
{
    let rg = match route_get_output {
        Some(o) => parse_route_get(o),
        None => RouteGet::default(),
    };
    let matched = correlate_resolver(target, target_is_ip, resolvers);
    let label = match &rg.interface {
        Some(i) => label_for_interface(i.as_str(), tunnels),
        None => None,
    };
    let (resolver_number, resolver_match, resolver_nameservers) = match matched {
        Some(m) => (Some(m.number), copy_opt(&m.domain), copy_strings(&m.nameservers)),
        None => {
            let none: Vec<String> = Vec::new();
            assert(views(none@) =~= Seq::<Seq<char>>::empty());
            (None, None, none)
        },
    };
    let mut result = LookupResult {
        target: String::from_str(target),
        resolved,
        resolver_number,
        resolver_match,
        resolver_nameservers,
        interface: rg.interface,
        gateway: rg.gateway,
        destination: rg.destination,
        flags: rg.flags,
        label,
        verdict: String::new(),
    };
    result.verdict = build_verdict(&result);
    result
}

// ---------------------------------------------------------------------------
// Laws of the correlation
// ---------------------------------------------------------------------------

/// When the target is an IP address, or no domain key matches the host, the
/// pick is a default resolver with at least one nameserver, of the lowest
/// order among those (a missing order counting as the largest): a resolver
/// without nameservers, or a scoped one, is never the fallback, whatever its
/// order. There is no pick only when no default resolver has a nameserver.
pub proof fn law_fallback_has_nameservers(
    host: Seq<char>,
    keys: Seq<Option<Seq<char>>>,
    target_is_ip: bool,
    rs: Seq<ResolverV>,
)
    requires
        target_is_ip || forall|j: int|
            0 <= j < keys.len() ==> !(#[trigger] keys[j] matches Some(d) && host_matches(host, d)),
    ensures
        ({
            let i = correlate_keys_index(host, keys, target_is_ip, rs);
            &&& -1 <= i < rs.len()
            &&& i >= 0 ==> rs[i].scope == ResolverScope::Default && rs[i].nameservers.len() > 0
            &&& i >= 0 ==> forall|j: int|
                0 <= j < rs.len() && (#[trigger] rs[j]).scope == ResolverScope::Default
                    && rs[j].nameservers.len() > 0 ==> match (rs[i].order, rs[j].order) {
                    (Some(a), Some(b)) => a <= b,
                    (Some(_), None) => true,
                    (None, Some(b)) => b == u64::MAX,
                    (None, None) => true,
                }
            &&& i == -1 <==> forall|j: int|
                0 <= j < rs.len() ==> !((#[trigger] rs[j]).scope == ResolverScope::Default
                    && rs[j].nameservers.len() > 0)
        }),
{
    lemma_best_key_bounds(host, keys);
    lemma_fallback_bounds(rs);
    let i = correlate_keys_index(host, keys, target_is_ip, rs);
    if i >= 0 {
        assert forall|j: int|
            0 <= j < rs.len() && (#[trigger] rs[j]).scope == ResolverScope::Default
                && rs[j].nameservers.len() > 0 implies match (rs[i].order, rs[j].order) {
            (Some(a), Some(b)) => a <= b,
            (Some(_), None) => true,
            (None, Some(b)) => b == u64::MAX,
            (None, None) => true,
        } by {
            assert(fallback_candidate(rs[j]));
            assert(order_key(rs[i]) <= order_key(rs[j]));
        }
    }
    if i == -1 {
        assert forall|j: int| 0 <= j < rs.len() implies !((#[trigger] rs[j]).scope
            == ResolverScope::Default && rs[j].nameservers.len() > 0) by {
            assert(!fallback_candidate(rs[j]));
        }
    }
}

/// The resolver picked for a lookup is one of the resolvers. For a hostname
/// that some supplemental domain matches, it is a resolver whose domain
/// matches, and no matching domain is longer (in bytes). Otherwise (and
/// for an IP address) it is a default resolver with nameservers and no such
/// resolver has a lower order; there is none only when no resolver
/// qualifies.
pub proof fn law_correlate(target: Seq<char>, target_is_ip: bool, rs: Seq<ResolverV>)
    ensures
        ({
            let i = correlate_index(target, target_is_ip, rs);
            let host = lowercase(trim_dots(target));
            let some_match = exists|j: int|
                0 <= j < rs.len() && (domain_key(#[trigger] rs[j]) matches Some(d) && host_matches(
                    host,
                    d,
                ));
            &&& -1 <= i < rs.len()
            &&& (!target_is_ip && some_match) ==> (domain_key(rs[i]) matches Some(d) && host_matches(
                host,
                d,
            ) && forall|j: int|
                0 <= j < rs.len() ==> (domain_key(#[trigger] rs[j]) matches Some(e) ==> (
                host_matches(host, e) ==> utf8_len(e) <= utf8_len(d))))
            &&& (target_is_ip || !some_match) ==> (i == -1 <==> forall|j: int|
                0 <= j < rs.len() ==> !fallback_candidate(#[trigger] rs[j]))
            &&& (target_is_ip || !some_match) && i >= 0 ==> fallback_candidate(rs[i]) && forall|j: int|
                0 <= j < rs.len() && fallback_candidate(#[trigger] rs[j]) ==> order_key(rs[i])
                    <= order_key(rs[j])
        }),
{
    let host = lowercase(trim_dots(target));
    let keys = domain_keys(rs);
    assert forall|j: int|
        #![trigger keys[j]]
        #![trigger domain_key(rs[j])]
        0 <= j < rs.len() implies keys[j] == domain_key(rs[j]) by {}
    lemma_best_key_bounds(host, keys);
    lemma_fallback_bounds(rs);
}

} // verus!
