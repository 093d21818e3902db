//! Collector logic: the parsers for each command's output, and the
//! assembly of their results into the summary.

pub mod dns;
pub mod interfaces;
pub mod lookup;
pub mod pf;
pub mod routes;
pub mod services;
pub mod sockets;
pub mod throughput;


use vstd::prelude::*;

use crate::attribute::{label_tunnels, label_tunnels_spec, TunnelProbes};
use crate::collect::lookup::{label_for_interface, tunnel_label};
use crate::model::{
    opt_str, IpFamily, NetworkInfo, NetworkInfoV, PfRules, PfRulesV, Resolver, ResolverV, Route,
    RouteV, Section, Summary, Tunnel, TunnelV,
};
use crate::text::{dec_str, lemma_views_push, padded_dec, push_all, to_chars, to_string, views, zero_pad};

verus! {

/// The view of a section: its data's view and its error text.
pub struct SectionV<A> {
    pub data: Option<A>,
    pub error: Option<Seq<char>>,
}

pub open spec fn section_view<T: View>(s: Section<T>) -> SectionV<T::V> {
    SectionV {
        data: match s.data {
            Some(d) => Some(d@),
            None => None,
        },
        error: opt_str(s.error),
    }
}

pub open spec fn vec_section_view<T: View>(s: Section<Vec<T>>) -> SectionV<Seq<T::V>> {
    SectionV {
        data: match s.data {
            Some(d) => Some(views(d@)),
            None => None,
        },
        error: opt_str(s.error),
    }
}

/// A section built from a command's result: the parsed data on success,
/// or the error prefixed with what ran.
pub open spec fn from_result<A>(r: Result<A, Seq<char>>, prefix: Seq<char>) -> SectionV<A> {
    match r {
        Ok(d) => SectionV { data: Some(d), error: None },
        Err(e) => SectionV { data: None, error: Some(prefix + e) },
    }
}

/// The view of a command's result: its output or its error message.
pub open spec fn result_view(r: Result<String, String>) -> Result<Seq<char>, Seq<char>> {
    match r {
        Ok(s) => Ok(s@),
        Err(e) => Err(e@),
    }
}

/// The outputs of the unprivileged commands, or their error messages.
pub struct CommandOutputs {
    /// `netstat -rn -f inet`
    pub routes_v4: Result<String, String>,
    /// `netstat -rn -f inet6`
    pub routes_v6: Result<String, String>,
    /// `ifconfig`
    pub ifconfig: Result<String, String>,
    /// `scutil --dns`
    pub dns: Result<String, String>,
    /// `scutil --nwi`
    pub nwi: Result<String, String>,
}

/// `prefix` followed by `msg`.
fn prefixed(prefix: &str, msg: &String) -> (r: String)
    ensures
        r@ == prefix@ + msg@,
{
    let mut v = to_chars(prefix);
    push_all(&mut v, &to_chars(msg.as_str()));
    to_string(&v)
}

// ---------------------------------------------------------------------------
// Routes
// ---------------------------------------------------------------------------

/// The routes of both families and the combined error text.
pub open spec fn routes_raw(v4: Result<Seq<char>, Seq<char>>, v6: Result<Seq<char>, Seq<char>>) -> (
    Seq<RouteV>,
    Option<Seq<char>>,
) {
    let r4 = match v4 {
        Ok(s) => routes::parse_routes(s, IpFamily::V4),
        Err(_) => seq![],
    };
    let r6 = match v6 {
        Ok(s) => routes::parse_routes(s, IpFamily::V6),
        Err(_) => seq![],
    };
    let e4 = match v4 {
        Ok(_) => None,
        Err(e) => Some("ipv4: "@ + e),
    };
    let e = match v6 {
        Ok(_) => e4,
        Err(e) => Some(
            match e4 {
                Some(p) => p + "; "@ + ("ipv6: "@ + e),
                None => "ipv6: "@ + e,
            },
        ),
    };
    (r4 + r6, e)
}

/// Each route labelled with the tunnel on its interface, when the tunnel
/// table is known.
pub open spec fn enrich(rs: Seq<RouteV>, tunnels: Option<Seq<TunnelV>>) -> Seq<RouteV> {
    match tunnels {
        Some(ts) => rs.map_values(|r: RouteV| RouteV { label: tunnel_label(r.interface, ts), ..r }),
        None => rs,
    }
}

/// The routes section: the routes if any were parsed (errors of the other
/// family are then dropped), else the error if one family failed, else an
/// empty table.
pub open spec fn routes_section_spec(
    v4: Result<Seq<char>, Seq<char>>,
    v6: Result<Seq<char>, Seq<char>>,
    tunnels: Option<Seq<TunnelV>>,
) -> SectionV<Seq<RouteV>> {
    let (rs, e) = routes_raw(v4, v6);
    if rs.len() > 0 {
        SectionV { data: Some(enrich(rs, tunnels)), error: None }
    } else if e is Some {
        SectionV { data: None, error: e }
    } else {
        SectionV { data: Some(seq![]), error: None }
    }
}

fn relabel(rs: Vec<Route>, tunnels: &Option<Vec<Tunnel>>) -> (out: Vec<Route>)
    ensures
        views(out@) == enrich(
            views(rs@),
            match tunnels {
                Some(ts) => Some(views(ts@)),
                None => None,
            },
        ),
{
    match tunnels {
        None => rs,
        Some(ts) => {
            let mut out: Vec<Route> = Vec::new();
            let ghost tv = views(ts@);
            let ghost want = enrich(views(rs@), Some(tv));
            let mut i: usize = 0;
            while i < rs.len()
                invariant
                    i <= rs@.len(),
                    tv == views(ts@),
                    want == enrich(views(rs@), Some(tv)),
                    views(out@) == want.take(i as int),
                decreases rs@.len() - i,
            {
                let r = &rs[i];
                let nr = Route {
                    family: r.family,
                    destination: r.destination.clone(),
                    gateway: r.gateway.clone(),
                    flags: r.flags.clone(),
                    interface: r.interface.clone(),
                    expire: match &r.expire {
                        Some(e) => Some(e.clone()),
                        None => None,
                    },
                    label: label_for_interface(r.interface.as_str(), ts.as_slice()),
                };
                proof {
                    lemma_views_push(out@, nr);
                    assert(want[i as int] == nr@);
                    assert(want.take(i + 1) =~= want.take(i as int).push(nr@));
                }
                out.push(nr);
                i = i + 1;
            }
            assert(want.take(i as int) =~= want);
            out
        },
    }
}

fn routes_section(
    v4: &Result<String, String>,
    v6: &Result<String, String>,
    tunnels: &Option<Vec<Tunnel>>,
) -> (s: Section<Vec<Route>>)
    ensures
        vec_section_view(s) == routes_section_spec(
            result_view(*v4),
            result_view(*v6),
            match tunnels {
                Some(ts) => Some(views(ts@)),
                None => None,
            },
        ),
{
    let mut rs: Vec<Route> = Vec::new();
    let mut err: Option<String> = None;
    match v4 {
        Ok(s) => {
            rs = routes::parse(s.as_str(), IpFamily::V4);
        },
        Err(e) => {
            err = Some(prefixed("ipv4: ", e));
        },
    }
    assert(views(Seq::<Route>::empty()) =~= Seq::<RouteV>::empty());
    match v6 {
        Ok(s) => {
            let mut more = routes::parse(s.as_str(), IpFamily::V6);
            let ghost a = rs@;
            let ghost b = more@;
            rs.append(&mut more);
            assert(views(a + b) =~= views(a) + views(b));
        },
        Err(e) => {
            let m = prefixed("ipv6: ", e);
            err = Some(
                match err {
                    Some(prev) => {
                        let mut v = to_chars(prev.as_str());
                        push_all(&mut v, &to_chars("; "));
                        push_all(&mut v, &to_chars(m.as_str()));
                        to_string(&v)
                    },
                    None => m,
                },
            );
        },
    }
    assert(views(rs@) =~= routes_raw(result_view(*v4), result_view(*v6)).0);
    if rs.len() > 0 {
        Section::ok(relabel(rs, tunnels))
    } else {
        match err {
            Some(e) => Section::err(e),
            None => {
                let empty: Vec<Route> = Vec::new();
                assert(views(empty@) =~= Seq::<RouteV>::empty());
                Section::ok(empty)
            },
        }
    }
}

// ---------------------------------------------------------------------------
// The summary
// ---------------------------------------------------------------------------

/// The tunnels section: the labelled utun interfaces when `ifconfig` ran.
pub open spec fn tunnels_section_spec(ifc: Result<Seq<char>, Seq<char>>, p: TunnelProbes) -> SectionV<
    Seq<TunnelV>,
> {
    from_result(
        match ifc {
            Ok(s) => Ok(label_tunnels_spec(interfaces::parse_interfaces(s), p)),
            Err(e) => Err(e),
        },
        "ifconfig: "@,
    )
}

pub open spec fn dns_section_spec(r: Result<Seq<char>, Seq<char>>) -> SectionV<Seq<ResolverV>> {
    from_result(
        match r {
            Ok(s) => Ok(dns::parse_resolvers(s)),
            Err(e) => Err(e),
        },
        "scutil --dns: "@,
    )
}

pub open spec fn services_section_spec(r: Result<Seq<char>, Seq<char>>) -> SectionV<NetworkInfoV> {
    from_result(
        match r {
            Ok(s) => Ok(services::parse_network_info(s)),
            Err(e) => Err(e),
        },
        "scutil --nwi: "@,
    )
}

/// The packet-filter section: what was collected when privileged, else the
/// `requires root` error.
pub open spec fn pf_section_spec(privileged: bool, pf: SectionV<PfRulesV>) -> SectionV<PfRulesV> {
    if privileged {
        pf
    } else {
        SectionV { data: None, error: Some("requires root"@) }
    }
}

/// Assemble the summary from the unprivileged commands' outputs, the tunnel
/// probes, and (when privileged) the packet-filter section. Each section's
/// data is `Some` on success and its error is `Some` with a human-readable
/// message on failure; one section's failure never affects another's.
pub fn collect_summary(
    collected_at: String,
    privileged: bool,
    outputs: &CommandOutputs,
    probes: &TunnelProbes,
    pf: Section<PfRules>,
) -> (s: Summary)
    ensures
        s.collected_at == collected_at,
        s.platform@ == "macos"@,
        s.privileged == privileged,
        vec_section_view(s.tunnels) == tunnels_section_spec(result_view(outputs.ifconfig), *probes),
        vec_section_view(s.routes) == routes_section_spec(
            result_view(outputs.routes_v4),
            result_view(outputs.routes_v6),
            tunnels_section_spec(result_view(outputs.ifconfig), *probes).data,
        ),
        vec_section_view(s.dns) == dns_section_spec(result_view(outputs.dns)),
        section_view(s.services) == services_section_spec(result_view(outputs.nwi)),
        section_view(s.pf) == pf_section_spec(privileged, section_view(pf)),
{
    let tunnels: Section<Vec<Tunnel>> = match &outputs.ifconfig {
        Ok(text) => {
            let ifs = interfaces::parse(text.as_str());
            Section::ok(label_tunnels(ifs.as_slice(), probes))
        },
        Err(e) => Section::err(prefixed("ifconfig: ", e)),
    };
    let routes = routes_section(&outputs.routes_v4, &outputs.routes_v6, &tunnels.data);
    let dns_section: Section<Vec<Resolver>> = match &outputs.dns {
        Ok(text) => Section::ok(dns::parse(text.as_str())),
        Err(e) => Section::err(prefixed("scutil --dns: ", e)),
    };
    let services_section: Section<NetworkInfo> = match &outputs.nwi {
        Ok(text) => Section::ok(services::parse(text.as_str())),
        Err(e) => Section::err(prefixed("scutil --nwi: ", e)),
    };
    let pf_section = if privileged {
        pf
    } else {
        Section::requires_root()
    };
    Summary {
        collected_at,
        platform: "macos",
        privileged,
        routes,
        tunnels,
        dns: dns_section,
        services: services_section,
        pf: pf_section,
    }
}

/// The packet-filter section from `pfctl -sr` and `pfctl -sa`: the parsed
/// rules when both ran, else the first error.
pub open spec fn pf_collect_spec(rules: Result<Seq<char>, Seq<char>>, all: Result<Seq<char>, Seq<char>>) -> SectionV<
    PfRulesV,
> {
    match (rules, all) {
        (Ok(r), Ok(a)) => SectionV { data: Some(pf::parse_pf(r, a)), error: None },
        (Err(e), _) => SectionV { data: None, error: Some("pfctl: "@ + e) },
        (_, Err(e)) => SectionV { data: None, error: Some("pfctl: "@ + e) },
    }
}

pub fn collect_pf(rules: &Result<String, String>, all: &Result<String, String>) -> (s: Section<PfRules>)
    ensures
        section_view(s) == pf_collect_spec(result_view(*rules), result_view(*all)),
{
    match (rules, all) {
        (Ok(r), Ok(a)) => Section::ok(pf::parse(r.as_str(), a.as_str())),
        (Err(e), _) => Section::err(prefixed("pfctl: ", e)),
        (_, Err(e)) => Section::err(prefixed("pfctl: ", e)),
    }
}

// ---------------------------------------------------------------------------
// Timestamps
// ---------------------------------------------------------------------------

/// The year of the era (0..=399) of a day of the era (0..=146096).
pub open spec fn yoe_of(doe: int) -> int {
    (doe - doe / 1460 + doe / 36524 - doe / 146096) / 365
}

/// The day of the year (from March 1) of a day of the era.
pub open spec fn doy_of(doe: int) -> int {
    let yoe = yoe_of(doe);
    doe - (365 * yoe + yoe / 4 - yoe / 100)
}

/// The month index counted from March (0..=11) of a day of the year.
pub open spec fn mp_of(doy: int) -> int {
    (5 * doy + 2) / 153
}

/// The civil date `(year, month, day)` of day `z` counted from 0000-03-01
/// (so that 1970-01-01 is day 719468), by eras of 400 years.
pub open spec fn civil(z: int) -> (int, int, int) {
    let era = z / 146097;
    let doe = z - era * 146097;
    let yoe = yoe_of(doe);
    let doy = doy_of(doe);
    let mp = mp_of(doy);
    let d = doy - (153 * mp + 2) / 5 + 1;
    let m = if mp < 10 {
        mp + 3
    } else {
        mp - 9
    };
    (yoe + era * 400 + if m <= 2 {
        1int
    } else {
        0
    }, m, d)
}

/// The day number of a civil date, counted as `civil` counts (the inverse
/// computation: whole eras, years of the era with leap days, days of the
/// year from March 1).
pub open spec fn days_from_civil(y: int, m: int, d: int) -> int {
    let yy = if m <= 2 {
        y - 1
    } else {
        y
    };
    let era = yy / 400;
    let yoe = yy - era * 400;
    let doy = (153 * (if m > 2 {
        m - 3
    } else {
        m + 9
    }) + 2) / 5 + d - 1;
    era * 146097 + yoe * 365 + yoe / 4 - yoe / 100 + doy
}

/// Within an era, the split into year and day of year is in range and is
/// undone by the inverse computation.
proof fn lemma_era_day(doe: int)
    requires
        0 <= doe < 146097,
    ensures
        0 <= yoe_of(doe) <= 399,
        0 <= doy_of(doe) <= 365,
        0 <= mp_of(doy_of(doe)) <= 11,
        1 <= doy_of(doe) - (153 * mp_of(doy_of(doe)) + 2) / 5 + 1 <= 31,
        ({
            let yoe = yoe_of(doe);
            let doy = doy_of(doe);
            let mp = mp_of(doy);
            let d = doy - (153 * mp + 2) / 5 + 1;
            &&& (153 * mp + 2) / 5 + d - 1 == doy
            &&& yoe * 365 + yoe / 4 - yoe / 100 + doy == doe
        }),
        doe <= 146036 ==> yoe_of(doe) + (if mp_of(doy_of(doe)) >= 10 {
            1int
        } else {
            0
        }) <= 399,
{
    let x = doe as u32;
    assert({
        let yoe = ((x - x / 1460 + x / 36524 - x / 146096) / 365) as u32;
        &&& yoe <= 399
        &&& 365 * yoe + yoe / 4 - yoe / 100 <= x
        &&& x - (365 * yoe + yoe / 4 - yoe / 100) <= 365
    }) by (bit_vector)
        requires
            x < 146097,
    ;
    let doy = doy_of(doe);
    lemma_month_day(doy as u32);
    if doe <= 146036 && yoe_of(doe) == 399 {
        lemma_month_day_before_march((doy_of(doe)) as u32);
    }
}

/// The month index and day of a day of the year are in range.
proof fn lemma_month_day(doy: u32)
    requires
        doy <= 365,
    ensures
        0 <= mp_of(doy as int) <= 11,
        1 <= doy - (153 * mp_of(doy as int) + 2) / 5 + 1 <= 31,
{
    assert({
        let mp = ((5 * doy + 2) / 153) as u32;
        &&& mp <= 11
        &&& 1 <= doy - (153 * mp + 2) / 5 + 1 <= 31
    }) by (bit_vector)
        requires
            doy <= 365,
    ;
}

/// Days up to the end of December fall in months before January.
proof fn lemma_month_day_before_march(doy: u32)
    requires
        doy <= 305,
    ensures
        mp_of(doy as int) <= 9,
{
    assert(((5 * doy + 2) / 153) as u32 <= 9) by (bit_vector)
        requires
            doy <= 305,
    ;
}

/// A leap year of the Gregorian calendar.
pub open spec fn is_leap(y: int) -> bool {
    y % 4 == 0 && (y % 100 != 0 || y % 400 == 0)
}

/// The number of days of month `m` (1..=12) of year `y`.
pub open spec fn days_in_month(y: int, m: int) -> int {
    if m == 2 {
        if is_leap(y) {
            29
        } else {
            28
        }
    } else if m == 4 || m == 6 || m == 9 || m == 11 {
        30
    } else {
        31
    }
}

/// Within a year counted from March 1, the day of the month stays within
/// its month's length; February reaches a 29th only on the last day of
/// the year.
proof fn lemma_month_length(doy: u32)
    requires
        doy <= 365,
    ensures
        ({
            let mp = mp_of(doy as int);
            let d = doy - (153 * mp + 2) / 5 + 1;
            let m = if mp < 10 {
                mp + 3
            } else {
                mp - 9
            };
            &&& m != 2 ==> d <= days_in_month(0, m)
            &&& m == 2 ==> d <= 29
            &&& m == 2 && d == 29 ==> doy == 365
        }),
{
    assert({
        let mp = ((5 * doy + 2) / 153) as u32;
        let d = (doy - (153 * mp + 2) / 5 + 1) as u32;
        &&& mp == 0 || mp == 2 || mp == 4 || mp == 5 || mp == 7 || mp == 9 || mp == 10 ==> d <= 31
        &&& mp == 1 || mp == 3 || mp == 6 || mp == 8 ==> d <= 30
        &&& mp == 11 ==> d <= 29
        &&& mp == 11 && d == 29 ==> doy == 365
    }) by (bit_vector)
        requires
            doy <= 365,
    ;
    lemma_month_day(doy);
}

/// The 366th day of a year of the era (its February 29th) falls only in a
/// year that is followed by a leap year.
proof fn lemma_last_day_leap(doe: u32)
    requires
        doe < 146097,
        doy_of(doe as int) == 365,
    ensures
        is_leap(yoe_of(doe as int) + 1),
{
    assert({
        let yoe = ((doe - doe / 1460 + doe / 36524 - doe / 146096) / 365) as u32;
        let doy = (doe - (365 * yoe + yoe / 4 - yoe / 100)) as u32;
        doy == 365 ==> (yoe + 1) % 4 == 0 && ((yoe + 1) % 100 != 0 || (yoe + 1) % 400 == 0)
    }) by (bit_vector)
        requires
            doe < 146097,
    ;
}

/// Whole eras of 400 years do not change whether a year is a leap year.
proof fn lemma_leap_era(a: int, era: int)
    ensures
        is_leap(a + era * 400) == is_leap(a),
{
    vstd::arithmetic::div_mod::lemma_mod_multiples_vanish(era * 100, a, 4);
    vstd::arithmetic::div_mod::lemma_mod_multiples_vanish(era * 4, a, 100);
    vstd::arithmetic::div_mod::lemma_mod_multiples_vanish(era, a, 400);
    assert(4 * (era * 100) + a == a + era * 400);
    assert(100 * (era * 4) + a == a + era * 400);
    assert(400 * era + a == a + era * 400);
}

/// The civil date of day `z`, counted from 0000-03-01 (negative days lie
/// before it). Algorithm from Howard Hinnant's date library, condensed;
/// the era and the day of the era are found with unsigned division.
fn civil_from_days(z: i64) -> (r: (i64, u32, u32))
    ensures
        (r.0 as int, r.1 as int, r.2 as int) == civil(z as int),
        1 <= r.1 <= 12,
        1 <= r.2 <= days_in_month(r.0 as int, r.1 as int),
{
    let (era, doe): (i64, u64) = if z >= 0 {
        let zu = z as u64;
        let q = zu / 146097;
        assert(q * 146097 <= zu && zu - q * 146097 < 146097 && q <= 0x7FFF_FFFF_FFFF_FFFFu64 / 146097)
            by (nonlinear_arith)
            requires
                q == zu / 146097,
                zu <= 0x7FFF_FFFF_FFFF_FFFFu64,
        ;
        (q as i64, zu - q * 146097)
    } else {
        let w = (-(z + 1)) as u64;
        let q = w / 146097;
        let m = w % 146097;
        assert(w == q * 146097 + m && m < 146097 && q <= 0x7FFF_FFFF_FFFF_FFFFu64 / 146097)
            by (nonlinear_arith)
            requires
                q == w / 146097,
                m == w % 146097,
                w <= 0x7FFF_FFFF_FFFF_FFFFu64,
        ;
        (-(q as i64) - 1, 146096 - m)
    };
    assert(z == era * 146097 + doe && doe < 146097);
    proof {
        vstd::arithmetic::div_mod::lemma_fundamental_div_mod_converse(
            z as int,
            146097,
            era as int,
            doe as int,
        );
        lemma_era_day(doe as int);
        law_civil_roundtrip(z as int);
    }
    assert(-(0x7FFF_FFFF_FFFF_FFFFi64 / 146097) - 1 <= era <= 0x7FFF_FFFF_FFFF_FFFFi64 / 146097);
    let yoe = (doe - doe / 1460 + doe / 36524 - doe / 146096) / 365;
    let y = yoe as i64 + era * 400;
    let doy = doe - (365 * yoe + yoe / 4 - yoe / 100);
    let mp = (5 * doy + 2) / 153;
    let d = doy - (153 * mp + 2) / 5 + 1;
    let month = if mp < 10 {
        mp + 3
    } else {
        mp - 9
    };
    let year = y + if month <= 2 {
        1
    } else {
        0
    };
    (year, month as u32, d as u32)
}

/// The timestamp text of `secs` seconds after the UNIX epoch:
/// `YYYY-MM-DDTHH:MM:SSZ` in UTC, the year padded to four digits.
pub open spec fn rfc3339(secs: nat) -> Seq<char> {
    let (y, mo, d) = civil((secs / 86400) as int + 719468);
    let sod = secs % 86400;
    zero_pad(dec_str(y as nat), 4) + "-"@ + zero_pad(dec_str(mo as nat), 2) + "-"@ + zero_pad(
        dec_str(d as nat),
        2,
    ) + "T"@ + zero_pad(dec_str(sod / 3600), 2) + ":"@ + zero_pad(dec_str((sod % 3600) / 60), 2)
        + ":"@ + zero_pad(dec_str(sod % 60), 2) + "Z"@
}

/// RFC3339 UTC timestamp of `secs` seconds after the UNIX epoch.
pub fn format_rfc3339(secs: u64) -> (s: String)
    ensures
        s@ == rfc3339(secs as nat),
{
    let days = secs / 86400;
    let secs_of_day = secs % 86400;
    let hour = secs_of_day / 3600;
    let minute = (secs_of_day % 3600) / 60;
    let second = secs_of_day % 60;
    let (y, mo, d) = civil_from_days(days as i64 + 719468);
    proof {
        let z = (secs / 86400) as int + 719468;
        let era = z / 146097;
        lemma_era_day(z - era * 146097);
        assert(0 <= era) by (nonlinear_arith)
            requires
                z >= 0,
                era == z / 146097,
        ;
    }
    let mut v = padded_dec(y as u64, 4);
    push_all(&mut v, &to_chars("-"));
    push_all(&mut v, &padded_dec(mo as u64, 2));
    push_all(&mut v, &to_chars("-"));
    push_all(&mut v, &padded_dec(d as u64, 2));
    push_all(&mut v, &to_chars("T"));
    push_all(&mut v, &padded_dec(hour, 2));
    push_all(&mut v, &to_chars(":"));
    push_all(&mut v, &padded_dec(minute, 2));
    push_all(&mut v, &to_chars(":"));
    push_all(&mut v, &padded_dec(second, 2));
    push_all(&mut v, &to_chars("Z"));
    to_string(&v)
}

/// Calls `std::time::SystemTime::now` and returns the whole seconds since
/// the UNIX epoch, or `None` when the clock reads a time before it. The
/// clock decides the value, so nothing is stated of it.
#[verifier::external_body]
fn unix_now_secs() -> Option<u64> {
    match std::time::SystemTime::now().duration_since(std::time::UNIX_EPOCH) {
        Ok(d) => Some(d.as_secs()),
        Err(_) => None,
    }
}

/// RFC3339 UTC timestamp of the current time, without pulling in `chrono`.
/// Good enough for a human-facing "collected at" stamp. A clock before the
/// epoch is stamped as the epoch itself.
pub fn now_rfc3339() -> (s: String)
    ensures
        exists|secs: u64| s@ == rfc3339(secs as nat),
{
    let secs = match unix_now_secs() {
        Some(t) => t,
        None => 0,
    };
    format_rfc3339(secs)
}

/// For every day `z`, positive or negative, `civil` gives a real date
/// (a month of 1..=12 and a day within that month's length, by the
/// Gregorian leap rule), and counting the days of that date gives back `z`:
/// the conversion loses no day and invents none.
pub proof fn law_civil_roundtrip(z: int)
    ensures
        days_from_civil(civil(z).0, civil(z).1, civil(z).2) == z,
        1 <= civil(z).1 <= 12,
        1 <= civil(z).2 <= days_in_month(civil(z).0, civil(z).1),
{
    let era = z / 146097;
    assert(era * 146097 <= z < era * 146097 + 146097) by (nonlinear_arith)
        requires
            era == z / 146097,
    ;
    let doe = z - era * 146097;
    lemma_era_day(doe);
    let yoe = yoe_of(doe);
    let yy = yoe + era * 400;
    assert(yy / 400 == era && yy - (yy / 400) * 400 == yoe) by (nonlinear_arith)
        requires
            0 <= yoe <= 399,
            yy == yoe + era * 400,
    ;
    let doy = doy_of(doe);
    lemma_month_length(doy as u32);
    let mp = mp_of(doy);
    if mp == 11 && doy - (153 * mp + 2) / 5 + 1 == 29 {
        lemma_last_day_leap(doe as u32);
        lemma_leap_era(yoe + 1, era);
        assert(yoe + era * 400 + 1 == (yoe + 1) + era * 400);
    }
}

pub open spec fn pow10(k: nat) -> nat
    decreases k,
{
    if k == 0 {
        1
    } else {
        10 * pow10((k - 1) as nat)
    }
}

pub proof fn lemma_dec_str_len(n: nat, k: nat)
    requires
        k >= 1,
        n < pow10(k),
    ensures
        dec_str(n).len() <= k,
    decreases k,
{
    if n >= 10 {
        assert(k >= 2) by {
            if k == 1 {
                assert(pow10(1) == 10 * pow10(0));
            }
        }
        let k1 = (k - 1) as nat;
        assert(pow10(k) == 10 * pow10(k1));
        assert(n / 10 < pow10(k1)) by (nonlinear_arith)
            requires
                n < 10 * pow10(k1),
        ;
        lemma_dec_str_len(n / 10, k1);
    }
}

proof fn lemma_pad_len(n: nat, w: nat)
    requires
        w >= 1,
        n < pow10(w),
    ensures
        zero_pad(dec_str(n), w).len() == w,
{
    lemma_dec_str_len(n, w);
}

/// Up to the end of year 9999 the timestamp has the RFC3339 shape
/// `YYYY-MM-DDTHH:MM:SSZ`: twenty characters, with the separators in place
/// and `Z` last.
pub proof fn law_rfc3339_shape(secs: nat)
    requires
        secs < 253402300800,
    ensures
        rfc3339(secs).len() == 20,
        rfc3339(secs)[4] == '-',
        rfc3339(secs)[7] == '-',
        rfc3339(secs)[10] == 'T',
        rfc3339(secs)[13] == ':',
        rfc3339(secs)[16] == ':',
        rfc3339(secs)[19] == 'Z',
{
    let z = (secs / 86400) as int + 719468;
    assert(z <= 3652364);
    law_civil_roundtrip(z);
    let era = z / 146097;
    assert(0 <= era <= 24 && era * 146097 <= z < era * 146097 + 146097) by (nonlinear_arith)
        requires
            0 <= z <= 3652364,
            era == z / 146097,
    ;
    let doe = z - era * 146097;
    lemma_era_day(doe);
    let (y, mo, d) = civil(z);
    assert(0 <= y <= 9999);
    let sod = secs % 86400;
    assert(sod / 3600 < 24 && (sod % 3600) / 60 < 60 && sod % 60 < 60);
    reveal_with_fuel(pow10, 5);
    lemma_pad_len(y as nat, 4);
    lemma_pad_len(mo as nat, 2);
    lemma_pad_len(d as nat, 2);
    lemma_pad_len(sod / 3600, 2);
    lemma_pad_len((sod % 3600) / 60, 2);
    lemma_pad_len(sod % 60, 2);
    reveal_strlit("-");
    reveal_strlit("T");
    reveal_strlit(":");
    reveal_strlit("Z");
}

// ---------------------------------------------------------------------------
// Laws of the summary
// ---------------------------------------------------------------------------

/// A collector's failure never takes down its section's neighbours, and a
/// section is either data without error (the command ran) or an error
/// without data (it failed), for tunnels, DNS and services alike.
pub proof fn law_section_outcome(r: Result<Seq<char>, Seq<char>>, p: TunnelProbes)
    ensures
        r is Ok ==> tunnels_section_spec(r, p).data is Some && tunnels_section_spec(r, p).error is None,
        r is Ok ==> dns_section_spec(r).data is Some && dns_section_spec(r).error is None,
        r is Ok ==> services_section_spec(r).data is Some && services_section_spec(r).error is None,
        r matches Err(e) ==> tunnels_section_spec(r, p).data is None && tunnels_section_spec(r, p).error
            == Some("ifconfig: "@ + e),
        r matches Err(e) ==> dns_section_spec(r).data is None && dns_section_spec(r).error == Some(
            "scutil --dns: "@ + e,
        ),
        r matches Err(e) ==> services_section_spec(r).data is None && services_section_spec(r).error
            == Some("scutil --nwi: "@ + e),
{
}

/// The routes section has data or an error, never neither: routes found
/// are shown (without error); with no route found, a failure of either
/// family is reported; when both fail, both messages are kept.
pub proof fn law_routes_section(
    v4: Result<Seq<char>, Seq<char>>,
    v6: Result<Seq<char>, Seq<char>>,
    ts: Option<Seq<TunnelV>>,
)
    ensures
        routes_section_spec(v4, v6, ts).data is Some || routes_section_spec(v4, v6, ts).error is Some,
        routes_section_spec(v4, v6, ts).data is Some ==> routes_section_spec(v4, v6, ts).error is None,
        v4 matches Err(e4) ==> (v6 matches Err(e6) ==> routes_section_spec(v4, v6, ts) == (SectionV::<
            Seq<RouteV>,
        > { data: None, error: Some("ipv4: "@ + e4 + "; "@ + ("ipv6: "@ + e6)) })),
{
    if v4 is Err && v6 is Err {
        assert(routes_raw(v4, v6).0 =~= Seq::<RouteV>::empty());
    }
}

/// With the tunnel table known, every route carries the label of the tunnel
/// on its interface (none if no tunnel is there), and nothing else of the
/// route changes.
pub proof fn law_route_labels(rs: Seq<RouteV>, ts: Seq<TunnelV>)
    ensures
        enrich(rs, Some(ts)).len() == rs.len(),
        forall|i: int|
            0 <= i < rs.len() ==> {
                let r = #[trigger] enrich(rs, Some(ts))[i];
                &&& r.label == tunnel_label(rs[i].interface, ts)
                &&& r.family == rs[i].family
                &&& r.destination == rs[i].destination
                &&& r.gateway == rs[i].gateway
                &&& r.flags == rs[i].flags
                &&& r.interface == rs[i].interface
                &&& r.expire == rs[i].expire
            },
{
}

/// Without root the packet-filter section is always the `requires root`
/// error, whatever was collected.
pub proof fn law_pf_requires_root(pf: SectionV<PfRulesV>)
    ensures
        pf_section_spec(false, pf) == (SectionV::<PfRulesV> { data: None, error: Some("requires root"@) }),
        pf_section_spec(true, pf) == pf,
{
}

} // verus!
