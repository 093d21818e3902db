//! What the CLI prints, as text: the footer of failed collectors and the
//! lines of a focused lookup. Printing (tables, colors) happens outside the
//! library.

use vstd::prelude::*;

use crate::model::{opt_str, LookupResult, LookupResultV, Resolver, ResolverV, Summary};
use crate::text::{
    dec_chars, dec_str, join, join_from, lemma_views_push, push_all, to_chars, to_string, views,
};

verus! {

/// The characters of each string.
fn chars_of(v: &Vec<String>) -> (r: Vec<Vec<char>>)
    ensures
        views(r@) == views(v@),
{
    let mut r: Vec<Vec<char>> = Vec::new();
    let mut i: usize = 0;
    while i < v.len()
        invariant
            i <= v@.len(),
            views(r@) == views(v@.take(i as int)),
        decreases v@.len() - i,
    {
        let c = to_chars(v[i].as_str());
        proof {
            lemma_views_push(r@, c);
            assert(views(v@.take(i + 1)) =~= views(v@.take(i as int)).push(v@[i as int]@));
        }
        r.push(c);
        i = i + 1;
    }
    assert(v@.take(i as int) =~= v@);
    r
}

/// `v.join(sep)`.
fn join_strings(v: &Vec<String>, sep: &str) -> (r: Vec<char>)
    ensures
        r@ == join(views(v@), sep@),
{
    let cs = chars_of(v);
    let r = join_from(&cs, 0, &to_chars(sep));
    assert(views(cs@).skip(0) =~= views(cs@));
    r
}

// ---------------------------------------------------------------------------
// Failed collectors
// ---------------------------------------------------------------------------

/// (section name, error) of each section that failed, in display order;
/// the packet filter counts only when running privileged.
pub open spec fn failed_spec(
    routes: Option<Seq<char>>,
    tunnels: Option<Seq<char>>,
    dns: Option<Seq<char>>,
    services: Option<Seq<char>>,
    pf: Option<Seq<char>>,
    privileged: bool,
) -> Seq<(Seq<char>, Seq<char>)> {
    let one = |name: Seq<char>, e: Option<Seq<char>>|
        match e {
            Some(m) => seq![(name, m)],
            None => seq![],
        };
    one("routes"@, routes) + one("tunnels"@, tunnels) + one("dns"@, dns) + one("services"@, services)
        + if privileged {
        one("pf"@, pf)
    } else {
        seq![]
    }
}

fn push_failed(out: &mut Vec<(String, String)>, name: &str, e: &Option<String>)
    ensures
        views(final(out)@) == views(old(out)@) + match opt_str(*e) {
            Some(m) => seq![(name@, m)],
            None => Seq::<(Seq<char>, Seq<char>)>::empty(),
        },
{
    match e {
        Some(m) => {
            let p = (String::from_str(name), m.clone());
            proof {
                lemma_views_push(out@, p);
            }
            out.push(p);
            assert(views(out@) =~= views(old(out)@) + seq![(name@, m@)]);
        },
        None => {
            assert(views(out@) =~= views(out@) + Seq::<(Seq<char>, Seq<char>)>::empty());
        },
    }
}

/// The collectors that errored or timed out, for the footer.
pub fn failed_sections(s: &Summary) -> (r: Vec<(String, String)>)
    ensures
        views(r@) == failed_spec(
            opt_str(s.routes.error),
            opt_str(s.tunnels.error),
            opt_str(s.dns.error),
            opt_str(s.services.error),
            opt_str(s.pf.error),
            s.privileged,
        ),
{
    let mut r: Vec<(String, String)> = Vec::new();
    assert(views(r@) =~= Seq::<(Seq<char>, Seq<char>)>::empty());
    push_failed(&mut r, "routes", &s.routes.error);
    push_failed(&mut r, "tunnels", &s.tunnels.error);
    push_failed(&mut r, "dns", &s.dns.error);
    push_failed(&mut r, "services", &s.services.error);
    if s.privileged {
        push_failed(&mut r, "pf", &s.pf.error);
    }
    assert(views(r@) =~= failed_spec(
        opt_str(s.routes.error),
        opt_str(s.tunnels.error),
        opt_str(s.dns.error),
        opt_str(s.services.error),
        opt_str(s.pf.error),
        s.privileged,
    ));
    r
}

// ---------------------------------------------------------------------------
// Focused lookup
// ---------------------------------------------------------------------------

/// The `Resolved:` text: the addresses, and how the resolver was chosen.
pub open spec fn resolved_text_spec(l: LookupResultV) -> Seq<char> {
    if l.resolved.len() == 0 {
        "(no answer)"@
    } else {
        join(l.resolved, ", "@) + match l.resolver_number {
            Some(n) => " (via resolver #"@ + dec_str(n as nat) + match l.resolver_match {
                Some(m) => ", domain match: "@ + m,
                None => seq![],
            } + if l.resolver_nameservers.len() > 0 {
                ", ns: "@ + join(l.resolver_nameservers, ","@)
            } else {
                seq![]
            } + ")"@,
            None => seq![],
        }
    }
}

pub fn resolved_text(l: &LookupResult) -> (r: String)
    ensures
        r@ == resolved_text_spec(l@),
{
    if l.resolved.len() == 0 {
        return String::from_str("(no answer)");
    }
    let mut s = join_strings(&l.resolved, ", ");
    match l.resolver_number {
        Some(n) => {
            let ghost base = s@;
            push_all(&mut s, &to_chars(" (via resolver #"));
            push_all(&mut s, &dec_chars(n as u64));
            let ghost a = s@;
            match &l.resolver_match {
                Some(m) => {
                    push_all(&mut s, &to_chars(", domain match: "));
                    push_all(&mut s, &to_chars(m.as_str()));
                },
                None => {},
            }
            let ghost b = s@;
            if l.resolver_nameservers.len() > 0 {
                push_all(&mut s, &to_chars(", ns: "));
                push_all(&mut s, &join_strings(&l.resolver_nameservers, ","));
            }
            push_all(&mut s, &to_chars(")"));
            assert(s@ =~= resolved_text_spec(l@));
        },
        None => {
            assert(s@ =~= resolved_text_spec(l@));
        },
    }
    to_string(&s)
}

/// The `Route:` text: destination → interface (label), or `(no route)`.
pub open spec fn route_text_spec(l: LookupResultV) -> Seq<char> {
    match (l.destination, l.interface) {
        (Some(d), Some(i)) => d + " \u{2192} "@ + i + match l.label {
            Some(lb) => " ("@ + lb + ")"@,
            None => seq![],
        },
        _ => "(no route)"@,
    }
}

pub fn route_text(l: &LookupResult) -> (r: String)
    ensures
        r@ == route_text_spec(l@),
{
    match (&l.destination, &l.interface) {
        (Some(d), Some(i)) => {
            let mut s = to_chars(d.as_str());
            push_all(&mut s, &to_chars(" \u{2192} "));
            push_all(&mut s, &to_chars(i.as_str()));
            match &l.label {
                Some(lb) => {
                    push_all(&mut s, &to_chars(" ("));
                    push_all(&mut s, &to_chars(lb.as_str()));
                    push_all(&mut s, &to_chars(")"));
                },
                None => {},
            }
            assert(s@ =~= route_text_spec(l@));
            to_string(&s)
        },
        _ => String::from_str("(no route)"),
    }
}

// ---------------------------------------------------------------------------
// DNS table
// ---------------------------------------------------------------------------

/// The domain column of a resolver: its supplemental domain, else its
/// search domains joined with `,`, else empty.
pub open spec fn domain_column_spec(r: ResolverV) -> Seq<char> {
    match r.domain {
        Some(d) => d,
        None => if r.search.len() > 0 {
            join(r.search, ","@)
        } else {
            seq![]
        },
    }
}

pub fn domain_column(r: &Resolver) -> (s: String)
    ensures
        s@ == domain_column_spec(r@),
{
    match &r.domain {
        Some(d) => d.clone(),
        None => if r.search.len() > 0 {
            to_string(&join_strings(&r.search, ","))
        } else {
            String::new()
        },
    }
}

} // verus!
