//! `scutil --dns` parser.
//!
//! Output is grouped into one or more sections ("DNS configuration", "DNS
//! configuration (for scoped queries)", and occasionally "DNS configuration
//! (for service-specific queries)") each containing numbered resolver blocks.

use vstd::prelude::*;

use crate::model::{opt_str, Resolver, ResolverScope, ResolverV};
use crate::text::{
    lemma_find_after_prefix, lemma_trim_keeps_prefix, contains, fold_lines, has_prefix, has_substring, lemma_fold_lines_start,
    lemma_fold_lines_step, lemma_views_push, lines, parse_u32, parse_u32_chars, parse_u64,
    parse_u64_chars, same, split_once, split_once_at, split_words, starts_with, str_lines,
    strip_prefix, to_chars, to_string, trim, trim_end, trimmed, trimmed_end, views, words,
};

verus! {

pub open spec fn is_paren(c: char) -> bool {
    c == '(' || c == ')'
}

pub open spec fn trim_parens_start(s: Seq<char>) -> Seq<char>
    decreases s.len(),
{
    if s.len() > 0 && is_paren(s[0]) {
        trim_parens_start(s.drop_first())
    } else {
        s
    }
}

pub open spec fn trim_parens_end(s: Seq<char>) -> Seq<char>
    decreases s.len(),
{
    if s.len() > 0 && is_paren(s.last()) {
        trim_parens_end(s.drop_last())
    } else {
        s
    }
}

/// `str::trim_matches(|c| c == '(' || c == ')')`.
pub open spec fn trim_parens(s: Seq<char>) -> Seq<char> {
    trim_parens_end(trim_parens_start(s))
}

proof fn lemma_trim_parens_start(s: Seq<char>, i: int)
    requires
        0 <= i <= s.len(),
        forall|j: int| 0 <= j < i ==> is_paren(#[trigger] s[j]),
        i == s.len() || !is_paren(s[i]),
    ensures
        trim_parens_start(s) == s.skip(i),
    decreases i,
{
    if i == 0 {
        assert(s.skip(0) =~= s);
    } else {
        let t = s.drop_first();
        assert forall|j: int| 0 <= j < i - 1 implies is_paren(#[trigger] t[j]) by {
            assert(t[j] == s[j + 1]);
        }
        lemma_trim_parens_start(t, i - 1);
        assert(t.skip(i - 1) =~= s.skip(i));
    }
}

proof fn lemma_trim_parens_end(s: Seq<char>, e: int)
    requires
        0 <= e <= s.len(),
        forall|j: int| e <= j < s.len() ==> is_paren(#[trigger] s[j]),
        e == 0 || !is_paren(s[e - 1]),
    ensures
        trim_parens_end(s) == s.take(e),
    decreases s.len() - e,
{
    if e == s.len() {
        assert(s.take(e) =~= s);
    } else {
        let t = s.drop_last();
        lemma_trim_parens_end(t, e);
        assert(t.take(e) =~= s.take(e));
    }
}

fn without_parens(s: &Vec<char>) -> (r: Vec<char>)
    ensures
        r@ == trim_parens(s@),
{
    let mut a: usize = 0;
    while a < s.len() && (s[a] == '(' || s[a] == ')')
        invariant
            a <= s@.len(),
            forall|j: int| 0 <= j < a ==> is_paren(#[trigger] s@[j]),
        decreases s@.len() - a,
    {
        a = a + 1;
    }
    proof {
        lemma_trim_parens_start(s@, a as int);
    }
    let mut e = s.len();
    while e > a && (s[e - 1] == '(' || s[e - 1] == ')')
        invariant
            a <= e <= s@.len(),
            forall|j: int| e <= j < s@.len() ==> is_paren(#[trigger] s@[j]),
        decreases e,
    {
        e = e - 1;
    }
    proof {
        let t = s@.skip(a as int);
        assert forall|j: int| e - a <= j < t.len() implies is_paren(#[trigger] t[j]) by {
            assert(t[j] == s@[j + a]);
        }
        if e > a {
            assert(t[e - a - 1] == s@[e - 1]);
        }
        lemma_trim_parens_end(t, e - a);
        assert(t.take(e - a) =~= s@.subrange(a as int, e as int));
    }
    crate::text::slice_of(s, a, e)
}

pub open spec fn opt_resolver(o: Option<Resolver>) -> Option<ResolverV> {
    match o {
        Some(r) => Some(r@),
        None => None,
    }
}

pub struct DnsState {
    pub scope: ResolverScope,
    pub out: Seq<ResolverV>,
    pub current: Option<ResolverV>,
}

pub open spec fn flush(out: Seq<ResolverV>, current: Option<ResolverV>) -> Seq<ResolverV> {
    match current {
        Some(r) => out.push(r),
        None => out,
    }
}

/// A new resolver block.
pub open spec fn new_resolver(number: u32, scope: ResolverScope) -> ResolverV {
    ResolverV {
        number,
        scope,
        nameservers: seq![],
        search: seq![],
        domain: None,
        if_index: None,
        interface: None,
        flags: None,
        order: None,
        options: None,
    }
}

/// A `key : value` line applied to the current resolver.
pub open spec fn apply_kv(r: ResolverV, key: Seq<char>, val: Seq<char>) -> ResolverV {
    if starts_with(key, "nameserver["@) {
        ResolverV { nameservers: r.nameservers.push(val), ..r }
    } else if starts_with(key, "search domain["@) {
        ResolverV { search: r.search.push(val), ..r }
    } else if key == "domain"@ {
        ResolverV { domain: Some(val), ..r }
    } else if key == "if_index"@ {
        // "13 (en7)"
        let parts = words(val);
        let r1 = if parts.len() > 0 {
            ResolverV { if_index: parse_u32(parts[0]), ..r }
        } else {
            r
        };
        if parts.len() > 1 {
            ResolverV { interface: Some(trim_parens(parts[1])), ..r1 }
        } else {
            r1
        }
    } else if key == "flags"@ {
        ResolverV { flags: Some(val), ..r }
    } else if key == "order"@ {
        ResolverV { order: parse_u64(val), ..r }
    } else if key == "options"@ {
        ResolverV { options: Some(val), ..r }
    } else {
        r
    }
}

/// One line of `scutil --dns` output. A `DNS configuration` title starts a
/// section (scoped when its title says `scoped` or `service-specific`), a
/// `resolver #N` line starts a block, and `key : value` lines fill it in.
pub open spec fn dns_step(st: DnsState, raw: Seq<char>) -> DnsState {
    let trimmed = trim(trim_end(raw));
    if trimmed.len() == 0 {
        st
    } else if starts_with(trimmed, "DNS configuration"@) {
        let rest = trimmed.skip(17);
        DnsState {
            scope: if contains(rest, "scoped"@) || contains(rest, "service-specific"@) {
                ResolverScope::Scoped
            } else {
                ResolverScope::Default
            },
            out: flush(st.out, st.current),
            current: None,
        }
    } else if starts_with(trimmed, "resolver #"@) {
        let number = match parse_u32(trim(trimmed.skip(10))) {
            Some(n) => n,
            None => 0,
        };
        DnsState {
            out: flush(st.out, st.current),
            current: Some(new_resolver(number, st.scope)),
            ..st
        }
    } else {
        match st.current {
            None => st,
            Some(r) => match split_once(trimmed, ":"@) {
                None => st,
                Some((k, v)) => DnsState { current: Some(apply_kv(r, trim(k), trim(v))), ..st },
            },
        }
    }
}

pub open spec fn dns_step_fn() -> spec_fn(DnsState, Seq<char>) -> DnsState {
    |st: DnsState, l: Seq<char>| dns_step(st, l)
}

pub open spec fn dns_start() -> DnsState {
    DnsState { scope: ResolverScope::Default, out: seq![], current: None }
}

/// The resolvers that `parse` finds in `input`, in order.
pub open spec fn parse_resolvers(input: Seq<char>) -> Seq<ResolverV> {
    let st = fold_lines(dns_start(), lines(input), dns_step_fn());
    flush(st.out, st.current)
}

/// A `nameserver[N] : value` line adds its value, trimmed and whole, to the
/// open resolver's nameservers: the line is split at its first colon, so a
/// value that holds colons itself (an IPv6 address) is kept unchanged.
/// Nothing else of the resolver, and nothing before it, changes.
pub proof fn law_nameserver_value_whole(st: DnsState, raw: Seq<char>, key: Seq<char>, val: Seq<char>)
    requires
        st.current is Some,
        trim(trim_end(raw)) == key + ":"@ + val,
        starts_with(key, "nameserver["@),
        forall|j: int| 0 <= j < key.len() ==> key[j] != ':',
    ensures
        ({
            let r = st.current->0;
            let next = dns_step(st, raw);
            &&& next.scope == st.scope
            &&& next.out == st.out
            &&& next.current == Some(ResolverV { nameservers: r.nameservers.push(trim(val)), ..r })
        }),
{
    let line = trim(trim_end(raw));
    reveal_strlit(":");
    reveal_strlit("nameserver[");
    reveal_strlit("DNS configuration");
    reveal_strlit("resolver #");
    assert(":"@ =~= seq![':']);
    assert(line =~= key + seq![':'] + val);
    lemma_find_after_prefix(key, ':', val);
    assert(line.take(key.len() as int) =~= key);
    assert(line.skip(key.len() + 1int) =~= val);
    assert(line[0] == 'n') by {
        assert(key.take(11)[0] == key[0]);
    }
    assert(!starts_with(line, "DNS configuration"@)) by {
        if starts_with(line, "DNS configuration"@) {
            assert(line.take(17)[0] == line[0]);
        }
    }
    assert(!starts_with(line, "resolver #"@)) by {
        if starts_with(line, "resolver #"@) {
            assert(line.take(10)[0] == line[0]);
        }
    }
    lemma_trim_keeps_prefix(key, "nameserver["@);
    assert(line.len() > 0);
    assert(split_once(line, ":"@) == Some((key, val)));
    let r = st.current->0;
    assert(starts_with(trim(key), "nameserver["@));
    assert(apply_kv(r, trim(key), trim(val)) == ResolverV { nameservers: r.nameservers.push(trim(val)), ..r });
}

fn kv(r: Resolver, key: &Vec<char>, val: &Vec<char>) -> (out: Resolver)
    ensures
        out@ == apply_kv(r@, key@, val@),
{
    let mut r = r;
    let ns = to_chars("nameserver[");
    let sd = to_chars("search domain[");
    if has_prefix(key, &ns) {
        let v = to_string(val);
        proof {
            lemma_views_push(r.nameservers@, v);
        }
        r.nameservers.push(v);
    } else if has_prefix(key, &sd) {
        let v = to_string(val);
        proof {
            lemma_views_push(r.search@, v);
        }
        r.search.push(v);
    } else if same(key, &to_chars("domain")) {
        r.domain = Some(to_string(val));
    } else if same(key, &to_chars("if_index")) {
        let parts = split_words(val);
        if parts.len() > 0 {
            r.if_index = parse_u32_chars(&parts[0]);
        }
        if parts.len() > 1 {
            r.interface = Some(to_string(&without_parens(&parts[1])));
        }
    } else if same(key, &to_chars("flags")) {
        r.flags = Some(to_string(val));
    } else if same(key, &to_chars("order")) {
        r.order = parse_u64_chars(val);
    } else if same(key, &to_chars("options")) {
        r.options = Some(to_string(val));
    }
    r
}

/// Parse the output of `scutil --dns`.
pub fn parse(input: &str) -> (out: Vec<Resolver>)
    ensures
        views(out@) == parse_resolvers(input@),
{
    let ls = str_lines(input);
    let title = to_chars("DNS configuration");
    let res = to_chars("resolver #");
    let scoped = to_chars("scoped");
    let service = to_chars("service-specific");
    let colon = to_chars(":");
    let ghost lv = views(ls@);
    let ghost step = dns_step_fn();
    let mut scope = ResolverScope::Default;
    let mut out: Vec<Resolver> = Vec::new();
    let mut current: Option<Resolver> = None;
    proof {
        lemma_fold_lines_start(dns_start(), lv, step);
        assert(views(out@) =~= Seq::<ResolverV>::empty());
        reveal_strlit("DNS configuration");
        reveal_strlit("resolver #");
    }
    let mut k: usize = 0;
    while k < ls.len()
        invariant
            k <= ls@.len(),
            lv == views(ls@),
            lv == lines(input@),
            step == dns_step_fn(),
            title@ == "DNS configuration"@,
            title@.len() == 17,
            res@ == "resolver #"@,
            res@.len() == 10,
            scoped@ == "scoped"@,
            service@ == "service-specific"@,
            colon@ == ":"@,
            fold_lines(
                DnsState { scope, out: views(out@), current: opt_resolver(current) },
                lv.skip(k as int),
                step,
            ) == fold_lines(dns_start(), lv, step),
        decreases ls@.len() - k,
    {
        let ghost st = DnsState { scope, out: views(out@), current: opt_resolver(current) };
        proof {
            lemma_fold_lines_step(st, lv, k as int, step);
        }
        let t = trimmed(&trimmed_end(&ls[k]));
        if t.len() == 0 {
        } else if let Some(rest) = strip_prefix(&t, &title) {
            match current {
                Some(r) => {
                    proof {
                        lemma_views_push(out@, r);
                    }
                    out.push(r);
                },
                None => {},
            }
            current = None;
            scope =
                if has_substring(&rest, &scoped) || has_substring(&rest, &service) {
                    ResolverScope::Scoped
                } else {
                    ResolverScope::Default
                };
        } else if let Some(rest) = strip_prefix(&t, &res) {
            match current {
                Some(r) => {
                    proof {
                        lemma_views_push(out@, r);
                    }
                    out.push(r);
                },
                None => {},
            }
            let number = match parse_u32_chars(&trimmed(&rest)) {
                Some(n) => n,
                None => 0,
            };
            let r = Resolver {
                number,
                scope,
                nameservers: Vec::new(),
                search: Vec::new(),
                domain: None,
                if_index: None,
                interface: None,
                flags: None,
                order: None,
                options: None,
            };
            assert(views(r.nameservers@) =~= Seq::<Seq<char>>::empty());
            assert(views(r.search@) =~= Seq::<Seq<char>>::empty());
            current = Some(r);
        } else {
            current = match current {
                None => None,
                Some(r) => match split_once_at(&t, &colon) {
                    None => Some(r),
                    Some((key, val)) => Some(kv(r, &trimmed(&key), &trimmed(&val))),
                },
            };
        }
        k = k + 1;
    }
    proof {
        lemma_fold_lines_start(
            DnsState { scope, out: views(out@), current: opt_resolver(current) },
            lv,
            step,
        );
    }
    match current {
        Some(r) => {
            proof {
                lemma_views_push(out@, r);
            }
            out.push(r);
        },
        None => {},
    }
    out
}

} // verus!
