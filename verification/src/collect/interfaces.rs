//! `ifconfig` parser.
//!
//! Each interface block starts at column 0 and continues with tab-indented
//! lines. We only pull out the fields whichway cares about (MTU, status,
//! ether, inet/inet6 addresses, and the `PtP` peer for utun).

use vstd::prelude::*;

use crate::model::{opt_str, Interface, InterfaceV};
use crate::text::{
    fold_lines, has_prefix, is_whitespace, is_ws, lemma_fold_lines_start, lemma_fold_lines_step,
    lemma_position, lemma_views_push, lines, parse_u32, parse_u32_chars, position, position_of, split_once,
    split_once_at, split_words, starts_with, str_lines, strip_prefix, to_chars, to_string, trim,
    trimmed, views, words,
};

verus! {

pub open spec fn opt_iface(o: Option<Interface>) -> Option<InterfaceV> {
    match o {
        Some(i) => Some(i@),
        None => None,
    }
}

/// The text after `flags=` in the last token that starts with it, or the
/// empty text.
pub open spec fn header_flags(toks: Seq<Seq<char>>) -> Seq<char>
    decreases toks.len(),
{
    if toks.len() == 0 {
        seq![]
    } else if starts_with(toks.last(), "flags="@) {
        toks.last().skip(6)
    } else {
        header_flags(toks.drop_last())
    }
}

/// The number after the first `mtu` token, if it parses.
pub open spec fn header_mtu(toks: Seq<Seq<char>>) -> Option<u32> {
    let i = position(toks, "mtu"@);
    if 0 <= i && i + 1 < toks.len() {
        parse_u32(toks[i + 1])
    } else {
        None
    }
}

/// A new interface from a header line `name: flags=... mtu N`.
pub open spec fn header_iface(name: Seq<char>, rest: Seq<char>) -> InterfaceV {
    InterfaceV {
        name: trim(name),
        flags: header_flags(words(rest)),
        mtu: header_mtu(words(rest)),
        status: None,
        ether: None,
        inet: seq![],
        inet6: seq![],
        peer: None,
    }
}

/// The token after the first `-->` token, if any.
pub open spec fn peer_of(toks: Seq<Seq<char>>) -> Option<Seq<char>> {
    let i = position(toks, "-->"@);
    if 0 <= i && i + 1 < toks.len() {
        Some(toks[i + 1])
    } else {
        None
    }
}

/// An indented attribute line applied to the current interface.
pub open spec fn apply_attr(iface: InterfaceV, line: Seq<char>) -> InterfaceV {
    if starts_with(line, "inet "@) {
        let toks = words(line.skip(5));
        let with_addr = if toks.len() > 0 {
            InterfaceV { inet: iface.inet.push(toks[0]), ..iface }
        } else {
            iface
        };
        match peer_of(toks) {
            Some(p) => InterfaceV { peer: Some(p), ..with_addr },
            None => with_addr,
        }
    } else if starts_with(line, "inet6 "@) {
        let toks = words(line.skip(6));
        if toks.len() > 0 {
            InterfaceV { inet6: iface.inet6.push(toks[0]), ..iface }
        } else {
            iface
        }
    } else if starts_with(line, "ether "@) {
        let toks = words(line.skip(6));
        if toks.len() > 0 {
            InterfaceV { ether: Some(toks[0]), ..iface }
        } else {
            iface
        }
    } else if starts_with(line, "status: "@) {
        InterfaceV { status: Some(line.skip(8)), ..iface }
    } else {
        iface
    }
}

pub struct IfaceState {
    pub out: Seq<InterfaceV>,
    pub current: Option<InterfaceV>,
}

/// The finished interfaces with the current one appended, if any.
pub open spec fn flush(out: Seq<InterfaceV>, current: Option<InterfaceV>) -> Seq<InterfaceV> {
    match current {
        Some(i) => out.push(i),
        None => out,
    }
}

/// One line of `ifconfig` output. A line that starts in column 0 opens a
/// new block (its name is what comes before the first `:`); an indented
/// line adds to the current block.
pub open spec fn iface_step(st: IfaceState, raw: Seq<char>) -> IfaceState {
    let indented = raw.len() > 0 && is_ws(raw[0]);
    let line = trim(raw);
    if line.len() == 0 {
        st
    } else if !indented {
        let out = flush(st.out, st.current);
        match split_once(line, ":"@) {
            Some((name, rest)) => IfaceState { out, current: Some(header_iface(name, rest)) },
            None => IfaceState { out, current: None },
        }
    } else {
        match st.current {
            Some(iface) => IfaceState { current: Some(apply_attr(iface, line)), ..st },
            None => st,
        }
    }
}

pub open spec fn iface_step_fn() -> spec_fn(IfaceState, Seq<char>) -> IfaceState {
    |st: IfaceState, l: Seq<char>| iface_step(st, l)
}

/// The interfaces that `parse` finds in `input`.
pub open spec fn parse_interfaces(input: Seq<char>) -> Seq<InterfaceV> {
    let st = fold_lines(IfaceState { out: seq![], current: None }, lines(input), iface_step_fn());
    flush(st.out, st.current)
}

/// An indented `inet A --> P ...` line records `A` as another IPv4 address
/// of the open interface and `P`, the token right after the first `-->`,
/// as its point-to-point peer; nothing else changes.
pub proof fn law_inet_peer(st: IfaceState, raw: Seq<char>, j: int)
    requires
        st.current is Some,
        raw.len() > 0 && is_ws(raw[0]),
        starts_with(trim(raw), "inet "@),
        0 <= j && j + 1 < words(trim(raw).skip(5)).len(),
        words(trim(raw).skip(5))[j] == "-->"@,
        forall|k: int| 0 <= k < j ==> words(trim(raw).skip(5))[k] != "-->"@,
    ensures
        ({
            let toks = words(trim(raw).skip(5));
            let i = st.current->0;
            let next = iface_step(st, raw);
            &&& next.out == st.out
            &&& next.current == Some(InterfaceV { inet: i.inet.push(toks[0]), peer: Some(toks[j + 1]), ..i })
        }),
{
    let toks = words(trim(raw).skip(5));
    lemma_position(toks, "-->"@, j);
    reveal_strlit("inet ");
    reveal_strlit("inet6 ");
    assert(trim(raw).len() > 0);
}

fn flags_from(toks: &Vec<Vec<char>>) -> (r: Vec<char>)
    ensures
        r@ == header_flags(views(toks@)),
{
    let pre = to_chars("flags=");
    let mut r: Vec<char> = Vec::new();
    let mut i: usize = 0;
    while i < toks.len()
        invariant
            i <= toks@.len(),
            pre@ == "flags="@,
            r@ == header_flags(views(toks@).take(i as int)),
        decreases toks@.len() - i,
    {
        proof {
            reveal_strlit("flags=");
            assert(views(toks@).take(i + 1).drop_last() =~= views(toks@).take(i as int));
            assert(views(toks@).take(i + 1).last() == toks@[i as int]@);
        }
        match strip_prefix(&toks[i], &pre) {
            Some(rest) => {
                r = rest;
            },
            None => {},
        }
        i = i + 1;
    }
    assert(views(toks@).take(i as int) =~= views(toks@));
    r
}

fn header(name: &Vec<char>, rest: &Vec<char>) -> (r: Interface)
    ensures
        r@ == header_iface(name@, rest@),
{
    let toks = split_words(rest);
    let flags = flags_from(&toks);
    let mtu_kw = to_chars("mtu");
    let mtu = match position_of(&toks, &mtu_kw) {
        Some(i) => if i < toks.len() - 1 {
            parse_u32_chars(&toks[i + 1])
        } else {
            None
        },
        None => None,
    };
    let r = Interface {
        name: to_string(&trimmed(name)),
        flags: to_string(&flags),
        mtu,
        status: None,
        ether: None,
        inet: Vec::new(),
        inet6: Vec::new(),
        peer: None,
    };
    assert(views(r.inet@) =~= Seq::<Seq<char>>::empty());
    assert(views(r.inet6@) =~= Seq::<Seq<char>>::empty());
    r
}

fn attr(iface: Interface, line: &Vec<char>) -> (r: Interface)
    ensures
        r@ == apply_attr(iface@, line@),
{
    let mut iface = iface;
    let inet = to_chars("inet ");
    let inet6 = to_chars("inet6 ");
    let ether = to_chars("ether ");
    let status = to_chars("status: ");
    proof {
        reveal_strlit("inet ");
        reveal_strlit("inet6 ");
        reveal_strlit("ether ");
        reveal_strlit("status: ");
    }
    if let Some(rest) = strip_prefix(line, &inet) {
        let toks = split_words(&rest);
        if toks.len() > 0 {
            let a = to_string(&toks[0]);
            proof {
                lemma_views_push(iface.inet@, a);
            }
            iface.inet.push(a);
        }
        let arrow = to_chars("-->");
        match position_of(&toks, &arrow) {
            Some(i) => if i + 1 < toks.len() {
                iface.peer = Some(to_string(&toks[i + 1]));
            },
            None => {},
        }
        iface
    } else if let Some(rest) = strip_prefix(line, &inet6) {
        let toks = split_words(&rest);
        if toks.len() > 0 {
            let a = to_string(&toks[0]);
            proof {
                lemma_views_push(iface.inet6@, a);
            }
            iface.inet6.push(a);
        }
        iface
    } else if let Some(rest) = strip_prefix(line, &ether) {
        let toks = split_words(&rest);
        if toks.len() > 0 {
            iface.ether = Some(to_string(&toks[0]));
        }
        iface
    } else if let Some(rest) = strip_prefix(line, &status) {
        iface.status = Some(to_string(&rest));
        iface
    } else {
        iface
    }
}

/// Parse the output of `ifconfig`.
pub fn parse(input: &str) -> (out: Vec<Interface>)
    ensures
        views(out@) == parse_interfaces(input@),
{
    let ls = str_lines(input);
    let colon = to_chars(":");
    let ghost lv = views(ls@);
    let ghost step = iface_step_fn();
    let ghost start = IfaceState { out: seq![], current: None };
    let mut out: Vec<Interface> = Vec::new();
    let mut current: Option<Interface> = None;
    proof {
        lemma_fold_lines_start(start, lv, step);
        assert(views(out@) =~= Seq::<InterfaceV>::empty());
    }
    let mut k: usize = 0;
    while k < ls.len()
        invariant
            k <= ls@.len(),
            lv == views(ls@),
            lv == lines(input@),
            step == iface_step_fn(),
            start == (IfaceState { out: seq![], current: None }),
            colon@ == ":"@,
            fold_lines(
                IfaceState { out: views(out@), current: opt_iface(current) },
                lv.skip(k as int),
                step,
            ) == fold_lines(start, lv, step),
        decreases ls@.len() - k,
    {
        let ghost st = IfaceState { out: views(out@), current: opt_iface(current) };
        proof {
            lemma_fold_lines_step(st, lv, k as int, step);
        }
        let raw = &ls[k];
        let indented = raw.len() > 0 && is_whitespace(raw[0]);
        let line = trimmed(raw);
        if line.len() == 0 {
        } else if !indented {
            match current {
                Some(iface) => {
                    proof {
                        lemma_views_push(out@, iface);
                    }
                    out.push(iface);
                },
                None => {},
            }
            current = match split_once_at(&line, &colon) {
                Some((name, rest)) => Some(header(&name, &rest)),
                None => None,
            };
        } else {
            current = match current {
                Some(iface) => Some(attr(iface, &line)),
                None => None,
            };
        }
        k = k + 1;
    }
    proof {
        lemma_fold_lines_start(IfaceState { out: views(out@), current: opt_iface(current) }, lv, step);
    }
    match current {
        Some(iface) => {
            proof {
                lemma_views_push(out@, iface);
            }
            out.push(iface);
        },
        None => {},
    }
    out
}

} // verus!
