//! `lsof -i -P -n` parser.
//!
//! Output is a fixed-width-ish table. The COMMAND column can contain spaces
//! (uncommon on macOS but possible) so we split greedily from the right on
//! the well-defined trailing columns.

use vstd::prelude::*;

use crate::model::{Socket, SocketV};
use crate::text::{
    fold_lines, has_prefix, join, join_from, lemma_fold_lines_start, lemma_fold_lines_step,
    lemma_views_push, lines, parse_u32, parse_u32_chars, rsplit_once, rsplit_once_at, split_once,
    split_once_at, split_words, starts_with, str_lines, to_chars, to_string, trim_end,
    trim_start, trimmed_end, trimmed_start, views, words,
};

verus! {

/// `str::trim_end_matches(')')`.
pub open spec fn trim_close_parens(s: Seq<char>) -> Seq<char>
    decreases s.len(),
{
    if s.len() > 0 && s.last() == ')' {
        trim_close_parens(s.drop_last())
    } else {
        s
    }
}

fn without_close_parens(s: &Vec<char>) -> (r: Vec<char>)
    ensures
        r@ == trim_close_parens(s@),
{
    let mut e = s.len();
    assert(s@.take(e as int) =~= s@);
    while e > 0 && s[e - 1] == ')'
        invariant
            e <= s@.len(),
            trim_close_parens(s@) == trim_close_parens(s@.take(e as int)),
        decreases e,
    {
        assert(s@.take(e as int).drop_last() =~= s@.take(e - 1));
        e = e - 1;
    }
    assert(s@.take(e as int) =~= s@.subrange(0, e as int));
    crate::text::slice_of(s, 0, e)
}

/// The NAME column split into local endpoint, remote endpoint and state:
///   `127.0.0.1:50000->127.0.0.1:80 (ESTABLISHED)`
///   `*:443 (LISTEN)`
///   `127.0.0.1:50000`
pub open spec fn split_name(name: Seq<char>) -> (Seq<char>, Seq<char>, Option<Seq<char>>) {
    let (endpoints, state) = match rsplit_once(name, " ("@) {
        Some((ep, s)) => (ep, Some(trim_close_parens(s))),
        None => (name, None),
    };
    match split_once(endpoints, "->"@) {
        Some((l, r)) => (l, r, state),
        None => (endpoints, seq![], state),
    }
}

fn parse_name(name: &Vec<char>) -> (r: (Vec<char>, Vec<char>, Option<Vec<char>>))
    ensures
        split_name(name@) == (r.0@, r.1@, match r.2 {
            Some(s) => Some(s@),
            None => None,
        }),
{
    let open = to_chars(" (");
    let arrow = to_chars("->");
    let (endpoints, state) = match rsplit_once_at(name, &open) {
        Some((ep, s)) => (ep, Some(without_close_parens(&s))),
        None => (crate::text::slice_of(name, 0, name.len()), None),
    };
    assert(name@.subrange(0, name@.len() as int) =~= name@);
    match split_once_at(&endpoints, &arrow) {
        Some((l, r)) => (l, r, state),
        None => (endpoints, Vec::new(), state),
    }
}

/// The socket of a row with at least nine columns: COMMAND PID USER FD TYPE
/// DEVICE SIZE/OFF NODE NAME, where NAME may contain spaces.
pub open spec fn socket_row(cols: Seq<Seq<char>>) -> SocketV {
    let (local, remote, state) = split_name(join(cols.skip(8), " "@));
    SocketV {
        command: cols[0],
        pid: match parse_u32(cols[1]) {
            Some(p) => p,
            None => 0,
        },
        user: cols[2],
        fd: cols[3],
        kind: cols[4],
        protocol: cols[7],
        local,
        remote,
        state,
    }
}

/// One line of `lsof` output: rows after the `COMMAND` header with at least
/// nine columns become sockets.
pub open spec fn socket_step(st: (bool, Seq<SocketV>), raw: Seq<char>) -> (bool, Seq<SocketV>) {
    let line = trim_end(raw);
    if line.len() == 0 {
        st
    } else if !st.0 {
        (starts_with(trim_start(line), "COMMAND"@), st.1)
    } else {
        let cols = words(line);
        if cols.len() < 9 {
            st
        } else {
            (st.0, st.1.push(socket_row(cols)))
        }
    }
}

pub open spec fn socket_step_fn() -> spec_fn((bool, Seq<SocketV>), Seq<char>) -> (
    bool,
    Seq<SocketV>,
) {
    |st: (bool, Seq<SocketV>), l: Seq<char>| socket_step(st, l)
}

/// The sockets that `parse` finds in `input`.
pub open spec fn parse_sockets(input: Seq<char>) -> Seq<SocketV> {
    fold_lines((false, seq![]), lines(input), socket_step_fn()).1
}

/// Parse standard `lsof -i -P -n` output.
///
/// Header line:
///
/// ```text
/// COMMAND   PID    USER   FD    TYPE  DEVICE SIZE/OFF NODE NAME
/// ```
pub fn parse(input: &str) -> (out: Vec<Socket>)
    ensures
        views(out@) == parse_sockets(input@),
{
    let ls = str_lines(input);
    let command = to_chars("COMMAND");
    let space = to_chars(" ");
    let ghost lv = views(ls@);
    let mut header_seen = false;
    let mut out: Vec<Socket> = Vec::new();
    proof {
        lemma_fold_lines_start((false, seq![]), lv, socket_step_fn());
        assert(views(out@) =~= Seq::<SocketV>::empty());
    }
    let mut k: usize = 0;
    while k < ls.len()
        invariant
            k <= ls@.len(),
            lv == views(ls@),
            lv == lines(input@),
            command@ == "COMMAND"@,
            space@ == " "@,
            fold_lines((header_seen, views(out@)), lv.skip(k as int), socket_step_fn())
                == fold_lines((false, seq![]), lv, socket_step_fn()),
        decreases ls@.len() - k,
    {
        proof {
            lemma_fold_lines_step((header_seen, views(out@)), lv, k as int, socket_step_fn());
        }
        let line = trimmed_end(&ls[k]);
        if line.len() == 0 {
        } else if !header_seen {
            header_seen = has_prefix(&trimmed_start(&line), &command);
        } else {
            let cols = split_words(&line);
            if cols.len() >= 9 {
                let name = join_from(&cols, 8, &space);
                let (local, remote, state) = parse_name(&name);
                let pid = match parse_u32_chars(&cols[1]) {
                    Some(p) => p,
                    None => 0,
                };
                let s = Socket {
                    command: to_string(&cols[0]),
                    pid,
                    user: to_string(&cols[2]),
                    fd: to_string(&cols[3]),
                    kind: to_string(&cols[4]),
                    protocol: to_string(&cols[7]),
                    local: to_string(&local),
                    remote: to_string(&remote),
                    state: match state {
                        Some(st) => Some(to_string(&st)),
                        None => None,
                    },
                };
                proof {
                    lemma_views_push(out@, s);
                    assert(s@ == socket_row(views(cols@)));
                }
                out.push(s);
            }
        }
        k = k + 1;
    }
    proof {
        lemma_fold_lines_start((header_seen, views(out@)), lv, socket_step_fn());
    }
    out
}

} // verus!
