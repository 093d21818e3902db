//! `nettop -P -x -l 2 -J bytes_in,bytes_out,interface` parser.
//!
//! Output looks like:
//!
//! ```text
//!                  interface        bytes_in       bytes_out
//! launchd.1                                  0               0
//! mDNSResponder.461                    1498396          248922
//! ```
//!
//! Columns are positional. Bytes are the last two whitespace-separated tokens
//! on each row; interface (when present) is the token before that. The process
//! identifier `name.pid` is everything else on the left. macOS truncates long
//! names so we just take it verbatim.

use vstd::prelude::*;

use crate::model::{ThroughputRow, ThroughputRowV};
use crate::text::{
    ends_with, lemma_join_ends, contains, fold_lines, has_prefix, has_substring, is_digit, join, lemma_fold_lines_start,
    lemma_fold_lines_step, lemma_views_push, lines, parse_u64, parse_u64_chars, split_words,
    starts_with, str_lines, to_chars, to_string, trim, trim_end, trimmed, trimmed_end, views,
    words,
};

verus! {

/// The interface-name prefixes that nettop prints.
pub open spec fn iface_prefixes() -> Seq<Seq<char>> {
    seq!["en"@, "utun"@, "lo"@, "bridge"@, "awdl"@, "llw"@, "ap"@, "gif"@, "stf"@, "anpi"@]
}

/// A token looks like an interface name: a known prefix and a final digit.
pub open spec fn iface_like(s: Seq<char>) -> bool {
    &&& s.len() > 0
    &&& is_digit(s.last())
    &&& exists|i: int| 0 <= i < iface_prefixes().len() && starts_with(s, #[trigger] iface_prefixes()[i])
}

fn looks_like_iface(s: &Vec<char>) -> (r: bool)
    ensures
        r == iface_like(s@),
{
    if s.len() == 0 {
        return false;
    }
    let last = s[s.len() - 1] as u32;
    if last < 48 || last > 57 {
        return false;
    }
    let prefixes: [&str; 10] = ["en", "utun", "lo", "bridge", "awdl", "llw", "ap", "gif", "stf", "anpi"];
    let mut i: usize = 0;
    assert(is_digit(s@.last()));
    while i < 10
        invariant
            i <= 10,
            s@.len() > 0,
            is_digit(s@.last()),
            prefixes@.len() == 10,
            forall|j: int| 0 <= j < 10 ==> (#[trigger] prefixes@[j])@ == iface_prefixes()[j],
            forall|j: int| 0 <= j < i ==> !starts_with(s@, #[trigger] iface_prefixes()[j]),
        decreases 10 - i,
    {
        if has_prefix(s, &to_chars(prefixes[i])) {
            assert(starts_with(s@, iface_prefixes()[i as int]));
            assert(is_digit(s@.last()));
            return true;
        }
        i = i + 1;
    }
    false
}

/// Whether a line is the column header.
pub open spec fn is_header(line: Seq<char>) -> bool {
    contains(line, "bytes_in"@) && contains(line, "bytes_out"@)
}

/// The row of a line whose last two tokens parse as byte counts.
pub open spec fn row_of(cols: Seq<Seq<char>>, bytes_in: u64, bytes_out: u64) -> ThroughputRowV {
    let n = cols.len();
    let third = cols[n - 3];
    if iface_like(third) && n >= 4 {
        ThroughputRowV { process: join(cols.take(n - 3), " "@), interface: third, bytes_in, bytes_out }
    } else {
        ThroughputRowV { process: join(cols.take(n - 2), " "@), interface: seq![], bytes_in, bytes_out }
    }
}

/// One line of nettop output. Rows come after the first header line; later
/// header lines are skipped, as are rows with fewer than three tokens or
/// whose last two tokens are not unsigned integers.
pub open spec fn row_step(st: (bool, Seq<ThroughputRowV>), raw: Seq<char>) -> (
    bool,
    Seq<ThroughputRowV>,
) {
    let line = trim_end(raw);
    if trim(line).len() == 0 {
        st
    } else if !st.0 {
        (is_header(line), st.1)
    } else if is_header(line) {
        st
    } else {
        let cols = words(line);
        let n = cols.len();
        if n < 3 {
            st
        } else {
            match (parse_u64(cols[n - 1]), parse_u64(cols[n - 2])) {
                (Some(bytes_out), Some(bytes_in)) => (st.0, st.1.push(row_of(cols, bytes_in, bytes_out))),
                _ => st,
            }
        }
    }
}

pub open spec fn row_step_fn() -> spec_fn((bool, Seq<ThroughputRowV>), Seq<char>) -> (
    bool,
    Seq<ThroughputRowV>,
) {
    |st: (bool, Seq<ThroughputRowV>), l: Seq<char>| row_step(st, l)
}

/// The rows that `parse` finds in `input`.
pub open spec fn parse_throughput(input: Seq<char>) -> Seq<ThroughputRowV> {
    fold_lines((false, seq![]), lines(input), row_step_fn()).1
}

/// A data row (after the header, not blank, at least three tokens, the
/// last two unsigned integers) adds one row: the byte counts are the last
/// two tokens; when the token before them looks like an interface (and
/// something precedes it) it is the interface and the process is every
/// token before it, else the interface is empty and the process is every
/// token before the counts; the process tokens are joined with single
/// spaces, so a name with spaces keeps all its words.
pub proof fn law_row_fields(st: (bool, Seq<ThroughputRowV>), raw: Seq<char>, bytes_in: u64, bytes_out: u64)
    requires
        st.0,
        trim(trim_end(raw)).len() > 0,
        !is_header(trim_end(raw)),
        words(trim_end(raw)).len() >= 3,
        parse_u64(words(trim_end(raw))[words(trim_end(raw)).len() - 2]) == Some(bytes_in),
        parse_u64(words(trim_end(raw))[words(trim_end(raw)).len() - 1]) == Some(bytes_out),
    ensures
        ({
            let cols = words(trim_end(raw));
            let n = cols.len();
            let next = row_step(st, raw);
            let row = next.1.last();
            &&& next.0
            &&& next.1.len() == st.1.len() + 1
            &&& next.1.drop_last() == st.1
            &&& row.bytes_in == bytes_in
            &&& row.bytes_out == bytes_out
            &&& (n >= 4 && iface_like(cols[n - 3])) ==> row.interface == cols[n - 3] && row.process
                == join(cols.take(n - 3), " "@)
            &&& !(n >= 4 && iface_like(cols[n - 3])) ==> row.interface.len() == 0 && row.process
                == join(cols.take(n - 2), " "@)
            &&& starts_with(row.process, cols[0])
            &&& !(n >= 4 && iface_like(cols[n - 3])) ==> ends_with(row.process, cols[n - 3])
        }),
{
    let next = row_step(st, raw);
    let cols = words(trim_end(raw));
    let n = cols.len();
    if n >= 4 && iface_like(cols[n - 3]) {
        lemma_join_ends(cols.take(n - 3), " "@);
    } else {
        lemma_join_ends(cols.take(n - 2), " "@);
    }
    assert(next.1.drop_last() =~= st.1);
}

/// `parts[..n].join(" ")`.
fn join_first(parts: &Vec<Vec<char>>, n: usize) -> (r: Vec<char>)
    requires
        n <= parts@.len(),
    ensures
        r@ == join(views(parts@).take(n as int), " "@),
{
    let mut head: Vec<Vec<char>> = Vec::new();
    let mut i: usize = 0;
    while i < n
        invariant
            i <= n <= parts@.len(),
            views(head@) == views(parts@).take(i as int),
        decreases n - i,
    {
        let c = crate::text::slice_of(&parts[i], 0, parts[i].len());
        assert(parts@[i as int]@.subrange(0, parts@[i as int]@.len() as int) =~= parts@[i as int]@);
        proof {
            lemma_views_push(head@, c);
            assert(views(parts@).take(i + 1) =~= views(parts@).take(i as int).push(c@));
        }
        head.push(c);
        i = i + 1;
    }
    let space = to_chars(" ");
    let r = crate::text::join_from(&head, 0, &space);
    assert(views(head@).skip(0) =~= views(head@));
    r
}

pub fn parse(input: &str) -> (out: Vec<ThroughputRow>)
    ensures
        views(out@) == parse_throughput(input@),
{
    let ls = str_lines(input);
    let bin = to_chars("bytes_in");
    let bout = to_chars("bytes_out");
    let ghost lv = views(ls@);
    let mut header_seen = false;
    let mut out: Vec<ThroughputRow> = Vec::new();
    proof {
        lemma_fold_lines_start((false, seq![]), lv, row_step_fn());
        assert(views(out@) =~= Seq::<ThroughputRowV>::empty());
    }
    let mut k: usize = 0;
    while k < ls.len()
        invariant
            k <= ls@.len(),
            lv == views(ls@),
            lv == lines(input@),
            bin@ == "bytes_in"@,
            bout@ == "bytes_out"@,
            fold_lines((header_seen, views(out@)), lv.skip(k as int), row_step_fn())
                == fold_lines((false, seq![]), lv, row_step_fn()),
        decreases ls@.len() - k,
    {
        proof {
            lemma_fold_lines_step((header_seen, views(out@)), lv, k as int, row_step_fn());
        }
        let line = trimmed_end(&ls[k]);
        let header = has_substring(&line, &bin) && has_substring(&line, &bout);
        if trimmed(&line).len() == 0 {
        } else if !header_seen {
            header_seen = header;
        } else if header {
        } else {
            let cols = split_words(&line);
            let n = cols.len();
            if n >= 3 {
                match (parse_u64_chars(&cols[n - 1]), parse_u64_chars(&cols[n - 2])) {
                    (Some(bytes_out), Some(bytes_in)) => {
                        let third = &cols[n - 3];
                        let row = if looks_like_iface(third) && n >= 4 {
                            ThroughputRow {
                                process: to_string(&join_first(&cols, n - 3)),
                                interface: to_string(third),
                                bytes_in,
                                bytes_out,
                            }
                        } else {
                            ThroughputRow {
                                process: to_string(&join_first(&cols, n - 2)),
                                interface: String::new(),
                                bytes_in,
                                bytes_out,
                            }
                        };
                        proof {
                            lemma_views_push(out@, row);
                            assert(row@ == row_of(views(cols@), bytes_in, bytes_out));
                        }
                        out.push(row);
                    },
                    _ => {},
                }
            }
        }
        k = k + 1;
    }
    proof {
        lemma_fold_lines_start((header_seen, views(out@)), lv, row_step_fn());
    }
    out
}

} // verus!
