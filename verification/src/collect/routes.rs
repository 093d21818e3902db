//! `netstat -rn -f inet[6]` parser.
//!
//! The output is whitespace-aligned with a variable number of columns
//! depending on whether the `Expire` column is populated. We tolerate that by
//! splitting on whitespace and taking the first four/five columns positionally.

use vstd::prelude::*;

use crate::model::{IpFamily, Route, RouteV};
use crate::text::{
    contains, ends_with, fold_lines, has_prefix, has_substring, has_suffix, join, join_from,
    lemma_fold_lines_start, lemma_fold_lines_step, lemma_views_push, lemma_words_nonempty, lines, same, split_words,
    starts_with, str_lines, to_chars, to_string, trim, trim_end, trim_start, trimmed, trimmed_end,
    trimmed_start, views, words,
};

verus! {

/// The line that opens the table of `family`.
pub open spec fn table_title(family: IpFamily) -> Seq<char> {
    match family {
        IpFamily::V4 => "Internet:"@,
        IpFamily::V6 => "Internet6:"@,
    }
}

/// Where the parser stands after some lines.
pub struct RoutesState {
    pub in_table: bool,
    pub saw_header: bool,
    pub done: bool,
    pub out: Seq<RouteV>,
}

/// The route of a table row with at least four columns: destination,
/// gateway, flags, interface, and whatever follows as the expiry.
pub open spec fn route_row(family: IpFamily, cols: Seq<Seq<char>>) -> RouteV {
    RouteV {
        family,
        destination: cols[0],
        gateway: cols[1],
        flags: cols[2],
        interface: cols[3],
        expire: if cols.len() == 4 {
            None
        } else {
            Some(join(cols.skip(4), " "@))
        },
        label: None,
    }
}

/// One line of `netstat` output. Lines before the title of the wanted table
/// and before its `Destination` header are skipped; a blank line, or a
/// section title such as `Internet6:`, ends the table; a row with fewer
/// than four columns is skipped.
pub open spec fn routes_step(family: IpFamily, st: RoutesState, raw: Seq<char>) -> RoutesState {
    let line = trim_end(raw);
    if st.done {
        st
    } else if !st.in_table {
        if trim(line) == table_title(family) {
            RoutesState { in_table: true, ..st }
        } else {
            st
        }
    } else if !st.saw_header {
        if starts_with(trim_start(line), "Destination"@) {
            RoutesState { saw_header: true, ..st }
        } else {
            st
        }
    } else {
        let trimmed = trim(line);
        if trimmed.len() == 0 || (ends_with(trimmed, ":"@) && !contains(trimmed, " "@)) {
            RoutesState { done: true, ..st }
        } else {
            let cols = words(line);
            if cols.len() < 4 {
                st
            } else {
                RoutesState { out: st.out.push(route_row(family, cols)), ..st }
            }
        }
    }
}

pub open spec fn routes_step_fn(family: IpFamily) -> spec_fn(RoutesState, Seq<char>) -> RoutesState {
    |st: RoutesState, l: Seq<char>| routes_step(family, st, l)
}

pub open spec fn routes_start() -> RoutesState {
    RoutesState { in_table: false, saw_header: false, done: false, out: seq![] }
}

/// The routes that `parse` finds in `input`.
pub open spec fn parse_routes(input: Seq<char>, family: IpFamily) -> Seq<RouteV> {
    fold_lines(routes_start(), lines(input), routes_step_fn(family)).out
}

/// Parse the output of `netstat -rn -f inetX`.
///
/// Format reminder (macOS):
///
/// ```text
/// Routing tables
///
/// Internet:
/// Destination        Gateway            Flags               Netif Expire
/// default            192.168.6.1        UGScg                 en7
/// 10/8               link#25            UCS                 utun6
/// ```
pub fn parse(input: &str, family: IpFamily) -> (out: Vec<Route>)
    ensures
        views(out@) == parse_routes(input@, family),
        forall|i: int|
            0 <= i < out@.len() ==> {
                let r = #[trigger] out@[i];
                &&& r.family == family
                &&& r.destination@.len() > 0
                &&& r.gateway@.len() > 0
                &&& r.flags@.len() > 0
                &&& r.interface@.len() > 0
                &&& r.label.is_none()
            },
{
    let ls = str_lines(input);
    let want = match family {
        IpFamily::V4 => to_chars("Internet:"),
        IpFamily::V6 => to_chars("Internet6:"),
    };
    let destination = to_chars("Destination");
    let colon = to_chars(":");
    let space = to_chars(" ");
    let ghost lv = views(ls@);
    let ghost step = routes_step_fn(family);
    let mut in_table = false;
    let mut saw_header = false;
    let mut done = false;
    let mut out: Vec<Route> = Vec::new();
    proof {
        lemma_fold_lines_start(routes_start(), lv, step);
        assert(views(out@) =~= Seq::<RouteV>::empty());
    }
    let mut k: usize = 0;
    while k < ls.len()
        invariant
            k <= ls@.len(),
            lv == views(ls@),
            lv == lines(input@),
            step == routes_step_fn(family),
            want@ == table_title(family),
            destination@ == "Destination"@,
            colon@ == ":"@,
            space@ == " "@,
            fold_lines(
                RoutesState { in_table, saw_header, done, out: views(out@) },
                lv.skip(k as int),
                step,
            ) == fold_lines(routes_start(), lv, step),
            forall|i: int|
                0 <= i < out@.len() ==> {
                    let r = #[trigger] out@[i];
                    &&& r.family == family
                    &&& r.destination@.len() > 0
                    &&& r.gateway@.len() > 0
                    &&& r.flags@.len() > 0
                    &&& r.interface@.len() > 0
                    &&& r.label.is_none()
                },
        decreases ls@.len() - k,
    {
        let ghost st = RoutesState { in_table, saw_header, done, out: views(out@) };
        proof {
            lemma_fold_lines_step(st, lv, k as int, step);
        }
        let line = trimmed_end(&ls[k]);
        if done {
        } else if !in_table {
            if same(&trimmed(&line), &want) {
                in_table = true;
            }
        } else if !saw_header {
            if has_prefix(&trimmed_start(&line), &destination) {
                saw_header = true;
            }
        } else {
            let t = trimmed(&line);
            if t.len() == 0 || (has_suffix(&t, &colon) && !has_substring(&t, &space)) {
                done = true;
            } else {
                let cols = split_words(&line);
                proof {
                    lemma_words_nonempty(line@);
                }
                if cols.len() >= 4 {
                    assert(cols@[0]@ == words(line@)[0] && cols@[1]@ == words(line@)[1]);
                    assert(cols@[2]@ == words(line@)[2] && cols@[3]@ == words(line@)[3]);
                    let expire = if cols.len() == 4 {
                        None
                    } else {
                        Some(to_string(&join_from(&cols, 4, &space)))
                    };
                    let r = Route {
                        family,
                        destination: to_string(&cols[0]),
                        gateway: to_string(&cols[1]),
                        flags: to_string(&cols[2]),
                        interface: to_string(&cols[3]),
                        expire,
                        label: None,
                    };
                    proof {
                        lemma_views_push(out@, r);
                        assert(r@ == route_row(family, views(cols@)));
                    }
                    out.push(r);
                }
            }
        }
        k = k + 1;
    }
    proof {
        lemma_fold_lines_start(
            RoutesState { in_table, saw_header, done, out: views(out@) },
            lv,
            step,
        );
    }
    out
}

} // verus!
