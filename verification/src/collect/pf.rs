//! `pfctl -sr` (rules) and `pfctl -sa` (all info including anchors).
//!
//! `pfctl` requires root in practice; both commands print to stderr if not.
//! We treat them as black-box text and emit one entry per non-empty line.

use vstd::prelude::*;

use crate::model::{PfRules, PfRulesV};
use crate::text::{
    eq_ignore_ascii_case, ends_with, fold_lines, has_prefix, has_suffix, lemma_fold_lines_start,
    lemma_fold_lines_step, lemma_views_push, lines, same_ignore_ascii_case, starts_with,
    str_lines, to_chars, to_string, trim, trimmed, views,
};

verus! {

/// Rules: every trimmed non-empty line that does not start with `No ALTQ`.
pub open spec fn rule_step(out: Seq<Seq<char>>, raw: Seq<char>) -> Seq<Seq<char>> {
    let l = trim(raw);
    if l.len() > 0 && !starts_with(l, "No ALTQ"@) {
        out.push(l)
    } else {
        out
    }
}

pub open spec fn rule_step_fn() -> spec_fn(Seq<Seq<char>>, Seq<char>) -> Seq<Seq<char>> {
    |out: Seq<Seq<char>>, l: Seq<char>| rule_step(out, l)
}

/// Anchors: the trimmed non-empty lines under an `ANCHORS:` title (in any
/// ASCII case), up to the next line that ends with `:`.
pub open spec fn anchor_step(st: (bool, Seq<Seq<char>>), raw: Seq<char>) -> (bool, Seq<Seq<char>>) {
    let l = trim(raw);
    if l.len() == 0 {
        st
    } else if ends_with(l, ":"@) {
        (eq_ignore_ascii_case(l, "ANCHORS:"@), st.1)
    } else if st.0 {
        (st.0, st.1.push(l))
    } else {
        st
    }
}

pub open spec fn anchor_step_fn() -> spec_fn((bool, Seq<Seq<char>>), Seq<char>) -> (
    bool,
    Seq<Seq<char>>,
) {
    |st: (bool, Seq<Seq<char>>), l: Seq<char>| anchor_step(st, l)
}

/// What `parse` finds in the outputs of `pfctl -sr` and `pfctl -sa`.
pub open spec fn parse_pf(rules_input: Seq<char>, all_input: Seq<char>) -> PfRulesV {
    PfRulesV {
        rules: fold_lines(seq![], lines(rules_input), rule_step_fn()),
        anchors: fold_lines((false, seq![]), lines(all_input), anchor_step_fn()).1,
    }
}

pub fn parse(rules_input: &str, all_input: &str) -> (p: PfRules)
    ensures
        p@ == parse_pf(rules_input@, all_input@),
{
    let altq = to_chars("No ALTQ");
    let colon = to_chars(":");
    let anchors_kw = to_chars("ANCHORS:");

    let ls = str_lines(rules_input);
    let ghost lv = views(ls@);
    let mut rules: Vec<String> = Vec::new();
    proof {
        lemma_fold_lines_start(seq![], lv, rule_step_fn());
        assert(views(rules@) =~= Seq::<Seq<char>>::empty());
    }
    let mut k: usize = 0;
    while k < ls.len()
        invariant
            k <= ls@.len(),
            lv == views(ls@),
            altq@ == "No ALTQ"@,
            fold_lines(views(rules@), lv.skip(k as int), rule_step_fn()) == fold_lines(
                seq![],
                lv,
                rule_step_fn(),
            ),
        decreases ls@.len() - k,
    {
        proof {
            lemma_fold_lines_step(views(rules@), lv, k as int, rule_step_fn());
        }
        let l = trimmed(&ls[k]);
        if l.len() > 0 && !has_prefix(&l, &altq) {
            let s = to_string(&l);
            proof {
                lemma_views_push(rules@, s);
            }
            rules.push(s);
        }
        k = k + 1;
    }
    proof {
        lemma_fold_lines_start(views(rules@), lv, rule_step_fn());
    }

    let ls2 = str_lines(all_input);
    let ghost lv2 = views(ls2@);
    let mut anchors: Vec<String> = Vec::new();
    let mut in_anchors = false;
    proof {
        lemma_fold_lines_start((false, seq![]), lv2, anchor_step_fn());
        assert(views(anchors@) =~= Seq::<Seq<char>>::empty());
    }
    let mut k: usize = 0;
    while k < ls2.len()
        invariant
            k <= ls2@.len(),
            lv2 == views(ls2@),
            colon@ == ":"@,
            anchors_kw@ == "ANCHORS:"@,
            fold_lines((in_anchors, views(anchors@)), lv2.skip(k as int), anchor_step_fn())
                == fold_lines((false, seq![]), lv2, anchor_step_fn()),
        decreases ls2@.len() - k,
    {
        proof {
            lemma_fold_lines_step((in_anchors, views(anchors@)), lv2, k as int, anchor_step_fn());
        }
        let l = trimmed(&ls2[k]);
        if l.len() == 0 {
        } else if has_suffix(&l, &colon) {
            in_anchors = same_ignore_ascii_case(&l, &anchors_kw);
        } else if in_anchors {
            let s = to_string(&l);
            proof {
                lemma_views_push(anchors@, s);
            }
            anchors.push(s);
        }
        k = k + 1;
    }
    proof {
        lemma_fold_lines_start((in_anchors, views(anchors@)), lv2, anchor_step_fn());
    }
    PfRules { rules, anchors }
}

} // verus!
