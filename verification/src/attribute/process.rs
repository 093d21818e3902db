//! Anchored process detection and install-path checks.
//!
//! The bare-substring `pgrep` form is intentionally avoided: `pgrep foo`
//! matches any commandline containing `foo`, which gives constant false
//! positives. We anchor the pattern at the start of the executable path.

use vstd::prelude::*;

use crate::text::{lines, str_lines, to_chars, to_string, trim, trimmed, views};

verus! {

/// Calls `std::path::Path::exists`. What is on disk decides the result, so
/// nothing is stated of it.
#[verifier::external_body]
fn path_exists(p: &str) -> bool {
    std::path::Path::new(p).exists()
}

/// Some entry of `found` is true.
pub open spec fn any_true(found: Seq<bool>) -> bool {
    exists|i: int| 0 <= i < found.len() && found[i]
}

/// Whether any probe found its path: true exactly when some entry is true.
pub fn any_found(found: &[bool]) -> (r: bool)
    ensures
        r == any_true(found@),
{
    let mut i: usize = 0;
    while i < found.len()
        invariant
            i <= found@.len(),
            forall|j: int| 0 <= j < i ==> !found@[j],
        decreases found@.len() - i,
    {
        if found[i] {
            return true;
        }
        i = i + 1;
    }
    false
}

/// Returns true if any of the given install paths exists. Each path is
/// handed to `Path::exists` as it is, and the answers decide the result
/// as `any_found` does; whether a path exists is decided by the disk, so
/// with no paths the answer is `false`.
pub fn any_path_exists(paths: &[&str]) -> (r: bool)
    ensures
        paths@.len() == 0 ==> !r,
        exists|found: Seq<bool>| found.len() == paths@.len() && r == #[trigger] any_true(found),
{
    let mut found: Vec<bool> = Vec::new();
    let mut i: usize = 0;
    while i < paths.len()
        invariant
            i <= paths@.len(),
            found@.len() == i,
        decreases paths@.len() - i,
    {
        found.push(path_exists(paths[i]));
        i = i + 1;
    }
    any_found(found.as_slice())
}

/// The `pgrep -fl` pattern for an executable-path anchor: `^<anchor>`.
pub fn pgrep_pattern(anchor: &str) -> (r: String)
    ensures
        r@ == "^"@ + anchor@,
{
    let mut v = to_chars("^");
    crate::text::push_all(&mut v, &to_chars(anchor));
    to_string(&v)
}

/// `pgrep` printed at least one non-blank line, i.e. some process matched.
pub fn pgrep_matched(output: &str) -> (r: bool)
    ensures
        r == exists|i: int| 0 <= i < lines(output@).len() && trim(#[trigger] lines(output@)[i]).len() > 0,
{
    let ls = str_lines(output);
    let ghost lv = views(ls@);
    let mut i: usize = 0;
    while i < ls.len()
        invariant
            i <= ls@.len(),
            lv == views(ls@),
            lv == lines(output@),
            forall|j: int| 0 <= j < i ==> trim(#[trigger] lv[j]).len() == 0,
        decreases ls@.len() - i,
    {
        if trimmed(&ls[i]).len() > 0 {
            assert(trim(lv[i as int]).len() > 0);
            return true;
        }
        i = i + 1;
    }
    false
}

} // verus!
