//! Enforces the test-lifecycle hook convention on Python test classes.
//!
//! A method named `setUp` or `tearDown` must end with a call to the
//! overridden parent hook (`super().setUp()` / `super().tearDown()`), and the
//! mis-cased spellings `setup`, `teardown`, `Setup` and `Teardown` are
//! violations of their own. The checker reports violations; the fixer
//! repairs them with minimal line edits.
//!
//! Text that ruff's parser rejects is skipped: it yields no diagnostics and
//! no fix.

pub mod fix;
pub mod laws;
pub mod python;
pub mod rules;
pub mod text;
pub mod tree;

use vstd::prelude::*;
use vstd::string::StringSliceAdditionalSpecFns;
use crate::fix::{fix_tree, fixed_lines};
use crate::python::{parse_source, parsed_module};
use crate::rules::{check_tree, diagnostic_text, diagnostics, Diagnostic};
use crate::text::{rejoined, split_lines};

verus! {

/// The reports of `ds` for the file at `path`.
pub open spec fn rendered(path: Seq<char>, ds: Seq<Diagnostic>) -> Seq<Seq<char>> {
    ds.map_values(|d: Diagnostic| diagnostic_text(path, d))
}

/// The contents of a sequence of strings.
pub open spec fn strings_view(v: Seq<String>) -> Seq<Seq<char>> {
    v.map_values(|s: String| s@)
}

/// Checks the Python source text `src` of the file at `path`, and returns
/// one report `<path>:<line> <message>` per violation, in the order of a
/// depth-first walk of the module and its class bodies. Text that ruff's
/// parser rejects, or that is too long for it, yields no report.
pub fn check_source(path: &str, src: &str) -> (r: Vec<String>)
    ensures
        src.spec_bytes().len() > u32::MAX ==> r@.len() == 0,
        src.spec_bytes().len() <= u32::MAX ==> match parsed_module(src@) {
            Some(t) => strings_view(r@) == rendered(path@, diagnostics(t, src.spec_bytes())),
            None => r@.len() == 0,
        },
{
    let tree = match parse_source(src) {
        Some(t) => t,
        None => {
            return Vec::new();
        },
    };
    let ds = check_tree(&tree, src);
    let mut out: Vec<String> = Vec::new();
    let mut i: usize = 0;
    while i < ds.len()
        invariant
            i <= ds@.len(),
            strings_view(out@) == rendered(path@, ds@.take(i as int)),
        decreases ds@.len() - i,
    {
        let line = ds[i].render(path);
        let ghost prior = out@;
        out.push(line);
        assert(strings_view(out@) =~= strings_view(prior).push(line@));
        assert(rendered(path@, ds@.take(i + 1)) =~= rendered(path@, ds@.take(i as int)).push(
            diagnostic_text(path@, ds@[i as int]),
        ));
        i = i + 1;
    }
    assert(ds@.take(i as int) =~= ds@);
    out
}

/// Fixes the hook methods of the Python source text `src`. Returns the new
/// text, or `None` where nothing changes, in which case the file is to be
/// left exactly as it is. Text that ruff's parser rejects, or that is too
/// long for it, is left alone.
pub fn fix_source(src: &str) -> (r: Option<String>)
    ensures
        src.spec_bytes().len() > u32::MAX ==> r is None,
        src.spec_bytes().len() <= u32::MAX ==> match parsed_module(src@) {
            Some(t) => {
                &&& (r is None <==> fixed_lines(t, src@, src.spec_bytes()) == split_lines(src@))
                &&& (r matches Some(s) ==> s@ == rejoined(
                    fixed_lines(t, src@, src.spec_bytes()),
                    src@,
                ))
            },
            None => r is None,
        },
{
    match parse_source(src) {
        Some(t) => fix_tree(&t, src),
        None => None,
    }
}

} // verus!
