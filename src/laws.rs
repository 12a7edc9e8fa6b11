//! Properties of the checker and the fixer that hold for every input.

use vstd::prelude::*;
use crate::fix::{
    body_indent, edit_method, fix_all, fix_method, fixed_lines, last_line, mentions_call,
    rebuilt_block, renamed_def, without_calls,
};
use crate::rules::{
    call_text, diagnostics, hook_name, hook_of_name, is_noop_body, line_number, stmt_diagnostics,
    Diagnostic, Hook, Violation,
};
use crate::text::{contains, line_of, occurs_at, split_lines};
use crate::tree::{methods, stmt_methods, Statement, StatementKind};

verus! {

/// The name of a function definition; empty for any other statement.
pub open spec fn def_name(s: Statement) -> Seq<char> {
    match s.kind {
        StatementKind::FunctionDef { name, .. } => name@,
        _ => seq![],
    }
}

/// Whether the walk reaches no function whose name is a hook name, in any
/// of the spellings the rules know.
pub open spec fn no_hook_names(stmts: Seq<Statement>) -> bool {
    forall|i: int|
        0 <= i < methods(stmts).len() ==> hook_of_name(def_name(#[trigger] methods(stmts)[i])) is None
}

/// A module in which no function that the walk reaches bears a hook name
/// draws no diagnostic.
pub proof fn lemma_no_hook_names_no_diagnostics(stmts: Seq<Statement>, src: Seq<u8>)
    requires
        no_hook_names(stmts),
    ensures
        diagnostics(stmts, src) == Seq::<Diagnostic>::empty(),
    decreases stmts,
{
    if stmts.len() > 0 {
        let init = stmts.drop_last();
        let last = stmts.last();
        assert(methods(stmts) == methods(init) + stmt_methods(last));
        assert forall|i: int| 0 <= i < methods(init).len() implies hook_of_name(
            def_name(#[trigger] methods(init)[i]),
        ) is None by {
            assert(methods(stmts)[i] == methods(init)[i]);
        }
        assert forall|i: int| 0 <= i < stmt_methods(last).len() implies hook_of_name(
            def_name(#[trigger] stmt_methods(last)[i]),
        ) is None by {
            assert(methods(stmts)[methods(init).len() + i] == stmt_methods(last)[i]);
        }
        lemma_no_hook_names_no_diagnostics(init, src);
        lemma_stmt_without_hook_names(last, src);
        assert(diagnostics(stmts, src) =~= Seq::<Diagnostic>::empty());
    }
}

proof fn lemma_stmt_without_hook_names(s: Statement, src: Seq<u8>)
    requires
        forall|i: int|
            0 <= i < stmt_methods(s).len() ==> hook_of_name(def_name(#[trigger] stmt_methods(s)[i]))
                is None,
    ensures
        stmt_diagnostics(s, src) == Seq::<Diagnostic>::empty(),
    decreases s,
{
    match s.kind {
        StatementKind::FunctionDef { .. } => {
            assert(stmt_methods(s)[0] == s);
        },
        StatementKind::ClassDef { body } => {
            lemma_no_hook_names_no_diagnostics(body@, src);
        },
        _ => {},
    }
}

/// A hook method whose body is empty or a lone `pass` draws no diagnostic
/// about its parent call, and the fixer leaves its lines as they are, except
/// for the spelling of its name: a mis-cased name is still reported, and is
/// corrected on the definition line alone.
pub proof fn lemma_noop_body_exempt(s: Statement, lines: Seq<Seq<char>>, src: Seq<u8>)
    requires
        s.kind matches StatementKind::FunctionDef { name, body, .. } && hook_of_name(name@) is Some
            && is_noop_body(body@),
    ensures
        s.kind matches StatementKind::FunctionDef { name, name_start, body } ==> {
            let h = hook_of_name(name@)->0;
            let d = line_of(src, name_start as int) as int;
            let e = last_line(name_start, body@, src);
            &&& name@ == hook_name(h) ==> stmt_diagnostics(s, src) == Seq::<Diagnostic>::empty()
            &&& name@ == hook_name(h) ==> fix_method(lines, s, src) == lines
            &&& name@ != hook_name(h) ==> stmt_diagnostics(s, src) == seq![
                Diagnostic {
                    line: line_number(src, name_start as int),
                    violation: Violation::Casing,
                },
            ]
            &&& name@ != hook_name(h) && 0 <= d <= e < lines.len() ==> fix_method(lines, s, src)
                == lines.update(d, renamed_def(lines[d], name@, h))
            &&& !(0 <= d <= e < lines.len()) ==> fix_method(lines, s, src) == lines
        },
{
    match s.kind {
        StatementKind::FunctionDef { name, name_start, body } => {
            let h = hook_of_name(name@)->0;
            let d = line_of(src, name_start as int) as int;
            let e = last_line(name_start, body@, src);
            if 0 <= d <= e < lines.len() {
                let block = rebuilt_block(lines, h, name@, d, e, true);
                if name@ == hook_name(h) {
                    assert(lines.take(d) + block + lines.skip(e + 1) =~= lines);
                } else {
                    assert(lines.take(d) + block + lines.skip(e + 1) =~= lines.update(
                        d,
                        renamed_def(lines[d], name@, h),
                    ));
                }
            }
        },
        _ => {},
    }
}

proof fn lemma_without_calls_clean(ls: Seq<Seq<char>>)
    ensures
        forall|k: int|
            0 <= k < without_calls(ls).len() ==> !mentions_call(#[trigger] without_calls(ls)[k]),
        without_calls(ls).len() <= ls.len(),
    decreases ls.len(),
{
    if ls.len() > 0 {
        lemma_without_calls_clean(ls.drop_last());
    }
}

proof fn lemma_without_calls_keeps_clean(ls: Seq<Seq<char>>)
    requires
        forall|k: int| 0 <= k < ls.len() ==> !mentions_call(#[trigger] ls[k]),
    ensures
        without_calls(ls) == ls,
    decreases ls.len(),
{
    if ls.len() > 0 {
        lemma_without_calls_keeps_clean(ls.drop_last());
        assert(ls.drop_last().push(ls.last()) =~= ls);
    }
}

proof fn lemma_without_calls_all_kept(ls: Seq<Seq<char>>)
    requires
        without_calls(ls).len() == ls.len(),
    ensures
        forall|k: int| 0 <= k < ls.len() ==> !mentions_call(#[trigger] ls[k]),
    decreases ls.len(),
{
    if ls.len() > 0 {
        lemma_without_calls_clean(ls.drop_last());
        if mentions_call(ls.last()) {
            assert(false);
        }
        lemma_without_calls_all_kept(ls.drop_last());
        assert forall|k: int| 0 <= k < ls.len() implies !mentions_call(#[trigger] ls[k]) by {
            if k < ls.len() - 1 {
                assert(ls[k] == ls.drop_last()[k]);
            }
        }
    }
}

proof fn lemma_call_line_mentions(indent: Seq<char>, h: Hook)
    ensures
        mentions_call(indent + call_text(h)),
{
    let l = indent + call_text(h);
    assert(l.subrange(indent.len() as int, (indent.len() + call_text(h).len()) as int) =~= call_text(h));
    assert(occurs_at(l, call_text(h), indent.len() as int));
    match h {
        Hook::SetUp => assert(contains(l, call_text(Hook::SetUp))),
        Hook::TearDown => assert(contains(l, call_text(Hook::TearDown))),
    }
}

/// The fix of a method whose body starts below its definition line, and is
/// not a no-op, rebuilds its lines as: the definition line with the name
/// spelled correctly, the body lines that mention no parent call, in order,
/// and last the parent call of the hook at the body's indentation.
pub proof fn lemma_fixed_method_ends_in_call(
    lines: Seq<Seq<char>>,
    h: Hook,
    name: Seq<char>,
    d: int,
    e: int,
)
    requires
        0 <= d < e < lines.len(),
        hook_of_name(name) == Some(h),
    ensures
        ({
            let def_line = renamed_def(lines[d], name, h);
            let kept = without_calls(lines.subrange(d + 1, e + 1));
            &&& edit_method(lines, h, name, d, e, false) == lines.take(d) + seq![def_line] + kept
                + seq![body_indent(def_line, kept) + call_text(h)] + lines.skip(e + 1)
            &&& forall|k: int| 0 <= k < kept.len() ==> !mentions_call(#[trigger] kept[k])
        }),
{
    let def_line = renamed_def(lines[d], name, h);
    let body = lines.subrange(d + 1, e + 1);
    let kept = without_calls(body);
    lemma_without_calls_clean(body);
    if kept.len() == e - d {
        lemma_without_calls_all_kept(body);
        assert(lines[e] == body[e - d - 1]);
    }
    assert(lines.take(d) + rebuilt_block(lines, h, name, d, e, false) + lines.skip(e + 1) =~= lines.take(d)
        + seq![def_line] + kept + seq![body_indent(def_line, kept) + call_text(h)] + lines.skip(e + 1));
}

/// Fixing a fixed method again changes nothing: once a method has been
/// fixed, a second fix of the same method, now under its correct name and
/// over its new line range, leaves the lines as they are. This is shown for
/// methods whose body starts below their definition line.
pub proof fn lemma_fix_idempotent(
    lines: Seq<Seq<char>>,
    h: Hook,
    name: Seq<char>,
    d: int,
    e: int,
    noop: bool,
)
    requires
        0 <= d < e < lines.len(),
        hook_of_name(name) == Some(h),
    ensures
        ({
            let out = edit_method(lines, h, name, d, e, noop);
            let e2 = d + rebuilt_block(lines, h, name, d, e, noop).len() - 1;
            edit_method(out, h, hook_name(h), d, e2, noop) == out
        }),
{
    let out = edit_method(lines, h, name, d, e, noop);
    let block = rebuilt_block(lines, h, name, d, e, noop);
    let e2 = d + block.len() - 1;
    let def_line = renamed_def(lines[d], name, h);
    assert(out == lines.take(d) + block + lines.skip(e + 1));
    assert(out.take(d) =~= lines.take(d));
    assert(out.subrange(d, e2 + 1) =~= block);
    assert(out.skip(e2 + 1) =~= lines.skip(e + 1));
    assert(out[d] == def_line);
    assert(renamed_def(out[d], hook_name(h), h) == def_line);
    if noop {
        assert(rebuilt_block(out, h, hook_name(h), d, e2, noop) =~= block);
    } else {
        lemma_fixed_method_ends_in_call(lines, h, name, d, e);
        let kept = without_calls(lines.subrange(d + 1, e + 1));
        let call_line = body_indent(def_line, kept) + call_text(h);
        assert(block =~= seq![def_line] + kept + seq![call_line]);
        lemma_call_line_mentions(body_indent(def_line, kept), h);
        let body2 = out.subrange(d + 1, e2 + 1);
        assert(body2 =~= kept.push(call_line));
        assert(body2.drop_last() =~= kept);
        lemma_without_calls_keeps_clean(kept);
        assert(without_calls(body2) == kept);
        assert(rebuilt_block(out, h, hook_name(h), d, e2, noop) =~= block);
    }
    assert(out.take(d) + rebuilt_block(out, h, hook_name(h), d, e2, noop) + out.skip(e2 + 1) =~= out);
}

} // verus!

verus! {

/// A method whose name is a mis-cased hook name draws exactly one
/// diagnostic, the casing one at its definition line, whatever its body
/// holds: the call rule is not applied to it.
pub proof fn lemma_miscased_reported_once(s: Statement, src: Seq<u8>)
    requires
        s.kind matches StatementKind::FunctionDef { name, .. } && hook_of_name(name@) is Some
            && name@ != hook_name(hook_of_name(name@)->0),
    ensures
        s.kind matches StatementKind::FunctionDef { name_start, .. } ==> stmt_diagnostics(s, src)
            == seq![
            Diagnostic {
                line: line_number(src, name_start as int),
                violation: Violation::Casing,
            },
        ],
{
}

/// Whether the fixer has nothing to do for the method `s`: it is no hook, or
/// a correctly named hook whose body is empty or a lone `pass`.
pub open spec fn exempt_from_fix(s: Statement) -> bool {
    s.kind matches StatementKind::FunctionDef { name, body, .. } ==> match hook_of_name(name@) {
        None => true,
        Some(h) => name@ == hook_name(h) && is_noop_body(body@),
    }
}

/// The fixer leaves the lines alone for a method that is exempt from it.
pub proof fn lemma_exempt_method_untouched(lines: Seq<Seq<char>>, s: Statement, src: Seq<u8>)
    requires
        exempt_from_fix(s),
    ensures
        fix_method(lines, s, src) == lines,
{
    match s.kind {
        StatementKind::FunctionDef { name, .. } => {
            if hook_of_name(name@) is Some {
                lemma_noop_body_exempt(s, lines, src);
            }
        },
        _ => {},
    }
}

proof fn lemma_fix_all_exempt(lines: Seq<Seq<char>>, ms: Seq<Statement>, src: Seq<u8>)
    requires
        forall|i: int| 0 <= i < ms.len() ==> exempt_from_fix(#[trigger] ms[i]),
    ensures
        fix_all(lines, ms, src) == lines,
    decreases ms.len(),
{
    if ms.len() > 0 {
        lemma_exempt_method_untouched(lines, ms.last(), src);
        assert forall|i: int| 0 <= i < ms.drop_last().len() implies exempt_from_fix(
            #[trigger] ms.drop_last()[i],
        ) by {
            assert(ms.drop_last()[i] == ms[i]);
        }
        lemma_fix_all_exempt(lines, ms.drop_last(), src);
    }
}

/// A module in which every method the walk reaches is exempt from the fixer
/// keeps its lines as they are, so the fixer reports no change and the text
/// is left byte for byte.
pub proof fn lemma_nothing_to_fix(stmts: Seq<Statement>, text: Seq<char>, src: Seq<u8>)
    requires
        forall|i: int| 0 <= i < methods(stmts).len() ==> exempt_from_fix(#[trigger] methods(stmts)[i]),
    ensures
        fixed_lines(stmts, text, src) == split_lines(text),
{
    lemma_fix_all_exempt(split_lines(text), methods(stmts), src);
}

} // verus!
