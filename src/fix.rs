//! The fixer: repairs hook methods with minimal edits to the lines of the
//! source text.
//!
//! Every method's line range is computed from byte offsets into the original
//! text. The edits are applied from the last method of the file to the
//! first, so that an edit that changes the number of lines never moves a
//! range that is still to be edited.

use vstd::prelude::*;
use vstd::string::StringSliceAdditionalSpecFns;
use crate::rules::{
    call_text, classify, hook_name, hook_of_name, hook_str, is_noop_body, noop_body, Hook,
};
use crate::text::{
    chars_of, clone_chars, contains, contains_exec, copy_range, indentation_of, leading_ws,
    lemma_lines_view_push, line_index, line_of, lines_of, lines_view, rejoin, rejoined,
    replace_all, replace_exec, split_lines, str_eq, string_from_chars,
};
use crate::tree::{methods, stmt_methods, Statement, StatementKind};

verus! {

/// Whether a line holds the parent call of either hook.
pub open spec fn mentions_call(l: Seq<char>) -> bool {
    contains(l, call_text(Hook::SetUp)) || contains(l, call_text(Hook::TearDown))
}

/// `def <name>(`
pub open spec fn def_pattern(name: Seq<char>) -> Seq<char> {
    seq!['d', 'e', 'f', ' '] + name + seq!['(']
}

/// One level of indentation.
pub open spec fn indent_unit() -> Seq<char> {
    seq![' ', ' ', ' ', ' ']
}

/// The lines that hold no parent call, in order.
pub open spec fn without_calls(ls: Seq<Seq<char>>) -> Seq<Seq<char>>
    decreases ls.len(),
{
    if ls.len() == 0 {
        seq![]
    } else if mentions_call(ls.last()) {
        without_calls(ls.drop_last())
    } else {
        without_calls(ls.drop_last()).push(ls.last())
    }
}

/// The definition line with a mis-cased name spelled correctly.
pub open spec fn renamed_def(line: Seq<char>, name: Seq<char>, h: Hook) -> Seq<char> {
    if name == hook_name(h) {
        line
    } else {
        replace_all(line, def_pattern(name), def_pattern(hook_name(h)))
    }
}

/// The indentation of a body: that of its first line, or one level deeper
/// than the definition line where the body has no line.
pub open spec fn body_indent(def_line: Seq<char>, body: Seq<Seq<char>>) -> Seq<char> {
    if body.len() > 0 {
        leading_ws(body[0])
    } else {
        leading_ws(def_line) + indent_unit()
    }
}

/// The lines that replace lines `d..=e` of `lines`, the range of a method
/// for hook `h` named `name` whose body is a no-op exactly when `noop`.
pub open spec fn rebuilt_block(
    lines: Seq<Seq<char>>,
    h: Hook,
    name: Seq<char>,
    d: int,
    e: int,
    noop: bool,
) -> Seq<Seq<char>> {
    let def_line = renamed_def(lines[d], name, h);
    if noop {
        lines.subrange(d, e + 1).update(0, def_line)
    } else {
        let kept = without_calls(lines.subrange(d + 1, e + 1));
        let append = kept.len() < e - d || !mentions_call(lines[e]);
        seq![def_line] + kept + if append {
            seq![body_indent(def_line, kept) + call_text(h)]
        } else {
            seq![]
        }
    }
}

/// `lines` after the fix of one method; a range outside the buffer is left
/// alone.
pub open spec fn edit_method(
    lines: Seq<Seq<char>>,
    h: Hook,
    name: Seq<char>,
    d: int,
    e: int,
    noop: bool,
) -> Seq<Seq<char>> {
    if 0 <= d <= e < lines.len() {
        lines.take(d) + rebuilt_block(lines, h, name, d, e, noop) + lines.skip(e + 1)
    } else {
        lines
    }
}

/// Zero-based line of the last line of a method: that of its last body
/// statement, or its definition line when the body is empty.
pub open spec fn last_line(name_start: usize, body: Seq<Statement>, src: Seq<u8>) -> int {
    if body.len() > 0 {
        line_of(src, body.last().end as int) as int
    } else {
        line_of(src, name_start as int) as int
    }
}

/// `lines` after the fix of the method `s`; other statements change nothing.
pub open spec fn fix_method(lines: Seq<Seq<char>>, s: Statement, src: Seq<u8>) -> Seq<Seq<char>> {
    match s.kind {
        StatementKind::FunctionDef { name, name_start, body } => match hook_of_name(name@) {
            Some(h) => edit_method(
                lines,
                h,
                name@,
                line_of(src, name_start as int) as int,
                last_line(name_start, body@, src),
                is_noop_body(body@),
            ),
            None => lines,
        },
        _ => lines,
    }
}

/// `lines` after the fixes of the methods `ms`, the last one first.
pub open spec fn fix_all(lines: Seq<Seq<char>>, ms: Seq<Statement>, src: Seq<u8>) -> Seq<Seq<char>>
    decreases ms.len(),
{
    if ms.len() == 0 {
        lines
    } else {
        fix_all(fix_method(lines, ms.last(), src), ms.drop_last(), src)
    }
}

/// The lines of `text` after every fix in the module `stmts`.
pub open spec fn fixed_lines(stmts: Seq<Statement>, text: Seq<char>, src: Seq<u8>) -> Seq<Seq<char>> {
    fix_all(split_lines(text), methods(stmts), src)
}

/// The statements behind a sequence of references.
pub open spec fn derefs(v: Seq<&Statement>) -> Seq<Statement> {
    v.map_values(|r: &Statement| *r)
}

fn collect_stmt<'a>(s: &'a Statement, out: &mut Vec<&'a Statement>)
    ensures
        derefs(final(out)@) == derefs(old(out)@) + stmt_methods(*s),
    decreases s,
{
    match &s.kind {
        StatementKind::FunctionDef { .. } => {
            out.push(s);
            assert(derefs(final(out)@) =~= derefs(old(out)@) + stmt_methods(*s));
        },
        StatementKind::ClassDef { body } => {
            collect_methods(body, out);
        },
        _ => {
            assert(derefs(final(out)@) =~= derefs(old(out)@) + stmt_methods(*s));
        },
    }
}

fn collect_methods<'a>(stmts: &'a Vec<Statement>, out: &mut Vec<&'a Statement>)
    ensures
        derefs(final(out)@) == derefs(old(out)@) + methods(stmts@),
    decreases stmts,
{
    let ghost start = derefs(out@);
    let mut i: usize = 0;
    while i < stmts.len()
        invariant
            i <= stmts@.len(),
            derefs(out@) == start + methods(stmts@.take(i as int)),
        decreases stmts@.len() - i,
    {
        assert(stmts@.take(i as int + 1).drop_last() =~= stmts@.take(i as int));
        collect_stmt(&stmts[i], out);
        i = i + 1;
        assert(derefs(out@) =~= start + methods(stmts@.take(i as int)));
    }
    assert(stmts@.take(stmts@.len() as int) =~= stmts@);
}

fn call_chars(h: Hook) -> (r: Vec<char>)
    ensures
        r@ == call_text(h),
{
    match h {
        Hook::SetUp => {
            proof {
                reveal_strlit("super().setUp()");
                assert("super().setUp()"@ =~= call_text(h));
            }
            chars_of("super().setUp()")
        },
        Hook::TearDown => {
            proof {
                reveal_strlit("super().tearDown()");
                assert("super().tearDown()"@ =~= call_text(h));
            }
            chars_of("super().tearDown()")
        },
    }
}

fn concat(a: &Vec<char>, b: &Vec<char>) -> (r: Vec<char>)
    ensures
        r@ == a@ + b@,
{
    let mut out = copy_range(a, 0, a.len());
    let mut k: usize = 0;
    while k < b.len()
        invariant
            k <= b@.len(),
            out@ == a@ + b@.take(k as int),
        decreases b@.len() - k,
    {
        out.push(b[k]);
        k = k + 1;
        assert(out@ =~= a@ + b@.take(k as int));
    }
    assert(b@.take(k as int) =~= b@);
    out
}

fn def_chars(name: &Vec<char>) -> (r: Vec<char>)
    ensures
        r@ == def_pattern(name@),
{
    let mut out: Vec<char> = Vec::new();
    out.push('d');
    out.push('e');
    out.push('f');
    out.push(' ');
    let mut out = concat(&out, name);
    out.push('(');
    assert(out@ =~= def_pattern(name@));
    out
}

/// The parent-call texts of both hooks.
struct CallTexts {
    set_up: Vec<char>,
    tear_down: Vec<char>,
}

impl CallTexts {
    spec fn wf(&self) -> bool {
        self.set_up@ == call_text(Hook::SetUp) && self.tear_down@ == call_text(Hook::TearDown)
    }

    fn new() -> (r: CallTexts)
        ensures
            r.wf(),
    {
        CallTexts { set_up: call_chars(Hook::SetUp), tear_down: call_chars(Hook::TearDown) }
    }

    fn mentioned_in(&self, l: &Vec<char>) -> (r: bool)
        requires
            self.wf(),
        ensures
            r == mentions_call(l@),
    {
        contains_exec(l, &self.set_up) || contains_exec(l, &self.tear_down)
    }
}

fn renamed(line: &Vec<char>, name: &str, h: Hook) -> (r: Vec<char>)
    ensures
        r@ == renamed_def(line@, name@, h),
{
    let correct = hook_str(h);
    if str_eq(name, correct) {
        copy_range(line, 0, line.len())
    } else {
        let from = def_chars(&chars_of(name));
        let to = def_chars(&chars_of(correct));
        replace_exec(line, &from, &to)
    }
}

fn rebuild(
    lines: &Vec<Vec<char>>,
    calls: &CallTexts,
    h: Hook,
    name: &str,
    d: usize,
    e: usize,
    noop: bool,
) -> (r: Vec<Vec<char>>)
    requires
        d <= e < lines@.len(),
        calls.wf(),
    ensures
        lines_view(r@) == rebuilt_block(lines_view(lines@), h, name@, d as int, e as int, noop),
{
    let ghost lv = lines_view(lines@);
    let n: usize = lines.len();
    let def_line = renamed(&lines[d], name, h);
    if noop {
        let mut out: Vec<Vec<char>> = Vec::new();
        out.push(def_line);
        let mut i: usize = d + 1;
        while i <= e
            invariant
                d < i <= e + 1,
                e < lines@.len(),
                n == lines@.len(),
                lv == lines_view(lines@),
                lines_view(out@) == lv.subrange(d as int, i as int).update(
                    0,
                    renamed_def(lv[d as int], name@, h),
                ),
            decreases e + 1 - i,
        {
            let pushed = clone_chars(&lines[i]);
            let ghost prior = out@;
            out.push(pushed);
            proof {
                lemma_lines_view_push(prior, pushed);
            }
            i = i + 1;
            assert(lines_view(out@) =~= lv.subrange(d as int, i as int).update(
                0,
                renamed_def(lv[d as int], name@, h),
            ));
        }
        return out;
    }
    let mut kept: Vec<Vec<char>> = Vec::new();
    let mut i: usize = d + 1;
    while i <= e
        invariant
            d < i <= e + 1,
            e < lines@.len(),
            n == lines@.len(),
            calls.wf(),
            lv == lines_view(lines@),
            lines_view(kept@) == without_calls(lv.subrange(d + 1, i as int)),
        decreases e + 1 - i,
    {
        assert(lv.subrange(d + 1, i + 1).drop_last() =~= lv.subrange(d + 1, i as int));
        if !calls.mentioned_in(&lines[i]) {
            let pushed = clone_chars(&lines[i]);
            let ghost prior = kept@;
            kept.push(pushed);
            proof {
                lemma_lines_view_push(prior, pushed);
            }
        }
        i = i + 1;
        assert(lines_view(kept@) =~= without_calls(lv.subrange(d + 1, i as int)));
    }
    let indent = if kept.len() > 0 {
        indentation_of(&kept[0])
    } else {
        let mut unit: Vec<char> = Vec::new();
        unit.push(' ');
        unit.push(' ');
        unit.push(' ');
        unit.push(' ');
        assert(unit@ =~= indent_unit());
        concat(&indentation_of(&def_line), &unit)
    };
    let append = kept.len() < e - d || !calls.mentioned_in(&lines[e]);
    let ghost kept_view = lines_view(kept@);
    let mut out: Vec<Vec<char>> = Vec::new();
    out.push(def_line);
    let mut k: usize = 0;
    while k < kept.len()
        invariant
            k <= kept@.len(),
            out@.len() >= 1,
            lines_view(out@) == seq![def_line@] + kept_view.take(k as int),
            kept_view == lines_view(kept@),
        decreases kept@.len() - k,
    {
        let pushed = clone_chars(&kept[k]);
        let ghost prior = out@;
        out.push(pushed);
        proof {
            lemma_lines_view_push(prior, pushed);
        }
        k = k + 1;
        assert(lines_view(out@) =~= seq![def_line@] + kept_view.take(k as int));
    }
    assert(kept_view.take(k as int) =~= kept_view);
    if append {
        let call = if h == Hook::SetUp {
            &calls.set_up
        } else {
            &calls.tear_down
        };
        out.push(concat(&indent, call));
        assert(lines_view(out@) =~= seq![def_line@] + kept_view + seq![indent@ + call_text(h)]);
    } else {
        assert(lines_view(out@) =~= seq![def_line@] + kept_view + seq![]);
    }
    out
}

fn edit(
    lines: &mut Vec<Vec<char>>,
    calls: &CallTexts,
    h: Hook,
    name: &str,
    d: usize,
    e: usize,
    noop: bool,
)
    requires
        calls.wf(),
    ensures
        lines_view(final(lines)@) == edit_method(
            lines_view(old(lines)@),
            h,
            name@,
            d as int,
            e as int,
            noop,
        ),
{
    if !(d <= e && e < lines.len()) {
        return;
    }
    let ghost lv = lines_view(lines@);
    let block = rebuild(lines, calls, h, name, d, e, noop);
    let mut out: Vec<Vec<char>> = Vec::new();
    let mut i: usize = 0;
    while i < d
        invariant
            i <= d <= e < lines@.len(),
            lv == lines_view(lines@),
            lines_view(out@) == lv.take(i as int),
        decreases d - i,
    {
        let pushed = clone_chars(&lines[i]);
        let ghost prior = out@;
        out.push(pushed);
        proof {
            lemma_lines_view_push(prior, pushed);
        }
        i = i + 1;
        assert(lines_view(out@) =~= lv.take(i as int));
    }
    let ghost bv = lines_view(block@);
    let mut k: usize = 0;
    while k < block.len()
        invariant
            k <= block@.len(),
            d <= e < lines@.len(),
            lv == lines_view(lines@),
            bv == lines_view(block@),
            lines_view(out@) == lv.take(d as int) + bv.take(k as int),
        decreases block@.len() - k,
    {
        let pushed = clone_chars(&block[k]);
        let ghost prior = out@;
        out.push(pushed);
        proof {
            lemma_lines_view_push(prior, pushed);
        }
        k = k + 1;
        assert(lines_view(out@) =~= lv.take(d as int) + bv.take(k as int));
    }
    assert(bv.take(k as int) =~= bv);
    let mut j: usize = e + 1;
    while j < lines.len()
        invariant
            e < j <= lines@.len(),
            lv == lines_view(lines@),
            lines_view(out@) == lv.take(d as int) + bv + lv.subrange(e + 1, j as int),
        decreases lines@.len() - j,
    {
        let pushed = clone_chars(&lines[j]);
        let ghost prior = out@;
        out.push(pushed);
        proof {
            lemma_lines_view_push(prior, pushed);
        }
        j = j + 1;
        assert(lines_view(out@) =~= lv.take(d as int) + bv + lv.subrange(e + 1, j as int));
    }
    assert(lv.subrange(e + 1, j as int) =~= lv.skip(e + 1));
    *lines = out;
}

fn fix_one(lines: &mut Vec<Vec<char>>, calls: &CallTexts, s: &Statement, src: &[u8])
    requires
        calls.wf(),
    ensures
        lines_view(final(lines)@) == fix_method(lines_view(old(lines)@), *s, src@),
{
    match &s.kind {
        StatementKind::FunctionDef { name, name_start, body } => match classify(name.as_str()) {
            Some(h) => {
                let d = line_index(src, *name_start);
                let e = if body.len() > 0 {
                    line_index(src, body[body.len() - 1].end)
                } else {
                    d
                };
                edit(lines, calls, h, name.as_str(), d, e, noop_body(body));
            },
            None => {},
        },
        _ => {},
    }
}

fn same_lines(a: &Vec<Vec<char>>, b: &Vec<Vec<char>>) -> (r: bool)
    ensures
        r == (lines_view(a@) == lines_view(b@)),
{
    if a.len() != b.len() {
        assert(lines_view(a@).len() != lines_view(b@).len());
        return false;
    }
    let mut i: usize = 0;
    while i < a.len()
        invariant
            a@.len() == b@.len(),
            i <= a@.len(),
            forall|j: int| 0 <= j < i ==> a@[j]@ == b@[j]@,
        decreases a@.len() - i,
    {
        let x = &a[i];
        let y = &b[i];
        if x.len() != y.len() {
            assert(lines_view(a@)[i as int] != lines_view(b@)[i as int]);
            return false;
        }
        let mut k: usize = 0;
        while k < x.len()
            invariant
                x@.len() == y@.len(),
                a@.len() == b@.len(),
                i < a@.len(),
                x == a@[i as int],
                y == b@[i as int],
                k <= x@.len(),
                forall|t: int| 0 <= t < k ==> x@[t] == y@[t],
            decreases x@.len() - k,
        {
            if x[k] != y[k] {
                assert(x@[k as int] != y@[k as int]);
                assert(lines_view(a@)[i as int] != lines_view(b@)[i as int]);
                return false;
            }
            k = k + 1;
        }
        assert(x@ =~= y@);
        i = i + 1;
    }
    assert(lines_view(a@) =~= lines_view(b@));
    true
}

/// Fixes the hook methods of a parsed module. Returns the new text when it
/// differs from `src` line by line, and `None` when there is nothing to
/// change, in which case the text is to be left exactly as it is. The new
/// text keeps the line break of `src` (`\r\n` where its first line ends so)
/// and its final line break, if it has one.
pub fn fix_tree(stmts: &Vec<Statement>, src: &str) -> (r: Option<String>)
    ensures
        r is None <==> fixed_lines(stmts@, src@, src.spec_bytes()) == split_lines(src@),
        r matches Some(t) ==> t@ == rejoined(fixed_lines(stmts@, src@, src.spec_bytes()), src@),
{
    let bytes = src.as_bytes();
    let cs = chars_of(src);
    let before = lines_of(&cs);
    let mut lines = lines_of(&cs);
    let mut ms: Vec<&Statement> = Vec::new();
    collect_methods(stmts, &mut ms);
    assert(derefs(ms@) =~= methods(stmts@));
    let calls = CallTexts::new();
    let mut k: usize = ms.len();
    assert(derefs(ms@).take(k as int) =~= derefs(ms@));
    while k > 0
        invariant
            k <= ms@.len(),
            calls.wf(),
            derefs(ms@) == methods(stmts@),
            bytes@ == src.spec_bytes(),
            fix_all(lines_view(lines@), derefs(ms@).take(k as int), bytes@) == fixed_lines(
                stmts@,
                src@,
                src.spec_bytes(),
            ),
        decreases k,
    {
        let ghost ds = derefs(ms@);
        assert(ds.take(k as int).drop_last() =~= ds.take(k - 1));
        fix_one(&mut lines, &calls, ms[k - 1], bytes);
        k = k - 1;
    }
    assert(derefs(ms@).take(0) =~= Seq::<Statement>::empty());
    if same_lines(&lines, &before) {
        None
    } else {
        Some(string_from_chars(&rejoin(&lines, &cs)))
    }
}

} // verus!
