//! Which methods are lifecycle hooks, and what the checker reports of them.

use vstd::prelude::*;
use vstd::string::StringSliceAdditionalSpecFns;
use crate::text::{
    append_chars, chars_of, line_index, line_of, str_eq, string_from_chars,
};
use crate::tree::{Expression, Statement, StatementKind};

verus! {

/// The two lifecycle hooks.
#[derive(Clone, Copy, Debug, PartialEq, Eq, Structural)]
pub enum Hook {
    SetUp,
    TearDown,
}

/// The correct spelling of a hook's name.
pub open spec fn hook_name(h: Hook) -> Seq<char> {
    match h {
        Hook::SetUp => seq!['s', 'e', 't', 'U', 'p'],
        Hook::TearDown => seq!['t', 'e', 'a', 'r', 'D', 'o', 'w', 'n'],
    }
}

/// The hook that a method name stands for: its correct spelling, or one of
/// the mis-cased spellings `setup`, `Setup`, `teardown`, `Teardown`.
pub open spec fn hook_of_name(name: Seq<char>) -> Option<Hook> {
    if name == hook_name(Hook::SetUp) || name == seq!['s', 'e', 't', 'u', 'p'] || name == seq![
        'S',
        'e',
        't',
        'u',
        'p',
    ] {
        Some(Hook::SetUp)
    } else if name == hook_name(Hook::TearDown) || name == seq![
        't',
        'e',
        'a',
        'r',
        'd',
        'o',
        'w',
        'n',
    ] || name == seq!['T', 'e', 'a', 'r', 'd', 'o', 'w', 'n'] {
        Some(Hook::TearDown)
    } else {
        None
    }
}

/// `super().<hook>()`
pub open spec fn call_text(h: Hook) -> Seq<char> {
    seq!['s', 'u', 'p', 'e', 'r', '(', ')', '.'] + hook_name(h) + seq!['(', ')']
}

/// `super`
pub open spec fn super_name() -> Seq<char> {
    seq!['s', 'u', 'p', 'e', 'r']
}

/// A body that is empty or holds a lone `pass` is exempt from the call rule.
pub open spec fn is_noop_body(body: Seq<Statement>) -> bool {
    body.len() == 0 || (body.len() == 1 && body[0].kind is Pass)
}

/// `s` is the expression statement `super().<hook>()`: a call of the
/// attribute named after the hook on a call of `super` without arguments.
pub open spec fn is_parent_call(s: Statement, h: Hook) -> bool {
    match s.kind {
        StatementKind::Expression { value } => match value {
            Expression::Call { func, .. } => match *func {
                Expression::Attribute { value: target, attr } => attr@ == hook_name(h) && match *target {
                    Expression::Call { func: callee, arg_count } => arg_count == 0 && match *callee {
                        Expression::Name { id } => id@ == super_name(),
                        _ => false,
                    },
                    _ => false,
                },
                _ => false,
            },
            _ => false,
        },
        _ => false,
    }
}

/// What is wrong with a method.
#[derive(Clone, Copy, Debug, PartialEq, Eq, Structural)]
pub enum Violation {
    /// A correctly named hook whose body does not end in its parent call.
    CallNotLast(Hook),
    /// A hook name in the wrong casing.
    Casing,
}

/// A violation at a 1-based line of the source text.
#[derive(Clone, Copy, Debug, PartialEq, Eq, Structural)]
pub struct Diagnostic {
    pub line: usize,
    pub violation: Violation,
}

/// The 1-based line of byte offset `off` of `src`. No string in memory holds
/// `usize::MAX` line breaks, so the number never needs to stop at that bound.
pub open spec fn line_number(src: Seq<u8>, off: int) -> usize {
    let l = line_of(src, off);
    if l < usize::MAX {
        (l + 1) as usize
    } else {
        usize::MAX
    }
}

/// The diagnostic for a method named `name` whose name starts at byte
/// `name_start` of `src`, if there is one.
pub open spec fn method_diagnostic(
    name: Seq<char>,
    name_start: usize,
    body: Seq<Statement>,
    src: Seq<u8>,
) -> Option<Diagnostic> {
    let line = line_number(src, name_start as int);
    match hook_of_name(name) {
        None => None,
        Some(h) => if name != hook_name(h) {
            Some(Diagnostic { line, violation: Violation::Casing })
        } else if is_noop_body(body) || is_parent_call(body.last(), h) {
            None
        } else {
            Some(Diagnostic { line, violation: Violation::CallNotLast(h) })
        },
    }
}

/// The diagnostics of a sequence of statements, in a depth-first walk that
/// enters class bodies and nothing else.
pub open spec fn diagnostics(stmts: Seq<Statement>, src: Seq<u8>) -> Seq<Diagnostic>
    decreases stmts,
{
    if stmts.len() == 0 {
        seq![]
    } else {
        diagnostics(stmts.drop_last(), src) + stmt_diagnostics(stmts.last(), src)
    }
}

/// The diagnostics of one statement.
pub open spec fn stmt_diagnostics(s: Statement, src: Seq<u8>) -> Seq<Diagnostic>
    decreases s,
{
    match s.kind {
        StatementKind::FunctionDef { name, name_start, body } => match method_diagnostic(
            name@,
            name_start,
            body@,
            src,
        ) {
            Some(d) => seq![d],
            None => seq![],
        },
        StatementKind::ClassDef { body } => diagnostics(body@, src),
        _ => seq![],
    }
}

/// The correct spelling of a hook's name.
pub fn hook_str(h: Hook) -> (r: &'static str)
    ensures
        r@ == hook_name(h),
{
    match h {
        Hook::SetUp => {
            proof {
                reveal_strlit("setUp");
                assert("setUp"@ =~= hook_name(Hook::SetUp));
            }
            "setUp"
        },
        Hook::TearDown => {
            proof {
                reveal_strlit("tearDown");
                assert("tearDown"@ =~= hook_name(Hook::TearDown));
            }
            "tearDown"
        },
    }
}

/// The hook that a method name stands for, if any.
pub fn classify(name: &str) -> (r: Option<Hook>)
    ensures
        r == hook_of_name(name@),
{
    proof {
        reveal_strlit("setUp");
        reveal_strlit("setup");
        reveal_strlit("Setup");
        reveal_strlit("tearDown");
        reveal_strlit("teardown");
        reveal_strlit("Teardown");
        assert("setUp"@ =~= hook_name(Hook::SetUp));
        assert("setup"@ =~= seq!['s', 'e', 't', 'u', 'p']);
        assert("Setup"@ =~= seq!['S', 'e', 't', 'u', 'p']);
        assert("tearDown"@ =~= hook_name(Hook::TearDown));
        assert("teardown"@ =~= seq!['t', 'e', 'a', 'r', 'd', 'o', 'w', 'n']);
        assert("Teardown"@ =~= seq!['T', 'e', 'a', 'r', 'd', 'o', 'w', 'n']);
    }
    if str_eq(name, "setUp") || str_eq(name, "setup") || str_eq(name, "Setup") {
        Some(Hook::SetUp)
    } else if str_eq(name, "tearDown") || str_eq(name, "teardown") || str_eq(name, "Teardown") {
        Some(Hook::TearDown)
    } else {
        None
    }
}

/// Whether `s` is the statement `super().<hook>()`.
pub fn parent_call(s: &Statement, h: Hook) -> (r: bool)
    ensures
        r == is_parent_call(*s, h),
{
    proof {
        reveal_strlit("super");
        assert("super"@ =~= super_name());
    }
    match &s.kind {
        StatementKind::Expression { value: Expression::Call { func, .. } } => match &**func {
            Expression::Attribute { value: target, attr } => {
                if !str_eq(attr.as_str(), hook_str(h)) {
                    return false;
                }
                match &**target {
                    Expression::Call { func: callee, arg_count } => {
                        if *arg_count != 0 {
                            return false;
                        }
                        match &**callee {
                            Expression::Name { id } => str_eq(id.as_str(), "super"),
                            _ => false,
                        }
                    },
                    _ => false,
                }
            },
            _ => false,
        },
        _ => false,
    }
}

/// Whether a method body is exempt from the call rule.
pub fn noop_body(body: &Vec<Statement>) -> (r: bool)
    ensures
        r == is_noop_body(body@),
{
    body.len() == 0 || (body.len() == 1 && matches!(body[0].kind, StatementKind::Pass))
}

fn check_method(
    name: &String,
    name_start: usize,
    body: &Vec<Statement>,
    src: &[u8],
) -> (r: Option<Diagnostic>)
    ensures
        r == method_diagnostic(name@, name_start, body@, src@),
{
    match classify(name.as_str()) {
        None => None,
        Some(h) => {
            let idx = line_index(src, name_start);
            let line = if idx < usize::MAX {
                idx + 1
            } else {
                idx
            };
            if !str_eq(name.as_str(), hook_str(h)) {
                Some(Diagnostic { line, violation: Violation::Casing })
            } else if noop_body(body) || parent_call(&body[body.len() - 1], h) {
                None
            } else {
                Some(Diagnostic { line, violation: Violation::CallNotLast(h) })
            }
        },
    }
}

fn check_stmt(s: &Statement, src: &[u8], out: &mut Vec<Diagnostic>)
    ensures
        final(out)@ == old(out)@ + stmt_diagnostics(*s, src@),
    decreases s,
{
    match &s.kind {
        StatementKind::FunctionDef { name, name_start, body } => {
            match check_method(name, *name_start, body, src) {
                Some(d) => {
                    out.push(d);
                },
                None => {},
            }
            assert(final(out)@ =~= old(out)@ + stmt_diagnostics(*s, src@));
        },
        StatementKind::ClassDef { body } => {
            check_stmts(body, src, out);
        },
        _ => {
            assert(final(out)@ =~= old(out)@ + stmt_diagnostics(*s, src@));
        },
    }
}

fn check_stmts(stmts: &Vec<Statement>, src: &[u8], out: &mut Vec<Diagnostic>)
    ensures
        final(out)@ == old(out)@ + diagnostics(stmts@, src@),
    decreases stmts,
{
    let ghost start = out@;
    let mut i: usize = 0;
    while i < stmts.len()
        invariant
            i <= stmts@.len(),
            out@ == start + diagnostics(stmts@.take(i as int), src@),
        decreases stmts@.len() - i,
    {
        assert(stmts@.take(i as int + 1).drop_last() =~= stmts@.take(i as int));
        check_stmt(&stmts[i], src, out);
        i = i + 1;
        assert(out@ =~= start + diagnostics(stmts@.take(i as int), src@));
    }
    assert(stmts@.take(stmts@.len() as int) =~= stmts@);
}

/// Checks a parsed module against the hook rules.
pub fn check_tree(stmts: &Vec<Statement>, src: &str) -> (r: Vec<Diagnostic>)
    ensures
        r@ == diagnostics(stmts@, src.spec_bytes()),
{
    let bytes = src.as_bytes();
    let mut out: Vec<Diagnostic> = Vec::new();
    check_stmts(stmts, bytes, &mut out);
    assert(out@ =~= seq![] + diagnostics(stmts@, src.spec_bytes()));
    out
}

/// The decimal digit `d`.
pub open spec fn digit_char(d: nat) -> char {
    seq!['0', '1', '2', '3', '4', '5', '6', '7', '8', '9'][d as int]
}

/// The decimal notation of `n`.
pub open spec fn decimal(n: nat) -> Seq<char>
    decreases n,
{
    if n < 10 {
        seq![digit_char(n)]
    } else {
        decimal(n / 10) + seq![digit_char(n % 10)]
    }
}

/// The message of a violation.
pub open spec fn message(v: Violation) -> Seq<char> {
    match v {
        Violation::CallNotLast(h) => call_text(h) + " must be the last line"@,
        Violation::Casing => "use correct casing: setUp / tearDown"@,
    }
}

/// A diagnostic as reported for the file at `path`: `<path>:<line> <message>`.
pub open spec fn diagnostic_text(path: Seq<char>, d: Diagnostic) -> Seq<char> {
    path + ":"@ + decimal(d.line as nat) + " "@ + message(d.violation)
}

fn digit(d: usize) -> (r: char)
    requires
        d < 10,
    ensures
        r == digit_char(d as nat),
{
    match d {
        0 => '0',
        1 => '1',
        2 => '2',
        3 => '3',
        4 => '4',
        5 => '5',
        6 => '6',
        7 => '7',
        8 => '8',
        _ => '9',
    }
}

fn decimal_chars(n: usize) -> (r: Vec<char>)
    ensures
        r@ == decimal(n as nat),
    decreases n,
{
    if n < 10 {
        let mut v: Vec<char> = Vec::new();
        v.push(digit(n));
        assert(v@ =~= decimal(n as nat));
        v
    } else {
        let mut v = decimal_chars(n / 10);
        v.push(digit(n % 10));
        assert(v@ =~= decimal(n as nat));
        v
    }
}

impl Diagnostic {
    /// The diagnostic as reported for the file at `path`.
    pub fn render(&self, path: &str) -> (r: String)
        ensures
            r@ == diagnostic_text(path@, *self),
    {
        let mut out = chars_of(path);
        append_chars(&mut out, &chars_of(":"));
        append_chars(&mut out, &decimal_chars(self.line));
        append_chars(&mut out, &chars_of(" "));
        match self.violation {
            Violation::CallNotLast(h) => {
                let call = match h {
                    Hook::SetUp => chars_of("super().setUp()"),
                    Hook::TearDown => chars_of("super().tearDown()"),
                };
                proof {
                    reveal_strlit("super().setUp()");
                    reveal_strlit("super().tearDown()");
                    assert("super().setUp()"@ =~= call_text(Hook::SetUp));
                    assert("super().tearDown()"@ =~= call_text(Hook::TearDown));
                }
                append_chars(&mut out, &call);
                append_chars(&mut out, &chars_of(" must be the last line"));
            },
            Violation::Casing => {
                append_chars(&mut out, &chars_of("use correct casing: setUp / tearDown"));
            },
        }
        assert(out@ =~= diagnostic_text(path@, *self));
        string_from_chars(&out)
    }
}

} // verus!
