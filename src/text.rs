//! Text primitives: line breaks in UTF-8 bytes, and line buffers of chars.

use vstd::prelude::*;

verus! {

/// Number of line-feed bytes in `b`.
pub open spec fn newline_count(b: Seq<u8>) -> nat
    decreases b.len(),
{
    if b.len() == 0 {
        0
    } else {
        newline_count(b.drop_last()) + if b.last() == 10u8 { 1nat } else { 0nat }
    }
}

/// Zero-based line on which byte offset `off` of `text` lies: the number of
/// line breaks before it. An offset past the end counts every line break.
pub open spec fn line_of(text: Seq<u8>, off: int) -> nat {
    if off <= text.len() {
        newline_count(text.take(off))
    } else {
        newline_count(text)
    }
}

/// Zero-based line of byte offset `off` in `text`.
pub fn line_index(text: &[u8], off: usize) -> (r: usize)
    ensures
        r == line_of(text@, off as int),
{
    let stop: usize = if off <= text.len() { off } else { text.len() };
    let mut count: usize = 0;
    let mut i: usize = 0;
    while i < stop
        invariant
            stop <= text@.len(),
            i <= stop,
            count == newline_count(text@.take(i as int)),
            count <= i,
        decreases stop - i,
    {
        assert(text@.take(i as int + 1).drop_last() =~= text@.take(i as int));
        if text[i] == 10u8 {
            count = count + 1;
        }
        i = i + 1;
    }
    assert(text@.take(text@.len() as int) =~= text@);
    count
}

/// Whether two strings hold the same characters.
pub fn str_eq(a: &str, b: &str) -> (r: bool)
    ensures
        r == (a@ == b@),
{
    if a.len() != b.len() {
        return false;
    }
    let n: usize = a.unicode_len();
    if n != b.unicode_len() {
        return false;
    }
    let mut i: usize = 0;
    while i < n
        invariant
            n == a@.len(),
            n == b@.len(),
            i <= n,
            forall|j: int| 0 <= j < i ==> a@[j] == b@[j],
        decreases n - i,
    {
        if a.get_char(i) != b.get_char(i) {
            return false;
        }
        i = i + 1;
    }
    assert(a@ =~= b@);
    true
}

/// The characters of `s`.
pub fn chars_of(s: &str) -> (r: Vec<char>)
    ensures
        r@ == s@,
{
    let mut out: Vec<char> = Vec::new();
    for c in it: s.chars()
        invariant
            out@ == it.seq().take(it.index() as int),
    {
        out.push(c);
    }
    out
}

/// Relies on `String: FromIterator<&char>`: collecting characters into a
/// string yields exactly those characters, in order.
#[verifier::external_body]
pub(crate) fn string_from_chars(cs: &Vec<char>) -> (r: String)
    ensures
        r@ == cs@,
{
    cs.iter().collect::<String>()
}

/// Whether `c` has the Unicode `White_Space` property, as `char::is_whitespace`
/// documents it.
pub open spec fn is_ws(c: char) -> bool {
    let u = c as u32;
    (0x9 <= u <= 0xd) || u == 0x20 || u == 0x85 || u == 0xa0 || u == 0x1680 || (0x2000 <= u
        <= 0x200a) || u == 0x2028 || u == 0x2029 || u == 0x202f || u == 0x205f || u == 0x3000
}

/// Index just past the run of whitespace in `s` that starts at `i`.
pub open spec fn ws_run_end(s: Seq<char>, i: int) -> int
    decreases s.len() - i,
{
    if 0 <= i < s.len() && is_ws(s[i]) {
        ws_run_end(s, i + 1)
    } else {
        i
    }
}

/// The leading whitespace of a line.
pub open spec fn leading_ws(s: Seq<char>) -> Seq<char> {
    s.take(ws_run_end(s, 0))
}

/// Whether `c` is whitespace, as `char::is_whitespace` says.
pub fn whitespace(c: char) -> (r: bool)
    ensures
        r == is_ws(c),
{
    let u: u32 = c as u32;
    (0x9 <= u && u <= 0xd) || u == 0x20 || u == 0x85 || u == 0xa0 || u == 0x1680 || (0x2000 <= u
        && u <= 0x200a) || u == 0x2028 || u == 0x2029 || u == 0x202f || u == 0x205f || u
        == 0x3000
}

/// The leading whitespace of `s`.
pub fn indentation_of(s: &Vec<char>) -> (r: Vec<char>)
    ensures
        r@ == leading_ws(s@),
{
    let mut i: usize = 0;
    while i < s.len() && whitespace(s[i])
        invariant
            i <= s@.len(),
            ws_run_end(s@, 0) == ws_run_end(s@, i as int),
        decreases s@.len() - i,
    {
        i = i + 1;
    }
    let mut out: Vec<char> = Vec::new();
    let mut j: usize = 0;
    while j < i
        invariant
            j <= i <= s@.len(),
            out@ == s@.take(j as int),
        decreases i - j,
    {
        out.push(s[j]);
        j = j + 1;
        assert(out@ =~= s@.take(j as int));
    }
    out
}

/// Whether `p` occurs in `s` at position `i`.
pub open spec fn occurs_at(s: Seq<char>, p: Seq<char>, i: int) -> bool {
    0 <= i && i + p.len() <= s.len() && s.subrange(i, i + p.len()) == p
}

/// Whether `p` occurs anywhere in `s`.
pub open spec fn contains(s: Seq<char>, p: Seq<char>) -> bool {
    exists|i: int| occurs_at(s, p, i)
}

pub fn occurs_at_exec(s: &Vec<char>, p: &Vec<char>, i: usize) -> (r: bool)
    ensures
        r == occurs_at(s@, p@, i as int),
{
    if i > s.len() || p.len() > s.len() - i {
        return false;
    }
    let slen: usize = s.len();
    let mut k: usize = 0;
    while k < p.len()
        invariant
            slen == s@.len(),
            i + p@.len() <= s@.len(),
            k <= p@.len(),
            forall|t: int| 0 <= t < k ==> s@[i + t] == p@[t],
        decreases p@.len() - k,
    {
        if s[i + k] != p[k] {
            assert(s@.subrange(i as int, i + p@.len())[k as int] != p@[k as int]);
            return false;
        }
        k = k + 1;
    }
    assert(s@.subrange(i as int, i + p@.len()) =~= p@);
    true
}

/// Whether `p` occurs anywhere in `s`.
pub fn contains_exec(s: &Vec<char>, p: &Vec<char>) -> (r: bool)
    ensures
        r == contains(s@, p@),
{
    if p.len() > s.len() {
        return false;
    }
    let last: usize = s.len() - p.len();
    let mut i: usize = 0;
    loop
        invariant
            last == s@.len() - p@.len(),
            p@.len() <= s@.len(),
            i <= last,
            forall|j: int| 0 <= j < i ==> !occurs_at(s@, p@, j),
        decreases last - i,
    {
        if occurs_at_exec(s, p, i) {
            return true;
        }
        if i == last {
            assert forall|j: int| !occurs_at(s@, p@, j) by {
                if occurs_at(s@, p@, j) {
                    assert(j <= i);
                }
            }
            return false;
        }
        i = i + 1;
    }
}

/// The contents of a buffer of lines.
pub open spec fn lines_view(v: Seq<Vec<char>>) -> Seq<Seq<char>> {
    v.map_values(|l: Vec<char>| l@)
}

/// Index of the first line feed in `s` at or after `i`, or `s.len()`.
pub open spec fn newline_from(s: Seq<char>, i: int) -> int
    decreases s.len() - i,
{
    if i < 0 || i >= s.len() {
        s.len() as int
    } else if s[i] == '\n' {
        i
    } else {
        newline_from(s, i + 1)
    }
}

/// A line without the carriage return of a `\r\n` ending.
pub open spec fn strip_cr(l: Seq<char>) -> Seq<char> {
    if l.len() > 0 && l.last() == '\r' {
        l.drop_last()
    } else {
        l
    }
}

/// The lines of a text as `str::lines` yields them: split at each `\n`,
/// a `\r` before it dropped, and no empty line after a final `\n`.
pub open spec fn split_lines(s: Seq<char>) -> Seq<Seq<char>>
    decreases s.len(),
{
    if s.len() == 0 {
        seq![]
    } else {
        let j = newline_from(s, 0);
        if 0 <= j < s.len() {
            seq![strip_cr(s.take(j))] + split_lines(s.skip(j + 1))
        } else {
            seq![s]
        }
    }
}

/// Lines joined with `sep` between them.
pub open spec fn join_lines(ls: Seq<Seq<char>>, sep: Seq<char>) -> Seq<char>
    decreases ls.len(),
{
    if ls.len() == 0 {
        seq![]
    } else if ls.len() == 1 {
        ls[0]
    } else {
        join_lines(ls.drop_last(), sep) + sep + ls.last()
    }
}

/// The line break of a text: `\r\n` where its first line ends so, else `\n`.
pub open spec fn line_break(s: Seq<char>) -> Seq<char> {
    let j = newline_from(s, 0);
    if 0 < j < s.len() && s[j - 1] == '\r' {
        seq!['\r', '\n']
    } else {
        seq!['\n']
    }
}

/// Lines put back together in the manner of the text `orig`: joined with its
/// line break, and ended with one where `orig` ends with a line feed.
pub open spec fn rejoined(ls: Seq<Seq<char>>, orig: Seq<char>) -> Seq<char> {
    join_lines(ls, line_break(orig)) + if orig.len() > 0 && orig.last() == '\n' {
        line_break(orig)
    } else {
        Seq::<char>::empty()
    }
}

proof fn lemma_newline_from(s: Seq<char>, i: int, k: int)
    requires
        0 <= i <= k <= s.len(),
        forall|m: int| i <= m < k ==> s[m] != '\n',
        k == s.len() || s[k] == '\n',
    ensures
        newline_from(s, i) == k,
    decreases k - i,
{
    if i < k {
        lemma_newline_from(s, i + 1, k);
    }
}

/// The characters `from..to` of `s`.
pub fn copy_range(s: &Vec<char>, from: usize, to: usize) -> (r: Vec<char>)
    requires
        from <= to <= s@.len(),
    ensures
        r@ == s@.subrange(from as int, to as int),
{
    let mut out: Vec<char> = Vec::new();
    let mut k: usize = from;
    while k < to
        invariant
            from <= k <= to <= s@.len(),
            out@ == s@.subrange(from as int, k as int),
        decreases to - k,
    {
        out.push(s[k]);
        k = k + 1;
        assert(out@ =~= s@.subrange(from as int, k as int));
    }
    out
}

/// Splits a text into lines, as `str::lines` does.
pub fn lines_of(cs: &Vec<char>) -> (r: Vec<Vec<char>>)
    ensures
        lines_view(r@) == split_lines(cs@),
{
    let n: usize = cs.len();
    let mut out: Vec<Vec<char>> = Vec::new();
    let mut start: usize = 0;
    proof {
        assert(cs@.skip(0) =~= cs@);
        assert(lines_view(out@) + split_lines(cs@) =~= split_lines(cs@));
    }
    while start < n
        invariant
            n == cs@.len(),
            start <= n,
            lines_view(out@) + split_lines(cs@.skip(start as int)) == split_lines(cs@),
        decreases n - start,
    {
        let ghost t = cs@.skip(start as int);
        let mut j: usize = start;
        while j < n && cs[j] != '\n'
            invariant
                n == cs@.len(),
                start <= j <= n,
                forall|m: int| start <= m < j ==> cs@[m] != '\n',
            decreases n - j,
        {
            j = j + 1;
        }
        proof {
            lemma_newline_from(t, 0, j - start);
        }
        let stop: usize = if j < n && j > start && cs[j - 1] == '\r' {
            j - 1
        } else {
            j
        };
        let line = copy_range(cs, start, stop);
        let ghost before = out@;
        out.push(line);
        if j < n {
            proof {
                assert(t.take(j - start) =~= cs@.subrange(start as int, j as int));
                assert(t.skip(j - start + 1) =~= cs@.skip(j + 1));
                if j > start && cs@[j - 1] == '\r' {
                    assert(strip_cr(t.take(j - start)) =~= line@);
                } else {
                    assert(strip_cr(t.take(j - start)) =~= line@);
                }
                assert(lines_view(out@) =~= lines_view(before) + seq![line@]);
                assert(lines_view(out@) + split_lines(cs@.skip(j + 1)) =~= lines_view(before)
                    + split_lines(t));
            }
            start = j + 1;
        } else {
            proof {
                assert(t =~= line@);
                assert(lines_view(out@) =~= lines_view(before) + seq![line@]);
                assert(cs@.skip(n as int) =~= Seq::<char>::empty());
                assert(lines_view(out@) + split_lines(cs@.skip(n as int)) =~= lines_view(before)
                    + split_lines(t));
            }
            start = n;
        }
    }
    proof {
        assert(cs@.skip(n as int) =~= Seq::<char>::empty());
        assert(lines_view(out@) + split_lines(cs@.skip(n as int)) =~= lines_view(out@));
    }
    out
}

/// Appends `s` to `out`.
pub fn append_chars(out: &mut Vec<char>, s: &Vec<char>)
    ensures
        final(out)@ == old(out)@ + s@,
{
    let ghost start = out@;
    let mut k: usize = 0;
    while k < s.len()
        invariant
            k <= s@.len(),
            out@ == start + s@.take(k as int),
        decreases s@.len() - k,
    {
        out.push(s[k]);
        k = k + 1;
        assert(out@ =~= start + s@.take(k as int));
    }
    assert(s@.take(k as int) =~= s@);
}

/// Joins lines with `sep` between them.
pub fn join_all(ls: &Vec<Vec<char>>, sep: &Vec<char>) -> (r: Vec<char>)
    ensures
        r@ == join_lines(lines_view(ls@), sep@),
{
    let mut out: Vec<char> = Vec::new();
    let mut i: usize = 0;
    while i < ls.len()
        invariant
            i <= ls@.len(),
            out@ == join_lines(lines_view(ls@).take(i as int), sep@),
        decreases ls@.len() - i,
    {
        let ghost before = out@;
        if i > 0 {
            append_chars(&mut out, sep);
        }
        append_chars(&mut out, &ls[i]);
        proof {
            let v = lines_view(ls@);
            assert(v.take(i + 1).drop_last() =~= v.take(i as int));
            if i == 0 {
                assert(out@ =~= join_lines(v.take(1), sep@));
            } else {
                assert(out@ =~= join_lines(v.take(i + 1), sep@));
            }
        }
        i = i + 1;
    }
    assert(lines_view(ls@).take(ls@.len() as int) =~= lines_view(ls@));
    out
}

/// The line break of a text, as `line_break` says.
pub fn line_break_of(cs: &Vec<char>) -> (r: Vec<char>)
    ensures
        r@ == line_break(cs@),
{
    let n: usize = cs.len();
    let mut j: usize = 0;
    while j < n && cs[j] != '\n'
        invariant
            n == cs@.len(),
            j <= n,
            forall|m: int| 0 <= m < j ==> cs@[m] != '\n',
        decreases n - j,
    {
        j = j + 1;
    }
    proof {
        lemma_newline_from(cs@, 0, j as int);
    }
    let mut r: Vec<char> = Vec::new();
    if 0 < j && j < n && cs[j - 1] == '\r' {
        r.push('\r');
    }
    r.push('\n');
    assert(r@ =~= line_break(cs@));
    r
}

/// Lines put back together in the manner of the text `orig`.
pub fn rejoin(ls: &Vec<Vec<char>>, orig: &Vec<char>) -> (r: Vec<char>)
    ensures
        r@ == rejoined(lines_view(ls@), orig@),
{
    let sep = line_break_of(orig);
    let mut out = join_all(ls, &sep);
    if orig.len() > 0 && orig[orig.len() - 1] == '\n' {
        append_chars(&mut out, &sep);
    } else {
        assert(out@ =~= out@ + Seq::<char>::empty());
    }
    out
}

/// `s` with every occurrence of the non-empty `from` replaced by `to`,
/// scanning left to right without overlaps, as `str::replace` does.
pub open spec fn replace_all(s: Seq<char>, from: Seq<char>, to: Seq<char>) -> Seq<char>
    decreases s.len(),
{
    if s.len() == 0 || from.len() == 0 {
        s
    } else if from.len() <= s.len() && s.take(from.len() as int) == from {
        to + replace_all(s.skip(from.len() as int), from, to)
    } else {
        seq![s[0]] + replace_all(s.skip(1), from, to)
    }
}

/// Replaces every occurrence of the non-empty `from` in `s` by `to`.
pub fn replace_exec(s: &Vec<char>, from: &Vec<char>, to: &Vec<char>) -> (r: Vec<char>)
    ensures
        r@ == replace_all(s@, from@, to@),
{
    if from.len() == 0 {
        return copy_range(s, 0, s.len());
    }
    let n: usize = s.len();
    let mut out: Vec<char> = Vec::new();
    let mut i: usize = 0;
    proof {
        assert(s@.skip(0) =~= s@);
        assert(out@ + replace_all(s@, from@, to@) =~= replace_all(s@, from@, to@));
    }
    while i < n
        invariant
            n == s@.len(),
            from@.len() > 0,
            i <= n,
            out@ + replace_all(s@.skip(i as int), from@, to@) == replace_all(s@, from@, to@),
        decreases n - i,
    {
        let ghost t = s@.skip(i as int);
        let ghost before = out@;
        if occurs_at_exec(s, from, i) {
            let mut k: usize = 0;
            while k < to.len()
                invariant
                    k <= to@.len(),
                    out@ == before + to@.take(k as int),
                decreases to@.len() - k,
            {
                out.push(to[k]);
                k = k + 1;
                assert(out@ =~= before + to@.take(k as int));
            }
            proof {
                assert(to@.take(k as int) =~= to@);
                assert(t.take(from@.len() as int) =~= s@.subrange(i as int, i + from@.len()));
                assert(t.skip(from@.len() as int) =~= s@.skip(i + from@.len()));
                assert(out@ + replace_all(s@.skip(i + from@.len()), from@, to@) =~= before
                    + replace_all(t, from@, to@));
            }
            i = i + from.len();
        } else {
            out.push(s[i]);
            proof {
                if from@.len() <= t.len() {
                    assert(t.take(from@.len() as int) =~= s@.subrange(i as int, i + from@.len()));
                }
                assert(t.skip(1) =~= s@.skip(i + 1));
                assert(out@ + replace_all(s@.skip(i + 1), from@, to@) =~= before + replace_all(
                    t,
                    from@,
                    to@,
                ));
            }
            i = i + 1;
        }
    }
    proof {
        assert(s@.skip(n as int) =~= Seq::<char>::empty());
        assert(out@ + replace_all(s@.skip(n as int), from@, to@) =~= out@);
    }
    out
}

/// A copy of a line.
pub fn clone_chars(l: &Vec<char>) -> (r: Vec<char>)
    ensures
        r@ == l@,
{
    let r = copy_range(l, 0, l.len());
    assert(r@ =~= l@);
    r
}

pub proof fn lemma_lines_view_push(v: Seq<Vec<char>>, l: Vec<char>)
    ensures
        lines_view(v.push(l)) == lines_view(v).push(l@),
{
    assert(lines_view(v.push(l)) =~= lines_view(v).push(l@));
}

} // verus!
