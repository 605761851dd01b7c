//! Comment collection and normalization.
//!
//! The backward walk over the syntax tree yields comment and whitespace
//! tokens nearest-to-anchor first. A filtering pass keeps the run of tokens
//! that documents the anchor: single-line comments accumulate until a blank
//! line or a block comment; a block comment met first is taken alone. The
//! surviving comments are then stripped of their markers, joined, and
//! dedented to the common indentation of their non-blank lines.

use crate::strutil::char_is_whitespace;
use crate::strutil::chars_to_string;
use crate::strutil::is_whitespace_char;
use crate::strutil::str_to_chars;
use vstd::prelude::*;

verus! {

use vstd::string::StrSliceExecFns;

/// A token handed over from the syntax tree during the backward walk.
#[derive(Debug, Clone)]
pub enum DocToken {
    Comment(String),
    Whitespace(String),
}

/// Number of newline characters among the first `end` characters of `s`.
pub open spec fn newlines_in(s: Seq<char>, end: int) -> int
    decreases end,
{
    if end <= 0 {
        0
    } else {
        newlines_in(s, end - 1) + if end - 1 < s.len() && s[end - 1] == '\n' {
            1int
        } else {
            0int
        }
    }
}

/// A whitespace token containing two or more newlines spans a blank line.
pub open spec fn has_empty_line_spec(t: DocToken) -> bool {
    match t {
        DocToken::Whitespace(s) => newlines_in(s@, s@.len() as int) >= 2,
        DocToken::Comment(_) => false,
    }
}

proof fn lemma_newlines_in_mono(s: Seq<char>, e1: int, e2: int)
    requires
        e1 <= e2,
    ensures
        newlines_in(s, e1) <= newlines_in(s, e2),
    decreases e2 - e1,
{
    if e1 < e2 {
        lemma_newlines_in_mono(s, e1, e2 - 1);
    }
}

/// Whether a token is whitespace that spans a blank line, which marks the
/// point where earlier comments stop being related to the anchor.
pub fn has_empty_line(tok: &DocToken) -> (r: bool)
    ensures
        r == has_empty_line_spec(*tok),
{
    match tok {
        DocToken::Whitespace(s) => {
            let n: usize = s.as_str().unicode_len();
            let mut i: usize = 0;
            let mut count: u8 = 0;
            while i < n && count < 2
                invariant
                    n == s@.len(),
                    i <= n,
                    count == newlines_in(s@, i as int) || (count == 2 && newlines_in(s@, i as int)
                        >= 2),
                decreases n - i,
            {
                if s.as_str().get_char(i) == '\n' {
                    count = count + 1;
                }
                i = i + 1;
            }
            proof {
                lemma_newlines_in_mono(s@, i as int, s@.len() as int);
            }
            count >= 2
        },
        DocToken::Comment(_) => false,
    }
}

/// The first index at or after `i` holding a non-whitespace character, or the
/// length of `l` when everything from `i` on is whitespace.
pub open spec fn ws_scan(l: Seq<char>, i: int) -> int
    decreases l.len() - i,
{
    if i < 0 || i >= l.len() {
        l.len() as int
    } else if !char_is_whitespace(l[i]) {
        i
    } else {
        ws_scan(l, i + 1)
    }
}

/// The length of the run of leading whitespace characters of `l`.
pub open spec fn leading_ws(l: Seq<char>) -> int {
    ws_scan(l, 0)
}

pub proof fn lemma_ws_scan_bounds(l: Seq<char>, i: int)
    requires
        0 <= i <= l.len(),
    ensures
        i <= ws_scan(l, i) <= l.len(),
        ws_scan(l, i) < l.len() ==> !char_is_whitespace(l[ws_scan(l, i)]),
        forall|j: int| i <= j < ws_scan(l, i) ==> char_is_whitespace(l[j]),
    decreases l.len() - i,
{
    if i < l.len() && char_is_whitespace(l[i]) {
        lemma_ws_scan_bounds(l, i + 1);
    }
}

/// Counts the leading whitespace characters of a line.
pub fn leading_ws_exec(l: &Vec<char>) -> (r: usize)
    ensures
        r == leading_ws(l@),
{
    let n: usize = l.len();
    let mut i: usize = 0;
    while i < n
        invariant
            n == l@.len(),
            i <= n,
            ws_scan(l@, 0) == ws_scan(l@, i as int),
        decreases n - i,
    {
        if !is_whitespace_char(l[i]) {
            return i;
        }
        i = i + 1;
    }
    n
}

/// What is left of one comment line once its leading marker is gone: the
/// scan walks over leading whitespace; a `#`, or a `*` followed by
/// whitespace or `>`, drops everything through the marker; any other
/// character (so also the `*` of bold markdown such as `**x**`) leaves the
/// line whole.
pub open spec fn strip_line_from(s: Seq<char>, i: int) -> Seq<char>
    decreases s.len() - i,
{
    if i < 0 || i >= s.len() {
        s
    } else {
        let ch = s[i];
        let next = if i + 1 < s.len() {
            s[i + 1]
        } else {
            '\n'
        };
        if ch == '#' || (ch == '*' && (next == '>' || char_is_whitespace(next))) {
            s.skip(i + 1)
        } else if !char_is_whitespace(ch) {
            s
        } else {
            strip_line_from(s, i + 1)
        }
    }
}

/// The cleaned form of a single comment line.
pub open spec fn cleanup_single_line_spec(s: Seq<char>) -> Seq<char> {
    strip_line_from(s, 0)
}

/// Erases a leading single-line comment marker, preserving indentation that
/// follows the marker.
pub fn cleanup_single_line(s: &str) -> (r: &str)
    ensures
        r@ == cleanup_single_line_spec(s@),
{
    let n: usize = s.unicode_len();
    let mut i: usize = 0;
    while i < n
        invariant
            n == s@.len(),
            i <= n,
            strip_line_from(s@, 0) == strip_line_from(s@, i as int),
        decreases n - i,
    {
        let ch = s.get_char(i);
        let next: char = if i + 1 < n {
            s.get_char(i + 1)
        } else {
            '\n'
        };
        if ch == '#' || (ch == '*' && (next == '>' || is_whitespace_char(next))) {
            let r = s.substring_char(i + 1, n);
            proof {
                assert(r@ =~= s@.skip(i + 1));
            }
            return r;
        }
        if !is_whitespace_char(ch) {
            return s;
        }
        i = i + 1;
    }
    s
}

/// Copies the characters of `l` between `from` and `to`.
pub fn copy_range(l: &Vec<char>, from: usize, to: usize) -> (r: Vec<char>)
    requires
        from <= to <= l@.len(),
    ensures
        r@ == l@.subrange(from as int, to as int),
{
    let mut r: Vec<char> = Vec::new();
    let mut j: usize = from;
    while j < to
        invariant
            from <= j <= to <= l@.len(),
            r@ == l@.subrange(from as int, j as int),
        decreases to - j,
    {
        r.push(l[j]);
        proof {
            assert(r@ =~= l@.subrange(from as int, j + 1));
        }
        j = j + 1;
    }
    r
}

/// Copies the characters of `l` from `from` to the end.
pub fn copy_suffix(l: &Vec<char>, from: usize) -> (r: Vec<char>)
    requires
        from <= l@.len(),
    ensures
        r@ == l@.skip(from as int),
{
    let n: usize = l.len();
    let r = copy_range(l, from, n);
    proof {
        assert(l@.subrange(from as int, n as int) =~= l@.skip(from as int));
    }
    r
}

/// As `cleanup_single_line`, on a line held as characters.
pub fn strip_line_chars(l: &Vec<char>) -> (r: Vec<char>)
    ensures
        r@ == cleanup_single_line_spec(l@),
{
    let n: usize = l.len();
    let mut i: usize = 0;
    while i < n
        invariant
            n == l@.len(),
            i <= n,
            strip_line_from(l@, 0) == strip_line_from(l@, i as int),
        decreases n - i,
    {
        let ch = l[i];
        let next: char = if i + 1 < n {
            l[i + 1]
        } else {
            '\n'
        };
        if ch == '#' || (ch == '*' && (next == '>' || is_whitespace_char(next))) {
            proof {
                assert(strip_line_from(l@, i as int) == l@.skip(i + 1));
            }
            return copy_suffix(l, i + 1);
        }
        if !is_whitespace_char(ch) {
            proof {
                assert(l@.skip(0) =~= l@);
            }
            return copy_suffix(l, 0);
        }
        i = i + 1;
    }
    proof {
        assert(strip_line_from(l@, i as int) == l@);
        assert(l@.skip(0) =~= l@);
    }
    copy_suffix(l, 0)
}

/// The views of a sequence of character vectors.
pub open spec fn views(ls: Seq<Vec<char>>) -> Seq<Seq<char>> {
    ls.map(|j: int, v: Vec<char>| v@)
}

/// Splitting on newline characters, keeping empty pieces, as
/// `str::split('\n')` does.
pub open spec fn split_newlines(s: Seq<char>) -> Seq<Seq<char>>
    decreases s.len(),
{
    if s.len() == 0 {
        seq![Seq::<char>::empty()]
    } else if s[0] == '\n' {
        seq![Seq::<char>::empty()] + split_newlines(s.skip(1))
    } else {
        let rest = split_newlines(s.skip(1));
        seq![seq![s[0]] + rest[0]] + rest.skip(1)
    }
}

pub proof fn lemma_split_nonempty(s: Seq<char>)
    ensures
        split_newlines(s).len() >= 1,
    decreases s.len(),
{
    if s.len() > 0 {
        lemma_split_nonempty(s.skip(1));
    }
}

/// A piece that a newline followed loses a trailing carriage return.
pub open spec fn strip_cr(l: Seq<char>) -> Seq<char> {
    if l.len() > 0 && l.last() == '\r' {
        l.drop_last()
    } else {
        l
    }
}

/// The lines of `s` as `str::lines` yields them: split at `\n`, a final
/// empty piece dropped, and a trailing `\r` (from an `\r\n` ending) removed
/// from every piece that a newline followed.
pub open spec fn rust_lines(s: Seq<char>) -> Seq<Seq<char>> {
    let ps = split_newlines(s);
    let qs = if ps.last().len() == 0 {
        ps.drop_last()
    } else {
        ps
    };
    qs.map(
        |j: int, p: Seq<char>|
            if j < ps.len() - 1 {
                strip_cr(p)
            } else {
                p
            },
    )
}

/// The pieces that remain of `ps` once `x` is joined onto the front of the
/// first piece.
pub open spec fn prepend_first(x: Seq<char>, ps: Seq<Seq<char>>) -> Seq<Seq<char>> {
    seq![x + ps[0]] + ps.skip(1)
}

fn split_pieces(cs: &Vec<char>) -> (r: Vec<Vec<char>>)
    ensures
        views(r@) == split_newlines(cs@),
{
    let n: usize = cs.len();
    let mut pieces: Vec<Vec<char>> = Vec::new();
    let mut cur: Vec<char> = Vec::new();
    let mut i: usize = 0;
    proof {
        lemma_split_nonempty(cs@);
        assert(cs@.skip(0) =~= cs@);
        let ps = split_newlines(cs@);
        assert(Seq::<char>::empty() + ps[0] =~= ps[0]);
        assert(views(pieces@) + prepend_first(Seq::<char>::empty(), ps) =~~= ps);
    }
    while i < n
        invariant
            n == cs@.len(),
            i <= n,
            split_newlines(cs@) == views(pieces@) + prepend_first(
                cur@,
                split_newlines(cs@.skip(i as int)),
            ),
        decreases n - i,
    {
        proof {
            assert(cs@.skip(i as int)[0] == cs@[i as int]);
            assert(cs@.skip(i as int).skip(1) =~= cs@.skip(i + 1));
            lemma_split_nonempty(cs@.skip(i + 1));
        }
        let ghost rem = split_newlines(cs@.skip(i as int));
        let ghost rest = split_newlines(cs@.skip(i + 1));
        let ghost pv = views(pieces@);
        let ghost cv = cur@;
        if cs[i] == '\n' {
            proof {
                assert(rem =~~= seq![Seq::<char>::empty()] + rest);
                assert(rem[0] == Seq::<char>::empty());
                assert(rem.skip(1) =~~= rest);
                assert(cv + Seq::<char>::empty() =~= cv);
                assert(prepend_first(cv, rem) =~~= seq![cv] + rest);
            }
            pieces.push(cur);
            cur = Vec::new();
            proof {
                assert(views(pieces@) =~~= pv + seq![cv]);
                assert(Seq::<char>::empty() + rest[0] =~= rest[0]);
                assert(prepend_first(cur@, rest) =~~= rest);
                assert(pv + seq![cv] + rest =~~= pv + (seq![cv] + rest));
                assert(views(pieces@) + prepend_first(cur@, rest) =~~= pv + prepend_first(
                    cv,
                    rem,
                ));
            }
        } else {
            let c = cs[i];
            proof {
                assert(rem =~~= seq![seq![c] + rest[0]] + rest.skip(1));
                assert(rem[0] == seq![c] + rest[0]);
                assert(rem.skip(1) =~~= rest.skip(1));
                assert(cv + (seq![c] + rest[0]) =~= cv.push(c) + rest[0]);
                assert(prepend_first(cv, rem) =~~= prepend_first(cv.push(c), rest));
            }
            cur.push(c);
        }
        i = i + 1;
    }
    proof {
        assert(cs@.skip(n as int) =~= Seq::<char>::empty());
        let last = split_newlines(Seq::<char>::empty());
        assert(last == seq![Seq::<char>::empty()]);
        assert(cur@ + Seq::<char>::empty() =~= cur@);
        assert(prepend_first(cur@, last) =~~= seq![cur@]);
    }
    pieces.push(cur);
    proof {
        assert(views(pieces@) =~~= views(pieces@.drop_last()).push(pieces@.last()@));
        assert(views(pieces@.drop_last()) + seq![pieces@.last()@] =~~= views(
            pieces@.drop_last(),
        ).push(pieces@.last()@));
    }
    pieces
}

/// Splits a text into its lines, as `str::lines` does.
pub fn split_rust_lines(cs: &Vec<char>) -> (r: Vec<Vec<char>>)
    ensures
        views(r@) == rust_lines(cs@),
{
    let ps = split_pieces(cs);
    proof {
        lemma_split_nonempty(cs@);
    }
    let m: usize = ps.len();
    let keep: usize = if ps[m - 1].len() == 0 {
        m - 1
    } else {
        m
    };
    let ghost target = rust_lines(cs@);
    proof {
        assert(views(ps@).last() == ps@.last()@);
        assert(target.len() == keep);
    }
    let mut r: Vec<Vec<char>> = Vec::new();
    let mut j: usize = 0;
    while j < keep
        invariant
            keep <= m == ps@.len(),
            target == rust_lines(cs@),
            views(ps@) == split_newlines(cs@),
            target.len() == keep,
            (keep == m || keep == m - 1),
            keep == m - 1 ==> views(ps@).last().len() == 0,
            keep == m ==> views(ps@).last().len() != 0,
            j <= keep,
            views(r@) == target.take(j as int),
        decreases keep - j,
    {
        let mut p = copy_suffix(&ps[j], 0);
        proof {
            assert(ps@[j as int]@.skip(0) =~= ps@[j as int]@);
            assert(views(ps@)[j as int] == ps@[j as int]@);
        }
        if j < m - 1 && p.len() > 0 {
            let lastc = p[p.len() - 1];
            if lastc == '\r' {
                p.pop();
            }
        }
        proof {
            let qs = if views(ps@).last().len() == 0 {
                views(ps@).drop_last()
            } else {
                views(ps@)
            };
            assert(qs[j as int] == views(ps@)[j as int]);
            assert(target[j as int] == if j < m - 1 {
                strip_cr(views(ps@)[j as int])
            } else {
                views(ps@)[j as int]
            });
            assert(p@ == target[j as int]);
        }
        r.push(p);
        proof {
            assert(views(r@) =~~= views(r@.drop_last()).push(r@.last()@));
            assert(target.take(j + 1) =~~= target.take(j as int).push(target[j as int]));
        }
        j = j + 1;
    }
    proof {
        assert(target.take(keep as int) =~~= target);
    }
    r
}

/// The indentation shared by the block: the leading-whitespace run of the
/// first line that is not whitespace throughout, or 0 if every line is.
pub open spec fn dedent_width(ls: Seq<Seq<char>>) -> int
    decreases ls.len(),
{
    if ls.len() == 0 {
        0
    } else if leading_ws(ls[0]) != ls[0].len() {
        leading_ws(ls[0])
    } else {
        dedent_width(ls.skip(1))
    }
}

fn dedent_width_exec(lines: &Vec<Vec<char>>) -> (w: usize)
    ensures
        w == dedent_width(views(lines@)),
{
    let n: usize = lines.len();
    let mut j: usize = 0;
    proof {
        assert(views(lines@).skip(0) =~~= views(lines@));
    }
    while j < n
        invariant
            n == lines@.len(),
            j <= n,
            dedent_width(views(lines@)) == dedent_width(views(lines@).skip(j as int)),
        decreases n - j,
    {
        proof {
            assert(views(lines@).skip(j as int)[0] == lines@[j as int]@);
            assert(views(lines@).skip(j as int).skip(1) =~~= views(lines@).skip(j + 1));
        }
        let lw = leading_ws_exec(&lines[j]);
        if lw != lines[j].len() {
            return lw;
        }
        j = j + 1;
    }
    0
}

/// Where a line's content begins: the index of its first non-whitespace
/// character, or 0 for a line that is whitespace throughout.
pub open spec fn content_begin(l: Seq<char>) -> int {
    if leading_ws(l) == l.len() {
        0
    } else {
        leading_ws(l)
    }
}

/// A line with up to `w` characters of indentation removed, never more than
/// its own content allows.
pub open spec fn strip_indent(l: Seq<char>, w: int) -> Seq<char> {
    let k = if content_begin(l) < w {
        content_begin(l)
    } else {
        w
    };
    l.skip(k)
}

/// The lines joined back together, each followed by a newline.
pub open spec fn cat_lines(ls: Seq<Seq<char>>) -> Seq<char>
    decreases ls.len(),
{
    if ls.len() == 0 {
        Seq::empty()
    } else {
        ls[0] + seq!['\n'] + cat_lines(ls.skip(1))
    }
}

/// The text with every trailing newline removed.
pub open spec fn trim_trailing_newlines(s: Seq<char>) -> Seq<char>
    decreases s.len(),
{
    if s.len() > 0 && s.last() == '\n' {
        trim_trailing_newlines(s.drop_last())
    } else {
        s
    }
}

/// The dedented form of a text: every line loses the indentation shared by
/// the block, and trailing newlines are trimmed from the end.
pub open spec fn dedent_spec(s: Seq<char>) -> Seq<char> {
    let ls = rust_lines(s);
    let w = dedent_width(ls);
    trim_trailing_newlines(cat_lines(ls.map(|j: int, l: Seq<char>| strip_indent(l, w))))
}

proof fn lemma_cat_lines_snoc(ls: Seq<Seq<char>>, x: Seq<char>)
    ensures
        cat_lines(ls.push(x)) == cat_lines(ls) + x + seq!['\n'],
    decreases ls.len(),
{
    if ls.len() == 0 {
        assert(ls.push(x)[0] == x);
        assert(ls.push(x).skip(1) =~~= Seq::<Seq<char>>::empty());
        assert(cat_lines(Seq::<Seq<char>>::empty()) == Seq::<char>::empty());
        assert(cat_lines(ls.push(x)) == ls.push(x)[0] + seq!['\n'] + cat_lines(
            ls.push(x).skip(1),
        ));
        assert(cat_lines(ls.push(x)) =~= x + seq!['\n']);
        assert(cat_lines(ls) + x + seq!['\n'] =~= x + seq!['\n']);
    } else {
        assert(ls.push(x).skip(1) =~~= ls.skip(1).push(x));
        lemma_cat_lines_snoc(ls.skip(1), x);
        assert(cat_lines(ls.push(x)) == ls[0] + seq!['\n'] + cat_lines(ls.skip(1).push(x)));
        assert(ls[0] + seq!['\n'] + (cat_lines(ls.skip(1)) + x + seq!['\n']) =~= (ls[0]
            + seq!['\n'] + cat_lines(ls.skip(1))) + x + seq!['\n']);
    }
}

/// Dedents a text held as characters.
pub fn dedent_chars(cs: &Vec<char>) -> (r: Vec<char>)
    ensures
        r@ == dedent_spec(cs@),
{
    let lines = split_rust_lines(cs);
    let w: usize = dedent_width_exec(&lines);
    let ghost ls = views(lines@);
    let ghost tgt = ls.map(|j: int, l: Seq<char>| strip_indent(l, w as int));
    let n: usize = lines.len();
    let mut out: Vec<char> = Vec::new();
    let mut j: usize = 0;
    proof {
        assert(tgt.take(0) =~~= Seq::<Seq<char>>::empty());
    }
    while j < n
        invariant
            n == lines@.len(),
            j <= n,
            ls == views(lines@),
            tgt == ls.map(|jj: int, l: Seq<char>| strip_indent(l, w as int)),
            out@ == cat_lines(tgt.take(j as int)),
        decreases n - j,
    {
        let ghost out0 = out@;
        let line = &lines[j];
        let len: usize = line.len();
        let lw: usize = leading_ws_exec(line);
        proof {
            lemma_ws_scan_bounds(line@, 0);
        }
        let cb: usize = if lw == len {
            0
        } else {
            lw
        };
        let k: usize = if cb < w {
            cb
        } else {
            w
        };
        let mut q: usize = k;
        while q < len
            invariant
                len == line@.len(),
                k <= q <= len,
                out@ == out0 + line@.subrange(k as int, q as int),
            decreases len - q,
        {
            out.push(line[q]);
            proof {
                assert(out@ =~= out0 + line@.subrange(k as int, q + 1));
            }
            q = q + 1;
        }
        out.push('\n');
        proof {
            assert(ls[j as int] == lines@[j as int]@);
            assert(tgt[j as int] == strip_indent(ls[j as int], w as int));
            assert(line@.subrange(k as int, len as int) =~= line@.skip(k as int));
            assert(tgt[j as int] == line@.skip(k as int));
            assert(tgt.take(j + 1) =~~= tgt.take(j as int).push(tgt[j as int]));
            lemma_cat_lines_snoc(tgt.take(j as int), tgt[j as int]);
            assert(out@ =~= (out0 + line@.subrange(k as int, len as int)).push('\n'));
            assert(out@ =~= cat_lines(tgt.take(j as int)) + tgt[j as int] + seq!['\n']);
        }
        j = j + 1;
    }
    proof {
        assert(tgt.take(n as int) =~~= tgt);
    }
    while out.len() > 0 && out[out.len() - 1] == '\n'
        invariant
            trim_trailing_newlines(out@) == trim_trailing_newlines(cat_lines(tgt)),
        decreases out.len(),
    {
        proof {
            assert(out@.drop_last() =~= out@.subrange(0, out@.len() - 1));
        }
        out.pop();
    }
    out
}

/// Removes the indentation shared by all non-blank lines of a comment block,
/// then trims trailing blank lines.
pub fn dedent_comment(s: &str) -> (r: String)
    ensures
        r@ == dedent_spec(s@),
{
    let cs = str_to_chars(s);
    let out = dedent_chars(&cs);
    chars_to_string(&out)
}

/// Whether a comment's raw text is a single-line (`#`-prefixed) comment.
pub open spec fn starts_hash(c: Seq<char>) -> bool {
    c.len() > 0 && c[0] == '#'
}

/// The views of a sequence of strings.
pub open spec fn str_views(vs: Seq<String>) -> Seq<Seq<char>> {
    vs.map(|j: int, s: String| s@)
}

/// The raw comment texts that survive the filtering walk, nearest first:
/// single-line comments accumulate; a blank line ends the walk; a block
/// comment is kept only when it is the first comment met, and always ends
/// the walk.
pub open spec fn collect_valid_from(ts: Seq<DocToken>, i: int, found_single: bool) -> Seq<
    Seq<char>,
>
    decreases ts.len() - i,
{
    if i < 0 || i >= ts.len() {
        Seq::empty()
    } else if has_empty_line_spec(ts[i]) {
        Seq::empty()
    } else {
        match ts[i] {
            DocToken::Whitespace(_) => collect_valid_from(ts, i + 1, found_single),
            DocToken::Comment(c) => {
                if starts_hash(c@) {
                    seq![c@] + collect_valid_from(ts, i + 1, true)
                } else if !found_single {
                    seq![c@]
                } else {
                    Seq::empty()
                }
            },
        }
    }
}

pub open spec fn collect_valid(ts: Seq<DocToken>) -> Seq<Seq<char>> {
    collect_valid_from(ts, 0, false)
}

/// Leading `/*` marker pairs removed, repeatedly.
pub open spec fn trim_start_block(c: Seq<char>) -> Seq<char>
    decreases c.len(),
{
    if c.len() >= 2 && c[0] == '/' && c[1] == '*' {
        trim_start_block(c.skip(2))
    } else {
        c
    }
}

/// Trailing `*/` marker pairs removed, repeatedly.
pub open spec fn trim_end_block(c: Seq<char>) -> Seq<char>
    decreases c.len(),
{
    if c.len() >= 2 && c[c.len() - 2] == '*' && c[c.len() - 1] == '/' {
        trim_end_block(c.take(c.len() - 2))
    } else {
        c
    }
}

/// Leading whitespace removed.
pub open spec fn trim_ws_start(c: Seq<char>) -> Seq<char>
    decreases c.len(),
{
    if c.len() > 0 && char_is_whitespace(c[0]) {
        trim_ws_start(c.skip(1))
    } else {
        c
    }
}

/// Trailing whitespace removed.
pub open spec fn trim_ws_end(c: Seq<char>) -> Seq<char>
    decreases c.len(),
{
    if c.len() > 0 && char_is_whitespace(c.last()) {
        trim_ws_end(c.drop_last())
    } else {
        c
    }
}

/// The pieces joined with a separator between them.
pub open spec fn join_with(ps: Seq<Seq<char>>, sep: Seq<char>) -> Seq<char>
    decreases ps.len(),
{
    if ps.len() == 0 {
        Seq::empty()
    } else if ps.len() == 1 {
        ps[0]
    } else {
        ps[0] + sep + join_with(ps.skip(1), sep)
    }
}

/// One raw comment cleaned: block markers and the whitespace around the body
/// gone, each line's leading marker stripped, lines rejoined.
pub open spec fn clean_comment(c: Seq<char>) -> Seq<char> {
    let t = trim_ws_start(trim_ws_end(trim_end_block(trim_start_block(c))));
    join_with(
        split_newlines(t).map(|j: int, l: Seq<char>| cleanup_single_line_spec(l)),
        seq!['\n'],
    )
}

/// The document block built from a nearest-first token walk: the surviving
/// comments in source order, each cleaned, joined as markdown paragraphs and
/// dedented as one block.
pub open spec fn cleanup_comments_spec(ts: Seq<DocToken>) -> Seq<char> {
    let vs = collect_valid(ts);
    dedent_spec(
        join_with(vs.reverse().map(|j: int, c: Seq<char>| clean_comment(c)), seq!['\n', '\n']),
    )
}

fn collect_phase(tokens: &Vec<DocToken>) -> (valid: Vec<String>)
    ensures
        str_views(valid@) == collect_valid(tokens@),
{
    let n: usize = tokens.len();
    let mut valid: Vec<String> = Vec::new();
    let mut found: bool = false;
    let mut i: usize = 0;
    proof {
        assert(str_views(valid@) + collect_valid_from(tokens@, 0, false) =~~= collect_valid(
            tokens@,
        ));
    }
    while i < n
        invariant
            n == tokens@.len(),
            i <= n,
            collect_valid(tokens@) == str_views(valid@) + collect_valid_from(
                tokens@,
                i as int,
                found,
            ),
        decreases n - i,
    {
        let ghost vv = str_views(valid@);
        let tok = &tokens[i];
        if has_empty_line(tok) {
            proof {
                assert(collect_valid_from(tokens@, i as int, found) =~~= Seq::<Seq<char>>::empty());
                assert(vv + Seq::<Seq<char>>::empty() =~~= vv);
            }
            return valid;
        }
        match tok {
            DocToken::Whitespace(_) => {},
            DocToken::Comment(c) => {
                let single = c.as_str().unicode_len() > 0 && c.as_str().get_char(0) == '#';
                proof {
                    assert(single == starts_hash(c@));
                }
                if single {
                    valid.push(c.clone());
                    found = true;
                    proof {
                        assert(str_views(valid@) =~~= vv.push(c@));
                        assert(vv + (seq![c@] + collect_valid_from(tokens@, i + 1, true)) =~~= (
                        vv.push(c@)) + collect_valid_from(tokens@, i + 1, true));
                    }
                } else {
                    if !found {
                        valid.push(c.clone());
                        proof {
                            assert(str_views(valid@) =~~= vv.push(c@));
                            assert(vv + seq![c@] =~~= vv.push(c@));
                            assert(collect_valid_from(tokens@, i as int, found) =~~= seq![c@]);
                            assert(str_views(valid@) + Seq::<Seq<char>>::empty() =~~= str_views(
                                valid@,
                            ));
                        }
                    } else {
                        proof {
                            assert(collect_valid_from(tokens@, i as int, found) =~~= Seq::<
                                Seq<char>,
                            >::empty());
                            assert(vv + Seq::<Seq<char>>::empty() =~~= vv);
                        }
                    }
                    return valid;
                }
            },
        }
        i = i + 1;
    }
    proof {
        assert(collect_valid_from(tokens@, n as int, found) =~~= Seq::<Seq<char>>::empty());
        assert(str_views(valid@) + Seq::<Seq<char>>::empty() =~~= str_views(valid@));
    }
    valid
}

proof fn lemma_join_with_snoc(ps: Seq<Seq<char>>, x: Seq<char>, sep: Seq<char>)
    ensures
        join_with(ps.push(x), sep) == if ps.len() == 0 {
            x
        } else {
            join_with(ps, sep) + sep + x
        },
    decreases ps.len(),
{
    if ps.len() == 0 {
        assert(ps.push(x).len() == 1);
        assert(ps.push(x)[0] == x);
    } else if ps.len() == 1 {
        assert(ps.push(x)[0] == ps[0]);
        assert(ps.push(x).skip(1) =~~= seq![x]);
        assert(join_with(seq![x], sep) == x);
    } else {
        assert(ps.push(x).skip(1) =~~= ps.skip(1).push(x));
        lemma_join_with_snoc(ps.skip(1), x, sep);
        assert(ps.push(x)[0] == ps[0]);
        assert(ps[0] + sep + (join_with(ps.skip(1), sep) + sep + x) =~= (ps[0] + sep + join_with(
            ps.skip(1),
            sep,
        )) + sep + x);
    }
}

fn clean_comment_exec(c: &str) -> (r: Vec<char>)
    ensures
        r@ == clean_comment(c@),
{
    let cs = str_to_chars(c);
    let mut s: usize = 0;
    let mut e: usize = cs.len();
    proof {
        assert(cs@.subrange(0, cs@.len() as int) =~= cs@);
    }
    // Strip leading `/*` pairs.
    while e - s >= 2 && cs[s] == '/' && cs[s + 1] == '*'
        invariant
            s <= e <= cs@.len(),
            e == cs@.len(),
            trim_start_block(cs@) == trim_start_block(cs@.subrange(s as int, e as int)),
        decreases e - s,
    {
        proof {
            let cur = cs@.subrange(s as int, e as int);
            assert(cur[0] == cs@[s as int] && cur[1] == cs@[s as int + 1]);
            assert(cur.skip(2) =~= cs@.subrange(s as int + 2, e as int));
        }
        s = s + 2;
    }
    proof {
        let cur = cs@.subrange(s as int, e as int);
        assert(trim_start_block(cur) == cur);
    }
    let ghost after_start = trim_start_block(cs@);
    // Strip trailing `*/` pairs.
    while e - s >= 2 && cs[e - 2] == '*' && cs[e - 1] == '/'
        invariant
            s <= e <= cs@.len(),
            trim_end_block(after_start) == trim_end_block(cs@.subrange(s as int, e as int)),
        decreases e - s,
    {
        proof {
            let cur = cs@.subrange(s as int, e as int);
            assert(cur[cur.len() - 2] == cs@[e - 2] && cur[cur.len() - 1] == cs@[e - 1]);
            assert(cur.take(cur.len() - 2) =~= cs@.subrange(s as int, e - 2));
        }
        e = e - 2;
    }
    proof {
        let cur = cs@.subrange(s as int, e as int);
        assert(trim_end_block(cur) == cur);
    }
    let ghost after_end = trim_end_block(after_start);
    // Trim surrounding whitespace, end first, then start.
    while e > s && is_whitespace_char(cs[e - 1])
        invariant
            s <= e <= cs@.len(),
            trim_ws_end(after_end) == trim_ws_end(cs@.subrange(s as int, e as int)),
        decreases e - s,
    {
        proof {
            let cur = cs@.subrange(s as int, e as int);
            assert(cur.last() == cs@[e - 1]);
            assert(cur.drop_last() =~= cs@.subrange(s as int, e - 1));
        }
        e = e - 1;
    }
    proof {
        let cur = cs@.subrange(s as int, e as int);
        assert(trim_ws_end(cur) == cur);
    }
    let ghost after_wse = trim_ws_end(after_end);
    while s < e && is_whitespace_char(cs[s])
        invariant
            s <= e <= cs@.len(),
            trim_ws_start(after_wse) == trim_ws_start(cs@.subrange(s as int, e as int)),
        decreases e - s,
    {
        proof {
            let cur = cs@.subrange(s as int, e as int);
            assert(cur[0] == cs@[s as int]);
            assert(cur.skip(1) =~= cs@.subrange(s as int + 1, e as int));
        }
        s = s + 1;
    }
    proof {
        let cur = cs@.subrange(s as int, e as int);
        assert(trim_ws_start(cur) == cur);
    }
    let ghost t = trim_ws_start(after_wse);
    let body = copy_range(&cs, s, e);
    let pieces = split_pieces(&body);
    let ghost mapped = split_newlines(t).map(|j: int, l: Seq<char>| cleanup_single_line_spec(l));
    let m: usize = pieces.len();
    let mut out: Vec<char> = Vec::new();
    let mut j: usize = 0;
    proof {
        assert(mapped.take(0) =~~= Seq::<Seq<char>>::empty());
    }
    while j < m
        invariant
            m == pieces@.len(),
            j <= m,
            views(pieces@) == split_newlines(t),
            mapped == split_newlines(t).map(|jj: int, l: Seq<char>| cleanup_single_line_spec(l)),
            out@ == join_with(mapped.take(j as int), seq!['\n']),
        decreases m - j,
    {
        let cleaned = strip_line_chars(&pieces[j]);
        proof {
            assert(views(pieces@)[j as int] == pieces@[j as int]@);
            assert(mapped[j as int] == cleanup_single_line_spec(views(pieces@)[j as int]));
            assert(mapped.take(j + 1) =~~= mapped.take(j as int).push(mapped[j as int]));
            lemma_join_with_snoc(mapped.take(j as int), mapped[j as int], seq!['\n']);
        }
        if j > 0 {
            out.push('\n');
        }
        let mut q: usize = 0;
        let ghost out0 = out@;
        let len: usize = cleaned.len();
        while q < len
            invariant
                len == cleaned@.len(),
                q <= len,
                out@ == out0 + cleaned@.take(q as int),
            decreases len - q,
        {
            out.push(cleaned[q]);
            proof {
                assert(out@ =~= out0 + cleaned@.take(q + 1));
            }
            q = q + 1;
        }
        proof {
            assert(cleaned@.take(len as int) =~= cleaned@);
            if j > 0 {
                assert(out@ =~= join_with(mapped.take(j as int), seq!['\n']) + seq!['\n']
                    + mapped[j as int]);
            } else {
                assert(out@ =~= mapped[j as int]);
            }
        }
        j = j + 1;
    }
    proof {
        assert(mapped.take(m as int) =~~= mapped);
    }
    out
}

/// Takes the raw comment and whitespace tokens found walking upward from a
/// definition, nearest first, filters them down to the run that documents
/// the definition, and produces the cleaned, dedented documentation block.
/// The result is empty when no comment survives.
pub fn cleanup_comments(tokens: &Vec<DocToken>) -> (r: String)
    ensures
        r@ == cleanup_comments_spec(tokens@),
{
    let valid = collect_phase(tokens);
    let ghost rs = collect_valid(tokens@).reverse().map(|j: int, c: Seq<char>| clean_comment(c));
    let m: usize = valid.len();
    let mut joined: Vec<char> = Vec::new();
    let mut j: usize = 0;
    proof {
        assert(rs.take(0) =~~= Seq::<Seq<char>>::empty());
        assert(rs.len() == m);
    }
    while j < m
        invariant
            m == valid@.len(),
            str_views(valid@) == collect_valid(tokens@),
            rs == collect_valid(tokens@).reverse().map(|jj: int, c: Seq<char>| clean_comment(c)),
            rs.len() == m,
            j <= m,
            joined@ == join_with(rs.take(j as int), seq!['\n', '\n']),
        decreases m - j,
    {
        let piece = clean_comment_exec(valid[m - 1 - j].as_str());
        proof {
            assert(collect_valid(tokens@).reverse()[j as int] == collect_valid(tokens@)[m - 1
                - j]);
            assert(str_views(valid@)[m - 1 - j] == valid@[m - 1 - j]@);
            assert(rs[j as int] == clean_comment(valid@[m - 1 - j]@));
            assert(rs.take(j + 1) =~~= rs.take(j as int).push(rs[j as int]));
            lemma_join_with_snoc(rs.take(j as int), rs[j as int], seq!['\n', '\n']);
        }
        if j > 0 {
            joined.push('\n');
            joined.push('\n');
        }
        let ghost out0 = joined@;
        let mut q: usize = 0;
        let len: usize = piece.len();
        while q < len
            invariant
                len == piece@.len(),
                q <= len,
                joined@ == out0 + piece@.take(q as int),
            decreases len - q,
        {
            joined.push(piece[q]);
            proof {
                assert(joined@ =~= out0 + piece@.take(q + 1));
            }
            q = q + 1;
        }
        proof {
            assert(piece@.take(len as int) =~= piece@);
            if j > 0 {
                assert(joined@ =~= join_with(rs.take(j as int), seq!['\n', '\n']) + seq!['\n', '\n']
                    + rs[j as int]);
            } else {
                assert(joined@ =~= rs[j as int]);
            }
        }
        j = j + 1;
    }
    proof {
        assert(rs.take(m as int) =~~= rs);
    }
    let out = dedent_chars(&joined);
    chars_to_string(&out)
}

proof fn lemma_collect_stops_at_blank(ts: Seq<DocToken>, i: int, j: int, found: bool)
    requires
        0 <= j <= i < ts.len(),
        has_empty_line_spec(ts[i]),
    ensures
        collect_valid_from(ts, j, found) == collect_valid_from(ts.take(i), j, found),
    decreases i - j,
{
    if j == i {
        assert(collect_valid_from(ts, j, found) =~~= Seq::<Seq<char>>::empty());
        assert(collect_valid_from(ts.take(i), j, found) =~~= Seq::<Seq<char>>::empty());
    } else {
        assert(ts.take(i)[j] == ts[j]);
        match ts[j] {
            DocToken::Whitespace(_) => {
                if !has_empty_line_spec(ts[j]) {
                    lemma_collect_stops_at_blank(ts, i, j + 1, found);
                }
            },
            DocToken::Comment(c) => {
                if starts_hash(c@) {
                    lemma_collect_stops_at_blank(ts, i, j + 1, true);
                }
            },
        }
    }
}

/// A comment separated from its anchor by a blank line is never collected:
/// once a whitespace token spanning a blank line appears in the walk, the
/// tokens from it onward contribute nothing.
pub proof fn lemma_blank_line_cuts(ts: Seq<DocToken>, i: int)
    requires
        0 <= i < ts.len(),
        has_empty_line_spec(ts[i]),
    ensures
        collect_valid(ts) == collect_valid(ts.take(i)),
        cleanup_comments_spec(ts) == cleanup_comments_spec(ts.take(i)),
{
    lemma_collect_stops_at_blank(ts, i, 0, false);
}

proof fn lemma_split_pieces_newline_free(s: Seq<char>)
    ensures
        forall|j: int, k: int|
            0 <= j < split_newlines(s).len() && 0 <= k < split_newlines(s)[j].len()
                ==> split_newlines(s)[j][k] != '\n',
    decreases s.len(),
{
    if s.len() > 0 {
        lemma_split_pieces_newline_free(s.skip(1));
        let rest = split_newlines(s.skip(1));
        if s[0] == '\n' {
            assert(split_newlines(s) == seq![Seq::<char>::empty()] + rest);
            assert forall|j: int, k: int|
                0 <= j < split_newlines(s).len() && 0 <= k < split_newlines(s)[j].len() implies
                split_newlines(s)[j][k] != '\n' by {
                if j > 0 {
                    assert(split_newlines(s)[j] == rest[j - 1]);
                }
            }
        } else {
            lemma_split_nonempty(s.skip(1));
            assert(split_newlines(s) == seq![seq![s[0]] + rest[0]] + rest.skip(1));
            assert forall|j: int, k: int|
                0 <= j < split_newlines(s).len() && 0 <= k < split_newlines(s)[j].len() implies
                split_newlines(s)[j][k] != '\n' by {
                if j == 0 {
                    assert(split_newlines(s)[0] == seq![s[0]] + rest[0]);
                    if k > 0 {
                        assert((seq![s[0]] + rest[0])[k] == rest[0][k - 1]);
                    }
                } else {
                    assert(split_newlines(s)[j] == rest.skip(1)[j - 1]);
                    assert(rest.skip(1)[j - 1] == rest[j]);
                }
            }
        }
    }
}

/// A text without newlines is a single piece.
proof fn lemma_split_of_newline_free(p: Seq<char>)
    requires
        forall|k: int| 0 <= k < p.len() ==> p[k] != '\n',
    ensures
        split_newlines(p) == seq![p],
    decreases p.len(),
{
    if p.len() == 0 {
        assert(split_newlines(p) =~~= seq![p]);
    } else {
        assert(forall|k: int| 0 <= k < p.skip(1).len() ==> p.skip(1)[k] != '\n');
        lemma_split_of_newline_free(p.skip(1));
        let rest = split_newlines(p.skip(1));
        assert(rest == seq![p.skip(1)]);
        assert(seq![p[0]] + p.skip(1) =~= p);
        assert(split_newlines(p) =~~= seq![p]);
    }
}

proof fn lemma_split_around_newline(p: Seq<char>, s2: Seq<char>)
    requires
        forall|k: int| 0 <= k < p.len() ==> p[k] != '\n',
    ensures
        split_newlines(p + seq!['\n'] + s2) == seq![p] + split_newlines(s2),
    decreases p.len(),
{
    let x = p + seq!['\n'] + s2;
    if p.len() == 0 {
        assert(x =~= seq!['\n'] + s2);
        assert(x[0] == '\n');
        assert(x.skip(1) =~= s2);
        assert(split_newlines(x) =~~= seq![p] + split_newlines(s2));
    } else {
        assert(forall|k: int| 0 <= k < p.skip(1).len() ==> p.skip(1)[k] != '\n');
        lemma_split_around_newline(p.skip(1), s2);
        assert(x[0] == p[0]);
        assert(x[0] != '\n');
        assert(x.skip(1) =~= p.skip(1) + seq!['\n'] + s2);
        let rest = split_newlines(x.skip(1));
        assert(rest == seq![p.skip(1)] + split_newlines(s2));
        assert(rest[0] == p.skip(1));
        assert(seq![p[0]] + p.skip(1) =~= p);
        assert(rest.skip(1) =~~= split_newlines(s2));
        assert(split_newlines(x) =~~= seq![p] + split_newlines(s2));
    }
}

proof fn lemma_join_as_cat(ls: Seq<Seq<char>>)
    requires
        ls.len() > 0,
    ensures
        join_with(ls, seq!['\n']) == cat_lines(ls.drop_last()) + ls.last(),
    decreases ls.len(),
{
    if ls.len() == 1 {
        assert(ls.drop_last() =~~= Seq::<Seq<char>>::empty());
        assert(cat_lines(Seq::<Seq<char>>::empty()) == Seq::<char>::empty());
        assert(Seq::<char>::empty() + ls.last() =~= ls[0]);
    } else {
        lemma_join_as_cat(ls.skip(1));
        assert(ls.skip(1).last() == ls.last());
        assert(ls.drop_last()[0] == ls[0]);
        assert(ls.drop_last().skip(1) =~~= ls.skip(1).drop_last());
        assert(cat_lines(ls.drop_last()) == ls[0] + seq!['\n'] + cat_lines(ls.skip(1).drop_last()));
        assert(ls[0] + seq!['\n'] + (cat_lines(ls.skip(1).drop_last()) + ls.last()) =~= (ls[0]
            + seq!['\n'] + cat_lines(ls.skip(1).drop_last())) + ls.last());
    }
}

proof fn lemma_split_of_join(ds: Seq<Seq<char>>)
    requires
        ds.len() > 0,
        forall|j: int, k: int| 0 <= j < ds.len() && 0 <= k < ds[j].len() ==> ds[j][k] != '\n',
    ensures
        split_newlines(join_with(ds, seq!['\n'])) == ds,
    decreases ds.len(),
{
    if ds.len() == 1 {
        lemma_split_of_newline_free(ds[0]);
        assert(split_newlines(join_with(ds, seq!['\n'])) =~~= ds);
    } else {
        assert(forall|j: int, k: int|
            0 <= j < ds.skip(1).len() && 0 <= k < ds.skip(1)[j].len() ==> ds.skip(1)[j][k] != '\n');
        lemma_split_of_join(ds.skip(1));
        lemma_split_around_newline(ds[0], join_with(ds.skip(1), seq!['\n']));
        assert(join_with(ds, seq!['\n']) == ds[0] + seq!['\n'] + join_with(ds.skip(1), seq!['\n']));
        assert(seq![ds[0]] + ds.skip(1) =~~= ds);
    }
}

/// The lines sequence with trailing empty lines removed.
pub open spec fn drop_empty_suffix(ls: Seq<Seq<char>>) -> Seq<Seq<char>>
    decreases ls.len(),
{
    if ls.len() > 0 && ls.last().len() == 0 {
        drop_empty_suffix(ls.drop_last())
    } else {
        ls
    }
}

proof fn lemma_drop_empty_suffix_props(ls: Seq<Seq<char>>)
    ensures
        drop_empty_suffix(ls).len() <= ls.len(),
        drop_empty_suffix(ls) == ls.take(drop_empty_suffix(ls).len() as int),
        drop_empty_suffix(ls).len() > 0 ==> drop_empty_suffix(ls).last().len() != 0,
        forall|j: int| drop_empty_suffix(ls).len() <= j < ls.len() ==> ls[j].len() == 0,
    decreases ls.len(),
{
    if ls.len() > 0 && ls.last().len() == 0 {
        lemma_drop_empty_suffix_props(ls.drop_last());
        assert(ls.drop_last() =~~= ls.take(ls.len() - 1));
        assert(drop_empty_suffix(ls) == drop_empty_suffix(ls.drop_last()));
        assert(ls.drop_last().take(drop_empty_suffix(ls).len() as int) =~~= ls.take(
            drop_empty_suffix(ls).len() as int,
        ));
        assert forall|j: int| drop_empty_suffix(ls).len() <= j < ls.len() implies ls[j].len()
            == 0 by {
            if j < ls.len() - 1 {
                assert(ls.drop_last()[j] == ls[j]);
            } else {
                assert(ls[j] == ls.last());
            }
        }
    } else {
        assert(ls.take(ls.len() as int) =~~= ls);
    }
}

proof fn lemma_trim_cat_drops_empties(ls: Seq<Seq<char>>)
    requires
        forall|j: int, k: int| 0 <= j < ls.len() && 0 <= k < ls[j].len() ==> ls[j][k] != '\n',
    ensures
        trim_trailing_newlines(cat_lines(ls)) == join_with(drop_empty_suffix(ls), seq!['\n']),
    decreases ls.len(),
{
    if ls.len() == 0 {
        assert(trim_trailing_newlines(cat_lines(ls)) =~= Seq::<char>::empty());
        assert(drop_empty_suffix(ls) =~~= ls);
    } else {
        let init = ls.drop_last();
        let x = ls.last();
        assert(init.push(x) =~~= ls);
        lemma_cat_lines_snoc(init, x);
        assert(cat_lines(ls) == cat_lines(init) + x + seq!['\n']);
        if x.len() == 0 {
            assert(forall|j: int, k: int|
                0 <= j < init.len() && 0 <= k < init[j].len() ==> init[j][k] != '\n');
            lemma_trim_cat_drops_empties(init);
            assert(cat_lines(ls) =~= cat_lines(init).push('\n'));
            assert(cat_lines(ls).last() == '\n');
            assert(cat_lines(ls).drop_last() =~= cat_lines(init));
            assert(drop_empty_suffix(ls) == drop_empty_suffix(init));
        } else {
            let y = cat_lines(init) + x;
            assert(cat_lines(ls) =~= y.push('\n'));
            assert(cat_lines(ls).last() == '\n');
            assert(cat_lines(ls).drop_last() =~= y);
            assert(y.last() == x.last());
            assert(ls.last()[x.len() - 1] != '\n');
            assert(y.last() != '\n');
            assert(trim_trailing_newlines(y) == y);
            assert(drop_empty_suffix(ls) == ls);
            lemma_join_as_cat(ls);
        }
    }
}

proof fn lemma_lines_of_join(ds: Seq<Seq<char>>)
    requires
        forall|j: int, k: int| 0 <= j < ds.len() && 0 <= k < ds[j].len() ==> ds[j][k] != '\n',
        forall|j: int| 0 <= j < ds.len() ==> (ds[j].len() == 0 || ds[j].last() != '\r'),
        ds.len() == 0 || ds.last().len() != 0,
    ensures
        rust_lines(join_with(ds, seq!['\n'])) == ds,
{
    if ds.len() == 0 {
        let e = Seq::<char>::empty();
        assert(join_with(ds, seq!['\n']) == e);
        assert(split_newlines(e) == seq![e]);
        assert(seq![e].last().len() == 0);
        assert(seq![e].drop_last() =~~= Seq::<Seq<char>>::empty());
        assert(rust_lines(e) =~~= ds);
    } else {
        lemma_split_of_join(ds);
        let ps = split_newlines(join_with(ds, seq!['\n']));
        assert(ps == ds);
        assert(ps.last().len() != 0);
        assert forall|j: int| 0 <= j < ds.len() implies (if j < ps.len() - 1 {
            strip_cr(ds[j])
        } else {
            ds[j]
        }) == ds[j] by {
            if j < ps.len() - 1 && ds[j].len() > 0 {
                assert(ds[j].last() != '\r');
            }
        }
        assert(rust_lines(join_with(ds, seq!['\n'])) =~~= ds);
    }
}

proof fn lemma_rust_lines_newline_free(s: Seq<char>)
    ensures
        forall|j: int, k: int|
            0 <= j < rust_lines(s).len() && 0 <= k < rust_lines(s)[j].len() ==> rust_lines(
                s,
            )[j][k] != '\n',
{
    lemma_split_pieces_newline_free(s);
    let ps = split_newlines(s);
    let qs = if ps.last().len() == 0 {
        ps.drop_last()
    } else {
        ps
    };
    assert forall|j: int, k: int|
        0 <= j < rust_lines(s).len() && 0 <= k < rust_lines(s)[j].len() implies rust_lines(
        s,
    )[j][k] != '\n' by {
        assert(qs[j] == ps[j]);
        let line = rust_lines(s)[j];
        if j < ps.len() - 1 && qs[j].len() > 0 && qs[j].last() == '\r' {
            assert(line == qs[j].drop_last());
            assert(line[k] == ps[j][k]);
        } else {
            assert(line == qs[j]);
        }
    }
}

proof fn lemma_dedent_width_nonneg(ls: Seq<Seq<char>>)
    ensures
        dedent_width(ls) >= 0,
    decreases ls.len(),
{
    if ls.len() > 0 {
        if leading_ws(ls[0]) != ls[0].len() {
            lemma_ws_scan_bounds(ls[0], 0);
        } else {
            lemma_dedent_width_nonneg(ls.skip(1));
        }
    }
}

/// The index of the first line that is not whitespace throughout, or -1.
spec fn first_content(ls: Seq<Seq<char>>) -> int
    decreases ls.len(),
{
    if ls.len() == 0 {
        -1
    } else if leading_ws(ls[0]) != ls[0].len() {
        0
    } else {
        let r = first_content(ls.skip(1));
        if r < 0 {
            -1
        } else {
            1 + r
        }
    }
}

proof fn lemma_first_content_props(ls: Seq<Seq<char>>)
    ensures
        first_content(ls) == -1 ==> forall|j: int|
            0 <= j < ls.len() ==> leading_ws(ls[j]) == ls[j].len(),
        first_content(ls) >= 0 ==> {
            &&& first_content(ls) < ls.len()
            &&& leading_ws(ls[first_content(ls)]) != ls[first_content(ls)].len()
            &&& forall|j: int|
                0 <= j < first_content(ls) ==> leading_ws(ls[j]) == ls[j].len()
            &&& dedent_width(ls) == leading_ws(ls[first_content(ls)])
        },
        first_content(ls) == -1 ==> dedent_width(ls) == 0,
    decreases ls.len(),
{
    if ls.len() > 0 && leading_ws(ls[0]) == ls[0].len() {
        lemma_first_content_props(ls.skip(1));
        let r = first_content(ls.skip(1));
        if r >= 0 {
            assert(ls[1 + r] == ls.skip(1)[r]);
            assert forall|j: int| 0 <= j < 1 + r implies leading_ws(ls[j]) == ls[j].len() by {
                if j > 0 {
                    assert(ls[j] == ls.skip(1)[j - 1]);
                }
            }
        } else {
            assert forall|j: int| 0 <= j < ls.len() implies leading_ws(ls[j]) == ls[j].len() by {
                if j > 0 {
                    assert(ls[j] == ls.skip(1)[j - 1]);
                }
            }
        }
    }
}

proof fn lemma_width_of_prepared(ls: Seq<Seq<char>>, j0: int)
    requires
        0 <= j0 < ls.len(),
        forall|j: int| 0 <= j < j0 ==> leading_ws(ls[j]) == ls[j].len(),
        leading_ws(ls[j0]) == 0,
        ls[j0].len() > 0,
    ensures
        dedent_width(ls) == 0,
    decreases j0,
{
    if j0 == 0 {
        assert(leading_ws(ls[0]) != ls[0].len());
    } else {
        assert(leading_ws(ls[0]) == ls[0].len());
        assert(ls.skip(1)[j0 - 1] == ls[j0]);
        assert(forall|j: int| 0 <= j < j0 - 1 ==> ls.skip(1)[j] == ls[j + 1]);
        lemma_width_of_prepared(ls.skip(1), j0 - 1);
    }
}

proof fn lemma_all_blank_width(ls: Seq<Seq<char>>)
    requires
        forall|j: int| 0 <= j < ls.len() ==> leading_ws(ls[j]) == ls[j].len(),
    ensures
        dedent_width(ls) == 0,
    decreases ls.len(),
{
    if ls.len() > 0 {
        assert(forall|j: int| 0 <= j < ls.skip(1).len() ==> ls.skip(1)[j] == ls[j + 1]);
        lemma_all_blank_width(ls.skip(1));
    }
}

/// Whether no line of `s`, as `str::lines` splits it, ends with a carriage
/// return. A line end hiding a `\r` is re-split differently by a second
/// pass; the normalized text the pipeline works on never contains one.
pub open spec fn no_cr_line_ends(s: Seq<char>) -> bool {
    forall|j: int|
        0 <= j < rust_lines(s).len() ==> (rust_lines(s)[j].len() == 0 || rust_lines(s)[j].last()
            != '\r')
}

/// Dedent is idempotent: dedenting a dedented text changes nothing.
pub proof fn lemma_dedent_idempotent(x: Seq<char>)
    requires
        no_cr_line_ends(x),
    ensures
        dedent_spec(dedent_spec(x)) == dedent_spec(x),
{
    let ls = rust_lines(x);
    let w = dedent_width(ls);
    let ls2 = ls.map(|j: int, l: Seq<char>| strip_indent(l, w));
    let out1 = trim_trailing_newlines(cat_lines(ls2));
    assert(out1 == dedent_spec(x));
    lemma_rust_lines_newline_free(x);
    lemma_dedent_width_nonneg(ls);
    // Each stripped line is a suffix of the original line.
    assert forall|j: int| 0 <= j < ls2.len() implies {
        &&& ls2[j] == ls[j].skip(
            if content_begin(ls[j]) < w {
                content_begin(ls[j])
            } else {
                w
            },
        )
        &&& 0 <= (if content_begin(ls[j]) < w {
            content_begin(ls[j])
        } else {
            w
        }) <= ls[j].len()
    } by {
        lemma_ws_scan_bounds(ls[j], 0);
    }
    assert forall|j: int, k: int|
        0 <= j < ls2.len() && 0 <= k < ls2[j].len() implies ls2[j][k] != '\n' by {
        let c = if content_begin(ls[j]) < w {
            content_begin(ls[j])
        } else {
            w
        };
        assert(ls2[j][k] == ls[j][k + c]);
    }
    assert forall|j: int| 0 <= j < ls2.len() implies (ls2[j].len() == 0 || ls2[j].last()
        != '\r') by {
        let c = if content_begin(ls[j]) < w {
            content_begin(ls[j])
        } else {
            w
        };
        if ls2[j].len() > 0 {
            assert(ls2[j].last() == ls[j][ls[j].len() - 1]);
            assert(ls[j].last() != '\r');
        }
    }
    lemma_trim_cat_drops_empties(ls2);
    let ds = drop_empty_suffix(ls2);
    lemma_drop_empty_suffix_props(ls2);
    assert(out1 == join_with(ds, seq!['\n']));
    assert(forall|j: int| 0 <= j < ds.len() ==> ds[j] == ls2[j]);
    lemma_lines_of_join(ds);
    assert(rust_lines(out1) == ds);
    // The second pass finds nothing to strip.
    lemma_first_content_props(ls);
    let j0 = first_content(ls);
    if j0 >= 0 {
        assert(w == leading_ws(ls[j0]));
        lemma_ws_scan_bounds(ls[j0], 0);
        assert(w < ls[j0].len());
        assert(content_begin(ls[j0]) == w);
        assert(ls2[j0] == ls[j0].skip(w));
        assert(ls2[j0].len() > 0);
        assert(ls2[j0][0] == ls[j0][w]);
        assert(!char_is_whitespace(ls2[j0][0]));
        assert(leading_ws(ls2[j0]) == 0);
        // Lines before it stay whitespace throughout.
        assert forall|j: int| 0 <= j < j0 implies ls2[j] == ls[j] && leading_ws(ls2[j])
            == ls2[j].len() by {
            assert(content_begin(ls[j]) == 0);
            assert(ls[j].skip(0) =~= ls[j]);
        }
        assert(j0 < ds.len());
        assert(dedent_width(ds) == 0) by {
            lemma_width_of_prepared(ds, j0);
        }
    } else {
        assert forall|j: int| 0 <= j < ls2.len() implies leading_ws(ls2[j]) == ls2[j].len() by {
            assert(leading_ws(ls[j]) == ls[j].len());
            assert(content_begin(ls[j]) == 0);
            assert(ls[j].skip(0) =~= ls[j]);
            assert(ls2[j] == ls[j]);
        }
        lemma_all_blank_width(ds);
    }
    assert(dedent_width(ds) == 0);
    // Stripping with width 0 is the identity.
    let ds2 = ds.map(|j: int, l: Seq<char>| strip_indent(l, 0));
    assert forall|j: int| 0 <= j < ds.len() implies ds2[j] == ds[j] by {
        lemma_ws_scan_bounds(ds[j], 0);
        assert(ds[j].skip(0) =~= ds[j]);
    }
    assert(ds2 =~~= ds);
    assert(dedent_spec(out1) == trim_trailing_newlines(cat_lines(ds)));
    lemma_trim_cat_drops_empties(ds);
    assert(drop_empty_suffix(ds) == ds);
    assert(dedent_spec(out1) == join_with(ds, seq!['\n']));
}

} // verus!
