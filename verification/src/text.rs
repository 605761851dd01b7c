//! Line-ending normalization and position resolution.
//!
//! Nix accepts `\r`, `\n` and `\r\n` as line separators; the rest of the
//! pipeline reasons about a single convention, so every source is first
//! rewritten to `\n` endings. A host-supplied (line, column) pair is then
//! turned into a byte offset by counting newlines, with the column added as a
//! raw byte delta, matching the host's own byte-based column accounting.

use crate::strutil::chars_to_string;
use vstd::prelude::*;

verus! {

use vstd::string::StrSliceExecFns;
use vstd::string::StringSliceAdditionalSpecFns;

/// The normalized form of a character sequence: each `\r\n` pair and each
/// lone `\r` becomes a single `\n`; everything else is kept.
pub open spec fn normalize_endings(s: Seq<char>) -> Seq<char>
    decreases s.len(),
{
    if s.len() == 0 {
        Seq::empty()
    } else if s[0] == '\r' {
        if s.len() >= 2 && s[1] == '\n' {
            seq!['\n'] + normalize_endings(s.skip(2))
        } else {
            seq!['\n'] + normalize_endings(s.skip(1))
        }
    } else {
        seq![s[0]] + normalize_endings(s.skip(1))
    }
}

/// Rewrites Nix-compatible line endings (`\r`, `\n`, `\r\n`) to plain `\n`.
pub fn convert_endings(s: &str) -> (out: String)
    ensures
        out@ == normalize_endings(s@),
{
    let n: usize = s.unicode_len();
    let mut buf: Vec<char> = Vec::new();
    let mut i: usize = 0;
    proof {
        assert(s@.skip(0) =~= s@);
        assert(Seq::<char>::empty() + normalize_endings(s@) =~= normalize_endings(s@));
    }
    while i < n
        invariant
            n == s@.len(),
            i <= n,
            normalize_endings(s@) == buf@ + normalize_endings(s@.skip(i as int)),
        decreases n - i,
    {
        let c = s.get_char(i);
        proof {
            assert(s@.skip(i as int)[0] == s@[i as int]);
            assert(s@.skip(i as int).skip(1) =~= s@.skip(i + 1));
            if i + 1 < n {
                assert(s@.skip(i as int)[1] == s@[i + 1]);
                assert(s@.skip(i as int).skip(2) =~= s@.skip(i + 2));
            }
        }
        if c == '\r' {
            buf.push('\n');
            if i + 1 < n && s.get_char(i + 1) == '\n' {
                proof {
                    assert(normalize_endings(s@.skip(i as int)) =~= seq!['\n']
                        + normalize_endings(s@.skip(i + 2)));
                    assert(buf@ + normalize_endings(s@.skip(i + 2)) =~= buf@.drop_last() + (
                    seq!['\n'] + normalize_endings(s@.skip(i + 2))));
                }
                i = i + 2;
            } else {
                proof {
                    assert(normalize_endings(s@.skip(i as int)) =~= seq!['\n']
                        + normalize_endings(s@.skip(i + 1)));
                    assert(buf@ + normalize_endings(s@.skip(i + 1)) =~= buf@.drop_last() + (
                    seq!['\n'] + normalize_endings(s@.skip(i + 1))));
                }
                i = i + 1;
            }
        } else {
            buf.push(c);
            proof {
                assert(normalize_endings(s@.skip(i as int)) =~= seq![s@[i as int]]
                    + normalize_endings(s@.skip(i + 1)));
                assert(buf@ + normalize_endings(s@.skip(i + 1)) =~= buf@.drop_last() + (seq![
                    s@[i as int],
                ] + normalize_endings(s@.skip(i + 1))));
            }
            i = i + 1;
        }
    }
    proof {
        assert(s@.skip(n as int) =~= Seq::<char>::empty());
        assert(buf@ + normalize_endings(Seq::<char>::empty()) =~= buf@);
    }
    chars_to_string(&buf)
}

/// The index at which the resolving scan stops: byte `i` is examined with a
/// running line count of `lines`; a newline byte raises the count first, and
/// the scan stops at the first byte where the count equals `line`.
pub open spec fn line_anchor(b: Seq<u8>, line: int, i: int, lines: int) -> Option<int>
    decreases b.len() - i,
{
    if i < 0 || i >= b.len() {
        None
    } else {
        let next = if b[i] == 10 { lines + 1 } else { lines };
        if next == line {
            Some(i)
        } else {
            line_anchor(b, line, i + 1, next)
        }
    }
}

/// Where the scan stops, it stops inside the text.
pub proof fn lemma_line_anchor_in_range(b: Seq<u8>, line: int, i: int, lines: int)
    requires
        line_anchor(b, line, i, lines) is Some,
    ensures
        i <= line_anchor(b, line, i, lines)->Some_0 < b.len(),
    decreases b.len() - i,
{
    if 0 <= i < b.len() {
        let next = if b[i] == 10 {
            lines + 1
        } else {
            lines
        };
        if next != line {
            lemma_line_anchor_in_range(b, line, i + 1, next);
        }
    }
}

/// The byte offset that a 1-indexed (line, column) pair denotes in `b`, under
/// the host's accounting: the scan's stopping index plus the raw column, or
/// nothing when the text has fewer lines than `line`.
pub open spec fn find_pos_spec(b: Seq<u8>, line: int, col: int) -> Option<int> {
    match line_anchor(b, line, 0, 1) {
        Some(a) => Some(a + col),
        None => None,
    }
}

/// Resolves a position to a byte offset, or reports that the position lies
/// beyond the text (or that the offset would not fit in `usize`).
pub fn try_find_pos(s: &str, line: usize, col: usize) -> (r: Option<usize>)
    ensures
        match find_pos_spec(s.spec_bytes(), line as int, col as int) {
            Some(p) => if p <= usize::MAX {
                r == Some(p as usize)
            } else {
                r is None
            },
            None => r is None,
        },
{
    let b: &[u8] = s.as_bytes();
    let n: usize = b.len();
    let mut i: usize = 0;
    let mut lines: u128 = 1;
    while i < n
        invariant
            b@ == s.spec_bytes(),
            n == b@.len(),
            i <= n,
            1 <= lines <= i + 1,
            line_anchor(b@, line as int, 0, 1) == line_anchor(
                b@,
                line as int,
                i as int,
                lines as int,
            ),
        decreases n - i,
    {
        let next: u128 = if b[i] == 10 {
            lines + 1
        } else {
            lines
        };
        if next == line as u128 {
            if i <= usize::MAX - col {
                return Some(i + col);
            } else {
                return None;
            }
        }
        lines = next;
        i = i + 1;
    }
    None
}

/// Number of newline bytes among the first `end` bytes of `b`.
pub open spec fn newlines_upto(b: Seq<u8>, end: int) -> int
    decreases end,
{
    if end <= 0 {
        0
    } else {
        newlines_upto(b, end - 1) + if end - 1 < b.len() && b[end - 1] == 10 {
            1int
        } else {
            0int
        }
    }
}

/// Index of the last newline byte strictly before `o`, or -1 if there is none.
pub open spec fn last_newline_before(b: Seq<u8>, o: int) -> int
    decreases o,
{
    if o <= 0 {
        -1
    } else if o - 1 < b.len() && b[o - 1] == 10 {
        o - 1
    } else {
        last_newline_before(b, o - 1)
    }
}

/// The 1-indexed line that byte offset `o` falls on.
pub open spec fn line_of(b: Seq<u8>, o: int) -> int {
    1 + newlines_upto(b, o)
}

/// The column that, fed back to the resolver with `line_of`, denotes `o`.
pub open spec fn col_of(b: Seq<u8>, o: int) -> int {
    let p = last_newline_before(b, o);
    if p < 0 {
        o
    } else {
        o - p
    }
}

proof fn lemma_newlines_mono(b: Seq<u8>, e1: int, e2: int)
    requires
        e1 <= e2,
    ensures
        newlines_upto(b, e1) <= newlines_upto(b, e2),
    decreases e2 - e1,
{
    if e1 < e2 {
        lemma_newlines_mono(b, e1, e2 - 1);
    }
}

proof fn lemma_last_newline_props(b: Seq<u8>, o: int)
    requires
        0 <= o <= b.len(),
    ensures
        -1 <= last_newline_before(b, o) < o,
        last_newline_before(b, o) >= 0 ==> b[last_newline_before(b, o)] == 10,
        newlines_upto(b, o) == newlines_upto(b, last_newline_before(b, o) + 1),
        last_newline_before(b, o) < 0 ==> forall|j: int| 0 <= j < o ==> b[j] != 10,
    decreases o,
{
    if o > 0 && !(o - 1 < b.len() && b[o - 1] == 10) {
        lemma_last_newline_props(b, o - 1);
    }
}

proof fn lemma_anchor_scan(b: Seq<u8>, line: int, i: int, p: int)
    requires
        0 <= i <= p < b.len(),
        b[p] == 10,
        line == 1 + newlines_upto(b, p + 1),
    ensures
        line_anchor(b, line, i, 1 + newlines_upto(b, i)) == Some(p),
    decreases p - i,
{
    let lines = 1 + newlines_upto(b, i);
    let next = if b[i] == 10 {
        lines + 1
    } else {
        lines
    };
    assert(next == 1 + newlines_upto(b, i + 1));
    if i == p {
        assert(next == line);
    } else {
        lemma_newlines_mono(b, i + 1, p);
        assert(newlines_upto(b, p + 1) == newlines_upto(b, p) + 1);
        assert(next < line);
        lemma_anchor_scan(b, line, i + 1, p);
    }
}

/// PositionResolver inverts line counting: decomposing a valid byte offset
/// into the host's 1-indexed line and column by counting newlines, then
/// resolving that pair again, yields the same offset. (The one excluded
/// corner is offset 0 in a text that opens with a newline, where the host's
/// own accounting assigns no reachable pair.)
pub proof fn lemma_find_pos_inverts(b: Seq<u8>, o: int)
    requires
        b.len() > 0,
        0 <= o <= b.len(),
        !(o == 0 && b[0] == 10),
    ensures
        find_pos_spec(b, line_of(b, o), col_of(b, o)) == Some(o),
{
    let p = last_newline_before(b, o);
    lemma_last_newline_props(b, o);
    if p < 0 {
        assert(newlines_upto(b, 0) == 0);
        assert(line_of(b, o) == 1);
        if o > 0 {
            assert(b[0] != 10);
        }
        assert(line_anchor(b, 1, 0, 1) == Some(0int));
    } else {
        assert(newlines_upto(b, 0) == 0);
        lemma_anchor_scan(b, line_of(b, o), 0, p);
    }
}

/// Texts that render the same lines with `\r` in place of `\n`, or with
/// `\r\n` in place of `\n`, normalize to the same text; resolving a position
/// after normalization therefore does not depend on the convention.
pub open spec fn lf_only(a: Seq<char>) -> bool {
    forall|i: int| 0 <= i < a.len() ==> a[i] != '\r'
}

/// The same text written with lone-`\r` line endings.
pub open spec fn with_cr_endings(a: Seq<char>) -> Seq<char>
    decreases a.len(),
{
    if a.len() == 0 {
        Seq::empty()
    } else if a[0] == '\n' {
        seq!['\r'] + with_cr_endings(a.skip(1))
    } else {
        seq![a[0]] + with_cr_endings(a.skip(1))
    }
}

/// The same text written with `\r\n` line endings.
pub open spec fn with_crlf_endings(a: Seq<char>) -> Seq<char>
    decreases a.len(),
{
    if a.len() == 0 {
        Seq::empty()
    } else if a[0] == '\n' {
        seq!['\r', '\n'] + with_crlf_endings(a.skip(1))
    } else {
        seq![a[0]] + with_crlf_endings(a.skip(1))
    }
}

proof fn lemma_with_cr_no_lf(a: Seq<char>)
    requires
        lf_only(a),
    ensures
        forall|i: int| 0 <= i < with_cr_endings(a).len() ==> with_cr_endings(a)[i] != '\n',
    decreases a.len(),
{
    if a.len() > 0 {
        assert(lf_only(a.skip(1)));
        lemma_with_cr_no_lf(a.skip(1));
        let h = if a[0] == '\n' {
            '\r'
        } else {
            a[0]
        };
        assert(with_cr_endings(a) == seq![h] + with_cr_endings(a.skip(1)));
        assert forall|i: int| 0 <= i < with_cr_endings(a).len() implies with_cr_endings(a)[i]
            != '\n' by {
            if i > 0 {
                assert(with_cr_endings(a)[i] == with_cr_endings(a.skip(1))[i - 1]);
            }
        }
    }
}

/// Normalization erases the choice of line-ending convention: an `\n`-only
/// text is a fixed point, and its `\r` and `\r\n` renderings normalize back
/// to it.
pub proof fn lemma_normalize_convention_independent(a: Seq<char>)
    requires
        lf_only(a),
    ensures
        normalize_endings(a) == a,
        normalize_endings(with_cr_endings(a)) == a,
        normalize_endings(with_crlf_endings(a)) == a,
    decreases a.len(),
{
    if a.len() == 0 {
        assert(normalize_endings(a) =~= a);
        assert(normalize_endings(with_cr_endings(a)) =~= a);
        assert(normalize_endings(with_crlf_endings(a)) =~= a);
    } else {
        let t = a.skip(1);
        assert(lf_only(t));
        lemma_normalize_convention_independent(t);
        // The `\n`-only text is untouched.
        assert(a[0] != '\r');
        assert(normalize_endings(a) == seq![a[0]] + normalize_endings(t));
        assert(seq![a[0]] + t =~= a);
        // The `\r` rendering: a lone `\r` is never followed by `\n`.
        lemma_with_cr_no_lf(t);
        if a[0] == '\n' {
            let w = seq!['\r'] + with_cr_endings(t);
            assert(with_cr_endings(a) == w);
            assert(w[0] == '\r');
            assert(w.skip(1) =~= with_cr_endings(t));
            if w.len() >= 2 {
                assert(w[1] == with_cr_endings(t)[0]);
                assert(w[1] != '\n');
            }
            assert(normalize_endings(w) == seq!['\n'] + normalize_endings(with_cr_endings(t)));
            assert(seq!['\n'] + t =~= a);
        } else {
            let w = seq![a[0]] + with_cr_endings(t);
            assert(with_cr_endings(a) == w);
            assert(w.skip(1) =~= with_cr_endings(t));
            assert(normalize_endings(w) == seq![a[0]] + normalize_endings(with_cr_endings(t)));
        }
        // The `\r\n` rendering.
        if a[0] == '\n' {
            let w = seq!['\r', '\n'] + with_crlf_endings(t);
            assert(with_crlf_endings(a) == w);
            assert(w[0] == '\r' && w.len() >= 2 && w[1] == '\n');
            assert(w.skip(2) =~= with_crlf_endings(t));
            assert(normalize_endings(w) == seq!['\n'] + normalize_endings(with_crlf_endings(t)));
            assert(seq!['\n'] + t =~= a);
        } else {
            let w = seq![a[0]] + with_crlf_endings(t);
            assert(with_crlf_endings(a) == w);
            assert(w[0] != '\r');
            assert(w.skip(1) =~= with_crlf_endings(t));
            assert(normalize_endings(w) == seq![a[0]] + normalize_endings(with_crlf_endings(t)));
        }
    }
}

/// Resolving a position in a normalized text yields the same byte offset
/// whichever line-ending convention the original file used.
pub proof fn lemma_resolution_convention_independent(a: Seq<char>, line: int, col: int)
    requires
        lf_only(a),
    ensures
        find_pos_spec(vstd::utf8::encode_utf8(normalize_endings(with_cr_endings(a))), line, col)
            == find_pos_spec(vstd::utf8::encode_utf8(normalize_endings(a)), line, col),
        find_pos_spec(vstd::utf8::encode_utf8(normalize_endings(with_crlf_endings(a))), line, col)
            == find_pos_spec(vstd::utf8::encode_utf8(normalize_endings(a)), line, col),
{
    lemma_normalize_convention_independent(a);
}

/// Converts a 1-indexed (line, column) position into a byte offset.
///
/// The input must already have its line endings normalized. The column is a
/// raw byte delta, not a character count: multi-byte characters earlier on
/// the line do not shift it. A position beyond the last line is excluded by
/// precondition.
pub fn find_pos(s: &str, line: usize, col: usize) -> (r: usize)
    requires
        find_pos_spec(s.spec_bytes(), line as int, col as int) is Some,
        find_pos_spec(s.spec_bytes(), line as int, col as int)->Some_0 <= usize::MAX,
    ensures
        Some(r as int) == find_pos_spec(s.spec_bytes(), line as int, col as int),
{
    proof {
        lemma_line_anchor_in_range(s.spec_bytes(), line as int, 0, 1);
    }
    match try_find_pos(s, line, col) {
        Some(p) => p,
        None => vstd::pervasive::unreached(),
    }
}

} // verus!
