//! Rendering of the final result block.

use vstd::prelude::*;

verus! {

use vstd::string::StringExecFns;

/// The decimal digit character for `d`.
pub open spec fn digit_char(d: int) -> char {
    if d == 0 {
        '0'
    } else if d == 1 {
        '1'
    } else if d == 2 {
        '2'
    } else if d == 3 {
        '3'
    } else if d == 4 {
        '4'
    } else if d == 5 {
        '5'
    } else if d == 6 {
        '6'
    } else if d == 7 {
        '7'
    } else if d == 8 {
        '8'
    } else {
        '9'
    }
}

/// The decimal digits of `n`, most significant first.
pub open spec fn dec_digits(n: int) -> Seq<char>
    decreases n,
{
    if n < 10 {
        seq![digit_char(n)]
    } else {
        dec_digits(n / 10).push(digit_char(n % 10))
    }
}

fn digit_to_char(d: u8) -> (c: char)
    requires
        d < 10,
    ensures
        c == digit_char(d as int),
{
    if d == 0 {
        '0'
    } else if d == 1 {
        '1'
    } else if d == 2 {
        '2'
    } else if d == 3 {
        '3'
    } else if d == 4 {
        '4'
    } else if d == 5 {
        '5'
    } else if d == 6 {
        '6'
    } else if d == 7 {
        '7'
    } else if d == 8 {
        '8'
    } else {
        '9'
    }
}

/// Renders a number in decimal.
pub fn usize_to_string(n: usize) -> (r: String)
    ensures
        r@ == dec_digits(n as int),
{
    let mut digits: Vec<char> = Vec::new();
    let mut m: usize = n;
    proof {
        assert(dec_digits(m as int) + digits@.reverse() =~= dec_digits(n as int));
    }
    while m >= 10
        invariant
            dec_digits(n as int) == dec_digits(m as int) + digits@.reverse(),
        decreases m,
    {
        let d: u8 = (m % 10) as u8;
        let ghost digits0 = digits@;
        digits.push(digit_to_char(d));
        proof {
            assert(digits@.reverse() =~= seq![digit_char(d as int)] + digits0.reverse());
            assert(dec_digits(m as int) == dec_digits(m as int / 10).push(
                digit_char(m as int % 10),
            ));
            assert(dec_digits((m / 10) as int) + (seq![digit_char(d as int)] + digits0.reverse())
                =~= (dec_digits((m / 10) as int).push(digit_char(m as int % 10)))
                + digits0.reverse());
        }
        m = m / 10;
    }
    let mut out: Vec<char> = Vec::new();
    out.push(digit_to_char(m as u8));
    let k: usize = digits.len();
    let mut idx: usize = 0;
    proof {
        assert(out@ =~= seq![digit_char(m as int)]);
        assert(dec_digits(m as int) == seq![digit_char(m as int)]);
        assert(out@ + digits@.reverse().take(0) =~= out@);
    }
    while idx < k
        invariant
            k == digits@.len(),
            idx <= k,
            out@ == seq![digit_char(m as int)] + digits@.reverse().take(idx as int),
        decreases k - idx,
    {
        out.push(digits[k - 1 - idx]);
        proof {
            assert(digits@.reverse()[idx as int] == digits@[k - 1 - idx]);
            assert(out@ =~= seq![digit_char(m as int)] + digits@.reverse().take(idx + 1));
        }
        idx = idx + 1;
    }
    proof {
        assert(digits@.reverse().take(k as int) =~= digits@.reverse());
        assert(out@ =~= dec_digits(m as int) + digits@.reverse());
    }
    crate::strutil::chars_to_string(&out)
}

/// The fully processed result triple, ready to render.
pub struct SearchResult {
    /// Name of the function.
    pub identifier: String,
    /// Dedented documentation comment.
    pub doc: String,
    /// Parameter block for the function.
    pub param_block: String,
}

/// The final hover block: a synopsis line naming the identifier and its
/// parameter block, the documentation text (left flush, not indented under
/// the synopsis), and a `file:line` footer.
pub open spec fn format_spec(
    id: Seq<char>,
    params: Seq<char>,
    doc: Seq<char>,
    file: Seq<char>,
    line: int,
) -> Seq<char> {
    "**Synopsis:** `"@ + id + "` = "@ + params + "\n\n"@ + doc + "\n\n# "@ + file + ":"@
        + dec_digits(line)
}

impl SearchResult {
    /// Renders the result with its source location.
    pub fn format(&self, filename: &str, line: usize) -> (r: String)
        ensures
            r@ == format_spec(
                self.identifier@,
                self.param_block@,
                self.doc@,
                filename@,
                line as int,
            ),
    {
        let mut out = String::new();
        out.append("**Synopsis:** `");
        out.append(self.identifier.as_str());
        out.append("` = ");
        out.append(self.param_block.as_str());
        out.append("\n\n");
        out.append(self.doc.as_str());
        out.append("\n\n# ");
        out.append(filename);
        out.append(":");
        let num = usize_to_string(line);
        out.append(num.as_str());
        out
    }
}

} // verus!
