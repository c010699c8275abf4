use vstd::prelude::*;
use crate::scene_parser::tokenizer::{string_from_chars, concat};

pub mod tokenizer;
pub mod parser;
pub mod scene_parser;
pub mod unused;

verus! {

/// A line and column in a scene file; both start at 1.
#[derive(Debug, PartialEq, Eq, Clone, Copy)]
pub struct Location {
    pub line: usize,
    pub column: usize,
}

/// The line of position `i` of `s`: one more than the newlines before it.
pub open spec fn line_at(s: Seq<char>, i: int) -> int
    decreases i,
{
    if i <= 0 {
        1
    } else {
        line_at(s, i - 1) + if s[i - 1] == '\n' {
            1int
        } else {
            0int
        }
    }
}

/// The column of position `i` of `s`: one more than the characters since the
/// last newline before it.
pub open spec fn column_at(s: Seq<char>, i: int) -> int
    decreases i,
{
    if i <= 0 {
        1
    } else if s[i - 1] == '\n' {
        1
    } else {
        column_at(s, i - 1) + 1
    }
}

/// The location of position `i` of `s`.
pub open spec fn location_at(s: Seq<char>, i: int) -> Location {
    Location { line: line_at(s, i) as usize, column: column_at(s, i) as usize }
}

/// Lines and columns never exceed one more than the position.
pub proof fn lemma_location_bounds(s: Seq<char>, i: int)
    requires
        0 <= i,
    ensures
        1 <= line_at(s, i) <= i + 1,
        1 <= column_at(s, i) <= i + 1,
    decreases i,
{
    if i > 0 {
        lemma_location_bounds(s, i - 1);
    }
}

/// The decimal digit `d`.
pub open spec fn digit_char(d: int) -> char {
    seq!['0', '1', '2', '3', '4', '5', '6', '7', '8', '9'][d]
}

/// The decimal digits of `n`, most significant first, without leading zeros.
pub open spec fn decimal(n: nat) -> Seq<char>
    decreases n,
{
    if n < 10 {
        seq![digit_char(n as int)]
    } else {
        decimal(n / 10).push(digit_char((n % 10) as int))
    }
}

/// Writes `n` in decimal.
pub fn decimal_string(n: usize) -> (s: String)
    ensures
        s@ == decimal(n as nat),
{
    let digits = vec!['0', '1', '2', '3', '4', '5', '6', '7', '8', '9'];
    let mut out: Vec<char> = Vec::new();
    let mut m: usize = n;
    loop
        invariant_except_break
            digits@ == seq!['0', '1', '2', '3', '4', '5', '6', '7', '8', '9'],
            m > 0 ==> decimal(n as nat) == decimal(m as nat) + out@,
            m == 0 ==> (n == 0 && out@.len() == 0),
        ensures
            out@ == decimal(n as nat),
        decreases m,
    {
        let c = digits[m % 10];
        let ghost before = out@;
        out.insert(0, c);
        if m < 10 {
            assert(out@ =~= seq![c] + before);
            break;
        }
        proof {
            assert(decimal(m as nat) == decimal((m / 10) as nat).push(c));
            assert(decimal((m / 10) as nat) + out@ =~= decimal((m / 10) as nat).push(c) + before);
        }
        m = m / 10;
    }
    string_from_chars(&out, 0, out.len())
}

impl Location {
    /// The location as `line:column`.
    pub fn to_string(&self) -> (s: String)
        ensures
            s@ == decimal(self.line as nat) + ":"@ + decimal(self.column as nat),
    {
        let line = decimal_string(self.line);
        let column = decimal_string(self.column);
        concat(concat(line.as_str(), ":").as_str(), column.as_str())
    }
}

} // verus!
