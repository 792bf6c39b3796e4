//! File positioning: turns a character offset into a 1-based line and column,
//! used when rendering a diagnostic message.

use crate::lexer::str_to_chars;
use vstd::prelude::*;

verus! {

/// A specific position in a file, as 1-based line and column numbers.
#[derive(Debug, Clone, Copy, PartialEq, Eq, Structural)]
pub struct FilePos {
    pub line: usize,
    pub col: usize,
}

/// The 1-based line number of offset `ind`: one more than the newlines
/// before it.
pub open spec fn spec_line(s: Seq<char>, ind: int) -> int
    decreases ind,
{
    if ind <= 0 {
        1
    } else {
        spec_line(s, ind - 1) + if s[ind - 1] == '\n' {
            1int
        } else {
            0int
        }
    }
}

/// The 1-based column number of offset `ind`: its distance to the last
/// newline before it.
pub open spec fn spec_col(s: Seq<char>, ind: int) -> int
    decreases ind,
{
    if ind <= 0 {
        1
    } else if s[ind - 1] == '\n' {
        1
    } else {
        spec_col(s, ind - 1) + 1
    }
}

/// Line and column numbers grow by at most one per character.
pub proof fn lemma_line_col_bounds(s: Seq<char>, ind: int)
    requires
        0 <= ind,
    ensures
        1 <= spec_line(s, ind) <= ind + 1,
        1 <= spec_col(s, ind) <= ind + 1,
    decreases ind,
{
    if ind > 0 {
        lemma_line_col_bounds(s, ind - 1);
    }
}

impl FilePos {
    /// Finds the line and column of the offset `ind` in `input`; if the file
    /// ends before the offset is reached there is no position.
    pub fn new(input: &str, ind: usize) -> (r: Option<FilePos>)
        ensures
            r == if (ind as int) < input@.len() {
                Some(
                    FilePos {
                        line: spec_line(input@, ind as int) as usize,
                        col: spec_col(input@, ind as int) as usize,
                    },
                )
            } else {
                Option::<FilePos>::None
            },
    {
        let chars = str_to_chars(input);
        let n = chars.len();
        if ind >= n {
            return None;
        }
        let mut line: usize = 1;
        let mut col: usize = 1;
        let mut k: usize = 0;
        while k < ind
            invariant
                0 <= k <= ind < n,
                n == chars@.len(),
                chars@ == input@,
                line as int == spec_line(input@, k as int),
                col as int == spec_col(input@, k as int),
                line <= k + 1,
                col <= k + 1,
            decreases ind - k,
        {
            if chars[k] == '\n' {
                line = line + 1;
                col = 1;
            } else {
                col = col + 1;
            }
            k = k + 1;
        }
        Some(FilePos { line, col })
    }
}

} // verus!
