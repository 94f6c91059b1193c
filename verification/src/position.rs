//! Line/column bookkeeping for the lexer: positions are 1-based, a newline
//! starts the next line at column 1, and every other character advances the
//! column by one.

use vstd::prelude::*;

verus! {

/// The position reached after reading `s` starting from `(line, column)`.
pub open spec fn spec_advance(line: int, column: int, s: Seq<char>) -> (int, int)
    decreases s.len(),
{
    if s.len() == 0 {
        (line, column)
    } else if s[0] == '\n' {
        spec_advance(line + 1, 1, s.drop_first())
    } else {
        spec_advance(line, column + 1, s.drop_first())
    }
}

/// Reading `s` moves the line forward by at most `s.len()` lines and leaves
/// the column positive and within `column + s.len()`.
pub proof fn lemma_advance_bounds(line: int, column: int, s: Seq<char>)
    requires
        column >= 1,
    ensures
        line <= spec_advance(line, column, s).0 <= line + s.len(),
        1 <= spec_advance(line, column, s).1 <= column + s.len(),
    decreases s.len(),
{
    if s.len() > 0 {
        if s[0] == '\n' {
            lemma_advance_bounds(line + 1, 1, s.drop_first());
        } else {
            lemma_advance_bounds(line, column + 1, s.drop_first());
        }
    }
}

pub struct PositionTracker {
    pub line: u64,
    pub character: u64,
}

impl PositionTracker {
    pub fn new() -> (r: PositionTracker)
        ensures
            r.line == 1,
            r.character == 1,
    {
        PositionTracker { line: 1, character: 1 }
    }

    /// Advances the position over the given text, per `spec_advance`.
    pub fn consume(&mut self, input: &str)
        requires
            old(self).character >= 1,
            old(self).line + input@.len() <= u64::MAX,
            old(self).character + input@.len() <= u64::MAX,
            input@.len() + 1 <= u64::MAX,
        ensures
            final(self).line as int == spec_advance(
                old(self).line as int,
                old(self).character as int,
                input@,
            ).0,
            final(self).character as int == spec_advance(
                old(self).line as int,
                old(self).character as int,
                input@,
            ).1,
    {
        let ghost s = input@;
        let n = input.unicode_len();
        let mut i: usize = 0;
        proof {
            assert(s.skip(0) =~= s);
        }
        while i < n
            invariant
                s == input@,
                n == s.len(),
                i <= n,
                self.line as int <= old(self).line + i,
                self.character >= 1,
                self.character as int <= old(self).character + i,
                old(self).line + s.len() <= u64::MAX,
                old(self).character + s.len() <= u64::MAX,
                s.len() + 1 <= u64::MAX,
                spec_advance(old(self).line as int, old(self).character as int, s)
                    == spec_advance(self.line as int, self.character as int, s.skip(i as int)),
            decreases n - i,
        {
            let c = input.get_char(i);
            proof {
                assert(s.skip(i as int).len() > 0);
                assert(s.skip(i as int)[0] == s[i as int]);
                assert(s.skip(i as int).drop_first() =~= s.skip(i as int + 1));
            }
            if c == '\n' {
                self.line = self.line + 1;
                self.character = 1;
            } else {
                self.character = self.character + 1;
            }
            i = i + 1;
        }
        proof {
            assert(s.skip(n as int) =~= Seq::<char>::empty());
        }
    }
}

} // verus!
