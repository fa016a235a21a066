//! A line/column tracker that advances incrementally over output bytes, so
//! that source-map section offsets can be computed without rescanning the
//! whole buffer from the start for every section.

use vstd::prelude::*;

verus! {

/// The byte that starts a new line.
pub const NEWLINE: u8 = 10;

/// A zero-based line/column position inside a byte buffer.
#[derive(Clone, Copy, PartialEq, Eq, Structural, Debug)]
pub struct SourcePos {
    pub line: usize,
    pub column: usize,
}

/// The position reached after reading `bytes`, starting from `(line, column)`:
/// a newline byte moves to the start of the next line, every other byte
/// advances the column by one.
pub open spec fn pos_after(line: int, column: int, bytes: Seq<u8>) -> (int, int)
    decreases bytes.len(),
{
    if bytes.len() == 0 {
        (line, column)
    } else {
        let p = pos_after(line, column, bytes.drop_last());
        if bytes.last() == NEWLINE {
            (p.0 + 1, 0int)
        } else {
            (p.0, p.1 + 1)
        }
    }
}

/// Lexicographic order on (line, column) positions.
pub open spec fn pos_le(a: (int, int), b: (int, int)) -> bool {
    a.0 < b.0 || (a.0 == b.0 && a.1 <= b.1)
}

/// Advancing over a concatenation is advancing over each part in turn: the
/// fact that lets a tracker consume the buffer incrementally.
pub proof fn lemma_pos_after_concat(line: int, column: int, a: Seq<u8>, b: Seq<u8>)
    ensures
        pos_after(line, column, a + b) == pos_after(
            pos_after(line, column, a).0,
            pos_after(line, column, a).1,
            b,
        ),
    decreases b.len(),
{
    if b.len() == 0 {
        assert(a + b =~= a);
    } else {
        lemma_pos_after_concat(line, column, a, b.drop_last());
        assert((a + b).drop_last() =~= a + b.drop_last());
        assert((a + b).last() == b.last());
    }
}

/// Each byte moves the position by at most one line and one column.
pub proof fn lemma_pos_after_bounds(line: int, column: int, bytes: Seq<u8>)
    requires
        0 <= line,
        0 <= column,
    ensures
        0 <= pos_after(line, column, bytes).0 <= line + bytes.len(),
        0 <= pos_after(line, column, bytes).1 <= column + bytes.len(),
    decreases bytes.len(),
{
    if bytes.len() > 0 {
        lemma_pos_after_bounds(line, column, bytes.drop_last());
    }
}

/// Advancing never moves a position lexicographically backwards.
pub proof fn lemma_pos_after_monotone(line: int, column: int, bytes: Seq<u8>)
    requires
        0 <= line,
        0 <= column,
    ensures
        pos_le((line, column), pos_after(line, column, bytes)),
    decreases bytes.len(),
{
    if bytes.len() > 0 {
        lemma_pos_after_monotone(line, column, bytes.drop_last());
    }
}

/// Positions reached at two cut points of one buffer are ordered as the cut
/// points are: the section offsets of a sectioned source map can only grow.
pub proof fn lemma_pos_prefix_monotone(bytes: Seq<u8>, i: int, j: int)
    requires
        0 <= i <= j <= bytes.len(),
    ensures
        pos_le(pos_after(0, 0, bytes.take(i)), pos_after(0, 0, bytes.take(j))),
{
    let a = bytes.take(i);
    let b = bytes.take(j);
    assert(b =~= a + bytes.subrange(i, j));
    lemma_pos_after_concat(0, 0, a, bytes.subrange(i, j));
    lemma_pos_after_bounds(0, 0, a);
    let p = pos_after(0, 0, a);
    lemma_pos_after_monotone(p.0, p.1, bytes.subrange(i, j));
}

impl SourcePos {
    /// The position at the very start of a buffer.
    pub fn new() -> (r: SourcePos)
        ensures
            r.line == 0,
            r.column == 0,
    {
        SourcePos { line: 0, column: 0 }
    }

    pub open spec fn as_pair(self) -> (int, int) {
        (self.line as int, self.column as int)
    }

    /// Advance this position over `bytes`, without revisiting anything read
    /// before.
    pub fn update(&mut self, bytes: &[u8])
        requires
            old(self).line + bytes@.len() <= usize::MAX,
            old(self).column + bytes@.len() <= usize::MAX,
        ensures
            final(self).as_pair() == pos_after(
                old(self).line as int,
                old(self).column as int,
                bytes@,
            ),
    {
        let ghost l0 = old(self).line as int;
        let ghost c0 = old(self).column as int;
        let mut i: usize = 0;
        while i < bytes.len()
            invariant
                0 <= i <= bytes@.len(),
                l0 + bytes@.len() <= usize::MAX,
                c0 + bytes@.len() <= usize::MAX,
                0 <= l0,
                0 <= c0,
                self.as_pair() == pos_after(l0, c0, bytes@.take(i as int)),
            decreases bytes@.len() - i,
        {
            proof {
                lemma_pos_after_bounds(l0, c0, bytes@.take(i as int));
                assert(bytes@.take(i + 1).drop_last() =~= bytes@.take(i as int));
                assert(bytes@.take(i + 1).last() == bytes@[i as int]);
            }
            let b = bytes[i];
            if b == NEWLINE {
                self.line = self.line + 1;
                self.column = 0;
            } else {
                self.column = self.column + 1;
            }
            i = i + 1;
        }
        proof {
            assert(bytes@.take(bytes@.len() as int) =~= bytes@);
        }
    }
}

} // verus!
