//! A source of records: lines held in memory and a cursor that only reading
//! moves forward.

use vstd::prelude::*;

verus! {

/// Lines to decode, and the position of the next one to be read.
pub struct Source {
    lines: Vec<String>,
    cursor: usize,
}

/// The line at position `i`, or the empty line where the lines have ended.
pub open spec fn line_at(lines: Seq<Seq<char>>, i: int) -> Seq<char> {
    if 0 <= i < lines.len() {
        lines[i]
    } else {
        Seq::empty()
    }
}

/// The position after a read at position `i`: one further, unless the lines
/// have ended.
pub open spec fn after_read(lines: Seq<Seq<char>>, i: int) -> int {
    if 0 <= i < lines.len() {
        i + 1
    } else {
        i
    }
}

impl Source {
    #[verifier::type_invariant]
    spec fn cursor_in_range(self) -> bool {
        self.cursor <= self.lines.len()
    }

    /// All the lines of the source, read or not.
    pub closed spec fn lines(&self) -> Seq<Seq<char>> {
        self.lines.deep_view()
    }

    /// The position of the next line to be read.
    pub closed spec fn position(&self) -> int {
        self.cursor as int
    }

    /// A source over `lines`, positioned at the first.
    pub fn new(lines: Vec<String>) -> (source: Source)
        ensures
            source.lines() == lines.deep_view(),
            source.position() == 0,
    {
        Source { lines, cursor: 0 }
    }

    /// Moves the cursor back to the first line.
    pub fn rewind(&mut self)
        ensures
            final(self).lines() == old(self).lines(),
            final(self).position() == 0,
    {
        self.cursor = 0;
    }

    /// The number of lines read so far.
    pub fn consumed(&self) -> (n: usize)
        ensures
            n == self.position(),
            0 <= self.position() <= self.lines().len(),
    {
        proof {
            use_type_invariant(self);
        }
        self.cursor
    }

    /// The number of lines in the source, read or not.
    pub fn len(&self) -> (n: usize)
        ensures
            n == self.lines().len(),
            0 <= self.position() <= self.lines().len(),
    {
        proof {
            use_type_invariant(self);
        }
        self.lines.len()
    }

    /// Reads the next line and moves past it; `None` where the lines have
    /// ended, in which case nothing moves.
    pub fn read_line(&mut self) -> (r: Option<String>)
        ensures
            final(self).lines() == old(self).lines(),
            0 <= old(self).position() <= old(self).lines().len(),
            final(self).position() == after_read(old(self).lines(), old(self).position()),
            r is Some <==> old(self).position() < old(self).lines().len(),
            r matches Some(line) ==> line@ == old(self).lines()[old(self).position()],
    {
        proof {
            use_type_invariant(&*self);
        }
        if self.cursor < self.lines.len() {
            let line = self.lines[self.cursor].clone();
            self.cursor = self.cursor + 1;
            Some(line)
        } else {
            None
        }
    }

    /// Reads the next line and moves past it; the empty line where the lines
    /// have ended, in which case nothing moves.
    pub fn read_record(&mut self) -> (line: String)
        ensures
            final(self).lines() == old(self).lines(),
            0 <= old(self).position() <= old(self).lines().len(),
            final(self).position() == after_read(old(self).lines(), old(self).position()),
            line@ == line_at(old(self).lines(), old(self).position()),
    {
        match self.read_line() {
            Some(line) => line,
            None => String::new(),
        }
    }
}

/// Two sources agree from their cursors on: the lines that the one has from
/// position `i1` on are those that the other has from position `i2` on.
pub open spec fn same_from(
    lines1: Seq<Seq<char>>,
    i1: int,
    lines2: Seq<Seq<char>>,
    i2: int,
) -> bool {
    &&& 0 <= i1 <= lines1.len()
    &&& 0 <= i2 <= lines2.len()
    &&& lines1.skip(i1) == lines2.skip(i2)
}

/// Sources that agree from their cursors on have the same line any number
/// of lines further, and a read there moves both alike.
pub proof fn lemma_same_from_step(
    lines1: Seq<Seq<char>>,
    i1: int,
    lines2: Seq<Seq<char>>,
    i2: int,
    k: int,
)
    requires
        same_from(lines1, i1, lines2, i2),
        0 <= k,
        i1 + k <= lines1.len(),
    ensures
        i2 + k <= lines2.len(),
        line_at(lines1, i1 + k) == line_at(lines2, i2 + k),
        after_read(lines1, i1 + k) - i1 == after_read(lines2, i2 + k) - i2,
        same_from(lines1, i1 + k, lines2, i2 + k),
{
    if i1 + k < lines1.len() {
        assert(lines2.skip(i2)[k] == lines2[i2 + k]);
    }
    assert(lines1.skip(i1 + k) == lines1.skip(i1).skip(k));
    assert(lines2.skip(i2 + k) == lines2.skip(i2).skip(k));
}

} // verus!
