//! Byte offsets to line numbers.
use vstd::prelude::*;
use vstd::utf8::*;

verus! {

/// The positions of the newline bytes.
pub open spec fn newline_positions(bytes: Seq<u8>) -> Seq<usize>
    decreases bytes.len(),
{
    if bytes.len() == 0 {
        Seq::empty()
    } else {
        let before = newline_positions(bytes.drop_last());
        if bytes.last() == 10 {
            before.push((bytes.len() - 1) as usize)
        } else {
            before
        }
    }
}

/// How many of the positions lie before `offset`.
pub open spec fn count_before(positions: Seq<usize>, offset: int) -> nat
    decreases positions.len(),
{
    if positions.len() == 0 {
        0
    } else {
        count_before(positions.drop_last(), offset) + if positions.last() < offset {
            1nat
        } else {
            0
        }
    }
}

/// The line, counted from one, in which `offset` lies; the largest number that
/// a line can have where there are more lines than that.
pub open spec fn line_of(positions: Seq<usize>, offset: int) -> u32 {
    let line = count_before(positions, offset) + 1;
    if line <= u32::MAX {
        line as u32
    } else {
        u32::MAX
    }
}

/// Each position lies before the next.
pub open spec fn increasing(positions: Seq<usize>) -> bool {
    forall|a: int, b: int|
        0 <= a < b < positions.len() ==> #[trigger] positions[a] < #[trigger] positions[b]
}

/// Newline positions increase and lie inside the text.
proof fn lemma_positions(bytes: Seq<u8>)
    requires
        bytes.len() <= usize::MAX,
    ensures
        increasing(newline_positions(bytes)),
        forall|a: int|
            0 <= a < newline_positions(bytes).len() ==> #[trigger] newline_positions(bytes)[a]
                < bytes.len(),
    decreases bytes.len(),
{
    if bytes.len() > 0 {
        lemma_positions(bytes.drop_last());
    }
}

/// In an increasing list, the positions before `offset` are the leading ones.
proof fn lemma_count_split(positions: Seq<usize>, offset: int, n: int)
    requires
        0 <= n <= positions.len(),
        forall|a: int| 0 <= a < n ==> #[trigger] positions[a] < offset,
        forall|a: int| n <= a < positions.len() ==> #[trigger] positions[a] >= offset,
    ensures
        count_before(positions, offset) == n,
    decreases positions.len(),
{
    if positions.len() > 0 {
        let init = positions.drop_last();
        assert forall|a: int| n <= a < init.len() implies #[trigger] init[a] >= offset by {
            assert(positions[a] >= offset);
        }
        if n == positions.len() {
            lemma_count_split(init, offset, n - 1);
        } else {
            assert(positions[positions.len() - 1] >= offset);
            lemma_count_split(init, offset, n);
        }
    }
}

/// Byte offset to line number, counted from one.
#[derive(Debug)]
pub struct LineIndex {
    newline_offsets: Vec<usize>,
}

impl LineIndex {
    /// The positions of the newlines.
    pub closed spec fn offsets(self) -> Seq<usize> {
        self.newline_offsets@
    }

    #[verifier::type_invariant]
    spec fn well_formed(self) -> bool {
        &&& increasing(self.newline_offsets@)
        &&& forall|a: int|
            0 <= a < self.newline_offsets@.len() ==> #[trigger] self.newline_offsets@[a] < usize::MAX
    }

    /// The index of the lines of `text`.
    pub fn new(text: &str) -> (r: LineIndex)
        ensures
            r.offsets() == newline_positions(encode_utf8(text@)),
    {
        let bytes = text.as_bytes();
        let mut newline_offsets: Vec<usize> = Vec::new();
        let mut i: usize = 0;
        let total: usize = bytes.len();
        while i < bytes.len()
            invariant
                i <= bytes@.len(),
                total == bytes@.len(),
                newline_offsets@ == newline_positions(bytes@.take(i as int)),
            decreases bytes@.len() - i,
        {
            assert(bytes@.take(i + 1).drop_last() == bytes@.take(i as int));
            if bytes[i] == 10 {
                newline_offsets.push(i);
            }
            i = i + 1;
        }
        assert(bytes@.take(bytes@.len() as int) == bytes@);
        proof {
            lemma_positions(bytes@);
        }
        LineIndex { newline_offsets }
    }

    /// The line in which the byte at `offset` lies: one more than the newlines
    /// before it, as far as the number fits.
    pub fn line(&self, offset: usize) -> (r: u32)
        ensures
            r == line_of(self.offsets(), offset as int),
    {
        proof {
            use_type_invariant(self);
        }
        let mut lo: usize = 0;
        let mut hi: usize = self.newline_offsets.len();
        while lo < hi
            invariant
                increasing(self.newline_offsets@),
                lo <= hi <= self.newline_offsets@.len(),
                forall|a: int| 0 <= a < lo ==> #[trigger] self.newline_offsets@[a] < offset,
                forall|a: int|
                    hi <= a < self.newline_offsets@.len() ==> #[trigger] self.newline_offsets@[a]
                        >= offset,
            decreases hi - lo,
        {
            let mid: usize = lo + (hi - lo) / 2;
            if self.newline_offsets[mid] < offset {
                assert forall|a: int| 0 <= a < mid + 1 implies #[trigger] self.newline_offsets@[a]
                    < offset by {
                    assert(a < mid ==> self.newline_offsets@[a] < self.newline_offsets@[mid as int]);
                }
                lo = mid + 1;
            } else {
                assert forall|a: int|
                    mid <= a < self.newline_offsets@.len() implies #[trigger] self.newline_offsets@[a]
                    >= offset by {
                    assert(a > mid ==> self.newline_offsets@[mid as int] < self.newline_offsets@[a]);
                }
                hi = mid;
            }
        }
        proof {
            lemma_count_split(self.newline_offsets@, offset as int, lo as int);
        }
        if lo < 0xffff_ffff {
            (lo + 1) as u32
        } else {
            u32::MAX
        }
    }

    /// The line in which the byte `len` bytes behind `start` lies.
    pub fn line_behind(&self, start: usize, len: usize) -> (r: u32)
        ensures
            r == line_of(self.offsets(), start + len),
    {
        proof {
            use_type_invariant(self);
            if start + len > usize::MAX {
                let all = self.newline_offsets@;
                lemma_count_split(all, start + len, all.len() as int);
                lemma_count_split(all, usize::MAX as int, all.len() as int);
            }
        }
        self.line(start.saturating_add(len))
    }
}

} // verus!
