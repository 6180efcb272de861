//! Per-request cursor over the unmatched suffix of a request path.
//!
//! A [`RouteCursor`] holds the whole request path and a byte offset marking
//! the start of the part no matcher has consumed yet.  Matchers read the
//! current segment — the bytes up to the next `/` or the end of the path —
//! and, on success, advance the offset past the segment and the separator
//! after it.

use vstd::prelude::*;
use vstd::slice::slice_subrange;

verus! {

/// The path separator byte, `'/'`.
pub const SLASH: u8 = 47;

/// Number of bytes in the first segment of `s`: the bytes strictly before
/// the first separator, or all of `s` when no separator occurs.
pub open spec fn seg_len(s: Seq<u8>) -> int
    decreases s.len(),
{
    if s.len() == 0 {
        0
    } else if s[0] == SLASH {
        0
    } else {
        1 + seg_len(s.skip(1))
    }
}

/// The first segment of `s`: everything up to, not including, the first
/// separator, or all of `s` when no separator occurs.
pub open spec fn first_seg(s: Seq<u8>) -> Seq<u8> {
    s.take(seg_len(s))
}

/// What remains of `s` once its first segment and the separator after it
/// are consumed; empty when the first segment reaches the end of `s`.
pub open spec fn after_seg(s: Seq<u8>) -> Seq<u8> {
    if seg_len(s) == s.len() {
        Seq::empty()
    } else {
        s.skip(seg_len(s) + 1)
    }
}

/// `seg_len` points at the first separator: every byte before it is not a
/// separator, and the byte at it (when inside `s`) is one.
pub proof fn lemma_seg_len(s: Seq<u8>)
    ensures
        0 <= seg_len(s) <= s.len(),
        seg_len(s) < s.len() ==> s[seg_len(s)] == SLASH,
        forall|i: int| 0 <= i < seg_len(s) ==> s[i] != SLASH,
    decreases s.len(),
{
    if s.len() == 0 {
    } else if s[0] == SLASH {
    } else {
        lemma_seg_len(s.skip(1));
        assert forall|i: int| 0 <= i < seg_len(s) implies s[i] != SLASH by {
            if i > 0 {
                assert(s.skip(1)[i - 1] == s[i]);
            }
        }
        if seg_len(s) < s.len() {
            assert(s.skip(1)[seg_len(s) - 1] == s[seg_len(s)]);
        }
    }
}

/// Any position with no separator before it and a separator (or the end of
/// `s`) at it is exactly where `seg_len` points.
pub proof fn lemma_seg_len_is(s: Seq<u8>, n: int)
    requires
        0 <= n <= s.len(),
        n < s.len() ==> s[n] == SLASH,
        forall|i: int| 0 <= i < n ==> s[i] != SLASH,
    ensures
        seg_len(s) == n,
    decreases s.len(),
{
    if n == 0 {
    } else {
        assert(s[0] != SLASH);
        assert forall|i: int| 0 <= i < n - 1 implies s.skip(1)[i] != SLASH by {
            assert(s.skip(1)[i] == s[i + 1]);
        }
        if n - 1 < s.skip(1).len() {
            assert(s.skip(1)[n - 1] == s[n]);
        }
        lemma_seg_len_is(s.skip(1), n - 1);
    }
}

/// Splitting a path at its first separator loses nothing: a path with a
/// separator in it is its first segment, one separator, and the rest.
/// Applied segment after segment, this is why appending a whole remainder
/// after one separator appends exactly its segments, in order, each after
/// a single separator — empty segments included.
pub proof fn lemma_seg_split(s: Seq<u8>)
    requires
        seg_len(s) < s.len(),
    ensures
        s == first_seg(s) + seq![SLASH] + after_seg(s),
{
    lemma_seg_len(s);
    assert(s =~= first_seg(s) + seq![SLASH] + after_seg(s));
}

/// Per-request mutable routing state: the request path and the byte offset
/// where its still-unmatched suffix starts.
pub struct RouteCursor {
    full: Vec<u8>,
    off: usize,
}

impl RouteCursor {
    /// The whole request path this cursor walks.
    pub closed spec fn full_path(self) -> Seq<u8> {
        self.full@
    }

    /// Byte offset of the start of the still-unmatched suffix.
    pub closed spec fn offset(self) -> int {
        self.off as int
    }

    /// The offset never runs past the end of the path.
    pub open spec fn wf(self) -> bool {
        0 <= self.offset() <= self.full_path().len()
    }

    /// The still-unmatched suffix of the path.
    pub open spec fn remaining(self) -> Seq<u8> {
        self.full_path().skip(self.offset())
    }

    /// A cursor at the very start of `full_path`.
    pub fn new(full_path: Vec<u8>) -> (c: Self)
        ensures
            c.wf(),
            c.full_path() == full_path@,
            c.offset() == 0,
    {
        RouteCursor { full: full_path, off: 0 }
    }

    /// A cursor for an inbound request path: one leading separator, when
    /// present, is consumed up front, so the first segment is the text
    /// between the first two separators.
    pub fn for_request(path: Vec<u8>) -> (c: Self)
        ensures
            c.wf(),
            c.full_path() == path@,
            path@.len() > 0 && path@[0] == SLASH ==> c.offset() == 1,
            !(path@.len() > 0 && path@[0] == SLASH) ==> c.offset() == 0,
    {
        let off: usize = if path.len() > 0 && path[0] == SLASH {
            1
        } else {
            0
        };
        RouteCursor { full: path, off }
    }

    /// The current offset.
    pub fn unmatched_offset(&self) -> (n: usize)
        ensures
            n == self.offset(),
    {
        self.off
    }

    /// Whether the whole path has been consumed.
    pub fn is_consumed(&self) -> (b: bool)
        requires
            self.wf(),
        ensures
            b == (self.remaining().len() == 0),
    {
        self.off == self.full.len()
    }

    /// The still-unmatched suffix, as a byte slice.
    pub fn remaining_slice(&self) -> (s: &[u8])
        requires
            self.wf(),
        ensures
            s@ == self.remaining(),
    {
        let s = slice_subrange(self.full.as_slice(), self.off, self.full.len());
        proof {
            assert(s@ =~= self.remaining());
        }
        s
    }

    /// Byte length of the current (first unmatched) segment.
    pub fn segment_len(&self) -> (n: usize)
        requires
            self.wf(),
        ensures
            n == seg_len(self.remaining()),
    {
        let mut i: usize = self.off;
        while i < self.full.len() && self.full[i] != SLASH
            invariant
                self.wf(),
                self.off <= i <= self.full@.len(),
                forall|j: int| self.off <= j < i ==> self.full@[j] != SLASH,
            decreases self.full@.len() - i,
        {
            i = i + 1;
        }
        let n = i - self.off;
        proof {
            let rem = self.remaining();
            assert forall|k: int| 0 <= k < n implies rem[k] != SLASH by {
                assert(rem[k] == self.full@[self.offset() + k]);
            }
            if (n as int) < rem.len() {
                assert(rem[n as int] == self.full@[i as int]);
            }
            lemma_seg_len_is(rem, n as int);
        }
        n
    }

    /// The current segment, as a byte slice.
    pub fn current_segment(&self) -> (s: &[u8])
        requires
            self.wf(),
        ensures
            s@ == first_seg(self.remaining()),
    {
        let n = self.segment_len();
        let total = self.full.len();
        proof {
            lemma_seg_len(self.remaining());
            assert(self.remaining().len() == self.full_path().len() - self.offset());
            assert(self.off + n <= total);
        }
        let s = slice_subrange(self.full.as_slice(), self.off, self.off + n);
        proof {
            assert(s@ =~= first_seg(self.remaining()));
        }
        s
    }

    /// Consume the current segment, and the separator after it when one is
    /// there.  The offset advances by the segment's byte length, plus one
    /// for the separator unless the segment reaches the end of the path.
    pub fn consume_segment(&mut self)
        requires
            old(self).wf(),
        ensures
            final(self).wf(),
            final(self).full_path() == old(self).full_path(),
            final(self).remaining() == after_seg(old(self).remaining()),
            final(self).offset() == old(self).offset() + seg_len(old(self).remaining()) + (
            if seg_len(old(self).remaining()) < old(self).remaining().len() {
                1int
            } else {
                0int
            }),
    {
        let ghost orem = self.remaining();
        let n = self.segment_len();
        let total = self.full.len();
        proof {
            lemma_seg_len(orem);
            assert(orem.len() == self.full_path().len() - self.offset());
            assert(self.off + n <= total);
        }
        self.off = self.off + n;
        if self.off < self.full.len() {
            self.off = self.off + 1;
            proof {
                assert(self.remaining() =~= after_seg(orem));
            }
        } else {
            proof {
                assert(self.remaining() =~= after_seg(orem));
            }
        }
    }

    /// Consume the whole remaining path.
    pub fn consume_all(&mut self)
        requires
            old(self).wf(),
        ensures
            final(self).wf(),
            final(self).full_path() == old(self).full_path(),
            final(self).remaining().len() == 0,
            final(self).offset() == final(self).full_path().len(),
    {
        self.off = self.full.len();
    }
}

} // verus!
