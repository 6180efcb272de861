//! Segment matchers: the generic segment matcher and the exact, index and
//! typed-parameter matchers built on it.
//!
//! Every matcher either fully succeeds — advancing the cursor past exactly
//! the consumed segment — or fully fails with a [`Failure`], leaving the
//! cursor untouched so the caller may retry or try another route.

use vstd::prelude::*;
use crate::error::Failure;
use crate::route::{after_seg, first_seg, lemma_seg_len, seg_len, RouteCursor, SLASH};

verus! {

/// The byte `'+'`, which a numeric parameter may carry as a sign.
pub const PLUS: u8 = 43;

/// Whether `b` is an ASCII decimal digit.
pub open spec fn is_ascii_digit(b: u8) -> bool {
    48 <= b <= 57
}

/// The number denoted by a digit string, most significant digit first.
pub open spec fn digits_value(s: Seq<u8>) -> int
    decreases s.len(),
{
    if s.len() == 0 {
        0
    } else {
        10 * digits_value(s.drop_last()) + (s.last() - 48)
    }
}

/// Whether `s` is one or more ASCII digits and nothing else.
pub open spec fn all_digits(s: Seq<u8>) -> bool {
    s.len() > 0 && forall|i: int| 0 <= i < s.len() ==> is_ascii_digit(s[i])
}

/// `s` with one leading `'+'`, when present, removed: the digits that give
/// a numeric parameter its value.
pub open spec fn digits_of(s: Seq<u8>) -> Seq<u8> {
    if s.len() > 0 && s[0] == PLUS {
        s.skip(1)
    } else {
        s
    }
}

/// Whether `s` denotes a `u32`: an optional `'+'`, then only digits, with
/// a value that fits.
pub open spec fn parses_as_u32(s: Seq<u8>) -> bool {
    all_digits(digits_of(s)) && digits_value(digits_of(s)) <= u32::MAX
}

/// The `u32` value `s` denotes, when `parses_as_u32(s)` holds.
pub open spec fn u32_value(s: Seq<u8>) -> int {
    digits_value(digits_of(s))
}

/// A digit string's value is never negative.
pub proof fn lemma_digits_value_nonneg(s: Seq<u8>)
    requires
        forall|i: int| 0 <= i < s.len() ==> is_ascii_digit(s[i]),
    ensures
        digits_value(s) >= 0,
    decreases s.len(),
{
    if s.len() > 0 {
        lemma_digits_value_nonneg(s.drop_last());
    }
}

/// Extending a digit string never shrinks its value.
pub proof fn lemma_digits_value_prefix_le(s: Seq<u8>, k: int)
    requires
        0 <= k <= s.len(),
        forall|i: int| 0 <= i < s.len() ==> is_ascii_digit(s[i]),
    ensures
        digits_value(s.take(k)) <= digits_value(s),
    decreases s.len(),
{
    if k == s.len() {
        assert(s.take(k) =~= s);
    } else {
        assert(s.drop_last().take(k) =~= s.take(k));
        lemma_digits_value_prefix_le(s.drop_last(), k);
        lemma_digits_value_nonneg(s.drop_last());
    }
}

/// Parse an unsigned decimal number: an optional `'+'`, then one or more
/// digits whose value fits in a `u32`.  Returns `None` on anything else.
pub fn parse_u32(s: &[u8]) -> (r: Option<u32>)
    ensures
        r is Some <==> parses_as_u32(s@),
        r matches Some(v) ==> v as int == u32_value(s@),
{
    let ghost d = digits_of(s@);
    let start: usize = if s.len() > 0 && s[0] == PLUS {
        1
    } else {
        0
    };
    proof {
        assert(d =~= s@.skip(start as int));
    }
    if start == s.len() {
        return None;
    }
    let mut acc: u64 = 0;
    let mut j: usize = start;
    while j < s.len()
        invariant
            start <= j <= s@.len(),
            d == s@.skip(start as int),
            d == digits_of(s@),
            acc <= u32::MAX,
            forall|i: int| 0 <= i < j - start ==> is_ascii_digit(d[i]),
            acc == digits_value(d.take(j - start)),
        decreases s@.len() - j,
    {
        let b = s[j];
        if b < 48 || b > 57 {
            proof {
                assert(!is_ascii_digit(d[j - start]));
            }
            return None;
        }
        proof {
            assert(d.take(j + 1 - start).drop_last() =~= d.take(j - start));
            assert(d.take(j + 1 - start).last() == d[j - start]);
            assert(d[j - start] == s@[j as int]);
        }
        acc = acc * 10 + ((b - 48) as u64);
        if acc > (u32::MAX as u64) {
            proof {
                let k = j + 1 - start;
                if all_digits(d) {
                    lemma_digits_value_prefix_le(d, k);
                }
            }
            return None;
        }
        j = j + 1;
    }
    proof {
        assert(d.take(j - start) =~= d);
    }
    Some(acc as u32)
}

/// Compare two byte strings for equality.
pub fn bytes_eq(a: &[u8], b: &[u8]) -> (r: bool)
    ensures
        r == (a@ == b@),
{
    if a.len() != b.len() {
        return false;
    }
    let mut i: usize = 0;
    while i < a.len()
        invariant
            a@.len() == b@.len(),
            0 <= i <= a@.len(),
            forall|j: int| 0 <= j < i ==> a@[j] == b@[j],
        decreases a@.len() - i,
    {
        if a[i] != b[i] {
            return false;
        }
        i = i + 1;
    }
    proof {
        assert(a@ =~= b@);
    }
    true
}

/// The generic segment matcher: apply `func` to the current segment.  On
/// success the cursor advances past exactly that segment and its
/// separator; on failure the cursor is left unchanged and `func`'s failure
/// is returned, so an immediate retry resolves the same way.
pub fn segment<T, F: Fn(&[u8]) -> Result<T, Failure>>(cursor: &mut RouteCursor, func: F) -> (r:
    Result<T, Failure>)
    requires
        old(cursor).wf(),
        forall|s: &[u8]|
            s@ == first_seg(old(cursor).remaining()) ==> #[trigger] call_requires(func, (s,)),
    ensures
        final(cursor).wf(),
        final(cursor).full_path() == old(cursor).full_path(),
        match r {
            Ok(t) => {
                &&& exists|s: &[u8]|
                    s@ == first_seg(old(cursor).remaining()) && #[trigger] call_ensures(
                        func,
                        (s,),
                        Ok(t),
                    )
                &&& final(cursor).remaining() == after_seg(old(cursor).remaining())
                &&& final(cursor).offset() == old(cursor).offset() + seg_len(
                    old(cursor).remaining(),
                ) + (if seg_len(old(cursor).remaining()) < old(cursor).remaining().len() {
                    1int
                } else {
                    0int
                })
            },
            Err(e) => {
                &&& exists|s: &[u8]|
                    s@ == first_seg(old(cursor).remaining()) && #[trigger] call_ensures(
                        func,
                        (s,),
                        Err(e),
                    )
                &&& final(cursor).offset() == old(cursor).offset()
            },
        },
{
    let seg = cursor.current_segment();
    match func(seg) {
        Ok(t) => {
            cursor.consume_segment();
            Ok(t)
        },
        Err(e) => Err(e),
    }
}

/// The exact matcher: succeeds, consuming one segment, exactly when the
/// current segment equals `pattern`; fails with `NotFound` otherwise,
/// leaving the cursor unchanged.  A pattern must be non-empty and free of
/// separators; that is a demand on the route's author, not a runtime
/// failure.
pub fn path(cursor: &mut RouteCursor, pattern: &[u8]) -> (r: Result<(), Failure>)
    requires
        old(cursor).wf(),
        pattern@.len() > 0,
        forall|i: int| 0 <= i < pattern@.len() ==> pattern@[i] != SLASH,
    ensures
        final(cursor).wf(),
        final(cursor).full_path() == old(cursor).full_path(),
        r is Ok <==> first_seg(old(cursor).remaining()) == pattern@,
        r is Ok ==> final(cursor).remaining() == after_seg(old(cursor).remaining())
            && final(cursor).offset() == old(cursor).offset() + pattern@.len() + (
        if seg_len(old(cursor).remaining()) < old(cursor).remaining().len() {
            1int
        } else {
            0int
        }),
        r is Err ==> final(cursor).offset() == old(cursor).offset() && r == Err::<(), Failure>(
            Failure::NotFound,
        ),
{
    let check = |seg: &[u8]| -> (res: Result<(), Failure>)
        ensures
            res is Ok <==> seg@ == pattern@,
            res matches Err(e) ==> e == Failure::NotFound,
        {
            if bytes_eq(seg, pattern) {
                Ok(())
            } else {
                Err(Failure::NotFound)
            }
        };
    let r = segment(cursor, check);
    proof {
        lemma_seg_len(old(cursor).remaining());
    }
    r
}

/// The index matcher: succeeds exactly when the whole path has been
/// consumed; otherwise fails with `NotFound`.  It consumes nothing and
/// never changes the cursor.
pub fn index(cursor: &RouteCursor) -> (r: Result<(), Failure>)
    requires
        cursor.wf(),
    ensures
        r is Ok <==> cursor.remaining().len() == 0,
        r is Err ==> r == Err::<(), Failure>(Failure::NotFound),
{
    if cursor.is_consumed() {
        Ok(())
    } else {
        Err(Failure::NotFound)
    }
}

/// The typed-parameter matcher: parse the current segment as a `u32`.  On
/// success the parsed value is extracted and the cursor advances past the
/// segment; an unparsable segment is a routing miss — `NotFound`, cursor
/// unchanged — not a malformed request.
pub fn param(cursor: &mut RouteCursor) -> (r: Result<u32, Failure>)
    requires
        old(cursor).wf(),
    ensures
        final(cursor).wf(),
        final(cursor).full_path() == old(cursor).full_path(),
        r is Ok <==> parses_as_u32(first_seg(old(cursor).remaining())),
        r matches Ok(v) ==> v as int == u32_value(first_seg(old(cursor).remaining()))
            && final(cursor).remaining() == after_seg(old(cursor).remaining()),
        r is Err ==> final(cursor).offset() == old(cursor).offset() && r == Err::<u32, Failure>(
            Failure::NotFound,
        ),
{
    let parse = |seg: &[u8]| -> (res: Result<u32, Failure>)
        ensures
            res is Ok <==> parses_as_u32(seg@),
            res matches Ok(v) ==> v as int == u32_value(seg@),
            res matches Err(e) ==> e == Failure::NotFound,
        {
            match parse_u32(seg) {
                Some(v) => Ok(v),
                None => Err(Failure::NotFound),
            }
        };
    let r = segment(cursor, parse);
    r
}

} // verus!
