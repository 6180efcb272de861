use routefs::error::Failure;
use routefs::path::{bytes_eq, index, param, parse_u32, path, segment};
use routefs::route::RouteCursor;

#[test]
fn exact_match_advances_past_segment_and_separator() {
    let mut c = RouteCursor::for_request(b"/users/42".to_vec());
    assert_eq!(c.unmatched_offset(), 1);
    let r = path(&mut c, b"users");
    assert!(r.is_ok());
    assert_eq!(c.remaining_slice(), b"42");
    assert_eq!(c.unmatched_offset(), 7);
}

#[test]
fn exact_match_at_end_consumes_everything() {
    let mut c = RouteCursor::for_request(b"/about".to_vec());
    let r = path(&mut c, b"about");
    assert!(r.is_ok());
    assert!(c.is_consumed());
    assert_eq!(c.remaining_slice(), b"");
}

#[test]
fn exact_mismatch_is_not_found_and_leaves_cursor() {
    let mut c = RouteCursor::for_request(b"/users/42".to_vec());
    let before = c.unmatched_offset();
    let r = path(&mut c, b"posts");
    assert_eq!(r, Err(Failure::NotFound));
    assert_eq!(c.unmatched_offset(), before);
    assert_eq!(c.remaining_slice(), b"users/42");
}

#[test]
fn exact_match_needs_whole_segment() {
    // "user" is a strict prefix of the segment "users": no match.
    let mut c = RouteCursor::for_request(b"/users/42".to_vec());
    let r = path(&mut c, b"user");
    assert_eq!(r, Err(Failure::NotFound));
    assert_eq!(c.remaining_slice(), b"users/42");
}

#[test]
fn failed_match_retries_identically() {
    let mut c = RouteCursor::for_request(b"/users/42".to_vec());
    let r1 = path(&mut c, b"posts");
    let o1 = c.unmatched_offset();
    let r2 = path(&mut c, b"posts");
    let o2 = c.unmatched_offset();
    assert_eq!(r1, r2);
    assert_eq!(o1, o2);
    assert_eq!(c.remaining_slice(), b"users/42");
}

#[test]
fn index_succeeds_only_when_consumed() {
    let mut c = RouteCursor::for_request(b"/done".to_vec());
    assert_eq!(index(&c), Err(Failure::NotFound));
    let r = path(&mut c, b"done");
    assert!(r.is_ok());
    assert!(index(&c).is_ok());
}

#[test]
fn trailing_separator_is_consumed_with_its_segment() {
    // Matching "done" against "/done/" consumes the separator after the
    // segment as well, so nothing is left and the route's end is reached.
    let mut c = RouteCursor::for_request(b"/done/".to_vec());
    let r = path(&mut c, b"done");
    assert!(r.is_ok());
    assert!(index(&c).is_ok());
}

#[test]
fn param_route_extracts_u32() {
    let mut c = RouteCursor::for_request(b"/users/42".to_vec());
    assert!(path(&mut c, b"users").is_ok());
    let r = param(&mut c);
    assert_eq!(r, Ok(42u32));
    assert!(c.is_consumed());
    assert!(index(&c).is_ok());
}

#[test]
fn param_rejects_unparsable_segment_and_leaves_cursor() {
    let mut c = RouteCursor::for_request(b"/users/abc".to_vec());
    assert!(path(&mut c, b"users").is_ok());
    let before = c.unmatched_offset();
    let r = param(&mut c);
    assert_eq!(r, Err(Failure::NotFound));
    assert_eq!(c.unmatched_offset(), before);
    assert_eq!(c.remaining_slice(), b"abc");
}

#[test]
fn param_consumes_only_its_segment() {
    let mut c = RouteCursor::for_request(b"/7/rest".to_vec());
    let r = param(&mut c);
    assert_eq!(r, Ok(7u32));
    assert_eq!(c.remaining_slice(), b"rest");
}

#[test]
fn parse_u32_accepts_plain_and_signed_digits() {
    assert_eq!(parse_u32(b"0"), Some(0));
    assert_eq!(parse_u32(b"42"), Some(42));
    assert_eq!(parse_u32(b"+7"), Some(7));
    assert_eq!(parse_u32(b"007"), Some(7));
    assert_eq!(parse_u32(b"4294967295"), Some(u32::MAX));
}

#[test]
fn parse_u32_rejects_junk_and_overflow() {
    assert_eq!(parse_u32(b""), None);
    assert_eq!(parse_u32(b"+"), None);
    assert_eq!(parse_u32(b"-1"), None);
    assert_eq!(parse_u32(b"12a"), None);
    assert_eq!(parse_u32(b"a12"), None);
    assert_eq!(parse_u32(b"4294967296"), None);
    assert_eq!(parse_u32(b"99999999999999999999"), None);
}

#[test]
fn segment_applies_caller_predicate() {
    // A predicate that accepts any segment and returns its length.
    let mut c = RouteCursor::for_request(b"/hello/world".to_vec());
    let r = segment(&mut c, |seg: &[u8]| -> Result<usize, Failure> { Ok(seg.len()) });
    assert_eq!(r, Ok(5));
    assert_eq!(c.remaining_slice(), b"world");
}

#[test]
fn bytes_eq_compares_contents() {
    assert!(bytes_eq(b"abc", b"abc"));
    assert!(!bytes_eq(b"abc", b"abd"));
    assert!(!bytes_eq(b"abc", b"ab"));
    assert!(bytes_eq(b"", b""));
}

#[test]
fn cursor_without_leading_slash_is_kept_whole() {
    let c = RouteCursor::for_request(b"plain".to_vec());
    assert_eq!(c.unmatched_offset(), 0);
    assert_eq!(c.remaining_slice(), b"plain");
}
