use routefs::error::Failure;
use routefs::files::{dir, file_metadata, file_reply, Body, OpenError};
use routefs::path::path;
use routefs::route::RouteCursor;

#[test]
fn traversal_segment_is_bad_request_and_no_path_is_built() {
    // Request path `/static/../secret` against a directory route at
    // `/static` with base `/srv/public`.
    let mut c = RouteCursor::for_request(b"/static/../secret".to_vec());
    assert!(path(&mut c, b"static").is_ok());
    let before = c.unmatched_offset();
    let r = dir(&mut c, b"/srv/public");
    assert_eq!(r.err(), Some(Failure::BadRequest));
    assert_eq!(c.unmatched_offset(), before);
    assert_eq!(c.remaining_slice(), b"../secret");
}

#[test]
fn traversal_is_rejected_wherever_it_hides() {
    for p in [
        &b"/.."[..],
        b"/../",
        b"/..secret",
        b"/a/../b",
        b"/a/..",
        b"/a//..",
        b"/deep/ok/..bad/tail",
    ] {
        let mut c = RouteCursor::for_request(p.to_vec());
        let r = dir(&mut c, b"/srv/public");
        assert_eq!(r.err(), Some(Failure::BadRequest));
    }
}

#[test]
fn dots_inside_segments_are_fine() {
    // Only a segment *starting* with `..` is a traversal; dots elsewhere
    // are ordinary name bytes.
    for (p, want) in [
        (&b"/hello.txt"[..], &b"/srv/public/hello.txt"[..]),
        (b"/a.b/c..d", b"/srv/public/a.b/c..d"),
        (b"/.hidden", b"/srv/public/.hidden"),
        (b"/x../y", b"/srv/public/x../y"),
        (b"/.", b"/srv/public/."),
    ] {
        let mut c = RouteCursor::for_request(p.to_vec());
        let r = dir(&mut c, b"/srv/public");
        let f = r.unwrap();
        assert_eq!(f.path().as_slice(), want);
        assert!(c.is_consumed());
    }
}

#[test]
fn dir_joins_every_segment_in_order() {
    // Directory route at `/` with base `/srv/public`.
    let mut c = RouteCursor::for_request(b"/hello.txt".to_vec());
    let r = dir(&mut c, b"/srv/public");
    let f = r.unwrap();
    assert_eq!(f.path().as_slice(), b"/srv/public/hello.txt");
    assert!(c.is_consumed());
}

#[test]
fn dir_keeps_empty_segments_from_doubled_slashes() {
    let mut c = RouteCursor::for_request(b"/a//b/".to_vec());
    let r = dir(&mut c, b"/base");
    let f = r.unwrap();
    assert_eq!(f.path().as_slice(), b"/base/a//b/");
}

#[test]
fn dir_on_empty_remainder_appends_one_empty_segment() {
    let mut c = RouteCursor::new(Vec::new());
    let r = dir(&mut c, b"/base");
    let f = r.unwrap();
    assert_eq!(f.path().as_slice(), b"/base/");
}

#[test]
fn file_route_serves_its_fixed_path() {
    let f = routefs::files::file(b"/srv/public/motd".to_vec());
    assert_eq!(f.path().as_slice(), b"/srv/public/motd");
}

#[test]
fn open_failure_not_found_is_404_with_empty_body() {
    let r = file_reply(Err(OpenError::NotFound)).unwrap();
    assert_eq!(r.status, 404);
    assert_eq!(r.content_length, None);
    assert_eq!(r.body, Body::Empty);
}

#[test]
fn open_failure_other_is_500_with_empty_body() {
    let r = file_reply(Err(OpenError::Other)).unwrap();
    assert_eq!(r.status, 500);
    assert_eq!(r.content_length, None);
    assert_eq!(r.body, Body::Empty);
}

#[test]
fn successful_open_proceeds_to_metadata() {
    assert!(file_reply(Ok(())).is_none());
}

#[test]
fn metadata_failure_is_500_with_empty_body() {
    let (r, st) = file_metadata(Err(()));
    assert_eq!(r.status, 500);
    assert_eq!(r.content_length, None);
    assert_eq!(r.body, Body::Empty);
    assert!(st.is_none());
}

#[test]
fn metadata_success_is_200_with_content_length_and_stream() {
    let (r, st) = file_metadata(Ok(12));
    assert_eq!(r.status, 200);
    assert_eq!(r.content_length, Some(12));
    assert_eq!(r.body, Body::Stream);
    assert!(st.is_some());
}
