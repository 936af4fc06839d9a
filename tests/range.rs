use oasis::range::{parse_range, plan_delivery, range_reply, resolve_range, ByteRange, Delivery, RangeCursor};
use oasis::Error;

#[test]
fn first_byte_of_a_hundred_byte_file() {
    let r = parse_range("bytes=0-0").unwrap();
    assert_eq!(r, ByteRange::FromTo { start: 0, end: 0 });
    let (s, e) = resolve_range(r, 100).unwrap();
    assert_eq!((s, e), (0, 0));
    let reply = range_reply(s, e, 100);
    assert_eq!(reply.status, 206);
    assert_eq!(reply.content_range, "bytes 0-0/100");
    assert_eq!(reply.content_length, 1);
    assert_eq!(reply.accept_ranges, "bytes");
}

#[test]
fn end_beyond_size_is_rejected() {
    let r = parse_range("bytes=90-200").unwrap();
    assert_eq!(r, ByteRange::FromTo { start: 90, end: 200 });
    assert_eq!(resolve_range(r, 100), Err(Error::BadRequest));
}

#[test]
fn start_after_end_is_rejected() {
    let r = parse_range("bytes=10-5").unwrap();
    assert_eq!(resolve_range(r, 100), Err(Error::BadRequest));
}

#[test]
fn last_byte_is_inside() {
    let r = parse_range("bytes=0-99").unwrap();
    assert_eq!(resolve_range(r, 100), Ok((0, 99)));
    let r = parse_range("bytes=0-100").unwrap();
    assert_eq!(resolve_range(r, 100), Err(Error::BadRequest));
}

#[test]
fn open_ended_and_suffix_forms() {
    assert_eq!(parse_range("bytes=50-"), Some(ByteRange::From { start: 50 }));
    assert_eq!(resolve_range(ByteRange::From { start: 50 }, 100), Ok((50, 99)));
    assert_eq!(parse_range("bytes=-10"), Some(ByteRange::Suffix { len: 10 }));
    assert_eq!(resolve_range(ByteRange::Suffix { len: 10 }, 100), Ok((90, 99)));
    assert_eq!(resolve_range(ByteRange::Suffix { len: 101 }, 100), Err(Error::BadRequest));
    assert_eq!(resolve_range(ByteRange::Suffix { len: 0 }, 100), Err(Error::BadRequest));
    assert_eq!(resolve_range(ByteRange::From { start: 0 }, 0), Err(Error::BadRequest));
}

#[test]
fn malformed_headers_are_refused() {
    assert_eq!(parse_range("bytes=-"), None);
    assert_eq!(parse_range("bytes="), None);
    assert_eq!(parse_range("items=0-1"), None);
    assert_eq!(parse_range("bytes=a-1"), None);
    assert_eq!(parse_range("bytes=1-2-3"), None);
    assert_eq!(parse_range("bytes=1-x"), None);
    assert_eq!(parse_range("bytes=99999999999999999999-"), None);
    assert_eq!(parse_range("bytes=18446744073709551615-"), Some(ByteRange::From { start: u64::MAX }));
}

#[test]
fn content_range_of_a_larger_span() {
    let reply = range_reply(1024, 2047, 1048576);
    assert_eq!(reply.content_range, "bytes 1024-2047/1048576");
    assert_eq!(reply.content_length, 1024);
}

#[test]
fn delivery_choice() {
    assert_eq!(plan_delivery(None, true, 10), Ok(Delivery::Text));
    assert_eq!(plan_delivery(None, false, 10), Ok(Delivery::Binary));
    assert_eq!(
        plan_delivery(Some(ByteRange::FromTo { start: 2, end: 3 }), true, 10),
        Ok(Delivery::Partial { start: 2, end: 3 })
    );
    assert_eq!(plan_delivery(Some(ByteRange::FromTo { start: 2, end: 30 }), false, 10), Err(Error::BadRequest));
}

#[test]
fn cursor_never_passes_the_end() {
    let mut c = RangeCursor::new(10, 19);
    assert_eq!(c.allowance(4), 4);
    c.advance(4);
    assert_eq!(c.allowance(100), 6);
    c.advance(6);
    assert_eq!(c.allowance(100), 0);
}

#[test]
fn cursor_on_the_widest_span() {
    let mut c = RangeCursor::new(0, u64::MAX);
    assert_eq!(c.allowance(8), 8);
    c.advance(8);
    assert_eq!(c.next, 8);
}
