use sponk::common::{consume_request, frame_request, frame_request_split, RequestBoundary};

#[test]
fn common_test_consume() {
    let request = br#"GET /hello.txt HTTP/1.1
User-Agent: curl/7.64.1
Host: www.example.com
Accept-Language: en, mi

GET /hello.txt HTTP/1.1
User-Agent: curl/7.64.1
Host: www.example.com
Accept-Language: en, mi
Content-Length: 6

Hello
"#;
    assert_eq!(consume_request(request), 95);
    assert_eq!(consume_request(&request[95..]), 119);
}

#[test]
fn framer_is_idempotent_on_unconsumed_slice() {
    let bytes = b"GET / HTTP/1.1\nHost: a\n\nGET /x HTTP/1.1\n";
    let first = frame_request(bytes);
    let second = frame_request(bytes);
    assert_eq!(first, second);
    assert_eq!(first, RequestBoundary::Complete { len: 24, trailing: true });
}

#[test]
fn two_bodiless_requests_frame_back_to_back() {
    let a = b"GET / HTTP/1.1\n\n";
    let b = b"GET /other HTTP/1.1\n\n";
    let mut joined = a.to_vec();
    joined.extend_from_slice(b);
    let first = frame_request(&joined);
    assert_eq!(first, RequestBoundary::Complete { len: a.len(), trailing: true });
    let second = frame_request(&joined[a.len()..]);
    assert_eq!(second, RequestBoundary::Complete { len: b.len(), trailing: false });
    assert_eq!(a.len() + b.len(), joined.len());
}

#[test]
fn missing_blank_line_stays_incomplete() {
    let bytes = b"GET / HTTP/1.1\nHost: www.example.com\nAccept: */*\n";
    for end in 0..=bytes.len() {
        assert_eq!(frame_request(&bytes[..end]), RequestBoundary::Incomplete);
    }
}

#[test]
fn short_body_stays_incomplete_until_declared_length() {
    let head = b"POST / HTTP/1.1\nContent-Length: 6\n\n";
    let body = b"Hello\n";
    let mut bytes = head.to_vec();
    for taken in 0..body.len() {
        assert_eq!(frame_request(&bytes), RequestBoundary::Incomplete);
        bytes.push(body[taken]);
    }
    assert_eq!(
        frame_request(&bytes),
        RequestBoundary::Complete { len: head.len() + body.len(), trailing: false }
    );
}

#[test]
fn framer_scenario_get_then_posted_body() {
    let first_block = b"GET /hello.txt HTTP/1.1\nHost: www.example.com\n\n";
    let second_block = b"POST /hello.txt HTTP/1.1\nContent-Length: 6\n\nHello\n";
    let mut bytes = first_block.to_vec();
    bytes.extend_from_slice(second_block);
    let first = frame_request(&bytes);
    assert_eq!(first, RequestBoundary::Complete { len: first_block.len(), trailing: true });
    let second = frame_request(&bytes[first_block.len()..]);
    assert_eq!(second, RequestBoundary::Complete { len: second_block.len(), trailing: false });
}

#[test]
fn content_length_value_parsing() {
    // absent header: the header block alone bounds the request
    assert_eq!(
        frame_request(b"GET / HTTP/1.1\n\nrest"),
        RequestBoundary::Complete { len: 16, trailing: true }
    );
    // unparsable value: treated as 0
    assert_eq!(
        frame_request(b"GET / HTTP/1.1\nContent-Length: six\n\n"),
        RequestBoundary::Complete { len: 36, trailing: false }
    );
    // trailing junk after the digits: unparsable, treated as 0
    assert_eq!(
        frame_request(b"GET / HTTP/1.1\nContent-Length: 6 \n\n"),
        RequestBoundary::Complete { len: 35, trailing: false }
    );
    // leading whitespace before the digits is trimmed
    assert_eq!(
        frame_request(b"GET / HTTP/1.1\nContent-Length:   2\n\nok"),
        RequestBoundary::Complete { len: 38, trailing: false }
    );
    // the value after the final colon is what counts
    assert_eq!(
        frame_request(b"GET / HTTP/1.1\nContent-Length: a:b: 1\n\nZ"),
        RequestBoundary::Complete { len: 40, trailing: false }
    );
    // a value too large for usize is treated as 0
    assert_eq!(
        frame_request(b"GET / HTTP/1.1\nContent-Length: 99999999999999999999999999\n\n"),
        RequestBoundary::Complete { len: 59, trailing: false }
    );
    // name comparison is exact-case
    assert_eq!(
        frame_request(b"GET / HTTP/1.1\ncontent-length: 4\n\nbody"),
        RequestBoundary::Complete { len: 34, trailing: true }
    );
    // a later Content-Length header overrides an earlier one
    assert_eq!(
        frame_request(b"GET / HTTP/1.1\nContent-Length: 9\nContent-Length: 2\n\nokX"),
        RequestBoundary::Complete { len: 54, trailing: true }
    );
}

#[test]
fn empty_and_tiny_slices_are_incomplete() {
    assert_eq!(frame_request(b""), RequestBoundary::Incomplete);
    assert_eq!(consume_request(b""), 0);
    assert_eq!(frame_request(b"G"), RequestBoundary::Incomplete);
    assert_eq!(consume_request(b"GET / HTTP/1.1"), 0);
}

#[test]
fn framing_spans_split_segments() {
    // the same bytes split at every point must frame identically
    let bytes = b"GET / HTTP/1.1\nContent-Length: 3\n\nabcNEXT";
    let whole = frame_request(bytes);
    assert_eq!(whole, RequestBoundary::Complete { len: 37, trailing: true });
    for cut in 0..=bytes.len() {
        assert_eq!(frame_request_split(&bytes[..cut], &bytes[cut..]), whole);
    }
}
