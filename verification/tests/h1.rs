use sponk::h1::{Action, CloseReason, Event, Phase, Pipeline};

fn read_event(pipe: &mut Pipeline, bytes: &[u8]) -> Action {
    assert!(matches!(pipe.current_phase(), Phase::Reading));
    assert!(!pipe.has_loan());
    let mut data = pipe.prepare_read();
    assert!(bytes.len() <= data.len());
    data[..bytes.len()].copy_from_slice(bytes);
    pipe.step(Event::ReadDone { data, n: bytes.len() })
}

#[test]
fn pipelined_requests_respond_back_to_back() {
    let mut pipe = Pipeline::new(1024);
    let mut bytes = b"GET / HTTP/1.1\n\n".to_vec();
    bytes.extend_from_slice(b"GET /two HTTP/1.1\n\n");
    let action = read_event(&mut pipe, &bytes);
    assert_eq!(action, Action::Respond);
    let action = pipe.step(Event::WriteDone);
    assert_eq!(action, Action::Respond);
    let action = pipe.step(Event::WriteDone);
    assert_eq!(action, Action::Read);
    // the peer closes: a clean shutdown
    let data = pipe.prepare_read();
    let action = pipe.step(Event::ReadDone { data, n: 0 });
    assert_eq!(action, Action::Close { reason: CloseReason::EndOfStream });
    assert!(matches!(pipe.current_phase(), Phase::Closed { reason: CloseReason::EndOfStream }));
}

#[test]
fn partial_request_reads_until_complete() {
    let mut pipe = Pipeline::new(1024);
    let head = b"POST / HTTP/1.1\nContent-Length: 6\n\n";
    let action = read_event(&mut pipe, head);
    assert_eq!(action, Action::Read);
    let action = read_event(&mut pipe, b"Hel");
    assert_eq!(action, Action::Read);
    let action = read_event(&mut pipe, b"lo\n");
    assert_eq!(action, Action::Respond);
    let action = pipe.step(Event::WriteDone);
    assert_eq!(action, Action::Read);
}

#[test]
fn oversized_request_fails_only_with_its_reason() {
    let mut pipe = Pipeline::new(8);
    // eight bytes of an unterminated request fill a whole read's capacity
    let action = read_event(&mut pipe, b"GET /aaa");
    assert_eq!(action, Action::Close { reason: CloseReason::RequestTooLarge });
    assert!(matches!(
        pipe.current_phase(),
        Phase::Closed { reason: CloseReason::RequestTooLarge }
    ));
}

#[test]
fn oversized_request_completing_across_reads_still_fails() {
    let mut pipe = Pipeline::new(8);
    // seven bytes arrive first: incomplete, still within capacity
    let action = read_event(&mut pipe, b"GET /ab");
    assert_eq!(action, Action::Read);
    // three more complete a ten-byte request — longer than any one read's
    // array, so it must fail, not be served
    let action = read_event(&mut pipe, b"c\n\n");
    assert_eq!(action, Action::Close { reason: CloseReason::RequestTooLarge });
    assert!(matches!(
        pipe.current_phase(),
        Phase::Closed { reason: CloseReason::RequestTooLarge }
    ));
}

#[test]
fn transport_errors_close_the_connection() {
    let mut pipe = Pipeline::new(64);
    let _ = pipe.prepare_read();
    let action = pipe.step(Event::ReadFailed);
    assert_eq!(action, Action::Close { reason: CloseReason::TransportError });

    let mut pipe = Pipeline::new(64);
    let action = read_event(&mut pipe, b"GET / HTTP/1.1\n\n");
    assert_eq!(action, Action::Respond);
    let action = pipe.step(Event::WriteFailed);
    assert_eq!(action, Action::Close { reason: CloseReason::TransportError });
}

#[test]
fn leftover_bytes_survive_the_next_read_cycle() {
    let mut pipe = Pipeline::new(1024);
    // one full request plus the first half of the next arrive together
    let mut bytes = b"GET / HTTP/1.1\n\n".to_vec();
    bytes.extend_from_slice(b"GET /second HT");
    let action = read_event(&mut pipe, &bytes);
    assert_eq!(action, Action::Respond);
    let action = pipe.step(Event::WriteDone);
    assert_eq!(action, Action::Read);
    assert_eq!(pipe.buffered_len(), 14);
    // the second half arrives in the next cycle
    let action = read_event(&mut pipe, b"TP/1.1\n\n");
    assert_eq!(action, Action::Respond);
    let action = pipe.step(Event::WriteDone);
    assert_eq!(action, Action::Read);
    assert_eq!(pipe.buffered_len(), 0);
}
