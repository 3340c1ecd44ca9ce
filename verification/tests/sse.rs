use jyc_agent::provider::sse::{
    find_event_end, finish_stream, non_2xx_error, parse_data, take_complete_event, truncate_body,
    AtEnd, BODY_LIMIT,
};

#[test]
fn events_end_at_a_blank_line() {
    assert_eq!(find_event_end(b"data: a\n\ndata: b"), Some(9));
    assert_eq!(find_event_end(b"data: a\r\n\r\nrest"), Some(11));
    assert_eq!(find_event_end(b"data: a\n"), None);
    assert_eq!(find_event_end(b""), None);
}

#[test]
fn later_bytes_do_not_move_the_end_of_an_event() {
    assert_eq!(
        find_event_end(b"data: a\n\n"),
        find_event_end(b"data: a\n\ndata: b\n\n")
    );
}

#[test]
fn data_lines_are_joined() {
    assert_eq!(parse_data("data: line1\ndata: line2\n\n"), Some("line1\nline2".to_string()));
    assert_eq!(parse_data("data:tight\n\n"), Some("tight".to_string()));
    assert_eq!(parse_data(": comment\nevent: ping\n\n"), None);
}

#[test]
fn events_are_taken_one_by_one() {
    let mut buf = b"data: {\"a\":1}\n\ndata: hello\n\ndata: line1\ndata: line2\n\n".to_vec();
    assert_eq!(take_complete_event(&mut buf), Some("{\"a\":1}".to_string()));
    assert_eq!(take_complete_event(&mut buf), Some("hello".to_string()));
    assert_eq!(take_complete_event(&mut buf), Some("line1\nline2".to_string()));
    assert_eq!(take_complete_event(&mut buf), None);
    assert!(buf.is_empty());
}

#[test]
fn broken_bytes_are_replaced() {
    let mut buf = vec![b'd', b'a', b't', b'a', b':', b' ', b'x', 0xFF, b'\n', b'\n'];
    assert_eq!(take_complete_event(&mut buf), Some("x\u{FFFD}".to_string()));
}

#[test]
fn what_is_left_at_the_end_is_a_last_event() {
    let mut buf = b"data: tail".to_vec();
    match finish_stream(&mut buf) {
        AtEnd::Message(message) => assert_eq!(message.data, "tail"),
        AtEnd::Ended => panic!("expected a message"),
    }
    assert!(buf.is_empty());
    assert!(matches!(finish_stream(&mut buf), AtEnd::Ended));
    let mut silent = b": comment".to_vec();
    assert!(matches!(finish_stream(&mut silent), AtEnd::Ended));
    assert!(silent.is_empty());
}

#[test]
fn a_refusal_tells_status_wait_and_body() {
    assert_eq!(
        non_2xx_error("429 Too Many Requests", Some(30), Some("{\"error\":\"rate limited\"}")),
        "Invalid status code: 429 Too Many Requests retry-after: 30s body: {\"error\":\"rate limited\"}"
    );
    assert!(non_2xx_error("500", None, Some("oops")).ends_with("500 body: oops"));
}

#[test]
fn long_bodies_are_cut() {
    let short = "x".repeat(BODY_LIMIT);
    assert_eq!(truncate_body(&short), short);
    let long = "x".repeat(BODY_LIMIT + 1);
    assert_eq!(
        truncate_body(&long),
        format!("{short}…(truncated, 2001 bytes total)")
    );
    let wide = "é".repeat(1500);
    assert_eq!(truncate_body(&wide), format!("{wide}…(truncated, 3000 bytes total)"));
}

#[test]
fn events_do_not_depend_on_the_chunks() {
    let bytes = "data: eins\n\n: ping\n\ndata: zwölf\r\n\r\ndata: rest".as_bytes();
    let read = |size: usize| {
        let mut buf = Vec::new();
        let mut events = Vec::new();
        for chunk in bytes.chunks(size) {
            buf.extend_from_slice(chunk);
            while find_event_end(&buf).is_some() {
                events.push(take_complete_event(&mut buf));
            }
        }
        (events, buf)
    };
    let whole = read(bytes.len());
    assert_eq!(whole.0, vec![Some("eins".to_string()), None, Some("zwölf".to_string())]);
    assert_eq!(whole.1, b"data: rest");
    for size in 1..bytes.len() {
        assert_eq!(read(size), whole, "chunks of {size}");
    }
}

#[test]
fn an_event_ends_at_the_first_blank_line() {
    for buf in [&b"a\n\r\n\nb\n\n"[..], b"\n\n", b"a\r\nb\n\r\nc\n\n", b"\n\r\r\n\n\n", b"a\r\n\r"] {
        let least = (0..=buf.len())
            .find(|end| buf[..*end].ends_with(b"\n\n") || buf[..*end].ends_with(b"\n\r\n"));
        assert_eq!(find_event_end(buf), least, "{buf:?}");
    }
}
