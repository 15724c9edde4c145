use vscode_atomic_tauri::framing::{content_length_frame, read_content_length, FrameError, JsonRpcSerializer, SplitTransport};

#[test]
fn serialize_appends_newline() {
    let s = JsonRpcSerializer::new();
    let v = s.frame(br#"{"a":1}"#.to_vec());
    assert!(v.ends_with(b"\n"));
    assert_eq!(v, b"{\"a\":1}\n".to_vec());
}

#[test]
fn content_length_round_trip() {
    let body = b"{\"method\":\"test\"}";
    let framed = content_length_frame(body);
    assert_eq!(&framed[..22], b"Content-Length: 17\r\n\r\n");

    let (received, used) = read_content_length(&framed).unwrap();
    assert_eq!(received, body);
    assert_eq!(used, framed.len());
}

#[test]
fn frames_read_back_one_after_another() {
    let mut stream = content_length_frame(b"first");
    stream.extend(content_length_frame(b""));
    stream.extend(content_length_frame(b"third!"));
    let (a, n) = read_content_length(&stream).unwrap();
    assert_eq!(a, b"first");
    let (b, m) = read_content_length(&stream[n..]).unwrap();
    assert_eq!(b, b"");
    let (c, _) = read_content_length(&stream[n + m..]).unwrap();
    assert_eq!(c, b"third!");
}

#[test]
fn other_headers_and_whitespace_are_tolerated() {
    let input = b"Content-Type: json\r\nContent-Length:   3 \r\n\r\nabcdef";
    assert_eq!(read_content_length(input), Ok((b"abc".to_vec(), input.len() - 3)));
    let plus = b"Content-Length: +2\n\nhi";
    assert_eq!(read_content_length(plus), Ok((b"hi".to_vec(), plus.len())));
}

#[test]
fn last_content_length_header_wins() {
    let input = b"Content-Length: 1\r\nContent-Length: 2\r\n\r\nxyz";
    assert_eq!(read_content_length(input), Ok((b"xy".to_vec(), input.len() - 1)));
    let spoiled = b"Content-Length: 1\r\nContent-Length: x\r\n\r\nxyz";
    assert_eq!(read_content_length(spoiled), Err(FrameError::MissingContentLength));
}

#[test]
fn framing_errors_are_reported() {
    assert_eq!(read_content_length(b""), Err(FrameError::EofInHeaders));
    assert_eq!(read_content_length(b"Content-Length: 3\r\n"), Err(FrameError::EofInHeaders));
    assert_eq!(read_content_length(b"X-Other: 1\r\n\r\nbody"), Err(FrameError::MissingContentLength));
    assert_eq!(read_content_length(b"Content-Length: 10\r\n\r\nshort"), Err(FrameError::EofInBody));
    assert_eq!(read_content_length(b"Content-Length: \xff\r\n\r\n"), Err(FrameError::InvalidUtf8));
    assert_eq!(
        read_content_length(b"Content-Length: 99999999999999999999999\r\n\r\n"),
        Err(FrameError::MissingContentLength)
    );
}

#[test]
fn split_transport_hands_out_both_halves() {
    let transport = SplitTransport { read: vec![1u8, 2], write: String::from("out") };
    let (read, write) = transport.split();
    assert_eq!(read, vec![1u8, 2]);
    assert_eq!(write, "out");
}
