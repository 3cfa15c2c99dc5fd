use nysia_core::control::{
    frame_line, ControlError, ControlReader, ControlWriter, LineRead, MAX_CONTROL_LINE_BYTES,
};

/// Read the next line out of `bytes`, handing the reader at most `piece` bytes at a time.
fn next_line(reader: &mut ControlReader, bytes: &mut &[u8], piece: usize) -> Result<Option<String>, ControlError> {
    loop {
        let n = bytes.len().min(piece);
        match reader.read_line(&bytes[..n]) {
            LineRead::More => *bytes = &bytes[n..],
            LineRead::Line { text, used } => {
                *bytes = &bytes[used..];
                return Ok(Some(text));
            }
            LineRead::Closed => return Ok(None),
            LineRead::Failed(err) => return Err(err),
        }
    }
}

const HELLO: &str = "{\"type\":\"hello\",\"version\":1,\"clientId\":\"nysia-test\"}";

#[test]
fn a_frame_written_is_the_frame_read_back() {
    let line = frame_line(HELLO.as_bytes().to_vec());
    assert!(line.ends_with(b"\n"), "frames are newline-delimited");

    let mut reader = ControlReader::new();
    let mut bytes = line.as_slice();
    assert_eq!(next_line(&mut reader, &mut bytes, 4096).expect("reads").expect("is there"), HELLO);
    assert!(
        next_line(&mut reader, &mut bytes, 4096).expect("reads").is_none(),
        "a clean end of stream is not an error"
    );
}

#[test]
fn several_frames_arrive_in_order_however_the_bytes_were_chunked() {
    let mut buffer = Vec::new();
    for n in 0..3 {
        buffer.extend(frame_line(format!("{{\"n\":{n}}}").into_bytes()));
    }
    for piece in [1, 2, 3, 7, 4096] {
        let mut reader = ControlReader::new();
        let mut bytes = buffer.as_slice();
        for n in 0..3 {
            assert_eq!(
                next_line(&mut reader, &mut bytes, piece).expect("reads").expect("is there"),
                format!("{{\"n\":{n}}}")
            );
        }
    }
}

#[test]
fn a_peer_that_never_sends_a_newline_is_refused_rather_than_buffered() {
    let flood = vec![b'x'; MAX_CONTROL_LINE_BYTES + 1];
    let mut reader = ControlReader::new();
    let mut bytes = flood.as_slice();
    assert!(matches!(next_line(&mut reader, &mut bytes, 8192), Err(ControlError::LineTooLong)));
}

#[test]
fn a_line_that_just_fits_is_still_read() {
    let mut line = vec![b'"'; 1];
    line.extend(std::iter::repeat(b'x').take(MAX_CONTROL_LINE_BYTES - 2));
    line.push(b'"');
    line.push(b'\n');
    let mut reader = ControlReader::new();
    let mut bytes = line.as_slice();
    let read = next_line(&mut reader, &mut bytes, 8192).expect("reads").expect("is there");
    assert_eq!(read.len(), MAX_CONTROL_LINE_BYTES);
}

#[test]
fn a_truncated_frame_is_not_mistaken_for_a_clean_disconnect() {
    let mut reader = ControlReader::new();
    let mut bytes = &b"{\"type\":\"hel"[..];
    assert!(matches!(next_line(&mut reader, &mut bytes, 4096), Err(ControlError::Truncated)));
}

#[test]
fn a_line_that_is_not_the_frame_it_should_be_is_malformed_and_not_fatal_to_the_reader() {
    let mut reader = ControlReader::new();
    let mut bytes = &b"{\"type\":\"goodbye\"}\n{}\n"[..];
    let first = next_line(&mut reader, &mut bytes, 4096).expect("reads").expect("is there");
    assert_eq!(first, "{\"type\":\"goodbye\"}");
    assert!(next_line(&mut reader, &mut bytes, 4096).expect("reads").is_some());
}

#[test]
fn a_carriage_return_before_the_newline_is_dropped_and_only_one() {
    let mut reader = ControlReader::new();
    let mut bytes = &b"one\r\ntwo\r\r\n\r\n"[..];
    assert_eq!(next_line(&mut reader, &mut bytes, 3).expect("reads").as_deref(), Some("one"));
    assert_eq!(next_line(&mut reader, &mut bytes, 3).expect("reads").as_deref(), Some("two\r"));
    assert_eq!(next_line(&mut reader, &mut bytes, 3).expect("reads").as_deref(), Some(""));
}

#[test]
fn bytes_that_are_not_text_are_replaced_rather_than_refused() {
    let mut reader = ControlReader::new();
    let mut bytes = &b"a\xffb\n\xc3\xa9\n"[..];
    assert_eq!(next_line(&mut reader, &mut bytes, 1).expect("reads").as_deref(), Some("a\u{fffd}b"));
    assert_eq!(next_line(&mut reader, &mut bytes, 1).expect("reads").as_deref(), Some("\u{e9}"));
}

#[test]
fn what_follows_a_line_is_left_for_whoever_reads_next() {
    let mut reader = ControlReader::new();
    match reader.read_line(b"hello\n\x01\x02\x03") {
        LineRead::Line { text, used } => {
            assert_eq!(text, "hello");
            assert_eq!(used, 6);
        }
        other => panic!("a line, got {other:?}"),
    }
}

#[test]
fn a_writer_is_handed_back_whole() {
    let target = vec![1u8, 2, 3];
    assert_eq!(ControlWriter::new(target).into_inner(), [1, 2, 3]);
}

#[test]
fn each_control_failure_says_what_happened() {
    assert_eq!(ControlError::Io("gone".to_owned()).message(), "the control connection failed: gone");
    assert_eq!(
        ControlError::LineTooLong.message(),
        format!(
            "a control frame exceeded {MAX_CONTROL_LINE_BYTES} bytes with no newline; frames are newline-delimited JSON, one per line"
        )
    );
    assert_eq!(
        ControlError::Malformed("expected value".to_owned()).message(),
        "could not read a control frame: expected value"
    );
    assert_eq!(
        ControlError::Truncated.message(),
        "the peer closed the connection part way through a control frame"
    );
}

#[test]
fn a_line_that_could_not_be_read_is_dropped_with_the_read_that_failed() {
    let mut reader = ControlReader::new();
    assert!(matches!(reader.read_line(b"half a li"), LineRead::More));
    assert!(matches!(reader.read_line(b""), LineRead::Failed(ControlError::Truncated)));
    assert!(matches!(reader.read_line(b""), LineRead::Closed), "a clean end from here on");

    let mut reader = ControlReader::new();
    assert!(matches!(reader.read_line(b"xx"), LineRead::More));
    let flood = vec![b'x'; MAX_CONTROL_LINE_BYTES];
    assert!(matches!(reader.read_line(&flood), LineRead::Failed(ControlError::LineTooLong)));
    match reader.read_line(b"next\n") {
        LineRead::Line { text, used } => {
            assert_eq!(text, "next");
            assert_eq!(used, 5);
        }
        other => panic!("a line, got {other:?}"),
    }
}
