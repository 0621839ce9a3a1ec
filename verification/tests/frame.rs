use agentd::frame::{FrameReader, ReadFrame, MAX_FRAME_BYTES};

/// The frames of a stream that arrives in chunks of at most `size` bytes.
fn frames(input: &[u8], size: usize) -> Vec<ReadFrame> {
    let mut reader = FrameReader::new();
    let mut frames = Vec::new();
    for chunk in input.chunks(size) {
        let mut rest = chunk;
        while !rest.is_empty() {
            let (consumed, frame) = reader.on_chunk(rest);
            rest = &rest[consumed..];
            if let Some(frame) = frame {
                frames.push(frame);
            }
        }
    }
    frames.push(reader.on_end());
    frames
}

#[test]
fn read_frame_bounds_an_endless_line_and_resynchronizes() {
    // One line far over the cap, with no newline until after the excess,
    // followed by a normal line: the first is dropped and the second read
    // cleanly.
    let mut input = vec![b'x'; MAX_FRAME_BYTES + 10];
    input.push(b'\n');
    input.extend_from_slice(b"next\n");

    for size in [8192, 1, 1 << 20] {
        let read = frames(&input, size);
        assert_eq!(read.len(), 3);
        assert!(matches!(read[0], ReadFrame::Oversized));
        assert!(matches!(&read[1], ReadFrame::Line(line) if line == "next"));
        assert!(matches!(read[2], ReadFrame::Eof));
    }
}

#[test]
fn read_frame_trims_a_trailing_carriage_return() {
    let read = frames(b"hello\r\n", 64);
    assert!(matches!(&read[0], ReadFrame::Line(line) if line == "hello"));
    assert!(matches!(read[1], ReadFrame::Eof));
}

#[test]
fn a_frame_of_exactly_the_cap_is_read() {
    let mut input = vec![b'x'; MAX_FRAME_BYTES];
    input.push(b'\n');
    let read = frames(&input, 4096);
    assert!(matches!(&read[0], ReadFrame::Line(line) if line.len() == MAX_FRAME_BYTES));
}

#[test]
fn the_end_of_the_stream_ends_the_last_frame() {
    let read = frames(b"one\ntwo", 2);
    assert_eq!(read.len(), 2);
    assert!(matches!(&read[0], ReadFrame::Line(line) if line == "one"));
    assert!(matches!(&read[1], ReadFrame::Line(line) if line == "two"));
}

#[test]
fn bytes_that_are_no_text_are_dropped() {
    let read = frames(b"a\xff\nok\n", 64);
    assert!(matches!(read[0], ReadFrame::Oversized));
    assert!(matches!(&read[1], ReadFrame::Line(line) if line == "ok"));
}

#[test]
fn characters_of_several_bytes_are_read() {
    for size in [1, 2, 3, 4, 64] {
        let read = frames("gr\u{fc}\u{df}e \u{1f600}\n".as_bytes(), size);
        assert_eq!(read.len(), 2);
        assert!(matches!(&read[0], ReadFrame::Line(line) if line == "gr\u{fc}\u{df}e \u{1f600}"));
        assert!(matches!(read[1], ReadFrame::Eof));
    }
}

#[test]
fn an_empty_line_is_a_frame() {
    let read = frames(b"\n\r\n", 64);
    assert!(matches!(&read[0], ReadFrame::Line(line) if line.is_empty()));
    assert!(matches!(&read[1], ReadFrame::Line(line) if line.is_empty()));
    assert!(matches!(read[2], ReadFrame::Eof));
}

#[test]
fn a_character_may_be_cut_in_two() {
    let mut reader = FrameReader::new();
    assert!(matches!(reader.on_chunk(&[0xc3]), (1, None)));
    assert!(matches!(
        reader.on_chunk(&[0xa9, b'\n']),
        (2, Some(ReadFrame::Line(line))) if line == "\u{e9}"
    ));

    // A character that is never finished makes the line no text, and only it.
    let read = frames(b"\xc3\nok", 1);
    assert_eq!(read.len(), 2);
    assert!(matches!(read[0], ReadFrame::Oversized));
    assert!(matches!(&read[1], ReadFrame::Line(line) if line == "ok"));
}

#[test]
fn chunks_do_not_change_what_is_read() {
    let input = "one\r\ntw\u{f6}\n\n\u{20ac}uro".as_bytes();
    let whole: Vec<String> = frames(input, input.len()).iter().map(|f| format!("{f:?}")).collect();
    for size in 1..input.len() {
        let cut: Vec<String> = frames(input, size).iter().map(|f| format!("{f:?}")).collect();
        assert_eq!(cut, whole);
    }
}
