use agentd::log::{
    batch_has_room, published, recover, LineRead, LineStep, LogError, LogReader, Recovery, Writer,
    MAX_BATCH_EVENTS,
};

#[test]
fn open_resumes_the_sequence_after_existing_lines() {
    let recovered = recover(b"{}\n{}\n");
    assert_eq!(recovered.next_lsn, 3);
    assert_eq!(recovered.truncate_to, None);
    assert_eq!(recover(b"").next_lsn, 1);
}

#[test]
fn open_truncates_a_partial_trailing_line() {
    let recovered = recover(b"{}\n{\"half");
    assert_eq!(recovered.next_lsn, 2);
    assert_eq!(recovered.truncate_to, Some(3));
    assert_eq!(recover(b"half").truncate_to, Some(0));
}

#[test]
fn recovery_does_not_depend_on_the_chunks() {
    let bytes = b"one\ntwo\nthr";
    for size in 1..bytes.len() {
        let mut recovery = Recovery::new();
        for chunk in bytes.chunks(size) {
            recovery.feed(chunk);
        }
        let recovered = recovery.finish();
        assert_eq!(recovered.next_lsn, 3);
        assert_eq!(recovered.truncate_to, Some(8));
    }
}

#[test]
fn publish_persists_every_row_as_a_single_line() {
    let mut writer = Writer::new(5);
    let commit = writer
        .commit(&vec![Some(b"{\"a\":1}".to_vec()), None, Some(b"{\"b\":2}".to_vec())])
        .expect("something to append");
    assert_eq!(commit.buffer, b"{\"a\":1}\n{\"b\":2}\n");
    assert_eq!(commit.positions, [Some(5), None, Some(6)]);
}

#[test]
fn what_is_appended_is_read_back() {
    let mut writer = Writer::new(1);
    let mut file = Vec::new();
    for line in ["first", "second"] {
        let commit = writer.commit(&vec![Some(line.as_bytes().to_vec())]).expect("a line");
        file.extend_from_slice(&commit.buffer);
        writer.appended(true);
    }
    assert_eq!(recover(&file).next_lsn, 3);

    let mut reader = LogReader::new(2);
    let mut entries = Vec::new();
    for line in file.split_inclusive(|byte| *byte == b'\n') {
        if let LineStep::Entry(position, bytes) = reader.on_read(LineRead::Bytes(line.to_vec())) {
            reader.on_decoded(true);
            entries.push((position, bytes));
        }
    }
    assert_eq!(entries.len(), 1);
    assert_eq!(entries[0].0, 2);
    assert!(entries[0].1.starts_with(b"second"));
}

#[test]
fn read_from_skips_earlier_entries() {
    let mut reader = LogReader::new(3);
    let line = || LineRead::Bytes(b"{}\n".to_vec());
    assert!(matches!(reader.on_read(line()), LineStep::Skip));
    assert!(matches!(reader.on_read(line()), LineStep::Skip));
    assert!(matches!(reader.on_read(line()), LineStep::Entry(3, _)));
}

#[test]
fn a_half_written_line_is_the_end() {
    let mut reader = LogReader::new(1);
    assert!(matches!(
        reader.on_read(LineRead::Bytes(b"{\"half".to_vec())),
        LineStep::End
    ));
    let mut failing = LogReader::new(1);
    assert!(matches!(
        failing.on_read(LineRead::Failed(String::from("io"))),
        LineStep::Failed(error) if error == "io"
    ));
    assert!(matches!(failing.on_read(LineRead::Bytes(b"{}\n".to_vec())), LineStep::End));
}

#[test]
fn a_line_that_is_no_event_ends_the_reading() {
    let mut reader = LogReader::new(1);
    assert!(matches!(
        reader.on_read(LineRead::Bytes(b"nonsense\n".to_vec())),
        LineStep::Entry(1, _)
    ));
    reader.on_decoded(false);
    assert!(matches!(reader.on_read(LineRead::Bytes(b"{}\n".to_vec())), LineStep::End));
}

#[test]
fn a_stopped_writer_fails_the_publish() {
    assert!(matches!(published(None), Err(LogError::WriterStopped)));
    assert!(matches!(published(Some(Ok(4))), Ok(4)));

    let mut writer = Writer::new(1);
    let _ = writer.commit(&vec![Some(b"{}".to_vec())]).expect("a line");
    writer.appended(false);
    assert!(writer.commit(&vec![Some(b"{}".to_vec())]).is_none(), "the writer has stopped");
}

#[test]
fn batches_are_bounded() {
    assert!(batch_has_room(MAX_BATCH_EVENTS - 1));
    assert!(!batch_has_room(MAX_BATCH_EVENTS));
}

#[test]
fn log_errors_explain_themselves() {
    assert_eq!(LogError::Io(String::from("x")).to_string(), "x");
    assert_eq!(LogError::Json(String::from("x")).to_string(), "event is not valid JSON: x");
    assert_eq!(LogError::WriterStopped.to_string(), "the event log writer has stopped");
}
