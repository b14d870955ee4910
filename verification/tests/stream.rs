use master_program::mesh::stream::{StreamChunk, StreamSession, StreamState, STREAM_CHUNK};

fn chunk(id: u128, index: u64, total: Option<u64>, payload: &str) -> StreamChunk {
    StreamChunk {
        session_id: id,
        chunk_index: index,
        total_chunks: total,
        byte_length: payload.len(),
        payload: payload.to_string(),
    }
}

#[test]
fn reassembles_out_of_order_text_chunks() {
    let mut session = StreamSession::new(Some(3));
    let id = session.session_id;
    session
        .accept_chunk(StreamChunk {
            session_id: id,
            chunk_index: 2,
            total_chunks: Some(3),
            byte_length: 1,
            payload: "!".to_string(),
        })
        .unwrap();
    session
        .accept_chunk(StreamChunk {
            session_id: id,
            chunk_index: 0,
            total_chunks: Some(3),
            byte_length: 5,
            payload: "hello".to_string(),
        })
        .unwrap();
    session
        .accept_chunk(StreamChunk {
            session_id: id,
            chunk_index: 1,
            total_chunks: Some(3),
            byte_length: 1,
            payload: " ".to_string(),
        })
        .unwrap();
    assert_eq!(session.reassemble_text().unwrap(), "hello !");
}

#[test]
fn reports_missing_chunks() {
    let mut session = StreamSession::new(Some(2));
    let id = session.session_id;
    session
        .accept_chunk(StreamChunk {
            session_id: id,
            chunk_index: 0,
            total_chunks: Some(2),
            byte_length: 2,
            payload: "ok".to_string(),
        })
        .unwrap();
    assert_eq!(session.missing_chunks(), vec![1]);
}

#[test]
fn duplicate_chunk_is_accepted_and_ignored() {
    let mut session = StreamSession::new(Some(1));
    let id = session.session_id;
    session.accept_chunk(chunk(id, 0, Some(1), "first")).unwrap();
    session.accept_chunk(chunk(id, 0, Some(1), "second")).unwrap();
    assert_eq!(session.reassemble_text().unwrap(), "first");
}

#[test]
fn chunk_errors() {
    let mut session = StreamSession::new(None);
    let id = session.session_id;
    assert_eq!(
        session.accept_chunk(chunk(id.wrapping_add(1), 0, None, "a")).unwrap_err(),
        "stream_session_mismatch"
    );
    let mut bad = chunk(id, 0, None, "héllo");
    bad.byte_length = 5;
    assert_eq!(session.accept_chunk(bad).unwrap_err(), "stream_chunk_length_mismatch");
    assert_eq!(session.reassemble_text().unwrap_err(), "stream_unknown_length");
    assert_eq!(session.missing_chunks(), Vec::<u64>::new());
    session.cancel();
    assert_eq!(session.state, StreamState::Cancelled);
    assert_eq!(session.accept_chunk(chunk(id, 0, None, "a")).unwrap_err(), "stream_not_open");
}

#[test]
fn multibyte_payload_length_is_in_bytes() {
    let mut session = StreamSession::new(Some(1));
    let id = session.session_id;
    session.accept_chunk(chunk(id, 0, Some(1), "héllo")).unwrap();
    assert_eq!(session.reassemble_text().unwrap(), "héllo");
}

#[test]
fn missing_chunk_blocks_reassembly() {
    let mut session = StreamSession::new(None);
    let id = session.session_id;
    session.accept_chunk(chunk(id, 2, Some(4), "c")).unwrap();
    session.accept_chunk(chunk(id, 0, None, "a")).unwrap();
    assert_eq!(session.missing_chunks(), vec![1, 3]);
    assert_eq!(session.reassemble_text().unwrap_err(), "stream_missing_chunk");
}

#[test]
fn state_changes_and_timeouts() {
    let mut session = StreamSession::new(Some(1));
    let id = session.session_id;
    session.accept_chunk_at(chunk(id, 0, Some(1), "x"), 1_000).unwrap();
    assert!(!session.timed_out_at(1_500, 500));
    assert!(session.timed_out_at(1_501, 500));
    assert!(!session.timed_out_at(10, 0));
    assert!(!session.timed_out(std::time::Duration::from_secs(3600)));
    session.end();
    assert_eq!(session.state, StreamState::Ended);
    session.mark_error();
    assert_eq!(session.state, StreamState::Error);
    assert!(session.reassembly_delay_ms() < 3_600_000);
    assert_eq!(STREAM_CHUNK, "stream.chunk");
}
