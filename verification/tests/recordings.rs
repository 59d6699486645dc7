use singeros::clock::Moment;
use singeros::order::newest_first;
use singeros::recordings::{
    client_log_fits, is_recording_audio, is_recording_file, listed_recording_id, FinalizeError,
    RecordingBook,
};
use singeros::sessions::{ChunkError, MAX_CHUNK_BYTES};

fn at(secs: i64) -> Moment {
    Moment::from_unix(secs, 0).unwrap()
}

#[test]
fn chunks_must_arrive_in_order() {
    let mut book = RecordingBook::new();
    let view = book.start("abcdef12".to_string(), "audio/webm;codecs=opus".to_string(), at(100));
    assert_eq!(view.id, "abcdef12");
    assert_eq!((view.seq, view.bytes), (0, 0));
    assert_eq!(book.check_append("abcdef12", 1, 10), Err(ChunkError::SequenceMismatch { expected: 0 }));
    assert_eq!(book.check_append("abcdef12", 0, 10), Ok(()));
    assert!(book.room_for("abcdef12", 10));
    assert_eq!(book.append("abcdef12", 10), 10);
    let again = book.check_append("abcdef12", 0, 10);
    assert_eq!(again, Err(ChunkError::SequenceMismatch { expected: 1 }));
    assert_eq!(again.unwrap_err().message(), "sequence mismatch: expected 1");
    assert_eq!(book.check_append("abcdef12", 1, 5), Ok(()));
    assert_eq!(book.append("abcdef12", 5), 5);
    let done = book.finalize("abcdef12").ok().unwrap();
    assert_eq!(done.id, "abcdef12");
    assert_eq!(done.file, "abcdef12.webm");
    assert_eq!(done.mime, "audio/webm;codecs=opus");
    assert_eq!((done.chunks, done.bytes), (2, 15));
    assert_eq!(done.started.secs(), 100);
    assert_eq!(book.check_append("abcdef12", 2, 1), Err(ChunkError::NotActive));
    assert_eq!(book.finalize("abcdef12").err(), Some(FinalizeError::NotActive));
}

#[test]
fn chunk_errors_in_check_order() {
    let mut book = RecordingBook::new();
    book.start("abcdef12".to_string(), "audio/ogg".to_string(), at(1));
    let too_big = (MAX_CHUNK_BYTES + 1) as usize;
    assert_eq!(book.check_append("bad", 0, too_big), Err(ChunkError::InvalidId));
    assert_eq!(book.check_append("abcdef12", 0, too_big), Err(ChunkError::TooLarge));
    assert_eq!(book.check_append("abcdef12", 0, MAX_CHUNK_BYTES as usize), Ok(()));
    assert_eq!(book.check_append("zzzzzzzz", 0, 1), Err(ChunkError::NotActive));
    assert_eq!(ChunkError::InvalidId.message(), "invalid recording id");
    assert_eq!(ChunkError::TooLarge.message(), "chunk exceeds 16 MiB");
    assert_eq!(ChunkError::NotActive.message(), "recording session not active");
    assert_eq!(book.finalize("bad").err(), Some(FinalizeError::InvalidId));
    assert_eq!(FinalizeError::InvalidId.message(), "invalid recording id");
    assert_eq!(FinalizeError::NotActive.message(), "recording session not active");
}

#[test]
fn restarting_a_session_resets_it() {
    let mut book = RecordingBook::new();
    book.start("abcdef12".to_string(), "audio/ogg".to_string(), at(1));
    book.append("abcdef12", 3);
    book.start("abcdef12".to_string(), "audio/mp4".to_string(), at(2));
    assert_eq!(book.check_append("abcdef12", 0, 1), Ok(()));
    let done = book.finalize("abcdef12").ok().unwrap();
    assert_eq!(done.file, "abcdef12.m4a");
    assert_eq!(done.bytes, 0);
}

#[test]
fn delete_forgets_sessions_of_valid_ids() {
    let mut book = RecordingBook::new();
    book.start("abcdef12".to_string(), "".to_string(), at(1));
    assert!(!book.delete("../etc"));
    assert_eq!(book.check_append("abcdef12", 0, 1), Ok(()));
    assert!(book.delete("abcdef12"));
    assert_eq!(book.check_append("abcdef12", 0, 1), Err(ChunkError::NotActive));
    assert!(book.delete("abcdef12"));
}

#[test]
fn unknown_mime_finalizes_as_bin() {
    let mut book = RecordingBook::new();
    book.start("abcdef12".to_string(), "".to_string(), at(1));
    assert_eq!(book.finalize("abcdef12").ok().unwrap().file, "abcdef12.bin");
}

#[test]
fn directory_listing_filters() {
    assert_eq!(listed_recording_id("abcdef12.webm").as_deref(), Some("abcdef12"));
    assert_eq!(listed_recording_id("abcdef12"), Some("abcdef12".to_string()));
    assert_eq!(listed_recording_id("abcdef12.part"), None);
    assert_eq!(listed_recording_id("abcdef12.json"), None);
    assert_eq!(listed_recording_id("client.log"), None);
    assert_eq!(listed_recording_id("short.webm"), None);
    assert_eq!(listed_recording_id("abc.def12.webm"), None);
}

#[test]
fn audio_and_owned_files() {
    assert!(is_recording_audio("abcdef12.webm", "abcdef12"));
    assert!(is_recording_audio("abcdef12", "abcdef12"));
    assert!(!is_recording_audio("abcdef12.json", "abcdef12"));
    assert!(!is_recording_audio("abcdef12.part", "abcdef12"));
    assert!(!is_recording_audio("abcdef13.webm", "abcdef12"));
    assert!(is_recording_file("abcdef12.json", "abcdef12"));
    assert!(is_recording_file("abcdef12.part", "abcdef12"));
    assert!(!is_recording_file("abcdef123.webm", "abcdef12"));
}

#[test]
fn listings_are_newest_first_and_stable() {
    let keys = vec![at(5), at(9), at(5), Moment::from_unix(9, 1).unwrap(), at(1)];
    assert_eq!(newest_first(&keys), vec![3, 1, 0, 2, 4]);
    let texts = vec![
        "2024-01-02 10:00:00".to_string(),
        "2024-01-03 09:00:00".to_string(),
        "2024-01-02 10:00:00".to_string(),
        "2023-12-31 23:59:59".to_string(),
    ];
    assert_eq!(newest_first(&texts), vec![1, 0, 2, 3]);
    let empty: Vec<String> = Vec::new();
    assert_eq!(newest_first(&empty), Vec::<usize>::new());
}

#[test]
fn client_log_limit() {
    assert!(client_log_fits(0));
    assert!(client_log_fits(65536));
    assert!(!client_log_fits(65537));
}
