use singeros::clock::Moment;
use singeros::client_log::{client_log_line, request_json};
use singeros::ids::new_id;
use singeros::names::{content_type, safe_id, safe_song_filename};
use singeros::order::{apply_order, newest_first};
use singeros::recordings::{is_recording_audio, listed_recording_id, RecordingBook};

#[test]
fn new_ids_are_hex_clock_and_pid() {
    assert_eq!(new_id(0x18a3f0c2b4d5, 0x1f2a), "18a3f0c2b4d5-1f2a");
    assert_eq!(new_id(0, 0), "0-0");
    assert_eq!(new_id(255, 16), "ff-10");
    assert_eq!(new_id(1_700_000_000_123_456_789, 4242), "17979cfe3d85cd15-1092");
    let widest = new_id(u128::MAX, u32::MAX);
    assert_eq!(widest, format!("{}-{}", "f".repeat(32), "f".repeat(8)));
    assert!(safe_id(&widest));
}

#[test]
fn new_ids_from_2_pow_20_ns_on_are_well_formed() {
    assert_eq!(new_id(0x100000, 1), "100000-1");
    assert!(safe_id(&new_id(0x100000, 1)));
    assert!(!safe_id(&new_id(0xfffff, 1)));
    assert!(safe_id(&new_id(1_700_000_000_000_000_000, 77)));
}

#[test]
fn finalized_recordings_are_found_under_their_id() {
    for (mime, ext, served) in [
        ("audio/webm;codecs=opus", "webm", "audio/webm"),
        (" audio/ogg ", "ogg", "audio/ogg"),
        ("audio/mp4", "m4a", "audio/mp4"),
        ("video/x-matroska", "bin", "application/octet-stream"),
    ] {
        let id = new_id(0x18a3f0c2b4d5, 0x1f2a);
        let mut book = RecordingBook::new();
        book.start(id.clone(), mime.to_string(), Moment::from_unix(1, 0).unwrap());
        book.append(&id, 3);
        book.append(&id, 4);
        let done = book.finalize(&id).ok().unwrap();
        assert_eq!(done.file, format!("{id}.{ext}"));
        assert_eq!((done.chunks, done.bytes), (2, 7));
        assert_eq!(listed_recording_id(&done.file), Some(id.clone()));
        assert!(is_recording_audio(&done.file, &id));
        assert_eq!(content_type(&done.file), served);
    }
}

#[test]
fn song_file_names_are_stable_under_a_second_pass() {
    for title in ["  My Song: Live?  ", "...", "a/b\\c", "\tTabbed\t", "x".repeat(100).as_str(), " . . ", "karaoke"] {
        let once = safe_song_filename(title);
        assert_eq!(safe_song_filename(&once), once);
    }
}

#[test]
fn client_log_lines() {
    let at = Moment::from_unix(1_700_000_000, 0).unwrap();
    let line = client_log_line(br#"{"level":"warn","n":2}"#, &at).unwrap();
    let value: serde_json::Value = serde_json::from_str(&line).unwrap();
    let expected: serde_json::Value = serde_json::from_str(
        r#"{"server_time":"2023-11-14T22:13:20+00:00","client":{"level":"warn","n":2}}"#,
    )
    .unwrap();
    assert_eq!(value, expected);

    let raw = client_log_line(b"not json \xff", &at).unwrap();
    let value: serde_json::Value = serde_json::from_str(&raw).unwrap();
    let expected: serde_json::Value = serde_json::from_str(
        r#"{"server_time":"2023-11-14T22:13:20+00:00","client":{"raw":"not json \ufffd"}}"#,
    )
    .unwrap();
    assert_eq!(value, expected);
    assert!(!raw.contains('\n'));

    assert!(client_log_line(&vec![b'x'; 65536], &at).is_some());
    assert!(client_log_line(&vec![b'x'; 65537], &at).is_none());
}

#[test]
fn request_bodies_as_json() {
    assert!(request_json(b"").is_none());
    assert!(request_json(b"{oops").is_none());
    let v = request_json(br#"{"client":"web"}"#).unwrap();
    assert_eq!(v.get("client").and_then(|c| c.as_str()), Some("web"));
    assert!(request_json(b"[1,2]").is_some());
}

#[test]
fn items_follow_the_listing_order() {
    let items = vec!["a", "b", "c", "d"];
    assert_eq!(apply_order(items.clone(), &vec![2, 0, 3, 1]), vec!["c", "a", "d", "b"]);
    assert_eq!(apply_order(items.clone(), &vec![1, 1, 0]), vec!["b", "a"]);
    assert_eq!(apply_order(items, &Vec::new()), Vec::<&str>::new());
    let keys = vec![
        Moment::from_unix(5, 0).unwrap(),
        Moment::from_unix(9, 0).unwrap(),
        Moment::from_unix(7, 0).unwrap(),
    ];
    assert_eq!(apply_order(vec!["five", "nine", "seven"], &newest_first(&keys)), vec!["nine", "seven", "five"]);
}
