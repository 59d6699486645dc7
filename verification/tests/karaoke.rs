use singeros::clock::Moment;
use singeros::karaoke::{
    choose_duration, valid_start_request, AssetIndex, KaraokeBook, SongAssets, TrackSource,
};
use singeros::recordings::FinalizeError;
use singeros::sessions::ChunkError;

fn at(secs: i64) -> Moment {
    Moment::from_unix(secs, 0).unwrap()
}

#[test]
fn durations() {
    assert_eq!(choose_duration(42, 100), 42);
    assert_eq!(choose_duration(21600, 5), 21600);
    assert_eq!(choose_duration(21601, 5), 5);
    assert_eq!(choose_duration(0, 7), 7);
    assert_eq!(choose_duration(-3, -7), 0);
}

#[test]
fn start_requests_need_song() {
    assert!(valid_start_request("song1", "Title"));
    assert!(!valid_start_request("  ", "Title"));
    assert!(!valid_start_request("song1", "\t"));
}

#[test]
fn karaoke_session_to_recording() {
    let mut book = KaraokeBook::new();
    let started = book.start(
        "18a3f0c2b4d5-1f2a".to_string(),
        "song-1".to_string(),
        "  月亮/代表 ".to_string(),
        "accompaniment".to_string(),
        "audio/webm;codecs=opus".to_string(),
        at(1_700_000_000),
    );
    assert_eq!(started, "2023-11-15 06:13:20");
    assert_eq!(book.check_append("18a3f0c2b4d5-1f2a", 0, 100), Ok(()));
    book.append("18a3f0c2b4d5-1f2a", 100);
    assert_eq!(book.check_append("18a3f0c2b4d5-1f2a", 0, 1), Err(ChunkError::SequenceMismatch { expected: 1 }));
    let plan = book.finalize("18a3f0c2b4d5-1f2a", 0, at(1_700_000_095)).ok().unwrap();
    assert_eq!(plan.record.file, "月亮_代表_20231115_061455.webm");
    assert_eq!(plan.fallback_file, "月亮_代表_20231115_061455_18a3f0c2.webm");
    assert_eq!(plan.record.duration_seconds, 95);
    assert_eq!(plan.record.created_at_shanghai, "2023-11-15 06:14:55");
    assert_eq!(plan.record.started_at_shanghai, "2023-11-15 06:13:20");
    assert_eq!(plan.record.url, "/singeros/api/karaoke/recordings/18a3f0c2b4d5-1f2a/audio");
    assert_eq!(plan.record.bytes, 100);
    assert_eq!(plan.record.song_id, "song-1");
    assert_eq!(plan.record.mode, "accompaniment");
    let kept = plan.settle(true);
    assert_eq!(kept.file, "月亮_代表_20231115_061455_18a3f0c2.webm");
    assert_eq!(kept.id, "18a3f0c2b4d5-1f2a");
    assert_eq!(book.finalize("18a3f0c2b4d5-1f2a", 0, at(1)).err(), Some(FinalizeError::NotActive));
}

#[test]
fn karaoke_claimed_duration_and_eight_byte_ids() {
    let mut book = KaraokeBook::new();
    book.start("100000-1".to_string(), "s".to_string(), "".to_string(), "".to_string(), "".to_string(), at(0));
    let plan = book.finalize("100000-1", 30, at(10)).ok().unwrap();
    assert_eq!(plan.record.duration_seconds, 30);
    assert_eq!(plan.record.file, "karaoke_19700101_080010.bin");
    assert_eq!(plan.fallback_file, "karaoke_19700101_080010_100000-1.bin");
    assert_eq!(plan.settle(false).file, "karaoke_19700101_080010.bin");
}

fn catalog() -> AssetIndex {
    AssetIndex {
        songs: vec![
            SongAssets {
                id: "song-1".to_string(),
                tracks: vec![
                    TrackSource {
                        mode: "original".to_string(),
                        source_type: "local".to_string(),
                        source_file: "File:File:Song One.FLAC".to_string(),
                    },
                    TrackSource {
                        mode: "accompaniment".to_string(),
                        source_type: "remote".to_string(),
                        source_file: "x.mp3".to_string(),
                    },
                ],
            },
            SongAssets {
                id: "song-2".to_string(),
                tracks: vec![TrackSource {
                    mode: "original".to_string(),
                    source_type: "local".to_string(),
                    source_file: "weird.ext-with-dash".to_string(),
                }],
            },
        ],
    }
}

#[test]
fn locating_backing_tracks() {
    let index = catalog();
    let a = index.asset("song-1", "original").unwrap();
    assert_eq!(a.dir, "song-1");
    assert_eq!(a.file, "original.FLAC");
    assert!(index.asset("song-1", "accompaniment").is_none());
    assert!(index.asset("song-1", "karaoke").is_none());
    assert!(index.asset("song-2", "original").is_none());
    assert!(index.asset("song-3", "original").is_none());
    assert!(index.asset("../song-1", "original").is_none());
}
