use singeros::karaoke::{AssetIndex, SongAssets, TrackSource};
use singeros::names::{safe_component, safe_id, safe_song_filename};

#[test]
fn ids_are_safe_components() {
    for id in ["abcdef12", "18a3f0c2b4d5e6f7-1f2a", "A_B-C_D-E"] {
        assert!(safe_id(id));
        assert!(safe_component(id));
    }
}

#[test]
fn song_stems_are_plain_file_names() {
    for title in ["", "...", "../../etc/passwd", "a\\b", "\u{1}\u{2}", &"ü".repeat(200), "  .  "] {
        let stem = safe_song_filename(title);
        assert!(!stem.is_empty());
        assert!(stem.chars().count() <= 80);
        assert!(!stem.chars().any(|c| "\\/:*?\"<>|".contains(c) || c.is_control()));
    }
    assert_eq!(safe_song_filename("../../etc/passwd"), "_.._etc_passwd");
}

#[test]
fn located_assets_are_plain_names() {
    let index = AssetIndex {
        songs: vec![SongAssets {
            id: "song".to_string(),
            tracks: vec![TrackSource {
                mode: "accompaniment".to_string(),
                source_type: "local".to_string(),
                source_file: "../../x/track.ogg".to_string(),
            }],
        }],
    };
    let a = index.asset("song", "accompaniment").unwrap();
    assert_eq!(a.file, "accompaniment.ogg");
    assert!(!a.file.contains('/'));
    assert!(safe_component(&a.dir));
}
