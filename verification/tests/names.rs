use singeros::names::{
    content_type, ext_for_mime, file_extension, file_stem, safe_component, safe_id,
    safe_relative_path, safe_song_filename,
};

#[test]
fn safe_id_accepts_only_short_plain_ids() {
    assert!(safe_id("abcdef12"));
    assert!(safe_id("18a3f0c2b4d5e6f7-1f2a"));
    assert!(safe_id("abcd-efg_h"));
    assert!(!safe_id("short"));
    assert!(!safe_id(&"a".repeat(97)));
    assert!(safe_id(&"a".repeat(96)));
    assert!(!safe_id("abc/defgh"));
    assert!(!safe_id("abcdefg.h"));
    assert!(!safe_id("abcdéfgh"));
}

#[test]
fn safe_component_refuses_traversal() {
    assert!(safe_component("song-1.mp3"));
    assert!(safe_component("a.b.c"));
    assert!(!safe_component("a..b"));
    assert!(!safe_component(".."));
    assert!(!safe_component(""));
    assert!(!safe_component("a/b"));
    assert!(!safe_component(&"x".repeat(129)));
    assert!(safe_component(&"x".repeat(128)));
}

#[test]
fn safe_relative_path_cases() {
    assert!(safe_relative_path("app/main.js"));
    assert!(safe_relative_path("index.html"));
    assert!(safe_relative_path("a/.../b"));
    assert!(!safe_relative_path(""));
    assert!(!safe_relative_path("/etc/passwd"));
    assert!(!safe_relative_path("a//b"));
    assert!(!safe_relative_path("a/./b"));
    assert!(!safe_relative_path("a/../b"));
    assert!(!safe_relative_path(".."));
    assert!(!safe_relative_path("a/"));
}

#[test]
fn song_file_names() {
    assert_eq!(safe_song_filename("  My Song  "), "My Song");
    assert_eq!(safe_song_filename("a/b:c*d?e\"f<g>h|i\\j"), "a_b_c_d_e_f_g_h_i_j");
    assert_eq!(safe_song_filename("..."), "karaoke");
    assert_eq!(safe_song_filename("   "), "karaoke");
    assert_eq!(safe_song_filename(""), "karaoke");
    assert_eq!(safe_song_filename(" .hidden. "), "hidden");
    assert_eq!(safe_song_filename("\u{7}x\u{85}"), "_x");
    assert_eq!(safe_song_filename(&"x".repeat(100)), "x".repeat(80));
    assert_eq!(safe_song_filename("月亮代表我的心"), "月亮代表我的心");
    let long = format!("{}.", "y".repeat(79));
    assert_eq!(safe_song_filename(&format!("{long}zzz")), "y".repeat(79));
}

#[test]
fn mime_extensions() {
    assert_eq!(ext_for_mime("audio/webm;codecs=opus"), ".webm");
    assert_eq!(ext_for_mime(" audio/ogg ; codecs=opus"), ".ogg");
    assert_eq!(ext_for_mime("audio/mp4"), ".m4a");
    assert_eq!(ext_for_mime("video/webm"), ".bin");
    assert_eq!(ext_for_mime("AUDIO/WEBM"), ".bin");
    assert_eq!(ext_for_mime(""), ".bin");
}

#[test]
fn content_types_by_extension() {
    assert_eq!(content_type("/opt/singeros/web/index.HTML"), "text/html; charset=utf-8");
    assert_eq!(content_type("pkg/app_bg.wasm"), "application/wasm");
    assert_eq!(content_type("app.js"), "text/javascript; charset=utf-8");
    assert_eq!(content_type("style.css"), "text/css; charset=utf-8");
    assert_eq!(content_type("x.json"), "application/json");
    assert_eq!(content_type("take.webm"), "audio/webm");
    assert_eq!(content_type("take.opus"), "audio/ogg");
    assert_eq!(content_type("take.OGG"), "audio/ogg");
    assert_eq!(content_type("take.mp4"), "audio/mp4");
    assert_eq!(content_type("take.m4a"), "audio/mp4");
    assert_eq!(content_type("take.wav"), "audio/wav");
    assert_eq!(content_type("README"), "application/octet-stream");
    assert_eq!(content_type(".bashrc"), "application/octet-stream");
}

#[test]
fn extensions_and_stems_follow_std() {
    assert_eq!(file_extension("a/b.tar.gz").as_deref(), Some("gz"));
    assert_eq!(file_extension(".hidden"), None);
    assert_eq!(file_extension("a."), Some(String::new()));
    assert_eq!(file_stem("dir/take.webm").as_deref(), Some("take"));
    assert_eq!(file_stem(".hidden").as_deref(), Some(".hidden"));
    assert_eq!(file_stem(""), None);
}

#[test]
fn extensions_and_stems_of_paths_with_directories() {
    let cases: [(&str, Option<&str>, Option<&str>); 12] = [
        ("a/", None, Some("a")),
        ("a/.", None, Some("a")),
        ("a/b/..", None, None),
        ("/", None, None),
        (".", None, None),
        ("..", None, None),
        ("./.", None, None),
        ("a//b.c/", Some("c"), Some("b")),
        ("/x/.bashrc", None, Some(".bashrc")),
        ("a/b..", Some(""), Some("b.")),
        ("./x.ogg", Some("ogg"), Some("x")),
        ("a/./b.webm/./", Some("webm"), Some("b")),
    ];
    for (path, ext, stem) in cases {
        assert_eq!(file_extension(path).as_deref(), ext, "extension of {path:?}");
        assert_eq!(file_stem(path).as_deref(), stem, "stem of {path:?}");
    }
}
