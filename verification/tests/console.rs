use singeros::panel::{badge, panel_buttons, PanelButtons};
use singeros::console::{
    chunk_url, finalize_url, input_label, is_open, recording_mime, set_afs_enabled,
    set_monitor_enabled, set_monitor_gain, set_record_gain, stop_recording, time_domain_energy,
    ChunkUploads, Console, StopStep,
};
use singeros::text::parse_u64;
use singeros::upload::{RequestFailure, UploadAction, UploadRun};

#[test]
fn closed_console_ignores_settings() {
    let mut c = Console::new();
    assert!(!is_open(&c));
    assert_eq!(set_record_gain(&c, 100), None);
    assert_eq!(set_monitor_gain(&mut c, 50), None);
    assert_eq!(set_monitor_enabled(&mut c, true), None);
    assert_eq!(set_afs_enabled(&mut c, false), None);
    assert_eq!(stop_recording(&c), Err("recording is not active".to_string()));
}

#[test]
fn monitor_plays_only_when_enabled() {
    let mut c = Console::new();
    assert_eq!(c.open_engine(), 170);
    assert!(is_open(&c));
    assert_eq!(set_record_gain(&c, 450), Some(300));
    assert_eq!(set_record_gain(&c, 120), Some(120));
    assert_eq!(set_monitor_gain(&mut c, 250), None);
    assert_eq!(set_monitor_enabled(&mut c, true), Some(200));
    assert_eq!(set_monitor_gain(&mut c, 80), Some(80));
    assert_eq!(set_monitor_enabled(&mut c, false), Some(0));
    assert_eq!(set_monitor_enabled(&mut c, true), Some(80));
    assert_eq!(set_afs_enabled(&mut c, false), Some(false));
    assert_eq!(c.recording_started(), Ok(()));
    assert_eq!(stop_recording(&c), Ok(()));
    c.close();
    assert!(!is_open(&c));
}

#[test]
fn energy_of_samples() {
    assert_eq!(time_domain_energy(&vec![128, 128]), 0);
    assert_eq!(time_domain_energy(&vec![128, 0, 255]), 16384 + 16129);
    assert_eq!(time_domain_energy(&Vec::new()), 0);
}

#[test]
fn uploads_wait_for_pending_chunks() {
    let mut u = ChunkUploads::new();
    assert!(matches!(u.stop_step(), StopStep::Finalize));
    assert_eq!(u.on_data(false), Some(0));
    assert_eq!(u.on_data(true), None);
    assert_eq!(u.on_data(false), Some(1));
    assert!(matches!(u.stop_step(), StopStep::Wait));
    u.on_upload_done(Ok(()));
    u.on_upload_done(Err("offline".to_string()));
    match u.stop_step() {
        StopStep::Fail(e) => assert_eq!(e, "offline"),
        _ => panic!("expected a failure"),
    }
}

#[test]
fn urls_and_labels() {
    let url = chunk_url("/singeros/api/karaoke/recordings", "abc", 12);
    assert_eq!(url, "/singeros/api/karaoke/recordings/abc/chunk?seq=12");
    assert_eq!(parse_u64(url.rsplit('=').next().unwrap()), Some(12));
    assert_eq!(finalize_url("/b", "abc"), "/b/abc/finalize");
    assert_eq!(recording_mime(""), "audio/webm");
    assert_eq!(recording_mime("audio/ogg"), "audio/ogg");
    assert_eq!(input_label("", 0), "麦克风 1");
    assert_eq!(input_label("USB Mic", 3), "USB Mic");
}

fn report(a: UploadAction) -> String {
    match a {
        UploadAction::Report { status } => status,
        _ => panic!("expected a report"),
    }
}

#[test]
fn upload_run_in_order() {
    let mut run = UploadRun::new(2);
    match run.on_started(Ok(Some("abcdef12".to_string()))) {
        UploadAction::PostChunk { seq, url } => {
            assert_eq!(seq, 0);
            assert_eq!(url, "/singeros/api/recordings/abcdef12/chunk?seq=0");
        }
        _ => panic!("expected the first chunk"),
    }
    match run.on_chunk_sent(Ok(())) {
        UploadAction::PostChunk { seq, url } => {
            assert_eq!(seq, 1);
            assert_eq!(url, "/singeros/api/recordings/abcdef12/chunk?seq=1");
        }
        _ => panic!("expected the second chunk"),
    }
    match run.on_chunk_sent(Ok(())) {
        UploadAction::PostFinalize { url } => assert_eq!(url, "/singeros/api/recordings/abcdef12/finalize"),
        _ => panic!("expected finalizing"),
    }
    assert_eq!(report(run.on_finalized(Ok(()))), "录音已保存 · abcdef12");
}

#[test]
fn upload_run_failures() {
    let mut run = UploadRun::new(0);
    assert_eq!(report(run.on_started(Ok(None))), "录音会话缺少 id");
    let mut run = UploadRun::new(0);
    assert_eq!(report(run.on_started(Err(RequestFailure::Http(500)))), "创建录音失败：HTTP 500");
    let mut run = UploadRun::new(3);
    run.on_started(Ok(Some("abcdef12".to_string())));
    run.on_chunk_sent(Ok(()));
    assert_eq!(report(run.on_chunk_sent(Err(RequestFailure::Http(409)))), "录音分片 1 上传失败：HTTP 409");
    let mut run = UploadRun::new(0);
    match run.on_started(Ok(Some("abcdef12".to_string()))) {
        UploadAction::PostFinalize { .. } => {}
        _ => panic!("expected finalizing"),
    }
    assert_eq!(report(run.on_finalized(Err(RequestFailure::Send("down".to_string())))), "录音完成失败：down");
}

#[test]
fn recording_needs_an_open_engine() {
    let mut c = Console::new();
    assert_eq!(c.recording_started(), Err("microphone is not open".to_string()));
    assert_eq!(stop_recording(&c), Err("recording is not active".to_string()));
}

#[test]
fn upload_run_numbers_non_empty_chunks_in_order() {
    let mut u = ChunkUploads::new();
    let delivered = [false, true, false, false, true, false];
    let mut numbers = Vec::new();
    for empty in delivered {
        if let Some(seq) = u.on_data(empty) {
            numbers.push(seq);
        }
    }
    assert_eq!(numbers, vec![0, 1, 2, 3]);
    assert_eq!(u.next_seq, 4);
    assert_eq!(u.pending, 4);
    for _ in 0..3 {
        u.on_upload_done(Ok(()));
        assert!(matches!(u.stop_step(), StopStep::Wait));
    }
    u.on_upload_done(Ok(()));
    assert!(matches!(u.stop_step(), StopStep::Finalize));
}

#[test]
fn upload_run_reports_the_last_failure() {
    let mut u = ChunkUploads::new();
    u.on_data(false);
    u.on_data(false);
    u.on_data(false);
    u.on_upload_done(Err("first".to_string()));
    u.on_upload_done(Ok(()));
    assert!(matches!(u.stop_step(), StopStep::Wait));
    u.on_upload_done(Err("second".to_string()));
    match u.stop_step() {
        StopStep::Fail(e) => assert_eq!(e, "second"),
        _ => panic!("expected a failure"),
    }
}

#[test]
fn panel_badge_and_buttons() {
    assert_eq!(badge(false, false), "● RUST ONLINE");
    assert_eq!(badge(true, false), "● MIC READY");
    assert_eq!(badge(true, true), "● RECORDING");
    assert_eq!(
        panel_buttons(false, false),
        PanelButtons { request_microphone: true, start: false, stop: false }
    );
    assert_eq!(
        panel_buttons(true, false),
        PanelButtons { request_microphone: false, start: true, stop: false }
    );
    assert_eq!(
        panel_buttons(true, true),
        PanelButtons { request_microphone: false, start: false, stop: true }
    );
}
