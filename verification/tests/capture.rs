use voice_capture::capture::{named_devices, AudioRecorder, CaptureWorker, RecorderCommand};
use voice_capture::FULL_SCALE;

#[test]
fn stop_without_start_returns_empty_buffer() {
    let mut recorder = AudioRecorder::new(44100, 2);
    assert!(recorder.stop_recording().is_empty());
}

#[test]
fn recorder_reports_configuration() {
    let recorder = AudioRecorder::new(48000, 1);
    assert_eq!(recorder.sample_rate(), 48000);
    assert_eq!(recorder.channels(), 1);
}

#[test]
fn stop_returns_samples_since_start() {
    let mut recorder = AudioRecorder::new(44100, 1);
    recorder.start_recording(false, 0);
    recorder.ingest_block(&vec![1, 2], 10);
    recorder.ingest_block(&vec![3], 20);
    assert_eq!(recorder.stop_recording(), vec![1, 2, 3]);
    assert_eq!(recorder.recorded_len(), 0);
}

#[test]
fn double_start_resets_buffer() {
    let mut recorder = AudioRecorder::new(44100, 1);
    recorder.start_recording(false, 0);
    recorder.ingest_block(&vec![1, 2], 10);
    recorder.start_recording(false, 20);
    recorder.ingest_block(&vec![3, 4], 30);
    assert_eq!(recorder.stop_recording(), vec![3, 4]);
}

#[test]
fn unsubscribed_session_emits_no_levels() {
    let mut recorder = AudioRecorder::new(44100, 1);
    recorder.start_recording(false, 0);
    assert_eq!(recorder.ingest_block(&vec![1, 2, 3], 100), None);
}

#[test]
fn subscribed_session_emits_levels_in_unit_range() {
    let mut recorder = AudioRecorder::new(44100, 1);
    recorder.start_recording(true, 0);
    // Before the emission interval has passed: no level yet.
    assert_eq!(recorder.ingest_block(&vec![100, -100], 10), None);
    // Once it has: one level, inside [0, FULL_SCALE].
    let level = recorder.ingest_block(&vec![200, -200], 60).expect("a level is due");
    assert!(level <= FULL_SCALE as u32);
    // The window was cleared and the timer reset.
    assert_eq!(recorder.window_len(), 0);
    assert_eq!(recorder.last_emit_ms(), 60);
}

#[test]
fn emitted_level_covers_whole_window_since_last_emission() {
    let mut recorder = AudioRecorder::new(44100, 1);
    recorder.start_recording(true, 0);
    // Two blocks accumulate in the window, then one emission covers both:
    // squares sum to 4 * 328^2 over 4 samples, so the level is 25 * 328.
    assert_eq!(recorder.ingest_block(&vec![328, -328], 10), None);
    assert_eq!(recorder.ingest_block(&vec![-328, 328], 50), Some(8200));
}

#[test]
fn worker_processes_commands_in_order() {
    let mut worker = CaptureWorker::new();
    assert!(worker.handle_command(RecorderCommand::Start { subscribe_level: false }, 0).is_none());
    assert!(worker.is_recording());
    worker.ingest_block(&vec![9, 9], 5);
    assert_eq!(worker.handle_command(RecorderCommand::Stop, 10), Some(vec![9, 9]));
    assert!(!worker.is_recording());
}

#[test]
fn enumeration_skips_nameless_devices() {
    let queried = vec![Some("Mic A".to_string()), None, Some("Mic B".to_string())];
    assert_eq!(named_devices(queried), vec!["Mic A".to_string(), "Mic B".to_string()]);
}

#[test]
fn enumeration_of_nothing_is_empty() {
    assert!(named_devices(Vec::new()).is_empty());
}
