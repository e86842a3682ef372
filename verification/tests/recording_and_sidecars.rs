use memolo::recorder::{
    decode_audio_chunk, pcm16le_samples, recording_file_name, recording_format,
    samples_from_decoded, unknown_session_message, unknown_session_path_message, SampleFormat,
};
use memolo::sessions::SessionTable;
use memolo::sidecar::{
    check_sidecar, line_is_blank, next_stdout_action, summarize_outcome, summarize_request_from,
    summarize_request_line, transcribe_outcome, transcribe_request_from, transcribe_request_line,
    Sidecar, StdoutAction, StdoutEvent, WaitReport,
};

#[test]
fn wav_format_and_names() {
    let f = recording_format(48000);
    assert_eq!(f.channels, 1);
    assert_eq!(f.sample_rate, 48000);
    assert_eq!(f.bits_per_sample, 16);
    assert_eq!(f.sample_format, SampleFormat::Int);
    assert_eq!(recording_file_name("abc"), "abc.wav");
    assert_eq!(unknown_session_message("s1"), "unknown session: s1");
    assert_eq!(unknown_session_path_message("s1"), "unknown session path: s1");
}

#[test]
fn pcm_little_endian() {
    assert_eq!(pcm16le_samples(&[0x01, 0x00, 0xff, 0xff, 0x00, 0x80, 0xff, 0x7f]), vec![1, -1, -32768, 32767]);
    assert_eq!(pcm16le_samples(&[0x34, 0x12, 0x99]), vec![0x1234]);
    assert!(pcm16le_samples(&[]).is_empty());
}

#[test]
fn chunk_decoding() {
    assert_eq!(decode_audio_chunk("AQD//w==").unwrap(), vec![1, -1]);
    assert_eq!(decode_audio_chunk("").unwrap(), Vec::<i16>::new());
    assert_eq!(decode_audio_chunk("AQ==").unwrap_err(), "odd byte length: 1");
    assert!(decode_audio_chunk("!!!!").unwrap_err().starts_with("base64 decode: "));
    assert!(decode_audio_chunk("AQD//w").unwrap_err().starts_with("base64 decode: "));
}

#[test]
fn decoded_to_samples() {
    assert_eq!(samples_from_decoded(Ok(vec![2, 0, 3, 1])).unwrap(), vec![2, 259]);
    assert_eq!(samples_from_decoded(Ok(vec![1, 2, 3])).unwrap_err(), "odd byte length: 3");
    assert_eq!(samples_from_decoded(Err("bad".into())).unwrap_err(), "base64 decode: bad");
}

#[test]
fn session_table() {
    let mut t: SessionTable<u32> = SessionTable::new();
    let a = "a".to_string();
    let b = "b".to_string();
    assert!(!t.contains(&a));
    t.insert(a.clone(), 1);
    t.insert(b.clone(), 2);
    assert!(t.contains(&a));
    *t.get_mut(&a).unwrap() += 10;
    assert!(t.get_mut(&"c".to_string()).is_none());
    t.insert(b.clone(), 5);
    assert_eq!(t.remove(&a), Some(11));
    assert_eq!(t.remove(&a), None);
    assert_eq!(t.remove(&b), Some(5));
    assert!(!t.contains(&b));
}

#[test]
fn stdout_lines() {
    assert!(line_is_blank(""));
    assert!(line_is_blank(" \t\u{3000}"));
    assert!(!line_is_blank(" x "));
    assert!(matches!(next_stdout_action(&StdoutEvent::Line("  ".into())), StdoutAction::Skip));
    assert!(matches!(next_stdout_action(&StdoutEvent::Line("{}".into())), StdoutAction::Parse));
    assert!(matches!(next_stdout_action(&StdoutEvent::Closed), StdoutAction::Finish));
    match next_stdout_action(&StdoutEvent::Failed("eof".into())) {
        StdoutAction::Abort(m) => assert_eq!(m, "read stdout: eof"),
        _ => panic!("expected abort"),
    }
}

#[test]
fn sidecar_presence() {
    assert!(check_sidecar(Sidecar::Summarize, true, "/p", true, "/s").is_ok());
    assert_eq!(
        check_sidecar(Sidecar::Summarize, false, "/p", false, "/s").unwrap_err(),
        "sidecar venv が見つかりません: /p\n`cd sidecar && uv sync` を実行してください。"
    );
    assert_eq!(
        check_sidecar(Sidecar::Transcribe, false, "/p", true, "/s").unwrap_err(),
        "sidecar venv が見つかりません: /p\nプロジェクト直下で `cd sidecar && uv venv --python 3.11 && uv sync` を実行してください。"
    );
    assert_eq!(
        check_sidecar(Sidecar::Summarize, true, "/p", false, "/s").unwrap_err(),
        "summarize.py が見つかりません: /s"
    );
    assert_eq!(
        check_sidecar(Sidecar::Transcribe, true, "/p", false, "/s").unwrap_err(),
        "sidecar スクリプトが見つかりません: /s"
    );
}

#[test]
fn request_lines() {
    assert_eq!(summarize_request_line("会議の内容"), "{\"transcript\":\"会議の内容\"}\n");
    assert_eq!(summarize_request_line("a\"b\nc"), "{\"transcript\":\"a\\\"b\\nc\"}\n");
    assert_eq!(
        summarize_request_line("\\\u{1}\u{1f}\t\r\u{8}\u{c}\u{7f}"),
        "{\"transcript\":\"\\\\\\u0001\\u001f\\t\\r\\b\\f\u{7f}\"}\n"
    );
    assert_eq!(
        transcribe_request_line("/tmp/x.wav"),
        "{\"language\":\"ja\",\"wav_path\":\"/tmp/x.wav\"}\n"
    );
    assert_eq!(summarize_request_from("\"q\""), "{\"transcript\":\"q\"}\n");
    assert_eq!(transcribe_request_from("\"p\""), "{\"language\":\"ja\",\"wav_path\":\"p\"}\n");
}

fn exited(success: bool, signaled: bool) -> WaitReport {
    WaitReport::Exited { success, signaled, shown: "exit status: 1".into() }
}

#[test]
fn summarize_endings() {
    assert_eq!(summarize_outcome(None, Some("read stdout: x".into())).unwrap_err(), "cancelled");
    assert_eq!(
        summarize_outcome(Some(exited(true, false)), Some("read stdout: x".into())).unwrap_err(),
        "read stdout: x"
    );
    assert!(summarize_outcome(Some(exited(true, false)), None).is_ok());
    assert_eq!(summarize_outcome(Some(exited(false, true)), None).unwrap_err(), "cancelled");
    assert_eq!(
        summarize_outcome(Some(exited(false, false)), None).unwrap_err(),
        "summarize sidecar exited with exit status: 1"
    );
    assert_eq!(
        summarize_outcome(Some(WaitReport::Failed("io".into())), None).unwrap_err(),
        "wait sidecar: io"
    );
}

#[test]
fn transcribe_endings() {
    assert!(transcribe_outcome(exited(true, false)).is_ok());
    assert_eq!(transcribe_outcome(exited(false, true)).unwrap_err(), "sidecar exited with exit status: 1");
    assert_eq!(transcribe_outcome(WaitReport::Failed("io".into())).unwrap_err(), "wait sidecar: io");
}
