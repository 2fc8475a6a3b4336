use ntop::log::streamer::LogStreamer;

#[test]
fn test_new_streamer_has_no_source() {
    let streamer = LogStreamer::new();
    assert!(!streamer.has_source());
    assert!(streamer.source_path().is_none());
    assert!(streamer.buffer().is_empty());
}

#[test]
fn test_poll_new_lines_no_file_returns_empty() {
    let mut streamer = LogStreamer::new();
    let new_lines = streamer.record_lines(Vec::new());
    assert!(new_lines.is_empty());
}

#[test]
fn test_record_lines_strips_line_endings() {
    let mut streamer = LogStreamer::opened("/tmp/app.log".to_string());
    let new_lines = streamer.record_lines(vec!["line one\n".to_string(), "line two\r\n".to_string(), "tail".to_string()]);
    assert_eq!(new_lines, vec!["line one", "line two", "tail"]);
    assert!(streamer.has_source());
    assert_eq!(streamer.source_path().unwrap(), "/tmp/app.log");
}

#[test]
fn test_buffer_accumulates_across_records() {
    let mut streamer = LogStreamer::opened("app.log".to_string());
    streamer.record_lines(vec!["first\n".to_string()]);
    streamer.record_lines(vec!["second\n".to_string()]);
    let lines: Vec<&str> = streamer.buffer().iter().map(|s| s.as_str()).collect();
    assert_eq!(lines, vec!["first", "second"]);
}

#[test]
fn test_buffer_keeps_last_1000_lines() {
    let mut streamer = LogStreamer::opened("app.log".to_string());
    let raw: Vec<String> = (0..1100).map(|i| format!("line {}\n", i)).collect();
    streamer.record_lines(raw);
    assert_eq!(streamer.buffer().len(), 1000);
    assert_eq!(streamer.buffer().front().unwrap(), "line 100");
    assert_eq!(streamer.buffer().back().unwrap(), "line 1099");
}

#[test]
fn test_pick_most_recent_log() {
    assert_eq!(LogStreamer::pick_most_recent(&vec![]), None);
    assert_eq!(LogStreamer::pick_most_recent(&vec![5, 9, 2]), Some(1));
    assert_eq!(LogStreamer::pick_most_recent(&vec![7, 3, 7]), Some(0));
    assert_eq!(LogStreamer::pick_most_recent(&vec![-4, -1]), Some(1));
}

#[test]
fn test_log_patterns_and_proc_path() {
    let p = LogStreamer::log_patterns();
    assert_eq!(p.len(), 7);
    assert_eq!(p[0], "*.log");
    assert_eq!(p[6], "yarn-error.log");
    assert_eq!(LogStreamer::proc_stdout_path(4242), "/proc/4242/fd/1");
}
