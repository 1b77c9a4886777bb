use clipboard_replacer::monitor::{
    get_clipboard_holder_info, holder_is_lock_screen, write_failure_message, ClipboardError,
    HolderProbe, HolderWindow, Monitor, ReadAction, ReadOutcome,
};
use clipboard_replacer::service::{
    debug_requested, format_log_line, log_cleared_notice, log_file_name, log_needs_clearing, should_log,
    should_install_rules, use_exe_dir, FetchSchedule, RetryCounter,
};

fn probe(window: HolderWindow, pid: u32, name: Option<&str>) -> HolderProbe {
    HolderProbe { window, pid, image_name: name.map(|n| n.to_string()) }
}

#[test]
fn holder_descriptions() {
    assert_eq!(get_clipboard_holder_info(&probe(HolderWindow::Missing, 5, Some("a.exe"))), None);
    assert_eq!(
        get_clipboard_holder_info(&probe(HolderWindow::ClipboardOwner, 1234, Some("notepad.exe"))),
        Some("notepad.exe (PID 1234)".to_string())
    );
    assert_eq!(
        get_clipboard_holder_info(&probe(HolderWindow::Foreground, 7, Some("x.exe"))),
        Some("x.exe (PID 7) (Foreground Window)".to_string())
    );
    assert_eq!(
        get_clipboard_holder_info(&probe(HolderWindow::ClipboardOwner, 0, None)),
        Some("Unknown Process (PID 0)".to_string())
    );
    assert_eq!(
        get_clipboard_holder_info(&probe(HolderWindow::Foreground, 0, Some("ignored.exe"))),
        Some("Unknown Process (PID 0) (Foreground Window)".to_string())
    );
    assert_eq!(
        get_clipboard_holder_info(&probe(HolderWindow::ClipboardOwner, 4294967295, None)),
        Some("Unknown Process (PID 4294967295)".to_string())
    );
}

#[test]
fn lock_screen_detection() {
    assert!(holder_is_lock_screen("LockApp.exe (PID 3)"));
    assert!(holder_is_lock_screen("LogonUI.exe (PID 3) (Foreground Window)"));
    assert!(!holder_is_lock_screen("explorer.exe (PID 3)"));
}

#[test]
fn write_failure_messages() {
    assert_eq!(
        write_failure_message(&ClipboardError::Occupied, &Some("a.exe (PID 1)".to_string())),
        Some("Failed to write to clipboard: Clipboard occupied by a.exe (PID 1)".to_string())
    );
    assert_eq!(
        write_failure_message(&ClipboardError::Occupied, &None),
        Some("Failed to write to clipboard: Clipboard occupied by another party".to_string())
    );
    assert_eq!(
        write_failure_message(&ClipboardError::Occupied, &Some("LockApp.exe (PID 1)".to_string())),
        None
    );
    assert_eq!(
        write_failure_message(&ClipboardError::Other("boom".to_string()), &Some("LockApp.exe".to_string())),
        Some("Failed to write to clipboard: boom".to_string())
    );
}

fn is_process(a: &ReadAction, expected: &str) -> bool {
    matches!(a, ReadAction::Process(t) if t == expected)
}

fn is_idle(a: &ReadAction) -> bool {
    matches!(a, ReadAction::Idle)
}

#[test]
fn new_text_is_processed_once() {
    let mut m = Monitor::new(Some("old".to_string()));
    assert!(is_idle(&m.on_read(ReadOutcome::Text("old".to_string()), None)));
    assert!(is_process(&m.on_read(ReadOutcome::Text("new".to_string()), None), "new"));
    assert!(is_idle(&m.on_read(ReadOutcome::Text("new".to_string()), None)));
    m.on_written("rewritten".to_string());
    assert!(is_idle(&m.on_read(ReadOutcome::Text("rewritten".to_string()), None)));
}

#[test]
fn empty_clipboard_forgets_last_text() {
    let mut m = Monitor::new(Some("a".to_string()));
    assert!(is_idle(&m.on_read(ReadOutcome::ContentNotAvailable, None)));
    assert_eq!(m.last_content, None);
    assert!(is_process(&m.on_read(ReadOutcome::Text("a".to_string()), None), "a"));
}

#[test]
fn read_errors_logged_once_per_message() {
    let mut m = Monitor::new(Some("hello\nworld".to_string()));
    let a = m.on_read(ReadOutcome::Failed(ClipboardError::Occupied), Some("app.exe (PID 9)".to_string()));
    match a {
        ReadAction::Log(line) => assert_eq!(
            line,
            "Clipboard read error: Clipboard occupied by app.exe (PID 9) (Last known content: 'hello world')"
        ),
        _ => panic!("expected a log line"),
    }
    let again = m.on_read(ReadOutcome::Failed(ClipboardError::Occupied), Some("app.exe (PID 9)".to_string()));
    assert!(is_idle(&again));
    let other = m.on_read(ReadOutcome::Failed(ClipboardError::Other("bad".to_string())), None);
    match other {
        ReadAction::Log(line) => {
            assert_eq!(line, "Clipboard read error: bad (Last known content: 'hello world')")
        }
        _ => panic!("expected a log line"),
    }
}

#[test]
fn read_error_without_known_content_and_lock_screen() {
    let mut m = Monitor::new(None);
    match m.on_read(ReadOutcome::Failed(ClipboardError::Occupied), None) {
        ReadAction::Log(line) => assert_eq!(
            line,
            "Clipboard read error: Clipboard occupied by another party (Last known content: None)"
        ),
        _ => panic!("expected a log line"),
    }
    let mut m = Monitor::new(None);
    assert!(is_idle(&m.on_read(ReadOutcome::Failed(ClipboardError::Occupied), Some("LockApp.exe (PID 1)".to_string()))));
    assert!(m.last_error.is_some());
    assert!(is_idle(&m.on_read(ReadOutcome::Text("t".to_string()), None)) == false);
    assert!(m.last_error.is_none());
}

#[test]
fn config_checked_every_fourth_poll() {
    let mut m = Monitor::new(None);
    let checks: Vec<bool> = (0..9).map(|_| m.begin_poll()).collect();
    assert_eq!(checks, vec![true, false, false, false, true, false, false, false, true]);
    m.loop_count = u32::MAX;
    assert!(!m.begin_poll());
    assert_eq!(m.loop_count, 0);
    assert!(m.begin_poll());
}

#[test]
fn debug_flag() {
    assert!(debug_requested(&vec!["prog".to_string(), "--debug".to_string()]));
    assert!(debug_requested(&vec!["prog".to_string(), "-d".to_string()]));
    assert!(!debug_requested(&vec!["prog".to_string(), "--debugx".to_string()]));
    assert!(!debug_requested(&vec![]));
}

#[test]
fn install_directory_choice() {
    assert!(use_exe_dir(r"C:\Users\me\AppData\Roaming\clipboard-replacer\c.exe", false));
    assert!(use_exe_dir("/opt/app/c", true));
    assert!(!use_exe_dir("/opt/app/c", false));
}

#[test]
fn log_policies() {
    assert!(!log_needs_clearing(5 * 1024 * 1024));
    assert!(log_needs_clearing(5 * 1024 * 1024 + 1));
    assert_eq!(log_cleared_notice(), "[Info] Log file cleared due to size limit exceeded (5 MB).\n");
    assert!(!should_log(false, false));
    assert!(should_log(true, false));
    assert!(should_log(false, true));
    assert!(should_log(true, true));
    assert_eq!(log_file_name(), "replacer.log");
    assert_eq!(format_log_line("2024-01-02 03:04:05", "hi"), "[2024-01-02 03:04:05] hi\n");
}

#[test]
fn clipboard_retry_gives_up_on_fifth_occupied() {
    let mut r = RetryCounter::new();
    let results: Vec<bool> = (0..5).map(|_| r.give_up_after_occupied()).collect();
    assert_eq!(results, vec![false, false, false, false, true]);
}

#[test]
fn fetch_backoff_doubles_up_to_an_hour() {
    let mut s = FetchSchedule::new();
    let waits: Vec<u64> = (0..8).map(|_| s.after_failure()).collect();
    assert_eq!(waits, vec![60, 120, 240, 480, 960, 1920, 3600, 3600]);
    assert_eq!(s.after_success(), 12 * 60 * 60);
    assert_eq!(s.after_failure(), 60);
    assert!(should_install_rules(1));
    assert!(!should_install_rules(0));
}
