//! The background service's policies: the debug flag, where files go, log lines and the
//! log size limit, retrying a busy clipboard, and when to fetch the filter list again.
use vstd::prelude::*;
use crate::text::{chars_eq, chars_of, contains_literal, contains_seq, push_str};

verus! {

// ----------------------------------------------------------------------------
// Command line
// ----------------------------------------------------------------------------

/// The program runs in debug mode when one of its arguments is `--debug` or `-d`.
pub open spec fn debug_requested_spec(args: Seq<Seq<char>>) -> bool {
    exists|i: int|
        0 <= i < args.len() && (#[trigger] args[i] == "--debug"@ || args[i] == "-d"@)
}

/// Whether one of the arguments asks for debug mode.
pub fn debug_requested(args: &Vec<String>) -> (r: bool)
    ensures
        r == debug_requested_spec(args@.map_values(|a: String| a@)),
{
    let ghost v = args@.map_values(|a: String| a@);
    let long = chars_of("--debug");
    let short = chars_of("-d");
    let n = args.len();
    for i in 0..n
        invariant
            n == args@.len(),
            v == args@.map_values(|a: String| a@),
            long@ == "--debug"@,
            short@ == "-d"@,
            forall|j: int| 0 <= j < i ==> !(#[trigger] v[j] == "--debug"@ || v[j] == "-d"@),
    {
        let a = chars_of(args[i].as_str());
        assert(v[i as int] == args@[i as int]@);
        if chars_eq(&a, &long) || chars_eq(&a, &short) {
            return true;
        }
    }
    false
}

// ----------------------------------------------------------------------------
// Where files go
// ----------------------------------------------------------------------------

/// Logs and the filter-list cache go next to the executable when the program is
/// installed (a `config.toml` beside it, or a path under `AppData`), else to the
/// working directory.
pub open spec fn use_exe_dir_spec(exe_path: Seq<char>, config_beside_exe: bool) -> bool {
    config_beside_exe || contains_seq(exe_path, "AppData"@)
}

/// Whether files go next to the executable rather than in the working directory.
pub fn use_exe_dir(exe_path: &str, config_beside_exe: bool) -> (r: bool)
    ensures
        r == use_exe_dir_spec(exe_path@, config_beside_exe),
{
    config_beside_exe || contains_literal(&chars_of(exe_path), &chars_of("AppData"))
}

// ----------------------------------------------------------------------------
// Log files
// ----------------------------------------------------------------------------

/// A log file larger than this many bytes is cleared before writing.
pub const LOG_SIZE_LIMIT: u64 = 5 * 1024 * 1024;

/// Whether a log file of the given size must be cleared first.
pub fn log_needs_clearing(size: u64) -> (r: bool)
    ensures
        r == (size > 5 * 1024 * 1024),
{
    size > LOG_SIZE_LIMIT
}

/// The line a cleared log file starts with.
pub fn log_cleared_notice() -> (r: String)
    ensures
        r@ == "[Info] Log file cleared due to size limit exceeded (5 MB).\n"@,
{
    "[Info] Log file cleared due to size limit exceeded (5 MB).\n".to_owned()
}

/// Whether a message is written to the log: errors always are; anything else only in
/// debug mode.
pub open spec fn should_log_spec(is_error: bool, is_debug: bool) -> bool {
    is_error || is_debug
}

/// Whether a message is written to the log.
pub fn should_log(is_error: bool, is_debug: bool) -> (r: bool)
    ensures
        r == should_log_spec(is_error, is_debug),
{
    is_error || is_debug
}

/// The name of the one log file, kept in the configuration directory.
pub fn log_file_name() -> (r: String)
    ensures
        r@ == "replacer.log"@,
{
    "replacer.log".to_owned()
}

/// A log line: the timestamp in brackets, a space, the message and a line feed.
pub open spec fn log_line_spec(timestamp: Seq<char>, msg: Seq<char>) -> Seq<char> {
    seq!['['] + timestamp + seq![']', ' '] + msg + seq!['\n']
}

/// The log line for a message at the given (already formatted) time.
pub fn format_log_line(timestamp: &str, msg: &str) -> (r: String)
    ensures
        r@ == log_line_spec(timestamp@, msg@),
{
    let mut out = String::new();
    crate::text::push_char(&mut out, '[');
    push_str(&mut out, timestamp);
    crate::text::push_char(&mut out, ']');
    crate::text::push_char(&mut out, ' ');
    push_str(&mut out, msg);
    crate::text::push_char(&mut out, '\n');
    assert(out@ =~= log_line_spec(timestamp@, msg@));
    out
}

// ----------------------------------------------------------------------------
// A busy clipboard
// ----------------------------------------------------------------------------

/// How many times in a row the clipboard may be found occupied before giving up.
pub const CLIPBOARD_ATTEMPTS: u32 = 5;

/// Milliseconds to wait before trying an occupied clipboard again.
pub const CLIPBOARD_RETRY_MILLIS: u64 = 20;

/// Counts the times one clipboard access found the clipboard occupied.
pub struct RetryCounter {
    pub attempts: u32,
}

impl RetryCounter {
    /// No attempt has failed yet.
    pub fn new() -> (r: Self)
        ensures
            r.attempts == 0,
    {
        RetryCounter { attempts: 0 }
    }

    /// Records that the clipboard was occupied; whether to give up (on the fifth time)
    /// rather than wait and try again.
    pub fn give_up_after_occupied(&mut self) -> (give_up: bool)
        requires
            old(self).attempts < CLIPBOARD_ATTEMPTS,
        ensures
            final(self).attempts == old(self).attempts + 1,
            give_up == (final(self).attempts >= CLIPBOARD_ATTEMPTS),
            !give_up ==> final(self).attempts < CLIPBOARD_ATTEMPTS,
    {
        self.attempts = self.attempts + 1;
        self.attempts >= CLIPBOARD_ATTEMPTS
    }
}

/// Starting from no failure, an access gives up exactly on the fifth occupied result in
/// a row, so the clipboard is tried at most five times.
pub proof fn lemma_gives_up_on_fifth(k: u32)
    requires
        k < CLIPBOARD_ATTEMPTS,
    ensures
        (k + 1 >= CLIPBOARD_ATTEMPTS) <==> k == 4,
{
}

// ----------------------------------------------------------------------------
// Fetching the filter list
// ----------------------------------------------------------------------------

/// Seconds before the first retry of a failed download.
pub const FIRST_RETRY_SECS: u64 = 60;

/// The longest wait between retries, in seconds.
pub const MAX_RETRY_SECS: u64 = 60 * 60;

/// The wait after a successful download, in seconds.
pub const REFRESH_SECS: u64 = 12 * 60 * 60;

/// When to download the filter list again: the retry delay doubles after each failure,
/// up to an hour, and starts over after a success.
pub struct FetchSchedule {
    pub retry_delay_secs: u64,
}

/// Every reachable delay lies between the first and the longest.
pub open spec fn schedule_wf(s: FetchSchedule) -> bool {
    FIRST_RETRY_SECS <= s.retry_delay_secs <= MAX_RETRY_SECS
}

/// The delay after a failure: double the previous one, at most an hour.
pub open spec fn next_retry_delay(secs: u64) -> u64 {
    if 2 * secs < MAX_RETRY_SECS {
        (2 * secs) as u64
    } else {
        MAX_RETRY_SECS
    }
}

impl FetchSchedule {
    /// The schedule before the first download.
    pub fn new() -> (s: Self)
        ensures
            s.retry_delay_secs == FIRST_RETRY_SECS,
            schedule_wf(s),
    {
        FetchSchedule { retry_delay_secs: FIRST_RETRY_SECS }
    }

    /// After a successful download: wait twelve hours, and start retries over.
    pub fn after_success(&mut self) -> (sleep_secs: u64)
        ensures
            sleep_secs == REFRESH_SECS,
            final(self).retry_delay_secs == FIRST_RETRY_SECS,
    {
        self.retry_delay_secs = FIRST_RETRY_SECS;
        REFRESH_SECS
    }

    /// After a failed download: wait the current delay; the next one is doubled, at
    /// most an hour.
    pub fn after_failure(&mut self) -> (sleep_secs: u64)
        requires
            schedule_wf(*old(self)),
        ensures
            sleep_secs == old(self).retry_delay_secs,
            final(self).retry_delay_secs == next_retry_delay(old(self).retry_delay_secs),
            schedule_wf(*final(self)),
    {
        let current = self.retry_delay_secs;
        let doubled = current * 2;
        self.retry_delay_secs = if doubled < MAX_RETRY_SECS {
            doubled
        } else {
            MAX_RETRY_SECS
        };
        current
    }
}

/// A downloaded list replaces the rules in use only when it yields at least one rule.
pub fn should_install_rules(parsed_count: usize) -> (r: bool)
    ensures
        r == (parsed_count > 0),
{
    parsed_count > 0
}

} // verus!
