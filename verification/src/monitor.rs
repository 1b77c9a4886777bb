//! Watching the clipboard: what each poll decides (process new text, log an error, or
//! nothing), what is reported when writing fails, and who holds the clipboard.
use vstd::prelude::*;
use crate::text::{chars_of, contains_literal, contains_seq, push_char, push_str, truncate_str, truncated};

verus! {

// ----------------------------------------------------------------------------
// Numbers as text
// ----------------------------------------------------------------------------

/// The decimal digit for a value below ten.
pub open spec fn digit_char(d: int) -> char {
    seq!['0', '1', '2', '3', '4', '5', '6', '7', '8', '9'][d]
}

/// The decimal representation of a number, without leading zeros.
pub open spec fn decimal(n: nat) -> Seq<char>
    decreases n,
{
    if n < 10 {
        seq![digit_char(n as int)]
    } else {
        decimal(n / 10) + seq![digit_char((n % 10) as int)]
    }
}

fn digit(d: u32) -> (c: char)
    requires
        d < 10,
    ensures
        c == digit_char(d as int),
{
    let digits = ['0', '1', '2', '3', '4', '5', '6', '7', '8', '9'];
    let c = digits[d as usize];
    assert(digits@ =~= seq!['0', '1', '2', '3', '4', '5', '6', '7', '8', '9']);
    c
}

/// Appends the decimal representation of `n`.
pub fn push_decimal(out: &mut String, n: u32)
    ensures
        final(out)@ == old(out)@ + decimal(n as nat),
    decreases n,
{
    if n >= 10 {
        push_decimal(out, n / 10);
    }
    push_char(out, digit(n % 10));
    assert(out@ =~= old(out)@ + decimal(n as nat));
}

// ----------------------------------------------------------------------------
// Who holds the clipboard
// ----------------------------------------------------------------------------

/// Which window the clipboard holder was found through.
#[derive(PartialEq, Eq, Structural, Clone, Copy, Debug)]
pub enum HolderWindow {
    /// No window: neither the clipboard's open window nor a foreground window.
    Missing,
    /// The window that has the clipboard open.
    ClipboardOwner,
    /// No window has the clipboard open; the foreground window instead.
    Foreground,
}

/// What the operating system told about the clipboard holder: the window it was found
/// through, the process id of that window (0 when unknown) and the file name of the
/// process image, when it could be read.
pub struct HolderProbe {
    pub window: HolderWindow,
    pub pid: u32,
    pub image_name: Option<String>,
}

/// The description of the clipboard holder: none without a window; otherwise the
/// image name and process id (`Unknown Process` when the process id is 0 or the name
/// could not be read), marked when found through the foreground window.
pub open spec fn holder_description(p: HolderProbe) -> Option<Seq<char>> {
    if p.window == HolderWindow::Missing {
        None
    } else {
        let base = match p.image_name {
            Some(name) if p.pid != 0 => name@ + " (PID "@ + decimal(p.pid as nat) + ")"@,
            _ => "Unknown Process (PID "@ + decimal(p.pid as nat) + ")"@,
        };
        let suffix = if p.window == HolderWindow::Foreground {
            " (Foreground Window)"@
        } else {
            Seq::<char>::empty()
        };
        Some(base + suffix)
    }
}

/// The description of the clipboard holder, from what the system told about it.
pub fn get_clipboard_holder_info(probe: &HolderProbe) -> (r: Option<String>)
    ensures
        match r {
            Some(s) => holder_description(*probe) == Some(s@),
            None => holder_description(*probe) is None,
        },
{
    if probe.window == HolderWindow::Missing {
        return None;
    }
    let mut out = String::new();
    match &probe.image_name {
        Some(name) if probe.pid != 0 => {
            push_str(&mut out, name.as_str());
            push_str(&mut out, " (PID ");
        },
        _ => {
            push_str(&mut out, "Unknown Process (PID ");
        },
    }
    push_decimal(&mut out, probe.pid);
    push_str(&mut out, ")");
    if probe.window == HolderWindow::Foreground {
        push_str(&mut out, " (Foreground Window)");
    }
    proof {
        let d = holder_description(*probe).unwrap();
        assert(out@ =~= d);
    }
    Some(out)
}

/// A holder that is the lock screen or the sign-in screen.
pub open spec fn is_lock_screen(holder: Seq<char>) -> bool {
    contains_seq(holder, "LockApp.exe"@) || contains_seq(holder, "LogonUI.exe"@)
}

/// Whether the holder is the lock screen or the sign-in screen.
pub fn holder_is_lock_screen(holder: &str) -> (r: bool)
    ensures
        r == is_lock_screen(holder@),
{
    let h = chars_of(holder);
    contains_literal(&h, &chars_of("LockApp.exe")) || contains_literal(&h, &chars_of("LogonUI.exe"))
}

// ----------------------------------------------------------------------------
// Clipboard errors and messages
// ----------------------------------------------------------------------------

/// A failed clipboard access: another program has the clipboard open, or some other
/// failure, described.
pub enum ClipboardError {
    Occupied,
    Other(String),
}

/// An error that comes from the lock screen holding the clipboard is not reported.
pub open spec fn from_lock_screen(err: ClipboardError, holder: Option<String>) -> bool {
    match (err, holder) {
        (ClipboardError::Occupied, Some(h)) => is_lock_screen(h@),
        _ => false,
    }
}

/// The message for a failed write.
pub open spec fn write_error_text(err: ClipboardError, holder: Option<String>) -> Seq<char> {
    match err {
        ClipboardError::Occupied => match holder {
            Some(h) => "Clipboard occupied by "@ + h@,
            None => "Clipboard occupied by another party"@,
        },
        ClipboardError::Other(e) => e@,
    }
}

/// What is logged when writing the clipboard fails: nothing when the lock screen holds
/// it, else `Failed to write to clipboard: ` and the message.
pub open spec fn write_failure_log(err: ClipboardError, holder: Option<String>) -> Option<Seq<char>> {
    if from_lock_screen(err, holder) {
        None
    } else {
        Some("Failed to write to clipboard: "@ + write_error_text(err, holder))
    }
}

fn lock_screen_holds(err: &ClipboardError, holder: &Option<String>) -> (r: bool)
    ensures
        r == from_lock_screen(*err, *holder),
{
    match (err, holder) {
        (ClipboardError::Occupied, Some(h)) => holder_is_lock_screen(h.as_str()),
        _ => false,
    }
}

/// The line to log when writing the clipboard failed, if any.
pub fn write_failure_message(err: &ClipboardError, holder: &Option<String>) -> (r: Option<String>)
    ensures
        match r {
            Some(s) => write_failure_log(*err, *holder) == Some(s@),
            None => write_failure_log(*err, *holder) is None,
        },
{
    if lock_screen_holds(err, holder) {
        return None;
    }
    let mut out = "Failed to write to clipboard: ".to_owned();
    match err {
        ClipboardError::Occupied => match holder {
            Some(h) => {
                push_str(&mut out, "Clipboard occupied by ");
                push_str(&mut out, h.as_str());
            },
            None => {
                push_str(&mut out, "Clipboard occupied by another party");
            },
        },
        ClipboardError::Other(e) => {
            push_str(&mut out, e.as_str());
        },
    }
    assert(out@ =~= write_failure_log(*err, *holder).unwrap());
    Some(out)
}

fn push_last_known(out: &mut String, last: &Option<String>)
    ensures
        final(out)@ == old(out)@ + last_known_note_view(opt_view(*last)),
{
    match last {
        Some(l) => {
            push_str(out, " (Last known content: '");
            let t = truncate_str(l.as_str(), 60);
            push_str(out, t.as_str());
            push_str(out, "')");
        },
        None => {
            push_str(out, " (Last known content: None)");
        },
    }
    assert(out@ =~= old(out)@ + last_known_note_view(opt_view(*last)));
}

fn read_error_message(err: &ClipboardError, holder: &Option<String>, last: &Option<String>) -> (r: String)
    ensures
        r@ == read_error_text_view(*err, *holder, opt_view(*last)),
{
    let mut out = String::new();
    match err {
        ClipboardError::Occupied => {
            push_str(&mut out, "Clipboard occupied ");
            match holder {
                Some(h) => {
                    push_str(&mut out, "by ");
                    push_str(&mut out, h.as_str());
                },
                None => {
                    push_str(&mut out, "by another party");
                },
            }
        },
        ClipboardError::Other(e) => {
            push_str(&mut out, e.as_str());
        },
    }
    push_last_known(&mut out, last);
    assert(out@ =~= read_error_text_view(*err, *holder, opt_view(*last)));
    out
}

// ----------------------------------------------------------------------------
// The polling state machine
// ----------------------------------------------------------------------------

/// What one read of the clipboard gave.
pub enum ReadOutcome {
    /// The clipboard holds this text.
    Text(String),
    /// The clipboard holds no text.
    ContentNotAvailable,
    /// Reading failed.
    Failed(ClipboardError),
}

/// What to do after a read.
pub enum ReadAction {
    /// New text: run the replacements on it.
    Process(String),
    /// Log this read error.
    Log(String),
    /// Nothing.
    Idle,
}

/// The view of a read action.
pub enum ActionView {
    Process(Seq<char>),
    Log(Seq<char>),
    Idle,
}

impl View for ReadAction {
    type V = ActionView;

    open spec fn view(&self) -> ActionView {
        match self {
            ReadAction::Process(t) => ActionView::Process(t@),
            ReadAction::Log(m) => ActionView::Log(m@),
            ReadAction::Idle => ActionView::Idle,
        }
    }
}

/// The view of the poller's state.
pub struct MonitorView {
    pub last_content: Option<Seq<char>>,
    pub last_error: Option<Seq<char>>,
    pub loop_count: u32,
}

/// The view of an optional string.
pub open spec fn opt_view(s: Option<String>) -> Option<Seq<char>> {
    match s {
        Some(x) => Some(x@),
        None => None,
    }
}

/// What the poller remembers between polls: the clipboard text last seen (or written),
/// the read error last reported, and the number of polls so far (wrapping).
pub struct Monitor {
    pub last_content: Option<String>,
    pub last_error: Option<String>,
    pub loop_count: u32,
}

impl View for Monitor {
    type V = MonitorView;

    open spec fn view(&self) -> MonitorView {
        MonitorView {
            last_content: opt_view(self.last_content),
            last_error: opt_view(self.last_error),
            loop_count: self.loop_count,
        }
    }
}

/// The poller's state and action after one read. New text (different from the last
/// seen) is remembered and processed; the same text again does nothing; a clipboard
/// without text forgets the last content; a failed read is logged when not caused by
/// the lock screen and not the same message as the last one reported.
pub open spec fn read_step(
    m: MonitorView,
    outcome: ReadOutcome,
    holder: Option<String>,
) -> (MonitorView, ActionView) {
    match outcome {
        ReadOutcome::Text(t) => {
            let cleared = MonitorView { last_error: None, ..m };
            if m.last_content == Some(t@) {
                (cleared, ActionView::Idle)
            } else {
                (MonitorView { last_content: Some(t@), ..cleared }, ActionView::Process(t@))
            }
        },
        ReadOutcome::ContentNotAvailable => (
            MonitorView { last_content: None, last_error: None, ..m },
            ActionView::Idle,
        ),
        ReadOutcome::Failed(err) => {
            let msg = read_error_text_view(err, holder, m.last_content);
            if from_lock_screen(err, holder) {
                (MonitorView { last_error: Some(msg), ..m }, ActionView::Idle)
            } else if m.last_error == Some(msg) {
                (m, ActionView::Idle)
            } else {
                (
                    MonitorView { last_error: Some(msg), ..m },
                    ActionView::Log("Clipboard read error: "@ + msg),
                )
            }
        },
    }
}

/// The note on the last content known, from its view.
pub open spec fn last_known_note_view(last: Option<Seq<char>>) -> Seq<char> {
    match last {
        Some(l) => " (Last known content: '"@ + truncated(l, 60) + "')"@,
        None => " (Last known content: None)"@,
    }
}

/// The message for a failed read, the last content given by its view.
pub open spec fn read_error_text_view(
    err: ClipboardError,
    holder: Option<String>,
    last: Option<Seq<char>>,
) -> Seq<char> {
    match err {
        ClipboardError::Occupied => "Clipboard occupied "@ + match holder {
            Some(h) => "by "@ + h@,
            None => "by another party"@,
        } + last_known_note_view(last),
        ClipboardError::Other(e) => e@ + last_known_note_view(last),
    }
}

impl Monitor {
    /// A poller that has seen `initial` (the clipboard text at start, if any).
    pub fn new(initial: Option<String>) -> (m: Self)
        ensures
            m@ == (MonitorView { last_content: opt_view(initial), last_error: None, loop_count: 0 }),
    {
        Monitor { last_content: initial, last_error: None, loop_count: 0 }
    }

    /// Starts a poll: whether the configuration is due for a check (every fourth poll,
    /// starting with the first); the poll count moves on, wrapping.
    pub fn begin_poll(&mut self) -> (check_config: bool)
        ensures
            check_config == (old(self).loop_count % 4 == 0),
            final(self).loop_count == (if old(self).loop_count == u32::MAX {
                0
            } else {
                (old(self).loop_count + 1) as u32
            }),
            final(self).last_content == old(self).last_content,
            final(self).last_error == old(self).last_error,
    {
        let check = self.loop_count % 4 == 0;
        self.loop_count = if self.loop_count == u32::MAX {
            0
        } else {
            self.loop_count + 1
        };
        check
    }

    /// Takes the result of reading the clipboard (and, when it was occupied, who holds
    /// it) and says what to do.
    pub fn on_read(&mut self, outcome: ReadOutcome, holder: Option<String>) -> (action: ReadAction)
        ensures
            (final(self)@, action@) == read_step(old(self)@, outcome, holder),
    {
        match outcome {
            ReadOutcome::Text(t) => {
                self.last_error = None;
                let is_new = match &self.last_content {
                    Some(last) => {
                        let a = chars_of(last.as_str());
                        let b = chars_of(t.as_str());
                        !crate::text::chars_eq(&a, &b)
                    },
                    None => true,
                };
                if is_new {
                    self.last_content = Some(t.clone());
                    ReadAction::Process(t)
                } else {
                    ReadAction::Idle
                }
            },
            ReadOutcome::ContentNotAvailable => {
                self.last_content = None;
                self.last_error = None;
                ReadAction::Idle
            },
            ReadOutcome::Failed(err) => {
                let lock = lock_screen_holds(&err, &holder);
                let msg = read_error_message(&err, &holder, &self.last_content);
                if lock {
                    self.last_error = Some(msg);
                    ReadAction::Idle
                } else {
                    let same = match &self.last_error {
                        Some(last) => {
                            let a = chars_of(last.as_str());
                            let b = chars_of(msg.as_str());
                            crate::text::chars_eq(&a, &b)
                        },
                        None => false,
                    };
                    if same {
                        ReadAction::Idle
                    } else {
                        let mut line = "Clipboard read error: ".to_owned();
                        push_str(&mut line, msg.as_str());
                        self.last_error = Some(msg);
                        ReadAction::Log(line)
                    }
                }
            },
        }
    }

    /// Remembers text the replacements wrote to the clipboard, so that reading it back
    /// is not taken for new text.
    pub fn on_written(&mut self, replaced: String)
        ensures
            final(self)@ == (MonitorView { last_content: Some(replaced@), ..old(self)@ }),
    {
        self.last_content = Some(replaced);
    }
}

/// Reading back the text that was just written does not trigger the replacements again.
pub proof fn lemma_written_text_not_reprocessed(m: MonitorView, written: String, holder: Option<String>)
    ensures
        read_step(MonitorView { last_content: Some(written@), ..m }, ReadOutcome::Text(written), holder).1
            == ActionView::Idle,
{
}

/// The same read failure, reported once, is not reported again on the next poll.
pub proof fn lemma_repeated_error_logged_once(m: MonitorView, err: ClipboardError, holder: Option<String>)
    ensures
        ({
            let first = read_step(m, ReadOutcome::Failed(err), holder);
            read_step(first.0, ReadOutcome::Failed(err), holder).1 == ActionView::Idle
        }),
{
}

/// New text is processed exactly when it differs from the last text seen.
pub proof fn lemma_text_processed_iff_new(m: MonitorView, t: String, holder: Option<String>)
    ensures
        (read_step(m, ReadOutcome::Text(t), holder).1 == ActionView::Process(t@)) <==> m.last_content
            != Some(t@),
{
}

} // verus!
