//! What the extractor window shows: which parts of the screen appear in
//! each state, and the texts of its status line, progress bar and list.

use vstd::prelude::*;
use crate::entry::ArchiveEntry;
use crate::format::ArchiveFormat;
use crate::formats::{format_name, format_size, spec_format_name, spec_format_size};
use crate::session::{ExtractionOutcome, LoadStatus};
use crate::text::{decimal, owned, push_decimal, push_str, string_from_chars};

verus! {

/// The state the window is drawn from.
pub struct ScreenState {
    /// An archive has been chosen.
    pub loaded: bool,
    /// The archive is being listed in the background.
    pub loading: bool,
    /// Some entries are listed.
    pub has_entries: bool,
    /// An extraction is running.
    pub extracting: bool,
    /// The progress bar has moved (an extraction ran or is running).
    pub started: bool,
    /// The progress bar is full (the last extraction ended, well or not).
    pub finished: bool,
    /// The archive is encrypted.
    pub encrypted: bool,
    /// No password has been typed.
    pub password_empty: bool,
}

/// The buttons in the action row.
#[derive(Clone, Copy, Debug, PartialEq, Eq, Structural)]
pub enum Actions {
    /// No archive yet: a button to open one.
    Open,
    /// Before extracting: change the archive, pick the destination, and
    /// extract, which is locked while a needed password is missing.
    Prepare { extract_locked: bool },
    /// After an extraction: open another archive or the destination.
    Finished,
    /// While extracting: no buttons.
    Busy,
}

/// What is drawn below the action row.
#[derive(Clone, Copy, Debug, PartialEq, Eq, Structural)]
pub enum Listing {
    /// The archive is still being listed and nothing is listed yet.
    Spinner,
    /// The listed entries, with the search field and the sort row.
    Entries,
    /// Nothing.
    Empty,
}

/// The parts of the screen that are shown.
#[derive(Clone, Copy, Debug, PartialEq, Eq, Structural)]
pub struct Screen {
    /// The destination field and its Browse button.
    pub destination: bool,
    /// The password panel.
    pub password: bool,
    /// The progress bar.
    pub progress: bool,
    pub actions: Actions,
    pub listing: Listing,
}

/// The screen drawn in state `s`: the destination field while an archive
/// waits to be extracted; the password panel too when it is encrypted; the
/// progress bar once an extraction has started; the buttons that fit the
/// state; the spinner while the listing is pending and nothing is listed.
pub open spec fn spec_screen(s: ScreenState) -> Screen {
    let waiting = !s.extracting && !s.finished;
    Screen {
        destination: s.loaded && waiting,
        password: s.encrypted && waiting,
        progress: s.extracting || s.started,
        actions: if !s.loaded {
            Actions::Open
        } else if waiting {
            Actions::Prepare { extract_locked: s.encrypted && s.password_empty }
        } else if s.finished {
            Actions::Finished
        } else {
            Actions::Busy
        },
        listing: if s.loading && !s.has_entries {
            Listing::Spinner
        } else if s.has_entries {
            Listing::Entries
        } else {
            Listing::Empty
        },
    }
}

/// The screen drawn in state `s`.
pub fn screen(s: &ScreenState) -> (r: Screen)
    ensures
        r == spec_screen(*s),
{
    let waiting = !s.extracting && !s.finished;
    let actions = if !s.loaded {
        Actions::Open
    } else if waiting {
        Actions::Prepare { extract_locked: s.encrypted && s.password_empty }
    } else if s.finished {
        Actions::Finished
    } else {
        Actions::Busy
    };
    let listing = if s.loading && !s.has_entries {
        Listing::Spinner
    } else if s.has_entries {
        Listing::Entries
    } else {
        Listing::Empty
    };
    Screen {
        destination: s.loaded && waiting,
        password: s.encrypted && waiting,
        progress: s.extracting || s.started,
        actions,
        listing,
    }
}

/// The status line while the archive named `file_name` of `format` is listed.
pub open spec fn spec_loading_message(file_name: Seq<char>, format: ArchiveFormat) -> Seq<char> {
    "Loading "@ + file_name + " · "@ + spec_format_name(format) + " …"@
}

/// The status line while the archive named `file_name` is listed.
pub fn loading_message(file_name: &str, format: ArchiveFormat) -> (r: String)
    ensures
        r@ == spec_loading_message(file_name@, format),
{
    let mut out: Vec<char> = Vec::new();
    push_str(&mut out, "Loading ");
    push_str(&mut out, file_name);
    push_str(&mut out, " · ");
    push_str(&mut out, format_name(format));
    push_str(&mut out, " …");
    assert(out@ =~= spec_loading_message(file_name@, format));
    string_from_chars(out.as_slice())
}

/// The status line for a file whose format is not recognised.
pub fn unknown_format_message(file_name: &str) -> (r: String)
    ensures
        r@ == "Unknown format: "@ + file_name@,
{
    let mut out: Vec<char> = Vec::new();
    push_str(&mut out, "Unknown format: ");
    push_str(&mut out, file_name);
    string_from_chars(out.as_slice())
}

/// The status line once an archive is listed: `count` entries whose sizes
/// add up to `total_size`.
pub open spec fn spec_load_message(status: LoadStatus, count: nat, total_size: u64) -> Seq<char> {
    match status {
        LoadStatus::Empty => "No files found in archive"@,
        LoadStatus::Locked => "Archive is password protected"@,
        LoadStatus::LockedWithEntries => decimal(count) + " files · "@ + spec_format_size(total_size)
            + "  (password protected)"@,
        LoadStatus::Ready => decimal(count) + " files · "@ + spec_format_size(total_size) + " "@,
    }
}

/// The status line once an archive is listed.
pub fn load_message(status: LoadStatus, count: usize, total_size: u64) -> (r: String)
    ensures
        r@ == spec_load_message(status, count as nat, total_size),
{
    match status {
        LoadStatus::Empty => owned("No files found in archive"),
        LoadStatus::Locked => owned("Archive is password protected"),
        _ => {
            let mut out: Vec<char> = Vec::new();
            push_decimal(&mut out, count as u128);
            push_str(&mut out, " files · ");
            let size = format_size(total_size);
            push_str(&mut out, size.as_str());
            if status == LoadStatus::LockedWithEntries {
                push_str(&mut out, "  (password protected)");
            } else {
                push_str(&mut out, " ");
            }
            assert(out@ =~= spec_load_message(status, count as nat, total_size));
            string_from_chars(out.as_slice())
        },
    }
}

/// The text on the progress bar: bytes read of the compressed file for a
/// single-file format, entries extracted otherwise.
pub open spec fn spec_progress_text(single_file: bool, current: u64, total: u64) -> Seq<char> {
    if single_file {
        spec_format_size(current) + " / "@ + spec_format_size(total)
    } else {
        decimal(current as nat) + " / "@ + decimal(total as nat) + " files "@
    }
}

/// The text on the progress bar.
pub fn progress_text(single_file: bool, current: u64, total: u64) -> (r: String)
    ensures
        r@ == spec_progress_text(single_file, current, total),
{
    let mut out: Vec<char> = Vec::new();
    if single_file {
        let c = format_size(current);
        let t = format_size(total);
        push_str(&mut out, c.as_str());
        push_str(&mut out, " / ");
        push_str(&mut out, t.as_str());
    } else {
        push_decimal(&mut out, current as u128);
        push_str(&mut out, " / ");
        push_decimal(&mut out, total as u128);
        push_str(&mut out, " files ");
    }
    assert(out@ =~= spec_progress_text(single_file, current, total));
    string_from_chars(out.as_slice())
}

/// The text on the progress bar when an extraction has ended.
pub open spec fn spec_outcome_text(outcome: ExtractionOutcome) -> Seq<char> {
    match outcome {
        ExtractionOutcome::Done => "Done!"@,
        ExtractionOutcome::PasswordRetry => "Extraction failed"@,
        ExtractionOutcome::Failed => "Failed"@,
    }
}

/// The text on the progress bar when an extraction has ended.
pub fn outcome_text(outcome: ExtractionOutcome) -> (r: &'static str)
    ensures
        r@ == spec_outcome_text(outcome),
{
    match outcome {
        ExtractionOutcome::Done => "Done!",
        ExtractionOutcome::PasswordRetry => "Extraction failed",
        ExtractionOutcome::Failed => "Failed",
    }
}

/// The status line after a failed extraction.
pub fn error_message(error: &str) -> (r: String)
    ensures
        r@ == "✗ Error: "@ + error@,
{
    let mut out: Vec<char> = Vec::new();
    push_str(&mut out, "✗ Error: ");
    push_str(&mut out, error);
    string_from_chars(out.as_slice())
}

/// The heading of the entry list: how many entries there are, and how many
/// are shown while a search is typed.
pub open spec fn spec_contents_heading(total: nat, shown: nat, searching: bool) -> Seq<char> {
    if searching {
        "Contents  ·  "@ + decimal(shown) + " / "@ + decimal(total) + " files "@
    } else {
        "Contents  ·  "@ + decimal(total) + " files "@
    }
}

/// The heading of the entry list.
pub fn contents_heading(total: usize, shown: usize, searching: bool) -> (r: String)
    ensures
        r@ == spec_contents_heading(total as nat, shown as nat, searching),
{
    let mut out: Vec<char> = Vec::new();
    push_str(&mut out, "Contents  ·  ");
    if searching {
        push_decimal(&mut out, shown as u128);
        push_str(&mut out, " / ");
    }
    push_decimal(&mut out, total as u128);
    push_str(&mut out, " files ");
    assert(out@ =~= spec_contents_heading(total as nat, shown as nat, searching));
    string_from_chars(out.as_slice())
}

/// The size shown beside an entry: "?" for a file of unknown (zero) size.
pub open spec fn spec_entry_size_text(e: ArchiveEntry) -> Seq<char> {
    if e.size > 0 || e.is_dir {
        spec_format_size(e.size)
    } else {
        "?"@
    }
}

/// The size shown beside an entry.
pub fn entry_size_text(entry: &ArchiveEntry) -> (r: String)
    ensures
        r@ == spec_entry_size_text(*entry),
{
    if entry.size > 0 || entry.is_dir {
        format_size(entry.size)
    } else {
        owned("?")
    }
}

/// The keyboard shortcuts: Ctrl+O, Ctrl+D, Ctrl+E, Ctrl+Q (or Cmd) and Escape.
#[derive(Clone, Copy, Debug, PartialEq, Eq, Structural)]
pub enum Shortcut {
    Open,
    Destination,
    Extract,
    Quit,
    Escape,
}

/// What a shortcut makes the window do.
#[derive(Clone, Copy, Debug, PartialEq, Eq, Structural)]
pub enum Command {
    OpenArchive,
    ChooseDestination,
    StartExtraction,
    Quit,
    /// Ask whether to cancel the running extraction.
    AskToCancel,
}

/// The command a shortcut gives: opening and quitting always; choosing the
/// destination and extracting once an archive is chosen and while no
/// extraction runs; asking whether to cancel while one runs.
pub open spec fn spec_shortcut_command(key: Shortcut, loaded: bool, extracting: bool) -> Option<
    Command,
> {
    match key {
        Shortcut::Open => Some(Command::OpenArchive),
        Shortcut::Destination => if loaded && !extracting {
            Some(Command::ChooseDestination)
        } else {
            None
        },
        Shortcut::Extract => if loaded && !extracting {
            Some(Command::StartExtraction)
        } else {
            None
        },
        Shortcut::Quit => Some(Command::Quit),
        Shortcut::Escape => if extracting {
            Some(Command::AskToCancel)
        } else {
            None
        },
    }
}

/// The command a shortcut gives in the current state.
pub fn shortcut_command(key: Shortcut, loaded: bool, extracting: bool) -> (r: Option<Command>)
    ensures
        r == spec_shortcut_command(key, loaded, extracting),
{
    match key {
        Shortcut::Open => Some(Command::OpenArchive),
        Shortcut::Destination => if loaded && !extracting {
            Some(Command::ChooseDestination)
        } else {
            None
        },
        Shortcut::Extract => if loaded && !extracting {
            Some(Command::StartExtraction)
        } else {
            None
        },
        Shortcut::Quit => Some(Command::Quit),
        Shortcut::Escape => if extracting {
            Some(Command::AskToCancel)
        } else {
            None
        },
    }
}

/// What the user does about cancelling a running extraction: asks to
/// cancel (Escape or the Cancel button), confirms, or changes their mind.
#[derive(Clone, Copy, Debug, PartialEq, Eq, Structural)]
pub enum CancelEvent {
    Ask,
    Confirm,
    Dismiss,
}

/// Whether the cancel confirmation is shown afterwards, and whether the
/// extraction is to be cancelled.
#[derive(Clone, Copy, Debug, PartialEq, Eq, Structural)]
pub struct CancelStep {
    pub prompt_open: bool,
    pub cancel: bool,
}

/// The cancel confirmation: asking opens it, confirming an open one cancels
/// the extraction, dismissing closes it; with no extraction running it is
/// closed and nothing is cancelled.
pub open spec fn spec_cancel_step(prompt_open: bool, extracting: bool, event: CancelEvent) -> CancelStep {
    if !extracting {
        CancelStep { prompt_open: false, cancel: false }
    } else {
        match event {
            CancelEvent::Ask => CancelStep { prompt_open: true, cancel: false },
            CancelEvent::Confirm => CancelStep { prompt_open: false, cancel: prompt_open },
            CancelEvent::Dismiss => CancelStep { prompt_open: false, cancel: false },
        }
    }
}

/// The cancel confirmation after `event`.
pub fn cancel_step(prompt_open: bool, extracting: bool, event: CancelEvent) -> (r: CancelStep)
    ensures
        r == spec_cancel_step(prompt_open, extracting, event),
{
    if !extracting {
        CancelStep { prompt_open: false, cancel: false }
    } else {
        match event {
            CancelEvent::Ask => CancelStep { prompt_open: true, cancel: false },
            CancelEvent::Confirm => CancelStep { prompt_open: false, cancel: prompt_open },
            CancelEvent::Dismiss => CancelStep { prompt_open: false, cancel: false },
        }
    }
}

/// An extraction is never cancelled by accident: only confirming the open
/// confirmation of a running extraction cancels it, and asking alone never
/// does.
pub proof fn lemma_cancel_needs_confirmation(prompt_open: bool, extracting: bool, event: CancelEvent)
    ensures
        spec_cancel_step(prompt_open, extracting, event).cancel ==> (event == CancelEvent::Confirm
            && prompt_open && extracting),
        spec_cancel_step(prompt_open, extracting, CancelEvent::Ask).cancel == false,
        extracting ==> spec_cancel_step(
            spec_cancel_step(prompt_open, extracting, CancelEvent::Ask).prompt_open,
            extracting,
            CancelEvent::Confirm,
        ).cancel,
{
}

/// The window's flags that opening, listing and extracting change.
#[derive(Clone, Copy, Debug, PartialEq, Eq, Structural)]
pub struct WindowFlags {
    /// The archive is being listed in the background.
    pub loading: bool,
    /// An extraction is running.
    pub extracting: bool,
    /// The archive is encrypted.
    pub encrypted: bool,
    /// The last password was missing or wrong.
    pub password_error: bool,
    /// The password field is to take the keyboard focus.
    pub focus_password: bool,
}

/// What happens to the window.
#[derive(Clone, Copy, Debug, PartialEq, Eq, Structural)]
pub enum WindowEvent {
    /// An archive was chosen; `known_format` when its format was detected
    /// (it is then listed in the background).
    Opened { known_format: bool },
    /// The listing ended for an archive that is, or is not, encrypted.
    Listed { encrypted: bool },
    /// The listing failed; `password_error` when the error asks for a password.
    ListFailed { password_error: bool },
    /// The listing ended without a result.
    ListLost,
    /// Extract was asked for; `ready` when an archive and a destination are
    /// chosen, `password_empty` when no password is typed.
    StartRequested { ready: bool, password_empty: bool },
    /// The running extraction ended so.
    Finished { outcome: ExtractionOutcome },
    /// The user typed in the password field.
    PasswordEdited,
    /// The password field took the focus.
    PasswordFocused,
}

/// What becomes of the progress bar.
#[derive(Clone, Copy, Debug, PartialEq, Eq, Structural)]
pub enum ProgressMark {
    /// It stays as it is.
    Keep,
    /// It empties.
    Empty,
    /// It fills.
    Full,
}

/// The flags after an event, the progress bar, and whether an extraction
/// is to start.
#[derive(Clone, Copy, Debug, PartialEq, Eq, Structural)]
pub struct WindowStep {
    pub flags: WindowFlags,
    pub progress: ProgressMark,
    pub start: bool,
}

/// How an event changes the window: opening resets the password state and
/// empties the bar; a listing sets whether the archive is encrypted and then
/// focuses the password field; extracting starts only when a needed password
/// is typed (otherwise the password is marked missing); an ended extraction
/// fills the bar, except that a password error empties it and marks the
/// password wrong so that another can be tried.
pub open spec fn spec_window_step(f: WindowFlags, e: WindowEvent) -> WindowStep {
    let keep = WindowStep { flags: f, progress: ProgressMark::Keep, start: false };
    match e {
        WindowEvent::Opened { known_format } => WindowStep {
            flags: WindowFlags {
                loading: known_format,
                encrypted: false,
                password_error: false,
                focus_password: false,
                ..f
            },
            progress: ProgressMark::Empty,
            start: false,
        },
        WindowEvent::Listed { encrypted } => WindowStep {
            flags: WindowFlags {
                loading: false,
                encrypted: encrypted,
                focus_password: f.focus_password || encrypted,
                ..f
            },
            ..keep
        },
        WindowEvent::ListFailed { password_error } => if password_error {
            WindowStep {
                flags: WindowFlags { loading: false, encrypted: true, focus_password: true, ..f },
                ..keep
            }
        } else {
            WindowStep { flags: WindowFlags { loading: false, ..f }, ..keep }
        },
        WindowEvent::ListLost => WindowStep { flags: WindowFlags { loading: false, ..f }, ..keep },
        WindowEvent::StartRequested { ready, password_empty } => if !ready {
            keep
        } else if f.encrypted && password_empty {
            WindowStep { flags: WindowFlags { password_error: true, ..f }, ..keep }
        } else {
            WindowStep {
                flags: WindowFlags { extracting: true, password_error: false, ..f },
                progress: ProgressMark::Empty,
                start: true,
            }
        },
        WindowEvent::Finished { outcome } => match outcome {
            ExtractionOutcome::PasswordRetry => WindowStep {
                flags: WindowFlags { extracting: false, password_error: true, ..f },
                progress: ProgressMark::Empty,
                start: false,
            },
            _ => WindowStep {
                flags: WindowFlags { extracting: false, ..f },
                progress: ProgressMark::Full,
                start: false,
            },
        },
        WindowEvent::PasswordEdited => WindowStep {
            flags: WindowFlags { password_error: false, ..f },
            ..keep
        },
        WindowEvent::PasswordFocused => WindowStep {
            flags: WindowFlags { focus_password: false, ..f },
            ..keep
        },
    }
}

/// How an event changes the window.
pub fn window_step(f: &WindowFlags, e: WindowEvent) -> (r: WindowStep)
    ensures
        r == spec_window_step(*f, e),
{
    let f = *f;
    let keep = WindowStep { flags: f, progress: ProgressMark::Keep, start: false };
    match e {
        WindowEvent::Opened { known_format } => WindowStep {
            flags: WindowFlags {
                loading: known_format,
                encrypted: false,
                password_error: false,
                focus_password: false,
                ..f
            },
            progress: ProgressMark::Empty,
            start: false,
        },
        WindowEvent::Listed { encrypted } => WindowStep {
            flags: WindowFlags {
                loading: false,
                encrypted: encrypted,
                focus_password: f.focus_password || encrypted,
                ..f
            },
            ..keep
        },
        WindowEvent::ListFailed { password_error } => if password_error {
            WindowStep {
                flags: WindowFlags { loading: false, encrypted: true, focus_password: true, ..f },
                ..keep
            }
        } else {
            WindowStep { flags: WindowFlags { loading: false, ..f }, ..keep }
        },
        WindowEvent::ListLost => WindowStep { flags: WindowFlags { loading: false, ..f }, ..keep },
        WindowEvent::StartRequested { ready, password_empty } => if !ready {
            keep
        } else if f.encrypted && password_empty {
            WindowStep { flags: WindowFlags { password_error: true, ..f }, ..keep }
        } else {
            WindowStep {
                flags: WindowFlags { extracting: true, password_error: false, ..f },
                progress: ProgressMark::Empty,
                start: true,
            }
        },
        WindowEvent::Finished { outcome } => match outcome {
            ExtractionOutcome::PasswordRetry => WindowStep {
                flags: WindowFlags { extracting: false, password_error: true, ..f },
                progress: ProgressMark::Empty,
                start: false,
            },
            _ => WindowStep {
                flags: WindowFlags { extracting: false, ..f },
                progress: ProgressMark::Full,
                start: false,
            },
        },
        WindowEvent::PasswordEdited => WindowStep {
            flags: WindowFlags { password_error: false, ..f },
            ..keep
        },
        WindowEvent::PasswordFocused => WindowStep {
            flags: WindowFlags { focus_password: false, ..f },
            ..keep
        },
    }
}

/// An extraction starts only when an archive and a destination are chosen
/// and, for an encrypted archive, a password is typed; when that password
/// is missing nothing starts and it is marked missing. Opening another
/// archive forgets the password state, and an ended extraction is no longer
/// running.
pub proof fn lemma_window_rules(f: WindowFlags, e: WindowEvent)
    ensures
        spec_window_step(f, e).start ==> (e matches WindowEvent::StartRequested { ready, password_empty }
            && ready && !(f.encrypted && password_empty)),
        (e matches WindowEvent::StartRequested { ready, password_empty } && ready && f.encrypted
            && password_empty) ==> (!spec_window_step(f, e).start && spec_window_step(
            f,
            e,
        ).flags.password_error),
        e is Opened ==> (!spec_window_step(f, e).flags.encrypted && !spec_window_step(
            f,
            e,
        ).flags.password_error),
        e is Finished ==> !spec_window_step(f, e).flags.extracting,
{
}

} // verus!
