use archive_extractor::entry::ArchiveEntry;
use archive_extractor::format::ArchiveFormat;
use archive_extractor::formats::format_size;
use archive_extractor::session::{ExtractionOutcome, LoadStatus};
use archive_extractor::window::{
    contents_heading, entry_size_text, error_message, load_message, loading_message,
    cancel_step, outcome_text, progress_text, screen, shortcut_command, unknown_format_message,
    window_step, Actions, CancelEvent, CancelStep, Command, Listing, ProgressMark, Screen,
    ScreenState, Shortcut, WindowEvent, WindowFlags,
};

fn state() -> ScreenState {
    ScreenState {
        loaded: true,
        loading: false,
        has_entries: true,
        extracting: false,
        started: false,
        finished: false,
        encrypted: false,
        password_empty: true,
    }
}

#[test]
fn screen_before_extracting() {
    assert_eq!(
        screen(&state()),
        Screen {
            destination: true,
            password: false,
            progress: false,
            actions: Actions::Prepare { extract_locked: false },
            listing: Listing::Entries,
        }
    );
    let locked = ScreenState { encrypted: true, ..state() };
    let s = screen(&locked);
    assert!(s.password);
    assert_eq!(s.actions, Actions::Prepare { extract_locked: true });
    let typed = ScreenState { encrypted: true, password_empty: false, ..state() };
    assert_eq!(screen(&typed).actions, Actions::Prepare { extract_locked: false });
}

#[test]
fn screen_while_and_after_extracting() {
    let running = ScreenState { extracting: true, started: true, encrypted: true, ..state() };
    let s = screen(&running);
    assert!(!s.destination && !s.password && s.progress);
    assert_eq!(s.actions, Actions::Busy);

    let done = ScreenState { started: true, finished: true, ..state() };
    let s = screen(&done);
    assert!(!s.destination && s.progress);
    assert_eq!(s.actions, Actions::Finished);
}

#[test]
fn screen_without_archive_or_entries() {
    let none = ScreenState { loaded: false, has_entries: false, ..state() };
    assert_eq!(screen(&none).actions, Actions::Open);
    assert_eq!(screen(&none).listing, Listing::Empty);
    let pending = ScreenState { loading: true, has_entries: false, ..state() };
    assert_eq!(screen(&pending).listing, Listing::Spinner);
    let listed = ScreenState { loading: true, ..state() };
    assert_eq!(screen(&listed).listing, Listing::Entries);
}

#[test]
fn status_texts() {
    assert_eq!(
        loading_message("a.zip", ArchiveFormat::Zip),
        format!("Loading {} · {} …", "a.zip", "ZIP Archive")
    );
    assert_eq!(unknown_format_message("x.bin"), "Unknown format: x.bin");
    assert_eq!(load_message(LoadStatus::Empty, 0, 0), "No files found in archive");
    assert_eq!(load_message(LoadStatus::Locked, 0, 0), "Archive is password protected");
    assert_eq!(
        load_message(LoadStatus::LockedWithEntries, 3, 2048),
        format!("{} files · {}  (password protected)", 3, format_size(2048))
    );
    assert_eq!(load_message(LoadStatus::Ready, 3, 2048), "3 files · 2.0 KB ");
    assert_eq!(error_message("bad crc"), "✗ Error: bad crc");
}

#[test]
fn progress_texts() {
    assert_eq!(progress_text(false, 3, 10), "3 / 10 files ");
    assert_eq!(progress_text(true, 1536, 1024 * 1024), "1.5 KB / 1.0 MB");
    assert_eq!(outcome_text(ExtractionOutcome::Done), "Done!");
    assert_eq!(outcome_text(ExtractionOutcome::PasswordRetry), "Extraction failed");
    assert_eq!(outcome_text(ExtractionOutcome::Failed), "Failed");
}

#[test]
fn list_texts() {
    assert_eq!(contents_heading(12, 12, false), "Contents  ·  12 files ");
    assert_eq!(contents_heading(12, 4, true), "Contents  ·  4 / 12 files ");
    let file = |size: u64, is_dir: bool| ArchiveEntry {
        name: "n".to_string(),
        is_dir,
        size,
        compressed_size: 0,
        path: "n".to_string(),
    };
    assert_eq!(entry_size_text(&file(0, false)), "?");
    assert_eq!(entry_size_text(&file(0, true)), "0 B");
    assert_eq!(entry_size_text(&file(5000, false)), "4.9 KB");
}

#[test]
fn keyboard_shortcuts() {
    assert_eq!(shortcut_command(Shortcut::Open, false, false), Some(Command::OpenArchive));
    assert_eq!(shortcut_command(Shortcut::Destination, false, false), None);
    assert_eq!(
        shortcut_command(Shortcut::Destination, true, false),
        Some(Command::ChooseDestination)
    );
    assert_eq!(shortcut_command(Shortcut::Extract, true, false), Some(Command::StartExtraction));
    assert_eq!(shortcut_command(Shortcut::Extract, true, true), None);
    assert_eq!(shortcut_command(Shortcut::Quit, true, true), Some(Command::Quit));
    assert_eq!(shortcut_command(Shortcut::Escape, true, true), Some(Command::AskToCancel));
    assert_eq!(shortcut_command(Shortcut::Escape, true, false), None);
}

#[test]
fn cancelling_asks_for_confirmation() {
    let asked = cancel_step(false, true, CancelEvent::Ask);
    assert_eq!(asked, CancelStep { prompt_open: true, cancel: false });
    assert_eq!(
        cancel_step(asked.prompt_open, true, CancelEvent::Confirm),
        CancelStep { prompt_open: false, cancel: true }
    );
    assert_eq!(
        cancel_step(true, true, CancelEvent::Dismiss),
        CancelStep { prompt_open: false, cancel: false }
    );
    // Confirming with no prompt shown, or with nothing running, cancels nothing.
    assert!(!cancel_step(false, true, CancelEvent::Confirm).cancel);
    assert_eq!(
        cancel_step(true, false, CancelEvent::Confirm),
        CancelStep { prompt_open: false, cancel: false }
    );
}

fn flags() -> WindowFlags {
    WindowFlags {
        loading: false,
        extracting: false,
        encrypted: true,
        password_error: true,
        focus_password: true,
    }
}

#[test]
fn opening_resets_the_password_state() {
    let s = window_step(&flags(), WindowEvent::Opened { known_format: true });
    assert_eq!(
        s.flags,
        WindowFlags { loading: true, encrypted: false, password_error: false, focus_password: false, ..flags() }
    );
    assert_eq!(s.progress, ProgressMark::Empty);
    assert!(!s.start);
    assert!(!window_step(&flags(), WindowEvent::Opened { known_format: false }).flags.loading);
}

#[test]
fn listing_sets_encryption_and_focus() {
    let quiet = WindowFlags { loading: true, encrypted: false, focus_password: false, ..flags() };
    let s = window_step(&quiet, WindowEvent::Listed { encrypted: true });
    assert!(!s.flags.loading && s.flags.encrypted && s.flags.focus_password);
    let s = window_step(&quiet, WindowEvent::Listed { encrypted: false });
    assert!(!s.flags.encrypted && !s.flags.focus_password);
    let s = window_step(&quiet, WindowEvent::ListFailed { password_error: true });
    assert!(s.flags.encrypted && s.flags.focus_password && !s.flags.loading);
    let s = window_step(&quiet, WindowEvent::ListFailed { password_error: false });
    assert!(!s.flags.encrypted && !s.flags.loading);
    assert!(!window_step(&quiet, WindowEvent::ListLost).flags.loading);
}

#[test]
fn starting_needs_a_typed_password() {
    let f = WindowFlags { password_error: false, ..flags() };
    let missing = window_step(&f, WindowEvent::StartRequested { ready: true, password_empty: true });
    assert!(!missing.start && missing.flags.password_error && !missing.flags.extracting);
    let typed = window_step(&flags(), WindowEvent::StartRequested { ready: true, password_empty: false });
    assert!(typed.start && typed.flags.extracting && !typed.flags.password_error);
    assert_eq!(typed.progress, ProgressMark::Empty);
    let unready = window_step(&f, WindowEvent::StartRequested { ready: false, password_empty: false });
    assert!(!unready.start);
    assert_eq!(unready.flags, f);
}

#[test]
fn ending_an_extraction() {
    let running = WindowFlags { extracting: true, password_error: false, ..flags() };
    let retry = window_step(&running, WindowEvent::Finished { outcome: ExtractionOutcome::PasswordRetry });
    assert!(!retry.flags.extracting && retry.flags.password_error);
    assert_eq!(retry.progress, ProgressMark::Empty);
    for outcome in [ExtractionOutcome::Done, ExtractionOutcome::Failed] {
        let s = window_step(&running, WindowEvent::Finished { outcome });
        assert!(!s.flags.extracting && !s.flags.password_error);
        assert_eq!(s.progress, ProgressMark::Full);
    }
    assert!(!window_step(&flags(), WindowEvent::PasswordEdited).flags.password_error);
    assert!(!window_step(&flags(), WindowEvent::PasswordFocused).flags.focus_password);
}
