//! The rules of capturing the selected text through the clipboard: which
//! windows are left alone, when the clipboard holds the selection, and how the
//! captured text is cut to length.
use vstd::prelude::*;

use crate::models::AnchorPoint;
use crate::text::{chars_equal, chars_of, string_from_chars, sub_chars, trim, trim_chars, CharClass};

verus! {

/// The selected text and where the cursor was.
#[derive(Debug)]
pub struct CapturedSelection {
    pub text: String,
    pub anchor: AnchorPoint,
}

/// Why no selection was captured.
#[derive(Debug, Clone, Copy, PartialEq, Eq)]
pub enum SelectionError {
    /// The focused window is a terminal, where a copy shortcut would interrupt
    /// the running program.
    TerminalFocused,
    /// The clipboard did not receive any text.
    NothingSelected,
}

pub open spec fn selection_error_message(e: SelectionError) -> Seq<char> {
    match e {
        SelectionError::TerminalFocused => "当前焦点在终端窗口，已取消取词，避免中断正在运行的开发进程"@,
        SelectionError::NothingSelected => "没能抓到选中文本，请确认文本仍保持选中状态"@,
    }
}

impl SelectionError {
    pub fn message(&self) -> (r: String)
        ensures
            r@ == selection_error_message(*self),
    {
        match self {
            SelectionError::TerminalFocused => String::from_str(
                "当前焦点在终端窗口，已取消取词，避免中断正在运行的开发进程",
            ),
            SelectionError::NothingSelected => String::from_str(
                "没能抓到选中文本，请确认文本仍保持选中状态",
            ),
        }
    }
}

/// The window classes of terminals.
pub open spec fn is_terminal_class(class_name: Seq<char>) -> bool {
    class_name == "ConsoleWindowClass"@ || class_name == "CASCADIA_HOSTING_WINDOW_CLASS"@
}

/// Refuses to capture from a terminal window, given the focused window's class.
pub fn ensure_safe_foreground_window(class_name: &str) -> (r: Result<(), SelectionError>)
    ensures
        r is Err <==> is_terminal_class(class_name@),
        r is Err ==> r == Err::<(), SelectionError>(SelectionError::TerminalFocused),
{
    let c = chars_of(class_name);
    let console = chars_of("ConsoleWindowClass");
    let cascadia = chars_of("CASCADIA_HOSTING_WINDOW_CLASS");
    if chars_equal(&c, &console) || chars_equal(&c, &cascadia) {
        return Err(SelectionError::TerminalFocused);
    }
    Ok(())
}

/// What one look at the clipboard gives while waiting for the copied
/// selection: its trimmed text, where it holds non-blank text and either its
/// sequence number or its text (trimmed) differs from before the copy.
pub open spec fn clipboard_selection(
    sequence_before: Option<u32>,
    sequence_after: Option<u32>,
    current_text: Option<Seq<char>>,
    previous_text: Option<Seq<char>>,
) -> Option<Seq<char>> {
    match current_text {
        None => None,
        Some(t) => if trim(t).len() == 0 {
            None
        } else if sequence_after != sequence_before || match previous_text {
            Some(p) => trim(p) != trim(t),
            None => true,
        } {
            Some(trim(t))
        } else {
            None
        },
    }
}

pub fn read_clipboard_selection(
    sequence_before: Option<u32>,
    sequence_after: Option<u32>,
    current_text: Option<&str>,
    previous_text: Option<&str>,
) -> (r: Option<String>)
    ensures
        r.deep_view() == clipboard_selection(
            sequence_before,
            sequence_after,
            match current_text {
                Some(t) => Some(t@),
                None => None,
            },
            match previous_text {
                Some(t) => Some(t@),
                None => None,
            },
        ),
{
    let text = match current_text {
        Some(t) => t,
        None => return None,
    };
    let trimmed = trim_chars(&chars_of(text), CharClass::Whitespace);
    if trimmed.len() == 0 {
        return None;
    }
    let sequence_changed = match (sequence_after, sequence_before) {
        (Some(a), Some(b)) => a != b,
        (None, None) => false,
        _ => true,
    };
    let text_changed = match previous_text {
        Some(p) => {
            let pt = trim_chars(&chars_of(p), CharClass::Whitespace);
            !chars_equal(&pt, &trimmed)
        },
        None => true,
    };
    if sequence_changed || text_changed {
        Some(string_from_chars(&trimmed))
    } else {
        None
    }
}

/// The captured text, trimmed and cut to its first `max_len` characters.
pub open spec fn captured_text(text: Seq<char>, max_len: usize) -> Result<Seq<char>, SelectionError> {
    let t = trim(text);
    if t.len() == 0 {
        Err(SelectionError::NothingSelected)
    } else if t.len() <= max_len {
        Ok(t)
    } else {
        Ok(t.take(max_len as int))
    }
}

/// Trims the copied text and cuts it to `max_len` characters; blank text is
/// refused.
pub fn truncate_selection(text: &str, max_len: usize) -> (r: Result<String, SelectionError>)
    ensures
        match r {
            Ok(s) => captured_text(text@, max_len) == Ok::<Seq<char>, SelectionError>(s@),
            Err(e) => captured_text(text@, max_len) == Err::<Seq<char>, SelectionError>(e),
        },
{
    let trimmed = trim_chars(&chars_of(text), CharClass::Whitespace);
    if trimmed.len() == 0 {
        return Err(SelectionError::NothingSelected);
    }
    let end = if trimmed.len() <= max_len {
        trimmed.len()
    } else {
        max_len
    };
    let cut = sub_chars(&trimmed, 0, end);
    assert(trimmed.len() <= max_len ==> cut@ =~= trimmed@);
    assert(trimmed.len() > max_len ==> cut@ =~= trimmed@.take(max_len as int));
    Ok(string_from_chars(&cut))
}

// ---------------------------------------------------------------------------
// Waiting for the copied selection.
/// How many times the clipboard is read after each copy shortcut.
pub const SELECTION_POLLS: u32 = 14;

/// How long to wait before each read of the clipboard, in milliseconds.
pub const SELECTION_POLL_MS: u64 = 40;

/// The copy shortcut sent to the focused window.
#[derive(Debug, Clone, Copy, PartialEq, Eq)]
pub enum CopyShortcut {
    /// Ctrl+C, tried first.
    CtrlC,
    /// Ctrl+Insert, tried where Ctrl+C copied nothing.
    CtrlInsert,
}

/// What one read of the clipboard gave.
#[derive(Debug)]
pub enum ClipboardPoll {
    /// The clipboard could not be opened.
    Unavailable,
    /// What `read_clipboard_selection` made of it: the selection, or `None`
    /// where the clipboard does not hold it yet.
    Read(Option<String>),
}

/// What to do after a read of the clipboard.
#[derive(Debug)]
pub enum CaptureStep {
    /// Wait and read again.
    PollAgain,
    /// The selection was captured.
    Captured(String),
    /// Send Ctrl+Insert and start reading again.
    TryCtrlInsert,
    /// Give up: the clipboard could not be opened after Ctrl+Insert.
    ClipboardFailed,
    /// Give up: neither shortcut copied anything.
    NothingCaptured,
}

/// The next step of waiting for the copied selection, after `polls_done`
/// reads since `shortcut` was sent, the last of which gave `poll`: a captured
/// selection ends the wait; otherwise the clipboard is read again up to 14
/// times; then, or at once where the clipboard cannot be opened, Ctrl+C
/// falls back to Ctrl+Insert, and Ctrl+Insert gives up.
pub fn capture_step(shortcut: CopyShortcut, polls_done: u32, poll: ClipboardPoll) -> (r: CaptureStep)
    ensures
        match poll {
            ClipboardPoll::Read(Some(t)) => r matches CaptureStep::Captured(c) && c@ == t@,
            ClipboardPoll::Read(None) => if polls_done < SELECTION_POLLS {
                r is PollAgain
            } else if shortcut == CopyShortcut::CtrlC {
                r is TryCtrlInsert
            } else {
                r is NothingCaptured
            },
            ClipboardPoll::Unavailable => if shortcut == CopyShortcut::CtrlC {
                r is TryCtrlInsert
            } else {
                r is ClipboardFailed
            },
        },
{
    match poll {
        ClipboardPoll::Read(Some(t)) => CaptureStep::Captured(t),
        ClipboardPoll::Read(None) => if polls_done < SELECTION_POLLS {
            CaptureStep::PollAgain
        } else {
            match shortcut {
                CopyShortcut::CtrlC => CaptureStep::TryCtrlInsert,
                CopyShortcut::CtrlInsert => CaptureStep::NothingCaptured,
            }
        },
        ClipboardPoll::Unavailable => match shortcut {
            CopyShortcut::CtrlC => CaptureStep::TryCtrlInsert,
            CopyShortcut::CtrlInsert => CaptureStep::ClipboardFailed,
        },
    }
}

} // verus!
