use reading_assistant::models::AppConfig;
use reading_assistant::popup::{
    allow_mouse_trigger, allow_outside_click_check, global_trigger_matches, hiword,
    mouse_hook_action, mouse_trigger_dispatches, outside_click_hides_popup, popup_drag_deadline, popup_drag_in_progress,
    popup_hides_on_focus_loss, popup_origin, popup_size, MouseEvent, MouseHookAction, PopupFrame,
};
use reading_assistant::selection::{
    capture_step, ensure_safe_foreground_window, CaptureStep, ClipboardPoll, CopyShortcut, read_clipboard_selection, truncate_selection, SelectionError,
};

#[test]
fn mouse_triggers_are_debounced() {
    let mut deadline = None;
    assert!(allow_mouse_trigger(&mut deadline, 1000));
    assert_eq!(deadline, Some(1350));
    assert!(!allow_mouse_trigger(&mut deadline, 1200));
    assert_eq!(deadline, Some(1350));
    assert!(!allow_mouse_trigger(&mut deadline, 1349));
    assert!(allow_mouse_trigger(&mut deadline, 1350));
    assert_eq!(deadline, Some(1700));
}

#[test]
fn outside_click_checks_are_debounced() {
    let mut deadline = None;
    assert!(allow_outside_click_check(&mut deadline, 10));
    assert!(!allow_outside_click_check(&mut deadline, 89));
    assert!(allow_outside_click_check(&mut deadline, 90));
}

#[test]
fn drag_window() {
    let until = popup_drag_deadline(500);
    assert_eq!(until, 1700);
    assert!(popup_drag_in_progress(Some(until), 1700));
    assert!(!popup_drag_in_progress(Some(until), 1701));
    assert!(!popup_drag_in_progress(None, 0));
}

#[test]
fn trigger_source_must_match() {
    let mut config = AppConfig::default();
    assert!(global_trigger_matches(&config, "keyboard"));
    config.trigger_source = "mouse_x1".to_string();
    assert!(global_trigger_matches(&config, "mouse_x1"));
    assert!(!global_trigger_matches(&config, "mouse_x2"));
}

#[test]
fn hook_actions() {
    assert_eq!(hiword(0x0002_1234), 2);
    assert_eq!(hiword(0xffff_0000), 0xffff);
    assert_eq!(mouse_hook_action(true, MouseEvent::LeftButtonUp), MouseHookAction::CheckOutsideClick);
    assert_eq!(mouse_hook_action(true, MouseEvent::MiddleButtonUp), MouseHookAction::Trigger("mouse_middle"));
    assert_eq!(
        mouse_hook_action(true, MouseEvent::XButtonUp { mouse_data: 0x0001_0000 }),
        MouseHookAction::Trigger("mouse_x1")
    );
    assert_eq!(
        mouse_hook_action(true, MouseEvent::XButtonUp { mouse_data: 0x0002_0000 }),
        MouseHookAction::Trigger("mouse_x2")
    );
    assert_eq!(mouse_hook_action(true, MouseEvent::XButtonUp { mouse_data: 0x0003_0000 }), MouseHookAction::Nothing);
    assert_eq!(mouse_hook_action(false, MouseEvent::MiddleButtonUp), MouseHookAction::Nothing);
    assert_eq!(mouse_hook_action(true, MouseEvent::Other), MouseHookAction::Nothing);
}

#[test]
fn popup_geometry() {
    assert_eq!(popup_origin(100, -5), (118, 13));
    let mut config = AppConfig::default();
    assert_eq!(popup_size(&config), (380, 400));
    config.popup_width = 10;
    config.popup_height = 5000;
    assert_eq!(popup_size(&config), (300, 680));
}

#[test]
fn outside_clicks_hide_the_popup() {
    let frame = Some(PopupFrame { x: 100, y: 100, width: 50, height: 40 });
    assert!(!outside_click_hides_popup(false, Some(true), Some(true), frame, Some((150, 140))));
    assert!(!outside_click_hides_popup(false, Some(true), Some(true), frame, Some((100, 100))));
    assert!(outside_click_hides_popup(false, Some(true), Some(true), frame, Some((151, 120))));
    assert!(!outside_click_hides_popup(true, Some(true), Some(true), frame, Some((0, 0))));
    assert!(!outside_click_hides_popup(false, Some(false), Some(true), frame, Some((0, 0))));
    assert!(!outside_click_hides_popup(false, None, Some(true), frame, Some((0, 0))));
    assert!(!outside_click_hides_popup(false, Some(true), Some(false), frame, Some((0, 0))));
    assert!(!outside_click_hides_popup(false, Some(true), Some(true), None, Some((0, 0))));
    assert!(!outside_click_hides_popup(false, Some(true), Some(true), frame, None));
}

#[test]
fn focus_loss_hides_the_popup() {
    assert!(popup_hides_on_focus_loss(false, Some(true)));
    assert!(popup_hides_on_focus_loss(false, None));
    assert!(!popup_hides_on_focus_loss(false, Some(false)));
    assert!(!popup_hides_on_focus_loss(true, Some(true)));
}

#[test]
fn terminals_are_left_alone() {
    assert_eq!(ensure_safe_foreground_window("ConsoleWindowClass"), Err(SelectionError::TerminalFocused));
    assert_eq!(
        ensure_safe_foreground_window("CASCADIA_HOSTING_WINDOW_CLASS"),
        Err(SelectionError::TerminalFocused)
    );
    assert_eq!(ensure_safe_foreground_window("Notepad"), Ok(()));
    assert_eq!(
        SelectionError::TerminalFocused.message(),
        "当前焦点在终端窗口，已取消取词，避免中断正在运行的开发进程"
    );
}

#[test]
fn clipboard_text_counts_once_it_changes() {
    assert_eq!(read_clipboard_selection(Some(1), Some(2), Some(" new "), Some("new")), Some("new".to_string()));
    assert_eq!(read_clipboard_selection(Some(1), Some(1), Some(" same "), Some("same")), None);
    assert_eq!(read_clipboard_selection(Some(1), Some(1), Some("other"), Some("same")), Some("other".to_string()));
    assert_eq!(read_clipboard_selection(Some(1), Some(1), Some("text"), None), Some("text".to_string()));
    assert_eq!(read_clipboard_selection(None, Some(1), Some(" "), None), None);
    assert_eq!(read_clipboard_selection(None, None, None, None), None);
    assert_eq!(read_clipboard_selection(None, None, Some("x"), Some("x")), None);
}

#[test]
fn captured_text_is_trimmed_and_cut() {
    assert_eq!(truncate_selection("  héllo world ", 3), Ok("hél".to_string()));
    assert_eq!(truncate_selection(" hi ", 280), Ok("hi".to_string()));
    assert_eq!(truncate_selection(" \n ", 5), Err(SelectionError::NothingSelected));
    assert_eq!(truncate_selection("abc", 0), Ok("".to_string()));
}

#[test]
fn mouse_trigger_dispatch_needs_the_configured_source_and_the_debounce() {
    let mut config = AppConfig::default();
    config.trigger_source = "mouse_middle".to_string();
    let mut deadline: Option<u64> = None;
    assert!(!mouse_trigger_dispatches(&config, "mouse_x1", &mut deadline, 1000));
    assert_eq!(deadline, None);
    assert!(mouse_trigger_dispatches(&config, "mouse_middle", &mut deadline, 1000));
    assert_eq!(deadline, Some(1350));
    assert!(!mouse_trigger_dispatches(&config, "mouse_middle", &mut deadline, 1349));
    assert!(mouse_trigger_dispatches(&config, "mouse_middle", &mut deadline, 1350));
    assert_eq!(deadline, Some(1700));
}

#[test]
fn capture_steps_poll_then_fall_back_then_give_up() {
    assert!(matches!(capture_step(CopyShortcut::CtrlC, 1, ClipboardPoll::Read(None)), CaptureStep::PollAgain));
    assert!(matches!(capture_step(CopyShortcut::CtrlC, 13, ClipboardPoll::Read(None)), CaptureStep::PollAgain));
    assert!(matches!(capture_step(CopyShortcut::CtrlC, 14, ClipboardPoll::Read(None)), CaptureStep::TryCtrlInsert));
    assert!(matches!(capture_step(CopyShortcut::CtrlInsert, 14, ClipboardPoll::Read(None)), CaptureStep::NothingCaptured));
    assert!(matches!(capture_step(CopyShortcut::CtrlC, 3, ClipboardPoll::Unavailable), CaptureStep::TryCtrlInsert));
    assert!(matches!(capture_step(CopyShortcut::CtrlInsert, 3, ClipboardPoll::Unavailable), CaptureStep::ClipboardFailed));
    match capture_step(CopyShortcut::CtrlInsert, 2, ClipboardPoll::Read(Some("hello".to_string()))) {
        CaptureStep::Captured(text) => assert_eq!(text, "hello"),
        other => panic!("unexpected {:?}", other),
    }
}
