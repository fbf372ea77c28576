//! The rules of the lookup popup and of the global mouse triggers: debouncing,
//! dragging, where the popup shows, and when a click or lost focus hides it.
use vstd::prelude::*;

use crate::models::AppConfig;
use crate::text::{chars_equal, chars_of};

verus! {

/// How long a mouse trigger blocks the next one, in milliseconds.
pub const MOUSE_TRIGGER_DEBOUNCE_MS: u64 = 350;

/// How long a click outside the popup blocks the next check, in milliseconds.
pub const OUTSIDE_CLICK_DEBOUNCE_MS: u64 = 80;

/// How long a drag of the popup keeps it from hiding, in milliseconds.
pub const POPUP_DRAG_MS: u64 = 1200;

/// How far from the cursor the popup shows, in pixels on each axis.
pub const POPUP_CURSOR_OFFSET: i32 = 18;

/// Whether an event at `now` passes a debounce that blocks until `deadline`,
/// and the deadline after it: an event passes unless the deadline lies
/// after `now`, and one that passes moves the deadline to `now + window`.
pub open spec fn debounce(deadline: Option<u64>, now: u64, window: u64) -> (bool, Option<u64>) {
    if deadline matches Some(d) && d > now {
        (false, deadline)
    } else {
        (true, Some((now + window) as u64))
    }
}

fn allow_after_debounce(deadline: &mut Option<u64>, now: u64, window: u64) -> (r: bool)
    requires
        now + window <= u64::MAX,
    ensures
        (r, *final(deadline)) == debounce(*old(deadline), now, window),
{
    if let Some(d) = *deadline {
        if d > now {
            return false;
        }
    }
    *deadline = Some(now + window);
    true
}

/// Whether a mouse trigger at `now` (milliseconds on a monotonic clock) is
/// let through; one that is blocks the next for 350 ms.
pub fn allow_mouse_trigger(deadline: &mut Option<u64>, now: u64) -> (r: bool)
    requires
        now + MOUSE_TRIGGER_DEBOUNCE_MS <= u64::MAX,
    ensures
        (r, *final(deadline)) == debounce(*old(deadline), now, MOUSE_TRIGGER_DEBOUNCE_MS),
{
    allow_after_debounce(deadline, now, MOUSE_TRIGGER_DEBOUNCE_MS)
}

/// Whether a check for a click outside the popup at `now` is let through;
/// one that is blocks the next for 80 ms.
pub fn allow_outside_click_check(deadline: &mut Option<u64>, now: u64) -> (r: bool)
    requires
        now + OUTSIDE_CLICK_DEBOUNCE_MS <= u64::MAX,
    ensures
        (r, *final(deadline)) == debounce(*old(deadline), now, OUTSIDE_CLICK_DEBOUNCE_MS),
{
    allow_after_debounce(deadline, now, OUTSIDE_CLICK_DEBOUNCE_MS)
}

/// An event that passes blocks every event after it within the window, and
/// none at or after the window's end.
pub proof fn lemma_debounce_window(deadline: Option<u64>, now: u64, window: u64, later: u64)
    requires
        debounce(deadline, now, window).0,
        now + window <= u64::MAX,
        now <= later,
    ensures
        !debounce(debounce(deadline, now, window).1, later, window).0 <==> later < now + window,
{
}

/// The end of the drag that starts at `now`.
pub fn popup_drag_deadline(now: u64) -> (r: u64)
    requires
        now + POPUP_DRAG_MS <= u64::MAX,
    ensures
        r == now + POPUP_DRAG_MS,
{
    now + POPUP_DRAG_MS
}

/// Whether the popup is being dragged at `now`.
pub fn popup_drag_in_progress(drag_until: Option<u64>, now: u64) -> (r: bool)
    ensures
        r == (drag_until matches Some(d) && now <= d),
{
    match drag_until {
        Some(d) => now <= d,
        None => false,
    }
}

/// Whether a trigger of this source starts a lookup under the configuration.
pub fn global_trigger_matches(config: &AppConfig, trigger_source: &str) -> (r: bool)
    ensures
        r == (config@.trigger_source == trigger_source@),
{
    let a = chars_of(config.trigger_source.as_str());
    let b = chars_of(trigger_source);
    chars_equal(&a, &b)
}

/// Whether a mouse trigger of this source at `now` starts a lookup: only a
/// source that the configuration names does, and only where it then passes
/// the debounce, which a trigger of another source leaves untouched.
pub fn mouse_trigger_dispatches(
    config: &AppConfig,
    trigger_source: &str,
    deadline: &mut Option<u64>,
    now: u64,
) -> (r: bool)
    requires
        now + MOUSE_TRIGGER_DEBOUNCE_MS <= u64::MAX,
    ensures
        config@.trigger_source != trigger_source@ ==> !r && *final(deadline) == *old(deadline),
        config@.trigger_source == trigger_source@ ==> (r, *final(deadline)) == debounce(
            *old(deadline),
            now,
            MOUSE_TRIGGER_DEBOUNCE_MS,
        ),
{
    if !global_trigger_matches(config, trigger_source) {
        return false;
    }
    allow_mouse_trigger(deadline, now)
}

/// The high 16 bits of a 32-bit word.
pub fn hiword(value: u32) -> (r: u16)
    ensures
        r == value / 65536,
{
    assert(((value >> 16u32) & 0xffffu32) == value / 65536) by (bit_vector);
    ((value >> 16) & 0xffff) as u16
}

/// A mouse event that the low-level hook sees.
#[derive(Debug, Clone, Copy, PartialEq, Eq)]
pub enum MouseEvent {
    LeftButtonUp,
    MiddleButtonUp,
    /// A side button released; `mouse_data` names the button in its high word.
    XButtonUp { mouse_data: u32 },
    Other,
}

/// What the mouse hook does with an event.
#[derive(Debug, Clone, Copy, PartialEq, Eq)]
pub enum MouseHookAction {
    Nothing,
    /// Check whether the click landed outside the popup.
    CheckOutsideClick,
    /// Start a lookup from this trigger source.
    Trigger(&'static str),
}

pub open spec fn hook_action(is_action: bool, event: MouseEvent) -> Option<Option<Seq<char>>> {
    if !is_action {
        None
    } else {
        match event {
            MouseEvent::LeftButtonUp => Some(None),
            MouseEvent::MiddleButtonUp => Some(Some("mouse_middle"@)),
            MouseEvent::XButtonUp { mouse_data } => if mouse_data / 65536 == 1 {
                Some(Some("mouse_x1"@))
            } else if mouse_data / 65536 == 2 {
                Some(Some("mouse_x2"@))
            } else {
                None
            },
            MouseEvent::Other => None,
        }
    }
}

/// The hook's decision for an event (`is_action` where the hook code is
/// `HC_ACTION`): a left click checks for a click outside the popup; the middle
/// button and side buttons 1 and 2 start a lookup.
pub fn mouse_hook_action(is_action: bool, event: MouseEvent) -> (r: MouseHookAction)
    ensures
        match hook_action(is_action, event) {
            None => r == MouseHookAction::Nothing,
            Some(None) => r == MouseHookAction::CheckOutsideClick,
            Some(Some(source)) => r matches MouseHookAction::Trigger(s) && s@ == source,
        },
{
    if !is_action {
        return MouseHookAction::Nothing;
    }
    match event {
        MouseEvent::LeftButtonUp => MouseHookAction::CheckOutsideClick,
        MouseEvent::MiddleButtonUp => MouseHookAction::Trigger("mouse_middle"),
        MouseEvent::XButtonUp { mouse_data } => {
            let button = hiword(mouse_data);
            if button == 1 {
                MouseHookAction::Trigger("mouse_x1")
            } else if button == 2 {
                MouseHookAction::Trigger("mouse_x2")
            } else {
                MouseHookAction::Nothing
            }
        },
        MouseEvent::Other => MouseHookAction::Nothing,
    }
}

/// Where the popup shows for a cursor position.
pub fn popup_origin(cursor_x: i32, cursor_y: i32) -> (r: (i32, i32))
    requires
        cursor_x + POPUP_CURSOR_OFFSET <= i32::MAX,
        cursor_y + POPUP_CURSOR_OFFSET <= i32::MAX,
    ensures
        r.0 == cursor_x + POPUP_CURSOR_OFFSET,
        r.1 == cursor_y + POPUP_CURSOR_OFFSET,
{
    (cursor_x + POPUP_CURSOR_OFFSET, cursor_y + POPUP_CURSOR_OFFSET)
}

pub open spec fn clamp_u32(v: u32, lo: u32, hi: u32) -> u32 {
    if v < lo {
        lo
    } else if v > hi {
        hi
    } else {
        v
    }
}

/// The popup's size under a configuration: its width clamped to
/// `[300, 520]`, its height to `[120, 680]`.
pub fn popup_size(config: &AppConfig) -> (r: (u32, u32))
    ensures
        r == (clamp_u32(config@.popup_width, 300, 520), clamp_u32(config@.popup_height, 120, 680)),
{
    let w = if config.popup_width < 300 {
        300
    } else if config.popup_width > 520 {
        520
    } else {
        config.popup_width
    };
    let h = if config.popup_height < 120 {
        120
    } else if config.popup_height > 680 {
        680
    } else {
        config.popup_height
    };
    (w, h)
}

/// The popup's outer position and size on screen.
#[derive(Debug, Clone, Copy, PartialEq, Eq)]
pub struct PopupFrame {
    pub x: i32,
    pub y: i32,
    pub width: u32,
    pub height: u32,
}

pub open spec fn frame_fits(f: PopupFrame) -> bool {
    f.width <= i32::MAX && f.height <= i32::MAX && f.x + f.width <= i32::MAX && f.y + f.height
        <= i32::MAX
}

/// Whether a point lies in the frame, edges included.
pub open spec fn inside_frame(f: PopupFrame, px: i32, py: i32) -> bool {
    f.x <= px <= f.x + f.width && f.y <= py <= f.y + f.height
}

/// Whether a click hides the popup: not while it is dragged, only where the
/// configuration closes it on lost focus, only while it is visible, and only
/// for a click outside it. Each observation is `None` where it could not be
/// made, which leaves the popup as it is.
pub fn outside_click_hides_popup(
    drag_in_progress: bool,
    close_on_focus_loss: Option<bool>,
    popup_visible: Option<bool>,
    frame: Option<PopupFrame>,
    cursor: Option<(i32, i32)>,
) -> (r: bool)
    requires
        frame matches Some(f) ==> frame_fits(f),
    ensures
        r == (!drag_in_progress && close_on_focus_loss == Some(true) && popup_visible == Some(true)
            && match (frame, cursor) {
            (Some(f), Some((px, py))) => !inside_frame(f, px, py),
            _ => false,
        }),
{
    if drag_in_progress {
        return false;
    }
    match close_on_focus_loss {
        Some(true) => {},
        _ => return false,
    }
    match popup_visible {
        Some(true) => {},
        _ => return false,
    }
    let f = match frame {
        Some(f) => f,
        None => return false,
    };
    let (x, y) = match cursor {
        Some(c) => c,
        None => return false,
    };
    let right = f.x + f.width as i32;
    let bottom = f.y + f.height as i32;
    let inside = x >= f.x && x <= right && y >= f.y && y <= bottom;
    !inside
}

/// Whether the popup hides when it loses focus: not while it is dragged;
/// otherwise as the configuration says, and where that cannot be read, yes.
pub fn popup_hides_on_focus_loss(drag_in_progress: bool, close_on_focus_loss: Option<bool>) -> (r: bool)
    ensures
        r == (!drag_in_progress && match close_on_focus_loss {
            Some(b) => b,
            None => true,
        }),
{
    if drag_in_progress {
        return false;
    }
    match close_on_focus_loss {
        Some(b) => b,
        None => true,
    }
}

} // verus!
