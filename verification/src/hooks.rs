//! What the low-level input hooks remember, and how the playback keys drive
//! the automatic clicker.
//!
//! The operating system hands each mouse or keyboard event to a hook; the
//! hook records whether the left button and the F7/F8 keys are down, and,
//! while the clicker runs, swallows the physical button events so that only
//! the generated clicks reach the player.
use vstd::prelude::*;

verus! {

/// The hook code of an event that the hook must act on.
pub const HC_ACTION: i32 = 0;

/// Left mouse button pressed.
pub const WM_LBUTTONDOWN: u32 = 0x0201;

/// Left mouse button released.
pub const WM_LBUTTONUP: u32 = 0x0202;

/// A key pressed.
pub const WM_KEYDOWN: u32 = 0x0100;

/// A key released.
pub const WM_KEYUP: u32 = 0x0101;

/// The virtual key code of F7.
pub const VK_F7: u32 = 0x76;

/// The virtual key code of F8.
pub const VK_F8: u32 = 0x77;

/// What the hooks have seen so far.
pub struct HookState {
    /// The left mouse button is physically held down.
    pub mouse_held: bool,
    /// F7 is down.
    pub f7_down: bool,
    /// F8 is down.
    pub f8_down: bool,
    /// Physical left-button events are swallowed.
    pub eat: bool,
}

/// An event of the mouse hook concerns the physical left button: the hook
/// must act on it, it was not injected (bit 0 of its flags is clear), and it
/// is a press or a release.
pub open spec fn physical_button_event(n_code: i32, msg: u32, flags: u32) -> bool {
    &&& n_code == HC_ACTION
    &&& flags & 1u32 == 0
    &&& (msg == WM_LBUTTONDOWN || msg == WM_LBUTTONUP)
}

/// Whether a key event of the keyboard hook sets (`Some(true)`), clears
/// (`Some(false)`) or leaves (`None`) the state of the key `key`.
pub open spec fn key_change(n_code: i32, msg: u32, vk: u32, key: u32) -> Option<bool> {
    if n_code == HC_ACTION && vk == key && msg == WM_KEYDOWN {
        Some(true)
    } else if n_code == HC_ACTION && vk == key && msg == WM_KEYUP {
        Some(false)
    } else {
        None
    }
}

/// The record after one event of the mouse hook: a physical press sets the
/// button as held, a physical release clears it, anything else changes
/// nothing.
pub open spec fn after_mouse(s: HookState, n_code: i32, msg: u32, flags: u32) -> HookState {
    if physical_button_event(n_code, msg, flags) {
        HookState { mouse_held: msg == WM_LBUTTONDOWN, ..s }
    } else {
        s
    }
}

/// `old` changed as `change` says.
pub open spec fn apply_change(old: bool, change: Option<bool>) -> bool {
    match change {
        Some(b) => b,
        None => old,
    }
}

impl HookState {
    /// Nothing held, nothing swallowed.
    pub fn new() -> (r: Self)
        ensures
            !r.mouse_held,
            !r.f7_down,
            !r.f8_down,
            !r.eat,
    {
        HookState { mouse_held: false, f7_down: false, f8_down: false, eat: false }
    }

    /// Records one event of the low-level mouse hook, given as its hook code,
    /// its message (the hook's `w_param`) and the flags of the event. Returns
    /// whether the event is swallowed; otherwise it is passed on to the next
    /// hook.
    pub fn on_mouse(&mut self, n_code: i32, w_param: usize, flags: u32) -> (swallow: bool)
        ensures
            *final(self) == after_mouse(*old(self), n_code, w_param as u32, flags),
            swallow == (physical_button_event(n_code, w_param as u32, flags) && old(self).eat),
    {
        let msg = w_param as u32;
        if n_code == HC_ACTION && flags & 1 == 0 {
            if msg == WM_LBUTTONDOWN {
                self.mouse_held = true;
                return self.eat;
            } else if msg == WM_LBUTTONUP {
                self.mouse_held = false;
                return self.eat;
            }
        }
        false
    }

    /// Records one event of the low-level keyboard hook, given as its hook
    /// code, its message (the hook's `w_param`) and the virtual key code.
    /// Key events are always passed on.
    pub fn on_key(&mut self, n_code: i32, w_param: usize, vk: u32)
        ensures
            final(self).f7_down == apply_change(
                old(self).f7_down,
                key_change(n_code, w_param as u32, vk, VK_F7),
            ),
            final(self).f8_down == apply_change(
                old(self).f8_down,
                key_change(n_code, w_param as u32, vk, VK_F8),
            ),
            final(self).mouse_held == old(self).mouse_held,
            final(self).eat == old(self).eat,
    {
        let msg = w_param as u32;
        if n_code == HC_ACTION {
            if msg == WM_KEYDOWN {
                if vk == VK_F7 {
                    self.f7_down = true;
                }
                if vk == VK_F8 {
                    self.f8_down = true;
                }
            } else if msg == WM_KEYUP {
                if vk == VK_F7 {
                    self.f7_down = false;
                }
                if vk == VK_F8 {
                    self.f8_down = false;
                }
            }
        }
    }
}

/// Whether the left mouse button is physically held down.
pub fn held(state: &HookState) -> (r: bool)
    ensures
        r == state.mouse_held,
{
    state.mouse_held
}

/// Whether the left mouse button is physically held down (the mouse-only
/// hook of the clicker keeps the same record).
pub fn is_held(state: &HookState) -> (r: bool)
    ensures
        r == state.mouse_held,
{
    state.mouse_held
}

/// Whether F7 is down.
pub fn f7(state: &HookState) -> (r: bool)
    ensures
        r == state.f7_down,
{
    state.f7_down
}

/// Whether F8 is down.
pub fn f8(state: &HookState) -> (r: bool)
    ensures
        r == state.f8_down,
{
    state.f8_down
}

/// Starts or stops swallowing the physical left-button events.
pub fn set_eat(state: &mut HookState, v: bool)
    ensures
        final(state).eat == v,
        final(state).mouse_held == old(state).mouse_held,
        final(state).f7_down == old(state).f7_down,
        final(state).f8_down == old(state).f8_down,
{
    state.eat = v;
}

/// Injected events (bit 0 of the flags set) never change the record, and
/// whether or not the events are swallowed, a physical press followed by a
/// physical release leaves the button not held, with the keys and the
/// swallowing untouched.
pub proof fn lemma_mouse_record(s: HookState, flags: u32, n_code: i32, msg: u32)
    ensures
        flags & 1u32 != 0 ==> after_mouse(s, n_code, msg, flags) == s,
        flags & 1u32 == 0 ==> after_mouse(
            after_mouse(s, HC_ACTION, WM_LBUTTONDOWN, flags),
            HC_ACTION,
            WM_LBUTTONUP,
            flags,
        ) == (HookState { mouse_held: false, ..s }),
        after_mouse(s, n_code, msg, flags).eat == s.eat,
{
}

} // verus!
