//! The keys that drive the automatic clicker during an episode: F7 starts or
//! pauses it, F8 ends the episode. Keys are polled; only the moment a key
//! goes down counts, so a key held across several polls acts once.
use vstd::prelude::*;

verus! {

/// The state of the playback loop between two polls of the keys.
pub struct Playback {
    /// The clicker runs.
    pub enabled: bool,
    /// F7 was down at the previous poll.
    pub f7_was_pressed: bool,
    /// F8 was down at the previous poll.
    pub f8_was_pressed: bool,
}

/// What F7 did at a poll.
pub enum Toggle {
    /// The clicker was started.
    Start,
    /// The clicker was paused.
    Pause,
    /// Nothing.
    Unchanged,
}

/// What one poll asks of the loop: what F7 did, whether the episode ends
/// (the loop stops, and the clicker with it), and, when either happened,
/// whether the physical left-button events are to be swallowed from now on.
pub struct PlaybackStep {
    pub toggle: Toggle,
    pub stop: bool,
    pub set_eat: Option<bool>,
}

/// What a poll says of swallowing: the clicker's new state when F7 toggled
/// it or F8 ended the episode, nothing otherwise.
pub open spec fn eat_of_step(s: Playback, f7_pressed: bool, f8_pressed: bool) -> Option<bool> {
    if toggle_of(s, f7_pressed) != Toggle::Unchanged || stops(s, f8_pressed) {
        Some(next_playback(s, f7_pressed, f8_pressed).enabled)
    } else {
        None
    }
}

/// The swallowing flag after a poll's step has been applied to it.
pub open spec fn eat_after(eat: bool, r: PlaybackStep) -> bool {
    match r.set_eat {
        Some(e) => e,
        None => eat,
    }
}

/// The state after a poll that saw F7 and F8 as given.
pub open spec fn next_playback(s: Playback, f7_pressed: bool, f8_pressed: bool) -> Playback {
    let f7_edge = f7_pressed && !s.f7_was_pressed;
    let f8_edge = f8_pressed && !s.f8_was_pressed;
    let after_f7 = if f7_edge {
        !s.enabled
    } else {
        s.enabled
    };
    Playback {
        enabled: if f8_edge {
            false
        } else {
            after_f7
        },
        f7_was_pressed: f7_pressed,
        f8_was_pressed: f8_pressed,
    }
}

/// What F7 does at a poll that saw it as given.
pub open spec fn toggle_of(s: Playback, f7_pressed: bool) -> Toggle {
    if f7_pressed && !s.f7_was_pressed {
        if s.enabled {
            Toggle::Pause
        } else {
            Toggle::Start
        }
    } else {
        Toggle::Unchanged
    }
}

/// Whether a poll that saw F8 as given ends the episode.
pub open spec fn stops(s: Playback, f8_pressed: bool) -> bool {
    f8_pressed && !s.f8_was_pressed
}

impl Playback {
    /// Before the first poll: the clicker is off and no key was down.
    pub fn new() -> (r: Self)
        ensures
            r == (Playback { enabled: false, f7_was_pressed: false, f8_was_pressed: false }),
    {
        Playback { enabled: false, f7_was_pressed: false, f8_was_pressed: false }
    }

    /// One poll of the keys: F7 going down starts a stopped clicker or pauses
    /// a running one; F8 going down stops the clicker and ends the episode.
    pub fn step(&mut self, f7_pressed: bool, f8_pressed: bool) -> (r: PlaybackStep)
        ensures
            *final(self) == next_playback(*old(self), f7_pressed, f8_pressed),
            r.toggle == toggle_of(*old(self), f7_pressed),
            r.stop == stops(*old(self), f8_pressed),
            r.set_eat == eat_of_step(*old(self), f7_pressed, f8_pressed),
    {
        let mut toggle = Toggle::Unchanged;
        if f7_pressed && !self.f7_was_pressed {
            if !self.enabled {
                self.enabled = true;
                toggle = Toggle::Start;
            } else {
                self.enabled = false;
                toggle = Toggle::Pause;
            }
        }
        self.f7_was_pressed = f7_pressed;
        let mut stop = false;
        if f8_pressed && !self.f8_was_pressed {
            self.enabled = false;
            stop = true;
        }
        self.f8_was_pressed = f8_pressed;
        let set_eat = match toggle {
            Toggle::Unchanged => if stop {
                Some(self.enabled)
            } else {
                None
            },
            _ => Some(self.enabled),
        };
        PlaybackStep { toggle, stop, set_eat }
    }
}

/// Swallowing follows the clicker: when physical clicks are swallowed
/// exactly while the clicker runs before a poll, the same holds after the
/// poll's step is applied; in particular, once the episode ends, clicks are
/// no longer swallowed.
pub proof fn lemma_eat_follows_clicker(s: Playback, eat: bool, f7: bool, f8: bool, r: PlaybackStep)
    requires
        eat == s.enabled,
        r.set_eat == eat_of_step(s, f7, f8),
    ensures
        eat_after(eat, r) == next_playback(s, f7, f8).enabled,
        stops(s, f8) ==> !eat_after(eat, r),
{
}

/// A key held down across polls acts once: a second poll that still sees F7
/// down toggles nothing and leaves the clicker as it was; F8 held down does
/// not end the episode twice.
pub proof fn lemma_held_key_acts_once(s: Playback, f7a: bool, f8a: bool, f8b: bool)
    ensures
        ({
            let t = next_playback(s, true, f8a);
            &&& toggle_of(t, true) == Toggle::Unchanged
            &&& next_playback(t, true, f8b).enabled == (t.enabled && !stops(t, f8b))
        }),
        !stops(next_playback(s, f7a, true), true),
{
}

/// Two separate presses of F7 (with F7 released between them and F8 left
/// alone) bring the clicker back to where it was; an F8 press always leaves
/// it stopped.
pub proof fn lemma_toggle_twice(s: Playback)
    requires
        !s.f7_was_pressed,
        !s.f8_was_pressed,
    ensures
        next_playback(next_playback(next_playback(s, true, false), false, false), true, false).enabled
            == s.enabled,
        toggle_of(s, true) == (if s.enabled {
            Toggle::Pause
        } else {
            Toggle::Start
        }),
        forall|f7: bool| #![auto] !next_playback(s, f7, true).enabled,
{
}

/// What the clicker does next.
pub enum ClickAction {
    /// The clicker was turned off: it ends.
    Finish,
    /// The button is not held: wait a little and look again.
    Wait,
    /// Press and release the button once.
    Click,
}

/// The clicker clicks only while it is on and the left button is held; it
/// ends once it is turned off.
pub fn click_decision(enabled: bool, held: bool) -> (r: ClickAction)
    ensures
        (r is Finish) == !enabled,
        (r is Wait) == (enabled && !held),
        (r is Click) == (enabled && held),
{
    if !enabled {
        ClickAction::Finish
    } else if !held {
        ClickAction::Wait
    } else {
        ClickAction::Click
    }
}

} // verus!
