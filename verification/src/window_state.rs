//! Keyboard and window geometry state, fed by the event loop once per tick.

use std::collections::HashMap;
use vstd::prelude::*;

verus! {

broadcast use vstd::std_specs::hash::group_hash_axioms;

/// Scale of the aspect ratio returned by [`WindowState::get_aspect`]:
/// the ratio is reported in millionths, so a square window reports
/// exactly `ASPECT_SCALE`.
pub const ASPECT_SCALE: u64 = 1_000_000;

/// Whether a key map reports `code` as currently held down. Keys that were
/// never recorded default to "not down".
pub open spec fn key_is_down(keys: Map<u32, bool>, code: u32) -> bool {
    keys.contains_key(code) && keys[code]
}

/// The aspect ratio of a `width` x `height` window in millionths,
/// or `None` for a zero-height window (instead of dividing by zero).
pub open spec fn spec_aspect(width: u32, height: u32) -> Option<u64> {
    if height == 0 {
        None
    } else {
        Some((((width * ASPECT_SCALE) as int / height as int) as u64))
    }
}

/// Tracks the pressed-key set and the last-known window and mouse geometry.
/// Pure data: event callbacks write it, the camera reads it.
pub struct WindowState {
    states: HashMap<u32, bool>,
    width: u32,
    height: u32,
    mouse_x: i32,
    mouse_y: i32,
}

impl WindowState {
    /// The recorded key states: present keys map to their last recorded
    /// up/down value; absent keys were never seen.
    pub closed spec fn keys(&self) -> Map<u32, bool> {
        self.states@
    }

    pub closed spec fn spec_width(&self) -> u32 {
        self.width
    }

    pub closed spec fn spec_height(&self) -> u32 {
        self.height
    }

    pub closed spec fn spec_mouse(&self) -> (i32, i32) {
        (self.mouse_x, self.mouse_y)
    }

    /// A fresh state: no key was ever recorded, and the mouse starts at the
    /// window's center.
    pub fn new(width: u32, height: u32) -> (s: Self)
        ensures
            s.keys() == Map::<u32, bool>::empty(),
            s.spec_width() == width,
            s.spec_height() == height,
            s.spec_mouse() == (((width / 2) as i32), ((height / 2) as i32)),
    {
        WindowState {
            states: HashMap::new(),
            width,
            height,
            mouse_x: (width / 2) as i32,
            mouse_y: (height / 2) as i32,
        }
    }

    /// Record that `code` went down or up.
    pub fn switch(&mut self, code: u32, down: bool)
        ensures
            final(self).keys() == old(self).keys().insert(code, down),
            final(self).spec_width() == old(self).spec_width(),
            final(self).spec_height() == old(self).spec_height(),
            final(self).spec_mouse() == old(self).spec_mouse(),
    {
        self.states.insert(code, down);
    }

    /// Whether `code` is currently held down; a key never recorded is not down.
    pub fn is_down(&self, code: u32) -> (down: bool)
        ensures
            down == key_is_down(self.keys(), code),
    {
        match self.states.get(&code) {
            Some(down) => *down,
            None => false,
        }
    }

    pub fn get_mouse_pos(&self) -> (pos: (i32, i32))
        ensures
            pos == self.spec_mouse(),
    {
        (self.mouse_x, self.mouse_y)
    }

    pub fn get_window_size(&self) -> (size: (u32, u32))
        ensures
            size == (self.spec_width(), self.spec_height()),
    {
        (self.width, self.height)
    }

    /// Record the window size reported by a resize event.
    pub fn update_size(&mut self, width: u32, height: u32)
        ensures
            final(self).spec_width() == width,
            final(self).spec_height() == height,
            final(self).keys() == old(self).keys(),
            final(self).spec_mouse() == old(self).spec_mouse(),
    {
        self.width = width;
        self.height = height;
    }

    /// Record the mouse position reported by a mouse-move event.
    pub fn update_mouse(&mut self, mouse_x: i32, mouse_y: i32)
        ensures
            final(self).spec_mouse() == (mouse_x, mouse_y),
            final(self).keys() == old(self).keys(),
            final(self).spec_width() == old(self).spec_width(),
            final(self).spec_height() == old(self).spec_height(),
    {
        self.mouse_x = mouse_x;
        self.mouse_y = mouse_y;
    }

    /// The window's aspect ratio in millionths of width over height, and
    /// `None` for a zero-height window: the division by zero that a raw
    /// `width / height` would hit is rejected explicitly.
    pub fn get_aspect(&self) -> (aspect: Option<u64>)
        ensures
            aspect == spec_aspect(self.spec_width(), self.spec_height()),
    {
        if self.height == 0 {
            None
        } else {
            Some(((self.width as u64) * ASPECT_SCALE) / (self.height as u64))
        }
    }
}

/// The key map that results from replaying a sequence of `(code, down)`
/// events, oldest first, onto `keys`.
pub open spec fn apply_key_events(keys: Map<u32, bool>, events: Seq<(u32, bool)>) -> Map<u32, bool>
    decreases events.len(),
{
    if events.len() == 0 {
        keys
    } else {
        apply_key_events(keys.insert(events[0].0, events[0].1), events.drop_first())
    }
}

proof fn lemma_unseen_key_stays_absent(keys: Map<u32, bool>, events: Seq<(u32, bool)>, code: u32)
    requires
        !keys.contains_key(code),
        forall|i: int| 0 <= i < events.len() ==> (#[trigger] events[i]).0 != code,
    ensures
        !apply_key_events(keys, events).contains_key(code),
    decreases events.len(),
{
    if events.len() > 0 {
        assert(events[0].0 != code);
        lemma_unseen_key_stays_absent(keys.insert(events[0].0, events[0].1), events.drop_first(), code);
    }
}

/// A key that no event of the session ever touched is reported as not down:
/// replaying any event sequence that never names `code` onto a fresh key map
/// leaves `code` not down.
pub proof fn lemma_never_pressed_key_is_up(events: Seq<(u32, bool)>, code: u32)
    requires
        forall|i: int| 0 <= i < events.len() ==> (#[trigger] events[i]).0 != code,
    ensures
        !key_is_down(apply_key_events(Map::<u32, bool>::empty(), events), code),
{
    lemma_unseen_key_stays_absent(Map::<u32, bool>::empty(), events, code);
}

} // verus!
