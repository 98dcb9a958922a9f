//! One user-interface event at a time, with a consumption ledger.
//!
//! A `UserInput` wraps the single event of the current frame. As handlers
//! probe it, it records which key would do what, so an on-screen display
//! of possible actions can be built, and it marks the event consumed as
//! soon as one handler claims it, so two handlers never act on the same
//! event.

use vstd::prelude::*;

use vstd::string::StringExecFns;

verus! {

/// The keys the handlers in this crate bind.
#[derive(Clone, Copy, PartialEq, Eq, Structural, Debug, Hash)]
pub enum Key {
    LeftControl,
    Enter,
    Escape,
    Space,
    F2,
    C,
    R,
    X,
}

/// A point on the screen, in pixels.
#[derive(Clone, Copy, PartialEq, Eq, Structural, Debug)]
pub struct ScreenPt {
    pub x: i64,
    pub y: i64,
}

/// One window-system event.
#[derive(Clone, Copy, PartialEq, Eq, Structural, Debug)]
pub enum Event {
    KeyPress(Key),
    KeyRelease(Key),
    LeftMouseButtonDown,
    LeftMouseButtonUp,
    WindowGainedCursor,
    WindowLostCursor,
    MouseMovedTo(ScreenPt),
    /// Wheel movement in scroll lines, negative meaning down.
    MouseWheelScroll(i64),
    Update,
    WindowResized(u32, u32),
}

/// The window state the input layer maintains.
pub struct Canvas {
    pub window_width: u32,
    pub window_height: u32,
    pub lctrl_held: bool,
    pub dragging: bool,
}

impl Canvas {
    pub fn new(window_width: u32, window_height: u32) -> (r: Canvas)
        ensures
            r == (Canvas { window_width, window_height, lctrl_held: false, dragging: false }),
    {
        Canvas { window_width, window_height, lctrl_held: false, dragging: false }
    }

    pub fn is_dragging(&self) -> (r: bool)
        ensures
            r == self.dragging,
    {
        self.dragging
    }
}

/// One line of structured screen text; the shell decides how to word it.
pub enum TextLine {
    /// "Press this key to do that."
    KeyHint { key: Key, action: String },
    /// A free-form heading or prompt.
    Prompt(String),
    /// No object has the focus.
    Unfocused,
    /// This object has the focus.
    FocusedOn(String),
    /// A click would move the focus to this object.
    ClickToFocus(String),
    /// A click would move the focus from the current object to this one.
    ClickToFocusInstead(String),
    /// A click would drop the focus.
    ClickToUnfocus,
}

/// A block of structured screen text.
pub struct Text {
    pub lines: Vec<TextLine>,
}

impl Text {
    pub fn new() -> (r: Text)
        ensures
            r.lines@.len() == 0,
    {
        Text { lines: Vec::new() }
    }
}

/// The single event of the current frame, the consumption flag, and the
/// ledger of advertised actions.
pub struct UserInput {
    pub event: Event,
    pub event_consumed: bool,
    /// Key bindings advertised this frame, for the on-screen display.
    pub important_actions: Vec<(Key, String)>,
    /// Which handler reads each key; a second reader replaces the first.
    pub reserved_keys: Vec<(Key, String)>,
}

impl UserInput {
    /// Wraps this frame's event. Window bookkeeping happens first: a
    /// resize records the new size, and the control key toggles its flag.
    pub fn new(event: Event, canvas: &mut Canvas) -> (r: UserInput)
        ensures
            r.event == event,
            !r.event_consumed,
            r.important_actions@.len() == 0,
            r.reserved_keys@.len() == 0,
            final(canvas).window_width == match event {
                Event::WindowResized(w, _) => w,
                _ => old(canvas).window_width,
            },
            final(canvas).window_height == match event {
                Event::WindowResized(_, h) => h,
                _ => old(canvas).window_height,
            },
            final(canvas).lctrl_held == if event == Event::KeyPress(Key::LeftControl) {
                true
            } else if event == Event::KeyRelease(Key::LeftControl) {
                false
            } else {
                old(canvas).lctrl_held
            },
            final(canvas).dragging == old(canvas).dragging,
    {
        let input = UserInput {
            event,
            event_consumed: false,
            important_actions: Vec::new(),
            reserved_keys: Vec::new(),
        };
        if let Event::WindowResized(width, height) = input.event {
            canvas.window_width = width;
            canvas.window_height = height;
        }
        if input.event == Event::KeyPress(Key::LeftControl) {
            canvas.lctrl_held = true;
        }
        if input.event == Event::KeyRelease(Key::LeftControl) {
            canvas.lctrl_held = false;
        }
        input
    }

    /// Records that `key` reads as `action` this frame; a later reader of
    /// the same key replaces the earlier entry.
    #[verifier::loop_isolation(false)]
    fn reserve_key(&mut self, key: Key, action: &str)
        ensures
            final(self).event == old(self).event,
            final(self).event_consumed == old(self).event_consumed,
            final(self).important_actions@ == old(self).important_actions@,
            exists|k: int|
                0 <= k < final(self).reserved_keys@.len() && (
                #[trigger] final(self).reserved_keys@[k]).0 == key
                    && final(self).reserved_keys@[k].1@ == action@,
    {
        let mut i: usize = 0;
        while i < self.reserved_keys.len()
            invariant
                i <= self.reserved_keys.len(),
                self.event == old(self).event,
                self.event_consumed == old(self).event_consumed,
                self.important_actions@ == old(self).important_actions@,
            decreases self.reserved_keys.len() - i,
        {
            if self.reserved_keys[i].0 == key {
                self.reserved_keys[i] = (key, String::from_str(action));
                proof {
                    assert(self.reserved_keys@[i as int].0 == key);
                }
                return;
            }
            i = i + 1;
        }
        self.reserved_keys.push((key, String::from_str(action)));
        proof {
            assert(self.reserved_keys@[self.reserved_keys@.len() - 1].0 == key);
        }
    }

    /// Advertises the binding on the on-screen display and claims the
    /// event when it is exactly this key press and nothing consumed it
    /// yet.
    pub fn key_pressed(&mut self, key: Key, action: &str) -> (r: bool)
        ensures
            r == (!old(self).event_consumed && old(self).event == Event::KeyPress(key)),
            final(self).event == old(self).event,
            final(self).event_consumed == (old(self).event_consumed || r),
            final(self).important_actions@.len() == old(self).important_actions@.len() + 1,
            forall|k: int|
                0 <= k < old(self).important_actions@.len() ==> (
                #[trigger] final(self).important_actions@[k]) == old(self).important_actions@[k],
            final(self).important_actions@.last().0 == key,
            final(self).important_actions@.last().1@ == action@,
            exists|k: int|
                0 <= k < final(self).reserved_keys@.len() && (
                #[trigger] final(self).reserved_keys@[k]).0 == key
                    && final(self).reserved_keys@[k].1@ == action@,
    {
        let r = if self.event_consumed {
            false
        } else if self.event == Event::KeyPress(key) {
            self.consume_event();
            true
        } else {
            false
        };
        self.important_actions.push((key, String::from_str(action)));
        self.reserve_key(key, action);
        r
    }

    /// Like `key_pressed`, without advertising the binding.
    pub fn unimportant_key_pressed(&mut self, key: Key, action: &str) -> (r: bool)
        ensures
            r == (!old(self).event_consumed && old(self).event == Event::KeyPress(key)),
            final(self).event == old(self).event,
            final(self).event_consumed == (old(self).event_consumed || r),
            final(self).important_actions@ == old(self).important_actions@,
            exists|k: int|
                0 <= k < final(self).reserved_keys@.len() && (
                #[trigger] final(self).reserved_keys@[k]).0 == key
                    && final(self).reserved_keys@[k].1@ == action@,
    {
        let r = if self.event_consumed {
            false
        } else if self.event == Event::KeyPress(key) {
            self.consume_event();
            true
        } else {
            false
        };
        self.reserve_key(key, action);
        r
    }

    /// Claims the event when it is exactly this key release and nothing
    /// consumed it yet.
    pub fn key_released(&mut self, key: Key) -> (r: bool)
        ensures
            r == (!old(self).event_consumed && old(self).event == Event::KeyRelease(key)),
            final(self).event == old(self).event,
            final(self).event_consumed == (old(self).event_consumed || r),
            final(self).important_actions@ == old(self).important_actions@,
            final(self).reserved_keys@ == old(self).reserved_keys@,
    {
        if self.event_consumed {
            return false;
        }
        if self.event == Event::KeyRelease(key) {
            self.consume_event();
            return true;
        }
        false
    }

    /// Mouse buttons are never consumed: every handler may see them.
    pub fn left_mouse_button_pressed(&mut self) -> (r: bool)
        ensures
            r == (old(self).event == Event::LeftMouseButtonDown),
            *final(self) == *old(self),
    {
        self.event == Event::LeftMouseButtonDown
    }

    pub fn left_mouse_button_released(&mut self) -> (r: bool)
        ensures
            r == (old(self).event == Event::LeftMouseButtonUp),
            *final(self) == *old(self),
    {
        self.event == Event::LeftMouseButtonUp
    }

    pub fn window_gained_cursor(&mut self) -> (r: bool)
        ensures
            r == (old(self).event == Event::WindowGainedCursor),
            *final(self) == *old(self),
    {
        self.event == Event::WindowGainedCursor
    }

    pub fn window_lost_cursor(&self) -> (r: bool)
        ensures
            r == (self.event == Event::WindowLostCursor),
    {
        self.event == Event::WindowLostCursor
    }

    pub fn get_moved_mouse(&self) -> (r: Option<ScreenPt>)
        ensures
            r == match self.event {
                Event::MouseMovedTo(pt) => Some(pt),
                _ => None::<ScreenPt>,
            },
    {
        if let Event::MouseMovedTo(pt) = self.event {
            return Some(pt);
        }
        None
    }

    pub fn get_mouse_scroll(&self) -> (r: Option<i64>)
        ensures
            r == match self.event {
                Event::MouseWheelScroll(dy) => Some(dy),
                _ => None::<i64>,
            },
    {
        if let Event::MouseWheelScroll(dy) = self.event {
            return Some(dy);
        }
        None
    }

    /// Whether this frame carries the periodic update event, without
    /// claiming it.
    pub fn nonblocking_is_update_event(&mut self) -> (r: bool)
        ensures
            r == (!old(self).event_consumed && old(self).event == Event::Update),
            *final(self) == *old(self),
    {
        if self.event_consumed {
            return false;
        }
        self.event == Event::Update
    }

    /// Claims the update event; the caller must have seen it first.
    pub fn use_update_event(&mut self)
        requires
            !old(self).event_consumed,
            old(self).event == Event::Update,
        ensures
            final(self).event == old(self).event,
            final(self).event_consumed,
            final(self).important_actions@ == old(self).important_actions@,
            final(self).reserved_keys@ == old(self).reserved_keys@,
    {
        self.consume_event();
    }

    /// Whether this frame carries any key press, without claiming it.
    pub fn nonblocking_is_keypress_event(&mut self) -> (r: bool)
        ensures
            r == (!old(self).event_consumed && old(self).event is KeyPress),
            *final(self) == *old(self),
    {
        if self.event_consumed {
            return false;
        }
        match self.event {
            Event::KeyPress(_) => true,
            _ => false,
        }
    }

    /// Hands out the raw event, claiming it, unless already consumed.
    pub fn use_event_directly(&mut self) -> (r: Option<Event>)
        ensures
            r == if old(self).event_consumed {
                None::<Event>
            } else {
                Some(old(self).event)
            },
            final(self).event == old(self).event,
            final(self).event_consumed,
            final(self).important_actions@ == old(self).important_actions@,
            final(self).reserved_keys@ == old(self).reserved_keys@,
    {
        if self.event_consumed {
            return None;
        }
        self.consume_event();
        Some(self.event)
    }

    /// Marks the event claimed; claiming twice is a handler bug, ruled
    /// out here.
    fn consume_event(&mut self)
        requires
            !old(self).event_consumed,
        ensures
            final(self).event == old(self).event,
            final(self).event_consumed,
            final(self).important_actions@ == old(self).important_actions@,
            final(self).reserved_keys@ == old(self).reserved_keys@,
    {
        self.event_consumed = true;
    }

    pub fn has_been_consumed(&self) -> (r: bool)
        ensures
            r == self.event_consumed,
    {
        self.event_consumed
    }

    /// Drains the advertised bindings into the on-screen display, one
    /// hint line per binding, in the order they were advertised.
    #[verifier::loop_isolation(false)]
    pub fn populate_osd(&mut self, osd: &mut Text)
        ensures
            final(self).event == old(self).event,
            final(self).event_consumed == old(self).event_consumed,
            final(self).important_actions@.len() == 0,
            final(self).reserved_keys@ == old(self).reserved_keys@,
            final(osd).lines@.len() == old(osd).lines@.len() + old(self).important_actions@.len(),
            forall|k: int|
                0 <= k < old(osd).lines@.len() ==> (#[trigger] final(osd).lines@[k]) == old(
                    osd,
                ).lines@[k],
            forall|k: int|
                0 <= k < old(self).important_actions@.len()
                    ==> (#[trigger] final(osd).lines@[old(osd).lines@.len() + k])
                    == (TextLine::KeyHint {
                    key: old(self).important_actions@[k].0,
                    action: old(self).important_actions@[k].1,
                }),
    {
        let n = self.important_actions.len();
        let mut i: usize = 0;
        while i < n
            invariant
                i <= n,
                n == old(self).important_actions@.len(),
                self.event == old(self).event,
                self.event_consumed == old(self).event_consumed,
                self.important_actions@ == old(self).important_actions@,
                self.reserved_keys@ == old(self).reserved_keys@,
                osd.lines@.len() == old(osd).lines@.len() + i,
                forall|k: int|
                    0 <= k < old(osd).lines@.len() ==> (#[trigger] osd.lines@[k]) == old(
                        osd,
                    ).lines@[k],
                forall|k: int|
                    0 <= k < i ==> (#[trigger] osd.lines@[old(osd).lines@.len() + k]) == (
                    TextLine::KeyHint {
                        key: old(self).important_actions@[k].0,
                        action: old(self).important_actions@[k].1,
                    }),
            decreases n - i,
        {
            let key = self.important_actions[i].0;
            let action = self.important_actions[i].1.clone();
            osd.lines.push(TextLine::KeyHint { key, action });
            i = i + 1;
        }
        self.important_actions = Vec::new();
    }
}

} // verus!
