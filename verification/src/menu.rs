//! A context menu over the world's selectable objects.
//!
//! The menu tracks which object the cursor hovers over, which one holds
//! the focus after a click, and which actions handlers have registered
//! for the focused object; a click elsewhere moves or drops the focus.

use vstd::prelude::*;

use vstd::string::StringExecFns;

use crate::input::{Canvas, Key, Text, TextLine, UserInput};
use crate::types::{CarID, IntersectionID, LaneID, PedestrianID, TurnID};

verus! {

/// A selectable object of the drawn world.
#[derive(Clone, Copy, PartialEq, Eq, Structural, Debug, Hash)]
pub enum ID {
    Lane(LaneID),
    Turn(TurnID),
    Intersection(IntersectionID),
    Car(CarID),
    Pedestrian(PedestrianID),
}

/// Which screen edge a menu docks to.
#[derive(Clone, Copy, PartialEq, Eq, Structural, Debug)]
pub enum SidebarPos {
    Left,
    Right,
}

/// The per-frame context every widget reads: the event and the window
/// state.
pub struct EventCtx {
    pub input: UserInput,
    pub canvas: Canvas,
}

/// A modal menu of named actions, some with a hotkey. Each frame it
/// notes which registered action, if any, this frame's key press picked.
pub struct ModalMenu {
    pub title: String,
    pub actions: Vec<(Option<Key>, String)>,
    /// Index of the action picked by this frame's event, if any.
    pub chosen: Option<usize>,
    pub prompt: Option<Text>,
}

impl ModalMenu {
    pub open spec fn wf(self) -> bool {
        match self.chosen {
            Some(i) => i < self.actions.len(),
            None => true,
        }
    }

    pub fn new(title: &str, _pos: SidebarPos) -> (r: ModalMenu)
        ensures
            r.wf(),
            r.title@ == title@,
            r.actions@.len() == 0,
            r.chosen is None,
            r.prompt is None,
    {
        ModalMenu {
            title: String::from_str(title),
            actions: Vec::new(),
            chosen: None,
            prompt: None,
        }
    }

    /// Takes this frame's prompt and decides which action the frame's
    /// event picks: the first whose hotkey is exactly this key press, if
    /// the event is still unclaimed. A pick claims the event.
    #[verifier::loop_isolation(false)]
    pub fn handle_event(&mut self, ctx: &mut EventCtx, prompt: Option<Text>)
        requires
            old(self).wf(),
        ensures
            final(self).wf(),
            final(self).actions@ == old(self).actions@,
            final(self).title == old(self).title,
            match final(self).chosen {
                Some(i) => {
                    &&& i < old(self).actions.len()
                    &&& !old(ctx).input.event_consumed
                    &&& match old(self).actions[i as int].0 {
                        Some(k) => old(ctx).input.event == crate::input::Event::KeyPress(k),
                        None => false,
                    }
                },
                None => true,
            },
            final(ctx).canvas == old(ctx).canvas,
            final(ctx).input.event == old(ctx).input.event,
    {
        self.prompt = prompt;
        self.chosen = None;
        let mut i: usize = 0;
        while i < self.actions.len()
            invariant
                i <= self.actions.len(),
                self.chosen is None,
                self.actions@ == old(self).actions@,
                self.title == old(self).title,
                ctx.canvas == old(ctx).canvas,
                ctx.input.event == old(ctx).input.event,
                ctx.input.event_consumed == old(ctx).input.event_consumed,
            decreases self.actions.len() - i,
        {
            if let Some(k) = self.actions[i].0 {
                if !ctx.input.has_been_consumed() && ctx.input.unimportant_key_pressed(
                    k,
                    self.actions[i].1.as_str(),
                ) {
                    self.chosen = Some(i);
                    return;
                }
            }
            i = i + 1;
        }
    }

    /// Registers an action, optionally with a hotkey.
    pub fn add_action(&mut self, hotkey: Option<Key>, name: &String, _ctx: &mut EventCtx)
        requires
            old(self).wf(),
        ensures
            final(self).wf(),
            final(self).actions@.len() == old(self).actions@.len() + 1,
            forall|k: int|
                0 <= k < old(self).actions@.len() ==> (#[trigger] final(self).actions@[k]) == old(
                    self,
                ).actions@[k],
            final(self).actions@.last().0 == hotkey,
            final(self).actions@.last().1@ == name@,
            final(self).title == old(self).title,
            final(self).chosen == old(self).chosen,
    {
        self.actions.push((hotkey, name.clone()));
    }

    /// Unregisters the first action of this name, if one is registered;
    /// any pending pick is dropped with it.
    #[verifier::loop_isolation(false)]
    pub fn remove_action(&mut self, name: &String, _ctx: &mut EventCtx)
        requires
            old(self).wf(),
        ensures
            final(self).wf(),
            final(self).title == old(self).title,
            final(self).chosen is None,
            forall|k: int|
                0 <= k < final(self).actions@.len() ==> old(self).actions@.contains(
                    #[trigger] final(self).actions@[k],
                ),
    {
        self.chosen = None;
        let mut i: usize = 0;
        while i < self.actions.len()
            invariant
                i <= self.actions.len(),
                self.chosen is None,
                self.title == old(self).title,
                self.actions@ == old(self).actions@,
            decreases self.actions.len() - i,
        {
            if self.actions[i].1 == *name {
                let ghost a0 = self.actions@;
                self.actions.remove(i);
                proof {
                    assert(a0 == old(self).actions@);
                    assert forall|k: int| 0 <= k < self.actions@.len() implies old(
                        self,
                    ).actions@.contains(#[trigger] self.actions@[k]) by {
                        let k1: int = if k < i { k } else { k + 1 };
                        assert(self.actions@[k] == a0[k1]);
                        assert(a0.contains(a0[k1]));
                    }
                }
                return;
            }
            i = i + 1;
        }
        proof {
            assert forall|k: int| 0 <= k < self.actions@.len() implies old(
                self,
            ).actions@.contains(#[trigger] self.actions@[k]) by {
                assert(self.actions@ == old(self).actions@);
                assert(old(self).actions@[k] == self.actions@[k]);
            }
        }
    }

    /// Whether this frame picked the named action; asking clears the
    /// pick, so one frame fires one action once.
    pub fn action(&mut self, name: &String) -> (r: bool)
        requires
            old(self).wf(),
        ensures
            final(self).wf(),
            r == match old(self).chosen {
                Some(i) => old(self).actions[i as int].1@ == name@,
                None => false,
            },
            final(self).actions@ == old(self).actions@,
            final(self).title == old(self).title,
            r ==> final(self).chosen is None,
            !r ==> final(self).chosen == old(self).chosen,
    {
        match self.chosen {
            Some(i) => {
                if self.actions[i].1 == *name {
                    self.chosen = None;
                    true
                } else {
                    false
                }
            },
            None => false,
        }
    }

    /// `action`, under the name parent menus use for it.
    pub fn consume_action(&mut self, name: &String, _ctx: &mut EventCtx) -> (r: bool)
        requires
            old(self).wf(),
        ensures
            final(self).wf(),
            r == match old(self).chosen {
                Some(i) => old(self).actions[i as int].1@ == name@,
                None => false,
            },
            final(self).actions@ == old(self).actions@,
            final(self).title == old(self).title,
            r ==> final(self).chosen is None,
            !r ==> final(self).chosen == old(self).chosen,
    {
        self.action(name)
    }
}

/// Where the focus stands: nowhere, following the cursor, or fixed on a
/// clicked object, possibly with the cursor over another one.
pub enum State {
    Unfocused,
    Hovering { id: ID, actions: Vec<String> },
    Focused { id: ID, actions: Vec<String>, hovering: Option<ID> },
}

/// The actions registered for the current object.
pub open spec fn state_actions(s: State) -> Seq<String> {
    match s {
        State::Unfocused => Seq::empty(),
        State::Hovering { actions, .. } => actions@,
        State::Focused { actions, .. } => actions@,
    }
}

/// Whether an action of this name is registered in the list.
pub open spec fn registered_in(pre: Seq<String>, name: Seq<char>) -> bool {
    exists|k: int| 0 <= k < pre.len() && (#[trigger] pre[k])@ == name
}

/// What one ask of `action` does: fire and clear the registered actions
/// when the named action was registered and this frame picked it; keep
/// them when it was registered but not picked; register it when it was
/// new.
pub open spec fn action_post(
    pre: Seq<String>,
    post: Seq<String>,
    pre_menu: ModalMenu,
    name: Seq<char>,
    r: bool,
) -> bool {
    let registered = registered_in(pre, name);
    let picked = match pre_menu.chosen {
        Some(i) => pre_menu.actions[i as int].1@ == name,
        None => false,
    };
    &&& r == (registered && picked)
    &&& (r ==> post.len() == 0)
    &&& (!r && registered ==> post =~= pre)
    &&& (!r && !registered ==> post.len() == pre.len() + 1 && post.last()@ =~= name)
}

/// What one ask of `action` does on the modal menu's side: a new name is
/// registered there with its hotkey; a name that was registered but did
/// not fire leaves the menu as it was; a fired one only unregisters
/// actions. The title is never touched.
pub open spec fn menu_action_post(
    pre: ModalMenu,
    post: ModalMenu,
    key: Key,
    name: Seq<char>,
    registered: bool,
    r: bool,
) -> bool {
    &&& post.title == pre.title
    &&& (!registered ==> {
        &&& post.actions@.len() == pre.actions@.len() + 1
        &&& (forall|k: int|
            0 <= k < pre.actions@.len() ==> (#[trigger] post.actions@[k]) == pre.actions@[k])
        &&& post.actions@.last().0 == Some(key)
        &&& post.actions@.last().1@ == name
    })
    &&& (registered && !r ==> post.actions@ == pre.actions@)
    &&& (r ==> forall|k: int|
        0 <= k < post.actions@.len() ==> pre.actions@.contains(#[trigger] post.actions@[k]))
}

/// The short name each kind of object goes by in prompt lines.
pub open spec fn spec_describe(id: ID) -> Seq<char> {
    match id {
        ID::Lane(_) => "lane"@,
        ID::Turn(_) => "turn"@,
        ID::Intersection(_) => "intersection"@,
        ID::Car(_) => "car"@,
        ID::Pedestrian(_) => "pedestrian"@,
    }
}

/// The object holding or hovered for the focus, as `current_focus`
/// answers it.
pub open spec fn focus_of(s: State) -> Option<ID> {
    match s {
        State::Unfocused => None,
        State::Hovering { id, .. } => Some(id),
        State::Focused { id, .. } => Some(id),
    }
}

/// Same constructor, same object, same hovered object: only the action
/// list may differ.
pub open spec fn same_focus(a: State, b: State) -> bool {
    match (a, b) {
        (State::Hovering { id: i1, .. }, State::Hovering { id: i2, .. }) => i1 == i2,
        (
            State::Focused { id: i1, hovering: h1, .. },
            State::Focused { id: i2, hovering: h2, .. },
        ) => i1 == i2 && h1 == h2,
        (State::Unfocused, State::Unfocused) => true,
        _ => false,
    }
}

impl State {
    pub fn new() -> (r: State)
        ensures
            r is Unfocused,
    {
        State::Unfocused
    }

    /// The object holding the focus or hovered over; hovering while
    /// focused elsewhere does not count.
    pub fn current_focus(&self) -> (r: Option<ID>)
        ensures
            r == match *self {
                State::Unfocused => None::<ID>,
                State::Hovering { id, .. } => Some(id),
                State::Focused { id, .. } => Some(id),
            },
    {
        match self {
            State::Unfocused => None,
            State::Hovering { id, .. } => Some(*id),
            State::Focused { id, .. } => Some(*id),
        }
    }

    /// One frame of the focus machine. A click is a released left mouse
    /// button while not dragging the map. Hovering follows the current
    /// selection; a click pins the focus on the hovered object; a further
    /// click moves it to whatever else is selected, or drops it; when the
    /// focus moves or drops, the registered actions are unregistered.
    pub fn event(&mut self, current_selection: Option<ID>, menu: &mut ModalMenu, ctx: &mut EventCtx)
        requires
            old(menu).wf(),
        ensures
            final(menu).wf(),
            final(menu).title == old(menu).title,
            // The frame only ever unregisters actions from the modal menu.
            forall|k: int|
                0 <= k < final(menu).actions@.len() ==> old(menu).actions@.contains(
                    #[trigger] final(menu).actions@[k],
                ),
            ({
                let click = old(ctx).input.event == crate::input::Event::LeftMouseButtonUp && !old(
                    ctx,
                ).canvas.dragging;
                match *old(self) {
                    State::Unfocused => match current_selection {
                        Some(id) => *final(self) matches State::Hovering { id: id2, actions }
                            && id2 == id && actions@.len() == 0,
                        None => *final(self) is Unfocused,
                    },
                    State::Hovering { id, actions } => if current_selection == Some(id) {
                        if click {
                            *final(self) matches State::Focused { id: id2, actions: a2, hovering }
                                && id2 == id && a2 == actions && hovering is None
                        } else {
                            *final(self) == *old(self)
                        }
                    } else {
                        // The focus moved off the object, so the actions
                        // registered for it are gone.
                        match current_selection {
                            Some(other) => *final(self) matches State::Hovering {
                                id: id2,
                                actions: a2,
                            } && id2 == other && a2@.len() == 0,
                            None => *final(self) is Unfocused,
                        }
                    },
                    State::Focused { id, actions, hovering: _ } => {
                        let hov = if current_selection == Some(id) {
                            None
                        } else {
                            current_selection
                        };
                        if click {
                            match hov {
                                Some(other) => *final(self) matches State::Focused {
                                    id: id2,
                                    actions: a2,
                                    hovering,
                                } && id2 == other && a2@.len() == 0 && hovering is None,
                                None => *final(self) is Unfocused,
                            }
                        } else {
                            *final(self) matches State::Focused {
                                id: id2,
                                actions: a2,
                                hovering,
                            } && id2 == id && a2 == actions && hovering == hov
                        }
                    },
                }
            }),
    {
        let click = ctx.input.left_mouse_button_released() && !ctx.canvas.is_dragging();
        proof {
            assert forall|k2: int| 0 <= k2 < menu.actions@.len() implies old(
                menu,
            ).actions@.contains(#[trigger] menu.actions@[k2]) by {
                assert(old(menu).actions@[k2] == menu.actions@[k2]);
            }
        }
        let mut taken = State::Unfocused;
        core::mem::swap(self, &mut taken);
        match taken {
            State::Unfocused => {
                if let Some(id) = current_selection {
                    *self = State::Hovering { id, actions: Vec::new() };
                } else {
                    *self = State::Unfocused;
                }
            },
            State::Hovering { id, actions } => {
                if current_selection == Some(id) {
                    if click {
                        *self = State::Focused { id, actions, hovering: None };
                    } else {
                        *self = State::Hovering { id, actions };
                    }
                } else {
                    let mut k: usize = 0;
                    while k < actions.len()
                        invariant
                            k <= actions.len(),
                            menu.wf(),
                            menu.title == old(menu).title,
                            forall|k2: int|
                                0 <= k2 < menu.actions@.len() ==> old(menu).actions@.contains(
                                    #[trigger] menu.actions@[k2],
                                ),
                        decreases actions.len() - k,
                    {
                        let ghost m_pre = menu.actions@;
                        menu.remove_action(&actions[k], ctx);
                        proof {
                            assert forall|k2: int| 0 <= k2 < menu.actions@.len() implies old(
                                menu,
                            ).actions@.contains(#[trigger] menu.actions@[k2]) by {
                                assert(m_pre.contains(menu.actions@[k2]));
                                let i0 = choose|i0: int|
                                    0 <= i0 < m_pre.len() && m_pre[i0] == menu.actions@[k2];
                                assert(old(menu).actions@.contains(m_pre[i0]));
                            }
                        }
                        k = k + 1;
                    }
                    match current_selection {
                        Some(other) => {
                            *self = State::Hovering { id: other, actions: Vec::new() };
                        },
                        None => {
                            *self = State::Unfocused;
                        },
                    }
                }
            },
            State::Focused { id, actions, hovering: _ } => {
                let hov: Option<ID> = if current_selection == Some(id) {
                    None
                } else {
                    current_selection
                };
                if click {
                    let mut k: usize = 0;
                    while k < actions.len()
                        invariant
                            k <= actions.len(),
                            menu.wf(),
                            menu.title == old(menu).title,
                            forall|k2: int|
                                0 <= k2 < menu.actions@.len() ==> old(menu).actions@.contains(
                                    #[trigger] menu.actions@[k2],
                                ),
                        decreases actions.len() - k,
                    {
                        let ghost m_pre = menu.actions@;
                        menu.remove_action(&actions[k], ctx);
                        proof {
                            assert forall|k2: int| 0 <= k2 < menu.actions@.len() implies old(
                                menu,
                            ).actions@.contains(#[trigger] menu.actions@[k2]) by {
                                assert(m_pre.contains(menu.actions@[k2]));
                                let i0 = choose|i0: int|
                                    0 <= i0 < m_pre.len() && m_pre[i0] == menu.actions@[k2];
                                assert(old(menu).actions@.contains(m_pre[i0]));
                            }
                        }
                        k = k + 1;
                    }
                    match hov {
                        Some(other) => {
                            *self = State::Focused { id: other, actions: Vec::new(), hovering: None };
                        },
                        None => {
                            *self = State::Unfocused;
                        },
                    }
                } else {
                    *self = State::Focused { id, actions, hovering: hov };
                }
            },
        }
    }

    /// Fires the named action if it is registered and this frame picked
    /// it; otherwise registers it, with its hotkey, for the focused or
    /// hovered object. Asking with no object in focus is a caller bug,
    /// ruled out here.
    #[verifier::loop_isolation(false)]
    pub fn action(&mut self, key: Key, raw_name: &str, menu: &mut ModalMenu, ctx: &mut EventCtx) -> (r:
        bool)
        requires
            old(menu).wf(),
            !(*old(self) is Unfocused),
        ensures
            final(menu).wf(),
            !(*final(self) is Unfocused),
            same_focus(*old(self), *final(self)),
            action_post(
                state_actions(*old(self)),
                state_actions(*final(self)),
                *old(menu),
                raw_name@,
                r,
            ),
            menu_action_post(
                *old(menu),
                *final(menu),
                key,
                raw_name@,
                registered_in(state_actions(*old(self)), raw_name@),
                r,
            ),
    {
        let name = String::from_str(raw_name);
        let mut taken = State::Unfocused;
        core::mem::swap(self, &mut taken);
        match taken {
            State::Unfocused => {
                proof {
                    assert(false);
                }
                *self = State::Unfocused;
                false
            },
            State::Hovering { id, mut actions } => {
                let r = Self::action_on_list(&mut actions, key, name, menu, ctx);
                *self = State::Hovering { id, actions };
                r
            },
            State::Focused { id, mut actions, hovering } => {
                let r = Self::action_on_list(&mut actions, key, name, menu, ctx);
                *self = State::Focused { id, actions, hovering };
                r
            },
        }
    }

    /// The shared body of `action`: fire a registered, picked action and
    /// unregister everything, or register the new one.
    #[verifier::loop_isolation(false)]
    fn action_on_list(
        actions: &mut Vec<String>,
        key: Key,
        name: String,
        menu: &mut ModalMenu,
        ctx: &mut EventCtx,
    ) -> (r: bool)
        requires
            old(menu).wf(),
        ensures
            final(menu).wf(),
            action_post(old(actions)@, final(actions)@, *old(menu), name@, r),
            menu_action_post(
                *old(menu),
                *final(menu),
                key,
                name@,
                registered_in(old(actions)@, name@),
                r,
            ),
    {
        let mut found = false;
        let mut i: usize = 0;
        while i < actions.len()
            invariant
                i <= actions.len(),
                actions@ == old(actions)@,
                found == exists|k: int| 0 <= k < i && (#[trigger] actions@[k])@ == name@,
            decreases actions.len() - i,
        {
            if actions[i] == name {
                found = true;
                proof {
                    assert((actions@[i as int])@ == name@);
                }
            }
            i = i + 1;
        }
        if found {
            if menu.action(&name) {
                // The world will change, so the registered actions reset.
                proof {
                    assert forall|k2: int| 0 <= k2 < menu.actions@.len() implies old(
                        menu,
                    ).actions@.contains(#[trigger] menu.actions@[k2]) by {
                        assert(old(menu).actions@[k2] == menu.actions@[k2]);
                    }
                }
                let mut k: usize = 0;
                while k < actions.len()
                    invariant
                        k <= actions.len(),
                        menu.wf(),
                        menu.title == old(menu).title,
                        forall|k2: int|
                            0 <= k2 < menu.actions@.len() ==> old(menu).actions@.contains(
                                #[trigger] menu.actions@[k2],
                            ),
                    decreases actions.len() - k,
                {
                    let ghost m_pre = menu.actions@;
                    menu.remove_action(&actions[k], ctx);
                    proof {
                        assert forall|k2: int| 0 <= k2 < menu.actions@.len() implies old(
                            menu,
                        ).actions@.contains(#[trigger] menu.actions@[k2]) by {
                            assert(m_pre.contains(menu.actions@[k2]));
                            let i0 = choose|i0: int|
                                0 <= i0 < m_pre.len() && m_pre[i0] == menu.actions@[k2];
                            assert(old(menu).actions@.contains(m_pre[i0]));
                        }
                    }
                    k = k + 1;
                }
                actions.clear();
                return true;
            }
            false
        } else {
            menu.add_action(Some(key), &name, ctx);
            actions.push(name);
            false
        }
    }

    /// The prompt lines describing the focus, for the menu header: one
    /// line when unfocused or hovering, two when focused.
    pub fn add_to_prompt(&self, txt: &mut Text)
        ensures
            final(txt).lines@.len() >= old(txt).lines@.len(),
            forall|k: int|
                0 <= k < old(txt).lines@.len() ==> (#[trigger] final(txt).lines@[k]) == old(
                    txt,
                ).lines@[k],
            match *self {
                State::Unfocused => final(txt).lines@.len() == old(txt).lines@.len() + 1 && final(txt).lines@.last() is Unfocused,
                State::Hovering { id, .. } => final(txt).lines@.len() == old(txt).lines@.len() + 1
                    && (final(txt).lines@.last() matches TextLine::ClickToFocus(s) && s@
                    == spec_describe(id)),
                State::Focused { id, hovering, .. } => final(txt).lines@.len() == old(
                    txt,
                ).lines@.len() + 2 && (final(txt).lines@[old(txt).lines@.len() as int]
                    matches TextLine::FocusedOn(s) && s@ == spec_describe(id)) && match hovering {
                    Some(other) => final(txt).lines@.last()
                        matches TextLine::ClickToFocusInstead(s2) && s2@ == spec_describe(other),
                    None => final(txt).lines@.last() is ClickToUnfocus,
                },
            },
    {
        match self {
            State::Unfocused => {
                txt.lines.push(TextLine::Unfocused);
            },
            State::Focused { id, hovering, .. } => {
                txt.lines.push(TextLine::FocusedOn(Self::describe(id)));
                match hovering {
                    Some(other) => {
                        txt.lines.push(TextLine::ClickToFocusInstead(Self::describe(other)));
                    },
                    None => {
                        txt.lines.push(TextLine::ClickToUnfocus);
                    },
                }
            },
            State::Hovering { id, .. } => {
                txt.lines.push(TextLine::ClickToFocus(Self::describe(id)));
            },
        }
    }

    /// A short name for an object, for prompt lines.
    fn describe(id: &ID) -> (r: String)
        ensures
            r@ == spec_describe(*id),
    {
        match id {
            ID::Lane(_) => String::from_str("lane"),
            ID::Turn(_) => String::from_str("turn"),
            ID::Intersection(_) => String::from_str("intersection"),
            ID::Car(_) => String::from_str("car"),
            ID::Pedestrian(_) => String::from_str("pedestrian"),
        }
    }

    /// The object to highlight while drawing: the focused one, if any.
    pub fn draw(&self) -> (r: Option<ID>)
        ensures
            r == match *self {
                State::Focused { id, .. } => Some(id),
                _ => None::<ID>,
            },
    {
        match self {
            State::Focused { id, .. } => Some(*id),
            _ => None,
        }
    }
}

/// The menu around the focus machine: it owns the modal menu, keeps the
/// title and any per-object info text, and forwards events.
pub struct ContextMenu {
    pub menu: ModalMenu,
    pub title: String,
    pub obj_info: Option<Text>,
    pub state: State,
}

impl ContextMenu {
    pub open spec fn wf(self) -> bool {
        self.menu.wf()
    }

    pub fn new(title: &str, _ctx: &EventCtx, pos: SidebarPos) -> (r: ContextMenu)
        ensures
            r.wf(),
            r.title@ == title@,
            r.state is Unfocused,
            r.obj_info is None,
    {
        ContextMenu {
            menu: ModalMenu::new(title, pos),
            title: String::from_str(title),
            obj_info: None,
            state: State::Unfocused,
        }
    }

    /// One frame: rebuild the prompt, let the menu see the event, then
    /// run the focus machine. Returns whether the focus changed; the
    /// per-object info is dropped when it does.
    pub fn event(&mut self, ctx: &mut EventCtx, current_selection: Option<ID>) -> (change: bool)
        requires
            old(self).wf(),
        ensures
            final(self).wf(),
            change == (focus_of(old(self).state) != focus_of(final(self).state)),
            change ==> final(self).obj_info is None,
            !change ==> final(self).obj_info == old(self).obj_info,
    {
        let mut txt = Text::new();
        txt.lines.push(TextLine::Prompt(self.title.clone()));
        self.state.add_to_prompt(&mut txt);
        self.menu.handle_event(ctx, Some(txt));
        let old_focus = self.state.current_focus();
        self.state.event(current_selection, &mut self.menu, ctx);
        let new_focus = self.state.current_focus();
        let change = match (old_focus, new_focus) {
            (None, None) => false,
            (Some(a), Some(b)) => a != b,
            _ => true,
        };
        if change {
            self.obj_info = None;
        }
        change
    }

    /// Attaches info text about the focused object. Calling with no
    /// focus is a caller bug, ruled out here.
    pub fn set_obj_info(&mut self, info: Text)
        requires
            !(old(self).state is Unfocused),
        ensures
            final(self).obj_info == Some(info),
            final(self).state == old(self).state,
            final(self).menu == old(self).menu,
            final(self).title == old(self).title,
    {
        self.obj_info = Some(info);
    }

    /// The object to highlight while drawing: the focused one, if any.
    /// Hovering does not count.
    pub fn draw(&self) -> (r: Option<ID>)
        ensures
            r == match self.state {
                State::Focused { id, .. } => Some(id),
                _ => None::<ID>,
            },
    {
        self.state.draw()
    }

    pub fn current_focus(&self) -> (r: Option<ID>)
        ensures
            r == match self.state {
                State::Unfocused => None::<ID>,
                State::Hovering { id, .. } => Some(id),
                State::Focused { id, .. } => Some(id),
            },
    {
        self.state.current_focus()
    }

    /// Fires or registers an action for the focused or hovered object.
    /// Asking with no focus is a caller bug, ruled out here.
    pub fn action(&mut self, key: Key, raw_name: &str, ctx: &mut EventCtx) -> (r: bool)
        requires
            old(self).wf(),
            !(old(self).state is Unfocused),
        ensures
            final(self).wf(),
            !(final(self).state is Unfocused),
            same_focus(old(self).state, final(self).state),
            action_post(
                state_actions(old(self).state),
                state_actions(final(self).state),
                old(self).menu,
                raw_name@,
                r,
            ),
            menu_action_post(
                old(self).menu,
                final(self).menu,
                key,
                raw_name@,
                registered_in(state_actions(old(self).state), raw_name@),
                r,
            ),
            final(self).title == old(self).title,
            final(self).obj_info == old(self).obj_info,
    {
        self.state.action(key, raw_name, &mut self.menu, ctx)
    }
}

} // verus!
