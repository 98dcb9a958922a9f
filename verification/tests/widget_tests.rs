use traffic_sim::input::{Canvas, Event, Key, Text, UserInput};
use traffic_sim::menu::{ContextMenu, EventCtx, SidebarPos, ID};
use traffic_sim::types::CarID;

fn ctx(event: Event) -> EventCtx {
    let mut canvas = Canvas::new(1800, 800);
    let input = UserInput::new(event, &mut canvas);
    EventCtx { input, canvas }
}

#[test]
fn key_press_consumed_once() {
    let mut canvas = Canvas::new(1800, 800);
    let mut input = UserInput::new(Event::KeyPress(Key::R), &mut canvas);
    assert!(!input.has_been_consumed());
    assert!(input.key_pressed(Key::R, "show route"));
    assert!(input.has_been_consumed());
    // The same frame's event cannot be claimed twice.
    assert!(!input.key_pressed(Key::R, "show route again"));
    assert!(!input.key_pressed(Key::X, "debug"));
}

#[test]
fn key_press_wrong_key_not_consumed() {
    let mut canvas = Canvas::new(1800, 800);
    let mut input = UserInput::new(Event::KeyPress(Key::R), &mut canvas);
    assert!(!input.key_pressed(Key::X, "debug"));
    assert!(!input.has_been_consumed());
    assert!(input.unimportant_key_pressed(Key::R, "show route"));
}

#[test]
fn key_release_and_mouse_queries() {
    let mut canvas = Canvas::new(1800, 800);
    let mut input = UserInput::new(Event::KeyRelease(Key::C), &mut canvas);
    assert!(input.key_released(Key::C));
    assert!(!input.key_released(Key::C));

    let mut input2 = UserInput::new(Event::LeftMouseButtonDown, &mut canvas);
    assert!(input2.left_mouse_button_pressed());
    assert!(!input2.left_mouse_button_released());

    let mut input3 = UserInput::new(Event::WindowLostCursor, &mut canvas);
    assert!(input3.window_lost_cursor());
    assert_eq!(input3.get_moved_mouse(), None);

    let pt = traffic_sim::input::ScreenPt { x: 31, y: 47 };
    let input4 = UserInput::new(Event::MouseMovedTo(pt), &mut canvas);
    assert_eq!(input4.get_moved_mouse(), Some(pt));
}

#[test]
fn update_event_lifecycle() {
    let mut canvas = Canvas::new(1800, 800);
    let mut input = UserInput::new(Event::Update, &mut canvas);
    assert!(input.nonblocking_is_update_event());
    input.use_update_event();
    assert!(!input.nonblocking_is_update_event());
    assert!(input.has_been_consumed());
}

#[test]
fn keypress_probe_does_not_consume() {
    let mut canvas = Canvas::new(1800, 800);
    let mut input = UserInput::new(Event::KeyPress(Key::X), &mut canvas);
    assert!(input.nonblocking_is_keypress_event());
    assert!(!input.has_been_consumed());
    assert_eq!(input.use_event_directly(), Some(Event::KeyPress(Key::X)));
    assert!(input.has_been_consumed());
    assert_eq!(input.use_event_directly(), None);
}

#[test]
fn window_bookkeeping_on_new() {
    let mut canvas = Canvas::new(100, 100);
    UserInput::new(Event::WindowResized(640, 480), &mut canvas);
    assert_eq!(canvas.window_width, 640);
    assert_eq!(canvas.window_height, 480);
    UserInput::new(Event::KeyPress(Key::LeftControl), &mut canvas);
    assert!(canvas.lctrl_held);
    UserInput::new(Event::KeyRelease(Key::LeftControl), &mut canvas);
    assert!(!canvas.lctrl_held);
}

#[test]
fn populate_osd_drains_hints() {
    let mut canvas = Canvas::new(1800, 800);
    let mut input = UserInput::new(Event::Update, &mut canvas);
    input.key_pressed(Key::R, "show route");
    input.key_pressed(Key::X, "debug geometry");
    let mut osd = Text::new();
    input.populate_osd(&mut osd);
    assert_eq!(osd.lines.len(), 2);
    let mut osd2 = Text::new();
    input.populate_osd(&mut osd2);
    assert_eq!(osd2.lines.len(), 0, "the hints should have been drained");
}

#[test]
fn context_menu_hover_focus_cycle() {
    let car = ID::Car(CarID { id: 1 });
    let mut c = ctx(Event::Update);
    let mut menu = ContextMenu::new("debug", &c, SidebarPos::Left);
    assert_eq!(menu.current_focus(), None);

    // Hovering over an object picks it up.
    let changed = menu.event(&mut c, Some(car));
    assert!(changed);
    assert_eq!(menu.current_focus(), Some(car));
    assert_eq!(menu.draw(), None, "hovering is not focus");

    // A click pins the focus.
    let mut c2 = ctx(Event::LeftMouseButtonUp);
    menu.event(&mut c2, Some(car));
    assert_eq!(menu.current_focus(), Some(car));
    assert_eq!(menu.draw(), Some(car));

    // A click with nothing selected drops it.
    let mut c3 = ctx(Event::LeftMouseButtonUp);
    let changed3 = menu.event(&mut c3, None);
    assert!(changed3);
    assert_eq!(menu.current_focus(), None);
}

#[test]
fn context_menu_action_registers_then_fires() {
    let car = ID::Car(CarID { id: 1 });
    let mut c = ctx(Event::Update);
    let mut menu = ContextMenu::new("debug", &c, SidebarPos::Left);
    menu.event(&mut c, Some(car));
    // First ask: the action is only registered.
    assert!(!menu.action(Key::R, "show route", &mut c));

    // Next frame the hotkey fires it.
    let mut c2 = ctx(Event::KeyPress(Key::R));
    menu.event(&mut c2, Some(car));
    assert!(menu.action(Key::R, "show route", &mut c2));
}

#[test]
fn context_menu_set_obj_info_survives_same_focus() {
    let car = ID::Car(CarID { id: 1 });
    let mut c = ctx(Event::Update);
    let mut menu = ContextMenu::new("debug", &c, SidebarPos::Left);
    menu.event(&mut c, Some(car));
    let info = Text::new();
    menu.set_obj_info(info);
    // Moving the focus away drops the info.
    let mut c2 = ctx(Event::Update);
    let other = ID::Car(CarID { id: 2 });
    let changed = menu.event(&mut c2, Some(other));
    assert!(changed);
    assert!(menu.obj_info.is_none());
}

#[test]
fn moving_focus_drains_registered_actions() {
    let car = ID::Car(CarID { id: 1 });
    let other = ID::Car(CarID { id: 2 });
    let mut c = ctx(Event::Update);
    let mut menu = ContextMenu::new("debug", &c, SidebarPos::Left);
    menu.event(&mut c, Some(car));
    assert!(!menu.action(Key::R, "show route", &mut c));

    // Hovering moves to another object: the registered actions drain.
    let mut c2 = ctx(Event::Update);
    menu.event(&mut c2, Some(other));
    match &menu.state {
        traffic_sim::menu::State::Hovering { id, actions } => {
            assert_eq!(*id, other);
            assert!(actions.is_empty(), "actions of the old object must drain");
        }
        _ => panic!("expected hovering on the new object"),
    }

    // The action re-registers for the new object instead of firing...
    let mut c3 = ctx(Event::KeyPress(Key::R));
    menu.event(&mut c3, Some(other));
    assert!(!menu.action(Key::R, "show route", &mut c3));
    // ...and the next frame's hotkey can fire it.
    let mut c4 = ctx(Event::KeyPress(Key::R));
    menu.event(&mut c4, Some(other));
    assert!(menu.action(Key::R, "show route", &mut c4));
}
