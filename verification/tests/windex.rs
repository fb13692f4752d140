use windex::{
    Client, Command, Config, ConfigureRequest, Event, Functions, Geometry, Grab, Key, Windex, MOD,
};

fn geometry(x: i32, y: i32, width: u32, height: u32) -> Geometry {
    Geometry { x, y, width, height }
}

fn manager<'a>() -> Windex<'a> {
    Windex::new(1920, 1080, Config::new())
}

fn windows(wm: &Windex) -> Vec<u64> {
    wm.clients.iter().iter().map(|r| wm.clients.get(*r).unwrap().window).collect()
}

fn focused_window(wm: &Windex) -> Option<u64> {
    wm.clients.focused().map(|r| wm.clients.get(r).unwrap().window)
}

#[test]
fn new_manager_is_idle() {
    let wm = manager();
    assert_eq!(wm.display_width, 1920);
    assert_eq!(wm.display_height, 1080);
    assert_eq!(wm.workspace, 1);
    assert_eq!(wm.numlock, 0);
    assert_eq!(wm.drag, None);
    assert_eq!(wm.clients.len(), 0);
    assert_eq!(wm.config.keys.len(), 2);
}

#[test]
fn three_windows_then_destroy_the_middle_one() {
    let (a, b, c) = (11u64, 22u64, 33u64);
    let mut wm = manager();
    for w in [a, b, c] {
        wm.handle_events(Event::MapRequest { window: w, geometry: geometry(5, 5, 10, 10) });
    }
    assert_eq!(windows(&wm), vec![a, b, c]);
    let refs = wm.clients.iter();
    assert_eq!(wm.clients.next(refs[2]), Some(refs[0]));
    assert_eq!(wm.clients.next(refs[0]), Some(refs[1]));
    assert_eq!(focused_window(&wm), Some(c));

    let out = wm.handle_events(Event::DestroyNotify { window: b });
    assert_eq!(windows(&wm), vec![a, c]);
    let refs = wm.clients.iter();
    assert_eq!(wm.clients.next(refs[0]), Some(refs[1]));
    assert_eq!(wm.clients.next(refs[1]), Some(refs[0]));
    assert_eq!(focused_window(&wm), Some(a));
    assert_eq!(out, vec![Command::Focus { window: a }]);
}

#[test]
fn move_drag_from_press_to_release() {
    let w = 77u64;
    let mut wm = manager();
    wm.handle_events(Event::MapRequest { window: w, geometry: geometry(10, 10, 100, 50) });
    let out = wm.handle_events(Event::ButtonPress {
        subwindow: w,
        button: 1,
        x_root: 10,
        y_root: 10,
        geometry: geometry(10, 10, 100, 50),
    });
    assert_eq!(out, vec![Command::Raise { window: w }]);
    let out = wm.handle_events(Event::MotionNotify { x_root: 30, y_root: 20 });
    assert_eq!(out, vec![Command::MoveResize { window: w, geometry: geometry(30, 20, 100, 50) }]);
    let r = wm.clients.find(w).unwrap();
    assert_eq!(wm.clients.get(r).unwrap().geometry(), geometry(30, 20, 100, 50));
    let out = wm.handle_events(Event::ButtonRelease);
    assert_eq!(out, Vec::new());
    assert_eq!(wm.drag, None);
    let out = wm.handle_events(Event::MotionNotify { x_root: 300, y_root: 200 });
    assert_eq!(out, Vec::new());
    assert_eq!(wm.clients.get(r).unwrap().geometry(), geometry(30, 20, 100, 50));
}

#[test]
fn resize_drag_clamps_at_one() {
    let w = 5u64;
    let mut wm = manager();
    wm.handle_events(Event::MapRequest { window: w, geometry: geometry(4, 4, 1, 1) });
    wm.handle_events(Event::ButtonPress {
        subwindow: w,
        button: 3,
        x_root: 100,
        y_root: 100,
        geometry: geometry(4, 4, 1, 1),
    });
    let out = wm.handle_events(Event::MotionNotify { x_root: 40, y_root: 90 });
    assert_eq!(out, vec![Command::MoveResize { window: w, geometry: geometry(4, 4, 1, 1) }]);
    let out = wm.handle_events(Event::MotionNotify { x_root: 140, y_root: 105 });
    assert_eq!(out, vec![Command::MoveResize { window: w, geometry: geometry(4, 4, 41, 6) }]);
}

#[test]
fn button_press_over_no_window_is_ignored() {
    let mut wm = manager();
    let out = wm.handle_events(Event::ButtonPress {
        subwindow: 0,
        button: 1,
        x_root: 1,
        y_root: 2,
        geometry: geometry(0, 0, 0, 0),
    });
    assert_eq!(out, Vec::new());
    assert_eq!(wm.drag, None);
    assert_eq!(wm.handle_events(Event::MotionNotify { x_root: 9, y_root: 9 }), Vec::new());
}

#[test]
fn drag_of_an_unmanaged_window_still_moves_it() {
    let mut wm = manager();
    wm.handle_events(Event::ButtonPress {
        subwindow: 9,
        button: 1,
        x_root: 0,
        y_root: 0,
        geometry: geometry(1, 2, 3, 4),
    });
    let out = wm.handle_events(Event::MotionNotify { x_root: 10, y_root: 20 });
    assert_eq!(out, vec![Command::MoveResize { window: 9, geometry: geometry(11, 22, 3, 4) }]);
    assert_eq!(wm.clients.len(), 0);
}

#[test]
fn fullscreen_window_does_not_move() {
    let w = 8u64;
    let mut wm = manager();
    wm.handle_events(Event::MapRequest { window: w, geometry: geometry(1, 1, 10, 10) });
    let r = wm.clients.find(w).unwrap();
    wm.clients.set_fullscreen(r, true);
    wm.handle_events(Event::ButtonPress {
        subwindow: w,
        button: 1,
        x_root: 0,
        y_root: 0,
        geometry: geometry(1, 1, 10, 10),
    });
    assert_eq!(wm.handle_events(Event::MotionNotify { x_root: 50, y_root: 50 }), Vec::new());
    assert_eq!(wm.clients.get(r).unwrap().geometry(), geometry(1, 1, 10, 10));
}

#[test]
fn map_request_at_origin_centres_the_window() {
    let mut wm = manager();
    let out = wm.handle_events(Event::MapRequest { window: 3, geometry: geometry(0, 0, 800, 600) });
    assert_eq!(
        out,
        vec![
            Command::SelectInput { window: 3 },
            Command::Move { window: 3, x: 560, y: 240 },
            Command::Show { window: 3 },
            Command::Focus { window: 3 },
        ]
    );
    let r = wm.clients.find(3).unwrap();
    assert_eq!(wm.clients.get(r).unwrap().geometry(), geometry(560, 240, 800, 600));
    assert_eq!(wm.clients.focused(), Some(r));
}

#[test]
fn map_request_elsewhere_keeps_the_place() {
    let mut wm = manager();
    let out = wm.handle_events(Event::MapRequest { window: 3, geometry: geometry(0, 7, 800, 600) });
    assert_eq!(
        out,
        vec![
            Command::SelectInput { window: 3 },
            Command::Show { window: 3 },
            Command::Focus { window: 3 },
        ]
    );
    let r = wm.clients.find(3).unwrap();
    assert_eq!(wm.clients.get(r).unwrap().geometry(), geometry(0, 7, 800, 600));
    let out = wm.handle_events(Event::MapRequest { window: 4, geometry: geometry(5, -5, 1, 1) });
    assert_eq!(out.len(), 3);
    assert_eq!(focused_window(&wm), Some(4));
}

#[test]
fn destroy_of_the_last_window_leaves_no_focus() {
    let mut wm = manager();
    wm.handle_events(Event::MapRequest { window: 3, geometry: geometry(1, 1, 1, 1) });
    let out = wm.handle_events(Event::DestroyNotify { window: 3 });
    assert_eq!(out, Vec::new());
    assert_eq!(wm.clients.len(), 0);
    assert_eq!(wm.clients.focused(), None);
}

#[test]
fn destroy_of_an_unknown_window_is_ignored() {
    let mut wm = manager();
    wm.handle_events(Event::MapRequest { window: 3, geometry: geometry(1, 1, 1, 1) });
    wm.handle_events(Event::MapRequest { window: 4, geometry: geometry(1, 1, 1, 1) });
    let out = wm.handle_events(Event::DestroyNotify { window: 99 });
    assert_eq!(out, Vec::new());
    assert_eq!(windows(&wm), vec![3, 4]);
    assert_eq!(focused_window(&wm), Some(4));
    let out = wm.handle_events(Event::UnmapNotify { window: 4 });
    assert_eq!(out, vec![Command::Focus { window: 3 }]);
    assert_eq!(windows(&wm), vec![3]);
}

#[test]
fn destroy_focuses_the_one_before_the_tail() {
    let mut wm = manager();
    for w in [1u64, 2, 3, 4] {
        wm.handle_events(Event::MapRequest { window: w, geometry: geometry(1, 1, 1, 1) });
    }
    let out = wm.handle_events(Event::DestroyNotify { window: 2 });
    assert_eq!(windows(&wm), vec![1, 3, 4]);
    assert_eq!(out, vec![Command::Focus { window: 3 }]);
    assert_eq!(focused_window(&wm), Some(3));
}

#[test]
fn enter_focuses_a_managed_window_only() {
    let mut wm = manager();
    wm.handle_events(Event::MapRequest { window: 3, geometry: geometry(1, 1, 1, 1) });
    wm.handle_events(Event::MapRequest { window: 4, geometry: geometry(1, 1, 1, 1) });
    let out = wm.handle_events(Event::EnterNotify { window: 3 });
    assert_eq!(out, vec![Command::Focus { window: 3 }]);
    assert_eq!(focused_window(&wm), Some(3));
    let out = wm.handle_events(Event::EnterNotify { window: 50 });
    assert_eq!(out, Vec::new());
    assert_eq!(focused_window(&wm), Some(3));
}

#[test]
fn key_press_runs_every_matching_binding() {
    let keys = vec![
        Key::new(MOD, 0x71, Functions::Run("one", &[])),
        Key::new(MOD, 0x71, Functions::Run("two", &["-x", "y"])),
        Key::new(MOD, 0x72, Functions::Run("three", &[])),
    ];
    let mut wm = Windex::new(800, 600, Config::with_keys(keys));
    let out = wm.handle_events(Event::KeyPress { keysym: 0x71, state: MOD | 0x02 });
    assert_eq!(
        out,
        vec![
            Command::Spawn { command: "one", args: &[] },
            Command::Spawn { command: "two", args: &["-x", "y"] },
        ]
    );
    assert_eq!(wm.handle_events(Event::KeyPress { keysym: 0x73, state: MOD }), Vec::new());
}

#[test]
fn key_press_ignores_numlock_once_it_is_known() {
    let mut wm = manager();
    assert_eq!(wm.handle_events(Event::KeyPress { keysym: 0xFF0D, state: MOD | 0x10 }), Vec::new());
    let mut map = vec![0u8; 8];
    map[4] = 77;
    wm.input_grab(&map, 1, 77, &vec![36, 24]);
    assert_eq!(wm.numlock, 0x10);
    assert_eq!(wm.mod_clean(MOD | 0x10 | 0x02), MOD);
    let out = wm.handle_events(Event::KeyPress { keysym: 0xFF0D, state: MOD | 0x10 });
    assert_eq!(out, vec![Command::Spawn { command: "st", args: &[] }]);
}

#[test]
fn kill_binding_closes_the_focused_window() {
    let mut wm = manager();
    assert_eq!(wm.handle_events(Event::KeyPress { keysym: 0x71, state: MOD }), Vec::new());
    wm.handle_events(Event::MapRequest { window: 3, geometry: geometry(1, 1, 1, 1) });
    wm.handle_events(Event::MapRequest { window: 4, geometry: geometry(1, 1, 1, 1) });
    let out = wm.handle_events(Event::KeyPress { keysym: 0x71, state: MOD });
    assert_eq!(out, vec![Command::Kill { window: 4 }]);
    assert_eq!(windows(&wm), vec![3, 4]);
}

#[test]
fn mapping_change_of_keyboard_or_modifiers_regrabs() {
    let mut wm = manager();
    let regrab = vec![Command::RefreshMapping, Command::Regrab];
    assert_eq!(wm.handle_events(Event::MappingNotify { request: 0 }), regrab);
    assert_eq!(wm.handle_events(Event::MappingNotify { request: 1 }), regrab);
    assert_eq!(wm.handle_events(Event::MappingNotify { request: 2 }), Vec::new());
}

#[test]
fn configure_request_is_passed_through() {
    let mut wm = manager();
    let request = ConfigureRequest {
        window: 9,
        x: 1,
        y: -2,
        width: 3,
        height: 4,
        border_width: 5,
        above: 6,
        detail: 7,
        value_mask: 0x7f,
    };
    let out = wm.handle_events(Event::ConfigureRequest(request));
    assert_eq!(out, vec![Command::Configure(request)]);
    assert_eq!(wm.clients.len(), 0);
}

#[test]
fn other_events_are_ignored() {
    let mut wm = manager();
    wm.handle_events(Event::MapRequest { window: 3, geometry: geometry(1, 1, 1, 1) });
    assert_eq!(wm.handle_events(Event::Other), Vec::new());
    assert_eq!(windows(&wm), vec![3]);
}

#[test]
fn input_grab_lists_keys_then_buttons() {
    let mut wm = manager();
    wm.numlock = 0x10;
    let out = wm.input_grab(&vec![0u8; 8], 1, 77, &vec![36, 0]);
    assert_eq!(wm.numlock, 0x10);
    let mut expected = vec![Grab::UngrabKeys];
    for m in [0u32, 0x02, 0x10, 0x12] {
        expected.push(Grab::KeyChord { keycode: 36, modifiers: MOD | m });
    }
    for button in [1u32, 3] {
        for m in [0u32, 0x02, 0x10, 0x12] {
            expected.push(Grab::ButtonChord { button, modifiers: MOD | m });
        }
    }
    assert_eq!(out, expected);
}

#[test]
fn input_grab_uses_the_mask_known_before() {
    let mut wm = manager();
    let mut map = vec![0u8; 16];
    map[9] = 77;
    let out = wm.input_grab(&map, 2, 77, &vec![]);
    assert_eq!(wm.numlock, 0x10);
    assert_eq!(out.len(), 1 + 8);
    assert_eq!(out[1], Grab::ButtonChord { button: 1, modifiers: MOD });
    assert_eq!(out[3], Grab::ButtonChord { button: 1, modifiers: MOD });
    let out = wm.input_grab(&map, 2, 77, &vec![36, 24, 99]);
    assert_eq!(out.len(), 1 + 8 + 8);
    assert_eq!(out[3], Grab::KeyChord { keycode: 36, modifiers: MOD | 0x10 });
    assert_eq!(out[8], Grab::KeyChord { keycode: 24, modifiers: MOD | 0x12 });
}

#[test]
fn helpers_add_delete_centre_and_focus() {
    let mut wm = manager();
    let a = wm.win_add(1);
    let b = wm.win_add(2);
    assert_eq!(wm.clients.get(a), Some(Client::new(1)));
    assert_eq!(wm.win_focus(b), Some(Command::Focus { window: 2 }));
    assert_eq!(wm.clients.focused(), Some(b));
    let (at, go) = wm.win_center(2, geometry(0, 0, 20, 80));
    assert_eq!(at, geometry(950, 500, 20, 80));
    assert_eq!(go, Command::Move { window: 2, x: 950, y: 500 });
    assert_eq!(wm.window_delete(2), Some(b));
    assert_eq!(wm.win_focus(b), None);
    assert_eq!(wm.window_delete(2), None);
    assert_eq!(wm.clients.iter(), vec![a]);
}
