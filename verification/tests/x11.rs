use clm_vdisplay::input::MouseAction;
use clm_vdisplay::x11::clipboard::{
    ClipboardAtoms, ConvertAction, SelectionData, SelectionRequest, X11ClipboardBridge,
};
use clm_vdisplay::x11::detector::{DisplayFacts, X11Detector, X11DisplayState};
use clm_vdisplay::x11::input::{
    build_keymap, keycode_count, mouse_action_inputs, FakeInput, X11InputInjector,
};
use clm_vdisplay::x11::supervisor::{
    keep_waiting, spawn_step, CleanupPlan, ReadyPlan, SpawnStep, X11ProcessGuard, X11Supervisor,
    STOP_POLLS,
};

#[test]
fn test_process_guard_disarm() {
    let mut guard = X11ProcessGuard::new(999, Some(12345), true);
    assert!(guard.is_managed);
    assert!(!guard.is_cleaned_up);

    guard.disarm();
    assert!(!guard.is_managed);
    assert!(guard.is_cleaned_up);
}

#[test]
fn test_supervisor_constructor() {
    let supervisor = X11Supervisor::new(100, 1920, 1080, 24, None);
    assert_eq!(supervisor.display_num, 100);
    assert_eq!(supervisor.width, 1920);
    assert_eq!(supervisor.height, 1080);
    assert_eq!(supervisor.depth, 24);
    assert_eq!(supervisor.xvfb_path, "Xvfb");
}

#[test]
fn test_read_lock_pid_valid() {
    let pid = X11Detector::read_lock_pid(Some("   12345\n"));
    assert_eq!(pid, Some(12345));
}

#[test]
fn test_read_lock_pid_missing() {
    let pid = X11Detector::read_lock_pid(None);
    assert_eq!(pid, None);
}

#[test]
fn lock_files_without_a_number() {
    assert_eq!(X11Detector::read_lock_pid(Some("")), None);
    assert_eq!(X11Detector::read_lock_pid(Some("12a")), None);
    assert_eq!(X11Detector::read_lock_pid(Some("-1")), None);
    assert_eq!(X11Detector::read_lock_pid(Some("4294967296")), None);
    assert_eq!(X11Detector::read_lock_pid(Some("\t+7\r\n")), Some(7));
    assert_eq!(X11Detector::pid_to_probe(0), None);
    assert_eq!(X11Detector::pid_to_probe(12), Some(12));
}

fn facts() -> DisplayFacts {
    DisplayFacts {
        lock_pid: Some(42),
        pid_alive: true,
        lock_exists: true,
        socket_exists: true,
        socket_connects: true,
    }
}

#[test]
fn states_of_a_display() {
    let (lock_path, socket_path) = X11Detector::get_display_paths(7);
    assert_eq!(lock_path, "/tmp/.X7-lock");
    assert_eq!(socket_path, "/tmp/.X11-unix/X7");
    assert_eq!(
        X11Detector::probe_display(7, &facts()),
        X11DisplayState::Active {
            pid: 42,
            lock_path: lock_path.clone(),
            socket_path: socket_path.clone()
        }
    );
    let stale = X11DisplayState::Stale {
        stale_pid: Some(42),
        lock_path: lock_path.clone(),
        socket_path: socket_path.clone(),
    };
    for change in 0..3 {
        let mut f = facts();
        match change {
            0 => f.pid_alive = false,
            1 => f.socket_exists = false,
            _ => f.socket_connects = false,
        }
        assert_eq!(X11Detector::probe_display(7, &f), stale);
    }
    assert_eq!(
        X11Detector::purge_stale(&stale),
        vec![lock_path.clone(), socket_path.clone()]
    );
    let nothing = DisplayFacts {
        lock_pid: None,
        pid_alive: false,
        lock_exists: false,
        socket_exists: false,
        socket_connects: false,
    };
    let free = X11Detector::probe_display(7, &nothing);
    assert_eq!(free, X11DisplayState::Free { lock_path, socket_path });
    assert!(X11Detector::purge_stale(&free).is_empty());
}

#[test]
fn cleanup_happens_once() {
    let mut guard = X11ProcessGuard::new(5, Some(77), true);
    assert_eq!(guard.lock_path, "/tmp/.X5-lock");
    assert_eq!(guard.cleanup(), CleanupPlan { stop: Some(77), remove_files: true });
    let nothing = CleanupPlan { stop: None, remove_files: false };
    assert_eq!(guard.cleanup(), nothing);
    let mut attached = X11ProcessGuard::new(5, Some(77), false);
    assert_eq!(attached.cleanup(), nothing);
    let mut zero = X11ProcessGuard::new(5, Some(0), true);
    assert_eq!(zero.cleanup(), CleanupPlan { stop: None, remove_files: true });
    assert!(keep_waiting(0, true));
    assert!(!keep_waiting(0, false));
    assert!(!keep_waiting(STOP_POLLS, true));
}

#[test]
fn making_a_display_ready() {
    let supervisor = X11Supervisor::new(7, 800, 600, 24, Some("/bin/x".to_string()));
    assert_eq!(supervisor.xvfb_path, "/bin/x");
    let active = X11Detector::probe_display(7, &facts());
    assert!(matches!(supervisor.ensure_ready(&active, false), ReadyPlan::Attach(42)));
    let mut f = facts();
    f.pid_alive = false;
    let stale = X11Detector::probe_display(7, &f);
    assert!(matches!(supervisor.ensure_ready(&stale, true), ReadyPlan::PurgeAndSpawn));
    match supervisor.ensure_ready(&stale, false) {
        ReadyPlan::Refuse(message) => assert_eq!(
            message,
            "Display :7 has stale artifacts (stale_pid=Some(42)) and manage_x11 is disabled"
        ),
        _ => panic!("unexpected plan"),
    }
    f.lock_pid = None;
    let orphan = X11Detector::probe_display(7, &f);
    match supervisor.ensure_ready(&orphan, false) {
        ReadyPlan::Refuse(message) => assert_eq!(
            message,
            "Display :7 has stale artifacts (stale_pid=None) and manage_x11 is disabled"
        ),
        _ => panic!("unexpected plan"),
    }
    f.lock_exists = false;
    f.socket_exists = false;
    let free = X11Detector::probe_display(7, &f);
    assert!(matches!(supervisor.ensure_ready(&free, true), ReadyPlan::Spawn));
    match supervisor.ensure_ready(&free, false) {
        ReadyPlan::Refuse(message) => assert_eq!(
            message,
            "Display :7 is not active and manage_x11 is disabled (attach mode)"
        ),
        _ => panic!("unexpected plan"),
    }
}

#[test]
fn arguments_of_the_server() {
    let usual = X11Supervisor::new(7, 800, 600, 24, None).spawn_args();
    assert_eq!(usual.len(), 20);
    assert_eq!(usual[..5], [":7", "-screen", "0", "800x600x24", "-ac"]);
    assert_eq!(usual[18..], ["+extension", "MIT-SHM"]);
    let own = X11Supervisor::with_custom_args(
        7,
        800,
        600,
        24,
        None,
        Some(vec![":8".to_string(), "-ac".to_string()]),
    );
    assert_eq!(own.spawn_args(), vec![":8".to_string(), "-ac".to_string()]);
    assert_eq!(spawn_step(2999, false, false), SpawnStep::Wait);
    assert_eq!(spawn_step(2999, false, true), SpawnStep::Ready);
    assert_eq!(spawn_step(2999, true, true), SpawnStep::Exited);
    assert_eq!(spawn_step(3000, false, true), SpawnStep::TimedOut);
}

#[test]
fn keyboard_mappings() {
    assert_eq!(keycode_count(8, 255), 248);
    assert_eq!(keycode_count(9, 8), 1);
    let injector = X11InputInjector::new(1, &[0x61, 0x41, 0, 0x62, 0x61, 0x42], 8, 2);
    assert_eq!(
        injector.send_key_event(0x61, true),
        Some(FakeInput::Key { press: true, keycode: 8 })
    );
    assert_eq!(
        injector.send_key_event(0x42, false),
        Some(FakeInput::Key { press: false, keycode: 10 })
    );
    assert_eq!(injector.send_key_event(0, true), None);
    assert_eq!(injector.send_key_event(0x63, true), None);
    let map = build_keymap(&[5, 6, 7], 254, 1);
    assert_eq!((map.get(&5), map.get(&6), map.get(&7)), (Some(&254), Some(&255), Some(&0)));
    let mut refreshed = injector;
    refreshed.refresh_keymap(&[0x63], 20, 1);
    assert_eq!(refreshed.send_key_event(0x61, true), None);
    assert!(refreshed.send_key_event(0x63, true).is_some());
}

fn button(press: bool, button: u8) -> FakeInput {
    FakeInput::Button { press, button, x: 3, y: 4 }
}

#[test]
fn pointer_input() {
    let mut injector = X11InputInjector::new(1, &[], 8, 1);
    assert_eq!(
        injector.send_pointer_event(3, 4, 0b100_0101),
        vec![
            FakeInput::Motion { x: 3, y: 4 },
            button(true, 1),
            button(true, 3),
            button(true, 7)
        ]
    );
    assert_eq!(
        injector.send_pointer_event(3, 4, 0b000_0110),
        vec![
            FakeInput::Motion { x: 3, y: 4 },
            button(false, 1),
            button(true, 2),
            button(false, 7)
        ]
    );
    // Coordinates beyond the signed range wrap around.
    assert_eq!(
        injector.send_pointer_event(40000, 4, 0b000_0110),
        vec![FakeInput::Motion { x: 40000u16 as i16, y: 4 }]
    );
}

#[test]
fn mouse_actions_as_input() {
    assert_eq!(
        mouse_action_inputs(MouseAction::Move { x: 3, y: 4 }),
        vec![FakeInput::Motion { x: 3, y: 4 }]
    );
    for (bit, number) in [(1u8, 1u8), (2, 2), (4, 3), (9, 1)] {
        assert_eq!(
            mouse_action_inputs(MouseAction::ButtonDown { button: bit, x: 3, y: 4 }),
            vec![button(true, number)]
        );
        assert_eq!(
            mouse_action_inputs(MouseAction::ButtonUp { button: bit, x: 3, y: 4 }),
            vec![button(false, number)]
        );
    }
    assert_eq!(
        mouse_action_inputs(MouseAction::Scroll { delta_x: -1, delta_y: 2, x: 3, y: 4 }),
        vec![
            button(true, 4),
            button(false, 4),
            button(true, 4),
            button(false, 4),
            button(true, 6),
            button(false, 6)
        ]
    );
    let injector = X11InputInjector::new(1, &[], 8, 2);
    assert_eq!(injector.send_mouse_button(5, true, 3, 4), button(true, 5));
    assert_eq!(
        injector.send_mouse_scroll(1, -1, 3, 4),
        vec![button(true, 5), button(false, 5), button(true, 7), button(false, 7)]
    );
}

fn bridge() -> X11ClipboardBridge {
    X11ClipboardBridge::new(
        500,
        ClipboardAtoms {
            clipboard: 10,
            primary: 1,
            utf8: 12,
            targets: 13,
            text: 14,
            timestamp: 15,
            incr: 16,
            property: 17,
            string: 31,
        },
    )
}

fn request(target: u32, property: u32) -> SelectionRequest {
    SelectionRequest { time: 9, requestor: 77, selection: 10, target, property }
}

#[test]
fn text_offered_to_other_windows() {
    let mut bridge = bridge();
    assert_eq!(bridge.own_from_client("h\u{e9}"), [10, 1]);
    for (target, kind) in [(12, 12), (14, 12), (31, 31)] {
        let reply = bridge.handle_selection_request(&request(target, 99));
        assert_eq!((reply.property, reply.notify_property), (99, 99));
        match reply.data {
            SelectionData::Text(ty, bytes) => {
                assert_eq!(ty, kind);
                assert_eq!(bytes, "h\u{e9}".as_bytes());
            }
            _ => panic!("unexpected data"),
        }
    }
    let reply = bridge.handle_selection_request(&request(13, 0));
    assert_eq!(reply.property, 13);
    match reply.data {
        SelectionData::Atoms(atoms) => assert_eq!(atoms, vec![13, 15, 12, 31, 14]),
        _ => panic!("unexpected data"),
    }
    let reply = bridge.handle_selection_request(&request(15, 99));
    assert!(matches!(reply.data, SelectionData::Time(0)));
    let reply = bridge.handle_selection_request(&request(1234, 99));
    assert!(matches!(reply.data, SelectionData::Refused));
    assert_eq!(reply.notify_property, 0);
}

#[test]
fn text_fetched_from_other_windows() {
    let mut bridge = bridge();
    assert!(!bridge.handle_xfixes_notify(1, 77));
    assert!(!bridge.handle_xfixes_notify(10, 500));
    assert!(!bridge.handle_xfixes_notify(10, 0));
    assert!(bridge.handle_xfixes_notify(10, 77));
    assert_eq!(bridge.handle_convert_notify(501, 10, 17), ConvertAction::Ignore);
    assert_eq!(bridge.handle_convert_notify(500, 10, 0), ConvertAction::AskForString);
    assert_eq!(bridge.handle_convert_notify(500, 10, 0), ConvertAction::Ignore);
    assert!(bridge.handle_xfixes_notify(10, 77));
    assert_eq!(bridge.handle_convert_notify(500, 10, 17), ConvertAction::Read(17));
    assert!(bridge.handle_xfixes_notify(10, 77));
    bridge.ask_failed();
    assert_eq!(bridge.handle_convert_notify(500, 10, 0), ConvertAction::Ignore);
}

#[test]
fn text_in_a_property() {
    let bridge = bridge();
    assert_eq!(bridge.read_property_text(16, b"abc"), None);
    assert_eq!(bridge.read_property_text(12, b""), Some(String::new()));
    assert_eq!(bridge.read_property_text(12, b"abc"), Some("abc".to_string()));
    assert_eq!(bridge.read_property_text(12, b"a\xff"), Some("a\u{fffd}".to_string()));
    let long = vec![b'x'; 300_000];
    assert_eq!(bridge.read_property_text(12, &long).unwrap().len(), 256 * 1024);
}
