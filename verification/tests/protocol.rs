use shellkit::client::{
    parse_core_event, CallbackDone, CoreEvent, DisplayEvent, Interface, KeyState, KeyboardEvent, KeymapFormat, RegistryEvent, WlDisplay,
    WlDisplayError, WlKeyboard, WlRegistry,
};
use shellkit::server::{
    dispatch_request, parse_display_request, parse_registry_request, send_delete_id, send_done,
    send_error, send_global, send_global_remove, ClientId, ClientTable, CoreRequest, DisplayRequest,
    ObjectTable, SERVER_ID_START,
};
use shellkit::seat::{ButtonState, Fixed, PointerAxis, PointerAxisSource, PointerEvent, WlPointer};
use shellkit::session_lock::{
    ExtSessionLockEvent, ExtSessionLockManagerV1, ExtSessionLockSurfaceV1,
    ExtSessionLockSurfaceV1Event, ExtSessionLockV1,
};
use shellkit::wire::{encode_string, parse_messages, push_word, ObjectId, RawWaylandEvent};

fn words(ws: &[u32]) -> Vec<u8> {
    let mut v = Vec::new();
    for w in ws {
        push_word(&mut v, *w, true);
    }
    v
}

fn raw(id: u32, opcode: u32, data: Vec<u8>) -> RawWaylandEvent {
    RawWaylandEvent { object_id: ObjectId(id), opcode, data }
}

#[test]
fn lock_surface_configure_records_size() {
    let mut ls = ExtSessionLockSurfaceV1::new(true);
    ls.register(12);
    let ev = ls.process(&raw(12, 0, words(&[77, 1920, 1080])));
    match ev {
        Some(ExtSessionLockSurfaceV1Event::Configure { id, serial, width, height }) => {
            assert_eq!((id, serial, width, height), (12, 77, 1920, 1080));
        }
        None => panic!("configure expected"),
    }
    assert!(ls.process(&raw(13, 0, words(&[1, 2, 3]))).is_none());
    assert!(ls.process(&raw(12, 1, words(&[1, 2, 3]))).is_none());
    assert!(ls.process(&raw(12, 0, words(&[1, 2]))).is_none());
}

#[test]
fn lock_surface_requests_bytes() {
    let mut ls = ExtSessionLockSurfaceV1::new(true);
    ls.register(12);
    let mut out = Vec::new();
    ls.ack_configure(&mut out, 12, 77);
    assert_eq!(out, vec![12, 0, 0, 0, 1, 0, 12, 0, 77, 0, 0, 0]);
    let mut out2 = Vec::new();
    ls.destroy(&mut out2, 12);
    assert_eq!(out2, vec![12, 0, 0, 0, 0, 0, 8, 0]);
    assert!(ls.process(&raw(12, 0, words(&[1, 2, 3]))).is_none());
}

#[test]
fn session_lock_events_and_requests() {
    let mut lock = ExtSessionLockV1::new(true);
    lock.set_id(9);
    assert!(matches!(lock.process(&raw(9, 0, vec![])), Some(ExtSessionLockEvent::Locked)));
    assert!(matches!(lock.process(&raw(9, 1, vec![])), Some(ExtSessionLockEvent::Finished)));
    assert!(lock.process(&raw(9, 2, vec![])).is_none());
    assert!(lock.process(&raw(8, 0, vec![])).is_none());
    let mut out = Vec::new();
    lock.get_lock_surface(&mut out, 20, 21, 22);
    assert_eq!(out, vec![9, 0, 0, 0, 1, 0, 20, 0, 20, 0, 0, 0, 21, 0, 0, 0, 22, 0, 0, 0]);
    let mut out2 = Vec::new();
    lock.unlock_and_destroy(&mut out2);
    assert_eq!(out2, vec![9, 0, 0, 0, 2, 0, 8, 0]);
    let mut mgr = ExtSessionLockManagerV1::new(true);
    mgr.set_id(5);
    let mut out3 = Vec::new();
    mgr.lock(&mut out3, 9);
    assert_eq!(out3, vec![5, 0, 0, 0, 1, 0, 12, 0, 9, 0, 0, 0]);
}

#[test]
fn display_error_and_delete_id() {
    let d = WlDisplay::new(true);
    let mut body = words(&[4, 2]);
    encode_string(&mut body, "bad", true);
    match d.process(&raw(1, 0, body)) {
        Some(DisplayEvent::Error { object_id, code, message }) => {
            assert_eq!((object_id, code), (4, 2));
            assert_eq!(message, "bad");
        }
        _ => panic!("error expected"),
    }
    assert!(matches!(d.process(&raw(1, 1, words(&[33]))), Some(DisplayEvent::DeleteId { id: 33 })));
    assert!(d.process(&raw(2, 1, words(&[33]))).is_none());
    assert!(d.process(&raw(1, 0, words(&[4, 2]))).is_none());
    let mut out = Vec::new();
    d.get_registry(&mut out, 2);
    assert_eq!(out, vec![1, 0, 0, 0, 1, 0, 12, 0, 2, 0, 0, 0]);
    let mut out2 = Vec::new();
    d.sync(&mut out2, 3);
    assert_eq!(out2, vec![1, 0, 0, 0, 0, 0, 12, 0, 3, 0, 0, 0]);
    assert_eq!(WlDisplay::NAME, "wl_display");
    assert_eq!(WlDisplayError::InvalidMethod.code(), 1);
    assert_eq!(WlDisplayError::from_code(3), Some(WlDisplayError::Implementation));
    assert_eq!(WlDisplayError::from_code(4), None);
}

fn global(name: u32, iface: &str, version: u32) -> Vec<u8> {
    let mut body = words(&[name]);
    encode_string(&mut body, iface, true);
    push_word(&mut body, version, true);
    body
}

#[test]
fn registry_tracks_globals() {
    let mut r = WlRegistry::new(true);
    r.set_id(2);
    match r.process(&raw(2, 0, global(7, "wl_output", 4))) {
        Some(RegistryEvent::Global { name, interface, version }) => {
            assert_eq!((name, interface.as_str(), version), (7, "wl_output", 4));
        }
        _ => panic!("global expected"),
    }
    r.process(&raw(2, 0, global(8, "wl_output", 3)));
    r.process(&raw(2, 0, global(9, "wl_seat", 7)));
    let found = r.find("wl_seat");
    assert_eq!(found, Some((9, 7)));
    let out = r.find("wl_output");
    assert!(out == Some((7, 4)) || out == Some((8, 3)));
    let mut all = r.find_all("wl_output");
    all.sort();
    assert_eq!(all, vec![(7, 4), (8, 3)]);
    assert!(matches!(r.process(&raw(2, 1, words(&[7]))), Some(RegistryEvent::GlobalRemove { name: 7 })));
    assert_eq!(r.find_all("wl_output"), vec![(8, 3)]);
    assert_eq!(r.find("wl_shm"), None);
    assert!(r.process(&raw(3, 1, words(&[8]))).is_none());
    assert_eq!(r.find("wl_output"), Some((8, 3)));
}

#[test]
fn registry_bind_bytes() {
    let mut r = WlRegistry::new(true);
    r.set_id(2);
    let mut out = Vec::new();
    r.bind(&mut out, 7, "wl_seat", 5, 10);
    let mut expected = vec![2, 0, 0, 0, 0, 0, 32, 0, 7, 0, 0, 0, 8, 0, 0, 0];
    expected.extend_from_slice(b"wl_seat\0");
    expected.extend_from_slice(&[5, 0, 0, 0, 10, 0, 0, 0]);
    assert_eq!(out, expected);
}

#[test]
fn keyboard_events_decode() {
    let mut k = WlKeyboard::new(true);
    k.set_id(6);
    assert_eq!(k.id(), 6);
    assert!(matches!(
        k.process(&raw(6, 0, words(&[1, 4096])), Some(11)),
        Some(KeyboardEvent::Keymap { format: KeymapFormat::XkbV1, fd: 11, size: 4096 })
    ));
    assert!(k.process(&raw(6, 0, words(&[1, 4096])), None).is_none());
    assert!(k.process(&raw(6, 0, words(&[5, 4096])), Some(11)).is_none());
    let mut enter = words(&[3, 40, 9]);
    enter.extend_from_slice(&[30, 0, 0, 0, 1, 1, 0, 0, 7]);
    enter.extend_from_slice(&[0, 0, 0]);
    match k.process(&raw(6, 1, enter), None) {
        Some(KeyboardEvent::Enter { serial, surface, keys }) => {
            assert_eq!((serial, surface), (3, 40));
            assert_eq!(keys, vec![30, 257]);
        }
        _ => panic!("enter expected"),
    }
    assert!(matches!(
        k.process(&raw(6, 3, words(&[1, 2, 3, 1])), None),
        Some(KeyboardEvent::Key { serial: 1, time: 2, key: 3, state: KeyState::Pressed })
    ));
    assert!(k.process(&raw(6, 3, words(&[1, 2, 3, 9])), None).is_none());
    assert!(matches!(
        k.process(&raw(6, 4, words(&[1, 2, 3, 4, 5])), None),
        Some(KeyboardEvent::Modifiers { serial: 1, mods_depressed: 2, mods_latched: 3, mods_locked: 4, group: 5 })
    ));
    assert!(matches!(
        k.process(&raw(6, 5, words(&[25, 0xffff_fff6])), None),
        Some(KeyboardEvent::RepeatInfo { rate: 25, delay: -10 })
    ));
    assert!(matches!(
        k.process(&raw(6, 2, words(&[8, 40])), None),
        Some(KeyboardEvent::Leave { serial: 8, surface: 40 })
    ));
    assert!(k.process(&raw(6, 6, words(&[1, 2])), None).is_none());
    assert!(k.process(&raw(7, 2, words(&[1, 2])), None).is_none());
}

#[test]
fn clients_get_increasing_ids() {
    let mut t = ClientTable::new();
    assert!(t.on_accept(-11).is_none());
    let a = t.on_accept(5).unwrap();
    let b = t.on_accept(6).unwrap();
    assert_eq!(a.id, ClientId(0));
    assert_eq!(b.id, ClientId(1));
    assert!(t.is_connected(ClientId(1)));
    t.on_disconnect(ClientId(1));
    assert!(!t.is_connected(ClientId(1)));
    assert!(t.is_connected(ClientId(0)));
}

#[test]
fn object_ids_are_reused_after_invalidation() {
    let mut t = ObjectTable::new(SERVER_ID_START);
    assert_eq!(t.get_interface(ObjectId(1)), Some("wl_display"));
    let a = t.alloc_id();
    assert_eq!(a, ObjectId(SERVER_ID_START));
    t.register(a, "wl_callback");
    assert_eq!(t.get_interface(a), Some("wl_callback"));
    let b = t.alloc_id();
    assert_eq!(b, ObjectId(SERVER_ID_START + 1));
    t.invalidate_object(a);
    assert_eq!(t.get_interface(a), None);
    assert_eq!(t.alloc_id(), a);
    assert_eq!(t.alloc_id(), ObjectId(SERVER_ID_START + 2));
}


#[test]
fn server_parses_display_and_registry_requests() {
    assert_eq!(parse_display_request(&raw(1, 0, words(&[5])), true), Some(DisplayRequest::Sync { callback: 5 }));
    assert_eq!(parse_display_request(&raw(1, 1, words(&[2])), true), Some(DisplayRequest::GetRegistry { registry: 2 }));
    assert_eq!(parse_display_request(&raw(1, 2, words(&[2])), true), None);
    assert_eq!(parse_display_request(&raw(1, 0, vec![1, 2]), true), None);
    let mut body = words(&[7]);
    encode_string(&mut body, "wl_seat", true);
    body.extend_from_slice(&words(&[5, 10]));
    let b = parse_registry_request(&raw(2, 0, body.clone()), true).unwrap();
    assert_eq!((b.name, b.interface.as_str(), b.version, b.id), (7, "wl_seat", 5, 10));
    body.truncate(body.len() - 4);
    assert!(parse_registry_request(&raw(2, 0, body), true).is_none());
}

#[test]
fn server_global_reads_back_on_client() {
    let mut out = Vec::new();
    send_global(&mut out, 2, 9, "wl_shm", 1, true);
    send_global_remove(&mut out, 2, 4, true);
    let evs = parse_messages(out, true);
    let mut reg = WlRegistry::new(true);
    reg.set_id(2);
    match reg.process(&evs[0]) {
        Some(RegistryEvent::Global { name, interface, version }) => {
            assert_eq!((name, interface.as_str(), version), (9, "wl_shm", 1));
        }
        _ => panic!("global expected"),
    }
    assert!(matches!(reg.process(&evs[1]), Some(RegistryEvent::GlobalRemove { name: 4 })));
    assert_eq!(reg.find("wl_shm"), Some((9, 1)));
}

#[test]
fn server_error_and_callbacks_read_back() {
    let mut out = Vec::new();
    send_error(&mut out, 1, 12, 3, "invalid offset", true);
    send_delete_id(&mut out, 1, 40, true);
    send_done(&mut out, 40, 1234, true);
    let evs = parse_messages(out, true);
    assert_eq!(evs.len(), 3);
    let d = WlDisplay::new(true);
    match d.process(&evs[0]) {
        Some(DisplayEvent::Error { object_id, code, message }) => {
            assert_eq!((object_id, code, message.as_str()), (12, 3, "invalid offset"));
        }
        _ => panic!("error expected"),
    }
    assert!(matches!(d.process(&evs[1]), Some(DisplayEvent::DeleteId { id: 40 })));
    assert_eq!(evs[2].object_id, ObjectId(40));
    assert_eq!(evs[2].data, vec![0xd2, 0x04, 0, 0]);
}

#[test]
fn core_events_are_told_apart_by_interface() {
    let mut objects = ObjectTable::new(2);
    objects.register(ObjectId(2), "wl_registry");
    objects.register(ObjectId(3), "wl_callback");
    objects.register(ObjectId(4), "wl_seat");
    match parse_core_event(&objects, &raw(3, 0, words(&[42])), true) {
        Some(CoreEvent::Callback(done)) => assert_eq!(done, CallbackDone { callback: 3, data: 42 }),
        _ => panic!("callback done expected"),
    }
    assert!(parse_core_event(&objects, &raw(3, 1, words(&[42])), true).is_none());
    assert!(parse_core_event(&objects, &raw(3, 0, vec![1, 2]), true).is_none());
    match parse_core_event(&objects, &raw(2, 0, global(7, "wl_output", 4)), true) {
        Some(CoreEvent::Registry(RegistryEvent::Global { name, interface, version })) => {
            assert_eq!((name, interface.as_str(), version), (7, "wl_output", 4));
        }
        _ => panic!("global expected"),
    }
    match parse_core_event(&objects, &raw(1, 1, words(&[9])), true) {
        Some(CoreEvent::Display(DisplayEvent::DeleteId { id })) => assert_eq!(id, 9),
        _ => panic!("delete_id expected"),
    }
    // Objects of other interfaces, and unknown objects, are not read here.
    assert!(parse_core_event(&objects, &raw(4, 0, words(&[1])), true).is_none());
    assert!(parse_core_event(&objects, &raw(5, 0, words(&[1])), true).is_none());
}

#[test]
fn server_requests_register_new_objects() {
    let mut objects = ObjectTable::new(SERVER_ID_START);
    match dispatch_request(&mut objects, &raw(1, 1, words(&[2])), true) {
        Some(CoreRequest::Display(DisplayRequest::GetRegistry { registry })) => assert_eq!(registry, 2),
        _ => panic!("get_registry expected"),
    }
    assert_eq!(objects.get_interface(ObjectId(2)), Some("wl_registry"));
    match dispatch_request(&mut objects, &raw(1, 0, words(&[3])), true) {
        Some(CoreRequest::Display(DisplayRequest::Sync { callback })) => assert_eq!(callback, 3),
        _ => panic!("sync expected"),
    }
    assert_eq!(objects.get_interface(ObjectId(3)), Some("wl_callback"));
    let mut bind = words(&[7]);
    encode_string(&mut bind, "wl_seat", true);
    bind.extend(words(&[5, 4]));
    match dispatch_request(&mut objects, &raw(2, 0, bind), true) {
        Some(CoreRequest::Bind(b)) => {
            assert_eq!((b.name, b.interface.as_str(), b.version, b.id), (7, "wl_seat", 5, 4));
        }
        _ => panic!("bind expected"),
    }
    // A bind names its object but does not create it; callbacks take no requests.
    assert_eq!(objects.get_interface(ObjectId(4)), None);
    assert!(dispatch_request(&mut objects, &raw(3, 0, words(&[1])), true).is_none());
    assert!(dispatch_request(&mut objects, &raw(9, 0, words(&[1])), true).is_none());
    assert!(dispatch_request(&mut objects, &raw(1, 2, words(&[1])), true).is_none());
}

#[test]
fn syncs_wait_for_the_next_poll() {
    let mut t = ClientTable::new();
    t.on_accept(5);
    t.on_accept(6);
    t.on_accept(7);
    t.set_pending_sync(ClientId(0), 30);
    t.set_pending_sync(ClientId(0), 31);
    t.set_pending_sync(ClientId(2), 40);
    t.set_pending_sync(ClientId(9), 50);
    let due = t.take_pending_syncs();
    assert_eq!(due.len(), 2);
    assert!(due.contains(&(ClientId(0), 31)));
    assert!(due.contains(&(ClientId(2), 40)));
    assert!(t.take_pending_syncs().is_empty());
    t.set_pending_sync(ClientId(1), 60);
    t.on_disconnect(ClientId(1));
    assert!(t.take_pending_syncs().is_empty());
}

#[test]
fn pointer_events_decode() {
    let mut p = WlPointer::new(true);
    p.set_id(9);
    assert_eq!(p.id(), 9);
    let x = (12 * 256 + 128) as u32;
    let y = (-3i32 * 256) as u32;
    assert_eq!(
        p.process(&raw(9, 0, words(&[1, 40, x, y]))),
        Some(PointerEvent::Enter { serial: 1, surface: 40, surface_x: Fixed(3200), surface_y: Fixed(-768) })
    );
    assert_eq!(p.process(&raw(9, 1, words(&[2, 40]))), Some(PointerEvent::Leave { serial: 2, surface: 40 }));
    assert_eq!(
        p.process(&raw(9, 2, words(&[100, x, y]))),
        Some(PointerEvent::Motion { time: 100, surface_x: Fixed(3200), surface_y: Fixed(-768) })
    );
    assert_eq!(
        p.process(&raw(9, 3, words(&[3, 101, 272, 1]))),
        Some(PointerEvent::Button { serial: 3, time: 101, button: 272, state: ButtonState::Pressed })
    );
    assert!(p.process(&raw(9, 3, words(&[3, 101, 272, 2]))).is_none());
    assert_eq!(
        p.process(&raw(9, 4, words(&[102, 1, 2560]))),
        Some(PointerEvent::Axis { time: 102, axis: PointerAxis::HorizontalScroll, value: Fixed(2560) })
    );
    assert!(p.process(&raw(9, 4, words(&[102, 7, 2560]))).is_none());
    assert_eq!(p.process(&raw(9, 5, vec![])), Some(PointerEvent::Frame));
    assert_eq!(
        p.process(&raw(9, 6, words(&[2]))),
        Some(PointerEvent::AxisSource { axis_source: PointerAxisSource::Continuous })
    );
    assert_eq!(
        p.process(&raw(9, 7, words(&[103, 0]))),
        Some(PointerEvent::AxisStop { time: 103, axis: PointerAxis::VerticalScroll })
    );
    assert_eq!(
        p.process(&raw(9, 8, words(&[0, (-2i32) as u32]))),
        Some(PointerEvent::AxisDiscrete { axis: PointerAxis::VerticalScroll, discrete: -2 })
    );
    assert!(p.process(&raw(9, 9, words(&[0, 0]))).is_none());
    assert!(p.process(&raw(9, 2, words(&[100, x]))).is_none());
    assert!(p.process(&raw(8, 5, vec![])).is_none());
}
