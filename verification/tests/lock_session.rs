use shellkit::lock_session::{LockClient, LockSession, LockSurfaceIds};
use shellkit::lockscreen::{AppStateMode, OutputInfo};
use shellkit::session_lock::ExtSessionLockEvent;
use shellkit::wire::{encode_string, push_word, ObjectId, RawWaylandEvent};

fn header(sender: u32, opcode: u16, size: u16) -> Vec<u8> {
    let mut v = Vec::new();
    push_word(&mut v, sender, true);
    v.extend_from_slice(&opcode.to_le_bytes());
    v.extend_from_slice(&size.to_le_bytes());
    v
}

fn msg(sender: u32, opcode: u16, args: &[u32]) -> Vec<u8> {
    let mut v = header(sender, opcode, (8 + 4 * args.len()) as u16);
    for a in args {
        push_word(&mut v, *a, true);
    }
    v
}

fn bind_output(registry: u32, name: u32, version: u32, id: u32) -> Vec<u8> {
    let mut v = header(registry, 0, 36);
    push_word(&mut v, name, true);
    v.extend_from_slice(&[10, 0, 0, 0]);
    v.extend_from_slice(b"wl_output\0\0\0");
    push_word(&mut v, version, true);
    push_word(&mut v, id, true);
    v
}

fn announce(wl: &mut LockClient, name: u32, iface: &str, version: u32) {
    let mut body = Vec::new();
    push_word(&mut body, name, true);
    encode_string(&mut body, iface, true);
    push_word(&mut body, version, true);
    wl.registry.process(&RawWaylandEvent { object_id: ObjectId(2), opcode: 0, data: body });
}

/// A little-endian client with registry 2, compositor 3 and lock manager 4.
fn client() -> LockClient {
    let mut wl = LockClient::new(true);
    let r = wl.ids.alloc_id();
    let c = wl.ids.alloc_id();
    let m = wl.ids.alloc_id();
    assert_eq!((r.0, c.0, m.0), (2, 3, 4));
    wl.registry.set_id(2);
    wl.compositor = 3;
    wl.manager.set_id(4);
    wl
}

#[test]
fn lock_creates_a_lock_surface_per_output_and_unlock_tears_down() {
    let mut wl = client();
    announce(&mut wl, 7, "wl_output", 5);
    announce(&mut wl, 9, "wl_seat", 7);
    let mut s = LockSession::new();
    s.trigger_lock(&mut wl);
    assert_eq!(s.mode, AppStateMode::Locking);
    assert_eq!(s.lock_id, Some(5));
    assert_eq!(s.outputs, vec![OutputInfo { global_name: 7, id: 6 }]);
    assert_eq!(
        s.surfaces,
        vec![LockSurfaceIds { global: 7, output: 6, wl_surface: 7, lock_surface: 8, buffer0: 0, buffer1: 0 }]
    );
    let mut want = msg(4, 1, &[5]);
    want.extend(bind_output(2, 7, 4, 6));
    want.extend(msg(3, 0, &[7]));
    want.extend(msg(5, 1, &[8, 7, 6]));
    assert_eq!(wl.out, want);

    // A second request while locking changes nothing.
    wl.out.clear();
    s.trigger_lock(&mut wl);
    assert!(wl.out.is_empty());
    assert_eq!(s.surfaces.len(), 1);

    // Unlocking before the compositor confirmed does nothing.
    assert!(s.trigger_unlock(&mut wl).is_none());
    assert!(wl.out.is_empty());

    assert!(s.on_lock_event(&mut wl, ExtSessionLockEvent::Locked).is_none());
    assert_eq!(s.mode, AppStateMode::Locked);
    assert_eq!(s.surface_of(8), Some(7));
    assert_eq!(s.surface_of(9), None);
    assert!(s.set_buffers(7, 20, 21));
    assert!(!s.set_buffers(99, 1, 2));

    let (gone, cb) = s.trigger_unlock(&mut wl).unwrap();
    assert_eq!(gone.len(), 1);
    assert_eq!(cb, 9);
    let mut want = msg(5, 2, &[]);
    want.extend(msg(8, 0, &[]));
    want.extend(msg(7, 0, &[]));
    want.extend(msg(20, 0, &[]));
    want.extend(msg(21, 0, &[]));
    want.extend(msg(1, 0, &[9]));
    assert_eq!(wl.out, want);
    assert_eq!(s.mode, AppStateMode::Unlocked);
    assert_eq!(s.lock_id, None);
    assert!(s.surfaces.is_empty());

    // Locking again reuses the bound output.
    wl.out.clear();
    s.trigger_lock(&mut wl);
    let mut want = msg(4, 1, &[10]);
    want.extend(msg(3, 0, &[11]));
    want.extend(msg(10, 1, &[12, 11, 6]));
    assert_eq!(wl.out, want);
    assert_eq!(s.outputs.len(), 1);
}

#[test]
fn refused_lock_is_torn_down() {
    let mut wl = client();
    announce(&mut wl, 7, "wl_output", 3);
    let mut s = LockSession::new();
    s.trigger_lock(&mut wl);
    assert_eq!(s.surfaces[0].output, 6);
    wl.out.clear();
    let (gone, cb) = s.on_lock_event(&mut wl, ExtSessionLockEvent::Finished).unwrap();
    assert_eq!(gone.len(), 1);
    let mut want = msg(8, 0, &[]);
    want.extend(msg(7, 0, &[]));
    want.extend(msg(1, 0, &[cb]));
    assert_eq!(wl.out, want);
    assert_eq!(s.mode, AppStateMode::Unlocked);
}

#[test]
fn lock_without_outputs_only_locks() {
    let mut wl = client();
    let mut s = LockSession::new();
    s.trigger_lock(&mut wl);
    assert_eq!(wl.out, msg(4, 1, &[5]));
    assert!(s.surfaces.is_empty());
    assert_eq!(s.mode, AppStateMode::Locking);
}

#[test]
fn output_is_bound_once() {
    let mut wl = client();
    let mut s = LockSession::new();
    assert_eq!(s.get_or_create_output(&mut wl), None);
    announce(&mut wl, 7, "wl_output", 2);
    assert_eq!(s.get_or_create_output(&mut wl), Some(5));
    assert_eq!(wl.out, bind_output(2, 7, 2, 5));
    assert_eq!(s.get_or_create_output(&mut wl), Some(5));
    assert_eq!(wl.out, bind_output(2, 7, 2, 5));
}
