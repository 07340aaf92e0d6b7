use std::collections::HashMap;

use shellkit::counter::{Counter, CounterEvent};
use shellkit::server::ObjectTable;
use shellkit::wire::ObjectId;
use shellkit::dbus::{
    match_call, match_signal, reply_error, MatchRule, MessageHeader, MessageKind, Pending, Subscription,
};
use shellkit::lockscreen::{find_output, AppStateMode, LockMode, OutputInfo, Surface};
use shellkit::rect::Rect;
use shellkit::region::{Region, RegionBuilder};
use shellkit::window::{
    BufferPair, CreatedWindow, KeyboardInteractivity, Layer, WindowId, WindowKind, WindowManager, ANCHOR_LEFT,
    ANCHOR_TOP,
};

#[test]
fn match_rule_text() {
    let r = MatchRule::signal("org.freedesktop.DBus.Properties", "PropertiesChanged");
    assert_eq!(
        r.rule(),
        "type='signal',interface='org.freedesktop.DBus.Properties',member='PropertiesChanged'"
    );
    let r = r.sender("org.mpris".to_string()).path("/org/mpris/MediaPlayer2".to_string());
    assert_eq!(
        r.rule(),
        "type='signal',interface='org.freedesktop.DBus.Properties',member='PropertiesChanged',sender='org.mpris',path='/org/mpris/MediaPlayer2'"
    );
    let only_path = MatchRule::signal("a.b", "C").path("/x".to_string());
    assert_eq!(only_path.rule(), "type='signal',interface='a.b',member='C',path='/x'");
    let sub = Subscription { rule: only_path.rule(), serial: 4 };
    assert_eq!(sub.clone().serial, 4);
}

#[test]
fn pending_calls_resolve_once() {
    let mut p: Pending<&str> = Pending::new();
    assert!(p.is_empty());
    assert_eq!(p.call(0, "dropped"), 0);
    assert!(p.is_empty());
    assert_eq!(p.call(5, "volume"), 5);
    assert_eq!(p.call(6, "mute"), 6);
    assert_eq!(p.resolve(5), Some("volume"));
    assert_eq!(p.resolve(5), None);
    assert!(!p.is_empty());
    p.clear();
    assert!(p.is_empty());
    assert_eq!(p.resolve(6), None);
}

#[test]
fn lock_modes_default_unlocked() {
    assert_eq!(LockMode::default(), LockMode::Unlocked);
    assert_eq!(AppStateMode::default(), AppStateMode::Unlocked);
}

#[test]
fn outputs_found_by_global_name() {
    let outs = vec![
        OutputInfo { global_name: 3, id: 30 },
        OutputInfo { global_name: 4, id: 40 },
        OutputInfo { global_name: 3, id: 31 },
    ];
    assert_eq!(find_output(&outs, 3), Some(30));
    assert_eq!(find_output(&outs, 4), Some(40));
    assert_eq!(find_output(&outs, 5), None);
}

#[test]
fn lock_surface_double_buffering() {
    let mut ids = ObjectTable::new(2);
    let mut cbs: HashMap<u32, u32> = HashMap::new();
    let mut out: Vec<u8> = Vec::new();
    let mut s: Surface<&str> = Surface::new(9);
    assert_eq!(s.free_buf_idx(), Some(0));
    let old = s.set_buffers(640, 480, "a", "b", 100, 101);
    assert!(old.is_empty());
    assert_eq!(s.size, (640, 480));
    assert_eq!(s.request_redraw(&mut out, &mut ids, &mut cbs, true), Some(0));
    assert!(s.frame_callback_pending && !s.dirty);
    let mut want = le_msg(9, 1, &[100, 0, 0]);
    want.extend(le_msg(9, 2, &[0, 0, 640, 480]));
    want.extend(le_msg(9, 3, &[2]));
    want.extend(le_msg(9, 6, &[]));
    assert_eq!(out, want);
    assert_eq!(cbs.get(&2), Some(&9));
    assert_eq!(ids.get_interface(ObjectId(2)), Some("wl_callback"));
    out.clear();
    // A callback is pending: only marked dirty.
    assert_eq!(s.request_redraw(&mut out, &mut ids, &mut cbs, true), None);
    assert!(s.dirty && out.is_empty());
    // The callback fires with dirty content: the next frame goes out.
    assert_eq!(s.on_frame_done(&mut out, &mut ids, &mut cbs, true), Some(1));
    assert!(s.frame_callback_pending && !s.dirty);
    assert_eq!(&out[0..20], le_msg(9, 1, &[101, 0, 0]).as_slice());
    out.clear();
    // The next callback finds clean content: nothing is sent.
    assert_eq!(s.on_frame_done(&mut out, &mut ids, &mut cbs, true), None);
    assert!(!s.frame_callback_pending && !s.dirty && out.is_empty());
    // Both buffers held: a redraw only marks dirty.
    assert_eq!(s.free_buf_idx(), None);
    assert_eq!(s.request_redraw(&mut out, &mut ids, &mut cbs, true), None);
    assert!(s.dirty && !s.frame_callback_pending && out.is_empty());
    assert!(s.on_buffer_release(101));
    assert!(!s.on_buffer_release(555));
    assert_eq!(s.free_buf_idx(), Some(1));
    assert_eq!(s.present(&mut out, &mut ids, &mut cbs, true), Some(1));
    assert_eq!(s.present(&mut out, &mut ids, &mut cbs, true), None);
    let old = s.set_buffers(10, 10, "c", "d", 102, 103);
    assert_eq!(old, vec!["a", "b"]);
    assert_eq!(s.destroy(), vec!["c", "d"]);
}

#[test]
fn window_buffers_alternate() {
    let mut p = BufferPair::new();
    assert!(!p.is_configured());
    assert!(!p.is_back_released());
    p.on_buffer_release(1);
    assert!(p.released.is_none());
    p.configure(1, 2);
    assert!(p.is_back_released());
    assert_eq!(p.present(), 0);
    assert!(p.is_back_released());
    assert_eq!(p.present(), 1);
    assert!(!p.is_back_released());
    p.on_buffer_release(1);
    assert!(p.is_back_released());
    assert_eq!(p.released, Some([true, false]));
    assert_eq!(WindowId(3), WindowId(3));
}

#[test]
fn counter_moves_by_delta() {
    let mut c = Counter::default();
    assert_eq!(c.apply(1), CounterEvent::Updated { new_count: 1 });
    assert_eq!(c.apply(-3), CounterEvent::Updated { new_count: -2 });
    assert_eq!(c.count, -2);
}

#[test]
fn rect_accessors_and_predicates() {
    let r = Rect::new(0, 0, 10, 5).unwrap();
    assert_eq!((r.x1(), r.y1(), r.x2(), r.y2()), (0, 0, 10, 5));
    assert_eq!((r.width(), r.height()), (10, 5));
    assert!(!r.is_empty());
    assert!(r.contains(0, 0) && r.contains(9, 4));
    assert!(!r.contains(10, 0) && !r.contains(0, 5));
    assert!(Rect::new(5, 0, 4, 1).is_none());
    assert!(Rect::new(0, 0, 0, 3).unwrap().is_empty());
    let s = Rect::new(9, 4, 20, 20).unwrap();
    assert!(r.intersects(s));
    assert!(!r.intersects(Rect::new(10, 0, 20, 5).unwrap()));
    let u = r.union(s);
    assert_eq!((u.x1(), u.y1(), u.x2(), u.y2()), (0, 0, 20, 20));
    let sat = Rect::new_sized_saturating(i32::MAX - 1, 0, 10, -4);
    assert_eq!((sat.x2(), sat.y2()), (i32::MAX, 0));
    assert!(sat.is_empty());
}

#[test]
fn empty_results_have_no_points() {
    let r = Region::from_rects(&[Rect::new_sized_saturating(0, 0, 0, 10)]);
    assert!(r.is_empty());
    assert!(Region::new(Rect::new_sized_saturating(5, 5, 0, 0)).is_empty());
    let mut b = RegionBuilder::default();
    b.add(Rect::new_sized_saturating(0, 0, 10, 10));
    b.sub(Rect::new_sized_saturating(0, 0, 10, 10));
    assert!(b.get().is_empty());
    let mut b2 = RegionBuilder::default();
    b2.add(Rect::new_sized_saturating(0, 0, 0, 0));
    b2.add(Rect::new_sized_saturating(0, 0, -1, 5));
    let r2 = b2.get();
    assert!(r2.is_empty());
    assert!(r2.rects().is_empty());
}

#[test]
fn region_extents_and_subtract_disjoint() {
    let a = Region::from_rects(&[Rect::new_sized_saturating(0, 0, 4, 4), Rect::new_sized_saturating(10, 10, 2, 2)]);
    let e = a.extents();
    assert_eq!((e.x1(), e.y1(), e.x2(), e.y2()), (0, 0, 12, 12));
    let far = Region::from_rects(&[Rect::new_sized_saturating(100, 100, 1, 1)]);
    let d = a.subtract(&far);
    assert!(d.contains(1, 1) && d.contains(11, 11) && !d.contains(5, 5));
    let u = a.union(&far);
    assert!(u.contains(100, 100));
}

use shellkit::window::{configure_size, WindowRouter};

#[test]
fn window_router_routes_input() {
    let mut r = WindowRouter::new();
    let a = r.alloc_window_id();
    let b = r.alloc_window_id();
    assert_eq!((a, b), (WindowId(0), WindowId(1)));
    r.register_window(a, 10, 11);
    r.register_window(b, 20, 21);
    assert_eq!(r.role_window(21), Some(b));
    assert_eq!(r.role_window(10), None);
    assert_eq!(r.pointer_enter(10), Some(a));
    assert_eq!(r.pointer_target(), Some(a));
    assert_eq!(r.pointer_leave(), Some(a));
    assert_eq!(r.pointer_target(), None);
    assert_eq!(r.pointer_enter(99), None);
    assert_eq!(r.keyboard_enter(20), Some(b));
    assert_eq!(r.keyboard_target(), Some(b));
    assert_eq!(r.keyboard_leave(), Some(b));
    assert_eq!(r.touch_down(10, 0), Some(a));
    assert_eq!(r.touch_down(10, 1), Some(a));
    assert_eq!(r.touch_down(20, 2), Some(b));
    assert_eq!(r.touch_down(55, 3), None);
    assert_eq!(r.touch_motion(2), Some(b));
    let mut f = r.touch_frame();
    f.sort_by_key(|w| w.0);
    assert_eq!(f, vec![a, b]);
    assert_eq!(r.touch_up(2), Some(b));
    assert_eq!(r.touch_up(2), None);
    let c = r.touch_cancel();
    assert_eq!(c, vec![a]);
    assert!(r.touch_frame().is_empty());
    r.track_frame(30, a);
    assert_eq!(r.frame_done(30), Some(a));
    assert_eq!(r.frame_done(30), None);
    assert_eq!(configure_size(0, 300, (640, 480)), (640, 300));
    assert_eq!(configure_size(800, 0, (640, 480)), (800, 480));
}

use shellkit::launcher::{NotificationCmd, NotificationPanel, Volume, MAX_VOLUME};

#[test]
fn volume_steps_and_clamps() {
    let mut v = Volume::new();
    v.step_down();
    assert_eq!(v.count(), 0);
    v.step_up();
    assert_eq!(v.count(), 10);
    v.update_value(95);
    v.step_up();
    assert_eq!(v.count(), MAX_VOLUME);
    v.update_value(-7);
    assert_eq!(v.count(), 0);
    v.update_value(55);
    v.step_down();
    assert_eq!(v.count(), 45);
}

#[test]
fn notification_panel_commands() {
    let mut p = NotificationPanel::new();
    assert_eq!(p.apply(NotificationCmd::Close), None);
    assert_eq!(p.apply(NotificationCmd::Toggle), Some(true));
    assert_eq!(p.apply(NotificationCmd::Open), None);
    assert_eq!(p.apply(NotificationCmd::Toggle), Some(false));
    assert_eq!(p.apply(NotificationCmd::Open), Some(true));
    assert!(p.open);
}

#[test]
fn region_rects_are_disjoint_bands() {
    let mut b = RegionBuilder::default();
    b.add(Rect::new_sized_saturating(0, 0, 10, 10));
    b.add(Rect::new_sized_saturating(5, 5, 10, 10));
    b.sub(Rect::new_sized_saturating(2, 2, 3, 3));
    let r = b.get();
    let rs = r.rects();
    for i in 0..rs.len() {
        for j in (i + 1)..rs.len() {
            let (p, q) = (rs[i], rs[j]);
            assert!(!p.intersects(q));
            assert!(p.y2() <= q.y1() || (p.y1() == q.y1() && p.y2() == q.y2() && p.x2() < q.x1()));
        }
    }
    // every band edge is a row where the points change
    for t in rs {
        for &y in &[t.y1(), t.y2()] {
            let changes = (-5..30).any(|x| r.contains(x, y - 1) != r.contains(x, y));
            assert!(changes);
        }
    }
}

#[test]
fn rect_overlap_means_common_point() {
    let a = Rect::new(0, 0, 4, 4).unwrap();
    let b = Rect::new(3, 3, 6, 6).unwrap();
    assert!(a.intersects(b));
    assert!(a.contains(3, 3) && b.contains(3, 3));
    let c = Rect::new(4, 0, 8, 4).unwrap();
    assert!(!a.intersects(c));
    let hull = a.union(c);
    for (x, y) in [(0, 0), (3, 3), (4, 0), (7, 3)] {
        assert!(hull.contains(x, y));
    }
}

#[test]
fn lock_manager_destroy_bytes() {
    let mut mgr = shellkit::session_lock::ExtSessionLockManagerV1::new(true);
    mgr.set_id(5);
    let mut out = Vec::new();
    mgr.destroy(&mut out);
    assert_eq!(out, vec![5, 0, 0, 0, 0, 0, 8, 0]);
    let mut lock = shellkit::session_lock::ExtSessionLockV1::new(true);
    lock.set_id(6);
    let mut out2 = Vec::new();
    lock.destroy(&mut out2);
    assert_eq!(out2, vec![6, 0, 0, 0, 0, 0, 8, 0]);
}

#[test]
fn same_points_same_rectangles() {
    let a = Region::from_rects(&[Rect::new_sized_saturating(0, 0, 10, 4)]);
    let b = Region::from_rects(&[Rect::new_sized_saturating(0, 4, 10, 6), Rect::new_sized_saturating(3, 0, 2, 2)]);
    let ab = a.union(&b);
    let ba = b.union(&a);
    assert_eq!(ab.rects(), ba.rects());
    let direct = Region::from_rects(&[Rect::new_sized_saturating(0, 0, 10, 10)]);
    assert_eq!(ab.rects(), direct.rects());
    assert_eq!(ab.rects().len(), 1);
}

fn le_msg(sender: u32, opcode: u16, args: &[u32]) -> Vec<u8> {
    let mut v = sender.to_le_bytes().to_vec();
    v.extend_from_slice(&opcode.to_le_bytes());
    v.extend_from_slice(&((8 + 4 * args.len()) as u16).to_le_bytes());
    for a in args {
        v.extend_from_slice(&a.to_le_bytes());
    }
    v
}

#[test]
fn committed_frame_requests_and_buffer_flip() {
    let mut pair = BufferPair::new();
    pair.configure(10, 11);
    let mut out = Vec::new();
    assert_eq!(pair.commit_frame(&mut out, 5, 20, 100, 50, true), 0);
    let mut want = le_msg(5, 3, &[20]);
    want.extend(le_msg(5, 1, &[10, 0, 0]));
    want.extend(le_msg(5, 2, &[0, 0, 100, 50]));
    want.extend(le_msg(5, 6, &[]));
    assert_eq!(out, want);
    assert_eq!(pair.back, 1);
    assert_eq!(pair.released, Some([false, true]));
    out.clear();
    assert_eq!(pair.commit_frame(&mut out, 5, 21, 100, 50, true), 1);
    assert_eq!(&out[8..12], &[21, 0, 0, 0]);
    assert_eq!(&out[20..24], &[11, 0, 0, 0]);
    assert_eq!(pair.released, Some([false, false]));
}

fn header(kind: MessageKind, interface: Option<&str>, member: Option<&str>) -> MessageHeader {
    MessageHeader {
        kind,
        interface: interface.map(|s| s.to_string()),
        member: member.map(|s| s.to_string()),
        path: Some("/org/example/Obj".to_string()),
        sender: Some(":1.42".to_string()),
        error_name: Some("org.example.Failed".to_string()),
    }
}

#[test]
fn dbus_headers_match_by_kind_interface_and_member() {
    let sig = header(MessageKind::Signal, Some("org.example.Iface"), Some("Changed"));
    let o = match_signal(&sig, "org.example.Iface", "Changed").unwrap();
    assert_eq!(o.path.as_deref(), Some("/org/example/Obj"));
    assert_eq!(o.sender.as_deref(), Some(":1.42"));
    assert!(match_signal(&sig, "org.example.Iface", "Other").is_none());
    assert!(match_signal(&sig, "org.example.Other", "Changed").is_none());
    assert!(match_call(&sig, "org.example.Iface", "Changed").is_none());
    let call = header(MessageKind::MethodCall, Some("org.example.Iface"), Some("Get"));
    assert!(match_call(&call, "org.example.Iface", "Get").is_some());
    assert!(match_signal(&call, "org.example.Iface", "Get").is_none());
    let bare = header(MessageKind::Signal, None, Some("Changed"));
    assert!(match_signal(&bare, "org.example.Iface", "Changed").is_none());
}

#[test]
fn error_replies_carry_name_and_text() {
    let err = header(MessageKind::Error, None, None);
    let e = reply_error(&err, Some("no such thing".to_string())).unwrap();
    assert_eq!(e.name.as_deref(), Some("org.example.Failed"));
    assert_eq!(e.text.as_deref(), Some("no such thing"));
    let ok = header(MessageKind::MethodReturn, None, None);
    assert!(reply_error(&ok, None).is_none());
}

#[test]
fn pending_windows_are_created_in_order() {
    let mut m = WindowManager::new();
    m.compositor = Some(3);
    m.layer_shell = Some(4);
    m.xdg_wm_base = Some(5);
    let a = m.spawn_window(
        400,
        200,
        WindowKind::LayerShell {
            layer: Layer::Top,
            anchor: ANCHOR_TOP | ANCHOR_LEFT,
            exclusive_zone: 30,
            namespace: "bar".to_string(),
            keyboard_interactivity: KeyboardInteractivity::OnDemand,
        },
    );
    let b = m.spawn_window(300, 100, WindowKind::Xdg { title: "hi".to_string() });
    assert_eq!((a, b), (WindowId(0), WindowId(1)));
    let mut ids = ObjectTable::new(10);
    let mut out = Vec::new();
    let created = m.flush_pending(&mut out, &mut ids, true);
    assert_eq!(
        created,
        vec![
            CreatedWindow { id: WindowId(0), surface: 10, role: 11, toplevel: 0 },
            CreatedWindow { id: WindowId(1), surface: 12, role: 13, toplevel: 14 },
        ]
    );
    let mut want = le_msg(3, 0, &[10]);
    let mut get_layer = le_msg(4, 0, &[11, 10, 0, 2, 4]);
    get_layer[6] = 32;
    get_layer.extend_from_slice(b"bar\0");
    want.extend(get_layer);
    want.extend(le_msg(11, 0, &[400, 200]));
    want.extend(le_msg(11, 1, &[5]));
    want.extend(le_msg(11, 2, &[30]));
    want.extend(le_msg(11, 4, &[2]));
    want.extend(le_msg(10, 6, &[]));
    want.extend(le_msg(3, 0, &[12]));
    want.extend(le_msg(5, 2, &[13, 12]));
    want.extend(le_msg(13, 1, &[14]));
    let mut title = le_msg(14, 2, &[3]);
    title[6] = 16;
    title.extend_from_slice(b"hi\0\0");
    want.extend(title);
    want.extend(le_msg(12, 6, &[]));
    assert_eq!(out, want);
    assert!(m.pending.is_empty());
    assert_eq!(m.router.role_window(11), Some(WindowId(0)));
    assert_eq!(m.router.role_window(13), Some(WindowId(1)));
    assert_eq!(m.router.pointer_enter(12), Some(WindowId(1)));
    assert_eq!(ids.get_interface(ObjectId(11)), Some("zwlr_layer_surface_v1"));
    assert!(m.flush_pending(&mut out, &mut ids, true).is_empty());
}

#[test]
fn union_of_tight_regions_is_tight() {
    let a = Region::from_rects(&[Rect::new_sized_saturating(0, 0, 10, 10)]);
    let b = Region::from_rects(&[Rect::new_sized_saturating(20, 5, 5, 5)]);
    let u = a.union(&b);
    let e = u.extents();
    assert_eq!((e.x1(), e.y1(), e.x2(), e.y2()), (0, 0, 25, 10));
    let xs: Vec<i32> = u.rects().iter().map(|r| r.x1()).collect();
    assert_eq!(xs.iter().min(), Some(&0));
}

#[test]
fn builder_sequence_holds_fold_of_operations() {
    let mut b = RegionBuilder::default();
    b.add(Rect::new_sized_saturating(0, 0, 10, 10));
    b.sub(Rect::new_sized_saturating(2, 2, 2, 2));
    b.add(Rect::new_sized_saturating(3, 3, 1, 1));
    b.sub(Rect::new_sized_saturating(8, 0, 10, 10));
    let g = b.get();
    assert!(g.contains(0, 0));
    assert!(!g.contains(2, 2));
    assert!(g.contains(3, 3));
    assert!(!g.contains(9, 5));
    assert!(g.contains(7, 9));
    let rs = g.rects();
    for i in 0..rs.len() {
        for j in (i + 1)..rs.len() {
            assert!(!rs[i].intersects(rs[j]));
        }
    }
}

#[test]
fn flushed_windows_take_freed_ids_and_keep_live_objects() {
    let mut m = WindowManager::new();
    m.compositor = Some(3);
    m.xdg_wm_base = Some(5);
    let mut ids = ObjectTable::new(10);
    let output = ids.alloc_id();
    ids.register(output, "wl_output");
    let gone = ids.alloc_id();
    ids.register(gone, "wl_seat");
    ids.invalidate_object(gone);
    assert_eq!((output, gone), (ObjectId(10), ObjectId(11)));

    let w = m.spawn_window(300, 100, WindowKind::Xdg { title: "t".to_string() });
    let mut out = Vec::new();
    let created = m.flush_pending(&mut out, &mut ids, true);
    assert_eq!(created, vec![CreatedWindow { id: w, surface: 11, role: 12, toplevel: 13 }]);
    assert_eq!(ids.get_interface(ObjectId(10)), Some("wl_output"));
    assert_eq!(ids.get_interface(ObjectId(11)), Some("wl_surface"));
    assert_eq!(ids.get_interface(ObjectId(12)), Some("xdg_surface"));
    assert_eq!(ids.get_interface(ObjectId(13)), Some("xdg_toplevel"));
    assert_eq!(m.router.pointer_enter(11), Some(w));
    assert_eq!(m.router.role_window(12), Some(w));

    // A second window gets ids of its own, past the first one's.
    let w2 = m.spawn_window(10, 10, WindowKind::Xdg { title: "u".to_string() });
    let created = m.flush_pending(&mut out, &mut ids, true);
    assert_eq!(created, vec![CreatedWindow { id: w2, surface: 14, role: 15, toplevel: 16 }]);
    assert_eq!(m.router.pointer_enter(11), Some(w));
    assert_eq!(m.router.pointer_enter(14), Some(w2));
}
