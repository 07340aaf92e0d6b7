use shellkit::rect::Rect;
use shellkit::surface::{
    DamageRect, SurfaceData, SurfaceRequest, SurfaceRole, SurfaceState, ERROR_INVALID_METHOD,
    ERROR_INVALID_OFFSET, ERROR_INVALID_SCALE, ERROR_INVALID_TRANSFORM, ERROR_NO_BUFFER, MAX_DAMAGE,
};
use shellkit::region::Region;
use shellkit::wire::ObjectId;

fn dr(x: i32) -> DamageRect {
    DamageRect { x, y: 0, width: 1, height: 1 }
}

#[test]
fn role_kinds() {
    assert_eq!(SurfaceRole::XdgSurface(ObjectId(5)).kind(), 1);
    assert_eq!(SurfaceRole::LayerSurface(ObjectId(5)).kind(), 2);
    assert_eq!(SurfaceRole::LockSurface(ObjectId(5)).kind(), 3);
    assert_eq!(SurfaceRole::Cursor.kind(), 4);
}

#[test]
fn role_kind_is_kept_for_life() {
    let mut s = SurfaceData::new(ObjectId(10));
    assert_eq!(s.set_role(SurfaceRole::XdgSurface(ObjectId(11))), Ok(()));
    assert_eq!(s.set_role(SurfaceRole::XdgSurface(ObjectId(12))), Ok(()));
    assert!(matches!(s.role, Some(SurfaceRole::XdgSurface(ObjectId(12)))));
    assert_eq!(s.set_role(SurfaceRole::Cursor), Err(1));
    assert!(matches!(s.role, Some(SurfaceRole::XdgSurface(ObjectId(12)))));
}

#[test]
fn commit_applies_pending_state() {
    let mut s = SurfaceData::new(ObjectId(3));
    assert_eq!(s.attach(Some(ObjectId(20)), 0, 0), None);
    assert_eq!(s.set_buffer_scale(2), None);
    assert_eq!(s.set_buffer_transform(3), None);
    s.offset(5, -7);
    s.damage(dr(1));
    s.damage_buffer(dr(2));
    s.frame(ObjectId(30));
    let fired = s.commit();
    assert!(fired.is_empty());
    assert_eq!(s.current.buffer, Some(ObjectId(20)));
    assert_eq!(s.previous_buffer, None);
    assert_eq!((s.current.offset_x, s.current.offset_y), (5, -7));
    assert_eq!((s.pending.offset_x, s.pending.offset_y), (0, 0));
    assert_eq!(s.current.scale, 2);
    assert_eq!(s.current.transform, 3);
    assert_eq!(s.current.surface_damage.as_slice(), &[dr(1)]);
    assert_eq!(s.current.buffer_damage.as_slice(), &[dr(2)]);
    assert!(s.pending.surface_damage.as_slice().is_empty());
    assert_eq!(s.current.frame_callbacks.as_slice(), &[ObjectId(30)]);
    assert!(s.pending.buffer.is_none());
    assert_eq!(s.fire_frame_callbacks(), vec![ObjectId(30)]);
    assert!(s.current.frame_callbacks.as_slice().is_empty());
}

#[test]
fn offsets_accumulate_saturating() {
    let mut s = SurfaceData::new(ObjectId(3));
    s.offset(i32::MAX, 1);
    s.commit();
    s.offset(10, 2);
    s.commit();
    assert_eq!(s.current.offset_x, i32::MAX);
    assert_eq!(s.current.offset_y, 3);
}

#[test]
fn replacing_buffer_fires_release_callbacks() {
    let mut s = SurfaceData::new(ObjectId(3));
    s.attach(Some(ObjectId(20)), 0, 0);
    s.get_release(ObjectId(40));
    let (err, fired) = s.commit_request();
    assert_eq!(err, None);
    assert!(fired.is_empty());
    assert_eq!(s.current.release_callbacks.as_slice(), &[ObjectId(40)]);
    s.attach(Some(ObjectId(21)), 0, 0);
    let (err, fired) = s.commit_request();
    assert_eq!(err, None);
    assert_eq!(fired, vec![ObjectId(40)]);
    assert_eq!(s.previous_buffer, Some(ObjectId(20)));
    assert_eq!(s.current.buffer, Some(ObjectId(21)));
    assert!(s.current.release_callbacks.as_slice().is_empty());
}

#[test]
fn release_without_buffer_is_error_and_dropped() {
    let mut s = SurfaceData::new(ObjectId(3));
    s.get_release(ObjectId(41));
    let (err, fired) = s.commit_request();
    assert_eq!(err, Some(ERROR_NO_BUFFER));
    assert!(fired.is_empty());
    assert!(s.current.release_callbacks.as_slice().is_empty());
}

#[test]
fn attach_offset_is_reported_but_applied() {
    let mut s = SurfaceData::new(ObjectId(3));
    assert_eq!(s.attach(None, 1, 0), Some(ERROR_INVALID_OFFSET));
    assert_eq!(s.pending.buffer, Some(None));
    assert_eq!(s.pending.offset_x, 1);
}

#[test]
fn bad_scale_and_transform_are_refused() {
    let mut s = SurfaceData::new(ObjectId(3));
    assert_eq!(s.set_buffer_scale(0), Some(ERROR_INVALID_SCALE));
    assert_eq!(s.pending.scale, 1);
    assert_eq!(s.set_buffer_transform(8), Some(ERROR_INVALID_TRANSFORM));
    assert_eq!(s.set_buffer_transform(-1), Some(ERROR_INVALID_TRANSFORM));
    assert_eq!(s.pending.transform, 0);
    assert_eq!(s.set_buffer_transform(7), None);
    assert_eq!(s.pending.transform, 7);
}

#[test]
fn damage_overflow_marks_whole_surface() {
    let mut s = SurfaceData::new(ObjectId(3));
    for i in 0..MAX_DAMAGE {
        s.damage(dr(i as i32));
    }
    assert!(!s.pending.damage_full);
    assert_eq!(s.pending.surface_damage.as_slice().len(), MAX_DAMAGE);
    s.damage(dr(100));
    assert!(s.pending.damage_full);
    assert!(s.pending.surface_damage.as_slice().is_empty());
    s.damage(dr(101));
    assert!(s.pending.surface_damage.as_slice().is_empty());
    s.damage_buffer(dr(5));
    assert!(s.pending.buffer_damage.as_slice().is_empty());
    s.commit();
    assert!(s.current.damage_full);
    assert!(s.current.surface_damage.as_slice().is_empty());
    assert!(!s.pending.damage_full);
}

#[test]
fn opaque_and_input_regions() {
    let mut s = SurfaceData::new(ObjectId(3));
    assert!(!s.is_opaque_at(1, 1));
    assert!(s.accepts_input_at(1000, -5));
    let r = std::rc::Rc::new(Region::new(Rect::new_sized_saturating(0, 0, 10, 10)));
    s.set_opaque_region(Some(r.clone()));
    s.set_input_region(Some(r));
    assert!(!s.is_opaque_at(1, 1));
    s.commit();
    assert!(s.is_opaque_at(1, 1));
    assert!(!s.is_opaque_at(10, 1));
    assert!(s.accepts_input_at(9, 9));
    assert!(!s.accepts_input_at(-1, 0));
    s.set_opaque_region(Some(Region::empty()));
    assert!(matches!(s.pending.opaque_region, Some(None)));
    s.set_input_region(None);
    s.commit();
    assert!(!s.is_opaque_at(1, 1));
    assert!(s.accepts_input_at(-1, 0));
}

#[test]
fn destroy_hands_back_release_callbacks() {
    let mut s = SurfaceData::new(ObjectId(3));
    s.attach(Some(ObjectId(20)), 0, 0);
    s.get_release(ObjectId(40));
    s.commit();
    s.frame(ObjectId(50));
    assert_eq!(s.destroy(), vec![ObjectId(40)]);
    assert!(s.pending.frame_callbacks.as_slice().is_empty());
}

#[test]
fn state_routes_requests_and_regions() {
    let mut st = SurfaceState::new();
    st.create_surface(ObjectId(3));
    st.create_region(ObjectId(8));
    assert_eq!(st.region_rect(ObjectId(8), 0, 0, 10, 10, true), None);
    assert_eq!(st.region_rect(ObjectId(8), 0, 0, 5, 10, false), None);
    assert_eq!(st.region_rect(ObjectId(8), 0, 0, -1, 10, true), Some(ERROR_INVALID_METHOD));
    assert_eq!(st.region_rect(ObjectId(99), 0, 0, -1, 10, true), None);
    let rep = st.surface_request(ObjectId(3), SurfaceRequest::SetOpaqueRegion(Some(ObjectId(8))));
    assert!(rep.error.is_none() && rep.committed.is_none());
    let rep = st.surface_request(ObjectId(3), SurfaceRequest::Attach { buffer: Some(ObjectId(20)), x: 0, y: 0 });
    assert!(rep.error.is_none());
    let rep = st.surface_request(ObjectId(3), SurfaceRequest::Commit);
    assert_eq!(rep.committed.map(|c| c.surface_id), Some(ObjectId(3)));
    let surf = st.surfaces.get(&3).unwrap();
    assert!(surf.is_opaque_at(7, 7));
    assert!(!surf.is_opaque_at(2, 2));
    let rep = st.surface_request(ObjectId(77), SurfaceRequest::Commit);
    assert!(rep.committed.is_none() && rep.error.is_none());
    let rep = st.surface_request(ObjectId(3), SurfaceRequest::SetBufferScale(-2));
    assert_eq!(rep.error, Some(ERROR_INVALID_SCALE));
    st.destroy_region(ObjectId(8));
    assert!(st.regions.is_empty());
    let fired = st.destroy_surface(ObjectId(3));
    assert!(fired.is_empty());
    assert!(st.surfaces.is_empty());
}

use shellkit::pointer::{hit_test_is_safe, surface_hit_test, HitResult, PointerAction, PointerFocus, StackEntry};

fn entry(id: u32, x: i32, y: i32, w: i32, h: i32) -> StackEntry {
    StackEntry {
        surface: ObjectId(id),
        geometry: Some(Rect::new_sized_saturating(x, y, w, h)),
        buffer_width: w,
        buffer_height: h,
    }
}

#[test]
fn hit_test_prefers_top_surface() {
    let mut st = SurfaceState::new();
    st.create_surface(ObjectId(1));
    st.create_surface(ObjectId(2));
    let stack = vec![entry(1, 0, 0, 100, 100), entry(2, 50, 50, 20, 20)];
    assert_eq!(
        surface_hit_test(&st, &stack, 55, 60),
        Some(HitResult { surface: ObjectId(2), local_x: 5, local_y: 10 })
    );
    assert_eq!(
        surface_hit_test(&st, &stack, 10, 10),
        Some(HitResult { surface: ObjectId(1), local_x: 10, local_y: 10 })
    );
    assert_eq!(surface_hit_test(&st, &stack, 150, 10), None);
    // an input region with a hole lets the pointer through to the surface below
    let hole = std::rc::Rc::new(Region::new(Rect::new_sized_saturating(10, 10, 10, 10)));
    st.surface_request(ObjectId(2), SurfaceRequest::Commit);
    {
        let s2 = st.surfaces.get_mut(&2).unwrap();
        s2.set_input_region(Some(hole));
        s2.commit();
    }
    assert_eq!(
        surface_hit_test(&st, &stack, 55, 60),
        Some(HitResult { surface: ObjectId(1), local_x: 55, local_y: 60 })
    );
    // a buffer smaller than the geometry limits the hit area
    let small = vec![StackEntry { surface: ObjectId(1), geometry: Some(Rect::new_sized_saturating(0, 0, 100, 100)), buffer_width: 10, buffer_height: 10 }];
    assert_eq!(surface_hit_test(&st, &small, 20, 5), None);
    // an unknown surface on top ends the search
    let unknown = vec![entry(1, 0, 0, 100, 100), entry(9, 200, 200, 5, 5)];
    assert_eq!(surface_hit_test(&st, &unknown, 10, 10), None);
}

#[test]
fn pointer_focus_enter_motion_leave() {
    let mut st = SurfaceState::new();
    st.create_surface(ObjectId(1));
    st.create_surface(ObjectId(2));
    let mut p = PointerFocus::new();
    let h1 = HitResult { surface: ObjectId(1), local_x: 3, local_y: 4 };
    let h2 = HitResult { surface: ObjectId(2), local_x: 5, local_y: 6 };
    assert_eq!(
        p.check_events(&st, Some(h1)),
        vec![PointerAction::Enter { surface: ObjectId(1), serial: 1, x: 3, y: 4, frame: false }]
    );
    assert_eq!(p.focused_surface(), Some(ObjectId(1)));
    assert_eq!(
        p.check_events(&st, Some(HitResult { surface: ObjectId(1), local_x: 7, local_y: 8 })),
        vec![PointerAction::Motion { surface: ObjectId(1), x: 7, y: 8 }]
    );
    assert_eq!(
        p.check_events(&st, Some(h2)),
        vec![
            PointerAction::Leave { surface: ObjectId(1), serial: 3, frame: false },
            PointerAction::Enter { surface: ObjectId(2), serial: 3, x: 5, y: 6, frame: true },
        ]
    );
    assert_eq!(p.on_button(), Some((ObjectId(2), 4)));
    assert_eq!(
        p.check_events(&st, None),
        vec![PointerAction::Leave { surface: ObjectId(2), serial: 5, frame: true }]
    );
    assert_eq!(p.on_button(), None);
    assert_eq!(p.on_leave(&st), None);
    p.check_events(&st, Some(h1));
    st.destroy_surface(ObjectId(1));
    assert_eq!(p.on_leave(&st), None);
    assert_eq!(p.focused_surface(), None);
}

#[test]
fn recommit_keeps_buffer_and_fires_nothing() {
    let mut s = SurfaceData::new(ObjectId(3));
    s.attach(Some(ObjectId(20)), 0, 0);
    s.get_release(ObjectId(40));
    assert!(s.commit().is_empty());
    let again = s.commit();
    assert!(again.is_empty());
    assert_eq!(s.current.buffer, Some(ObjectId(20)));
    assert_eq!(s.previous_buffer, Some(ObjectId(20)));
    assert_eq!(s.fire_release_callbacks(), vec![ObjectId(40)]);
    assert!(s.fire_release_callbacks().is_empty());
}

#[test]
fn capability_loss_drops_focus() {
    let mut st = SurfaceState::new();
    st.create_surface(ObjectId(1));
    let mut p = PointerFocus::new();
    p.check_events(&st, Some(HitResult { surface: ObjectId(1), local_x: 0, local_y: 0 }));
    p.on_capability_removed();
    assert_eq!(p.focused_surface(), None);
    assert_eq!(
        p.check_events(&st, Some(HitResult { surface: ObjectId(1), local_x: 1, local_y: 1 })),
        vec![PointerAction::Enter { surface: ObjectId(1), serial: 2, x: 1, y: 1, frame: false }]
    );
}

use shellkit::shm::WlShmState;

#[test]
fn shm_pool_waits_for_last_buffer() {
    let mut shm = WlShmState::new();
    shm.create_pool(5, 4096);
    shm.create_buffer(5, 6, 0, 16, 16, 64, 0);
    shm.create_buffer(5, 7, 1024, 16, 16, 64, 1);
    assert!(shm.pool_in_use(5));
    assert!(!shm.destroy_pool(5));
    assert!(shm.pool(5).unwrap().pending_destroy);
    assert!(shm.resize_pool(5, 8192));
    assert_eq!(shm.pool(5).unwrap().size, 8192);
    assert_eq!(shm.destroy_buffer(6), None);
    assert!(shm.pool(5).is_some());
    assert_eq!(shm.destroy_buffer(7), Some(5));
    assert!(shm.pool(5).is_none());
    assert_eq!(shm.destroy_buffer(7), None);
    shm.create_pool(8, 100);
    assert!(shm.destroy_pool(8));
    assert!(!shm.destroy_pool(8));
    assert!(!shm.resize_pool(8, 10));
    assert_eq!(shm.buffer(6), None);
}

#[test]
fn hit_test_safety_is_checked_at_the_point() {
    let mut st = SurfaceState::new();
    st.create_surface(ObjectId(1));
    let wide = vec![StackEntry {
        surface: ObjectId(1),
        geometry: Rect::new(i32::MIN, 0, i32::MAX, 10),
        buffer_width: i32::MAX,
        buffer_height: 10,
    }];
    // Near the left edge the surface coordinates fit.
    assert!(hit_test_is_safe(&st, &wide, i32::MIN + 5, 3));
    assert_eq!(
        surface_hit_test(&st, &wide, i32::MIN + 5, 3),
        Some(HitResult { surface: ObjectId(1), local_x: 5, local_y: 3 })
    );
    // Far to the right they would not.
    assert!(!hit_test_is_safe(&st, &wide, i32::MAX - 1, 3));
    // Outside the geometry nothing is computed.
    assert!(hit_test_is_safe(&st, &wide, 0, 50));
    assert!(hit_test_is_safe(&st, &[entry(1, 0, 0, 10, 10)], 5, 5));
}
