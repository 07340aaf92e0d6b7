use shellkit::blit::{blit_frame, present_commit, BlitSource, BACKDROP};
use shellkit::pointer::{surface_hit_test, HitResult};
use shellkit::rect::Rect;
use shellkit::shm::WlShmState;
use shellkit::surface::{SurfaceCommitted, SurfaceRequest, SurfaceState};
use shellkit::wire::{host_is_little_endian, ObjectId};

fn backdrop() -> [u8; 4] {
    BACKDROP.to_ne_bytes()
}

#[test]
fn narrow_buffer_is_copied_and_framed_by_backdrop() {
    let little = host_is_little_endian();
    // 1x2 pixel XRGB buffer with a stride of 8 bytes.
    let src: Vec<u8> = vec![1, 2, 3, 4, 9, 9, 9, 9, 5, 6, 7, 8, 9, 9, 9, 9];
    let s = BlitSource { stride: 8, width: 1, height: 2, xrgb: true };
    // 3 rows of 2 pixels.
    let mut dst = vec![0u8; 24];
    blit_frame(&src, s, &mut dst, 8, 3, little);
    let bg = backdrop();
    let mut want: Vec<u8> = Vec::new();
    want.extend_from_slice(&[1, 2, 3, 0xFF]);
    want.extend_from_slice(&bg);
    want.extend_from_slice(&[5, 6, 7, 0xFF]);
    want.extend_from_slice(&bg);
    want.extend_from_slice(&bg);
    want.extend_from_slice(&bg);
    assert_eq!(dst, want);
}

#[test]
fn argb_buffer_keeps_its_alpha_and_is_clipped() {
    let little = host_is_little_endian();
    // 3x1 ARGB buffer shown in a frame one pixel wide.
    let src: Vec<u8> = vec![1, 2, 3, 4, 5, 6, 7, 8, 9, 10, 11, 12];
    let s = BlitSource { stride: 12, width: 3, height: 1, xrgb: false };
    let mut dst = vec![0u8; 8];
    blit_frame(&src, s, &mut dst, 4, 2, little);
    let bg = backdrop();
    assert_eq!(&dst[0..4], &[1, 2, 3, 4]);
    assert_eq!(&dst[4..8], &bg);
}

#[test]
fn partial_pixel_bytes_are_left_alone() {
    let little = host_is_little_endian();
    let src: Vec<u8> = vec![1, 2, 3, 4];
    let s = BlitSource { stride: 4, width: 1, height: 1, xrgb: false };
    // Rows of 6 bytes: one copied pixel, then 2 bytes that make no pixel.
    let mut dst = vec![7u8; 12];
    blit_frame(&src, s, &mut dst, 6, 2, little);
    let bg = backdrop();
    assert_eq!(&dst[0..6], &[1, 2, 3, 4, 7, 7]);
    assert_eq!(&dst[6..10], &bg);
    assert_eq!(&dst[10..12], &[7, 7]);
}

#[test]
fn backdrop_word_is_opaque_grey() {
    assert_eq!(u32::from_ne_bytes(backdrop()), 0xFF26_2626);
}

#[test]
fn commit_presentation_releases_previous_buffer() {
    let mut shm = WlShmState::new();
    shm.create_pool(1, 4096);
    shm.create_buffer(1, 20, 0, 4, 4, 16, 0);
    shm.create_buffer(1, 21, 64, 4, 4, 16, 0);
    let mut state = SurfaceState::new();
    state.create_surface(ObjectId(3));
    let sid = ObjectId(3);
    let ev = SurfaceCommitted { surface_id: sid };

    // No buffer yet: nothing to show.
    assert!(present_commit(&mut state, &shm, &ev).is_none());

    state.surface_request(sid, SurfaceRequest::Attach { buffer: Some(ObjectId(20)), x: 0, y: 0 });
    state.surface_request(sid, SurfaceRequest::Frame(ObjectId(40)));
    state.surface_request(sid, SurfaceRequest::Commit);
    let p = present_commit(&mut state, &shm, &ev).unwrap();
    assert_eq!(p.buffer_id, 20);
    assert_eq!(p.buffer.stride, 16);
    assert_eq!(p.release, None);
    assert_eq!(p.frame_done, vec![ObjectId(40)]);

    state.surface_request(sid, SurfaceRequest::Attach { buffer: Some(ObjectId(21)), x: 0, y: 0 });
    state.surface_request(sid, SurfaceRequest::Commit);
    let p = present_commit(&mut state, &shm, &ev).unwrap();
    assert_eq!(p.buffer_id, 21);
    assert_eq!(p.release, Some(20));
    assert!(p.frame_done.is_empty());

    // Unknown surface: nothing.
    let other = SurfaceCommitted { surface_id: ObjectId(99) };
    assert!(present_commit(&mut state, &shm, &other).is_none());
}

#[test]
fn commit_of_unknown_buffer_shows_nothing() {
    let shm = WlShmState::new();
    let mut state = SurfaceState::new();
    let sid = ObjectId(3);
    state.create_surface(sid);
    state.surface_request(sid, SurfaceRequest::Attach { buffer: Some(ObjectId(20)), x: 0, y: 0 });
    state.surface_request(sid, SurfaceRequest::Frame(ObjectId(40)));
    state.surface_request(sid, SurfaceRequest::Commit);
    let ev = SurfaceCommitted { surface_id: sid };
    assert!(present_commit(&mut state, &shm, &ev).is_none());
    assert!(state.surfaces[&3].previous_buffer.is_none());
}

#[test]
fn presented_buffer_sizes_the_hit_area() {
    let mut shm = WlShmState::new();
    shm.create_pool(1, 4096);
    shm.create_buffer(1, 20, 0, 3, 5, 12, 0);
    let mut state = SurfaceState::new();
    let sid = ObjectId(3);
    state.create_surface(sid);
    state.surface_request(sid, SurfaceRequest::Attach { buffer: Some(ObjectId(20)), x: 0, y: 0 });
    state.surface_request(sid, SurfaceRequest::Commit);
    let p = present_commit(&mut state, &shm, &SurfaceCommitted { surface_id: sid }).unwrap();
    let e = p.stack_entry(sid, Some(Rect::new_sized_saturating(10, 10, 100, 100)));
    assert_eq!((e.surface, e.buffer_width, e.buffer_height), (sid, 3, 5));
    let stack = [e];
    assert_eq!(
        surface_hit_test(&state, &stack, 12, 14),
        Some(HitResult { surface: sid, local_x: 2, local_y: 4 })
    );
    assert_eq!(surface_hit_test(&state, &stack, 13, 14), None);
    assert_eq!(surface_hit_test(&state, &stack, 12, 15), None);
}
