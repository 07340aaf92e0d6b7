use std::rc::Rc;

use shellkit::rect::Rect;
use shellkit::region::{Region, RegionBuilder};

fn area(r: &Region) -> i64 {
    r.rects()
        .iter()
        .map(|r| r.width() as i64 * r.height() as i64)
        .sum()
}

fn covers(r: &Region, x: i32, y: i32) -> bool {
    r.contains(x, y)
}

#[test]
fn union_overlap() {
    let mut b = RegionBuilder::default();
    b.add(Rect::new_sized_saturating(0, 0, 10, 10));
    b.add(Rect::new_sized_saturating(5, 0, 10, 10));
    let r = b.get();
    assert_eq!(area(&r), 150);
    assert!(covers(&r, 7, 5));
    assert!(!covers(&r, 20, 5));
}

#[test]
fn subtract_hole() {
    let mut b = RegionBuilder::default();
    b.add(Rect::new_sized_saturating(0, 0, 10, 10));
    b.sub(Rect::new_sized_saturating(2, 2, 6, 6));
    let r = b.get();
    assert_eq!(area(&r), 64);
    assert!(!covers(&r, 5, 5));
    assert!(covers(&r, 0, 0));
    assert!(covers(&r, 9, 9));
}

#[test]
fn multi_subtract() {
    let mut b = RegionBuilder::default();
    b.add(Rect::new_sized_saturating(0, 0, 20, 20));
    b.sub(Rect::new_sized_saturating(0, 0, 5, 5));
    b.sub(Rect::new_sized_saturating(15, 15, 5, 5));
    let r = b.get();
    assert_eq!(area(&r), 400 - 25 - 25);
}

#[test]
fn l_shape() {
    let mut b = RegionBuilder::default();
    b.add(Rect::new_sized_saturating(0, 0, 10, 30));
    b.add(Rect::new_sized_saturating(0, 0, 30, 10));
    let r = b.get();
    assert_eq!(area(&r), 500);
}

#[test]
fn subtract_disjoint_is_clone() {
    let mut b = RegionBuilder::default();
    b.add(Rect::new_sized_saturating(0, 0, 10, 10));
    let base = b.get();
    let mut other = RegionBuilder::default();
    other.add(Rect::new_sized_saturating(100, 100, 5, 5));
    let out = base.subtract(&other.get());
    assert!(Rc::ptr_eq(&base, &out));
}

#[test]
fn touching_edges_merge() {
    // Two rects that touch on the right edge should form one 20×10 band.
    let mut b = RegionBuilder::default();
    b.add(Rect::new_sized_saturating(0, 0, 10, 10));
    b.add(Rect::new_sized_saturating(10, 0, 10, 10));
    let r = b.get();
    assert_eq!(area(&r), 200);
    assert_eq!(r.rects().len(), 1);
    assert_eq!(r.rects()[0].width(), 20);
}

#[test]
fn vertical_stack_coalesces() {
    let mut b = RegionBuilder::default();
    b.add(Rect::new_sized_saturating(0, 0, 10, 10));
    b.add(Rect::new_sized_saturating(0, 10, 10, 10));
    let r = b.get();
    assert_eq!(area(&r), 200);
    assert_eq!(r.rects().len(), 1);
    assert_eq!(r.rects()[0].height(), 20);
}

#[test]
fn add_sub_add_alternation() {
    let mut b = RegionBuilder::default();
    b.add(Rect::new_sized_saturating(0, 0, 20, 20));
    b.sub(Rect::new_sized_saturating(5, 5, 10, 10));
    b.add(Rect::new_sized_saturating(7, 7, 2, 2)); // fill center of hole
    let r = b.get();
    // 400 - 100 + 4 = 304
    assert_eq!(area(&r), 304);
    assert!(covers(&r, 8, 8));
    assert!(!covers(&r, 5, 5));
}

#[test]
fn many_horizontal_fragments() {
    // Subtract vertical slits → several side-by-side bands.
    let mut b = RegionBuilder::default();
    b.add(Rect::new_sized_saturating(0, 0, 30, 10));
    b.sub(Rect::new_sized_saturating(10, 0, 5, 10));
    b.sub(Rect::new_sized_saturating(20, 0, 5, 10));
    let r = b.get();
    assert_eq!(area(&r), 300 - 50 - 50);
    assert!(covers(&r, 0, 0));
    assert!(!covers(&r, 12, 0));
    assert!(covers(&r, 16, 0));
    assert!(!covers(&r, 22, 0));
    assert!(covers(&r, 28, 0));
    // Three remaining slabs in one band.
    assert_eq!(r.rects().len(), 3);
}

#[test]
fn copy_semantics_snapshot() {
    let mut b = RegionBuilder::default();
    b.add(Rect::new_sized_saturating(0, 0, 10, 10));
    let snap = b.get();
    b.add(Rect::new_sized_saturating(10, 0, 10, 10));
    let later = b.get();
    assert_eq!(area(&snap), 100);
    assert_eq!(area(&later), 200);
    assert!(!Rc::ptr_eq(&snap, &later));
}

// Every empty region is an allocation of its own, so these cases check
// emptiness only.
#[test]
fn empty_single_rect_fast_path() {
    let r = Region::from_rects(&[Rect::new_sized_saturating(0, 0, 0, 10)]);
    assert!(r.is_empty());
    assert!(Region::new(Rect::new_sized_saturating(5, 5, 0, 0)).is_empty());
}

#[test]
fn full_subtract_is_shared_empty() {
    let mut b = RegionBuilder::default();
    b.add(Rect::new_sized_saturating(0, 0, 10, 10));
    b.sub(Rect::new_sized_saturating(0, 0, 10, 10));
    let r = b.get();
    assert!(r.is_empty());
}

#[test]
fn empty_add_is_noop() {
    let mut b = RegionBuilder::default();
    b.add(Rect::new_sized_saturating(0, 0, 0, 0));
    b.add(Rect::new_sized_saturating(0, 0, -1, 5)); // saturates to empty
    let r = b.get();
    assert!(r.is_empty());
}
