//! Pointer focus in the compositor: which client surface is under the
//! pointer (top of the stack first, honouring input regions), and the
//! enter / leave / motion / button notifications that focus changes call
//! for.
use vstd::prelude::*;

use crate::rect::Rect;
use crate::surface::SurfaceState;
use crate::wire::ObjectId;

verus! {

broadcast use vstd::std_specs::hash::group_hash_axioms;

/// A surface in the stacking order, with where it is shown and the size
/// of its buffer.
#[derive(Clone, Copy, Debug)]
pub struct StackEntry {
    pub surface: ObjectId,
    pub geometry: Option<Rect>,
    pub buffer_width: i32,
    pub buffer_height: i32,
}

/// The surface under a point, and the point in surface coordinates.
#[derive(Clone, Copy, Debug, PartialEq, Eq, Structural)]
pub struct HitResult {
    pub surface: ObjectId,
    pub local_x: i32,
    pub local_y: i32,
}

/// Searching the entries below index `n`, topmost first, for the point
/// `(gx, gy)` never meets an entry whose geometry holds the point but puts
/// it farther than `i32::MAX` from the geometry's top-left corner (the
/// surface coordinates would not fit).
pub open spec fn hit_test_safe(st: &SurfaceState, stack: Seq<StackEntry>, n: int, gx: int, gy: int) -> bool
    decreases n,
{
    if n <= 0 {
        true
    } else {
        let e = stack[n - 1];
        if !st.surfaces@.contains_key(e.surface.0) {
            true
        } else {
            match e.geometry {
                None => true,
                Some(g) => {
                    let sx = gx - g.raw.x1;
                    let sy = gy - g.raw.y1;
                    let s = st.surfaces@[e.surface.0];
                    if g.covers(gx, gy) {
                        &&& sx <= i32::MAX && sy <= i32::MAX
                        &&& (0 <= sx < e.buffer_width && 0 <= sy < e.buffer_height
                            && (s.current.input_region matches Some(r) ==> r.covers(sx, sy)))
                            || hit_test_safe(st, stack, n - 1, gx, gy)
                    } else {
                        hit_test_safe(st, stack, n - 1, gx, gy)
                    }
                },
            }
        }
    }
}

/// The outcome of testing the entries below index `n`, topmost first:
/// the first entry whose geometry and buffer hold the point and whose
/// input region accepts it; an entry whose surface is unknown or not
/// shown ends the search with no result.
pub open spec fn hit_below(st: &SurfaceState, stack: Seq<StackEntry>, n: int, gx: int, gy: int) -> Option<HitResult>
    decreases n,
{
    if n <= 0 {
        None
    } else {
        let e = stack[n - 1];
        if !st.surfaces@.contains_key(e.surface.0) {
            None
        } else {
            match e.geometry {
                None => None,
                Some(g) => {
                    let sx = gx - g.raw.x1;
                    let sy = gy - g.raw.y1;
                    let s = st.surfaces@[e.surface.0];
                    if g.covers(gx, gy) && 0 <= sx < e.buffer_width && 0 <= sy < e.buffer_height
                        && (s.current.input_region matches Some(r) ==> r.covers(sx, sy)) {
                        Some(HitResult { surface: e.surface, local_x: sx as i32, local_y: sy as i32 })
                    } else {
                        hit_below(st, stack, n - 1, gx, gy)
                    }
                },
            }
        }
    }
}

/// The surface under `(gx, gy)`, searching the stack from the top.
pub fn surface_hit_test(st: &SurfaceState, stack: &[StackEntry], gx: i32, gy: i32) -> (r: Option<HitResult>)
    requires
        st.wf(),
        hit_test_safe(st, stack@, stack@.len() as int, gx as int, gy as int),
    ensures
        r == hit_below(st, stack@, stack@.len() as int, gx as int, gy as int),
{
    let mut i: usize = stack.len();
    while i > 0
        invariant
            i <= stack@.len(),
            st.wf(),
            hit_test_safe(st, stack@, i as int, gx as int, gy as int),
            hit_below(st, stack@, stack@.len() as int, gx as int, gy as int) == hit_below(st, stack@, i as int, gx as int, gy as int),
        decreases i,
    {
        let e = stack[i - 1];
        let surf = match st.surfaces.get(&e.surface.0) {
            Some(s) => s,
            None => return None,
        };
        let g = match e.geometry {
            Some(g) => g,
            None => return None,
        };
        assert(stack@[i - 1].geometry == e.geometry);
        if g.contains(gx, gy) {
            let sx = gx - g.raw.x1;
            let sy = gy - g.raw.y1;
            if !(sx < 0 || sy < 0 || sx >= e.buffer_width || sy >= e.buffer_height) {
                if surf.accepts_input_at(sx, sy) {
                    return Some(HitResult { surface: e.surface, local_x: sx, local_y: sy });
                }
            }
        }
        i = i - 1;
    }
    None
}

/// Whether `surface_hit_test` can search for `(gx, gy)`: the surface
/// coordinates of every entry it would test fit in `i32`.
pub fn hit_test_is_safe(st: &SurfaceState, stack: &[StackEntry], gx: i32, gy: i32) -> (r: bool)
    requires
        st.wf(),
    ensures
        r == hit_test_safe(st, stack@, stack@.len() as int, gx as int, gy as int),
{
    let mut i: usize = stack.len();
    while i > 0
        invariant
            i <= stack@.len(),
            st.wf(),
            hit_test_safe(st, stack@, stack@.len() as int, gx as int, gy as int) == hit_test_safe(st, stack@, i as int, gx as int, gy as int),
        decreases i,
    {
        let e = stack[i - 1];
        let surf = match st.surfaces.get(&e.surface.0) {
            Some(s) => s,
            None => return true,
        };
        let g = match e.geometry {
            Some(g) => g,
            None => return true,
        };
        assert(stack@[i - 1].geometry == e.geometry);
        if g.contains(gx, gy) {
            let sx64: i64 = gx as i64 - g.raw.x1 as i64;
            let sy64: i64 = gy as i64 - g.raw.y1 as i64;
            if sx64 > i32::MAX as i64 || sy64 > i32::MAX as i64 {
                return false;
            }
            let sx = gx - g.raw.x1;
            let sy = gy - g.raw.y1;
            if !(sx < 0 || sy < 0 || sx >= e.buffer_width || sy >= e.buffer_height) {
                if surf.accepts_input_at(sx, sy) {
                    return true;
                }
            }
        }
        i = i - 1;
    }
    true
}

/// A notification for the pointers of a client.
#[derive(Clone, Copy, Debug, PartialEq, Eq, Structural)]
pub enum PointerAction {
    /// The pointer left `surface`; `frame` asks for a frame event after.
    Leave { surface: ObjectId, serial: u32, frame: bool },
    /// The pointer entered `surface` at `(x, y)`.
    Enter { surface: ObjectId, serial: u32, x: i32, y: i32, frame: bool },
    /// The pointer moved to `(x, y)` on the focused surface (then a frame).
    Motion { surface: ObjectId, x: i32, y: i32 },
}

/// The surface with pointer focus and the serial counter for the events
/// the compositor generates.
pub struct PointerFocus {
    focused: Option<ObjectId>,
    serial: u32,
}

/// The serial after `s`, wrapping.
pub open spec fn serial_after(s: u32) -> u32 {
    if s == u32::MAX {
        0
    } else {
        (s + 1) as u32
    }
}

impl PointerFocus {
    /// The next serial to hand out.
    pub closed spec fn next(&self) -> u32 {
        self.serial
    }

    /// The surface with pointer focus.
    pub closed spec fn focus(&self) -> Option<ObjectId> {
        self.focused
    }

    /// The surface with pointer focus.
    pub fn focused_surface(&self) -> (r: Option<ObjectId>)
        ensures
            r == self.focus(),
    {
        self.focused
    }

    /// No focus; serials start at 1.
    pub fn new() -> (p: Self)
        ensures
            p.focus() is None,
            p.next() == 1,
    {
        PointerFocus { focused: None, serial: 1 }
    }

    /// Hands out a serial.
    pub fn next_serial(&mut self) -> (s: u32)
        ensures
            s == old(self).next(),
            final(self).next() == serial_after(old(self).next()),
            final(self).focus() == old(self).focus(),
    {
        let s = self.serial;
        self.serial = self.serial.wrapping_add(1);
        s
    }

    /// Drops the focus; the surface left is told so when it still exists.
    pub fn clear_focus(&mut self, st: &SurfaceState, serial: u32, frame: bool) -> (a: Option<PointerAction>)
        ensures
            final(self).focus() is None,
            final(self).next() == old(self).next(),
            a == (match old(self).focus() {
                Some(f) => if st.surfaces@.contains_key(f.0) {
                    Some(PointerAction::Leave { surface: f, serial, frame })
                } else {
                    None
                },
                None => None,
            }),
    {
        match self.focused.take() {
            Some(f) => if st.surfaces.contains_key(&f.0) {
                Some(PointerAction::Leave { surface: f, serial, frame })
            } else {
                None
            },
            None => None,
        }
    }

    /// The pointer is at a new place, where `hit` is under it: focus moves
    /// (leave, then enter with a frame), is taken (enter), stays (motion),
    /// or is dropped (leave with a frame). One serial is used either way.
    pub fn check_events(&mut self, st: &SurfaceState, hit: Option<HitResult>) -> (acts: Vec<PointerAction>)
        ensures
            final(self).next() == serial_after(old(self).next()),
            ({
                let s = old(self).next();
                match hit {
                    None => {
                        &&& final(self).focus() is None
                        &&& acts@ == match old(self).focus() {
                            Some(f) => if st.surfaces@.contains_key(f.0) {
                                seq![PointerAction::Leave { surface: f, serial: s, frame: true }]
                            } else {
                                Seq::empty()
                            },
                            None => Seq::empty(),
                        }
                    },
                    Some(h) => {
                        let enter = PointerAction::Enter { surface: h.surface, serial: s, x: h.local_x, y: h.local_y, frame: old(self).focus() is Some };
                        &&& final(self).focus() == Some(h.surface)
                        &&& acts@ == match old(self).focus() {
                            None => seq![enter],
                            Some(f) => if f == h.surface {
                                seq![PointerAction::Motion { surface: f, x: h.local_x, y: h.local_y }]
                            } else if st.surfaces@.contains_key(f.0) {
                                seq![PointerAction::Leave { surface: f, serial: s, frame: false }, enter]
                            } else {
                                seq![enter]
                            },
                        }
                    },
                }
            }),
    {
        let s = self.next_serial();
        let mut acts: Vec<PointerAction> = Vec::new();
        match hit {
            None => {
                if let Some(a) = self.clear_focus(st, s, true) {
                    acts.push(a);
                }
            },
            Some(h) => {
                match self.focused {
                    Some(f) => {
                        if f.0 != h.surface.0 {
                            if let Some(a) = self.clear_focus(st, s, false) {
                                acts.push(a);
                            }
                            acts.push(PointerAction::Enter { surface: h.surface, serial: s, x: h.local_x, y: h.local_y, frame: true });
                            self.focused = Some(h.surface);
                        } else {
                            acts.push(PointerAction::Motion { surface: f, x: h.local_x, y: h.local_y });
                        }
                    },
                    None => {
                        acts.push(PointerAction::Enter { surface: h.surface, serial: s, x: h.local_x, y: h.local_y, frame: false });
                        self.focused = Some(h.surface);
                    },
                }
            },
        }
        acts
    }

    /// The pointer left the compositor's window: focus is dropped.
    pub fn on_leave(&mut self, st: &SurfaceState) -> (a: Option<PointerAction>)
        ensures
            final(self).focus() is None,
            final(self).next() == serial_after(old(self).next()),
            a == (match old(self).focus() {
                Some(f) => if st.surfaces@.contains_key(f.0) {
                    Some(PointerAction::Leave { surface: f, serial: old(self).next(), frame: true })
                } else {
                    None
                },
                None => None,
            }),
    {
        let s = self.next_serial();
        self.clear_focus(st, s, true)
    }

    /// A button event goes to the focused surface with a fresh serial;
    /// without focus it is dropped and no serial is used.
    pub fn on_button(&mut self) -> (r: Option<(ObjectId, u32)>)
        ensures
            final(self).focus() == old(self).focus(),
            old(self).focus() matches Some(f) ==> r == Some((f, old(self).next()))
                && final(self).next() == serial_after(old(self).next()),
            old(self).focus() is None ==> r is None && final(self).next() == old(self).next(),
    {
        match self.focused {
            Some(f) => {
                let s = self.next_serial();
                Some((f, s))
            },
            None => None,
        }
    }

    /// The seat lost its pointer: focus is dropped silently.
    pub fn on_capability_removed(&mut self)
        ensures
            final(self).focus() is None,
            final(self).next() == old(self).next(),
    {
        self.focused = None;
    }
}

} // verus!
