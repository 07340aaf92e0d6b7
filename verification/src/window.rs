//! Client windows: their ids and kinds, and the pair of buffers a window
//! draws into in turn.
use std::collections::HashMap;

use vstd::prelude::*;
use vstd::std_specs::iter::IteratorSpec;

use vstd::string::StringSliceAdditionalSpecFns;
use vstd::utf8::encode_utf8;

use crate::lock_session::{create_surface_bytes, send_create_surface};
use crate::lockscreen::allocated;
use crate::server::{ids_below, ObjectTable};
use crate::wire::{encode_message, encode_string, message_bytes, push_word, string_bytes, word_bytes};

verus! {

broadcast use vstd::std_specs::hash::group_hash_axioms;

/// Identifies a window of the window manager.
#[derive(Hash, PartialEq, Eq, Clone, Copy, Debug, Structural)]
pub struct WindowId(pub u32);

/// The layer of a layer-shell surface, bottom to top.
#[derive(Clone, Copy, Debug, PartialEq, Eq, Structural)]
pub enum Layer {
    Background,
    Bottom,
    Top,
    Overlay,
}

/// Whether a layer-shell surface takes keyboard focus.
#[derive(Clone, Copy, Debug, PartialEq, Eq, Structural)]
pub enum KeyboardInteractivity {
    NoFocus,
    Exclusive,
    OnDemand,
}

/// Anchor bit: the top edge.
pub const ANCHOR_TOP: u32 = 1;
/// Anchor bit: the bottom edge.
pub const ANCHOR_BOTTOM: u32 = 2;
/// Anchor bit: the left edge.
pub const ANCHOR_LEFT: u32 = 4;
/// Anchor bit: the right edge.
pub const ANCHOR_RIGHT: u32 = 8;

/// What a window is shown as: a toplevel, or a layer-shell surface.
#[derive(Debug)]
pub enum WindowKind {
    Xdg { title: String },
    LayerShell {
        layer: Layer,
        anchor: u32,
        exclusive_zone: i32,
        namespace: String,
        keyboard_interactivity: KeyboardInteractivity,
    },
}

/// A window's two buffers: the compositor's ids for them, whether each is
/// released (once configured), and which one is drawn next.
pub struct BufferPair {
    pub buffer_ids: [Option<u32>; 2],
    pub released: Option<[bool; 2]>,
    pub back: usize,
}

impl BufferPair {
    /// Release flags of the two buffers, once configured.
    pub open spec fn released_view(&self) -> Option<Seq<bool>> {
        match self.released {
            Some(rs) => Some(rs@),
            None => None,
        }
    }

    /// `back` names one of the two buffers.
    pub open spec fn wf(&self) -> bool {
        self.back < 2
    }

    /// Not configured: no buffers yet.
    pub fn new() -> (p: Self)
        ensures
            p.wf(),
            p.buffer_ids@ == seq![None::<u32>, None::<u32>],
            p.released is None,
            p.back == 0,
    {
        BufferPair { buffer_ids: [None, None], released: None, back: 0 }
    }

    /// Buffers `id0` and `id1` were created, both released; drawing
    /// starts with the first.
    pub fn configure(&mut self, id0: u32, id1: u32)
        ensures
            final(self).wf(),
            final(self).buffer_ids@ == seq![Some(id0), Some(id1)],
            final(self).released == Some([true, true]),
            final(self).back == 0,
    {
        self.buffer_ids = [Some(id0), Some(id1)];
        self.released = Some([true, true]);
        self.back = 0;
    }

    /// The window has buffers.
    pub fn is_configured(&self) -> (r: bool)
        ensures
            r == self.released is Some,
    {
        self.released.is_some()
    }

    /// The buffer to draw next is free.
    pub fn is_back_released(&self) -> (r: bool)
        requires
            self.wf(),
        ensures
            r == (self.released matches Some(rs) && rs[self.back as int]),
    {
        match &self.released {
            Some(rs) => rs[self.back],
            None => false,
        }
    }

    /// A frame was committed in the back buffer: it is held by the
    /// compositor and the other buffer becomes the back one.
    pub fn present(&mut self) -> (used: usize)
        requires
            old(self).wf(),
            old(self).released is Some,
        ensures
            final(self).wf(),
            used == old(self).back,
            final(self).back == 1 - old(self).back,
            final(self).released_view() == Some(old(self).released_view().unwrap().update(used as int, false)),
            final(self).buffer_ids == old(self).buffer_ids,
    {
        let used = self.back;
        if let Some(rs) = &mut self.released {
            rs[used] = false;
        }
        self.back = 1 - used;
        proof {
            assert(self.released.unwrap()@ =~= old(self).released.unwrap()@.update(used as int, false));
        }
        used
    }

    /// The compositor released buffer `id`: the first slot with that id is
    /// free again (nothing happens before configuration).
    pub fn on_buffer_release(&mut self, id: u32)
        requires
            old(self).wf(),
        ensures
            final(self).wf(),
            final(self).buffer_ids == old(self).buffer_ids,
            final(self).back == old(self).back,
            old(self).released is None ==> final(self).released is None,
            old(self).released_view() matches Some(rs) ==> final(self).released_view() == Some(
                if old(self).buffer_ids[0] == Some(id) {
                    rs.update(0, true)
                } else if old(self).buffer_ids[1] == Some(id) {
                    rs.update(1, true)
                } else {
                    rs
                },
            ),
    {
        let mut i: usize = 0;
        while i < 2
            invariant
                i <= 2,
                self.back < 2,
                self.buffer_ids == old(self).buffer_ids,
                self.back == old(self).back,
                self.released == old(self).released,
                forall|j: int| 0 <= j < i ==> self.buffer_ids[j] != Some(id),
            decreases 2 - i,
        {
            if self.buffer_ids[i] == Some(id) {
                if let Some(rs) = &mut self.released {
                    rs[i] = true;
                }
                proof {
                    if let Some(rs0) = old(self).released {
                        assert(self.released.unwrap()@ =~= rs0@.update(i as int, true));
                    }
                }
                return;
            }
            i = i + 1;
        }
    }
}

/// Whether `w` is in `v`.
fn contains_window(v: &Vec<WindowId>, w: WindowId) -> (r: bool)
    ensures
        r == v@.contains(w),
{
    let mut i: usize = 0;
    while i < v.len()
        invariant
            i <= v@.len(),
            forall|j: int| 0 <= j < i ==> v@[j] != w,
        decreases v@.len() - i,
    {
        if v[i].0 == w.0 {
            assert(v@[i as int] == w);
            return true;
        }
        i = i + 1;
    }
    false
}

/// The windows each touch point is on, once each (in no particular order).
fn distinct_windows(m: &HashMap<i32, WindowId>) -> (out: Vec<WindowId>)
    ensures
        out@.no_duplicates(),
        forall|w: WindowId| #[trigger] out@.contains(w) <==> m@.values().contains(w),
{
    let mut out: Vec<WindowId> = Vec::new();
    let ghost mm = m@;
    let ghost sq = vstd::std_specs::hash::spec_hash_map_iter(m).remaining();
    let ghost mut idx: Seq<int> = Seq::empty();
    for kv in it: m.iter()
        invariant
            mm == m@,
            it.seq() == sq,
            forall|i: int| 0 <= i < sq.len() ==> mm.contains_key(*sq[i].0) && mm[*sq[i].0] == *sq[i].1,
            forall|k: i32| #[trigger] mm.contains_key(k) ==> sq.contains((&k, &mm[k])),
            out@.no_duplicates(),
            idx.len() == out@.len(),
            forall|a: int| 0 <= a < idx.len() ==> 0 <= #[trigger] idx[a] < it.index() && out@[a] == *sq[idx[a]].1,
            forall|i: int| 0 <= i < it.index() ==> out@.contains(#[trigger] (*sq[i].1)),
    {
        let ghost i0 = it.index();
        let ghost out0 = out@;
        let ghost idx0 = idx;
        let (_, w) = kv;
        assert(kv == sq[i0]);
        if !contains_window(&out, *w) {
            out.push(*w);
            proof {
                idx = idx.push(i0);
                assert forall|a: int, b: int| 0 <= a < b < out@.len() implies out@[a] != out@[b] by {
                    if b == out@.len() - 1 {
                        assert(out0.contains(out0[a]));
                    }
                }
                assert forall|a: int| 0 <= a < idx.len() implies 0 <= #[trigger] idx[a] < i0 + 1 && out@[a] == *sq[idx[a]].1 by {
                    if a < idx0.len() {
                        assert(idx[a] == idx0[a]);
                        assert(out@[a] == out0[a]);
                    }
                }
                assert forall|i: int| 0 <= i < i0 + 1 implies out@.contains(#[trigger] (*sq[i].1)) by {
                    if i < i0 {
                        assert(out0.contains(*sq[i].1));
                        let a = choose|a: int| 0 <= a < out0.len() && out0[a] == *sq[i].1;
                        assert(out@[a] == *sq[i].1);
                    } else {
                        assert(out@[out@.len() - 1] == *sq[i].1);
                    }
                }
            }
        }
    }
    proof {
        assert forall|w: WindowId| #[trigger] out@.contains(w) <==> mm.values().contains(w) by {
            if out@.contains(w) {
                let a = choose|a: int| 0 <= a < out@.len() && out@[a] == w;
                let i = idx[a];
                assert(mm.contains_key(*sq[i].0) && mm[*sq[i].0] == w);
            }
            if mm.values().contains(w) {
                let k = choose|k: i32| mm.contains_key(k) && mm[k] == w;
                assert(sq.contains((&k, &mm[k])));
                let i = choose|i: int| 0 <= i < sq.len() && sq[i] == (&k, &mm[k]);
                assert(out@.contains(*sq[i].1));
            }
        }
    }
    out
}

/// Where input and frame callbacks go: the window of each surface, role
/// object and pending frame callback, and the windows holding pointer,
/// keyboard and touch points.
pub struct WindowRouter {
    next_window_id: u32,
    wl_surfaces: HashMap<u32, WindowId>,
    surfaces_with_roles: HashMap<u32, WindowId>,
    frame_callbacks: HashMap<u32, WindowId>,
    current_pointer_window: Option<WindowId>,
    current_keyboard_window: Option<WindowId>,
    touch_window_map: HashMap<i32, WindowId>,
}

impl WindowRouter {
    /// The window of each surface.
    pub closed spec fn surfaces(&self) -> Map<u32, WindowId> {
        self.wl_surfaces@
    }

    /// The window of each role object (layer surface or xdg surface).
    pub closed spec fn roles(&self) -> Map<u32, WindowId> {
        self.surfaces_with_roles@
    }

    /// The window of each pending frame callback.
    pub closed spec fn frames(&self) -> Map<u32, WindowId> {
        self.frame_callbacks@
    }

    /// The window of each touch point.
    pub closed spec fn touches(&self) -> Map<i32, WindowId> {
        self.touch_window_map@
    }

    /// The window under the pointer.
    pub closed spec fn pointer_window(&self) -> Option<WindowId> {
        self.current_pointer_window
    }

    /// The window with keyboard focus.
    pub closed spec fn keyboard_window(&self) -> Option<WindowId> {
        self.current_keyboard_window
    }

    /// The id the next window gets.
    pub closed spec fn next_id(&self) -> u32 {
        self.next_window_id
    }

    /// Nothing routed yet; window ids start at 0.
    pub fn new() -> (r: Self)
        ensures
            r.surfaces() == Map::<u32, WindowId>::empty(),
            r.roles() == Map::<u32, WindowId>::empty(),
            r.frames() == Map::<u32, WindowId>::empty(),
            r.touches() == Map::<i32, WindowId>::empty(),
            r.pointer_window() is None,
            r.keyboard_window() is None,
            r.next_id() == 0,
    {
        WindowRouter {
            next_window_id: 0,
            wl_surfaces: HashMap::new(),
            surfaces_with_roles: HashMap::new(),
            frame_callbacks: HashMap::new(),
            current_pointer_window: None,
            current_keyboard_window: None,
            touch_window_map: HashMap::new(),
        }
    }

    /// The id for a newly spawned window.
    pub fn alloc_window_id(&mut self) -> (id: WindowId)
        requires
            old(self).next_id() < u32::MAX,
        ensures
            id == WindowId(old(self).next_id()),
            final(self).next_id() == old(self).next_id() + 1,
            final(self).surfaces() == old(self).surfaces(),
            final(self).roles() == old(self).roles(),
    {
        let id = WindowId(self.next_window_id);
        self.next_window_id = self.next_window_id + 1;
        id
    }

    /// A window got its surface and role object.
    pub fn register_window(&mut self, window: WindowId, surface: u32, role: u32)
        ensures
            final(self).surfaces() == old(self).surfaces().insert(surface, window),
            final(self).roles() == old(self).roles().insert(role, window),
            final(self).next_id() == old(self).next_id(),
            final(self).frames() == old(self).frames(),
    {
        self.surfaces_with_roles.insert(role, window);
        self.wl_surfaces.insert(surface, window);
    }

    /// The window a role object belongs to.
    pub fn role_window(&self, role: u32) -> (r: Option<WindowId>)
        ensures
            r == (if self.roles().contains_key(role) { Some(self.roles()[role]) } else { None::<WindowId> }),
    {
        match self.surfaces_with_roles.get(&role) {
            Some(w) => Some(*w),
            None => None,
        }
    }

    /// A frame callback was requested for `window`.
    pub fn track_frame(&mut self, callback: u32, window: WindowId)
        ensures
            final(self).frames() == old(self).frames().insert(callback, window),
            final(self).surfaces() == old(self).surfaces(),
    {
        self.frame_callbacks.insert(callback, window);
    }

    /// Callback `callback` is done: the window whose frame it was, if it
    /// was one.
    pub fn frame_done(&mut self, callback: u32) -> (r: Option<WindowId>)
        ensures
            r == (if old(self).frames().contains_key(callback) { Some(old(self).frames()[callback]) } else { None::<WindowId> }),
            final(self).frames() == old(self).frames().remove(callback),
            final(self).surfaces() == old(self).surfaces(),
    {
        self.frame_callbacks.remove(&callback)
    }

    /// The pointer entered `surface`: its window (if any) now has the
    /// pointer.
    pub fn pointer_enter(&mut self, surface: u32) -> (r: Option<WindowId>)
        ensures
            r == (if old(self).surfaces().contains_key(surface) { Some(old(self).surfaces()[surface]) } else { None::<WindowId> }),
            final(self).pointer_window() == r,
            final(self).keyboard_window() == old(self).keyboard_window(),
            final(self).surfaces() == old(self).surfaces(),
    {
        let w = match self.wl_surfaces.get(&surface) {
            Some(w) => Some(*w),
            None => None,
        };
        self.current_pointer_window = w;
        w
    }

    /// The pointer left: the window that had it.
    pub fn pointer_leave(&mut self) -> (r: Option<WindowId>)
        ensures
            r == old(self).pointer_window(),
            final(self).pointer_window() is None,
            final(self).keyboard_window() == old(self).keyboard_window(),
            final(self).surfaces() == old(self).surfaces(),
    {
        self.current_pointer_window.take()
    }

    /// The window other pointer events go to.
    pub fn pointer_target(&self) -> (r: Option<WindowId>)
        ensures
            r == self.pointer_window(),
    {
        self.current_pointer_window
    }

    /// Keyboard focus entered `surface`.
    pub fn keyboard_enter(&mut self, surface: u32) -> (r: Option<WindowId>)
        ensures
            r == (if old(self).surfaces().contains_key(surface) { Some(old(self).surfaces()[surface]) } else { None::<WindowId> }),
            final(self).keyboard_window() == r,
            final(self).pointer_window() == old(self).pointer_window(),
            final(self).surfaces() == old(self).surfaces(),
    {
        let w = match self.wl_surfaces.get(&surface) {
            Some(w) => Some(*w),
            None => None,
        };
        self.current_keyboard_window = w;
        w
    }

    /// Keyboard focus left: the window that had it.
    pub fn keyboard_leave(&mut self) -> (r: Option<WindowId>)
        ensures
            r == old(self).keyboard_window(),
            final(self).keyboard_window() is None,
            final(self).pointer_window() == old(self).pointer_window(),
            final(self).surfaces() == old(self).surfaces(),
    {
        self.current_keyboard_window.take()
    }

    /// The window other keyboard events go to.
    pub fn keyboard_target(&self) -> (r: Option<WindowId>)
        ensures
            r == self.keyboard_window(),
    {
        self.current_keyboard_window
    }

    /// Touch point `id` went down on `surface`: it belongs to that
    /// surface's window from now on (nothing happens for an unknown
    /// surface).
    pub fn touch_down(&mut self, surface: u32, id: i32) -> (r: Option<WindowId>)
        ensures
            r == (if old(self).surfaces().contains_key(surface) { Some(old(self).surfaces()[surface]) } else { None::<WindowId> }),
            r matches Some(w) ==> final(self).touches() == old(self).touches().insert(id, w),
            r is None ==> final(self).touches() == old(self).touches(),
            final(self).surfaces() == old(self).surfaces(),
    {
        match self.wl_surfaces.get(&surface) {
            Some(w) => {
                let w = *w;
                self.touch_window_map.insert(id, w);
                Some(w)
            },
            None => None,
        }
    }

    /// Touch point `id` went up: the window it belonged to.
    pub fn touch_up(&mut self, id: i32) -> (r: Option<WindowId>)
        ensures
            r == (if old(self).touches().contains_key(id) { Some(old(self).touches()[id]) } else { None::<WindowId> }),
            final(self).touches() == old(self).touches().remove(id),
            final(self).surfaces() == old(self).surfaces(),
    {
        self.touch_window_map.remove(&id)
    }

    /// The window touch point `id` moves on.
    pub fn touch_motion(&self, id: i32) -> (r: Option<WindowId>)
        ensures
            r == (if self.touches().contains_key(id) { Some(self.touches()[id]) } else { None::<WindowId> }),
    {
        match self.touch_window_map.get(&id) {
            Some(w) => Some(*w),
            None => None,
        }
    }

    /// A touch frame: every window with a touch point, once each.
    pub fn touch_frame(&self) -> (r: Vec<WindowId>)
        ensures
            r@.no_duplicates(),
            forall|w: WindowId| #[trigger] r@.contains(w) <==> self.touches().values().contains(w),
    {
        distinct_windows(&self.touch_window_map)
    }

    /// The touch sequence was cancelled: every window with a touch point,
    /// once each; no touch point is left.
    pub fn touch_cancel(&mut self) -> (r: Vec<WindowId>)
        ensures
            r@.no_duplicates(),
            forall|w: WindowId| #[trigger] r@.contains(w) <==> old(self).touches().values().contains(w),
            final(self).touches() == Map::<i32, WindowId>::empty(),
            final(self).surfaces() == old(self).surfaces(),
    {
        let r = distinct_windows(&self.touch_window_map);
        self.touch_window_map.clear();
        r
    }
}

/// The size to configure a window with: the compositor's, where it is not
/// zero, else the window's own.
pub fn configure_size(width: u32, height: u32, stored: (u32, u32)) -> (r: (u32, u32))
    ensures
        r == ((if width == 0 { stored.0 } else { width }), (if height == 0 { stored.1 } else { height })),
{
    let w = if width == 0 { stored.0 } else { width };
    let h = if height == 0 { stored.1 } else { height };
    (w, h)
}

/// The requests that show a new frame of surface `surface` in buffer
/// `buffer`: `frame` asking for callback `callback`, `attach` at (0, 0),
/// `damage` of the whole `width` x `height` surface, and `commit`.
pub open spec fn frame_commit_bytes(surface: u32, buffer: u32, callback: u32, width: u32, height: u32, little: bool) -> Seq<u8> {
    message_bytes(surface, 3, word_bytes(callback, little), little) + message_bytes(
        surface,
        1,
        word_bytes(buffer, little) + word_bytes(0, little) + word_bytes(0, little),
        little,
    ) + message_bytes(
        surface,
        2,
        word_bytes(0, little) + word_bytes(0, little) + word_bytes(width, little) + word_bytes(height, little),
        little,
    ) + message_bytes(surface, 6, Seq::empty(), little)
}

/// Sends the requests of `frame_commit_bytes`.
pub fn send_frame_commit(out: &mut Vec<u8>, surface: u32, buffer: u32, callback: u32, width: u32, height: u32, little: bool)
    ensures
        final(out)@ == old(out)@ + frame_commit_bytes(surface, buffer, callback, width, height, little),
{
    let mut frame: Vec<u8> = Vec::new();
    push_word(&mut frame, callback, little);
    encode_message(out, surface, 3, frame.as_slice(), little);
    let mut attach: Vec<u8> = Vec::new();
    push_word(&mut attach, buffer, little);
    push_word(&mut attach, 0, little);
    push_word(&mut attach, 0, little);
    encode_message(out, surface, 1, attach.as_slice(), little);
    let mut damage: Vec<u8> = Vec::new();
    push_word(&mut damage, 0, little);
    push_word(&mut damage, 0, little);
    push_word(&mut damage, width, little);
    push_word(&mut damage, height, little);
    encode_message(out, surface, 2, damage.as_slice(), little);
    let commit: Vec<u8> = Vec::new();
    encode_message(out, surface, 6, commit.as_slice(), little);
    assert(out@ =~= old(out)@ + frame_commit_bytes(surface, buffer, callback, width, height, little));
}

impl BufferPair {
    /// Shows the frame drawn in the back buffer on surface `surface`
    /// (`width` x `height`), asking for frame callback `callback`: sends
    /// the requests of `frame_commit_bytes` and hands the buffer to the
    /// compositor, as `present` does. Returns the buffer slot used.
    pub fn commit_frame(&mut self, out: &mut Vec<u8>, surface: u32, callback: u32, width: u32, height: u32, little: bool) -> (used: usize)
        requires
            old(self).wf(),
            old(self).released is Some,
            old(self).buffer_ids[old(self).back as int] is Some,
        ensures
            final(self).wf(),
            used == old(self).back,
            final(self).back == 1 - old(self).back,
            final(self).released_view() == Some(old(self).released_view().unwrap().update(used as int, false)),
            final(self).buffer_ids == old(self).buffer_ids,
            final(out)@ == old(out)@ + frame_commit_bytes(
                surface,
                old(self).buffer_ids[used as int].unwrap(),
                callback,
                width,
                height,
                little,
            ),
    {
        let buffer = match self.buffer_ids[self.back] {
            Some(b) => b,
            None => 0,
        };
        send_frame_commit(out, surface, buffer, callback, width, height, little);
        self.present()
    }
}

/// The wire value of a layer.
pub open spec fn layer_value(l: Layer) -> u32 {
    match l {
        Layer::Background => 0,
        Layer::Bottom => 1,
        Layer::Top => 2,
        Layer::Overlay => 3,
    }
}

/// The wire values of the layers follow the stacking order of the layer
/// shell protocol, from 0 for the background up to 3 for the overlay:
/// a layer drawn above another has a larger value, and no two layers share
/// one.
pub proof fn lemma_layer_values(a: Layer, b: Layer)
    ensures
        layer_value(a) <= 3,
        layer_value(Layer::Background) < layer_value(Layer::Bottom),
        layer_value(Layer::Bottom) < layer_value(Layer::Top),
        layer_value(Layer::Top) < layer_value(Layer::Overlay),
        a != b ==> layer_value(a) != layer_value(b),
{
}

/// The wire value of a keyboard interactivity.
pub open spec fn interactivity_value(k: KeyboardInteractivity) -> u32 {
    match k {
        KeyboardInteractivity::NoFocus => 0,
        KeyboardInteractivity::Exclusive => 1,
        KeyboardInteractivity::OnDemand => 2,
    }
}

/// The wire values of keyboard interactivity: none 0, exclusive 1, on
/// demand 2; no two modes share one.
pub proof fn lemma_interactivity_values(k: KeyboardInteractivity)
    ensures
        interactivity_value(k) == 0 <==> k == KeyboardInteractivity::NoFocus,
        interactivity_value(k) == 1 <==> k == KeyboardInteractivity::Exclusive,
        interactivity_value(k) == 2 <==> k == KeyboardInteractivity::OnDemand,
{
}

fn layer_to_wire(l: Layer) -> (v: u32)
    ensures
        v == layer_value(l),
{
    match l {
        Layer::Background => 0,
        Layer::Bottom => 1,
        Layer::Top => 2,
        Layer::Overlay => 3,
    }
}

fn interactivity_to_wire(k: KeyboardInteractivity) -> (v: u32)
    ensures
        v == interactivity_value(k),
{
    match k {
        KeyboardInteractivity::NoFocus => 0,
        KeyboardInteractivity::Exclusive => 1,
        KeyboardInteractivity::OnDemand => 2,
    }
}

/// A window spawned and not yet created on the server: its id, size and
/// kind.
#[derive(Debug)]
pub struct PendingWindow {
    pub id: WindowId,
    pub width: u32,
    pub height: u32,
    pub kind: WindowKind,
}

/// The objects created for a window: its surface, its role object (layer
/// surface or xdg surface) and, for a toplevel, the toplevel (0 for a
/// layer-shell surface).
#[derive(Clone, Copy, Debug, PartialEq, Eq, Structural)]
pub struct CreatedWindow {
    pub id: WindowId,
    pub surface: u32,
    pub role: u32,
    pub toplevel: u32,
}

/// The text of a window kind (title or namespace) is short enough to send.
pub open spec fn kind_sendable(k: WindowKind) -> bool {
    match k {
        WindowKind::Xdg { title } => encode_utf8(title@).len() + 64 <= u32::MAX,
        WindowKind::LayerShell { namespace, .. } => encode_utf8(namespace@).len() + 64 <= u32::MAX,
    }
}

/// The requests that give surface `surface` the layer-shell role as
/// `role`: `get_layer_surface` on `layer_shell` (no output), then
/// `set_size`, `set_anchor`, `set_exclusive_zone` and
/// `set_keyboard_interactivity`.
#[verifier::opaque]
pub open spec fn layer_bytes(
    layer_shell: u32,
    role: u32,
    surface: u32,
    width: u32,
    height: u32,
    layer: Layer,
    anchor: u32,
    exclusive_zone: i32,
    namespace: Seq<char>,
    keyboard_interactivity: KeyboardInteractivity,
    little: bool,
) -> Seq<u8> {
    message_bytes(
        layer_shell,
        0,
        word_bytes(role, little) + word_bytes(surface, little) + word_bytes(0, little) + word_bytes(layer_value(layer), little)
            + string_bytes(encode_utf8(namespace), little),
        little,
    ) + message_bytes(role, 0, word_bytes(width, little) + word_bytes(height, little), little) + message_bytes(
        role,
        1,
        word_bytes(anchor, little),
        little,
    ) + message_bytes(role, 2, word_bytes(exclusive_zone as u32, little), little) + message_bytes(
        role,
        4,
        word_bytes(interactivity_value(keyboard_interactivity), little),
        little,
    )
}

/// The requests that make surface `surface` a toplevel: `get_xdg_surface`
/// on `xdg_wm_base` creating `role`, `get_toplevel` creating `toplevel`,
/// and `set_title`.
#[verifier::opaque]
pub open spec fn toplevel_bytes(xdg_wm_base: u32, role: u32, toplevel: u32, surface: u32, title: Seq<char>, little: bool) -> Seq<u8> {
    message_bytes(xdg_wm_base, 2, word_bytes(role, little) + word_bytes(surface, little), little) + message_bytes(
        role,
        1,
        word_bytes(toplevel, little),
        little,
    ) + message_bytes(toplevel, 2, string_bytes(encode_utf8(title), little), little)
}

/// The requests that create window `p` as `c`: the surface from
/// `compositor`, its role (`layer_bytes` or `toplevel_bytes`), and the
/// surface's `commit`.
#[verifier::opaque]
pub open spec fn window_bytes(p: PendingWindow, c: CreatedWindow, compositor: u32, layer_shell: u32, xdg_wm_base: u32, little: bool) -> Seq<u8> {
    create_surface_bytes(compositor, c.surface, little) + match p.kind {
        WindowKind::LayerShell { layer, anchor, exclusive_zone, namespace, keyboard_interactivity } => layer_bytes(
            layer_shell,
            c.role,
            c.surface,
            p.width,
            p.height,
            layer,
            anchor,
            exclusive_zone,
            namespace@,
            keyboard_interactivity,
            little,
        ),
        WindowKind::Xdg { title } => toplevel_bytes(xdg_wm_base, c.role, c.toplevel, c.surface, title@, little),
    } + message_bytes(c.surface, 6, Seq::empty(), little)
}

/// Sends the requests of `layer_bytes`.
fn send_layer_requests(
    out: &mut Vec<u8>,
    layer_shell: u32,
    role: u32,
    surface: u32,
    width: u32,
    height: u32,
    layer: Layer,
    anchor: u32,
    exclusive_zone: i32,
    namespace: &String,
    keyboard_interactivity: KeyboardInteractivity,
    little: bool,
)
    requires
        encode_utf8(namespace@).len() + 64 <= u32::MAX,
    ensures
        final(out)@ == old(out)@ + layer_bytes(
            layer_shell,
            role,
            surface,
            width,
            height,
            layer,
            anchor,
            exclusive_zone,
            namespace@,
            keyboard_interactivity,
            little,
        ),
{
    let ghost o0 = out@;
    send_get_layer_surface(out, layer_shell, role, surface, layer, namespace, little);
    let ghost o1 = out@;
    send_two_words(out, role, 0, width, height, little);
    let ghost o2 = out@;
    send_word(out, role, 1, anchor, little);
    let ghost o3 = out@;
    send_word(out, role, 2, exclusive_zone as u32, little);
    let ghost o4 = out@;
    send_word(out, role, 4, interactivity_to_wire(keyboard_interactivity), little);
    proof {
        reveal(layer_bytes);
        let m1 = o1.subrange(o0.len() as int, o1.len() as int);
        assert(o1 =~= o0 + m1);
        assert(out@ =~= o0 + (m1 + o2.subrange(o1.len() as int, o2.len() as int) + o3.subrange(o2.len() as int, o3.len() as int)
            + o4.subrange(o3.len() as int, o4.len() as int) + out@.subrange(o4.len() as int, out@.len() as int)));
    }
}

/// Sends `get_layer_surface` on `layer_shell` creating `role` for
/// `surface`, with no output, on `layer`, in `namespace`.
fn send_get_layer_surface(out: &mut Vec<u8>, layer_shell: u32, role: u32, surface: u32, layer: Layer, namespace: &String, little: bool)
    requires
        encode_utf8(namespace@).len() + 64 <= u32::MAX,
    ensures
        final(out)@ == old(out)@ + message_bytes(
            layer_shell,
            0,
            word_bytes(role, little) + word_bytes(surface, little) + word_bytes(0, little) + word_bytes(
                layer_value(layer),
                little,
            ) + string_bytes(encode_utf8(namespace@), little),
            little,
        ),
{
    let mut body: Vec<u8> = Vec::new();
    push_word(&mut body, role, little);
    push_word(&mut body, surface, little);
    push_word(&mut body, 0, little);
    push_word(&mut body, layer_to_wire(layer), little);
    let ns = namespace.as_str();
    encode_string(&mut body, ns, little);
    assert(body@ =~= word_bytes(role, little) + word_bytes(surface, little) + word_bytes(0, little) + word_bytes(
        layer_value(layer),
        little,
    ) + string_bytes(encode_utf8(namespace@), little));
    encode_message(out, layer_shell, 0, body.as_slice(), little);
}

/// Sends the requests of `toplevel_bytes`.
fn send_toplevel_requests(out: &mut Vec<u8>, xdg_wm_base: u32, role: u32, toplevel: u32, surface: u32, title: &String, little: bool)
    requires
        encode_utf8(title@).len() + 64 <= u32::MAX,
    ensures
        final(out)@ == old(out)@ + toplevel_bytes(xdg_wm_base, role, toplevel, surface, title@, little),
{
    reveal(toplevel_bytes);
    send_two_words(out, xdg_wm_base, 2, role, surface, little);
    send_word(out, role, 1, toplevel, little);
    let mut body: Vec<u8> = Vec::new();
    encode_string(&mut body, title.as_str(), little);
    encode_message(out, toplevel, 2, body.as_slice(), little);
    assert(out@ =~= old(out)@ + toplevel_bytes(xdg_wm_base, role, toplevel, surface, title@, little));
}

/// The requests that create the windows `ps` as `cs`, in order.
pub open spec fn windows_bytes(
    ps: Seq<PendingWindow>,
    cs: Seq<CreatedWindow>,
    compositor: u32,
    layer_shell: u32,
    xdg_wm_base: u32,
    little: bool,
) -> Seq<u8>
    decreases ps.len(),
{
    if ps.len() == 0 || cs.len() == 0 {
        Seq::empty()
    } else {
        windows_bytes(ps.drop_last(), cs.drop_last(), compositor, layer_shell, xdg_wm_base, little) + window_bytes(
            ps.last(),
            cs.last(),
            compositor,
            layer_shell,
            xdg_wm_base,
            little,
        )
    }
}

/// Sends a request without arguments.
fn send_no_args(out: &mut Vec<u8>, id: u32, opcode: u16, little: bool)
    ensures
        final(out)@ == old(out)@ + message_bytes(id, opcode, Seq::empty(), little),
{
    let body: Vec<u8> = Vec::new();
    encode_message(out, id, opcode, body.as_slice(), little);
}

/// Sends a request with one word argument.
fn send_word(out: &mut Vec<u8>, id: u32, opcode: u16, w: u32, little: bool)
    ensures
        final(out)@ == old(out)@ + message_bytes(id, opcode, word_bytes(w, little), little),
{
    let mut body: Vec<u8> = Vec::new();
    push_word(&mut body, w, little);
    assert(body@ =~= word_bytes(w, little));
    encode_message(out, id, opcode, body.as_slice(), little);
}

/// Sends a request with two word arguments.
fn send_two_words(out: &mut Vec<u8>, id: u32, opcode: u16, a: u32, b: u32, little: bool)
    ensures
        final(out)@ == old(out)@ + message_bytes(id, opcode, word_bytes(a, little) + word_bytes(b, little), little),
{
    let mut body: Vec<u8> = Vec::new();
    push_word(&mut body, a, little);
    push_word(&mut body, b, little);
    assert(body@ =~= word_bytes(a, little) + word_bytes(b, little));
    encode_message(out, id, opcode, body.as_slice(), little);
}

/// Hands out an id for a new object of interface `iface`.
fn new_object(ids: &mut ObjectTable, iface: &'static str) -> (id: u32)
    requires
        old(ids).wf(),
        old(ids).next_fresh() < u32::MAX,
        ids_below(*old(ids)),
    ensures
        final(ids).wf(),
        allocated(*old(ids), *final(ids), id, iface@),
        final(ids).next_fresh() <= old(ids).next_fresh() + 1,
        ids_below(*final(ids)),
        !old(ids).live().contains_key(id),
{
    let ghost t0 = *ids;
    proof {
        t0.lemma_freed_not_live();
        t0.lemma_freed_finite();
        vstd::set_lib::lemma_set_empty_equivalency_len(t0.freed());
    }
    let id = ids.alloc_id();
    ids.register(id, iface);
    proof {
        if t0.freed().len() > 0 {
            assert(ids.freed() =~= t0.freed().remove(id.0));
        } else {
            assert(t0.freed() =~= Set::<u32>::empty());
            assert(ids.freed() =~= t0.freed());
        }
        assert(!t0.live().contains_key(id.0));
        assert forall|k: u32|
            #![trigger ids.live().contains_key(k)]
            #![trigger ids.freed().contains(k)]
            (ids.live().contains_key(k) || ids.freed().contains(k)) implies k < ids.next_fresh() by {
            if k != id.0 {
                assert(t0.live().contains_key(k) || t0.freed().contains(k));
            }
        }
    }
    id.0
}

/// The interface of a window's role object.
pub open spec fn role_iface(k: WindowKind) -> Seq<char> {
    match k {
        WindowKind::LayerShell { .. } => "zwlr_layer_surface_v1"@,
        WindowKind::Xdg { .. } => "xdg_surface"@,
    }
}

/// `k` is one of the objects created for window `p` as `c`: its surface,
/// its role object, or (for a toplevel) its toplevel.
pub open spec fn owns(p: PendingWindow, c: CreatedWindow, k: u32) -> bool {
    k == c.surface || k == c.role || (p.kind is Xdg && k == c.toplevel)
}

/// The interface object `k` of window `p` (created as `c`) is recorded
/// under.
pub open spec fn owned_iface(p: PendingWindow, c: CreatedWindow, k: u32) -> Seq<char> {
    if k == c.surface {
        "wl_surface"@
    } else if k == c.role {
        role_iface(p.kind)
    } else {
        "xdg_toplevel"@
    }
}

/// The objects created for one window have distinct ids.
pub open spec fn ids_distinct(p: PendingWindow, c: CreatedWindow) -> bool {
    &&& c.surface != c.role
    &&& p.kind is Xdg ==> c.toplevel != c.surface && c.toplevel != c.role
}

/// The live objects `m1` are `m0` with the windows `ps` created as `cs`:
/// every created id was not live in `m0` and is live under its interface,
/// no id belongs to two windows, the objects of `m0` stay, and nothing else
/// is added.
pub open spec fn created_live(m0: Map<u32, Seq<char>>, m1: Map<u32, Seq<char>>, ps: Seq<PendingWindow>, cs: Seq<CreatedWindow>) -> bool {
    &&& cs.len() <= ps.len()
    &&& forall|i: int| 0 <= i < cs.len() ==> ids_distinct(ps[i], #[trigger] cs[i])
    &&& forall|i: int, k: u32|
        0 <= i < cs.len() && #[trigger] owns(ps[i], cs[i], k) ==> !m0.contains_key(k) && m1.contains_key(k) && m1[k]
            == owned_iface(ps[i], cs[i], k)
    &&& forall|i: int, j: int, k: u32|
        0 <= i < j < cs.len() && #[trigger] owns(ps[i], cs[i], k) ==> !#[trigger] owns(ps[j], cs[j], k)
    &&& forall|k: u32| #[trigger] m0.contains_key(k) ==> m1.contains_key(k) && m1[k] == m0[k]
    &&& forall|k: u32| #[trigger] m1.contains_key(k) ==> m0.contains_key(k) || exists|i: int| 0 <= i < cs.len() && #[trigger] owns(ps[i], cs[i], k)
}

/// The routes `r1` send the surfaces (`surfaces`) or role objects of the
/// windows `cs` to their windows, and keep the routes of `r0` whose key is
/// an object live in `m0`.
pub open spec fn routes_kept(r0: Map<u32, WindowId>, r1: Map<u32, WindowId>, m0: Map<u32, Seq<char>>, cs: Seq<CreatedWindow>, surfaces: bool) -> bool {
    &&& forall|i: int|
        0 <= i < cs.len() ==> {
            let key = if surfaces { (#[trigger] cs[i]).surface } else { cs[i].role };
            r1.contains_key(key) && r1[key] == cs[i].id
        }
    &&& forall|k: u32| #[trigger] r0.contains_key(k) && m0.contains_key(k) ==> r1.contains_key(k) && r1[k] == r0[k]
}

/// The objects of the windows `ps` created as `cs` took their ids from the
/// table `t0`: each was a freed id of `t0` or one it never handed out, and
/// the freed ids of `t1` are those of `t0` that none of them took.
pub open spec fn drawn_from(t0: ObjectTable, t1: ObjectTable, ps: Seq<PendingWindow>, cs: Seq<CreatedWindow>) -> bool {
    &&& t0.next_fresh() <= t1.next_fresh()
    &&& forall|i: int, k: u32|
        0 <= i < cs.len() && #[trigger] owns(ps[i], cs[i], k) ==> t0.freed().contains(k) || t0.next_fresh() <= k
    &&& forall|k: u32|
        #[trigger] t1.freed().contains(k) == (t0.freed().contains(k) && !exists|i: int|
            0 <= i < cs.len() && #[trigger] owns(ps[i], cs[i], k))
}

proof fn lemma_drawn_step(
    t0: ObjectTable,
    t1: ObjectTable,
    t2: ObjectTable,
    ps: Seq<PendingWindow>,
    cs: Seq<CreatedWindow>,
    c: CreatedWindow,
)
    requires
        cs.len() < ps.len(),
        drawn_from(t0, t1, ps, cs),
        t1.next_fresh() <= t2.next_fresh(),
        forall|k: u32| #[trigger] owns(ps[cs.len() as int], c, k) ==> t1.freed().contains(k) || t1.next_fresh() <= k,
        forall|k: u32| #[trigger] t2.freed().contains(k) == (t1.freed().contains(k) && !owns(ps[cs.len() as int], c, k)),
    ensures
        drawn_from(t0, t2, ps, cs.push(c)),
{
    let n = cs.len() as int;
    let cs2 = cs.push(c);
    assert(cs2[n] == c);
    assert forall|i: int, k: u32|
        0 <= i < cs2.len() && #[trigger] owns(ps[i], cs2[i], k) implies t0.freed().contains(k) || t0.next_fresh() <= k by {
        if i < n {
            assert(cs2[i] == cs[i]);
            assert(owns(ps[i], cs[i], k));
        } else {
            assert(owns(ps[n], c, k));
            if t1.freed().contains(k) {
                assert(t0.freed().contains(k));
            }
        }
    }
    assert forall|k: u32|
        #[trigger] t2.freed().contains(k) == (t0.freed().contains(k) && !exists|i: int|
            0 <= i < cs2.len() && #[trigger] owns(ps[i], cs2[i], k)) by {
        if exists|i: int| 0 <= i < cs2.len() && #[trigger] owns(ps[i], cs2[i], k) {
            let i = choose|i: int| 0 <= i < cs2.len() && #[trigger] owns(ps[i], cs2[i], k);
            if i < n {
                assert(cs2[i] == cs[i]);
                assert(owns(ps[i], cs[i], k));
                assert(!t1.freed().contains(k));
            } else {
                assert(owns(ps[n], c, k));
            }
        } else {
            assert(!owns(ps[n], c, k)) by {
                if owns(ps[n], c, k) {
                    assert(owns(ps[n], cs2[n], k));
                }
            }
            assert(!exists|i: int| 0 <= i < cs.len() && #[trigger] owns(ps[i], cs[i], k)) by {
                if exists|i: int| 0 <= i < cs.len() && #[trigger] owns(ps[i], cs[i], k) {
                    let i = choose|i: int| 0 <= i < cs.len() && #[trigger] owns(ps[i], cs[i], k);
                    assert(cs2[i] == cs[i]);
                    assert(owns(ps[i], cs2[i], k));
                }
            }
        }
    }
}

proof fn lemma_flush_step(
    m0: Map<u32, Seq<char>>,
    m1: Map<u32, Seq<char>>,
    m2: Map<u32, Seq<char>>,
    ps: Seq<PendingWindow>,
    cs: Seq<CreatedWindow>,
    c: CreatedWindow,
    s0: Map<u32, WindowId>,
    s1: Map<u32, WindowId>,
    q0: Map<u32, WindowId>,
    q1: Map<u32, WindowId>,
)
    requires
        cs.len() < ps.len(),
        created_live(m0, m1, ps, cs),
        routes_kept(s0, s1, m0, cs, true),
        routes_kept(q0, q1, m0, cs, false),
        ids_distinct(ps[cs.len() as int], c),
        c.id == ps[cs.len() as int].id,
        forall|k: u32| #[trigger] owns(ps[cs.len() as int], c, k) ==> !m1.contains_key(k),
        forall|k: u32| #[trigger] m2.contains_key(k) == (m1.contains_key(k) || owns(ps[cs.len() as int], c, k)),
        forall|k: u32|
            #[trigger] m2.contains_key(k) ==> m2[k] == (if owns(ps[cs.len() as int], c, k) {
                owned_iface(ps[cs.len() as int], c, k)
            } else {
                m1[k]
            }),
    ensures
        created_live(m0, m2, ps, cs.push(c)),
        routes_kept(s0, s1.insert(c.surface, c.id), m0, cs.push(c), true),
        routes_kept(q0, q1.insert(c.role, c.id), m0, cs.push(c), false),
{
    let n = cs.len() as int;
    let cs2 = cs.push(c);
    let p = ps[n];
    assert(cs2[n] == c);
    assert forall|i: int| 0 <= i < cs2.len() implies ids_distinct(ps[i], #[trigger] cs2[i]) by {
        if i < n {
            assert(cs2[i] == cs[i]);
        }
    }
    assert forall|i: int, k: u32|
        0 <= i < cs2.len() && #[trigger] owns(ps[i], cs2[i], k) implies !m0.contains_key(k) && m2.contains_key(k) && m2[k]
            == owned_iface(ps[i], cs2[i], k) by {
        if i < n {
            assert(cs2[i] == cs[i]);
            assert(owns(ps[i], cs[i], k));
            assert(m1.contains_key(k));
            assert(!owns(p, c, k));
        } else {
            assert(owns(p, c, k));
            assert(!m1.contains_key(k));
        }
    }
    assert forall|i: int, j: int, k: u32|
        0 <= i < j < cs2.len() && #[trigger] owns(ps[i], cs2[i], k) implies !#[trigger] owns(ps[j], cs2[j], k) by {
        assert(cs2[i] == cs[i]);
        assert(owns(ps[i], cs[i], k));
        if j < n {
            assert(cs2[j] == cs[j]);
        } else {
            assert(m1.contains_key(k));
        }
    }
    assert forall|k: u32| #[trigger] m0.contains_key(k) implies m2.contains_key(k) && m2[k] == m0[k] by {
        assert(m1.contains_key(k));
        assert(!owns(p, c, k));
    }
    assert forall|k: u32| #[trigger] m2.contains_key(k) implies m0.contains_key(k) || exists|i: int|
        0 <= i < cs2.len() && #[trigger] owns(ps[i], cs2[i], k) by {
        if owns(p, c, k) {
            assert(owns(ps[n], cs2[n], k));
        } else {
            assert(m1.contains_key(k));
            if !m0.contains_key(k) {
                let i = choose|i: int| 0 <= i < cs.len() && #[trigger] owns(ps[i], cs[i], k);
                assert(cs2[i] == cs[i]);
                assert(owns(ps[i], cs2[i], k));
            }
        }
    }
    let s2 = s1.insert(c.surface, c.id);
    let q2 = q1.insert(c.role, c.id);
    assert(owns(p, c, c.surface));
    assert(owns(p, c, c.role));
    assert forall|i: int| 0 <= i < cs2.len() implies ({
        let key = (#[trigger] cs2[i]).surface;
        s2.contains_key(key) && s2[key] == cs2[i].id
    }) by {
        if i < n {
            assert(cs2[i] == cs[i]);
            assert(owns(ps[i], cs[i], cs[i].surface));
            assert(m1.contains_key(cs[i].surface));
            let key = if true { cs[i].surface } else { cs[i].role };
            assert(s1.contains_key(key) && s1[key] == cs[i].id);
        }
    }
    assert forall|i: int| 0 <= i < cs2.len() implies ({
        let key = (#[trigger] cs2[i]).role;
        q2.contains_key(key) && q2[key] == cs2[i].id
    }) by {
        if i < n {
            assert(cs2[i] == cs[i]);
            assert(owns(ps[i], cs[i], cs[i].role));
            assert(m1.contains_key(cs[i].role));
            let key = if false { cs[i].surface } else { cs[i].role };
            assert(q1.contains_key(key) && q1[key] == cs[i].id);
        }
    }
    assert forall|k: u32| #[trigger] s0.contains_key(k) && m0.contains_key(k) implies s2.contains_key(k) && s2[k] == s0[k] by {
        assert(m1.contains_key(k));
    }
    assert forall|k: u32| #[trigger] q0.contains_key(k) && m0.contains_key(k) implies q2.contains_key(k) && q2[k] == q0[k] by {
        assert(m1.contains_key(k));
    }
}

/// The window of each surface once the windows `cs` are routed.
pub open spec fn routed_surfaces(m: Map<u32, WindowId>, cs: Seq<CreatedWindow>) -> Map<u32, WindowId>
    decreases cs.len(),
{
    if cs.len() == 0 {
        m
    } else {
        routed_surfaces(m, cs.drop_last()).insert(cs.last().surface, cs.last().id)
    }
}

/// The window of each role object once the windows `cs` are routed.
pub open spec fn routed_roles(m: Map<u32, WindowId>, cs: Seq<CreatedWindow>) -> Map<u32, WindowId>
    decreases cs.len(),
{
    if cs.len() == 0 {
        m
    } else {
        routed_roles(m, cs.drop_last()).insert(cs.last().role, cs.last().id)
    }
}

/// The windows spawned so far, the globals they are created with, and
/// where their input and frame callbacks go.
pub struct WindowManager {
    pub router: WindowRouter,
    pub compositor: Option<u32>,
    pub layer_shell: Option<u32>,
    pub xdg_wm_base: Option<u32>,
    pub pending: Vec<PendingWindow>,
}

/// The globals a pending window needs are bound and its text can be sent.
pub open spec fn can_create(p: PendingWindow, compositor: Option<u32>, layer_shell: Option<u32>, xdg_wm_base: Option<u32>) -> bool {
    &&& compositor is Some
    &&& p.kind is LayerShell ==> layer_shell is Some
    &&& p.kind is Xdg ==> xdg_wm_base is Some
    &&& kind_sendable(p.kind)
}

impl WindowManager {
    /// No window, no global bound yet.
    pub fn new() -> (m: Self)
        ensures
            m.router.next_id() == 0,
            m.router.surfaces() == Map::<u32, WindowId>::empty(),
            m.router.roles() == Map::<u32, WindowId>::empty(),
            m.compositor is None && m.layer_shell is None && m.xdg_wm_base is None,
            m.pending@.len() == 0,
    {
        WindowManager { router: WindowRouter::new(), compositor: None, layer_shell: None, xdg_wm_base: None, pending: Vec::new() }
    }

    /// Spawns a `width` x `height` window of `kind`: it gets the next window
    /// id and waits to be created at the next `flush_pending`.
    pub fn spawn_window(&mut self, width: u32, height: u32, kind: WindowKind) -> (id: WindowId)
        requires
            old(self).router.next_id() < u32::MAX,
        ensures
            id == WindowId(old(self).router.next_id()),
            final(self).router.next_id() == old(self).router.next_id() + 1,
            final(self).router.surfaces() == old(self).router.surfaces(),
            final(self).router.roles() == old(self).router.roles(),
            final(self).pending@ == old(self).pending@.push(PendingWindow { id, width, height, kind }),
            final(self).compositor == old(self).compositor,
            final(self).layer_shell == old(self).layer_shell,
            final(self).xdg_wm_base == old(self).xdg_wm_base,
    {
        let id = self.router.alloc_window_id();
        self.pending.push(PendingWindow { id, width, height, kind });
        id
    }

    /// Creates one pending window: its objects, requests and routes.
    fn create_window(&mut self, p: &PendingWindow, out: &mut Vec<u8>, ids: &mut ObjectTable, little: bool) -> (c: CreatedWindow)
        requires
            old(ids).wf(),
            old(ids).next_fresh() + 3 <= u32::MAX,
            ids_below(*old(ids)),
            can_create(*p, old(self).compositor, old(self).layer_shell, old(self).xdg_wm_base),
        ensures
            final(ids).wf(),
            final(ids).next_fresh() <= old(ids).next_fresh() + 3,
            ids_below(*final(ids)),
            ids_distinct(*p, c),
            forall|k: u32| #[trigger] owns(*p, c, k) ==> !old(ids).live().contains_key(k),
            old(ids).next_fresh() <= final(ids).next_fresh(),
            forall|k: u32| #[trigger] owns(*p, c, k) ==> old(ids).freed().contains(k) || old(ids).next_fresh() <= k,
            forall|k: u32| #[trigger] final(ids).freed().contains(k) == (old(ids).freed().contains(k) && !owns(*p, c, k)),
            forall|k: u32| #[trigger] final(ids).live().contains_key(k) == (old(ids).live().contains_key(k) || owns(*p, c, k)),
            forall|k: u32|
                #[trigger] final(ids).live().contains_key(k) ==> final(ids).live()[k] == (if owns(*p, c, k) {
                    owned_iface(*p, c, k)
                } else {
                    old(ids).live()[k]
                }),
            c.id == p.id,
            p.kind is LayerShell ==> c.toplevel == 0,
            final(out)@ == old(out)@ + window_bytes(
                *p,
                c,
                old(self).compositor.unwrap(),
                old(self).layer_shell.unwrap(),
                old(self).xdg_wm_base.unwrap(),
                little,
            ),
            final(self).router.surfaces() == old(self).router.surfaces().insert(c.surface, p.id),
            final(self).router.roles() == old(self).router.roles().insert(c.role, p.id),
            final(self).router.next_id() == old(self).router.next_id(),
            final(self).pending == old(self).pending,
            final(self).compositor == old(self).compositor,
            final(self).layer_shell == old(self).layer_shell,
            final(self).xdg_wm_base == old(self).xdg_wm_base,
    {
        let compositor = self.compositor.unwrap();
        let surface = new_object(ids, "wl_surface");
        send_create_surface(out, compositor, surface, little);
        let c = match &p.kind {
            WindowKind::LayerShell { layer, anchor, exclusive_zone, namespace, keyboard_interactivity } => {
                let layer_shell = self.layer_shell.unwrap();
                let role = new_object(ids, "zwlr_layer_surface_v1");
                send_layer_requests(
                    out,
                    layer_shell,
                    role,
                    surface,
                    p.width,
                    p.height,
                    *layer,
                    *anchor,
                    *exclusive_zone,
                    namespace,
                    *keyboard_interactivity,
                    little,
                );
                CreatedWindow { id: p.id, surface, role, toplevel: 0 }
            },
            WindowKind::Xdg { title } => {
                let xdg_wm_base = self.xdg_wm_base.unwrap();
                let role = new_object(ids, "xdg_surface");
                let toplevel = new_object(ids, "xdg_toplevel");
                send_toplevel_requests(out, xdg_wm_base, role, toplevel, surface, title, little);
                CreatedWindow { id: p.id, surface, role, toplevel }
            },
        };
        self.router.register_window(p.id, surface, c.role);
        send_no_args(out, surface, 6, little);
        reveal(window_bytes);
        assert(out@ =~= old(out)@ + window_bytes(
            *p,
            c,
            old(self).compositor.unwrap(),
            old(self).layer_shell.unwrap(),
            old(self).xdg_wm_base.unwrap(),
            little,
        ));
        c
    }
    /// Creates every pending window, in the order they were spawned: for
    /// each, a surface and its role objects get ids from `ids`, the requests
    /// of `window_bytes` are sent, and the surface and role object are
    /// routed to the window. The new ids are fresh and distinct (the table
    /// must hand out only ids not already in use, `ids_below`), each a
    /// freed id of the table or one it never handed out, so no route of an
    /// object still live is overwritten. Returns what was created, in the
    /// same order.
    #[verifier::rlimit(40)]
    pub fn flush_pending(&mut self, out: &mut Vec<u8>, ids: &mut ObjectTable, little: bool) -> (created: Vec<CreatedWindow>)
        requires
            old(ids).wf(),
            ids_below(*old(ids)),
            old(ids).next_fresh() + 3 * old(self).pending@.len() <= u32::MAX,
            forall|i: int|
                0 <= i < old(self).pending@.len() ==> can_create(
                    #[trigger] old(self).pending@[i],
                    old(self).compositor,
                    old(self).layer_shell,
                    old(self).xdg_wm_base,
                ),
        ensures
            final(ids).wf(),
            ids_below(*final(ids)),
            final(ids).next_fresh() <= old(ids).next_fresh() + 3 * old(self).pending@.len(),
            created_live(old(ids).live(), final(ids).live(), old(self).pending@, created@),
            drawn_from(*old(ids), *final(ids), old(self).pending@, created@),
            routes_kept(old(self).router.surfaces(), final(self).router.surfaces(), old(ids).live(), created@, true),
            routes_kept(old(self).router.roles(), final(self).router.roles(), old(ids).live(), created@, false),
            final(self).pending@.len() == 0,
            created@.len() == old(self).pending@.len(),
            forall|i: int|
                0 <= i < created@.len() ==> (#[trigger] created@[i]).id == old(self).pending@[i].id
                    && (old(self).pending@[i].kind is LayerShell ==> created@[i].toplevel == 0),
            final(out)@ == old(out)@ + windows_bytes(
                old(self).pending@,
                created@,
                old(self).compositor.unwrap(),
                old(self).layer_shell.unwrap(),
                old(self).xdg_wm_base.unwrap(),
                little,
            ),
            final(self).router.surfaces() == routed_surfaces(old(self).router.surfaces(), created@),
            final(self).router.roles() == routed_roles(old(self).router.roles(), created@),
            final(self).router.next_id() == old(self).router.next_id(),
            final(self).compositor == old(self).compositor,
            final(self).layer_shell == old(self).layer_shell,
            final(self).xdg_wm_base == old(self).xdg_wm_base,
    {
        let mut pending: Vec<PendingWindow> = Vec::new();
        std::mem::swap(&mut pending, &mut self.pending);
        let ghost ps = pending@;
        let ghost out0 = out@;
        let ghost n0 = ids.next_fresh();
        let ghost s0 = self.router.surfaces();
        let ghost r0 = self.router.roles();
        let mut created: Vec<CreatedWindow> = Vec::new();
        let mut i: usize = 0;
        proof {
            assert(created_live(old(ids).live(), ids.live(), ps, created@));
            assert(drawn_from(*old(ids), *ids, ps, created@));
        }
        while i < pending.len()
            invariant
                pending@ == ps,
                ps == old(self).pending@,
                i <= ps.len(),
                created@.len() == i,
                self.pending@.len() == 0,
                ids.wf(),
                ids.next_fresh() <= n0 + 3 * i,
                n0 == old(ids).next_fresh(),
                n0 + 3 * ps.len() <= u32::MAX,
                self.compositor == old(self).compositor,
                self.layer_shell == old(self).layer_shell,
                self.xdg_wm_base == old(self).xdg_wm_base,
                self.router.next_id() == old(self).router.next_id(),
                forall|j: int| 0 <= j < ps.len() ==> can_create(#[trigger] ps[j], self.compositor, self.layer_shell, self.xdg_wm_base),
                forall|j: int|
                    0 <= j < created@.len() ==> (#[trigger] created@[j]).id == ps[j].id
                        && (ps[j].kind is LayerShell ==> created@[j].toplevel == 0),
                out@ == out0 + windows_bytes(
                    ps.take(i as int),
                    created@,
                    self.compositor.unwrap(),
                    self.layer_shell.unwrap(),
                    self.xdg_wm_base.unwrap(),
                    little,
                ),
                out0 == old(out)@,
                self.router.surfaces() == routed_surfaces(s0, created@),
                self.router.roles() == routed_roles(r0, created@),
                s0 == old(self).router.surfaces(),
                r0 == old(self).router.roles(),
                ids_below(*ids),
                created_live(old(ids).live(), ids.live(), ps, created@),
                drawn_from(*old(ids), *ids, ps, created@),
                routes_kept(s0, self.router.surfaces(), old(ids).live(), created@, true),
                routes_kept(r0, self.router.roles(), old(ids).live(), created@, false),
            decreases ps.len() - i,
        {
            let ghost c0 = created@;
            let ghost m1 = ids.live();
            let ghost t1 = *ids;
            let ghost sr1 = self.router.surfaces();
            let ghost rr1 = self.router.roles();
            let c = self.create_window(&pending[i], out, ids, little);
            proof {
                lemma_flush_step(old(ids).live(), m1, ids.live(), ps, c0, c, s0, sr1, r0, rr1);
                lemma_drawn_step(*old(ids), t1, *ids, ps, c0, c);
            }
            created.push(c);
            proof {
                let g = (self.compositor.unwrap(), self.layer_shell.unwrap(), self.xdg_wm_base.unwrap());
                assert(ps.take(i + 1).drop_last() =~= ps.take(i as int));
                assert(created@.drop_last() =~= c0);
                assert(ps.take(i + 1).last() == ps[i as int]);
                assert(windows_bytes(ps.take(i + 1), created@, g.0, g.1, g.2, little) == windows_bytes(
                    ps.take(i as int),
                    c0,
                    g.0,
                    g.1,
                    g.2,
                    little,
                ) + window_bytes(ps[i as int], c, g.0, g.1, g.2, little));
                assert(routed_surfaces(s0, created@) == routed_surfaces(s0, c0).insert(c.surface, c.id));
                assert(routed_roles(r0, created@) == routed_roles(r0, c0).insert(c.role, c.id));
            }
            i = i + 1;
        }
        assert(ps.take(ps.len() as int) =~= ps);
        created
    }
}

} // verus!
