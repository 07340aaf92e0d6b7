//! Lock screen state: the lock mode, the outputs bound so far, and the
//! double-buffered presentation of a lock surface (which buffer to draw
//! into next, frame pacing, buffer release).
use std::collections::HashMap;

use vstd::prelude::*;

use crate::server::ObjectTable;
use crate::wire::{encode_message, message_bytes, push_word, word_bytes};

verus! {

broadcast use vstd::std_specs::hash::group_hash_axioms;

/// Where the session lock stands.
#[derive(Clone, Copy, Debug, PartialEq, Eq, Structural)]
pub enum LockMode {
    Unlocked,
    Locking,
    Locked,
}

impl Default for LockMode {
    fn default() -> (m: LockMode)
        ensures
            m == LockMode::Unlocked,
    {
        LockMode::Unlocked
    }
}

/// Where the standalone lock screen stands.
#[derive(Clone, Copy, Debug, PartialEq, Eq, Structural)]
pub enum AppStateMode {
    Unlocked,
    Locking,
    Locked,
}

impl Default for AppStateMode {
    fn default() -> (m: AppStateMode)
        ensures
            m == AppStateMode::Unlocked,
    {
        AppStateMode::Unlocked
    }
}

/// An output global and the object id it was bound to.
#[derive(Clone, Copy, Debug, PartialEq, Eq, Structural)]
pub struct OutputInfo {
    pub global_name: u32,
    pub id: u32,
}

/// The object id of the first entry of `outputs` for global `name`.
pub open spec fn first_output(outputs: Seq<OutputInfo>, name: u32) -> Option<u32>
    decreases outputs.len(),
{
    if outputs.len() == 0 {
        None
    } else if outputs[0].global_name == name {
        Some(outputs[0].id)
    } else {
        first_output(outputs.drop_first(), name)
    }
}

/// No entry of `outputs` is for global `name` exactly when there is no
/// first one.
pub proof fn lemma_first_output_none(outputs: Seq<OutputInfo>, name: u32)
    ensures
        first_output(outputs, name) is None <==> forall|i: int| 0 <= i < outputs.len() ==> #[trigger] outputs[i].global_name != name,
    decreases outputs.len(),
{
    if outputs.len() > 0 {
        lemma_first_output_none(outputs.drop_first(), name);
        if outputs[0].global_name != name {
            assert forall|i: int| 0 <= i < outputs.len() && (forall|j: int| 0 <= j < outputs.drop_first().len() ==> #[trigger] outputs.drop_first()[j].global_name != name)
                implies #[trigger] outputs[i].global_name != name by {
                if i > 0 {
                    assert(outputs[i] == outputs.drop_first()[i - 1]);
                }
            }
            assert forall|j: int| 0 <= j < outputs.drop_first().len() && (forall|i: int| 0 <= i < outputs.len() ==> #[trigger] outputs[i].global_name != name)
                implies #[trigger] outputs.drop_first()[j].global_name != name by {
                assert(outputs.drop_first()[j] == outputs[j + 1]);
            }
        }
    }
}

/// Appending entries for other globals keeps the first entry of `name`.
pub proof fn lemma_first_output_append(outputs: Seq<OutputInfo>, more: Seq<OutputInfo>, name: u32)
    requires
        forall|i: int| 0 <= i < more.len() ==> #[trigger] more[i].global_name != name,
    ensures
        first_output(outputs + more, name) == first_output(outputs, name),
    decreases outputs.len(),
{
    if outputs.len() == 0 {
        assert(outputs + more =~= more);
        lemma_first_output_none(more, name);
    } else {
        assert((outputs + more).drop_first() =~= outputs.drop_first() + more);
        lemma_first_output_append(outputs.drop_first(), more, name);
    }
}

/// The object id bound for output global `name`, if it was bound (the
/// first entry for it).
pub fn find_output(outputs: &[OutputInfo], name: u32) -> (r: Option<u32>)
    ensures
        r == first_output(outputs@, name),
{
    let mut i: usize = 0;
    assert(outputs@.subrange(0, outputs@.len() as int) =~= outputs@);
    while i < outputs.len()
        invariant
            i <= outputs@.len(),
            first_output(outputs@, name) == first_output(outputs@.subrange(i as int, outputs@.len() as int), name),
        decreases outputs@.len() - i,
    {
        let ghost rest = outputs@.subrange(i as int, outputs@.len() as int);
        if outputs[i].global_name == name {
            return Some(outputs[i].id);
        }
        assert(rest.drop_first() =~= outputs@.subrange(i + 1, outputs@.len() as int));
        i = i + 1;
    }
    None
}

/// A lock surface with two buffers, drawn into alternately.
pub struct Surface<B> {
    pub wl_surface_id: u32,
    pub size: (i32, i32),
    pub dmabuf: [Option<B>; 2],
    pub wl_buf_ids: [u32; 2],
    pub buf_in_flight: [bool; 2],
    pub frame_callback_pending: bool,
    pub dirty: bool,
}

/// The buffer to draw into next: the first one the compositor is not
/// holding.
pub open spec fn free_index(in_flight: [bool; 2]) -> Option<usize> {
    if !in_flight[0] {
        Some(0usize)
    } else if !in_flight[1] {
        Some(1usize)
    } else {
        None
    }
}

/// `in_flight` with buffer `i` marked held by the compositor.
pub open spec fn mark_held(in_flight: [bool; 2], i: usize) -> Seq<bool> {
    in_flight@.update(i as int, true)
}

/// `after` is the id table `before` once `id` was handed out (a freed
/// id if any was free, else the next fresh one) and recorded as a live
/// object of interface `iface`.
pub open spec fn allocated(before: ObjectTable, after: ObjectTable, id: u32, iface: Seq<char>) -> bool {
    &&& after.live() == before.live().insert(id, iface)
    &&& before.freed().len() > 0 ==> before.freed().contains(id) && after.freed() == before.freed().remove(id)
        && after.next_fresh() == before.next_fresh()
    &&& before.freed().len() == 0 ==> id == before.next_fresh() && after.freed() == before.freed()
        && after.next_fresh() == before.next_fresh() + 1
}

/// The requests that show a frame of surface `surface` from buffer
/// `buffer`: `attach` at (0, 0), `damage` of the whole `size`, `frame`
/// creating callback `callback`, and `commit`.
pub open spec fn present_bytes(surface: u32, buffer: u32, callback: u32, size: (i32, i32), little: bool) -> Seq<u8> {
    message_bytes(surface, 1, word_bytes(buffer, little) + word_bytes(0, little) + word_bytes(0, little), little)
        + message_bytes(
        surface,
        2,
        word_bytes(0, little) + word_bytes(0, little) + word_bytes(size.0 as u32, little) + word_bytes(
            size.1 as u32,
            little,
        ),
        little,
    ) + message_bytes(surface, 3, word_bytes(callback, little), little) + message_bytes(surface, 6, Seq::empty(), little)
}

/// Sends `attach` of `buffer` at (0, 0) and `damage` of the whole `w` x `h`
/// surface.
fn send_attach_damage(out: &mut Vec<u8>, surface: u32, buffer: u32, w: i32, h: i32, little: bool)
    ensures
        final(out)@ == old(out)@ + message_bytes(
            surface,
            1,
            word_bytes(buffer, little) + word_bytes(0, little) + word_bytes(0, little),
            little,
        ) + message_bytes(
            surface,
            2,
            word_bytes(0, little) + word_bytes(0, little) + word_bytes(w as u32, little) + word_bytes(h as u32, little),
            little,
        ),
{
    let mut attach: Vec<u8> = Vec::new();
    push_word(&mut attach, buffer, little);
    push_word(&mut attach, 0, little);
    push_word(&mut attach, 0, little);
    encode_message(out, surface, 1, attach.as_slice(), little);
    let mut damage: Vec<u8> = Vec::new();
    push_word(&mut damage, 0, little);
    push_word(&mut damage, 0, little);
    push_word(&mut damage, w as u32, little);
    push_word(&mut damage, h as u32, little);
    encode_message(out, surface, 2, damage.as_slice(), little);
    assert(out@ =~= old(out)@ + message_bytes(
        surface,
        1,
        word_bytes(buffer, little) + word_bytes(0, little) + word_bytes(0, little),
        little,
    ) + message_bytes(
        surface,
        2,
        word_bytes(0, little) + word_bytes(0, little) + word_bytes(w as u32, little) + word_bytes(h as u32, little),
        little,
    ));
}

/// Sends `frame` creating `callback`, then `commit`.
fn send_frame_commit(out: &mut Vec<u8>, surface: u32, callback: u32, little: bool)
    ensures
        final(out)@ == old(out)@ + message_bytes(surface, 3, word_bytes(callback, little), little) + message_bytes(
            surface,
            6,
            Seq::empty(),
            little,
        ),
{
    let mut frame: Vec<u8> = Vec::new();
    push_word(&mut frame, callback, little);
    encode_message(out, surface, 3, frame.as_slice(), little);
    let commit: Vec<u8> = Vec::new();
    encode_message(out, surface, 6, commit.as_slice(), little);
    assert(out@ =~= old(out)@ + message_bytes(surface, 3, word_bytes(callback, little), little) + message_bytes(
        surface,
        6,
        Seq::empty(),
        little,
    ));
}

impl<B> Surface<B> {
    /// A surface with no buffers yet.
    pub fn new(wl_surface_id: u32) -> (s: Self)
        ensures
            s.wl_surface_id == wl_surface_id,
            s.size == (0i32, 0i32),
            s.dmabuf[0] is None && s.dmabuf[1] is None,
            s.wl_buf_ids@ == seq![0u32, 0u32],
            s.buf_in_flight@ == seq![false, false],
            !s.frame_callback_pending,
            !s.dirty,
    {
        Surface {
            wl_surface_id,
            size: (0, 0),
            dmabuf: [None, None],
            wl_buf_ids: [0, 0],
            buf_in_flight: [false, false],
            frame_callback_pending: false,
            dirty: false,
        }
    }

    /// Installs a new pair of `w` x `h` buffers (`b0`, `b1`, known to the
    /// compositor as `id0`, `id1`), both free; hands back the buffers they
    /// replace, to be destroyed.
    pub fn set_buffers(&mut self, w: i32, h: i32, b0: B, b1: B, id0: u32, id1: u32) -> (old_bufs: Vec<B>)
        ensures
            final(self).size == (w, h),
            final(self).dmabuf[0] == Some(b0) && final(self).dmabuf[1] == Some(b1),
            final(self).wl_buf_ids@ == seq![id0, id1],
            final(self).buf_in_flight@ == seq![false, false],
            final(self).wl_surface_id == old(self).wl_surface_id,
            final(self).frame_callback_pending == old(self).frame_callback_pending,
            final(self).dirty == old(self).dirty,
            old_bufs@ == (match (old(self).dmabuf[0], old(self).dmabuf[1]) {
                (Some(a), Some(b)) => seq![a, b],
                (Some(a), None) => seq![a],
                (None, Some(b)) => seq![b],
                (None, None) => Seq::<B>::empty(),
            }),
    {
        self.size = (w, h);
        let a = self.dmabuf[0].take();
        let b = self.dmabuf[1].take();
        self.dmabuf[0] = Some(b0);
        self.dmabuf[1] = Some(b1);
        self.wl_buf_ids = [id0, id1];
        self.buf_in_flight = [false, false];
        let mut v: Vec<B> = Vec::new();
        if let Some(x) = a {
            v.push(x);
        }
        if let Some(y) = b {
            v.push(y);
        }
        v
    }

    /// A free buffer index, or `None` if both are held by the compositor.
    pub fn free_buf_idx(&self) -> (r: Option<usize>)
        ensures
            r == free_index(self.buf_in_flight),
    {
        if !self.buf_in_flight[0] {
            Some(0)
        } else if !self.buf_in_flight[1] {
            Some(1)
        } else {
            None
        }
    }

    /// Submits a new frame at once, when a buffer is free: the frame is
    /// drawn into buffer `r` (by the caller, before the requests go out),
    /// which is attached, damaged whole, given a new frame callback
    /// (recorded in `callback_map` under this surface) and committed, and
    /// is then held by the compositor. `None`, and nothing sent, when both
    /// buffers are held.
    pub fn present(
        &mut self,
        out: &mut Vec<u8>,
        ids: &mut ObjectTable,
        callback_map: &mut HashMap<u32, u32>,
        little: bool,
    ) -> (r: Option<usize>)
        requires
            old(ids).wf(),
            old(ids).next_fresh() < u32::MAX,
            free_index(old(self).buf_in_flight) matches Some(i) ==> old(self).dmabuf[i as int] is Some,
        ensures
            r == free_index(old(self).buf_in_flight),
            final(ids).wf(),
            r is None ==> {
                &&& *final(self) == *old(self)
                &&& final(out)@ == old(out)@
                &&& *final(ids) == *old(ids)
                &&& final(callback_map)@ == old(callback_map)@
            },
            r matches Some(i) ==> exists|cb: u32| {
                &&& allocated(*old(ids), *final(ids), cb, "wl_callback"@)
                &&& final(callback_map)@ == old(callback_map)@.insert(cb, old(self).wl_surface_id)
                &&& final(out)@ == old(out)@ + present_bytes(
                    old(self).wl_surface_id,
                    old(self).wl_buf_ids[i as int],
                    cb,
                    old(self).size,
                    little,
                )
                &&& final(self).buf_in_flight@ == mark_held(old(self).buf_in_flight, i)
                &&& *final(self) == (Surface { buf_in_flight: final(self).buf_in_flight, ..*old(self) })
            },
    {
        let idx = self.free_buf_idx();
        match idx {
            None => None,
            Some(i) => {
                let (w, h) = self.size;
                send_attach_damage(out, self.wl_surface_id, self.wl_buf_ids[i], w, h, little);
                let ghost t0 = *ids;
                proof {
                    t0.lemma_freed_finite();
                    vstd::set_lib::lemma_set_empty_equivalency_len(t0.freed());
                }
                let cb = ids.alloc_id();
                ids.register(cb, "wl_callback");
                proof {
                    if t0.freed().len() > 0 {
                        assert(ids.freed() =~= t0.freed().remove(cb.0));
                    } else {
                        assert(t0.freed() =~= Set::<u32>::empty());
                        assert(ids.freed() =~= t0.freed());
                    }
                }
                callback_map.insert(cb.0, self.wl_surface_id);
                send_frame_commit(out, self.wl_surface_id, cb.0, little);
                self.buf_in_flight[i] = true;
                proof {
                    assert(self.buf_in_flight@ =~= mark_held(old(self).buf_in_flight, i));
                    assert(out@ =~= old(out)@ + present_bytes(
                        old(self).wl_surface_id,
                        old(self).wl_buf_ids[i as int],
                        cb.0,
                        old(self).size,
                        little,
                    ));
                    assert(allocated(*old(ids), *ids, cb.0, "wl_callback"@));
                }
                Some(i)
            },
        }
    }

    /// Asks for a redraw: submits a frame at once when possible (see
    /// `present`), after which the surface is clean and waits for its frame
    /// callback; otherwise (a frame callback is pending, or both buffers
    /// are held) only marks it dirty.
    pub fn request_redraw(
        &mut self,
        out: &mut Vec<u8>,
        ids: &mut ObjectTable,
        callback_map: &mut HashMap<u32, u32>,
        little: bool,
    ) -> (r: Option<usize>)
        requires
            old(ids).wf(),
            old(ids).next_fresh() < u32::MAX,
            free_index(old(self).buf_in_flight) matches Some(i) ==> old(self).dmabuf[i as int] is Some,
        ensures
            final(ids).wf(),
            old(self).frame_callback_pending ==> r is None,
            !old(self).frame_callback_pending ==> r == free_index(old(self).buf_in_flight),
            r is None ==> {
                &&& *final(self) == (Surface { dirty: true, ..*old(self) })
                &&& final(out)@ == old(out)@
                &&& *final(ids) == *old(ids)
                &&& final(callback_map)@ == old(callback_map)@
            },
            r matches Some(i) ==> exists|cb: u32| {
                &&& allocated(*old(ids), *final(ids), cb, "wl_callback"@)
                &&& final(callback_map)@ == old(callback_map)@.insert(cb, old(self).wl_surface_id)
                &&& final(out)@ == old(out)@ + present_bytes(
                    old(self).wl_surface_id,
                    old(self).wl_buf_ids[i as int],
                    cb,
                    old(self).size,
                    little,
                )
                &&& final(self).buf_in_flight@ == mark_held(old(self).buf_in_flight, i)
                &&& *final(self) == (Surface {
                    buf_in_flight: final(self).buf_in_flight,
                    frame_callback_pending: true,
                    dirty: false,
                    ..*old(self)
                })
            },
    {
        if self.frame_callback_pending {
            self.dirty = true;
            return None;
        }
        let r = self.present(out, ids, callback_map, little);
        if r.is_some() {
            self.frame_callback_pending = true;
            self.dirty = false;
        } else {
            self.dirty = true;
        }
        r
    }

    /// The frame callback fired: no callback is pending any more, and if
    /// the content is dirty the next frame is submitted as `request_redraw`
    /// does. A clean surface is left clean and nothing is sent.
    pub fn on_frame_done(
        &mut self,
        out: &mut Vec<u8>,
        ids: &mut ObjectTable,
        callback_map: &mut HashMap<u32, u32>,
        little: bool,
    ) -> (r: Option<usize>)
        requires
            old(ids).wf(),
            old(ids).next_fresh() < u32::MAX,
            free_index(old(self).buf_in_flight) matches Some(i) ==> old(self).dmabuf[i as int] is Some,
        ensures
            final(ids).wf(),
            r == (if old(self).dirty { free_index(old(self).buf_in_flight) } else { None }),
            r is None ==> {
                &&& *final(self) == (Surface { frame_callback_pending: false, ..*old(self) })
                &&& final(out)@ == old(out)@
                &&& *final(ids) == *old(ids)
                &&& final(callback_map)@ == old(callback_map)@
            },
            r matches Some(i) ==> exists|cb: u32| {
                &&& allocated(*old(ids), *final(ids), cb, "wl_callback"@)
                &&& final(callback_map)@ == old(callback_map)@.insert(cb, old(self).wl_surface_id)
                &&& final(out)@ == old(out)@ + present_bytes(
                    old(self).wl_surface_id,
                    old(self).wl_buf_ids[i as int],
                    cb,
                    old(self).size,
                    little,
                )
                &&& final(self).buf_in_flight@ == mark_held(old(self).buf_in_flight, i)
                &&& *final(self) == (Surface {
                    buf_in_flight: final(self).buf_in_flight,
                    frame_callback_pending: true,
                    dirty: false,
                    ..*old(self)
                })
            },
    {
        self.frame_callback_pending = false;
        if !self.dirty {
            return None;
        }
        let r = self.present(out, ids, callback_map, little);
        if r.is_some() {
            self.frame_callback_pending = true;
            self.dirty = false;
        }
        r
    }

    /// The compositor released buffer `buf_id`: it is free again. Returns
    /// whether the buffer is one of this surface's.
    pub fn on_buffer_release(&mut self, buf_id: u32) -> (r: bool)
        ensures
            r == (old(self).wl_buf_ids[0] == buf_id || old(self).wl_buf_ids[1] == buf_id),
            old(self).wl_buf_ids[0] == buf_id ==> final(self).buf_in_flight@ == old(self).buf_in_flight@.update(0, false),
            old(self).wl_buf_ids[0] != buf_id && old(self).wl_buf_ids[1] == buf_id
                ==> final(self).buf_in_flight@ == old(self).buf_in_flight@.update(1, false),
            !r ==> final(self).buf_in_flight == old(self).buf_in_flight,
            final(self).wl_buf_ids == old(self).wl_buf_ids,
            final(self).wl_surface_id == old(self).wl_surface_id,
            final(self).size == old(self).size,
            final(self).dmabuf == old(self).dmabuf,
            final(self).frame_callback_pending == old(self).frame_callback_pending,
            final(self).dirty == old(self).dirty,
    {
        let mut i: usize = 0;
        while i < 2
            invariant
                i <= 2,
                self.buf_in_flight == old(self).buf_in_flight,
                self.wl_buf_ids == old(self).wl_buf_ids,
                self.wl_surface_id == old(self).wl_surface_id,
                self.size == old(self).size,
                self.dmabuf == old(self).dmabuf,
                self.frame_callback_pending == old(self).frame_callback_pending,
                self.dirty == old(self).dirty,
                forall|j: int| 0 <= j < i ==> self.wl_buf_ids[j] != buf_id,
            decreases 2 - i,
        {
            if self.wl_buf_ids[i] == buf_id {
                self.buf_in_flight[i] = false;
                return true;
            }
            i = i + 1;
        }
        false
    }

    /// Hands back the buffers, to be destroyed; the surface object itself
    /// is left to the compositor.
    pub fn destroy(self) -> (bufs: Vec<B>)
        ensures
            bufs@ == (match (self.dmabuf[0], self.dmabuf[1]) {
                (Some(a), Some(b)) => seq![a, b],
                (Some(a), None) => seq![a],
                (None, Some(b)) => seq![b],
                (None, None) => Seq::<B>::empty(),
            }),
    {
        let mut pair = self.dmabuf;
        let a = pair[0].take();
        let b = pair[1].take();
        let mut v: Vec<B> = Vec::new();
        if let Some(x) = a {
            v.push(x);
        }
        if let Some(y) = b {
            v.push(y);
        }
        v
    }
}

} // verus!
