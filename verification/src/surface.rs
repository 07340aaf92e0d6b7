//! Compositor-side `wl_surface` state: double-buffered pending and current
//! state, damage accumulation, frame and release callbacks, surface roles,
//! and the regions that clients build for opaque and input areas.
use std::collections::HashMap;
use std::rc::Rc;

use smallvec::SmallVec;
use vstd::prelude::*;

use crate::rect::{sat_add_i32, saturating_add_i32, Rect};
use crate::region::{Region, RegionBuilder};
use crate::wire::ObjectId;

verus! {

broadcast use vstd::std_specs::hash::group_hash_axioms;

/// Past this many damage rectangles a surface is simply damaged whole.
pub const MAX_DAMAGE: usize = 32;

/// A damaged area as the client sent it.
#[derive(Debug, Clone, Copy, PartialEq, Eq, Structural)]
pub struct DamageRect {
    pub x: i32,
    pub y: i32,
    pub width: i32,
    pub height: i32,
}

/// Damage rectangles kept in a `smallvec::SmallVec` with room for four
/// inline.
#[verifier::external_body]
#[derive(Debug)]
pub struct DamageList {
    items: SmallVec<[DamageRect; 4]>,
}

/// The rectangles held by a damage list, in order.
pub uninterp spec fn damage_items(l: DamageList) -> Seq<DamageRect>;

/// `SmallVec::new`: an empty list.
#[verifier::external_body]
fn damage_new() -> (l: DamageList)
    ensures
        damage_items(l) == Seq::<DamageRect>::empty(),
{
    DamageList { items: SmallVec::new() }
}

/// `SmallVec::push`: appends one item at the end.
#[verifier::external_body]
fn damage_push(l: &mut DamageList, r: DamageRect)
    ensures
        damage_items(*final(l)) == damage_items(*old(l)).push(r),
{
    l.items.push(r)
}

/// `SmallVec::clear`: removes every item.
#[verifier::external_body]
fn damage_clear(l: &mut DamageList)
    ensures
        damage_items(*final(l)) == Seq::<DamageRect>::empty(),
{
    l.items.clear()
}

/// `SmallVec::len`: the number of items.
#[verifier::external_body]
fn damage_len(l: &DamageList) -> (n: usize)
    ensures
        n == damage_items(*l).len(),
{
    l.items.len()
}

/// `SmallVec::as_slice`: all items, in order.
#[verifier::external_body]
fn damage_as_slice(l: &DamageList) -> (s: &[DamageRect])
    ensures
        s@ == damage_items(*l),
{
    l.items.as_slice()
}

impl DamageList {
    /// The rectangles, in the order they were added.
    pub fn as_slice(&self) -> (s: &[DamageRect])
        ensures
            s@ == damage_items(*self),
    {
        damage_as_slice(self)
    }
}

/// Callback objects kept in a `smallvec::SmallVec` with room for one
/// inline.
#[verifier::external_body]
#[derive(Debug)]
pub struct CallbackList {
    items: SmallVec<[ObjectId; 1]>,
}

/// The callback ids held by a list, in order.
pub uninterp spec fn callback_items(l: CallbackList) -> Seq<ObjectId>;

/// `SmallVec::new`: an empty list.
#[verifier::external_body]
fn callbacks_new() -> (l: CallbackList)
    ensures
        callback_items(l) == Seq::<ObjectId>::empty(),
{
    CallbackList { items: SmallVec::new() }
}

/// `SmallVec::push`: appends one item at the end.
#[verifier::external_body]
fn callbacks_push(l: &mut CallbackList, c: ObjectId)
    ensures
        callback_items(*final(l)) == callback_items(*old(l)).push(c),
{
    l.items.push(c)
}

/// `SmallVec::clear`: removes every item.
#[verifier::external_body]
fn callbacks_clear(l: &mut CallbackList)
    ensures
        callback_items(*final(l)) == Seq::<ObjectId>::empty(),
{
    l.items.clear()
}

/// `SmallVec::is_empty`: whether there is no item.
#[verifier::external_body]
fn callbacks_is_empty(l: &CallbackList) -> (b: bool)
    ensures
        b == (callback_items(*l).len() == 0),
{
    l.items.is_empty()
}

/// `SmallVec::append`: moves all items of `b` to the end of `a`, leaving
/// `b` empty.
#[verifier::external_body]
fn callbacks_append(a: &mut CallbackList, b: &mut CallbackList)
    ensures
        callback_items(*final(a)) == callback_items(*old(a)) + callback_items(*old(b)),
        callback_items(*final(b)) == Seq::<ObjectId>::empty(),
{
    a.items.append(&mut b.items)
}

/// `SmallVec::drain(..)`, collected: every item, in order, leaving the
/// list empty.
#[verifier::external_body]
fn callbacks_drain(l: &mut CallbackList) -> (v: Vec<ObjectId>)
    ensures
        v@ == callback_items(*old(l)),
        callback_items(*final(l)) == Seq::<ObjectId>::empty(),
{
    l.items.drain(..).collect()
}

/// `SmallVec::as_slice`: all items, in order.
#[verifier::external_body]
fn callbacks_as_slice(l: &CallbackList) -> (s: &[ObjectId])
    ensures
        s@ == callback_items(*l),
{
    l.items.as_slice()
}

impl CallbackList {
    /// The callback ids, in the order they were requested.
    pub fn as_slice(&self) -> (s: &[ObjectId])
        ensures
            s@ == callback_items(*self),
    {
        callbacks_as_slice(self)
    }
}

/// The state a surface shows: what the last commit applied.
#[derive(Debug)]
pub struct CurrentState {
    pub buffer: Option<ObjectId>,
    pub offset_x: i32,
    pub offset_y: i32,
    pub scale: i32,
    pub transform: i32,
    pub opaque_region: Option<Rc<Region>>,
    pub input_region: Option<Rc<Region>>,
    pub damage_full: bool,
    pub surface_damage: DamageList,
    pub buffer_damage: DamageList,
    pub frame_callbacks: CallbackList,
    pub release_callbacks: CallbackList,
}

impl CurrentState {
    fn new() -> (s: Self)
        ensures
            s.buffer is None,
            s.offset_x == 0 && s.offset_y == 0,
            s.scale == 1 && s.transform == 0,
            s.opaque_region is None && s.input_region is None,
            !s.damage_full,
            damage_items(s.surface_damage).len() == 0,
            damage_items(s.buffer_damage).len() == 0,
            callback_items(s.frame_callbacks).len() == 0,
            callback_items(s.release_callbacks).len() == 0,
    {
        CurrentState {
            buffer: None,
            offset_x: 0,
            offset_y: 0,
            scale: 1,
            transform: 0,
            opaque_region: None,
            input_region: None,
            damage_full: false,
            surface_damage: damage_new(),
            buffer_damage: damage_new(),
            frame_callbacks: callbacks_new(),
            release_callbacks: callbacks_new(),
        }
    }
}

/// The state a client has requested since its last commit; `None` in an
/// optional field means "leave unchanged".
#[derive(Debug)]
pub struct PendingState {
    pub buffer: Option<Option<ObjectId>>,
    pub offset_x: i32,
    pub offset_y: i32,
    pub scale: i32,
    pub transform: i32,
    pub opaque_region: Option<Option<Rc<Region>>>,
    pub input_region: Option<Option<Rc<Region>>>,
    pub damage_full: bool,
    pub surface_damage: DamageList,
    pub buffer_damage: DamageList,
    pub frame_callbacks: CallbackList,
    pub release_callbacks: CallbackList,
}

impl PendingState {
    fn new() -> (s: Self)
        ensures
            s.buffer is None,
            s.offset_x == 0 && s.offset_y == 0,
            s.scale == 1 && s.transform == 0,
            s.opaque_region is None && s.input_region is None,
            !s.damage_full,
            damage_items(s.surface_damage).len() == 0,
            damage_items(s.buffer_damage).len() == 0,
            callback_items(s.frame_callbacks).len() == 0,
            callback_items(s.release_callbacks).len() == 0,
    {
        PendingState {
            buffer: None,
            offset_x: 0,
            offset_y: 0,
            scale: 1,
            transform: 0,
            opaque_region: None,
            input_region: None,
            damage_full: false,
            surface_damage: damage_new(),
            buffer_damage: damage_new(),
            frame_callbacks: callbacks_new(),
            release_callbacks: callbacks_new(),
        }
    }
}

/// What a surface is used as; a surface keeps one kind of role for life.
#[derive(Debug)]
pub enum SurfaceRole {
    XdgSurface(ObjectId),
    LayerSurface(ObjectId),
    LockSurface(ObjectId),
    Cursor,
}

/// The kind of a role: 1 xdg, 2 layer, 3 lock, 4 cursor.
pub open spec fn role_kind(r: SurfaceRole) -> u8 {
    match r {
        SurfaceRole::XdgSurface(_) => 1,
        SurfaceRole::LayerSurface(_) => 2,
        SurfaceRole::LockSurface(_) => 3,
        SurfaceRole::Cursor => 4,
    }
}

impl SurfaceRole {
    /// The kind of the role.
    pub fn kind(&self) -> (k: u8)
        ensures
            k == role_kind(*self),
    {
        match self {
            SurfaceRole::XdgSurface(_) => 1,
            SurfaceRole::LayerSurface(_) => 2,
            SurfaceRole::LockSurface(_) => 3,
            SurfaceRole::Cursor => 4,
        }
    }
}

/// Everything the compositor knows of one surface.
#[derive(Debug)]
pub struct SurfaceData {
    pub current: CurrentState,
    pub pending: PendingState,
    pub id: ObjectId,
    pub output: Option<ObjectId>,
    pub previous_buffer: Option<ObjectId>,
    pub role: Option<SurfaceRole>,
}

/// A region slot holds a well-formed region, if any.
pub open spec fn region_ok(r: Option<Rc<Region>>) -> bool {
    r matches Some(g) ==> g.wf()
}

/// A pending region update holds a well-formed region, if any.
pub open spec fn pending_region_ok(r: Option<Option<Rc<Region>>>) -> bool {
    r matches Some(Some(g)) ==> g.wf()
}

/// The damage list after adding `r` (whole-surface damage past the limit).
pub open spec fn damage_after(full: bool, items: Seq<DamageRect>, r: DamageRect) -> (bool, Seq<DamageRect>) {
    if full {
        (full, items)
    } else if items.len() >= MAX_DAMAGE {
        (true, Seq::empty())
    } else {
        (false, items.push(r))
    }
}

/// Records damage `r` in `tgt`, or marks the whole surface damaged once
/// the list is full.
fn add_damage(full: &mut bool, tgt: &mut DamageList, r: DamageRect)
    ensures
        (*final(full), damage_items(*final(tgt))) == damage_after(*old(full), damage_items(*old(tgt)), r),
{
    if *full {
        return;
    }
    if damage_len(tgt) >= MAX_DAMAGE {
        *full = true;
        damage_clear(tgt);
        return;
    }
    damage_push(tgt, r);
}

impl SurfaceData {
    /// The regions held are well formed.
    pub open spec fn wf(&self) -> bool {
        &&& region_ok(self.current.opaque_region)
        &&& region_ok(self.current.input_region)
        &&& pending_region_ok(self.pending.opaque_region)
        &&& pending_region_ok(self.pending.input_region)
    }

    /// A fresh surface: no buffer, no role, scale 1, nothing pending.
    pub fn new(id: ObjectId) -> (s: Self)
        ensures
            s.wf(),
            s.id == id,
            s.output is None && s.previous_buffer is None && s.role is None,
            s.current.buffer is None && s.pending.buffer is None,
            s.current.scale == 1 && s.pending.scale == 1,
            s.current.transform == 0 && s.pending.transform == 0,
            s.current.opaque_region is None && s.current.input_region is None,
            s.pending.opaque_region is None && s.pending.input_region is None,
            s.current.offset_x == 0 && s.current.offset_y == 0,
            s.pending.offset_x == 0 && s.pending.offset_y == 0,
            !s.current.damage_full && !s.pending.damage_full,
            damage_items(s.current.surface_damage).len() == 0,
            damage_items(s.current.buffer_damage).len() == 0,
            damage_items(s.pending.surface_damage).len() == 0,
            damage_items(s.pending.buffer_damage).len() == 0,
            callback_items(s.current.frame_callbacks).len() == 0,
            callback_items(s.current.release_callbacks).len() == 0,
            callback_items(s.pending.frame_callbacks).len() == 0,
            callback_items(s.pending.release_callbacks).len() == 0,
    {
        SurfaceData {
            current: CurrentState::new(),
            pending: PendingState::new(),
            id,
            output: None,
            previous_buffer: None,
            role: None,
        }
    }

    /// Gives the surface `role`; refused with the kind it already has when
    /// it has a role of another kind.
    pub fn set_role(&mut self, role: SurfaceRole) -> (r: Result<(), u8>)
        ensures
            match old(self).role {
                Some(e) if role_kind(e) != role_kind(role) => {
                    &&& r == Err::<(), u8>(role_kind(e))
                    &&& final(self).role == old(self).role
                },
                _ => r is Ok && final(self).role == Some(role),
            },
            final(self).current == old(self).current,
            final(self).pending == old(self).pending,
            final(self).id == old(self).id,
            final(self).output == old(self).output,
            final(self).previous_buffer == old(self).previous_buffer,
    {
        if let Some(existing) = &self.role {
            let k = existing.kind();
            if k != role.kind() {
                return Err(k);
            }
        }
        self.role = Some(role);
        Ok(())
    }

    /// The current opaque region holds `(x, y)`; no region means nothing
    /// is opaque.
    pub fn is_opaque_at(&self, x: i32, y: i32) -> (r: bool)
        requires
            self.wf(),
        ensures
            r == (self.current.opaque_region matches Some(g) && g.covers(x as int, y as int)),
    {
        match &self.current.opaque_region {
            Some(g) => g.contains(x, y),
            None => false,
        }
    }

    /// The current input region holds `(x, y)`; no region means the whole
    /// surface takes input.
    pub fn accepts_input_at(&self, x: i32, y: i32) -> (r: bool)
        requires
            self.wf(),
        ensures
            r == (self.current.input_region matches Some(g) ==> g.covers(x as int, y as int)),
    {
        match &self.current.input_region {
            None => true,
            Some(g) => g.contains(x, y),
        }
    }

    /// Takes the frame callbacks that are due, in order; each is then sent
    /// `done` with the frame time.
    pub fn fire_frame_callbacks(&mut self) -> (v: Vec<ObjectId>)
        ensures
            v@ == callback_items(old(self).current.frame_callbacks),
            callback_items(final(self).current.frame_callbacks).len() == 0,
            *final(self) == (SurfaceData {
                current: CurrentState { frame_callbacks: final(self).current.frame_callbacks, ..old(self).current },
                ..*old(self)
            }),
            final(self).current.release_callbacks == old(self).current.release_callbacks,
            final(self).pending == old(self).pending,
            final(self).current.buffer == old(self).current.buffer,
            final(self).wf() == old(self).wf(),
            final(self).id == old(self).id,
            final(self).role == old(self).role,
    {
        callbacks_drain(&mut self.current.frame_callbacks)
    }

    /// Takes the release callbacks of the current buffer, in order; each is
    /// then sent `done`.
    pub fn fire_release_callbacks(&mut self) -> (v: Vec<ObjectId>)
        ensures
            v@ == callback_items(old(self).current.release_callbacks),
            callback_items(final(self).current.release_callbacks).len() == 0,
            final(self).current.frame_callbacks == old(self).current.frame_callbacks,
            final(self).pending == old(self).pending,
            final(self).current.buffer == old(self).current.buffer,
            final(self).wf() == old(self).wf(),
            final(self).id == old(self).id,
            final(self).role == old(self).role,
    {
        callbacks_drain(&mut self.current.release_callbacks)
    }

    /// Applies the pending state. Returns the release callbacks of a
    /// buffer being replaced, in order, to be sent `done`.
    pub fn commit(&mut self) -> (fired: Vec<ObjectId>)
        requires
            old(self).wf(),
        ensures
            final(self).wf(),
            committed(*old(self), *final(self), fired@),
    {
        let has_buffer = match &self.pending.buffer {
            Some(Some(_)) => true,
            _ => false,
        };
        if !callbacks_is_empty(&self.pending.release_callbacks) && !has_buffer {
            callbacks_clear(&mut self.pending.release_callbacks);
        }
        let fired = if self.current.buffer.is_some() && self.pending.buffer.is_some() {
            callbacks_drain(&mut self.current.release_callbacks)
        } else {
            Vec::new()
        };
        self.previous_buffer = self.current.buffer;
        if let Some(new_buf) = self.pending.buffer.take() {
            self.current.buffer = new_buf;
        }
        self.current.offset_x = saturating_add_i32(self.current.offset_x, self.pending.offset_x);
        self.current.offset_y = saturating_add_i32(self.current.offset_y, self.pending.offset_y);
        self.pending.offset_x = 0;
        self.pending.offset_y = 0;
        self.current.scale = self.pending.scale;
        self.current.transform = self.pending.transform;
        if let Some(g) = self.pending.opaque_region.take() {
            self.current.opaque_region = g;
        }
        if let Some(g) = self.pending.input_region.take() {
            self.current.input_region = g;
        }
        self.current.damage_full = self.pending.damage_full;
        self.pending.damage_full = false;
        if self.current.damage_full {
            damage_clear(&mut self.pending.surface_damage);
            damage_clear(&mut self.pending.buffer_damage);
        }
        let mut taken = damage_new();
        std::mem::swap(&mut taken, &mut self.pending.surface_damage);
        self.current.surface_damage = taken;
        let mut taken_b = damage_new();
        std::mem::swap(&mut taken_b, &mut self.pending.buffer_damage);
        self.current.buffer_damage = taken_b;
        callbacks_append(&mut self.current.frame_callbacks, &mut self.pending.frame_callbacks);
        callbacks_append(&mut self.current.release_callbacks, &mut self.pending.release_callbacks);
        fired
    }
}


/// The protocol error for a non-zero attach offset.
pub const ERROR_INVALID_OFFSET: u32 = 3;

/// The protocol error for a buffer scale that is not positive.
pub const ERROR_INVALID_SCALE: u32 = 0;

/// The protocol error for a transform outside `0..=7`.
pub const ERROR_INVALID_TRANSFORM: u32 = 1;

/// The protocol error for a release callback without an attached buffer.
pub const ERROR_NO_BUFFER: u32 = 5;

/// `new` is `old` with only the pending state changed.
pub open spec fn only_pending_changed(old: SurfaceData, new: SurfaceData) -> bool {
    new == (SurfaceData { pending: new.pending, ..old })
}

/// A commit loses no frame callback: the callbacks already due stay due,
/// in order, and the pending ones follow them in the order they were asked
/// for.
pub proof fn lemma_commit_keeps_frame_callbacks(before: SurfaceData, after: SurfaceData, fired: Seq<ObjectId>)
    requires
        committed(before, after, fired),
    ensures
        ({
            let due = callback_items(before.current.frame_callbacks);
            let asked = callback_items(before.pending.frame_callbacks);
            let now = callback_items(after.current.frame_callbacks);
            &&& now.len() == due.len() + asked.len()
            &&& forall|i: int| 0 <= i < due.len() ==> now[i] == due[i]
            &&& forall|j: int| 0 <= j < asked.len() ==> now[due.len() + j] == asked[j]
            &&& callback_items(after.pending.frame_callbacks).len() == 0
        }),
{
}

/// Frame callbacks asked for before two commits in a row, with none fired
/// in between, are all due after the second commit, after those already
/// due and in the order they were asked for.
pub proof fn lemma_frames_across_commits(
    s0: SurfaceData,
    s1: SurfaceData,
    s2: SurfaceData,
    s3: SurfaceData,
    s4: SurfaceData,
    a: ObjectId,
    b: ObjectId,
    fired1: Seq<ObjectId>,
    fired2: Seq<ObjectId>,
)
    requires
        callback_items(s0.pending.frame_callbacks).len() == 0,
        only_pending_changed(s0, s1),
        callback_items(s1.pending.frame_callbacks) == callback_items(s0.pending.frame_callbacks).push(a),
        committed(s1, s2, fired1),
        only_pending_changed(s2, s3),
        callback_items(s3.pending.frame_callbacks) == callback_items(s2.pending.frame_callbacks).push(b),
        committed(s3, s4, fired2),
    ensures
        callback_items(s4.current.frame_callbacks) == callback_items(s0.current.frame_callbacks).push(a).push(b),
{
    lemma_commit_keeps_frame_callbacks(s1, s2, fired1);
    lemma_commit_keeps_frame_callbacks(s3, s4, fired2);
    let c0 = callback_items(s0.current.frame_callbacks);
    let r = callback_items(s4.current.frame_callbacks);
    assert(callback_items(s1.current.frame_callbacks) == c0);
    assert(callback_items(s3.current.frame_callbacks) == callback_items(s2.current.frame_callbacks));
    assert(callback_items(s1.pending.frame_callbacks) =~= seq![a]);
    assert(callback_items(s3.pending.frame_callbacks) =~= seq![b]);
    assert(r =~= c0.push(a).push(b)) by {
        assert(r.len() == c0.len() + 2);
        assert forall|i: int| 0 <= i < r.len() implies r[i] == c0.push(a).push(b)[i] by {
            if i < c0.len() + 1 {
                assert(r[i] == callback_items(s2.current.frame_callbacks)[i]);
                if i < c0.len() {
                    assert(callback_items(s2.current.frame_callbacks)[i] == c0[i]);
                } else {
                    assert(callback_items(s2.current.frame_callbacks)[c0.len() as int] == callback_items(s1.pending.frame_callbacks)[0]);
                }
            } else {
                assert(r[c0.len() as int + 1] == callback_items(s3.pending.frame_callbacks)[0]);
            }
        }
    }
}

/// A damage step: `damage` (surface coordinates) or `damage_buffer`.
pub open spec fn damaged(old: SurfaceData, new: SurfaceData, r: DamageRect, buffer: bool) -> bool {
    let p = old.pending;
    let q = new.pending;
    &&& only_pending_changed(old, new)
    &&& if buffer {
        &&& (q.damage_full, damage_items(q.buffer_damage)) == damage_after(p.damage_full, damage_items(p.buffer_damage), r)
        &&& q == (PendingState { damage_full: q.damage_full, buffer_damage: q.buffer_damage, ..p })
    } else {
        &&& (q.damage_full, damage_items(q.surface_damage)) == damage_after(p.damage_full, damage_items(p.surface_damage), r)
        &&& q == (PendingState { damage_full: q.damage_full, surface_damage: q.surface_damage, ..p })
    }
}

/// What a commit does, with `fired` the release callbacks it hands back.
pub open spec fn committed(old: SurfaceData, new: SurfaceData, fired: Seq<ObjectId>) -> bool {
    let c = old.current;
    let p = old.pending;
    let c2 = new.current;
    let p2 = new.pending;
    let replaced = c.buffer is Some && p.buffer is Some;
    let keep_release = p.buffer matches Some(Some(_));
    &&& fired == (if replaced { callback_items(c.release_callbacks) } else { Seq::empty() })
    &&& new.previous_buffer == c.buffer
    &&& c2.buffer == (match p.buffer { Some(b) => b, None => c.buffer })
    &&& p2.buffer is None
    &&& c2.offset_x == sat_add_i32(c.offset_x as int, p.offset_x as int)
    &&& c2.offset_y == sat_add_i32(c.offset_y as int, p.offset_y as int)
    &&& p2.offset_x == 0 && p2.offset_y == 0
    &&& c2.scale == p.scale && p2.scale == p.scale
    &&& c2.transform == p.transform && p2.transform == p.transform
    &&& c2.opaque_region == (match p.opaque_region { Some(g) => g, None => c.opaque_region })
    &&& c2.input_region == (match p.input_region { Some(g) => g, None => c.input_region })
    &&& p2.opaque_region is None && p2.input_region is None
    &&& c2.damage_full == p.damage_full && !p2.damage_full
    &&& damage_items(c2.surface_damage) == (if p.damage_full { Seq::empty() } else { damage_items(p.surface_damage) })
    &&& damage_items(c2.buffer_damage) == (if p.damage_full { Seq::empty() } else { damage_items(p.buffer_damage) })
    &&& damage_items(p2.surface_damage).len() == 0
    &&& damage_items(p2.buffer_damage).len() == 0
    &&& callback_items(c2.frame_callbacks) == callback_items(c.frame_callbacks) + callback_items(p.frame_callbacks)
    &&& callback_items(c2.release_callbacks) ==
        (if replaced { Seq::empty() } else { callback_items(c.release_callbacks) })
        + (if keep_release { callback_items(p.release_callbacks) } else { Seq::empty() })
    &&& callback_items(p2.frame_callbacks).len() == 0
    &&& callback_items(p2.release_callbacks).len() == 0
    &&& new.id == old.id
    &&& new.output == old.output
    &&& new.role == old.role
}

impl SurfaceData {
    /// `attach`: the buffer (or none) and offset become pending; a
    /// non-zero offset is reported as a protocol error but still applied.
    pub fn attach(&mut self, buffer: Option<ObjectId>, x: i32, y: i32) -> (err: Option<u32>)
        ensures
            err == (if x != 0 || y != 0 { Some(ERROR_INVALID_OFFSET) } else { None::<u32> }),
            only_pending_changed(*old(self), *final(self)),
            final(self).pending == (PendingState { buffer: Some(buffer), offset_x: x, offset_y: y, ..old(self).pending }),
    {
        self.pending.buffer = Some(buffer);
        self.pending.offset_x = x;
        self.pending.offset_y = y;
        if x != 0 || y != 0 {
            Some(ERROR_INVALID_OFFSET)
        } else {
            None
        }
    }

    /// `damage`: records damage in surface coordinates.
    pub fn damage(&mut self, r: DamageRect)
        ensures
            damaged(*old(self), *final(self), r, false),
    {
        add_damage(&mut self.pending.damage_full, &mut self.pending.surface_damage, r);
    }

    /// `damage_buffer`: records damage in buffer coordinates.
    pub fn damage_buffer(&mut self, r: DamageRect)
        ensures
            damaged(*old(self), *final(self), r, true),
    {
        add_damage(&mut self.pending.damage_full, &mut self.pending.buffer_damage, r);
    }

    /// `frame`: asks for callback `cb` at the next frame after commit.
    pub fn frame(&mut self, cb: ObjectId)
        ensures
            only_pending_changed(*old(self), *final(self)),
            callback_items(final(self).pending.frame_callbacks) == callback_items(old(self).pending.frame_callbacks).push(cb),
            final(self).pending == (PendingState { frame_callbacks: final(self).pending.frame_callbacks, ..old(self).pending }),
    {
        callbacks_push(&mut self.pending.frame_callbacks, cb);
    }

    /// `get_release`: asks for callback `cb` when the buffer committed next
    /// is released.
    pub fn get_release(&mut self, cb: ObjectId)
        ensures
            only_pending_changed(*old(self), *final(self)),
            callback_items(final(self).pending.release_callbacks) == callback_items(old(self).pending.release_callbacks).push(cb),
            final(self).pending == (PendingState { release_callbacks: final(self).pending.release_callbacks, ..old(self).pending }),
    {
        callbacks_push(&mut self.pending.release_callbacks, cb);
    }

    /// `set_opaque_region`: `None` unsets the region; a region without
    /// points is kept as no region.
    pub fn set_opaque_region(&mut self, region: Option<Rc<Region>>)
        requires
            region_ok(region),
        ensures
            only_pending_changed(*old(self), *final(self)),
            final(self).pending == (PendingState {
                opaque_region: Some(match region {
                    Some(g) => if (forall|x: int, y: int| !g.covers(x, y)) { None } else { Some(g) },
                    None => None,
                }),
                ..old(self).pending
            }),
            old(self).wf() ==> final(self).wf(),
    {
        let normalized = match region {
            Some(g) => if g.is_empty() { None } else { Some(g) },
            None => None,
        };
        self.pending.opaque_region = Some(normalized);
    }

    /// `set_input_region`: `None` means the whole surface takes input.
    pub fn set_input_region(&mut self, region: Option<Rc<Region>>)
        requires
            region_ok(region),
        ensures
            only_pending_changed(*old(self), *final(self)),
            final(self).pending == (PendingState { input_region: Some(region), ..old(self).pending }),
            old(self).wf() ==> final(self).wf(),
    {
        self.pending.input_region = Some(region);
    }

    /// `set_buffer_scale`: refused with a protocol error unless positive.
    pub fn set_buffer_scale(&mut self, scale: i32) -> (err: Option<u32>)
        ensures
            only_pending_changed(*old(self), *final(self)),
            scale <= 0 ==> err == Some(ERROR_INVALID_SCALE) && final(self).pending == old(self).pending,
            scale > 0 ==> err is None && final(self).pending == (PendingState { scale: scale, ..old(self).pending }),
    {
        if scale <= 0 {
            Some(ERROR_INVALID_SCALE)
        } else {
            self.pending.scale = scale;
            None
        }
    }

    /// `set_buffer_transform`: refused with a protocol error outside
    /// `0..=7`.
    pub fn set_buffer_transform(&mut self, transform: i32) -> (err: Option<u32>)
        ensures
            only_pending_changed(*old(self), *final(self)),
            !(0 <= transform <= 7) ==> err == Some(ERROR_INVALID_TRANSFORM) && final(self).pending == old(self).pending,
            0 <= transform <= 7 ==> err is None && final(self).pending == (PendingState { transform: transform, ..old(self).pending }),
    {
        if transform < 0 || transform > 7 {
            Some(ERROR_INVALID_TRANSFORM)
        } else {
            self.pending.transform = transform;
            None
        }
    }

    /// `offset`: the pending offset.
    pub fn offset(&mut self, x: i32, y: i32)
        ensures
            only_pending_changed(*old(self), *final(self)),
            final(self).pending == (PendingState { offset_x: x, offset_y: y, ..old(self).pending }),
    {
        self.pending.offset_x = x;
        self.pending.offset_y = y;
    }

    /// The `commit` request: a release callback without a buffer attached
    /// is a protocol error (and the callback is dropped); then the pending
    /// state is applied.
    pub fn commit_request(&mut self) -> (r: (Option<u32>, Vec<ObjectId>))
        requires
            old(self).wf(),
        ensures
            final(self).wf(),
            r.0 == (if callback_items(old(self).pending.release_callbacks).len() > 0
                && !(old(self).pending.buffer matches Some(Some(_))) { Some(ERROR_NO_BUFFER) } else { None::<u32> }),
            committed(*old(self), *final(self), r.1@),
    {
        let has_release = !callbacks_is_empty(&self.pending.release_callbacks);
        let has_buffer = match &self.pending.buffer {
            Some(Some(_)) => true,
            _ => false,
        };
        let err = if has_release && !has_buffer { Some(ERROR_NO_BUFFER) } else { None };
        let fired = self.commit();
        (err, fired)
    }

    /// Tear-down before the surface is forgotten: the release callbacks of
    /// an attached buffer are handed back to be fired, the others dropped.
    pub fn destroy(&mut self) -> (fired: Vec<ObjectId>)
        ensures
            fired@ == (if old(self).current.buffer is Some { callback_items(old(self).current.release_callbacks) } else { Seq::empty() }),
            callback_items(final(self).pending.frame_callbacks).len() == 0,
            callback_items(final(self).pending.release_callbacks).len() == 0,
            callback_items(final(self).current.frame_callbacks).len() == 0,
    {
        let fired = if self.current.buffer.is_some() {
            callbacks_drain(&mut self.current.release_callbacks)
        } else {
            Vec::new()
        };
        callbacks_clear(&mut self.pending.frame_callbacks);
        callbacks_clear(&mut self.pending.release_callbacks);
        callbacks_clear(&mut self.current.frame_callbacks);
        fired
    }
}

/// The protocol error (`wl_display.invalid_method`) for a region
/// rectangle of negative size.
pub const ERROR_INVALID_METHOD: u32 = 1;

/// A `wl_region` under construction.
#[derive(Debug)]
pub struct RegionData {
    builder: RegionBuilder,
}

impl RegionData {
    /// The builder's internal state is consistent.
    pub closed spec fn wf(self) -> bool {
        self.builder.wf()
    }

    /// The region built so far holds `(x, y)`.
    pub closed spec fn holds(self, x: int, y: int) -> bool {
        self.builder.holds(x, y)
    }

    /// The region built so far, shared.
    pub fn resolve(&mut self) -> (r: Rc<Region>)
        requires
            old(self).wf(),
        ensures
            final(self).wf(),
            r.wf(),
            forall|x: int, y: int| #[trigger] r.covers(x, y) == old(self).holds(x, y),
            forall|x: int, y: int| #[trigger] final(self).holds(x, y) == old(self).holds(x, y),
    {
        self.builder.get()
    }

    /// `add` (or `subtract`) of a `width` x `height` rectangle at `(x, y)`:
    /// a negative size is a protocol error and an empty one does nothing.
    pub fn apply_rect(&mut self, x: i32, y: i32, width: i32, height: i32, add: bool) -> (err: Option<u32>)
        requires
            old(self).wf(),
        ensures
            final(self).wf(),
            err == (if width < 0 || height < 0 { Some(ERROR_INVALID_METHOD) } else { None::<u32> }),
            forall|px: int, py: int| #[trigger] final(self).holds(px, py) == {
                let r = Rect::of(x as int, y as int, sat_add_i32(x as int, width as int), sat_add_i32(y as int, height as int));
                if width <= 0 || height <= 0 {
                    old(self).holds(px, py)
                } else if add {
                    old(self).holds(px, py) || r.covers(px, py)
                } else {
                    old(self).holds(px, py) && !r.covers(px, py)
                }
            },
    {
        if width < 0 || height < 0 {
            return Some(ERROR_INVALID_METHOD);
        }
        if width == 0 || height == 0 {
            return None;
        }
        let rect = Rect::new_sized_saturating(x, y, width, height);
        if add {
            self.builder.add(rect);
        } else {
            self.builder.sub(rect);
        }
        None
    }
}

impl Default for RegionData {
    fn default() -> (r: RegionData)
        ensures
            r.wf(),
            forall|x: int, y: int| !#[trigger] r.holds(x, y),
    {
        RegionData { builder: RegionBuilder::new() }
    }
}

/// A surface's state was committed.
#[derive(Debug)]
pub struct SurfaceCommitted {
    pub surface_id: ObjectId,
}

/// A `wl_surface` request other than `destroy`, from a known sender.
#[derive(Debug)]
pub enum SurfaceRequest {
    Attach { buffer: Option<ObjectId>, x: i32, y: i32 },
    Damage(DamageRect),
    DamageBuffer(DamageRect),
    Frame(ObjectId),
    GetRelease(ObjectId),
    SetOpaqueRegion(Option<ObjectId>),
    SetInputRegion(Option<ObjectId>),
    SetBufferScale(i32),
    SetBufferTransform(i32),
    Offset { x: i32, y: i32 },
    Commit,
}

/// What handling a request produced: a protocol error to post on the
/// surface, release callbacks to fire, and the commit notice.
#[derive(Debug)]
pub struct SurfaceReply {
    pub error: Option<u32>,
    pub fired: Vec<ObjectId>,
    pub committed: Option<SurfaceCommitted>,
}

/// The points of region `rid` in `regions` (none for an unknown id).
pub open spec fn region_points(regions: Map<u32, RegionData>, rid: u32, x: int, y: int) -> bool {
    regions.contains_key(rid) && regions[rid].holds(x, y)
}

/// `o` is a well-formed region with exactly the points of region `rid`.
pub open spec fn resolves_to(g: Rc<Region>, regions: Map<u32, RegionData>, rid: u32) -> bool {
    &&& g.wf()
    &&& forall|x: int, y: int| #[trigger] g.covers(x, y) == region_points(regions, rid, x, y)
}

/// The effect of request `req` on a surface, given the regions known when
/// it arrived.
pub open spec fn request_applied(
    old: SurfaceData,
    new: SurfaceData,
    req: SurfaceRequest,
    regions: Map<u32, RegionData>,
    error: Option<u32>,
    fired: Seq<ObjectId>,
) -> bool {
    let p = old.pending;
    let q = new.pending;
    match req {
        SurfaceRequest::Commit => {
            &&& error == (if callback_items(p.release_callbacks).len() > 0
                && !(p.buffer matches Some(Some(_))) { Some(ERROR_NO_BUFFER) } else { None::<u32> })
            &&& committed(old, new, fired)
        },
        _ => {
            &&& fired.len() == 0
            &&& only_pending_changed(old, new)
            &&& match req {
                SurfaceRequest::Attach { buffer, x, y } => {
                    &&& error == (if x != 0 || y != 0 { Some(ERROR_INVALID_OFFSET) } else { None::<u32> })
                    &&& q == (PendingState { buffer: Some(buffer), offset_x: x, offset_y: y, ..p })
                },
                SurfaceRequest::Damage(r) => error is None && damaged(old, new, r, false),
                SurfaceRequest::DamageBuffer(r) => error is None && damaged(old, new, r, true),
                SurfaceRequest::Frame(cb) => {
                    &&& error is None
                    &&& callback_items(q.frame_callbacks) == callback_items(p.frame_callbacks).push(cb)
                    &&& q == (PendingState { frame_callbacks: q.frame_callbacks, ..p })
                },
                SurfaceRequest::GetRelease(cb) => {
                    &&& error is None
                    &&& callback_items(q.release_callbacks) == callback_items(p.release_callbacks).push(cb)
                    &&& q == (PendingState { release_callbacks: q.release_callbacks, ..p })
                },
                SurfaceRequest::SetOpaqueRegion(r) => {
                    &&& error is None
                    &&& q == (PendingState { opaque_region: q.opaque_region, ..p })
                    &&& match r {
                        None => q.opaque_region == Some(None::<Rc<Region>>),
                        Some(rid) => q.opaque_region matches Some(o) && match o {
                            Some(g) => resolves_to(g, regions, rid.0) && exists|x: int, y: int| region_points(regions, rid.0, x, y),
                            None => forall|x: int, y: int| !region_points(regions, rid.0, x, y),
                        },
                    }
                },
                SurfaceRequest::SetInputRegion(r) => {
                    &&& error is None
                    &&& q == (PendingState { input_region: q.input_region, ..p })
                    &&& match r {
                        None => q.input_region == Some(None::<Rc<Region>>),
                        Some(rid) => q.input_region matches Some(Some(g)) && resolves_to(g, regions, rid.0),
                    }
                },
                SurfaceRequest::SetBufferScale(scale) => {
                    &&& scale <= 0 ==> error == Some(ERROR_INVALID_SCALE) && q == p
                    &&& scale > 0 ==> error is None && q == (PendingState { scale: scale, ..p })
                },
                SurfaceRequest::SetBufferTransform(t) => {
                    &&& !(0 <= t <= 7) ==> error == Some(ERROR_INVALID_TRANSFORM) && q == p
                    &&& 0 <= t <= 7 ==> error is None && q == (PendingState { transform: t, ..p })
                },
                SurfaceRequest::Offset { x, y } => {
                    &&& error is None
                    &&& q == (PendingState { offset_x: x, offset_y: y, ..p })
                },
                SurfaceRequest::Commit => true,
            }
        },
    }
}

/// All surfaces and regions of a client, by object id.
#[derive(Debug)]
pub struct SurfaceState {
    pub surfaces: HashMap<u32, SurfaceData>,
    pub regions: HashMap<u32, RegionData>,
}

impl SurfaceState {
    /// Every surface is stored under its own id with well-formed regions,
    /// and every region builder is consistent.
    pub open spec fn wf(&self) -> bool {
        &&& forall|k: u32| #[trigger] self.surfaces@.contains_key(k) ==> self.surfaces@[k].wf() && self.surfaces@[k].id.0 == k
        &&& forall|k: u32| #[trigger] self.regions@.contains_key(k) ==> self.regions@[k].wf()
    }

    /// The regions keep their ids and their points.
    pub open spec fn same_regions(&self, other: &SurfaceState) -> bool {
        &&& self.regions@.dom() == other.regions@.dom()
        &&& forall|rid: u32, x: int, y: int| #[trigger] region_points(self.regions@, rid, x, y) == region_points(other.regions@, rid, x, y)
    }

    /// No surface and no region.
    pub fn new() -> (s: Self)
        ensures
            s.wf(),
            s.surfaces@ == Map::<u32, SurfaceData>::empty(),
            s.regions@ == Map::<u32, RegionData>::empty(),
    {
        SurfaceState { surfaces: HashMap::new(), regions: HashMap::new() }
    }

    /// `wl_compositor.create_surface`: a fresh surface under `id`.
    pub fn create_surface(&mut self, id: ObjectId)
        requires
            old(self).wf(),
        ensures
            final(self).wf(),
            final(self).surfaces@.dom() == old(self).surfaces@.dom().insert(id.0),
            forall|k: u32| k != id.0 && #[trigger] old(self).surfaces@.contains_key(k) ==> final(self).surfaces@[k] == old(self).surfaces@[k],
            final(self).surfaces@[id.0].id == id,
            final(self).surfaces@[id.0].role is None,
            final(self).regions@ == old(self).regions@,
    {
        self.surfaces.insert(id.0, SurfaceData::new(id));
    }

    /// `wl_compositor.create_region`: an empty region under `id`.
    pub fn create_region(&mut self, id: ObjectId)
        requires
            old(self).wf(),
        ensures
            final(self).wf(),
            final(self).regions@.dom() == old(self).regions@.dom().insert(id.0),
            forall|x: int, y: int| !#[trigger] region_points(final(self).regions@, id.0, x, y),
            forall|rid: u32, x: int, y: int| rid != id.0 ==> #[trigger] region_points(final(self).regions@, rid, x, y) == region_points(old(self).regions@, rid, x, y),
            final(self).surfaces@ == old(self).surfaces@,
    {
        self.regions.insert(id.0, RegionData::default());
    }

    /// `wl_region.destroy`.
    pub fn destroy_region(&mut self, id: ObjectId)
        requires
            old(self).wf(),
        ensures
            final(self).wf(),
            final(self).regions@ == old(self).regions@.remove(id.0),
            final(self).surfaces@ == old(self).surfaces@,
    {
        self.regions.remove(&id.0);
    }

    /// `wl_region.add` (`add`) or `wl_region.subtract` on region `id`;
    /// nothing happens for an unknown region.
    pub fn region_rect(&mut self, id: ObjectId, x: i32, y: i32, width: i32, height: i32, add: bool) -> (err: Option<u32>)
        requires
            old(self).wf(),
        ensures
            final(self).wf(),
            final(self).surfaces@ == old(self).surfaces@,
            final(self).regions@.dom() == old(self).regions@.dom(),
            err == (if old(self).regions@.contains_key(id.0) && (width < 0 || height < 0) { Some(ERROR_INVALID_METHOD) } else { None::<u32> }),
            forall|rid: u32, px: int, py: int| rid != id.0 ==> #[trigger] region_points(final(self).regions@, rid, px, py) == region_points(old(self).regions@, rid, px, py),
            forall|px: int, py: int| #[trigger] region_points(final(self).regions@, id.0, px, py) == {
                let r = Rect::of(x as int, y as int, sat_add_i32(x as int, width as int), sat_add_i32(y as int, height as int));
                let before = region_points(old(self).regions@, id.0, px, py);
                if width <= 0 || height <= 0 || !old(self).regions@.contains_key(id.0) {
                    before
                } else if add {
                    before || r.covers(px, py)
                } else {
                    before && !r.covers(px, py)
                }
            },
    {
        match self.regions.remove(&id.0) {
            Some(mut data) => {
                let err = data.apply_rect(x, y, width, height, add);
                self.regions.insert(id.0, data);
                err
            },
            None => None,
        }
    }

    /// The region named by `rid`, shared; an unknown id gives an empty
    /// region.
    fn resolve_region(&mut self, rid: u32) -> (r: Rc<Region>)
        requires
            old(self).wf(),
        ensures
            final(self).wf(),
            final(self).same_regions(old(self)),
            final(self).surfaces@ == old(self).surfaces@,
            resolves_to(r, old(self).regions@, rid),
    {
        match self.regions.remove(&rid) {
            Some(mut data) => {
                let g = data.resolve();
                self.regions.insert(rid, data);
                assert(self.regions@.dom() =~= old(self).regions@.dom());
                assert forall|r2: u32, x: int, y: int| #[trigger] region_points(self.regions@, r2, x, y) == region_points(old(self).regions@, r2, x, y) by {
                    if r2 == rid {
                        assert(data.holds(x, y) == old(self).regions@[rid].holds(x, y));
                    }
                }
                g
            },
            None => {
                assert(self.regions@ =~= old(self).regions@);
                Region::empty()
            },
        }
    }

    /// `wl_surface.destroy`: forgets the surface and hands back the release
    /// callbacks of its attached buffer, to be fired.
    pub fn destroy_surface(&mut self, id: ObjectId) -> (fired: Vec<ObjectId>)
        requires
            old(self).wf(),
        ensures
            final(self).wf(),
            final(self).surfaces@ == old(self).surfaces@.remove(id.0),
            final(self).regions@ == old(self).regions@,
            fired@ == (if old(self).surfaces@.contains_key(id.0) && old(self).surfaces@[id.0].current.buffer is Some {
                callback_items(old(self).surfaces@[id.0].current.release_callbacks)
            } else {
                Seq::empty()
            }),
    {
        match self.surfaces.remove(&id.0) {
            Some(mut surf) => surf.destroy(),
            None => Vec::new(),
        }
    }

    /// Handles a `wl_surface` request from surface `sender`; requests for an
    /// unknown surface change nothing (a region named in one is still
    /// resolved).
    pub fn surface_request(&mut self, sender: ObjectId, req: SurfaceRequest) -> (reply: SurfaceReply)
        requires
            old(self).wf(),
        ensures
            final(self).wf(),
            final(self).same_regions(old(self)),
            final(self).surfaces@.dom() == old(self).surfaces@.dom(),
            forall|k: u32| k != sender.0 && #[trigger] old(self).surfaces@.contains_key(k) ==> final(self).surfaces@[k] == old(self).surfaces@[k],
            !old(self).surfaces@.contains_key(sender.0) ==> {
                &&& reply.error is None
                &&& reply.fired@.len() == 0
                &&& reply.committed is None
            },
            old(self).surfaces@.contains_key(sender.0) ==> {
                &&& request_applied(old(self).surfaces@[sender.0], final(self).surfaces@[sender.0], req, old(self).regions@, reply.error, reply.fired@)
                &&& reply.committed == (if req is Commit { Some(SurfaceCommitted { surface_id: sender }) } else { None })
            },
    {
        let resolved: Option<Option<Rc<Region>>> = match &req {
            SurfaceRequest::SetOpaqueRegion(r) | SurfaceRequest::SetInputRegion(r) => match r {
                Some(rid) => Some(Some(self.resolve_region(rid.0))),
                None => Some(None),
            },
            _ => None,
        };
        let ghost mid = *self;
        let mut surf = match self.surfaces.remove(&sender.0) {
            Some(s) => s,
            None => {
                assert(self.surfaces@ =~= old(self).surfaces@);
                return SurfaceReply { error: None, fired: Vec::new(), committed: None };
            },
        };
        let ghost before = surf;
        let mut error: Option<u32> = None;
        let mut fired: Vec<ObjectId> = Vec::new();
        let mut committed: Option<SurfaceCommitted> = None;
        match req {
            SurfaceRequest::Attach { buffer, x, y } => {
                error = surf.attach(buffer, x, y);
            },
            SurfaceRequest::Damage(r) => {
                surf.damage(r);
            },
            SurfaceRequest::DamageBuffer(r) => {
                surf.damage_buffer(r);
            },
            SurfaceRequest::Frame(cb) => {
                surf.frame(cb);
            },
            SurfaceRequest::GetRelease(cb) => {
                surf.get_release(cb);
            },
            SurfaceRequest::SetOpaqueRegion(r) => {
                if let Some(g) = resolved {
                    proof {
                        if let Some(rid) = r {
                            let gg = g.unwrap();
                            assert forall|x: int, y: int|
                                #![trigger gg.covers(x, y)]
                                #![trigger region_points(old(self).regions@, rid.0, x, y)]
                                gg.covers(x, y) == region_points(old(self).regions@, rid.0, x, y) by {}
                        }
                    }
                    surf.set_opaque_region(g);
                }
            },
            SurfaceRequest::SetInputRegion(_) => {
                if let Some(g) = resolved {
                    surf.set_input_region(g);
                }
            },
            SurfaceRequest::SetBufferScale(scale) => {
                error = surf.set_buffer_scale(scale);
            },
            SurfaceRequest::SetBufferTransform(t) => {
                error = surf.set_buffer_transform(t);
            },
            SurfaceRequest::Offset { x, y } => {
                surf.offset(x, y);
            },
            SurfaceRequest::Commit => {
                let (e, f) = surf.commit_request();
                error = e;
                fired = f;
                committed = Some(SurfaceCommitted { surface_id: sender });
            },
        }
        self.surfaces.insert(sender.0, surf);
        assert(self.surfaces@.dom() =~= old(self).surfaces@.dom());
        SurfaceReply { error, fired, committed }
    }
}

/// Damage lists never grow past `MAX_DAMAGE` rectangles: adding damage to
/// a list within the limit leaves it within the limit, and once the whole
/// surface is damaged the list stays empty.
pub proof fn lemma_damage_bounded(full: bool, items: Seq<DamageRect>, r: DamageRect)
    requires
        items.len() <= MAX_DAMAGE,
        full ==> items.len() == 0,
    ensures
        damage_after(full, items, r).1.len() <= MAX_DAMAGE,
        damage_after(full, items, r).0 ==> damage_after(full, items, r).1.len() == 0,
        full ==> damage_after(full, items, r).0,
{
}

/// Committing again with nothing new attached keeps the buffer shown and
/// fires no release callback.
pub proof fn lemma_recommit_keeps_buffer(a: SurfaceData, b: SurfaceData, c: SurfaceData, f1: Seq<ObjectId>, f2: Seq<ObjectId>)
    requires
        committed(a, b, f1),
        committed(b, c, f2),
    ensures
        c.current.buffer == b.current.buffer,
        f2.len() == 0,
        c.previous_buffer == b.current.buffer,
{
}

} // verus!
