//! The lock screen's side of a session lock: locking creates the lock and
//! one lock surface per output (binding outputs not bound before),
//! unlocking or a refused lock tears the surfaces down again. Requests go
//! to the connection's outgoing buffer; object ids come from the
//! connection's id table.
use vstd::prelude::*;
use vstd::string::StringSliceAdditionalSpecFns;

use crate::client::{WlDisplay, WlRegistry};
use crate::lockscreen::{find_output, first_output, AppStateMode, OutputInfo};
use crate::server::ObjectTable;
use crate::session_lock::{
    words_bytes, ExtSessionLockEvent, ExtSessionLockManagerV1, ExtSessionLockSurfaceV1, ExtSessionLockV1,
};
use crate::wire::{encode_message, message_bytes, push_word, string_bytes, word_bytes, ObjectId};

verus! {

/// The objects of one lock surface: the output global it shows on, the
/// bound output, the `wl_surface`, the lock surface and its two buffers
/// (0 while not allocated).
#[derive(Clone, Copy, Debug, PartialEq, Eq, Structural)]
pub struct LockSurfaceIds {
    pub global: u32,
    pub output: u32,
    pub wl_surface: u32,
    pub lock_surface: u32,
    pub buffer0: u32,
    pub buffer1: u32,
}

/// The protocol objects a lock screen talks to, the id table and the
/// outgoing bytes.
pub struct LockClient {
    pub ids: ObjectTable,
    pub display: WlDisplay,
    pub registry: WlRegistry,
    pub compositor: u32,
    pub manager: ExtSessionLockManagerV1,
    pub lock: ExtSessionLockV1,
    pub lock_surfaces: ExtSessionLockSurfaceV1,
    pub out: Vec<u8>,
}

impl LockClient {
    /// Byte order of the connection.
    pub open spec fn little(&self) -> bool {
        self.display.byte_order()
    }

    /// The id table is consistent and every object uses the connection's
    /// byte order.
    pub open spec fn wf(&self) -> bool {
        &&& self.ids.wf()
        &&& self.registry.byte_order() == self.little()
        &&& self.manager.byte_order() == self.little()
        &&& self.lock.byte_order() == self.little()
        &&& self.lock_surfaces.byte_order() == self.little()
    }

    /// A fresh connection: only the display exists, ids start at 2, nothing
    /// is bound yet and nothing is queued.
    pub fn new(little: bool) -> (c: Self)
        ensures
            c.wf(),
            c.little() == little,
            c.ids.live() == Map::<u32, Seq<char>>::empty().insert(1, "wl_display"@),
            c.ids.freed() == Set::<u32>::empty(),
            c.ids.next_fresh() == 2,
            c.registry.object_id() == 0,
            c.registry.globals() == Map::<u32, (Seq<char>, u32)>::empty(),
            c.compositor == 0,
            c.manager.object_id() == 0,
            c.lock.object_id() == 0,
            c.lock_surfaces.sizes() == Map::<u32, (u32, u32)>::empty(),
            c.out@ == Seq::<u8>::empty(),
    {
        LockClient {
            ids: ObjectTable::new(2),
            display: WlDisplay::new(little),
            registry: WlRegistry::new(little),
            compositor: 0,
            manager: ExtSessionLockManagerV1::new(little),
            lock: ExtSessionLockV1::new(little),
            lock_surfaces: ExtSessionLockSurfaceV1::new(little),
            out: Vec::new(),
        }
    }
}

/// `after` is `before` once the ids of `used` were handed out: the live
/// objects are unchanged, each id was a freed one or a fresh one, and the
/// freed ids handed out are no longer free.
pub open spec fn took(before: ObjectTable, after: ObjectTable, used: Seq<u32>) -> bool {
    &&& after.wf()
    &&& after.live() == before.live()
    &&& after.freed() == before.freed().difference(used.to_set())
    &&& before.next_fresh() <= after.next_fresh() <= before.next_fresh() + used.len()
    &&& forall|i: int|
        0 <= i < used.len() ==> before.freed().contains(#[trigger] used[i]) || (before.next_fresh() <= used[i]
            && used[i] < after.next_fresh())
}

/// The version an output is bound with: the advertised one, at most 4.
pub open spec fn capped_version(v: u32) -> u32 {
    if v < 4 {
        v
    } else {
        4
    }
}

/// `wl_registry.bind` of output global `name` as object `id`.
pub open spec fn bind_output_bytes(registry: u32, name: u32, version: u32, id: u32, little: bool) -> Seq<u8> {
    message_bytes(
        registry,
        0,
        word_bytes(name, little) + string_bytes("wl_output".spec_bytes(), little) + word_bytes(
            capped_version(version),
            little,
        ) + word_bytes(id, little),
        little,
    )
}

/// `wl_compositor.create_surface` creating object `id`.
pub open spec fn create_surface_bytes(compositor: u32, id: u32, little: bool) -> Seq<u8> {
    message_bytes(compositor, 0, word_bytes(id, little), little)
}

/// The requests that set up lock surface `e`: the output bind when
/// `bound`, the surface, and the lock surface on lock `lock`.
pub open spec fn entry_bytes(
    e: LockSurfaceIds,
    bound: bool,
    registry: u32,
    version: u32,
    compositor: u32,
    lock: u32,
    little: bool,
) -> Seq<u8> {
    (if bound {
        bind_output_bytes(registry, e.global, version, e.output, little)
    } else {
        Seq::empty()
    }) + create_surface_bytes(compositor, e.wl_surface, little) + message_bytes(
        lock,
        1,
        words_bytes(seq![e.lock_surface, e.wl_surface, e.output], little),
        little,
    )
}

/// The requests that set up the lock surfaces `es`, in order, when the
/// outputs `known` were bound before; versions come from `globals`.
pub open spec fn entries_bytes(
    es: Seq<LockSurfaceIds>,
    known: Seq<OutputInfo>,
    registry: u32,
    globals: Map<u32, (Seq<char>, u32)>,
    compositor: u32,
    lock: u32,
    little: bool,
) -> Seq<u8>
    decreases es.len(),
{
    if es.len() == 0 {
        Seq::empty()
    } else {
        let e = es.last();
        entries_bytes(es.drop_last(), known, registry, globals, compositor, lock, little) + entry_bytes(
            e,
            first_output(known, e.global) is None,
            registry,
            globals[e.global].1,
            compositor,
            lock,
            little,
        )
    }
}

/// The outputs bound while setting up `es` after `known`.
pub open spec fn bound_outputs(es: Seq<LockSurfaceIds>, known: Seq<OutputInfo>) -> Seq<OutputInfo>
    decreases es.len(),
{
    if es.len() == 0 {
        Seq::empty()
    } else {
        let e = es.last();
        let prior = bound_outputs(es.drop_last(), known);
        if first_output(known, e.global) is None {
            prior.push(OutputInfo { global_name: e.global, id: e.output })
        } else {
            prior
        }
    }
}

/// The requests that tear lock surface `e` down: the lock surface, the
/// surface and its allocated buffers.
pub open spec fn teardown_bytes(e: LockSurfaceIds, little: bool) -> Seq<u8> {
    message_bytes(e.lock_surface, 0, Seq::empty(), little) + message_bytes(e.wl_surface, 0, Seq::empty(), little)
        + (if e.buffer0 != 0 {
        message_bytes(e.buffer0, 0, Seq::empty(), little)
    } else {
        Seq::empty()
    }) + (if e.buffer1 != 0 {
        message_bytes(e.buffer1, 0, Seq::empty(), little)
    } else {
        Seq::empty()
    })
}

/// The teardown requests of `es`, in order.
pub open spec fn teardowns_bytes(es: Seq<LockSurfaceIds>, little: bool) -> Seq<u8>
    decreases es.len(),
{
    if es.len() == 0 {
        Seq::empty()
    } else {
        teardowns_bytes(es.drop_last(), little) + teardown_bytes(es.last(), little)
    }
}

/// The tracked lock-surface sizes once the lock surfaces of `es` are gone.
pub open spec fn without_lock_surfaces(sizes: Map<u32, (u32, u32)>, es: Seq<LockSurfaceIds>) -> Map<u32, (u32, u32)>
    decreases es.len(),
{
    if es.len() == 0 {
        sizes
    } else {
        without_lock_surfaces(sizes, es.drop_last()).remove(es.last().lock_surface)
    }
}

proof fn lemma_took_step(b: ObjectTable, m: ObjectTable, a: ObjectTable, used: Seq<u32>, id: u32)
    requires
        took(b, m, used),
        a.wf(),
        a.live() == m.live(),
        m.freed().len() > 0 ==> {
            &&& m.freed().contains(id)
            &&& a.freed() == m.freed().remove(id)
            &&& a.next_fresh() == m.next_fresh()
        },
        m.freed().len() == 0 ==> {
            &&& id == m.next_fresh()
            &&& a.freed() == m.freed()
            &&& a.next_fresh() == m.next_fresh() + 1
        },
        m.freed().finite(),
    ensures
        took(b, a, used.push(id)),
{
    let u2 = used.push(id);
    assert(u2.to_set() =~= used.to_set().insert(id)) by {
        assert forall|x: u32| u2.to_set().contains(x) <==> used.to_set().insert(id).contains(x) by {
            if u2.to_set().contains(x) {
                let i = choose|i: int| 0 <= i < u2.len() && u2[i] == x;
                if i < used.len() {
                    assert(used[i] == x);
                    assert(used.to_set().contains(x));
                }
            }
            if used.to_set().contains(x) {
                let i = choose|i: int| 0 <= i < used.len() && used[i] == x;
                assert(u2[i] == x);
            }
            if x == id {
                assert(u2[used.len() as int] == id);
            }
        }
    }
    if m.freed().len() > 0 {
        assert(a.freed() =~= b.freed().difference(u2.to_set()));
    } else {
        assert(m.freed() =~= Set::<u32>::empty());
        assert(a.freed() =~= b.freed().difference(u2.to_set()));
    }
    assert forall|i: int| 0 <= i < u2.len() implies b.freed().contains(#[trigger] u2[i]) || (b.next_fresh() <= u2[i]
        && u2[i] < a.next_fresh()) by {
        if i < used.len() {
            assert(u2[i] == used[i]);
        }
    }
}

/// Sends a request without arguments (`destroy` of a surface or buffer).
fn send_destroy(out: &mut Vec<u8>, id: u32, little: bool)
    ensures
        final(out)@ == old(out)@ + message_bytes(id, 0, Seq::empty(), little),
{
    let body: Vec<u8> = Vec::new();
    encode_message(out, id, 0, body.as_slice(), little);
}

/// Sends `wl_compositor.create_surface` creating object `id`.
pub fn send_create_surface(out: &mut Vec<u8>, compositor: u32, id: u32, little: bool)
    ensures
        final(out)@ == old(out)@ + create_surface_bytes(compositor, id, little),
{
    let mut body: Vec<u8> = Vec::new();
    push_word(&mut body, id, little);
    assert(body@ =~= word_bytes(id, little));
    encode_message(out, compositor, 0, body.as_slice(), little);
}

/// Sends the teardown requests of lock surface `e` and stops tracking it.
fn send_teardown(out: &mut Vec<u8>, lock_surfaces: &mut ExtSessionLockSurfaceV1, e: LockSurfaceIds, little: bool)
    requires
        old(lock_surfaces).byte_order() == little,
    ensures
        final(out)@ == old(out)@ + teardown_bytes(e, little),
        final(lock_surfaces).sizes() == old(lock_surfaces).sizes().remove(e.lock_surface),
        final(lock_surfaces).byte_order() == little,
{
    lock_surfaces.destroy(out, e.lock_surface);
    send_destroy(out, e.wl_surface, little);
    if e.buffer0 != 0 {
        send_destroy(out, e.buffer0, little);
    }
    if e.buffer1 != 0 {
        send_destroy(out, e.buffer1, little);
    }
    assert(out@ =~= old(out)@ + teardown_bytes(e, little));
}

/// Hands out an id from the table.
fn next_id(ids: &mut ObjectTable, Ghost(b): Ghost<ObjectTable>, Ghost(used): Ghost<Seq<u32>>) -> (id: u32)
    requires
        took(b, *old(ids), used),
        old(ids).next_fresh() < u32::MAX,
    ensures
        took(b, *final(ids), used.push(id)),
        final(ids).next_fresh() <= old(ids).next_fresh() + 1,
{
    proof {
        old(ids).lemma_freed_finite();
    }
    let ghost m = *ids;
    let id = ids.alloc_id();
    proof {
        lemma_took_step(b, m, *ids, used, id.0);
    }
    id.0
}

/// The tracked lock-surface sizes once the lock surfaces of `es` are
/// registered, in order, at size 0x0.
pub open spec fn with_lock_surfaces(sizes: Map<u32, (u32, u32)>, es: Seq<LockSurfaceIds>) -> Map<u32, (u32, u32)>
    decreases es.len(),
{
    if es.len() == 0 {
        sizes
    } else {
        with_lock_surfaces(sizes, es.drop_last()).insert(es.last().lock_surface, (0u32, 0u32))
    }
}

/// The ids handed out while setting up `es` after the outputs `known`.
pub open spec fn setups_ids(es: Seq<LockSurfaceIds>, known: Seq<OutputInfo>) -> Seq<u32>
    decreases es.len(),
{
    if es.len() == 0 {
        Seq::empty()
    } else {
        setups_ids(es.drop_last(), known) + LockSession::setup_ids(es.last(), first_output(known, es.last().global) is None)
    }
}

/// Every output bound while setting up `es` is for one of their globals.
proof fn lemma_bound_outputs_globals(es: Seq<LockSurfaceIds>, known: Seq<OutputInfo>)
    ensures
        forall|i: int| 0 <= i < bound_outputs(es, known).len() ==> exists|j: int|
            0 <= j < es.len() && #[trigger] bound_outputs(es, known)[i].global_name == es[j].global,
    decreases es.len(),
{
    if es.len() > 0 {
        let p = es.drop_last();
        lemma_bound_outputs_globals(p, known);
        let b = bound_outputs(es, known);
        assert forall|i: int| 0 <= i < b.len() implies exists|j: int| 0 <= j < es.len() && #[trigger] b[i].global_name == es[j].global by {
            if i < bound_outputs(p, known).len() {
                let j = choose|j: int| 0 <= j < p.len() && bound_outputs(p, known)[i].global_name == p[j].global;
                assert(es[j] == p[j]);
            } else {
                assert(b[i].global_name == es[es.len() - 1].global);
            }
        }
    }
}

/// Registering lock surfaces adds exactly their ids to the tracked ones,
/// at size 0x0.
proof fn lemma_with_lock_surfaces(sizes: Map<u32, (u32, u32)>, es: Seq<LockSurfaceIds>, k: u32)
    ensures
        with_lock_surfaces(sizes, es).contains_key(k) <==> sizes.contains_key(k) || exists|i: int|
            0 <= i < es.len() && #[trigger] es[i].lock_surface == k,
        (exists|i: int| 0 <= i < es.len() && #[trigger] es[i].lock_surface == k) ==> with_lock_surfaces(sizes, es)[k] == (0u32, 0u32),
        !(exists|i: int| 0 <= i < es.len() && #[trigger] es[i].lock_surface == k) && sizes.contains_key(k)
            ==> with_lock_surfaces(sizes, es)[k] == sizes[k],
    decreases es.len(),
{
    if es.len() > 0 {
        let p = es.drop_last();
        lemma_with_lock_surfaces(sizes, p, k);
        if exists|i: int| 0 <= i < p.len() && #[trigger] p[i].lock_surface == k {
            let i = choose|i: int| 0 <= i < p.len() && #[trigger] p[i].lock_surface == k;
            assert(es[i] == p[i]);
        }
        if exists|i: int| 0 <= i < es.len() && #[trigger] es[i].lock_surface == k {
            let i = choose|i: int| 0 <= i < es.len() && #[trigger] es[i].lock_surface == k;
            if i < p.len() {
                assert(p[i] == es[i]);
            }
        }
    }
}

/// Forgetting lock surfaces removes exactly their ids from the tracked
/// ones and keeps the sizes of the others.
proof fn lemma_without_lock_surfaces(sizes: Map<u32, (u32, u32)>, es: Seq<LockSurfaceIds>, k: u32)
    ensures
        without_lock_surfaces(sizes, es).contains_key(k) <==> sizes.contains_key(k) && !exists|i: int|
            0 <= i < es.len() && #[trigger] es[i].lock_surface == k,
        without_lock_surfaces(sizes, es).contains_key(k) ==> without_lock_surfaces(sizes, es)[k] == sizes[k],
    decreases es.len(),
{
    if es.len() > 0 {
        let p = es.drop_last();
        lemma_without_lock_surfaces(sizes, p, k);
        if exists|i: int| 0 <= i < p.len() && #[trigger] p[i].lock_surface == k {
            let i = choose|i: int| 0 <= i < p.len() && #[trigger] p[i].lock_surface == k;
            assert(es[i] == p[i]);
        }
        if exists|i: int| 0 <= i < es.len() && #[trigger] es[i].lock_surface == k {
            let i = choose|i: int| 0 <= i < es.len() && #[trigger] es[i].lock_surface == k;
            if i < p.len() {
                assert(p[i] == es[i]);
            }
        }
    }
}

/// Tearing down the lock surfaces that locking set up leaves the tracked
/// lock surfaces as they were before locking, except that ids the lock
/// surfaces reused are no longer tracked.
pub proof fn lemma_teardown_undoes_setup(sizes: Map<u32, (u32, u32)>, es: Seq<LockSurfaceIds>)
    ensures
        forall|k: u32|
            #[trigger] without_lock_surfaces(with_lock_surfaces(sizes, es), es).contains_key(k) <==> sizes.contains_key(k)
                && !exists|i: int| 0 <= i < es.len() && #[trigger] es[i].lock_surface == k,
        forall|k: u32|
            #[trigger] without_lock_surfaces(with_lock_surfaces(sizes, es), es).contains_key(k)
                ==> without_lock_surfaces(with_lock_surfaces(sizes, es), es)[k] == sizes[k],
{
    assert forall|k: u32| #[trigger] without_lock_surfaces(with_lock_surfaces(sizes, es), es).contains_key(k) <==> sizes.contains_key(k)
        && !exists|i: int| 0 <= i < es.len() && #[trigger] es[i].lock_surface == k by {
        lemma_with_lock_surfaces(sizes, es, k);
        lemma_without_lock_surfaces(with_lock_surfaces(sizes, es), es, k);
    }
    assert forall|k: u32| #[trigger] without_lock_surfaces(with_lock_surfaces(sizes, es), es).contains_key(k)
        implies without_lock_surfaces(with_lock_surfaces(sizes, es), es)[k] == sizes[k] by {
        lemma_with_lock_surfaces(sizes, es, k);
        lemma_without_lock_surfaces(with_lock_surfaces(sizes, es), es, k);
    }
}

/// The lock screen's lock state: the mode, the lock object, the outputs
/// bound so far and the lock surfaces.
pub struct LockSession {
    pub mode: AppStateMode,
    pub lock_id: Option<u32>,
    pub outputs: Vec<OutputInfo>,
    pub surfaces: Vec<LockSurfaceIds>,
}

impl LockSession {
    /// Unlocked, nothing bound, no lock surface.
    pub fn new() -> (s: Self)
        ensures
            s.mode == AppStateMode::Unlocked,
            s.lock_id is None,
            s.outputs@ == Seq::<OutputInfo>::empty(),
            s.surfaces@ == Seq::<LockSurfaceIds>::empty(),
    {
        LockSession { mode: AppStateMode::Unlocked, lock_id: None, outputs: Vec::new(), surfaces: Vec::new() }
    }

    /// The `wl_surface` of the lock surface `lock_surface`, if it is one of
    /// this session's (the first such).
    pub fn surface_of(&self, lock_surface: u32) -> (r: Option<u32>)
        ensures
            r matches Some(w) ==> exists|i: int|
                0 <= i < self.surfaces@.len() && self.surfaces@[i].lock_surface == lock_surface
                    && self.surfaces@[i].wl_surface == w && forall|j: int|
                    0 <= j < i ==> #[trigger] self.surfaces@[j].lock_surface != lock_surface,
            r is None ==> forall|i: int|
                0 <= i < self.surfaces@.len() ==> #[trigger] self.surfaces@[i].lock_surface != lock_surface,
    {
        let mut i: usize = 0;
        while i < self.surfaces.len()
            invariant
                i <= self.surfaces@.len(),
                forall|j: int| 0 <= j < i ==> #[trigger] self.surfaces@[j].lock_surface != lock_surface,
            decreases self.surfaces@.len() - i,
        {
            if self.surfaces[i].lock_surface == lock_surface {
                return Some(self.surfaces[i].wl_surface);
            }
            i = i + 1;
        }
        None
    }

    /// Records the two buffers allocated for the lock surface whose
    /// `wl_surface` is `wl_surface` (every such entry); false when there is
    /// none.
    pub fn set_buffers(&mut self, wl_surface: u32, id0: u32, id1: u32) -> (found: bool)
        ensures
            final(self).mode == old(self).mode,
            final(self).lock_id == old(self).lock_id,
            final(self).outputs@ == old(self).outputs@,
            final(self).surfaces@.len() == old(self).surfaces@.len(),
            forall|i: int|
                0 <= i < old(self).surfaces@.len() ==> #[trigger] final(self).surfaces@[i] == (if old(
                    self,
                ).surfaces@[i].wl_surface == wl_surface {
                    LockSurfaceIds { buffer0: id0, buffer1: id1, ..old(self).surfaces@[i] }
                } else {
                    old(self).surfaces@[i]
                }),
            found == exists|i: int| 0 <= i < old(self).surfaces@.len() && #[trigger] old(self).surfaces@[i].wl_surface == wl_surface,
    {
        let mut found = false;
        let mut i: usize = 0;
        while i < self.surfaces.len()
            invariant
                i <= self.surfaces@.len(),
                self.mode == old(self).mode,
                self.lock_id == old(self).lock_id,
                self.outputs@ == old(self).outputs@,
                self.surfaces@.len() == old(self).surfaces@.len(),
                forall|j: int|
                    0 <= j < i ==> #[trigger] self.surfaces@[j] == (if old(self).surfaces@[j].wl_surface == wl_surface {
                        LockSurfaceIds { buffer0: id0, buffer1: id1, ..old(self).surfaces@[j] }
                    } else {
                        old(self).surfaces@[j]
                    }),
                forall|j: int| i <= j < self.surfaces@.len() ==> #[trigger] self.surfaces@[j] == old(self).surfaces@[j],
                found == exists|j: int| 0 <= j < i && #[trigger] old(self).surfaces@[j].wl_surface == wl_surface,
            decreases self.surfaces@.len() - i,
        {
            if self.surfaces[i].wl_surface == wl_surface {
                let mut e = self.surfaces[i];
                e.buffer0 = id0;
                e.buffer1 = id1;
                self.surfaces.set(i, e);
                found = true;
            }
            i = i + 1;
        }
        found
    }

    /// The object bound for output global `name`: the one bound before, or
    /// a new binding (at the advertised `version`, at most 4) that is
    /// recorded.
    fn output_for(
        &mut self,
        wl: &mut LockClient,
        name: u32,
        version: u32,
        Ghost(b): Ghost<ObjectTable>,
        Ghost(used): Ghost<Seq<u32>>,
    ) -> (id: u32)
        requires
            old(wl).wf(),
            took(b, old(wl).ids, used),
            old(wl).ids.next_fresh() < u32::MAX,
        ensures
            final(wl).wf(),
            final(wl).little() == old(wl).little(),
            final(wl).registry == old(wl).registry,
            final(wl).compositor == old(wl).compositor,
            final(wl).manager == old(wl).manager,
            final(wl).lock == old(wl).lock,
            final(wl).lock_surfaces == old(wl).lock_surfaces,
            final(self).mode == old(self).mode,
            final(self).lock_id == old(self).lock_id,
            final(self).surfaces@ == old(self).surfaces@,
            first_output(old(self).outputs@, name) matches Some(o) ==> {
                &&& id == o
                &&& final(self).outputs@ == old(self).outputs@
                &&& final(wl).out@ == old(wl).out@
                &&& final(wl).ids == old(wl).ids
            },
            first_output(old(self).outputs@, name) is None ==> {
                &&& final(self).outputs@ == old(self).outputs@.push(OutputInfo { global_name: name, id })
                &&& final(wl).out@ == old(wl).out@ + bind_output_bytes(
                    old(wl).registry.object_id(),
                    name,
                    version,
                    id,
                    old(wl).little(),
                )
                &&& took(b, final(wl).ids, used.push(id))
                &&& final(wl).ids.next_fresh() <= old(wl).ids.next_fresh() + 1
            },
    {
        match find_output(self.outputs.as_slice(), name) {
            Some(id) => id,
            None => {
                let id = next_id(&mut wl.ids, Ghost(b), Ghost(used));
                proof {
                    reveal_strlit("wl_output");
                    broadcast use vstd::string::is_ascii_spec_bytes;
                    assert(vstd::string::is_ascii("wl_output"));
                }
                let capped: u32 = if version < 4 { version } else { 4 };
                wl.registry.bind(&mut wl.out, name, "wl_output", capped, id);
                self.outputs.push(OutputInfo { global_name: name, id });
                id
            },
        }
    }

    /// The output a lock surface goes on: the first `wl_output` global the
    /// registry lists, bound now unless it was bound before; `None` when no
    /// output is announced.
    pub fn get_or_create_output(&mut self, wl: &mut LockClient) -> (r: Option<u32>)
        requires
            old(wl).wf(),
            old(wl).ids.next_fresh() < u32::MAX,
        ensures
            final(wl).wf(),
            final(wl).little() == old(wl).little(),
            final(wl).registry == old(wl).registry,
            final(wl).lock_surfaces == old(wl).lock_surfaces,
            final(self).mode == old(self).mode,
            final(self).lock_id == old(self).lock_id,
            final(self).surfaces@ == old(self).surfaces@,
            r is None <==> forall|g: u32| #[trigger] old(wl).registry.globals().contains_key(g)
                ==> old(wl).registry.globals()[g].0 != "wl_output"@,
            r is None ==> final(self).outputs@ == old(self).outputs@ && final(wl).out@ == old(wl).out@
                && final(wl).ids == old(wl).ids,
            r matches Some(id) ==> exists|g: u32| {
                &&& #[trigger] old(wl).registry.globals().contains_key(g)
                &&& old(wl).registry.globals()[g].0 == "wl_output"@
                &&& (first_output(old(self).outputs@, g) matches Some(o) ==> {
                    &&& id == o
                    &&& final(self).outputs@ == old(self).outputs@
                    &&& final(wl).out@ == old(wl).out@
                    &&& final(wl).ids == old(wl).ids
                })
                &&& (first_output(old(self).outputs@, g) is None ==> {
                    &&& final(self).outputs@ == old(self).outputs@.push(OutputInfo { global_name: g, id })
                    &&& final(wl).out@ == old(wl).out@ + bind_output_bytes(
                        old(wl).registry.object_id(),
                        g,
                        old(wl).registry.globals()[g].1,
                        id,
                        old(wl).little(),
                    )
                    &&& took(old(wl).ids, final(wl).ids, seq![id])
                })
            },
    {
        match wl.registry.find("wl_output") {
            None => None,
            Some((name, version)) => {
                let ghost ids0 = wl.ids;
                proof {
                    ids0.lemma_freed_finite();
                    assert(ids0.freed().difference(Seq::<u32>::empty().to_set()) =~= ids0.freed());
                    assert(Seq::<u32>::empty().push(0u32) =~= seq![0u32]);
                }
                let id = self.output_for(wl, name, version, Ghost(ids0), Ghost(Seq::<u32>::empty()));
                proof {
                    assert(Seq::<u32>::empty().push(id) =~= seq![id]);
                }
                Some(id)
            },
        }
    }

    /// Tears the lock down: destroys every lock surface with its surface and
    /// buffers, forgets the lock, returns to unlocked and sends a `sync`.
    /// Hands back the surfaces (whose drawing resources are to be freed)
    /// and the `sync` callback.
    pub fn cleanup(&mut self, wl: &mut LockClient) -> (t: (Vec<LockSurfaceIds>, u32))
        requires
            old(wl).wf(),
            old(wl).ids.next_fresh() < u32::MAX,
        ensures
            final(wl).wf(),
            final(wl).little() == old(wl).little(),
            final(wl).registry == old(wl).registry,
            final(wl).compositor == old(wl).compositor,
            final(wl).manager == old(wl).manager,
            final(wl).lock == old(wl).lock,
            final(self).mode == AppStateMode::Unlocked,
            final(self).lock_id is None,
            final(self).outputs@ == old(self).outputs@,
            final(self).surfaces@ == Seq::<LockSurfaceIds>::empty(),
            t.0@ == old(self).surfaces@,
            final(wl).out@ == old(wl).out@ + teardowns_bytes(old(self).surfaces@, old(wl).little()) + message_bytes(
                1,
                0,
                word_bytes(t.1, old(wl).little()),
                old(wl).little(),
            ),
            final(wl).lock_surfaces.sizes() == without_lock_surfaces(old(wl).lock_surfaces.sizes(), old(self).surfaces@),
            took(old(wl).ids, final(wl).ids, seq![t.1]),
    {
        let little = wl.display.is_little_endian();
        let mut gone: Vec<LockSurfaceIds> = Vec::new();
        std::mem::swap(&mut gone, &mut self.surfaces);
        let ghost out0 = wl.out@;
        let ghost sizes0 = wl.lock_surfaces.sizes();
        let mut i: usize = 0;
        while i < gone.len()
            invariant
                i <= gone@.len(),
                gone@ == old(self).surfaces@,
                wl.little() == little,
                wl.wf(),
                wl.ids == old(wl).ids,
                wl.registry == old(wl).registry,
                wl.compositor == old(wl).compositor,
                wl.manager == old(wl).manager,
                wl.lock == old(wl).lock,
                wl.out@ == out0 + teardowns_bytes(gone@.take(i as int), little),
                wl.lock_surfaces.sizes() == without_lock_surfaces(sizes0, gone@.take(i as int)),
            decreases gone@.len() - i,
        {
            let e = gone[i];
            send_teardown(&mut wl.out, &mut wl.lock_surfaces, e, little);
            proof {
                let t1 = gone@.take(i + 1);
                assert(t1.drop_last() =~= gone@.take(i as int));
                assert(t1.last() == e);
            }
            i = i + 1;
        }
        proof {
            assert(gone@.take(gone@.len() as int) =~= gone@);
        }
        self.lock_id = None;
        self.mode = AppStateMode::Unlocked;
        let ghost ids0 = wl.ids;
        proof {
            ids0.lemma_freed_finite();
            assert(ids0.freed().difference(Seq::<u32>::empty().to_set()) =~= ids0.freed());
        }
        let cb = next_id(&mut wl.ids, Ghost(ids0), Ghost(Seq::<u32>::empty()));
        wl.display.sync(&mut wl.out, cb);
        proof {
            assert(Seq::<u32>::empty().push(cb) =~= seq![cb]);
        }
        (gone, cb)
    }

    /// Unlocks a locked session: sends `unlock_and_destroy` and tears the
    /// lock down as `cleanup` does. Does nothing unless locked.
    pub fn trigger_unlock(&mut self, wl: &mut LockClient) -> (t: Option<(Vec<LockSurfaceIds>, u32)>)
        requires
            old(wl).wf(),
            old(wl).ids.next_fresh() < u32::MAX,
        ensures
            final(wl).wf(),
            old(self).mode != AppStateMode::Locked ==> {
                &&& t is None
                &&& final(self).mode == old(self).mode
                &&& final(self).lock_id == old(self).lock_id
                &&& final(self).outputs@ == old(self).outputs@
                &&& final(self).surfaces@ == old(self).surfaces@
                &&& final(wl).out@ == old(wl).out@
                &&& final(wl).ids == old(wl).ids
                &&& final(wl).lock_surfaces == old(wl).lock_surfaces
            },
            old(self).mode == AppStateMode::Locked ==> (t matches Some((gone, cb)) && {
                &&& final(self).mode == AppStateMode::Unlocked
                &&& final(self).lock_id is None
                &&& final(self).outputs@ == old(self).outputs@
                &&& final(self).surfaces@ == Seq::<LockSurfaceIds>::empty()
                &&& gone@ == old(self).surfaces@
                &&& final(wl).out@ == old(wl).out@ + message_bytes(old(wl).lock.object_id(), 2, Seq::empty(), old(wl).little())
                    + teardowns_bytes(old(self).surfaces@, old(wl).little()) + message_bytes(
                    1,
                    0,
                    word_bytes(cb, old(wl).little()),
                    old(wl).little(),
                )
                &&& final(wl).lock_surfaces.sizes() == without_lock_surfaces(old(wl).lock_surfaces.sizes(), old(self).surfaces@)
                &&& took(old(wl).ids, final(wl).ids, seq![cb])
            }),
    {
        if self.mode != AppStateMode::Locked {
            return None;
        }
        wl.lock.unlock_and_destroy(&mut wl.out);
        let t = self.cleanup(wl);
        Some(t)
    }

    /// The compositor's answer to the lock request: `locked` makes the
    /// session locked; `finished` (the lock was refused or ended) tears the
    /// lock down as `cleanup` does and hands back what it hands back.
    pub fn on_lock_event(&mut self, wl: &mut LockClient, ev: ExtSessionLockEvent) -> (t: Option<(Vec<LockSurfaceIds>, u32)>)
        requires
            old(wl).wf(),
            old(wl).ids.next_fresh() < u32::MAX,
        ensures
            final(wl).wf(),
            ev is Locked ==> {
                &&& t is None
                &&& final(self).mode == AppStateMode::Locked
                &&& final(self).lock_id == old(self).lock_id
                &&& final(self).outputs@ == old(self).outputs@
                &&& final(self).surfaces@ == old(self).surfaces@
                &&& final(wl).out@ == old(wl).out@
                &&& final(wl).ids == old(wl).ids
            },
            ev is Finished ==> (t matches Some((gone, cb)) && {
                &&& final(self).mode == AppStateMode::Unlocked
                &&& final(self).lock_id is None
                &&& final(self).outputs@ == old(self).outputs@
                &&& final(self).surfaces@ == Seq::<LockSurfaceIds>::empty()
                &&& gone@ == old(self).surfaces@
                &&& final(wl).out@ == old(wl).out@ + teardowns_bytes(old(self).surfaces@, old(wl).little()) + message_bytes(
                    1,
                    0,
                    word_bytes(cb, old(wl).little()),
                    old(wl).little(),
                )
                &&& took(old(wl).ids, final(wl).ids, seq![cb])
            }),
    {
        match ev {
            ExtSessionLockEvent::Locked => {
                self.mode = AppStateMode::Locked;
                None
            },
            ExtSessionLockEvent::Finished => Some(self.cleanup(wl)),
        }
    }

    /// The ids a lock surface set-up hands out, in order.
    pub open spec fn setup_ids(e: LockSurfaceIds, bound: bool) -> Seq<u32> {
        (if bound { seq![e.output] } else { Seq::<u32>::empty() }) + seq![e.wl_surface, e.lock_surface]
    }

    /// Sets up a lock surface on output global `name` (advertised with
    /// `version`): binds the output unless it was bound before, creates a
    /// surface and asks the lock for a lock surface on it.
    fn lock_output(
        &mut self,
        wl: &mut LockClient,
        name: u32,
        version: u32,
        Ghost(b): Ghost<ObjectTable>,
        Ghost(used): Ghost<Seq<u32>>,
    )
        requires
            old(wl).wf(),
            took(b, old(wl).ids, used),
            old(wl).ids.next_fresh() + 3 <= u32::MAX,
        ensures
            final(wl).wf(),
            final(wl).little() == old(wl).little(),
            final(wl).registry == old(wl).registry,
            final(wl).compositor == old(wl).compositor,
            final(wl).manager == old(wl).manager,
            final(wl).lock == old(wl).lock,
            final(self).mode == old(self).mode,
            final(self).lock_id == old(self).lock_id,
            final(self).surfaces@.len() == old(self).surfaces@.len() + 1,
            final(self).surfaces@.drop_last() == old(self).surfaces@,
            ({
                let e = final(self).surfaces@.last();
                let bound = first_output(old(self).outputs@, name) is None;
                &&& e.global == name
                &&& e.buffer0 == 0 && e.buffer1 == 0
                &&& !bound ==> first_output(old(self).outputs@, name) == Some(e.output)
                    && final(self).outputs@ == old(self).outputs@
                &&& bound ==> final(self).outputs@ == old(self).outputs@.push(OutputInfo { global_name: name, id: e.output })
                &&& final(wl).out@ == old(wl).out@ + entry_bytes(
                    e,
                    bound,
                    old(wl).registry.object_id(),
                    version,
                    old(wl).compositor,
                    old(wl).lock.object_id(),
                    old(wl).little(),
                )
                &&& final(wl).lock_surfaces.sizes() == old(wl).lock_surfaces.sizes().insert(e.lock_surface, (0u32, 0u32))
                &&& took(b, final(wl).ids, used + Self::setup_ids(e, bound))
                &&& final(wl).ids.next_fresh() <= old(wl).ids.next_fresh() + 3
            }),
    {
        let little = wl.display.is_little_endian();
        let ghost used1 = used;
        let output = self.output_for(wl, name, version, Ghost(b), Ghost(used));
        proof {
            if first_output(old(self).outputs@, name) is None {
                used1 = used.push(output);
            }
        }
        let wl_surface = next_id(&mut wl.ids, Ghost(b), Ghost(used1));
        send_create_surface(&mut wl.out, wl.compositor, wl_surface, little);
        let lock_surface = next_id(&mut wl.ids, Ghost(b), Ghost(used1.push(wl_surface)));
        wl.lock.get_lock_surface(&mut wl.out, lock_surface, wl_surface, output);
        wl.lock_surfaces.register(lock_surface);
        let e = LockSurfaceIds { global: name, output, wl_surface, lock_surface, buffer0: 0, buffer1: 0 };
        self.surfaces.push(e);
        proof {
            let bound = first_output(old(self).outputs@, name) is None;
            assert(self.surfaces@.drop_last() =~= old(self).surfaces@);
            assert(used1.push(wl_surface).push(lock_surface) =~= used + Self::setup_ids(e, bound));
            assert(wl.out@ =~= old(wl).out@ + entry_bytes(
                e,
                bound,
                old(wl).registry.object_id(),
                version,
                old(wl).compositor,
                old(wl).lock.object_id(),
                old(wl).little(),
            ));
        }
    }

    /// Locks the session when it is unlocked: creates the lock object, asks
    /// the manager to lock, and sets up one lock surface per announced
    /// output, in the order the registry lists them. Does nothing otherwise.
    pub fn trigger_lock(&mut self, wl: &mut LockClient)
        requires
            old(wl).wf(),
            old(wl).ids.next_fresh() + 1 + 3 * old(wl).registry.globals().dom().len() <= u32::MAX,
        ensures
            final(wl).wf(),
            final(wl).little() == old(wl).little(),
            final(wl).registry == old(wl).registry,
            final(wl).compositor == old(wl).compositor,
            final(wl).manager == old(wl).manager,
            old(self).mode != AppStateMode::Unlocked ==> {
                &&& final(self).mode == old(self).mode
                &&& final(self).lock_id == old(self).lock_id
                &&& final(self).outputs@ == old(self).outputs@
                &&& final(self).surfaces@ == old(self).surfaces@
                &&& final(wl).out@ == old(wl).out@
                &&& final(wl).ids == old(wl).ids
                &&& final(wl).lock == old(wl).lock
                &&& final(wl).lock_surfaces == old(wl).lock_surfaces
            },
            old(self).mode == AppStateMode::Unlocked ==> ({
                let l = final(wl).lock.object_id();
                let n0 = old(self).surfaces@.len();
                let es = final(self).surfaces@.subrange(n0 as int, final(self).surfaces@.len() as int);
                let globals = old(wl).registry.globals();
                let little = old(wl).little();
                &&& final(self).mode == AppStateMode::Locking
                &&& final(self).lock_id == Some(l)
                &&& final(self).surfaces@.len() >= n0
                &&& final(self).surfaces@.subrange(0, n0 as int) == old(self).surfaces@
                &&& forall|i: int, j: int| 0 <= i < j < es.len() ==> es[i].global != es[j].global
                &&& forall|i: int| 0 <= i < es.len() ==> {
                    &&& globals.contains_key(#[trigger] es[i].global)
                    &&& globals[es[i].global].0 == "wl_output"@
                    &&& es[i].buffer0 == 0 && es[i].buffer1 == 0
                    &&& first_output(old(self).outputs@, es[i].global) matches Some(o) ==> es[i].output == o
                }
                &&& forall|g: u32| #[trigger] globals.contains_key(g) && globals[g].0 == "wl_output"@
                    ==> exists|i: int| 0 <= i < es.len() && es[i].global == g
                &&& final(self).outputs@ == old(self).outputs@ + bound_outputs(es, old(self).outputs@)
                &&& final(wl).out@ == old(wl).out@ + message_bytes(
                    old(wl).manager.object_id(),
                    1,
                    word_bytes(l, little),
                    little,
                ) + entries_bytes(es, old(self).outputs@, old(wl).registry.object_id(), globals, old(wl).compositor, l, little)
                &&& final(wl).lock_surfaces.sizes() == with_lock_surfaces(old(wl).lock_surfaces.sizes(), es)
                &&& took(old(wl).ids, final(wl).ids, seq![l] + setups_ids(es, old(self).outputs@))
            }),
    {
        if self.mode != AppStateMode::Unlocked {
            return;
        }
        let ghost ids0 = wl.ids;
        let ghost o0 = self.outputs@;
        let ghost s0 = self.surfaces@;
        let ghost sizes0 = wl.lock_surfaces.sizes();
        let little = wl.display.is_little_endian();
        self.mode = AppStateMode::Locking;
        proof {
            ids0.lemma_freed_finite();
            assert(ids0.freed().difference(Seq::<u32>::empty().to_set()) =~= ids0.freed());
            wl.registry.lemma_globals_finite();
        }
        let lock_id = next_id(&mut wl.ids, Ghost(ids0), Ghost(Seq::<u32>::empty()));
        wl.lock.set_id(lock_id);
        wl.manager.lock(&mut wl.out, lock_id);
        self.lock_id = Some(lock_id);
        let ghost out_l = wl.out@;
        let ghost used_l = seq![lock_id];
        assert(Seq::<u32>::empty().push(lock_id) =~= used_l);
        let found = wl.registry.find_all("wl_output");
        let ghost globals = wl.registry.globals();
        proof {
            let names = found@.map_values(|f: (u32, u32)| f.0);
            assert(names.no_duplicates()) by {
                assert forall|i: int, j: int| 0 <= i < names.len() && 0 <= j < names.len() && i != j implies names[i] != names[j] by {
                    if i < j {
                        assert(found@[i].0 != found@[j].0);
                    } else {
                        assert(found@[j].0 != found@[i].0);
                    }
                }
            }
            names.unique_seq_to_set();
            assert(names.to_set().subset_of(globals.dom())) by {
                assert forall|x: u32| names.to_set().contains(x) implies globals.dom().contains(x) by {
                    let i = choose|i: int| 0 <= i < names.len() && names[i] == x;
                    let (n, v) = found@[i];
                }
            }
            vstd::set_lib::lemma_len_subset(names.to_set(), globals.dom());
        }
        let mut k: usize = 0;
        while k < found.len()
            invariant
                k <= found@.len(),
                found@.len() <= globals.dom().len(),
                globals == wl.registry.globals(),
                forall|i: int| 0 <= i < found@.len() ==> {
                    let (n, v) = #[trigger] found@[i];
                    globals.contains_key(n) && globals[n] == ("wl_output"@, v)
                },
                forall|i: int, j: int| 0 <= i < j < found@.len() ==> found@[i].0 != found@[j].0,
                wl.wf(),
                wl.little() == little,
                wl.registry == old(wl).registry,
                wl.compositor == old(wl).compositor,
                wl.manager == old(wl).manager,
                wl.lock.object_id() == lock_id,
                ids0 == old(wl).ids,
                ids0.next_fresh() + 1 + 3 * globals.dom().len() <= u32::MAX,
                self.mode == AppStateMode::Locking,
                self.lock_id == Some(lock_id),
                self.surfaces@.len() == s0.len() + k,
                self.surfaces@.subrange(0, s0.len() as int) == s0,
                ({
                    let es = self.surfaces@.subrange(s0.len() as int, self.surfaces@.len() as int);
                    &&& forall|i: int| 0 <= i < k ==> {
                        &&& #[trigger] es[i].global == found@[i].0
                        &&& es[i].buffer0 == 0 && es[i].buffer1 == 0
                        &&& first_output(o0, es[i].global) matches Some(o) ==> es[i].output == o
                    }
                    &&& self.outputs@ == o0 + bound_outputs(es, o0)
                    &&& wl.out@ == out_l + entries_bytes(es, o0, old(wl).registry.object_id(), globals, old(wl).compositor, lock_id, little)
                    &&& wl.lock_surfaces.sizes() == with_lock_surfaces(sizes0, es)
                    &&& took(ids0, wl.ids, used_l + setups_ids(es, o0))
                }),
                wl.ids.next_fresh() <= ids0.next_fresh() + 1 + 3 * k,
            decreases found@.len() - k,
        {
            let (name, version) = found[k];
            let ghost es0 = self.surfaces@.subrange(s0.len() as int, self.surfaces@.len() as int);
            let ghost outs_before = self.outputs@;
            let ghost out_before = wl.out@;
            let ghost sizes_before = wl.lock_surfaces.sizes();
            proof {
                lemma_bound_outputs_globals(es0, o0);
                let more = bound_outputs(es0, o0);
                assert forall|i: int| 0 <= i < more.len() implies #[trigger] more[i].global_name != name by {
                    let j = choose|j: int| 0 <= j < es0.len() && more[i].global_name == es0[j].global;
                    assert(es0[j].global == found@[j].0);
                }
                crate::lockscreen::lemma_first_output_append(o0, more, name);
            }
            self.lock_output(wl, name, version, Ghost(ids0), Ghost(used_l + setups_ids(es0, o0)));
            proof {
                let es1 = self.surfaces@.subrange(s0.len() as int, self.surfaces@.len() as int);
                let e = self.surfaces@.last();
                assert(es1.drop_last() =~= es0);
                assert(es1.last() == e);
                assert(self.surfaces@.subrange(0, s0.len() as int) =~= s0) by {
                    assert(self.surfaces@.drop_last().subrange(0, s0.len() as int) =~= s0);
                }
                assert forall|i: int| 0 <= i < k + 1 implies {
                    &&& #[trigger] es1[i].global == found@[i].0
                    &&& es1[i].buffer0 == 0 && es1[i].buffer1 == 0
                    &&& first_output(o0, es1[i].global) matches Some(o) ==> es1[i].output == o
                } by {
                    if i < k {
                        assert(es1[i] == es0[i]);
                    }
                }
                assert(found@[k as int] == (name, version));
                assert(globals[name].1 == version);
                assert((used_l + setups_ids(es0, o0)) + LockSession::setup_ids(e, first_output(o0, name) is None)
                    =~= used_l + setups_ids(es1, o0));
                assert(self.outputs@ =~= o0 + bound_outputs(es1, o0));
                assert(wl.out@ =~= out_l + entries_bytes(es1, o0, old(wl).registry.object_id(), globals, old(wl).compositor, lock_id, little));
            }
            k = k + 1;
        }
        proof {
            let es = self.surfaces@.subrange(s0.len() as int, self.surfaces@.len() as int);
            assert forall|g: u32| #[trigger] globals.contains_key(g) && globals[g].0 == "wl_output"@
                implies exists|i: int| 0 <= i < es.len() && es[i].global == g by {
                assert(found@.contains((g, globals[g].1)));
                let i = choose|i: int| 0 <= i < found@.len() && found@[i] == (g, globals[g].1);
                assert(es[i].global == found@[i].0);
            }
            assert forall|i: int| 0 <= i < es.len() implies {
                &&& globals.contains_key(#[trigger] es[i].global)
                &&& globals[es[i].global].0 == "wl_output"@
                &&& es[i].buffer0 == 0 && es[i].buffer1 == 0
                &&& first_output(o0, es[i].global) matches Some(o) ==> es[i].output == o
            } by {
                assert(es[i].global == found@[i].0);
            }
            assert forall|i: int, j: int| 0 <= i < j < es.len() implies es[i].global != es[j].global by {
                assert(es[i].global == found@[i].0);
                assert(es[j].global == found@[j].0);
            }
            assert(seq![lock_id] =~= used_l);
        }
    }
}

} // verus!
