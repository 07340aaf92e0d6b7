//! Server-side bookkeeping: client ids, the events announcing clients and
//! their messages, and the object-id table of a connection.
use std::collections::HashMap;
use std::collections::HashSet;

use vstd::std_specs::iter::IteratorSpec;

use vstd::prelude::*;

use vstd::string::StringSliceAdditionalSpecFns;
use vstd::utf8::{encode_utf8, valid_utf8};

use crate::client::global_parses;
use crate::wire::{
    encode_message, encode_string, lemma_string_roundtrip, lemma_word_roundtrip, message_bytes,
    push_word, read_string, read_u32, string_bytes, wire_string_at, word_at, word_bytes, ObjectId,
    RawWaylandEvent,
};

verus! {

broadcast use vstd::std_specs::hash::group_hash_axioms;

/// Object ids the server allocates start here.
pub const SERVER_ID_START: u32 = 0xFF00_0000;

/// Identifies a connected client.
#[derive(Debug, Clone, Copy, Hash, PartialEq, Eq, Structural)]
pub struct ClientId(pub u32);

/// A client connected.
#[derive(Debug)]
pub struct ClientConnected {
    pub id: ClientId,
}

/// A message from a client.
#[derive(Debug)]
pub struct ClientRawEvent {
    pub client_id: ClientId,
    pub raw: RawWaylandEvent,
}

/// The clients accepted so far, each with the `sync` callback waiting to
/// be answered at the next poll (if any), and the id the next one gets.
pub struct ClientTable {
    next_client_id: u32,
    clients: HashMap<u32, Option<u32>>,
}

impl ClientTable {
    /// Ids of the connected clients.
    pub closed spec fn connected(&self) -> Set<u32> {
        self.clients@.dom()
    }

    /// The waiting `sync` callback of each connected client that has one.
    pub closed spec fn pending_syncs(&self) -> Map<u32, u32> {
        Map::new(|c: u32| self.clients@.contains_key(c) && self.clients@[c] is Some, |c: u32| self.clients@[c]->0)
    }

    /// The id the next accepted client gets.
    pub closed spec fn next_id(&self) -> u32 {
        self.next_client_id
    }

    /// Every connected client has an id below the next one.
    pub closed spec fn wf(&self) -> bool {
        forall|c: u32| #[trigger] self.clients@.contains_key(c) ==> c < self.next_client_id
    }

    /// Clients waiting for a `sync` answer are connected.
    pub proof fn lemma_pending_connected(&self)
        ensures
            self.pending_syncs().dom().subset_of(self.connected()),
    {
    }

    /// No client yet; ids start at 0.
    pub fn new() -> (t: Self)
        ensures
            t.wf(),
            t.connected() == Set::<u32>::empty(),
            t.pending_syncs() == Map::<u32, u32>::empty(),
            t.next_id() == 0,
    {
        let t = ClientTable { next_client_id: 0, clients: HashMap::new() };
        assert(t.pending_syncs() =~= Map::<u32, u32>::empty());
        t
    }

    /// An accept completed with `result` (a descriptor when not negative):
    /// the new client gets the next id, with no `sync` waiting.
    pub fn on_accept(&mut self, result: i32) -> (r: Option<ClientConnected>)
        requires
            old(self).wf(),
            result >= 0 ==> old(self).next_id() < u32::MAX,
        ensures
            final(self).wf(),
            final(self).pending_syncs() == old(self).pending_syncs(),
            result < 0 ==> r is None && final(self).connected() == old(self).connected()
                && final(self).next_id() == old(self).next_id(),
            result >= 0 ==> {
                &&& r == Some(ClientConnected { id: ClientId(old(self).next_id()) })
                &&& !old(self).connected().contains(old(self).next_id())
                &&& final(self).connected() == old(self).connected().insert(old(self).next_id())
                &&& final(self).next_id() == old(self).next_id() + 1
            },
    {
        if result < 0 {
            return None;
        }
        let id = self.next_client_id;
        self.next_client_id = id + 1;
        self.clients.insert(id, None);
        assert(self.pending_syncs() =~= old(self).pending_syncs());
        Some(ClientConnected { id: ClientId(id) })
    }

    /// The client disconnected; its waiting `sync` is dropped.
    pub fn on_disconnect(&mut self, id: ClientId)
        requires
            old(self).wf(),
        ensures
            final(self).wf(),
            final(self).connected() == old(self).connected().remove(id.0),
            final(self).pending_syncs() == old(self).pending_syncs().remove(id.0),
            final(self).next_id() == old(self).next_id(),
    {
        self.clients.remove(&id.0);
        assert(self.pending_syncs() =~= old(self).pending_syncs().remove(id.0));
    }

    /// Whether client `id` is connected.
    pub fn is_connected(&self, id: ClientId) -> (r: bool)
        ensures
            r == self.connected().contains(id.0),
    {
        self.clients.contains_key(&id.0)
    }

    /// Client `id` sent `sync` with `callback`: it is answered at the next
    /// poll (replacing one still waiting). Unknown clients are ignored.
    pub fn set_pending_sync(&mut self, id: ClientId, callback: u32)
        requires
            old(self).wf(),
        ensures
            final(self).wf(),
            final(self).connected() == old(self).connected(),
            final(self).next_id() == old(self).next_id(),
            final(self).pending_syncs() == (if old(self).connected().contains(id.0) {
                old(self).pending_syncs().insert(id.0, callback)
            } else {
                old(self).pending_syncs()
            }),
    {
        if self.clients.contains_key(&id.0) {
            self.clients.insert(id.0, Some(callback));
            assert(self.clients@.dom() =~= old(self).clients@.dom());
            assert(self.pending_syncs() =~= old(self).pending_syncs().insert(id.0, callback));
        }
    }

    /// Takes every waiting `sync`, each client once (in no particular
    /// order): each is then answered with `done`. None waits afterwards.
    pub fn take_pending_syncs(&mut self) -> (due: Vec<(ClientId, u32)>)
        requires
            old(self).wf(),
        ensures
            final(self).wf(),
            final(self).connected() == old(self).connected(),
            final(self).next_id() == old(self).next_id(),
            final(self).pending_syncs() == Map::<u32, u32>::empty(),
            forall|i: int| 0 <= i < due@.len() ==> {
                let (c, cb) = #[trigger] due@[i];
                old(self).pending_syncs().contains_key(c.0) && old(self).pending_syncs()[c.0] == cb
            },
            forall|c: u32| #[trigger] old(self).pending_syncs().contains_key(c)
                ==> due@.contains((ClientId(c), old(self).pending_syncs()[c])),
            forall|i: int, j: int| 0 <= i < j < due@.len() ==> due@[i].0 != due@[j].0,
    {
        let ghost m = self.clients@;
        let ghost pend = old(self).pending_syncs();
        let ghost sq = vstd::std_specs::hash::spec_hash_map_iter(&self.clients).remaining();
        let mut due: Vec<(ClientId, u32)> = Vec::new();
        let ghost mut idx: Seq<int> = Seq::empty();
        for kv in it: self.clients.iter()
            invariant
                m == self.clients@,
                pend == old(self).pending_syncs(),
                self.clients@ == old(self).clients@,
                it.seq() == sq,
                sq.no_duplicates(),
                sq.len() == m.dom().len(),
                forall|i: int| 0 <= i < sq.len() ==> m.contains_key(*sq[i].0) && m[*sq[i].0] == *sq[i].1,
                idx.len() == due@.len(),
                forall|a: int| 0 <= a < idx.len() ==> 0 <= #[trigger] idx[a] < it.index(),
                forall|a: int, b: int| 0 <= a < b < idx.len() ==> idx[a] < idx[b],
                forall|a: int| 0 <= a < due@.len() ==> #[trigger] due@[a] == (ClientId(*sq[idx[a]].0), (*sq[idx[a]].1)->0)
                    && (*sq[idx[a]].1) is Some,
                forall|i: int| 0 <= i < it.index() && (*sq[i].1) is Some ==> exists|a: int| 0 <= a < idx.len() && idx[a] == i,
        {
            let ghost i0 = it.index();
            let ghost idx0 = idx;
            let (k, v) = kv;
            assert(kv == sq[i0]);
            if let Some(cb) = v {
                proof {
                    idx = idx.push(i0);
                }
                let ghost due0 = due@;
                due.push((ClientId(*k), *cb));
                proof {
                    assert forall|a: int| 0 <= a < due@.len() implies #[trigger] due@[a] == (ClientId(*sq[idx[a]].0), (*sq[idx[a]].1)->0)
                        && (*sq[idx[a]].1) is Some by {
                        if a < due0.len() {
                            assert(due@[a] == due0[a]);
                            assert(idx[a] == idx0[a]);
                        }
                    }
                }
            }
            proof {
                assert forall|i: int| 0 <= i < i0 + 1 && (*sq[i].1) is Some implies exists|a: int| 0 <= a < idx.len() && idx[a] == i by {
                    if i < i0 {
                        let a = choose|a: int| 0 <= a < idx0.len() && idx0[a] == i;
                        assert(idx[a] == i);
                    } else {
                        assert(idx[idx.len() - 1] == i);
                    }
                }
            }
        }
        proof {
            assert forall|i: int| 0 <= i < due@.len() implies {
                let (c, cb) = #[trigger] due@[i];
                pend.contains_key(c.0) && pend[c.0] == cb
            } by {
                assert(m.contains_key(*sq[idx[i]].0));
            }
            assert forall|c: u32| #[trigger] pend.contains_key(c) implies due@.contains((ClientId(c), pend[c])) by {
                assert(sq.contains((&c, &m[c])));
                let i = choose|i: int| 0 <= i < sq.len() && sq[i] == (&c, &m[c]);
                let a = choose|a: int| 0 <= a < idx.len() && idx[a] == i;
                assert(due@[a] == (ClientId(c), pend[c]));
            }
            assert forall|a: int| 0 <= a < due@.len() implies pend.contains_key(#[trigger] due@[a].0.0) by {
                assert(m.contains_key(*sq[idx[a]].0));
            }
            assert forall|i: int, j: int| 0 <= i < j < due@.len() implies due@[i].0 != due@[j].0 by {
                assert(idx[i] < idx[j]);
                if due@[i].0 == due@[j].0 {
                    let ki = *sq[idx[i]].0;
                    assert(sq[idx[i]] == (&ki, &m[ki]));
                    assert(sq[idx[j]] == (&ki, &m[ki]));
                }
            }
        }
        let mut j: usize = 0;
        while j < due.len()
            invariant
                j <= due@.len(),
                self.clients@.dom() == m.dom(),
                self.next_client_id == old(self).next_client_id,
                forall|c: u32| #[trigger] self.clients@.contains_key(c) && self.clients@[c] is Some ==> m[c] is Some
                    && !exists|a: int| 0 <= a < j && due@[a].0.0 == c,
                forall|c: u32| #[trigger] pend.contains_key(c) ==> due@.contains((ClientId(c), pend[c])),
                pend == old(self).pending_syncs(),
                m == old(self).clients@,
                forall|a: int| 0 <= a < due@.len() ==> pend.contains_key(#[trigger] due@[a].0.0),
            decreases due@.len() - j,
        {
            let c = due[j].0;
            self.clients.insert(c.0, None);
            proof {
                assert(pend.contains_key(due@[j as int].0.0));
                assert(self.clients@.dom() =~= m.dom());
                assert forall|x: u32| #[trigger] self.clients@.contains_key(x) && self.clients@[x] is Some implies m[x] is Some
                    && !exists|a: int| 0 <= a < j + 1 && due@[a].0.0 == x by {
                    if x != c.0 {
                        if exists|a: int| 0 <= a < j + 1 && due@[a].0.0 == x {
                            let a = choose|a: int| 0 <= a < j + 1 && due@[a].0.0 == x;
                            assert(a < j);
                        }
                    }
                }
            }
            j = j + 1;
        }
        proof {
            assert forall|c: u32| !(self.clients@.contains_key(c) && self.clients@[c] is Some) by {
                if self.clients@.contains_key(c) && self.clients@[c] is Some {
                    assert(pend.contains_key(c));
                    assert(due@.contains((ClientId(c), pend[c])));
                    let a = choose|a: int| 0 <= a < due@.len() && due@[a] == (ClientId(c), pend[c]);
                    assert(due@[a].0.0 == c);
                }
            }
            assert(self.pending_syncs() =~= Map::<u32, u32>::empty());
        }
        due
    }
}

/// The live objects of a connection with their interface names, and the
/// ids freed for reuse.
pub struct ObjectTable {
    next_id: u32,
    interfaces: HashMap<u32, &'static str>,
    deleted: HashSet<u32>,
}

impl ObjectTable {
    /// The live objects and their interface names.
    pub closed spec fn live(&self) -> Map<u32, Seq<char>> {
        self.interfaces@.map_values(|s: &'static str| s@)
    }

    /// Ids freed and not yet reused.
    pub closed spec fn freed(&self) -> Set<u32> {
        self.deleted@
    }

    /// The id handed out when no freed id is left.
    pub closed spec fn next_fresh(&self) -> u32 {
        self.next_id
    }

    /// Freed ids are not live, and finitely many.
    pub closed spec fn wf(&self) -> bool {
        &&& forall|k: u32| #[trigger] self.deleted@.contains(k) ==> !self.interfaces@.contains_key(k)
        &&& self.deleted@.finite()
    }

    /// In a consistent table no freed id is live.
    pub proof fn lemma_freed_not_live(&self)
        requires
            self.wf(),
        ensures
            forall|k: u32| #[trigger] self.freed().contains(k) ==> !self.live().contains_key(k),
    {
    }

    /// A consistent table frees finitely many ids.
    pub proof fn lemma_freed_finite(&self)
        requires
            self.wf(),
        ensures
            self.freed().finite(),
    {
    }

    /// A table holding the display (object 1); fresh ids start at
    /// `next_id` (2 for a client, `SERVER_ID_START` for a server).
    pub fn new(next_id: u32) -> (t: Self)
        ensures
            t.wf(),
            t.live() == Map::<u32, Seq<char>>::empty().insert(1, "wl_display"@),
            t.freed() == Set::<u32>::empty(),
            t.next_fresh() == next_id,
            next_id > 1 ==> ids_below(t),
    {
        let mut interfaces: HashMap<u32, &'static str> = HashMap::new();
        interfaces.insert(1, "wl_display");
        let t = ObjectTable { next_id, interfaces, deleted: HashSet::new() };
        assert(t.live() =~= Map::<u32, Seq<char>>::empty().insert(1, "wl_display"@));
        t
    }

    /// The interface of live object `id`.
    pub fn get_interface(&self, id: ObjectId) -> (r: Option<&'static str>)
        ensures
            r is Some <==> self.live().contains_key(id.0),
            r matches Some(s) ==> s@ == self.live()[id.0],
    {
        match self.interfaces.get(&id.0) {
            Some(s) => Some(*s),
            None => None,
        }
    }

    /// Records `id` as a live object of interface `name`.
    pub fn register(&mut self, id: ObjectId, name: &'static str)
        requires
            old(self).wf(),
        ensures
            final(self).wf(),
            final(self).live() == old(self).live().insert(id.0, name@),
            final(self).freed() == old(self).freed().remove(id.0),
            final(self).next_fresh() == old(self).next_fresh(),
    {
        self.interfaces.insert(id.0, name);
        self.deleted.remove(&id.0);
        assert(self.live() =~= old(self).live().insert(id.0, name@));
    }

    /// An id for a new object: a freed one if any (which one is up to the
    /// set), else the next fresh one.
    pub fn alloc_id(&mut self) -> (id: ObjectId)
        requires
            old(self).wf(),
            old(self).freed().len() == 0 ==> old(self).next_fresh() < u32::MAX,
        ensures
            final(self).wf(),
            final(self).live() == old(self).live(),
            old(self).freed().len() > 0 ==> {
                &&& old(self).freed().contains(id.0)
                &&& final(self).freed() == old(self).freed().remove(id.0)
                &&& final(self).next_fresh() == old(self).next_fresh()
            },
            old(self).freed().len() == 0 ==> {
                &&& id.0 == old(self).next_fresh()
                &&& final(self).freed() == old(self).freed()
                &&& final(self).next_fresh() == old(self).next_fresh() + 1
            },
    {
        let mut found: Option<u32> = None;
        let ghost d = self.deleted@;
        let ghost sq = vstd::std_specs::hash::spec_hash_keys_iter(&self.deleted).remaining();
        let ghost n = sq.len();
        for k in it: self.deleted.iter()
            invariant
                d == self.deleted@,
                it.seq() == sq,
                sq.unref().to_set() == d,
                sq.len() == d.len(),
                found matches Some(x) ==> d.contains(x),
                found is None ==> it.index() == 0,
        {
            if found.is_none() {
                proof {
                    let i = it.index();
                    assert(sq.unref()[i] == *k);
                    assert(sq.unref().contains(*k));
                }
                found = Some(*k);
            }
        }
        match found {
            Some(id) => {
                self.deleted.remove(&id);
                ObjectId(id)
            },
            None => {
                let id = self.next_id;
                self.next_id = id + 1;
                ObjectId(id)
            },
        }
    }

    /// Object `id` is gone: it stops being live and its id may be reused.
    pub fn invalidate_object(&mut self, id: ObjectId)
        requires
            old(self).wf(),
        ensures
            final(self).wf(),
            final(self).live() == old(self).live().remove(id.0),
            final(self).freed() == old(self).freed().insert(id.0),
            final(self).next_fresh() == old(self).next_fresh(),
    {
        self.interfaces.remove(&id.0);
        self.deleted.insert(id.0);
        assert(self.live() =~= old(self).live().remove(id.0));
    }
}

/// Every id the table knows, live or freed, is below the next fresh one:
/// then no id it hands out is one already in use.
pub open spec fn ids_below(t: ObjectTable) -> bool {
    forall|k: u32|
        #![trigger t.live().contains_key(k)]
        #![trigger t.freed().contains(k)]
        (t.live().contains_key(k) || t.freed().contains(k)) ==> k < t.next_fresh()
}

/// A request to the display singleton.
#[derive(Debug, Clone, Copy, PartialEq, Eq, Structural)]
pub enum DisplayRequest {
    Sync { callback: u32 },
    GetRegistry { registry: u32 },
}

/// `sync` (opcode 0) and `get_registry` (opcode 1), each with the new
/// object's id; `None` for other opcodes or a body too short.
pub fn parse_display_request(raw: &RawWaylandEvent, little: bool) -> (r: Option<DisplayRequest>)
    ensures
        r is Some <==> raw.opcode <= 1 && raw.data@.len() >= 4,
        r matches Some(DisplayRequest::Sync { callback }) ==> raw.opcode == 0 && callback == word_at(raw.data@, 0, little),
        r matches Some(DisplayRequest::GetRegistry { registry }) ==> raw.opcode == 1 && registry == word_at(raw.data@, 0, little),
{
    let mut o: usize = 0;
    if raw.opcode > 1 {
        return None;
    }
    match read_u32(raw.data.as_slice(), &mut o, little) {
        Some(id) => if raw.opcode == 0 {
            Some(DisplayRequest::Sync { callback: id })
        } else {
            Some(DisplayRequest::GetRegistry { registry: id })
        },
        None => None,
    }
}

/// A `bind` request to the registry.
#[derive(Debug)]
pub struct BindRequest {
    pub name: u32,
    pub interface: String,
    pub version: u32,
    pub id: u32,
}

/// `bind` (opcode 0): name, interface, version and new id; `None` for
/// other opcodes or a body that does not parse.
pub fn parse_registry_request(raw: &RawWaylandEvent, little: bool) -> (r: Option<BindRequest>)
    ensures
        ({
            let d = raw.data@;
            &&& r is Some <==> raw.opcode == 0 && d.len() >= 4 && (wire_string_at(d, 4, little) matches Some((c, e))
                && valid_utf8(c) && e + 8 <= d.len())
            &&& r matches Some(b) ==> {
                let (c, e) = wire_string_at(d, 4, little).unwrap();
                &&& b.name == word_at(d, 0, little)
                &&& encode_utf8(b.interface@) == c
                &&& b.version == word_at(d, e, little)
                &&& b.id == word_at(d, e + 4, little)
            }
        }),
{
    if raw.opcode != 0 {
        return None;
    }
    let d = raw.data.as_slice();
    let mut o: usize = 0;
    let name = match read_u32(d, &mut o, little) {
        Some(v) => v,
        None => return None,
    };
    let interface = match read_string(d, &mut o, little) {
        Some(st) => st,
        None => return None,
    };
    let version = match read_u32(d, &mut o, little) {
        Some(v) => v,
        None => return None,
    };
    let id = match read_u32(d, &mut o, little) {
        Some(v) => v,
        None => return None,
    };
    Some(BindRequest { name, interface, version, id })
}

/// A request to the display or registry of a client.
#[derive(Debug)]
pub enum CoreRequest {
    Display(DisplayRequest),
    Bind(BindRequest),
}

/// Reads a request sent to a display or registry object, by the interface
/// the client's object table records for the sender. A `sync` or
/// `get_registry` makes the new callback or registry a live object of
/// the client; requests to other or unknown objects are left to others
/// (`None`) and change nothing.
pub fn dispatch_request(objects: &mut ObjectTable, raw: &RawWaylandEvent, little: bool) -> (r: Option<CoreRequest>)
    requires
        old(objects).wf(),
    ensures
        final(objects).wf(),
        final(objects).freed() == old(objects).freed() - final(objects).live().dom(),
        final(objects).next_fresh() == old(objects).next_fresh(),
        ({
            let id = raw.object_id.0;
            let d = raw.data@;
            let before = old(objects).live();
            if before.contains_key(id) && before[id] == "wl_display"@ {
                &&& r is Some <==> raw.opcode <= 1 && d.len() >= 4
                &&& r is None ==> final(objects).live() == before
                &&& r matches Some(CoreRequest::Display(DisplayRequest::Sync { callback })) ==> {
                    &&& raw.opcode == 0
                    &&& callback == word_at(d, 0, little)
                    &&& final(objects).live() == before.insert(callback, "wl_callback"@)
                }
                &&& r matches Some(CoreRequest::Display(DisplayRequest::GetRegistry { registry })) ==> {
                    &&& raw.opcode == 1
                    &&& registry == word_at(d, 0, little)
                    &&& final(objects).live() == before.insert(registry, "wl_registry"@)
                }
                &&& !(r matches Some(CoreRequest::Bind(_)))
            } else if before.contains_key(id) && before[id] == "wl_registry"@ {
                &&& final(objects).live() == before
                &&& r is Some <==> raw.opcode == 0 && d.len() >= 4 && (wire_string_at(d, 4, little) matches Some((c, e))
                    && valid_utf8(c) && e + 8 <= d.len())
                &&& r matches Some(CoreRequest::Bind(b)) ==> {
                    let (c, e) = wire_string_at(d, 4, little).unwrap();
                    &&& b.name == word_at(d, 0, little)
                    &&& encode_utf8(b.interface@) == c
                    &&& b.version == word_at(d, e, little)
                    &&& b.id == word_at(d, e + 4, little)
                }
                &&& !(r matches Some(CoreRequest::Display(_)))
            } else {
                &&& r is None
                &&& final(objects).live() == before
            }
        }),
{
    let iface: String = match objects.get_interface(raw.object_id) {
        Some(s) => s.to_owned(),
        None => {
            assert(objects.freed() =~= old(objects).freed() - objects.live().dom());
            return None;
        },
    };
    proof {
        reveal_strlit("wl_display");
        reveal_strlit("wl_registry");
    }
    if iface == "wl_display".to_owned() {
        match parse_display_request(raw, little) {
            Some(DisplayRequest::Sync { callback }) => {
                objects.register(ObjectId(callback), "wl_callback");
                assert(objects.freed() =~= old(objects).freed() - objects.live().dom());
                Some(CoreRequest::Display(DisplayRequest::Sync { callback }))
            },
            Some(DisplayRequest::GetRegistry { registry }) => {
                objects.register(ObjectId(registry), "wl_registry");
                assert(objects.freed() =~= old(objects).freed() - objects.live().dom());
                Some(CoreRequest::Display(DisplayRequest::GetRegistry { registry }))
            },
            None => {
                assert(objects.freed() =~= old(objects).freed() - objects.live().dom());
                None
            },
        }
    } else if iface == "wl_registry".to_owned() {
        assert(objects.freed() =~= old(objects).freed() - objects.live().dom());
        match parse_registry_request(raw, little) {
            Some(b) => Some(CoreRequest::Bind(b)),
            None => None,
        }
    } else {
        assert(objects.freed() =~= old(objects).freed() - objects.live().dom());
        None
    }
}

/// The body of a `wl_registry.global` event.
pub open spec fn global_body(name: u32, interface: Seq<u8>, version: u32, little: bool) -> Seq<u8> {
    word_bytes(name, little) + string_bytes(interface, little) + word_bytes(version, little)
}

/// Sends `wl_registry.global` from registry `registry`.
pub fn send_global(out: &mut Vec<u8>, registry: u32, name: u32, interface: &str, version: u32, little: bool)
    requires
        interface.spec_bytes().len() + 1 <= u32::MAX,
        interface.spec_bytes().len() + 32 <= usize::MAX,
    ensures
        final(out)@ == old(out)@ + message_bytes(registry, 0, global_body(name, interface.spec_bytes(), version, little), little),
{
    let mut body: Vec<u8> = Vec::new();
    push_word(&mut body, name, little);
    encode_string(&mut body, interface, little);
    push_word(&mut body, version, little);
    assert(body@ =~= global_body(name, interface.spec_bytes(), version, little));
    encode_message(out, registry, 0, body.as_slice(), little);
}

/// Sends `wl_registry.global_remove` from registry `registry`.
pub fn send_global_remove(out: &mut Vec<u8>, registry: u32, name: u32, little: bool)
    ensures
        final(out)@ == old(out)@ + message_bytes(registry, 1, word_bytes(name, little), little),
{
    let mut body: Vec<u8> = Vec::new();
    push_word(&mut body, name, little);
    assert(body@ =~= word_bytes(name, little));
    encode_message(out, registry, 1, body.as_slice(), little);
}

/// Sends `wl_callback.done` from callback `callback`.
pub fn send_done(out: &mut Vec<u8>, callback: u32, data: u32, little: bool)
    ensures
        final(out)@ == old(out)@ + message_bytes(callback, 0, word_bytes(data, little), little),
{
    let mut body: Vec<u8> = Vec::new();
    push_word(&mut body, data, little);
    assert(body@ =~= word_bytes(data, little));
    encode_message(out, callback, 0, body.as_slice(), little);
}

/// Sends `wl_display.delete_id` from display `display`.
pub fn send_delete_id(out: &mut Vec<u8>, display: u32, id: u32, little: bool)
    ensures
        final(out)@ == old(out)@ + message_bytes(display, 1, word_bytes(id, little), little),
{
    let mut body: Vec<u8> = Vec::new();
    push_word(&mut body, id, little);
    assert(body@ =~= word_bytes(id, little));
    encode_message(out, display, 1, body.as_slice(), little);
}

/// Sends `wl_display.error` from display `display` about `object`.
pub fn send_error(out: &mut Vec<u8>, display: u32, object: u32, code: u32, message: &str, little: bool)
    requires
        message.spec_bytes().len() + 1 <= u32::MAX,
        message.spec_bytes().len() + 32 <= usize::MAX,
    ensures
        final(out)@ == old(out)@ + message_bytes(
            display,
            0,
            word_bytes(object, little) + word_bytes(code, little) + string_bytes(message.spec_bytes(), little),
            little,
        ),
{
    let mut body: Vec<u8> = Vec::new();
    push_word(&mut body, object, little);
    push_word(&mut body, code, little);
    encode_string(&mut body, message, little);
    assert(body@ =~= word_bytes(object, little) + word_bytes(code, little) + string_bytes(message.spec_bytes(), little));
    encode_message(out, display, 0, body.as_slice(), little);
}

/// A `global` event as the server writes it reads back, on the client,
/// with the same name, interface and version (the registry takes it when
/// the interface is UTF-8).
#[verifier::spinoff_prover]
#[verifier::rlimit(40)]
pub proof fn lemma_global_roundtrip(name: u32, interface: Seq<u8>, version: u32, little: bool)
    requires
        interface.len() + 4 <= u32::MAX,
    ensures
        ({
            let d = global_body(name, interface, version, little);
            let e = 4 + string_bytes(interface, little).len();
            &&& word_at(d, 0, little) == name
            &&& wire_string_at(d, 4, little) == Some((interface, e as int))
            &&& word_at(d, e as int, little) == version
            &&& e + 4 == d.len()
            &&& valid_utf8(interface) ==> global_parses(d, little)
        }),
{
    let w = word_bytes(name, little);
    let st = string_bytes(interface, little);
    let v = word_bytes(version, little);
    let d = global_body(name, interface, version, little);
    lemma_word_roundtrip(name, little);
    lemma_word_roundtrip(version, little);
    assert(word_at(d, 0, little) == word_at(w, 0, little));
    lemma_string_roundtrip(interface, v, little);
    assert(d.subrange(4, d.len() as int) =~= st + v);
    let e = 4 + st.len();
    assert forall|i: int| 0 <= i < (st + v).len() implies #[trigger] (st + v)[i] == d[i + 4] by {}
    assert(wire_string_at(d, 4, little) == Some((interface, e as int))) by {
        let n = word_at(st + v, 0, little);
        assert(word_at(d, 4, little) == n);
        let padded = (n + 3) / 4 * 4;
        assert(d[4 + 4 + n - 1] == (st + v)[4 + n - 1]);
        assert(d.subrange(8, 8 + n - 1) =~= (st + v).subrange(4, 4 + n - 1));
    }
    assert(word_at(d, e as int, little) == word_at(v, 0, little));
}

} // verus!
