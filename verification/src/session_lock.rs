//! Client side of the `ext-session-lock-v1` protocol: the lock manager,
//! the lock object and the lock surfaces with their configured sizes.
//! Requests are appended to an outgoing byte buffer; events arrive as
//! raw messages.
use std::collections::HashMap;

use vstd::prelude::*;

use crate::wire::{
    encode_message, message_bytes, push_word, read_u32, word_at, word_bytes, RawWaylandEvent,
};

verus! {

broadcast use vstd::std_specs::hash::group_hash_axioms;

/// Appends a request without arguments.
fn send_empty(out: &mut Vec<u8>, id: u32, opcode: u16, little: bool)
    ensures
        final(out)@ == old(out)@ + message_bytes(id, opcode, Seq::empty(), little),
{
    let body: Vec<u8> = Vec::new();
    encode_message(out, id, opcode, body.as_slice(), little);
}

/// The body of a request whose arguments are the given words.
pub open spec fn words_bytes(ws: Seq<u32>, little: bool) -> Seq<u8>
    decreases ws.len(),
{
    if ws.len() == 0 {
        Seq::empty()
    } else {
        words_bytes(ws.drop_last(), little) + word_bytes(ws.last(), little)
    }
}

proof fn lemma_one_word(w: u32, little: bool)
    ensures
        words_bytes(seq![w], little) == word_bytes(w, little),
{
    assert(seq![w].drop_last() =~= Seq::<u32>::empty());
    assert(words_bytes(Seq::<u32>::empty(), little) =~= Seq::<u8>::empty());
    assert(words_bytes(seq![w], little) =~= Seq::<u8>::empty() + word_bytes(w, little));
}

/// Appends a request whose arguments are all 32-bit words.
fn send_words(out: &mut Vec<u8>, id: u32, opcode: u16, args: &[u32], little: bool)
    requires
        args@.len() <= 16,
    ensures
        final(out)@ == old(out)@ + message_bytes(id, opcode, words_bytes(args@, little), little),
{
    let mut body: Vec<u8> = Vec::new();
    let mut i: usize = 0;
    while i < args.len()
        invariant
            i <= args@.len() <= 16,
            body@ == words_bytes(args@.take(i as int), little),
            body@.len() == 4 * i,
        decreases args@.len() - i,
    {
        push_word(&mut body, args[i], little);
        i = i + 1;
        assert(args@.take(i as int).drop_last() =~= args@.take(i - 1));
    }
    assert(args@.take(args@.len() as int) =~= args@);
    encode_message(out, id, opcode, body.as_slice(), little);
}

/// The size a lock surface was last configured with.
pub struct ExtSessionLockSurfaceState {
    pub width: u32,
    pub height: u32,
}

/// The compositor asks a lock surface to take a size.
#[derive(Debug, Clone, Copy, PartialEq, Eq, Structural)]
pub enum ExtSessionLockSurfaceV1Event {
    Configure { id: u32, serial: u32, width: u32, height: u32 },
}

/// The lock surfaces this client created, by object id.
pub struct ExtSessionLockSurfaceV1 {
    little: bool,
    surfaces: HashMap<u32, ExtSessionLockSurfaceState>,
}

impl ExtSessionLockSurfaceV1 {
    /// Sizes of the registered surfaces, by object id.
    pub closed spec fn sizes(&self) -> Map<u32, (u32, u32)> {
        self.surfaces@.map_values(|s: ExtSessionLockSurfaceState| (s.width, s.height))
    }

    /// Byte order of the connection.
    pub closed spec fn byte_order(&self) -> bool {
        self.little
    }

    /// No surface registered yet.
    pub fn new(little: bool) -> (r: Self)
        ensures
            r.sizes() == Map::<u32, (u32, u32)>::empty(),
            r.byte_order() == little,
    {
        let r = ExtSessionLockSurfaceV1 { little, surfaces: HashMap::new() };
        assert(r.sizes() =~= Map::<u32, (u32, u32)>::empty());
        r
    }

    /// Starts tracking surface `id` with size 0x0 (replacing what was
    /// known of it).
    pub fn register(&mut self, id: u32)
        ensures
            final(self).sizes() == old(self).sizes().insert(id, (0u32, 0u32)),
            final(self).byte_order() == old(self).byte_order(),
    {
        self.surfaces.insert(id, ExtSessionLockSurfaceState { width: 0, height: 0 });
        assert(self.sizes() =~= old(self).sizes().insert(id, (0u32, 0u32)));
    }

    /// Sends `destroy` for surface `id` and forgets it.
    pub fn destroy(&mut self, out: &mut Vec<u8>, id: u32)
        ensures
            final(out)@ == old(out)@ + message_bytes(id, 0, Seq::empty(), old(self).byte_order()),
            final(self).sizes() == old(self).sizes().remove(id),
            final(self).byte_order() == old(self).byte_order(),
    {
        send_empty(out, id, 0, self.little);
        self.surfaces.remove(&id);
        assert(self.sizes() =~= old(self).sizes().remove(id));
    }

    /// Sends `ack_configure` with `serial` for surface `id`.
    pub fn ack_configure(&self, out: &mut Vec<u8>, id: u32, serial: u32)
        ensures
            final(out)@ == old(out)@ + message_bytes(id, 1, word_bytes(serial, self.byte_order()), self.byte_order()),
    {
        let args: [u32; 1] = [serial];
        proof {
            lemma_one_word(serial, self.little);
        }
        assert(args@ =~= seq![serial]);
        send_words(out, id, 1, args.as_slice(), self.little);
    }

    /// Handles a message: a `configure` (opcode 0 with serial, width and
    /// height) for a registered surface records the size and is
    /// reported; anything else is ignored and changes nothing.
    pub fn process(&mut self, raw: &RawWaylandEvent) -> (r: Option<ExtSessionLockSurfaceV1Event>)
        ensures
            final(self).byte_order() == old(self).byte_order(),
            r is Some <==> old(self).sizes().contains_key(raw.object_id.0) && raw.opcode == 0
                && raw.data@.len() >= 12,
            r matches Some(ExtSessionLockSurfaceV1Event::Configure { id, serial, width, height }) ==> {
                let l = old(self).byte_order();
                &&& id == raw.object_id.0
                &&& serial == word_at(raw.data@, 0, l)
                &&& width == word_at(raw.data@, 4, l)
                &&& height == word_at(raw.data@, 8, l)
                &&& final(self).sizes() == old(self).sizes().insert(id, (width, height))
            },
            r is None ==> final(self).sizes() == old(self).sizes(),
    {
        let id = raw.object_id.0;
        if !self.surfaces.contains_key(&id) || raw.opcode != 0 {
            return None;
        }
        let data = raw.data.as_slice();
        let mut o: usize = 0;
        let serial = match read_u32(data, &mut o, self.little) {
            Some(v) => v,
            None => return None,
        };
        let width = match read_u32(data, &mut o, self.little) {
            Some(v) => v,
            None => return None,
        };
        let height = match read_u32(data, &mut o, self.little) {
            Some(v) => v,
            None => return None,
        };
        self.surfaces.insert(id, ExtSessionLockSurfaceState { width, height });
        assert(self.sizes() =~= old(self).sizes().insert(id, (width, height)));
        Some(ExtSessionLockSurfaceV1Event::Configure { id, serial, width, height })
    }
}

/// The compositor's answer to a lock request.
#[derive(Debug)]
pub enum ExtSessionLockEvent {
    Locked,
    Finished,
}

/// The session lock object, once its id is known.
pub struct ExtSessionLockV1 {
    little: bool,
    id: u32,
}

impl ExtSessionLockV1 {
    /// Object id of the lock (0 until assigned).
    pub closed spec fn object_id(&self) -> u32 {
        self.id
    }

    /// Byte order of the connection.
    pub closed spec fn byte_order(&self) -> bool {
        self.little
    }

    /// A lock object without an id yet.
    pub fn new(little: bool) -> (r: Self)
        ensures
            r.object_id() == 0,
            r.byte_order() == little,
    {
        ExtSessionLockV1 { little, id: 0 }
    }

    /// Assigns the object id.
    pub fn set_id(&mut self, id: u32)
        ensures
            final(self).object_id() == id,
            final(self).byte_order() == old(self).byte_order(),
    {
        self.id = id;
    }

    /// Sends `destroy`.
    pub fn destroy(&self, out: &mut Vec<u8>)
        ensures
            final(out)@ == old(out)@ + message_bytes(self.object_id(), 0, Seq::empty(), self.byte_order()),
    {
        send_empty(out, self.id, 0, self.little);
    }

    /// Sends `get_lock_surface` creating object `id` for `surface` on
    /// `output`.
    pub fn get_lock_surface(&self, out: &mut Vec<u8>, id: u32, surface: u32, output: u32)
        ensures
            final(out)@ == old(out)@ + message_bytes(
                self.object_id(),
                1,
                words_bytes(seq![id, surface, output], self.byte_order()),
                self.byte_order(),
            ),
    {
        let args: [u32; 3] = [id, surface, output];
        send_words(out, self.id, 1, args.as_slice(), self.little);
        assert(args@ =~= seq![id, surface, output]);
    }

    /// Sends `unlock_and_destroy`.
    pub fn unlock_and_destroy(&self, out: &mut Vec<u8>)
        ensures
            final(out)@ == old(out)@ + message_bytes(self.object_id(), 2, Seq::empty(), self.byte_order()),
    {
        send_empty(out, self.id, 2, self.little);
    }

    /// `locked` (opcode 0) and `finished` (opcode 1) sent to this object;
    /// anything else is ignored.
    pub fn process(&self, raw: &RawWaylandEvent) -> (r: Option<ExtSessionLockEvent>)
        ensures
            raw.object_id.0 != self.object_id() ==> r is None,
            raw.object_id.0 == self.object_id() ==> {
                &&& raw.opcode == 0 <==> r == Some(ExtSessionLockEvent::Locked)
                &&& raw.opcode == 1 <==> r == Some(ExtSessionLockEvent::Finished)
                &&& raw.opcode > 1 <==> r is None
            },
    {
        if raw.object_id.0 != self.id {
            return None;
        }
        if raw.opcode == 0 {
            Some(ExtSessionLockEvent::Locked)
        } else if raw.opcode == 1 {
            Some(ExtSessionLockEvent::Finished)
        } else {
            None
        }
    }
}

/// The global that locks the session.
pub struct ExtSessionLockManagerV1 {
    little: bool,
    id: u32,
}

impl ExtSessionLockManagerV1 {
    /// Object id of the manager (0 until bound).
    pub closed spec fn object_id(&self) -> u32 {
        self.id
    }

    /// Byte order of the connection.
    pub closed spec fn byte_order(&self) -> bool {
        self.little
    }

    /// A manager without an id yet.
    pub fn new(little: bool) -> (r: Self)
        ensures
            r.object_id() == 0,
            r.byte_order() == little,
    {
        ExtSessionLockManagerV1 { little, id: 0 }
    }

    /// Assigns the object id.
    pub fn set_id(&mut self, id: u32)
        ensures
            final(self).object_id() == id,
            final(self).byte_order() == old(self).byte_order(),
    {
        self.id = id;
    }

    /// Sends `destroy`.
    pub fn destroy(&self, out: &mut Vec<u8>)
        ensures
            final(out)@ == old(out)@ + message_bytes(self.object_id(), 0, Seq::empty(), self.byte_order()),
    {
        send_empty(out, self.id, 0, self.little);
    }

    /// Sends `lock`, creating the lock object `new_id`.
    pub fn lock(&self, out: &mut Vec<u8>, new_id: u32)
        ensures
            final(out)@ == old(out)@ + message_bytes(self.object_id(), 1, word_bytes(new_id, self.byte_order()), self.byte_order()),
    {
        let args: [u32; 1] = [new_id];
        proof {
            lemma_one_word(new_id, self.little);
        }
        assert(args@ =~= seq![new_id]);
        send_words(out, self.id, 1, args.as_slice(), self.little);
    }
}

/// Once a lock surface is destroyed its configure events are ignored: the
/// destroyed id is no longer registered.
pub proof fn lemma_destroyed_surface_ignored(sizes: Map<u32, (u32, u32)>, id: u32)
    ensures
        !sizes.remove(id).contains_key(id),
{
}

/// After `register(id)` a configure for `id` is taken: the id is
/// registered with size 0x0 until configured.
pub proof fn lemma_registered_surface_configurable(sizes: Map<u32, (u32, u32)>, id: u32)
    ensures
        sizes.insert(id, (0u32, 0u32)).contains_key(id),
        sizes.insert(id, (0u32, 0u32))[id] == (0u32, 0u32),
{
}

} // verus!
