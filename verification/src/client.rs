//! Client-side core objects of the Wayland protocol: the display
//! singleton, the registry of globals and the keyboard. Requests are
//! appended to an outgoing byte buffer; events arrive as raw messages.
use std::collections::HashMap;

use vstd::prelude::*;
use vstd::std_specs::iter::IteratorSpec;
use vstd::string::StringSliceAdditionalSpecFns;
use vstd::utf8::{encode_utf8, valid_utf8};

use crate::server::ObjectTable;
use crate::wire::{
    encode_message, encode_string, le_word, message_bytes, push_word, read_array, read_string,
    read_u32, string_bytes, wire_array_at, wire_string_at, word_at, word_bytes, RawWaylandEvent,
    DISPLAY_OBJECT_ID,
};

verus! {

broadcast use vstd::std_specs::hash::group_hash_axioms;

/// A protocol interface: its name on the wire and the version implemented.
pub trait Interface {
    const NAME: &'static str;
    const VERSION: u32;
}

/// Errors the compositor reports through `wl_display.error`.
#[derive(Clone, Copy, Debug, PartialEq, Eq, Structural)]
pub enum WlDisplayError {
    InvalidObject,
    InvalidMethod,
    NoMemory,
    Implementation,
}

impl WlDisplayError {
    /// The error's code on the wire.
    pub fn code(&self) -> (c: u32)
        ensures
            c == match *self {
                WlDisplayError::InvalidObject => 0u32,
                WlDisplayError::InvalidMethod => 1u32,
                WlDisplayError::NoMemory => 2u32,
                WlDisplayError::Implementation => 3u32,
            },
    {
        match self {
            WlDisplayError::InvalidObject => 0,
            WlDisplayError::InvalidMethod => 1,
            WlDisplayError::NoMemory => 2,
            WlDisplayError::Implementation => 3,
        }
    }

    /// The error with the given code, if there is one.
    pub fn from_code(c: u32) -> (e: Option<WlDisplayError>)
        ensures
            c < 4 <==> e is Some,
            e matches Some(x) ==> x.code_spec() == c,
    {
        if c == 0 {
            Some(WlDisplayError::InvalidObject)
        } else if c == 1 {
            Some(WlDisplayError::InvalidMethod)
        } else if c == 2 {
            Some(WlDisplayError::NoMemory)
        } else if c == 3 {
            Some(WlDisplayError::Implementation)
        } else {
            None
        }
    }

    /// The error's code on the wire.
    pub open spec fn code_spec(self) -> u32 {
        match self {
            WlDisplayError::InvalidObject => 0u32,
            WlDisplayError::InvalidMethod => 1u32,
            WlDisplayError::NoMemory => 2u32,
            WlDisplayError::Implementation => 3u32,
        }
    }
}

/// An event of the display singleton.
#[derive(Debug)]
pub enum DisplayEvent {
    Error { object_id: u32, code: u32, message: String },
    DeleteId { id: u32 },
}

/// The display singleton (object 1).
pub struct WlDisplay {
    little: bool,
}

impl Interface for WlDisplay {
    const NAME: &'static str = "wl_display";
    const VERSION: u32 = 1;
}

/// The body of an `error` event parses: two words and a UTF-8 string.
pub open spec fn error_parses(d: Seq<u8>, little: bool) -> bool {
    &&& d.len() >= 8
    &&& wire_string_at(d, 8, little) matches Some((c, _))
    &&& valid_utf8(c)
}

impl WlDisplay {
    /// Byte order of the connection.
    pub closed spec fn byte_order(&self) -> bool {
        self.little
    }

    /// Whether the connection is little endian.
    pub fn is_little_endian(&self) -> (r: bool)
        ensures
            r == self.byte_order(),
    {
        self.little
    }

    /// The display of a connection with the given byte order.
    pub fn new(little: bool) -> (r: Self)
        ensures
            r.byte_order() == little,
    {
        WlDisplay { little }
    }

    /// Sends `sync`, creating callback `callback_id`.
    pub fn sync(&self, out: &mut Vec<u8>, callback_id: u32)
        ensures
            final(out)@ == old(out)@ + message_bytes(1, 0, word_bytes(callback_id, self.byte_order()), self.byte_order()),
    {
        let mut body: Vec<u8> = Vec::new();
        push_word(&mut body, callback_id, self.little);
        assert(body@ =~= word_bytes(callback_id, self.little));
        encode_message(out, DISPLAY_OBJECT_ID, 0, body.as_slice(), self.little);
    }

    /// Sends `get_registry`, creating registry `registry_id`.
    pub fn get_registry(&self, out: &mut Vec<u8>, registry_id: u32)
        ensures
            final(out)@ == old(out)@ + message_bytes(1, 1, word_bytes(registry_id, self.byte_order()), self.byte_order()),
    {
        let mut body: Vec<u8> = Vec::new();
        push_word(&mut body, registry_id, self.little);
        assert(body@ =~= word_bytes(registry_id, self.little));
        encode_message(out, DISPLAY_OBJECT_ID, 1, body.as_slice(), self.little);
    }

    /// `error` (opcode 0: object, code, message) and `delete_id`
    /// (opcode 1: id) sent to the display; anything else, or a body too
    /// short for the arguments, is ignored.
    pub fn process(&self, raw: &RawWaylandEvent) -> (r: Option<DisplayEvent>)
        ensures
            raw.object_id.0 != 1 ==> r is None,
            raw.object_id.0 == 1 ==> display_event_parsed(raw, self.byte_order(), r),
    {
        if raw.object_id.0 != DISPLAY_OBJECT_ID {
            return None;
        }
        parse_display_event(raw, self.little)
    }
}

/// `r` is what the display event `raw` reads as: `error` (opcode 0:
/// object, code, message) or `delete_id` (opcode 1: id); nothing for other
/// opcodes or bodies too short for the arguments.
pub open spec fn display_event_parsed(raw: &RawWaylandEvent, l: bool, r: Option<DisplayEvent>) -> bool {
    let d = raw.data@;
    &&& r is Some <==> (raw.opcode == 0 && error_parses(d, l)) || (raw.opcode == 1 && d.len() >= 4)
    &&& r matches Some(DisplayEvent::Error { object_id, code, message }) ==> {
        &&& raw.opcode == 0
        &&& object_id == word_at(d, 0, l)
        &&& code == word_at(d, 4, l)
        &&& encode_utf8(message@) == wire_string_at(d, 8, l).unwrap().0
    }
    &&& r matches Some(DisplayEvent::DeleteId { id }) ==> raw.opcode == 1 && id == word_at(d, 0, l)
}

/// Reads a display event, whatever object sent it.
pub fn parse_display_event(raw: &RawWaylandEvent, little: bool) -> (r: Option<DisplayEvent>)
    ensures
        display_event_parsed(raw, little, r),
{
    let d = raw.data.as_slice();
    let mut o: usize = 0;
    if raw.opcode == 0 {
        let object_id = match read_u32(d, &mut o, little) {
            Some(v) => v,
            None => return None,
        };
        let code = match read_u32(d, &mut o, little) {
            Some(v) => v,
            None => return None,
        };
        let message = match read_string(d, &mut o, little) {
            Some(s) => s,
            None => return None,
        };
        Some(DisplayEvent::Error { object_id, code, message })
    } else if raw.opcode == 1 {
        match read_u32(d, &mut o, little) {
            Some(id) => Some(DisplayEvent::DeleteId { id }),
            None => None,
        }
    } else {
        None
    }
}

/// An event of the registry.
#[derive(Debug)]
pub enum RegistryEvent {
    Global { name: u32, interface: String, version: u32 },
    GlobalRemove { name: u32 },
}

/// The registry: the globals the compositor announced, by name.
pub struct WlRegistry {
    little: bool,
    id: u32,
    globals: HashMap<u32, (String, u32)>,
}

impl Interface for WlRegistry {
    const NAME: &'static str = "wl_registry";
    const VERSION: u32 = 1;
}

/// The body of a `global` event parses: a word, a UTF-8 string, a word.
pub open spec fn global_parses(d: Seq<u8>, little: bool) -> bool {
    &&& d.len() >= 4
    &&& wire_string_at(d, 4, little) matches Some((c, e))
    &&& valid_utf8(c)
    &&& e + 4 <= d.len()
}

impl WlRegistry {
    /// Object id of the registry (0 until assigned).
    pub closed spec fn object_id(&self) -> u32 {
        self.id
    }

    /// Byte order of the connection.
    pub closed spec fn byte_order(&self) -> bool {
        self.little
    }

    /// The announced globals: name to interface and version.
    pub closed spec fn globals(&self) -> Map<u32, (Seq<char>, u32)> {
        self.globals@.map_values(|g: (String, u32)| (g.0@, g.1))
    }

    /// Finitely many globals are announced.
    pub proof fn lemma_globals_finite(&self)
        ensures
            self.globals().dom().finite(),
    {
        assert(self.globals().dom() =~= self.globals@.dom());
    }

    /// A registry without an id and without globals.
    pub fn new(little: bool) -> (r: Self)
        ensures
            r.object_id() == 0,
            r.byte_order() == little,
            r.globals() == Map::<u32, (Seq<char>, u32)>::empty(),
    {
        let r = WlRegistry { little, id: 0, globals: HashMap::new() };
        assert(r.globals() =~= Map::<u32, (Seq<char>, u32)>::empty());
        r
    }

    /// Assigns the object id.
    pub fn set_id(&mut self, id: u32)
        ensures
            final(self).object_id() == id,
            final(self).byte_order() == old(self).byte_order(),
            final(self).globals() == old(self).globals(),
    {
        self.id = id;
    }

    /// A global offering `interface`, with its version, if one was
    /// announced (any one of them when there are several).
    pub fn find(&self, interface: &str) -> (r: Option<(u32, u32)>)
        ensures
            r matches Some((n, v)) ==> self.globals().contains_key(n) && self.globals()[n] == (interface@, v),
            r is None ==> forall|n: u32| #[trigger] self.globals().contains_key(n) ==> self.globals()[n].0 != interface@,
    {
        let target = interface.to_owned();
        let ghost m = self.globals@;
        let ghost sq = vstd::std_specs::hash::spec_hash_map_iter(&self.globals).remaining();
        for kv in it: self.globals.iter()
            invariant
                m == self.globals@,
                target@ == interface@,
                it.seq() == sq,
                forall|i: int| 0 <= i < it.index() ==> (*it.seq()[i].1).0@ != interface@,
        {
            let (k, v) = kv;
            if v.0 == target {
                return Some((*k, v.1));
            }
        }
        proof {
            assert forall|n: u32| #[trigger] self.globals().contains_key(n) implies self.globals()[n].0 != interface@ by {
                assert(sq.contains((&n, &m[n])));
                let i = choose|i: int| 0 <= i < sq.len() && sq[i] == (&n, &m[n]);
                assert((*sq[i].1).0@ != interface@);
            }
        }
        None
    }

    /// Every global offering `interface`, with its version, each once (in
    /// no particular order).
    pub fn find_all(&self, interface: &str) -> (r: Vec<(u32, u32)>)
        ensures
            forall|i: int| 0 <= i < r@.len() ==> {
                let (n, v) = #[trigger] r@[i];
                self.globals().contains_key(n) && self.globals()[n] == (interface@, v)
            },
            forall|n: u32| #[trigger] self.globals().contains_key(n) && self.globals()[n].0 == interface@
                ==> r@.contains((n, self.globals()[n].1)),
            forall|i: int, j: int| 0 <= i < j < r@.len() ==> r@[i].0 != r@[j].0,
    {
        let target = interface.to_owned();
        let ghost m = self.globals@;
        let ghost sq = vstd::std_specs::hash::spec_hash_map_iter(&self.globals).remaining();
        let mut out: Vec<(u32, u32)> = Vec::new();
        let ghost mut idx: Seq<int> = Seq::empty();
        for kv in it: self.globals.iter()
            invariant
                m == self.globals@,
                target@ == interface@,
                it.seq() == sq,
                sq.no_duplicates(),
                sq.len() == m.dom().len(),
                forall|i: int| 0 <= i < sq.len() ==> m.contains_key(*sq[i].0) && m[*sq[i].0] == *sq[i].1,
                idx.len() == out@.len(),
                forall|a: int| 0 <= a < idx.len() ==> 0 <= #[trigger] idx[a] < it.index(),
                forall|a: int, b: int| 0 <= a < b < idx.len() ==> idx[a] < idx[b],
                forall|a: int| 0 <= a < out@.len() ==> #[trigger] out@[a] == (*sq[idx[a]].0, (*sq[idx[a]].1).1)
                    && (*sq[idx[a]].1).0@ == interface@,
                forall|i: int| 0 <= i < it.index() && (*sq[i].1).0@ == interface@ ==> exists|a: int| 0 <= a < idx.len() && idx[a] == i,
        {
            let ghost i0 = it.index();
            let ghost idx0 = idx;
            let (k, v) = kv;
            assert(kv == sq[i0]);
            if v.0 == target {
                proof {
                    idx = idx.push(i0);
                }
                let ghost out0 = out@;
                out.push((*k, v.1));
                proof {
                    assert forall|a: int| 0 <= a < out@.len() implies #[trigger] out@[a] == (*sq[idx[a]].0, (*sq[idx[a]].1).1)
                        && (*sq[idx[a]].1).0@ == interface@ by {
                        if a < out0.len() {
                            assert(out@[a] == out0[a]);
                            assert(idx[a] == idx0[a]);
                        }
                    }
                }
            }
            proof {
                assert forall|i: int| 0 <= i < i0 + 1 && (*sq[i].1).0@ == interface@ implies exists|a: int| 0 <= a < idx.len() && idx[a] == i by {
                    if i < i0 {
                        let a = choose|a: int| 0 <= a < idx0.len() && idx0[a] == i;
                        assert(idx[a] == i);
                    } else {
                        assert(idx[idx.len() - 1] == i);
                    }
                }
            }
        }
        proof {
            assert forall|i: int| 0 <= i < out@.len() implies {
                let (n, v) = #[trigger] out@[i];
                self.globals().contains_key(n) && self.globals()[n] == (interface@, v)
            } by {
                assert(m.contains_key(*sq[idx[i]].0));
            }
            assert forall|n: u32| #[trigger] self.globals().contains_key(n) && self.globals()[n].0 == interface@
                implies out@.contains((n, self.globals()[n].1)) by {
                assert(sq.contains((&n, &m[n])));
                let i = choose|i: int| 0 <= i < sq.len() && sq[i] == (&n, &m[n]);
                let a = choose|a: int| 0 <= a < idx.len() && idx[a] == i;
                assert(out@[a] == (n, self.globals()[n].1));
            }
            assert forall|i: int, j: int| 0 <= i < j < out@.len() implies out@[i].0 != out@[j].0 by {
                assert(idx[i] < idx[j]);
                if out@[i].0 == out@[j].0 {
                    let ki = *sq[idx[i]].0;
                    assert(sq[idx[i]] == (&ki, &m[ki]));
                    assert(sq[idx[j]] == (&ki, &m[ki]));
                }
            }
        }
        out
    }

    /// Sends `bind` for global `name`, creating object `new_id` with the
    /// given interface and version.
    pub fn bind(&self, out: &mut Vec<u8>, name: u32, interface: &str, version: u32, new_id: u32)
        requires
            interface.spec_bytes().len() + 1 <= u32::MAX,
            interface.spec_bytes().len() + 32 <= usize::MAX,
        ensures
            final(out)@ == old(out)@ + message_bytes(
                self.object_id(),
                0,
                word_bytes(name, self.byte_order()) + string_bytes(interface.spec_bytes(), self.byte_order())
                    + word_bytes(version, self.byte_order()) + word_bytes(new_id, self.byte_order()),
                self.byte_order(),
            ),
    {
        let mut body: Vec<u8> = Vec::new();
        push_word(&mut body, name, self.little);
        encode_string(&mut body, interface, self.little);
        push_word(&mut body, version, self.little);
        push_word(&mut body, new_id, self.little);
        assert(body@ =~= word_bytes(name, self.little) + string_bytes(interface.spec_bytes(), self.little)
            + word_bytes(version, self.little) + word_bytes(new_id, self.little));
        encode_message(out, self.id, 0, body.as_slice(), self.little);
    }

    /// `global` (opcode 0: name, interface, version) records the global;
    /// `global_remove` (opcode 1: name) forgets it. Messages for other
    /// objects, other opcodes, or bodies too short are ignored.
    pub fn process(&mut self, raw: &RawWaylandEvent) -> (r: Option<RegistryEvent>)
        ensures
            final(self).object_id() == old(self).object_id(),
            final(self).byte_order() == old(self).byte_order(),
            raw.object_id.0 != old(self).object_id() ==> r is None,
            raw.object_id.0 == old(self).object_id() ==> registry_event_parsed(raw, old(self).byte_order(), r),
            r is None ==> final(self).globals() == old(self).globals(),
            r matches Some(RegistryEvent::Global { name, interface, version })
                ==> final(self).globals() == old(self).globals().insert(name, (interface@, version)),
            r matches Some(RegistryEvent::GlobalRemove { name }) ==> final(self).globals() == old(self).globals().remove(name),
    {
        if raw.object_id.0 != self.id {
            return None;
        }
        let r = parse_registry_event(raw, self.little);
        match &r {
            Some(RegistryEvent::Global { name, interface, version }) => {
                let kept = interface.clone();
                self.globals.insert(*name, (kept, *version));
                assert(self.globals() =~= old(self).globals().insert(*name, (interface@, *version)));
            },
            Some(RegistryEvent::GlobalRemove { name }) => {
                self.globals.remove(name);
                assert(self.globals() =~= old(self).globals().remove(*name));
            },
            None => {},
        }
        r
    }
}

/// `r` is what the registry event `raw` reads as: `global` (opcode 0:
/// name, interface, version) or `global_remove` (opcode 1: name); nothing
/// for other opcodes or bodies too short for the arguments.
pub open spec fn registry_event_parsed(raw: &RawWaylandEvent, l: bool, r: Option<RegistryEvent>) -> bool {
    let d = raw.data@;
    &&& r is Some <==> (raw.opcode == 0 && global_parses(d, l)) || (raw.opcode == 1 && d.len() >= 4)
    &&& r matches Some(RegistryEvent::Global { name, interface, version }) ==> {
        let (c, e) = wire_string_at(d, 4, l).unwrap();
        &&& raw.opcode == 0
        &&& name == word_at(d, 0, l)
        &&& encode_utf8(interface@) == c
        &&& version == word_at(d, e, l)
    }
    &&& r matches Some(RegistryEvent::GlobalRemove { name }) ==> raw.opcode == 1 && name == word_at(d, 0, l)
}

/// Reads a registry event, whatever object sent it.
pub fn parse_registry_event(raw: &RawWaylandEvent, little: bool) -> (r: Option<RegistryEvent>)
    ensures
        registry_event_parsed(raw, little, r),
{
    let d = raw.data.as_slice();
    let mut o: usize = 0;
    if raw.opcode == 0 {
        let name = match read_u32(d, &mut o, little) {
            Some(v) => v,
            None => return None,
        };
        let interface = match read_string(d, &mut o, little) {
            Some(st) => st,
            None => return None,
        };
        let version = match read_u32(d, &mut o, little) {
            Some(v) => v,
            None => return None,
        };
        Some(RegistryEvent::Global { name, interface, version })
    } else if raw.opcode == 1 {
        match read_u32(d, &mut o, little) {
            Some(name) => Some(RegistryEvent::GlobalRemove { name }),
            None => None,
        }
    } else {
        None
    }
}

/// The `done` event of a callback object: the callback and its data.
#[derive(Clone, Copy, Debug, PartialEq, Eq, Structural)]
pub struct CallbackDone {
    pub callback: u32,
    pub data: u32,
}

/// An event of one of the core objects, told apart by the interface of
/// the object that sent it.
#[derive(Debug)]
pub enum CoreEvent {
    Display(DisplayEvent),
    Callback(CallbackDone),
    Registry(RegistryEvent),
}

/// The display event inside `r`, if any.
pub open spec fn display_part(r: Option<CoreEvent>) -> Option<DisplayEvent> {
    match r {
        Some(CoreEvent::Display(e)) => Some(e),
        _ => None,
    }
}

/// The registry event inside `r`, if any.
pub open spec fn registry_part(r: Option<CoreEvent>) -> Option<RegistryEvent> {
    match r {
        Some(CoreEvent::Registry(e)) => Some(e),
        _ => None,
    }
}

/// Reads an event sent by a display, callback or registry object, by the
/// interface the object table records for the sender; events of other or
/// unknown objects are left to others (`None`).
pub fn parse_core_event(objects: &ObjectTable, raw: &RawWaylandEvent, little: bool) -> (r: Option<CoreEvent>)
    ensures
        ({
            let id = raw.object_id.0;
            let d = raw.data@;
            if !objects.live().contains_key(id) {
                r is None
            } else if objects.live()[id] == "wl_display"@ {
                &&& (r is None || r is Some && r->0 is Display)
                &&& display_event_parsed(raw, little, display_part(r))
            } else if objects.live()[id] == "wl_callback"@ {
                r == (if raw.opcode == 0 && d.len() >= 4 {
                    Some(CoreEvent::Callback(CallbackDone { callback: id, data: word_at(d, 0, little) as u32 }))
                } else {
                    None
                })
            } else if objects.live()[id] == "wl_registry"@ {
                &&& (r is None || r is Some && r->0 is Registry)
                &&& registry_event_parsed(raw, little, registry_part(r))
            } else {
                r is None
            }
        }),
{
    let iface: String = match objects.get_interface(raw.object_id) {
        Some(s) => s.to_owned(),
        None => return None,
    };
    proof {
        reveal_strlit("wl_display");
        reveal_strlit("wl_callback");
        reveal_strlit("wl_registry");
    }
    if iface == "wl_display".to_owned() {
        match parse_display_event(raw, little) {
            Some(e) => Some(CoreEvent::Display(e)),
            None => None,
        }
    } else if iface == "wl_callback".to_owned() {
        if raw.opcode != 0 {
            return None;
        }
        let d = raw.data.as_slice();
        let mut o: usize = 0;
        match read_u32(d, &mut o, little) {
            Some(data) => Some(CoreEvent::Callback(CallbackDone { callback: raw.object_id.0, data })),
            None => None,
        }
    } else if iface == "wl_registry".to_owned() {
        match parse_registry_event(raw, little) {
            Some(e) => Some(CoreEvent::Registry(e)),
            None => None,
        }
    } else {
        None
    }
}

/// How a keymap is encoded.
#[derive(Clone, Copy, Debug, PartialEq, Eq, Structural)]
pub enum KeymapFormat {
    NoKeymap,
    XkbV1,
}

/// Whether a key went down, up, or repeats.
#[derive(Clone, Copy, Debug, PartialEq, Eq, Structural)]
pub enum KeyState {
    Released,
    Pressed,
    Repeated,
}

/// The keymap format with wire value `v`, if any.
pub open spec fn keymap_format_of(v: int) -> Option<KeymapFormat> {
    if v == 0 {
        Some(KeymapFormat::NoKeymap)
    } else if v == 1 {
        Some(KeymapFormat::XkbV1)
    } else {
        None
    }
}

/// The key state with wire value `v`, if any.
pub open spec fn key_state_of(v: int) -> Option<KeyState> {
    if v == 0 {
        Some(KeyState::Released)
    } else if v == 1 {
        Some(KeyState::Pressed)
    } else if v == 2 {
        Some(KeyState::Repeated)
    } else {
        None
    }
}

/// The wire values of a key's state: 0 is a release, 1 a press, 2 a
/// repeat, and no other value is a state.
pub proof fn lemma_key_state_values(v: int)
    ensures
        key_state_of(v) == Some(KeyState::Released) <==> v == 0,
        key_state_of(v) == Some(KeyState::Pressed) <==> v == 1,
        key_state_of(v) == Some(KeyState::Repeated) <==> v == 2,
        key_state_of(v) is None <==> !(0 <= v <= 2),
{
}

/// The wire values of keymap formats: 0 is no keymap, 1 an XKB v1 keymap,
/// and no other value is a format.
pub proof fn lemma_keymap_format_values(v: int)
    ensures
        keymap_format_of(v) == Some(KeymapFormat::NoKeymap) <==> v == 0,
        keymap_format_of(v) == Some(KeymapFormat::XkbV1) <==> v == 1,
        keymap_format_of(v) is None <==> v != 0 && v != 1,
{
}

fn keymap_format_from(v: u32) -> (r: Option<KeymapFormat>)
    ensures
        r == keymap_format_of(v as int),
{
    if v == 0 {
        Some(KeymapFormat::NoKeymap)
    } else if v == 1 {
        Some(KeymapFormat::XkbV1)
    } else {
        None
    }
}

fn key_state_from(v: u32) -> (r: Option<KeyState>)
    ensures
        r == key_state_of(v as int),
{
    if v == 0 {
        Some(KeyState::Released)
    } else if v == 1 {
        Some(KeyState::Pressed)
    } else if v == 2 {
        Some(KeyState::Repeated)
    } else {
        None
    }
}

/// An event of the keyboard.
#[derive(Debug)]
pub enum KeyboardEvent {
    Keymap { format: KeymapFormat, fd: i32, size: u32 },
    Enter { serial: u32, surface: u32, keys: Vec<u32> },
    Leave { serial: u32, surface: u32 },
    Key { serial: u32, time: u32, key: u32, state: KeyState },
    Modifiers { serial: u32, mods_depressed: u32, mods_latched: u32, mods_locked: u32, group: u32 },
    RepeatInfo { rate: i32, delay: i32 },
}

/// The little-endian words of `b`, trailing bytes dropped.
pub open spec fn le_words(b: Seq<u8>) -> Seq<u32> {
    Seq::new(b.len() / 4, |i: int| le_word(b, 4 * i) as u32)
}

/// A word read as a signed integer (two's complement).
pub open spec fn as_signed(w: int) -> int {
    if w < 0x8000_0000 {
        w
    } else {
        w - 0x1_0000_0000
    }
}

pub(crate) fn to_signed(w: u32) -> (r: i32)
    ensures
        r == as_signed(w as int),
{
    if w < 0x8000_0000 {
        w as i32
    } else {
        let m: u32 = 0xffff_ffff - w;
        -(m as i32) - 1
    }
}

/// The little-endian words of `b`.
fn le_words_of(b: &[u8]) -> (r: Vec<u32>)
    ensures
        r@ == le_words(b@),
{
    let mut r: Vec<u32> = Vec::new();
    let len = b.len();
    let n = len / 4;
    assert(4 * n <= len) by (nonlinear_arith)
        requires
            n == len / 4,
    ;
    let mut i: usize = 0;
    while i < n
        invariant
            len == b@.len(),
            n == b@.len() / 4,
            4 * n <= len,
            i <= n,
            r@ == le_words(b@).take(i as int),
        decreases n - i,
    {
        assert(4 * i + 4 <= 4 * n);
        let o: usize = 4 * i;
        let w = (b[o] as u32) + 256 * (b[o + 1] as u32) + 65536 * (b[o + 2] as u32) + 16777216 * (b[o + 3] as u32);
        r.push(w);
        i = i + 1;
        assert(r@ =~= le_words(b@).take(i as int));
    }
    assert(le_words(b@).take(n as int) =~= le_words(b@));
    r
}

/// The keyboard of a seat.
pub struct WlKeyboard {
    little: bool,
    id: u32,
}

impl WlKeyboard {
    /// Object id of the keyboard (0 until assigned).
    pub closed spec fn object_id(&self) -> u32 {
        self.id
    }

    /// Byte order of the connection.
    pub closed spec fn byte_order(&self) -> bool {
        self.little
    }

    /// A keyboard without an id yet.
    pub fn new(little: bool) -> (r: Self)
        ensures
            r.object_id() == 0,
            r.byte_order() == little,
    {
        WlKeyboard { little, id: 0 }
    }

    /// The object id.
    pub fn id(&self) -> (r: u32)
        ensures
            r == self.object_id(),
    {
        self.id
    }

    /// Assigns the object id.
    pub fn set_id(&mut self, id: u32)
        ensures
            final(self).object_id() == id,
            final(self).byte_order() == old(self).byte_order(),
    {
        self.id = id;
    }

    /// Decodes a keyboard event: `keymap` (0: format, size; the file
    /// descriptor travels beside the bytes and is `fd`), `enter` (1:
    /// serial, surface, pressed keys as an array of little-endian words),
    /// `leave` (2), `key` (3), `modifiers` (4) and `repeat_info` (5).
    /// Messages for other objects, other opcodes, bodies too short, unknown
    /// enum values, or a keymap without a descriptor are ignored.
    pub fn process(&self, raw: &RawWaylandEvent, fd: Option<i32>) -> (r: Option<KeyboardEvent>)
        ensures
            raw.object_id.0 != self.object_id() ==> r is None,
            raw.opcode > 5 ==> r is None,
            ({
                let d = raw.data@;
                let l = self.byte_order();
                let w = |k: int| word_at(d, 4 * k, l);
                &&& r matches Some(KeyboardEvent::Keymap { format, fd: f, size }) ==> {
                    &&& raw.opcode == 0 && fd == Some(f)
                    &&& keymap_format_of(w(0)) == Some(format) && size == w(1)
                }
                &&& r matches Some(KeyboardEvent::Enter { serial, surface, keys }) ==> {
                    &&& raw.opcode == 1 && serial == w(0) && surface == w(1)
                    &&& wire_array_at(d, 8, l) matches Some((a, _)) && keys@ == le_words(a)
                }
                &&& r matches Some(KeyboardEvent::Leave { serial, surface }) ==> {
                    raw.opcode == 2 && serial == w(0) && surface == w(1)
                }
                &&& r matches Some(KeyboardEvent::Key { serial, time, key, state }) ==> {
                    &&& raw.opcode == 3 && serial == w(0) && time == w(1) && key == w(2)
                    &&& key_state_of(w(3)) == Some(state)
                }
                &&& r matches Some(KeyboardEvent::Modifiers { serial, mods_depressed, mods_latched, mods_locked, group }) ==> {
                    &&& raw.opcode == 4 && serial == w(0) && mods_depressed == w(1)
                    &&& mods_latched == w(2) && mods_locked == w(3) && group == w(4)
                }
                &&& r matches Some(KeyboardEvent::RepeatInfo { rate, delay }) ==> {
                    raw.opcode == 5 && rate == as_signed(w(0)) && delay == as_signed(w(1))
                }
                &&& raw.object_id.0 == self.object_id() ==> (r is Some <==> match raw.opcode {
                    0 => d.len() >= 8 && keymap_format_of(w(0)) is Some && fd is Some,
                    1 => d.len() >= 8 && wire_array_at(d, 8, l) is Some,
                    2 => d.len() >= 8,
                    3 => d.len() >= 16 && key_state_of(w(3)) is Some,
                    4 => d.len() >= 20,
                    5 => d.len() >= 8,
                    _ => false,
                })
            }),
    {
        if raw.object_id.0 != self.id || raw.opcode > 5 {
            return None;
        }
        let d = raw.data.as_slice();
        let l = self.little;
        let mut o: usize = 0;
        let a = match read_u32(d, &mut o, l) {
            Some(v) => v,
            None => return None,
        };
        let b = match read_u32(d, &mut o, l) {
            Some(v) => v,
            None => return None,
        };
        if raw.opcode == 0 {
            let format = match keymap_format_from(a) {
                Some(f) => f,
                None => return None,
            };
            match fd {
                Some(f) => Some(KeyboardEvent::Keymap { format, fd: f, size: b }),
                None => None,
            }
        } else if raw.opcode == 1 {
            match read_array(d, &mut o, l) {
                Some(arr) => {
                    let keys = le_words_of(arr.as_slice());
                    Some(KeyboardEvent::Enter { serial: a, surface: b, keys })
                },
                None => None,
            }
        } else if raw.opcode == 2 {
            Some(KeyboardEvent::Leave { serial: a, surface: b })
        } else if raw.opcode == 5 {
            Some(KeyboardEvent::RepeatInfo { rate: to_signed(a), delay: to_signed(b) })
        } else {
            let c = match read_u32(d, &mut o, l) {
                Some(v) => v,
                None => return None,
            };
            let e = match read_u32(d, &mut o, l) {
                Some(v) => v,
                None => return None,
            };
            if raw.opcode == 3 {
                match key_state_from(e) {
                    Some(state) => Some(KeyboardEvent::Key { serial: a, time: b, key: c, state }),
                    None => None,
                }
            } else {
                let g = match read_u32(d, &mut o, l) {
                    Some(v) => v,
                    None => return None,
                };
                Some(KeyboardEvent::Modifiers { serial: a, mods_depressed: b, mods_latched: c, mods_locked: e, group: g })
            }
        }
    }
}

} // verus!
