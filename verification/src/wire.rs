//! Framing of the Wayland wire protocol: 8-byte headers (object id, then
//! size in the high 16 bits and opcode in the low 16 bits of one word),
//! 32-bit words and length-prefixed, NUL-terminated, 4-byte padded
//! strings, all in the host's byte order.
use vstd::prelude::*;
use vstd::string::StringSliceAdditionalSpecFns;
use vstd::utf8::{encode_utf8, valid_utf8};

verus! {

/// A Wayland object id.
#[derive(Clone, Copy, Debug, Hash, PartialEq, Eq, Structural)]
pub struct ObjectId(pub u32);

/// The `wl_display` singleton always uses object id 1.
pub const DISPLAY_OBJECT_ID: u32 = 1;

/// One message as read from the wire: sender, opcode and argument bytes.
#[derive(Debug)]
pub struct RawWaylandEvent {
    pub object_id: ObjectId,
    pub opcode: u32,
    pub data: Vec<u8>,
}

/// A message as plain values: sender, opcode, argument bytes.
pub open spec fn event_view(e: RawWaylandEvent) -> (u32, u32, Seq<u8>) {
    (e.object_id.0, e.opcode, e.data@)
}

pub open spec fn events_view(es: Seq<RawWaylandEvent>) -> Seq<(u32, u32, Seq<u8>)> {
    es.map_values(|e: RawWaylandEvent| event_view(e))
}

/// The little-endian value of the four bytes at `o`.
pub open spec fn le_word(b: Seq<u8>, o: int) -> int {
    b[o] + 256 * b[o + 1] + 65536 * b[o + 2] + 16777216 * b[o + 3]
}

/// The big-endian value of the four bytes at `o`.
pub open spec fn be_word(b: Seq<u8>, o: int) -> int {
    b[o + 3] + 256 * b[o + 2] + 65536 * b[o + 1] + 16777216 * b[o]
}

/// The word at `o` in the given byte order.
pub open spec fn word_at(b: Seq<u8>, o: int, little: bool) -> int {
    if little {
        le_word(b, o)
    } else {
        be_word(b, o)
    }
}

/// The four bytes of `x` in the given byte order.
pub open spec fn word_bytes(x: u32, little: bool) -> Seq<u8> {
    let l = seq![(x % 256) as u8, ((x / 256) % 256) as u8, ((x / 65536) % 256) as u8, (x / 16777216) as u8];
    if little {
        l
    } else {
        seq![l[3], l[2], l[1], l[0]]
    }
}

/// The messages framed in `b` from offset `off` on, or `None` when the
/// bytes end inside a message or a header announces a size below the
/// header's own.
pub open spec fn frames_at(b: Seq<u8>, off: int, little: bool) -> Option<Seq<(u32, u32, Seq<u8>)>>
    decreases b.len() - off,
{
    if off < 0 || off > b.len() {
        None
    } else if off + 8 > b.len() {
        if off == b.len() {
            Some(Seq::empty())
        } else {
            None
        }
    } else {
        let w2 = word_at(b, off + 4, little);
        let size = w2 / 65536;
        if size < 8 || off + size > b.len() {
            None
        } else {
            match frames_at(b, off + size, little) {
                Some(rest) => Some(
                    seq![(word_at(b, off, little) as u32, (w2 % 65536) as u32, b.subrange(off + 8, off + size))]
                        + rest,
                ),
                None => None,
            }
        }
    }
}

/// The bytes of one message with the given header fields.
pub open spec fn message_bytes(sender: u32, opcode: u16, body: Seq<u8>, little: bool) -> Seq<u8> {
    word_bytes(sender, little) + word_bytes(
        ((((8 + body.len()) % 65536) * 65536 + opcode) % 0x1_0000_0000) as u32,
        little,
    ) + body
}

/// `s` as a wire string: length with terminator, bytes, NUL, zero padding
/// to a multiple of four.
pub open spec fn string_bytes(s: Seq<u8>, little: bool) -> Seq<u8> {
    let n = s.len() + 1;
    let padded = (n + 3) / 4 * 4;
    word_bytes(n as u32, little) + s + seq![0u8] + Seq::new((padded - n) as nat, |i: int| 0u8)
}

/// `u32::from_ne_bytes`: the value of the four bytes in the host's byte
/// order, which is either little or big endian.
#[verifier::external_body]
fn u32_from_ne_bytes(b: [u8; 4]) -> (r: u32)
    ensures
        r == le_word(b@, 0) || r == be_word(b@, 0),
{
    u32::from_ne_bytes(b)
}

/// Whether the host stores words little endian (probed once). Which of
/// the two it is depends on the machine, so nothing is stated of it.
pub fn host_is_little_endian() -> (r: bool) {
    u32_from_ne_bytes([1u8, 0u8, 0u8, 0u8]) == 1
}

/// Reads the word at `o` in the given byte order.
fn get_word(b: &[u8], o: usize, little: bool) -> (r: u32)
    requires
        o + 4 <= b@.len(),
    ensures
        r == word_at(b@, o as int, little),
{
    let (b0, b1, b2, b3) = (b[o] as u32, b[o + 1] as u32, b[o + 2] as u32, b[o + 3] as u32);
    if little {
        b0 + 256 * b1 + 65536 * b2 + 16777216 * b3
    } else {
        b3 + 256 * b2 + 65536 * b1 + 16777216 * b0
    }
}

/// Appends the four bytes of `x` in the given byte order.
pub fn push_word(buf: &mut Vec<u8>, x: u32, little: bool)
    ensures
        final(buf)@ == old(buf)@ + word_bytes(x, little),
{
    let l0 = (x % 256) as u8;
    let l1 = ((x / 256) % 256) as u8;
    let l2 = ((x / 65536) % 256) as u8;
    let l3 = (x / 16777216) as u8;
    if little {
        buf.push(l0);
        buf.push(l1);
        buf.push(l2);
        buf.push(l3);
    } else {
        buf.push(l3);
        buf.push(l2);
        buf.push(l1);
        buf.push(l0);
    }
    assert(buf@ =~= old(buf)@ + word_bytes(x, little));
}


/// Copies `b[from..to]`.
fn copy_range(b: &[u8], from: usize, to: usize) -> (r: Vec<u8>)
    requires
        from <= to <= b@.len(),
    ensures
        r@ == b@.subrange(from as int, to as int),
{
    let mut r: Vec<u8> = Vec::new();
    let mut i = from;
    while i < to
        invariant
            from <= i <= to <= b@.len(),
            r@ == b@.subrange(from as int, i as int),
        decreases to - i,
    {
        r.push(b[i]);
        i = i + 1;
        assert(r@ =~= b@.subrange(from as int, i as int));
    }
    r
}

/// Whether the bytes split into complete messages.
pub fn is_well_framed(bytes: &[u8], little: bool) -> (r: bool)
    ensures
        r == frames_at(bytes@, 0, little) is Some,
{
    let n = bytes.len();
    let mut off: usize = 0;
    while n - off >= 8
        invariant
            n == bytes@.len(),
            off <= n,
            frames_at(bytes@, 0, little) is Some == frames_at(bytes@, off as int, little) is Some,
        decreases n - off,
    {
        let w2 = get_word(bytes, off + 4, little);
        let size = (w2 / 65536) as usize;
        if size < 8 || size > n - off {
            return false;
        }
        off = off + size;
    }
    off == n
}

/// Splits the bytes into messages; the bytes must end on a message
/// boundary.
pub fn parse_messages(bytes: Vec<u8>, little: bool) -> (events: Vec<RawWaylandEvent>)
    requires
        frames_at(bytes@, 0, little) is Some,
    ensures
        events_view(events@) == frames_at(bytes@, 0, little).unwrap(),
{
    let mut events: Vec<RawWaylandEvent> = Vec::new();
    let n = bytes.len();
    let mut off: usize = 0;
    while n - off >= 8
        invariant
            n == bytes@.len(),
            off <= n,
            frames_at(bytes@, off as int, little) is Some,
            frames_at(bytes@, 0, little).unwrap() == events_view(events@) + frames_at(bytes@, off as int, little).unwrap(),
        decreases n - off,
    {
        let sender_id = get_word(bytes.as_slice(), off, little);
        let w2 = get_word(bytes.as_slice(), off + 4, little);
        let size = (w2 / 65536) as usize;
        let opcode = w2 % 65536;
        let data = copy_range(bytes.as_slice(), off + 8, off + size);
        let ghost prev = events@;
        let ghost rest = frames_at(bytes@, (off + size) as int, little).unwrap();
        events.push(RawWaylandEvent { object_id: ObjectId(sender_id), opcode, data });
        assert(events_view(events@) =~= events_view(prev).push((sender_id, opcode, bytes@.subrange(off + 8, off + size))));
        off = off + size;
    }
    assert(frames_at(bytes@, off as int, little).unwrap() =~= Seq::empty());
    assert(events_view(events@) =~= frames_at(bytes@, 0, little).unwrap());
    events
}


/// Appends one message: header for `sender` and `opcode`, then the body.
/// The size field holds `8 + body.len()` modulo 2^16.
pub fn encode_message(buf: &mut Vec<u8>, sender: u32, opcode: u16, body: &[u8], little: bool)
    requires
        body@.len() + 8 <= usize::MAX,
    ensures
        final(buf)@ == old(buf)@ + message_bytes(sender, opcode, body@, little),
{
    let total = ((8 + body.len()) % 65536) as u32;
    let w2: u32 = total * 65536 + opcode as u32;
    push_word(buf, sender, little);
    push_word(buf, w2, little);
    let ghost head = buf@;
    let mut i: usize = 0;
    while i < body.len()
        invariant
            i <= body@.len(),
            buf@ == head + body@.take(i as int),
        decreases body@.len() - i,
    {
        buf.push(body[i]);
        i = i + 1;
        assert(buf@ =~= head + body@.take(i as int));
    }
    assert(body@.take(body@.len() as int) =~= body@);
    assert(buf@ =~= old(buf)@ + message_bytes(sender, opcode, body@, little));
}

/// Appends `s` as a wire string (length including the terminator, bytes,
/// NUL, zero padding to a multiple of four).
pub fn encode_string(buf: &mut Vec<u8>, s: &str, little: bool)
    requires
        s.spec_bytes().len() + 1 <= u32::MAX,
        s.spec_bytes().len() + 4 <= usize::MAX,
    ensures
        final(buf)@ == old(buf)@ + string_bytes(s.spec_bytes(), little),
{
    let bytes = s.as_bytes();
    let str_len = bytes.len() + 1;
    let padded = (str_len + 3) / 4 * 4;
    push_word(buf, str_len as u32, little);
    let ghost head = buf@;
    let mut i: usize = 0;
    while i < bytes.len()
        invariant
            i <= bytes@.len(),
            buf@ == head + bytes@.take(i as int),
        decreases bytes@.len() - i,
    {
        buf.push(bytes[i]);
        i = i + 1;
        assert(buf@ =~= head + bytes@.take(i as int));
    }
    assert(bytes@.take(bytes@.len() as int) =~= bytes@);
    buf.push(0);
    let ghost mid = buf@;
    let mut k: usize = str_len;
    while k < padded
        invariant
            str_len <= k <= padded,
            buf@ == mid + Seq::new((k - str_len) as nat, |i: int| 0u8),
        decreases padded - k,
    {
        buf.push(0);
        k = k + 1;
        assert(buf@ =~= mid + Seq::new((k - str_len) as nat, |i: int| 0u8));
    }
    assert(buf@ =~= old(buf)@ + string_bytes(s.spec_bytes(), little));
}

/// Reads a word at `*o` and advances past it; `None` (offset unchanged)
/// when fewer than four bytes remain.
pub fn read_u32(data: &[u8], o: &mut usize, little: bool) -> (r: Option<u32>)
    ensures
        (*old(o) + 4 <= data@.len()) == r is Some,
        r matches Some(v) ==> v == word_at(data@, *old(o) as int, little) && *final(o) == *old(o) + 4,
        r is None ==> *final(o) == *old(o),
{
    if *o > data.len() || data.len() - *o < 4 {
        return None;
    }
    let v = get_word(data, *o, little);
    *o = *o + 4;
    Some(v)
}


/// `std::str::from_utf8`: a string exactly when the bytes are valid UTF-8,
/// and then the string has those bytes.
#[verifier::external_body]
fn str_from_utf8(b: &[u8]) -> (r: Option<&str>)
    ensures
        r is Some <==> valid_utf8(b@),
        r matches Some(st) ==> st.spec_bytes() == b@,
{
    std::str::from_utf8(b).ok()
}

/// The wire string at `o`: its bytes before the terminator and the offset
/// after its padding, or `None` when the length is zero, the string runs
/// past the end, or the terminator is not NUL.
pub open spec fn wire_string_at(b: Seq<u8>, o: int, little: bool) -> Option<(Seq<u8>, int)> {
    if o < 0 || o + 4 > b.len() {
        None
    } else {
        let n = word_at(b, o, little);
        let padded = (n + 3) / 4 * 4;
        if n == 0 || o + 4 + padded > b.len() || b[o + 4 + n - 1] != 0 {
            None
        } else {
            Some((b.subrange(o + 4, o + 4 + n - 1), o + 4 + padded))
        }
    }
}

/// Reads a wire string at `*o` and advances past it; `None` (offset
/// unchanged) when there is no well-formed string there or its bytes are
/// not UTF-8.
pub fn read_string(data: &[u8], o: &mut usize, little: bool) -> (r: Option<String>)
    ensures
        r is Some <==> (wire_string_at(data@, *old(o) as int, little) matches Some((c, _)) && valid_utf8(c)),
        r matches Some(st) ==> encode_utf8(st@) == wire_string_at(data@, *old(o) as int, little).unwrap().0
            && *final(o) == wire_string_at(data@, *old(o) as int, little).unwrap().1,
        r is None ==> *final(o) == *old(o),
{
    if *o > data.len() || data.len() - *o < 4 {
        return None;
    }
    let start = *o;
    let n = get_word(data, start, little) as usize;
    if n == 0 {
        return None;
    }
    if n > data.len() - start - 4 {
        return None;
    }
    let rem = (4 - n % 4) % 4;
    if rem > data.len() - start - 4 - n {
        return None;
    }
    let padded = n + rem;
    assert(padded == (n + 3) / 4 * 4);
    if data[start + 4 + n - 1] != 0 {
        return None;
    }
    let content = copy_range(data, start + 4, start + 4 + n - 1);
    match str_from_utf8(content.as_slice()) {
        Some(st) => {
            *o = start + 4 + padded;
            Some(st.to_owned())
        },
        None => None,
    }
}

/// The wire array at `o`: its bytes and the offset after its padding, or
/// `None` when it runs past the end.
pub open spec fn wire_array_at(b: Seq<u8>, o: int, little: bool) -> Option<(Seq<u8>, int)> {
    if o < 0 || o + 4 > b.len() {
        None
    } else {
        let n = word_at(b, o, little);
        let padded = (n + 3) / 4 * 4;
        if o + 4 + padded > b.len() {
            None
        } else {
            Some((b.subrange(o + 4, o + 4 + n), o + 4 + padded))
        }
    }
}

/// Reads a wire array at `*o` and advances past it; `None` (offset
/// unchanged) when it runs past the end.
pub fn read_array(data: &[u8], o: &mut usize, little: bool) -> (r: Option<Vec<u8>>)
    ensures
        r is Some <==> wire_array_at(data@, *old(o) as int, little) is Some,
        r matches Some(v) ==> v@ == wire_array_at(data@, *old(o) as int, little).unwrap().0
            && *final(o) == wire_array_at(data@, *old(o) as int, little).unwrap().1,
        r is None ==> *final(o) == *old(o),
{
    if *o > data.len() || data.len() - *o < 4 {
        return None;
    }
    let start = *o;
    let n = get_word(data, start, little) as usize;
    if n > data.len() - start - 4 {
        return None;
    }
    let rem = (4 - n % 4) % 4;
    if rem > data.len() - start - 4 - n {
        return None;
    }
    let padded = n + rem;
    assert(padded == (n + 3) / 4 * 4);
    let content = copy_range(data, start + 4, start + 4 + n);
    *o = start + 4 + padded;
    Some(content)
}

/// The four bytes of a word read back in the same byte order give the word.
pub proof fn lemma_word_roundtrip(x: u32, little: bool)
    ensures
        word_at(word_bytes(x, little), 0, little) == x,
{
    let b0 = x % 256;
    let b1 = (x / 256) % 256;
    let b2 = (x / 65536) % 256;
    let b3 = x / 16777216;
    assert(b0 + 256 * b1 + 65536 * b2 + 16777216 * b3 == x) by (nonlinear_arith)
        requires
            b0 == x % 256,
            b1 == (x / 256) % 256,
            b2 == (x / 65536) % 256,
            b3 == x / 16777216,
            0 <= x < 0x1_0000_0000,
    ;
}


/// A message encoded with a size that fits in 16 bits is read back as
/// that one message.
pub proof fn lemma_message_roundtrip(sender: u32, opcode: u16, body: Seq<u8>, little: bool)
    requires
        body.len() + 8 < 65536,
    ensures
        frames_at(message_bytes(sender, opcode, body, little), 0, little)
            == Some(seq![(sender, opcode as u32, body)]),
{
    let b = message_bytes(sender, opcode, body, little);
    let total = 8 + body.len();
    let w2v = total * 65536 + opcode;
    assert(((total % 65536) * 65536 + opcode) % 0x1_0000_0000 == w2v) by (nonlinear_arith)
        requires
            8 <= total < 65536,
            0 <= opcode < 65536,
            w2v == total * 65536 + opcode,
    ;
    let w2 = w2v as u32;
    lemma_word_roundtrip(sender, little);
    lemma_word_roundtrip(w2, little);
    let hs = word_bytes(sender, little);
    let hw = word_bytes(w2, little);
    assert(b == hs + hw + body);
    assert(word_at(b, 0, little) == word_at(hs, 0, little));
    assert(word_at(b, 4, little) == word_at(hw, 0, little));
    assert(w2v / 65536 == total && w2v % 65536 == opcode) by (nonlinear_arith)
        requires
            w2v == total * 65536 + opcode,
            0 <= opcode < 65536,
            0 <= total,
    ;
    assert(b.len() == total);
    assert(frames_at(b, total as int, little) == Some(Seq::<(u32, u32, Seq<u8>)>::empty()));
    assert(b.subrange(8, total as int) =~= body);
    assert(seq![(sender, opcode as u32, body)] + Seq::<(u32, u32, Seq<u8>)>::empty() =~= seq![(sender, opcode as u32, body)]);
}

/// Framing past a prefix reads the suffix alone.
proof fn lemma_frames_shift(p: Seq<u8>, q: Seq<u8>, k: int, little: bool)
    requires
        0 <= k <= q.len(),
    ensures
        frames_at(p + q, p.len() + k, little) == frames_at(q, k, little),
    decreases q.len() - k,
{
    let b = p + q;
    let off = p.len() + k;
    if k + 8 <= q.len() {
        assert(word_at(b, off + 4, little) == word_at(q, k + 4, little));
        assert(word_at(b, off, little) == word_at(q, k, little));
        let size = word_at(q, k + 4, little) / 65536;
        if size >= 8 && k + size <= q.len() {
            lemma_frames_shift(p, q, k + size, little);
            assert(b.subrange(off + 8, off + size) =~= q.subrange(k + 8, k + size));
        }
    }
}

/// Concatenated message streams read as the concatenation of their
/// messages.
pub proof fn lemma_frames_concat(p: Seq<u8>, q: Seq<u8>, little: bool)
    requires
        frames_at(p, 0, little) is Some,
        frames_at(q, 0, little) is Some,
    ensures
        frames_at(p + q, 0, little) == Some(frames_at(p, 0, little).unwrap() + frames_at(q, 0, little).unwrap()),
{
    lemma_frames_append(p, q, 0, little);
}

proof fn lemma_frames_append(p: Seq<u8>, q: Seq<u8>, off: int, little: bool)
    requires
        frames_at(p, off, little) is Some,
        frames_at(q, 0, little) is Some,
    ensures
        frames_at(p + q, off, little) == Some(frames_at(p, off, little).unwrap() + frames_at(q, 0, little).unwrap()),
    decreases p.len() - off,
{
    let b = p + q;
    if off == p.len() {
        lemma_frames_shift(p, q, 0, little);
        assert(frames_at(p, off, little).unwrap() + frames_at(q, 0, little).unwrap() =~= frames_at(q, 0, little).unwrap());
    } else {
        assert(off + 8 <= p.len());
        assert(word_at(b, off + 4, little) == word_at(p, off + 4, little));
        assert(word_at(b, off, little) == word_at(p, off, little));
        let size = word_at(p, off + 4, little) / 65536;
        lemma_frames_append(p, q, off + size, little);
        assert(b.subrange(off + 8, off + size) =~= p.subrange(off + 8, off + size));
        let head = seq![(word_at(p, off, little) as u32, (word_at(p, off + 4, little) % 65536) as u32, p.subrange(off + 8, off + size))];
        assert(head + (frames_at(p, off + size, little).unwrap() + frames_at(q, 0, little).unwrap())
            =~= (head + frames_at(p, off + size, little).unwrap()) + frames_at(q, 0, little).unwrap());
    }
}

/// A string written with `encode_string` reads back with the same bytes,
/// ending just after its padding.
pub proof fn lemma_string_roundtrip(s: Seq<u8>, rest: Seq<u8>, little: bool)
    requires
        s.len() + 4 <= u32::MAX,
    ensures
        wire_string_at(string_bytes(s, little) + rest, 0, little)
            == Some((s, string_bytes(s, little).len() as int)),
{
    let n = s.len() + 1;
    let padded = (n + 3) / 4 * 4;
    let b = string_bytes(s, little) + rest;
    lemma_word_roundtrip(n as u32, little);
    let w = word_bytes(n as u32, little);
    let pad = Seq::new((padded - n) as nat, |i: int| 0u8);
    assert(string_bytes(s, little) == w + s + seq![0u8] + pad);
    assert(word_at(b, 0, little) == word_at(w, 0, little));
    assert(b[4 + n - 1] == 0u8);
    assert(b.subrange(4, 4 + n - 1) =~= s);
}

} // verus!
