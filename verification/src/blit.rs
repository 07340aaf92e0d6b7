//! Copying a client's shared-memory buffer into the output frame.
//!
//! The client's rows are copied into the top-left corner of the frame; with
//! an XRGB buffer every copied pixel gets an opaque alpha byte. What the
//! buffer does not cover is painted with the backdrop colour, four bytes at
//! a time; bytes of a row that do not make a whole pixel are left alone.
use vstd::prelude::*;
use crate::pointer::StackEntry;
use crate::rect::Rect;
use crate::shm::{ShmBuffer, WlShmState};
use crate::surface::{callback_items, CurrentState, SurfaceCommitted, SurfaceData, SurfaceState};
use crate::wire::{word_at, ObjectId};

verus! {

/// The backdrop colour, as `0xAARRGGBB`.
pub const BACKDROP: u32 = 0xFF26_2626;

/// The client buffer being shown: its row length in bytes, its size in
/// pixels, and whether its alpha byte is to be ignored (XRGB).
#[derive(Clone, Copy, Debug, PartialEq, Eq)]
pub struct BlitSource {
    pub stride: usize,
    pub width: usize,
    pub height: usize,
    pub xrgb: bool,
}

/// Bytes of each frame row that come from the buffer.
pub open spec fn copy_width(s: BlitSource, dst_stride: int) -> int {
    if 4 * s.width < dst_stride {
        4 * s.width
    } else {
        dst_stride
    }
}

/// Frame rows that take bytes from the buffer.
pub open spec fn copy_height(s: BlitSource, dst_height: int) -> int {
    if s.height < dst_height {
        s.height as int
    } else {
        dst_height
    }
}

/// Byte `k` of the backdrop pixel as the host stores words.
pub open spec fn backdrop_byte(k: int, little: bool) -> u8 {
    if little {
        if k == 3 { 0xFFu8 } else { 0x26u8 }
    } else {
        if k == 0 { 0xFFu8 } else { 0x26u8 }
    }
}

/// The four bytes of a backdrop pixel, as the host stores words, spell out
/// the colour `BACKDROP`: byte `k` holds bits `8k` to `8k + 7` of it on a
/// little-endian host, and bits `24 - 8k` to `31 - 8k` on a big-endian one.
pub proof fn lemma_backdrop_bytes(k: int, little: bool)
    requires
        0 <= k < 4,
    ensures
        backdrop_byte(k, little) as u32 == (BACKDROP >> ((8 * (if little { k } else { 3 - k })) as u32)) & 0xFFu32,
{
    let c: u32 = 0xFF26_2626u32;
    assert(BACKDROP == c);
    assert((c >> 0u32) & 0xFFu32 == 0x26u32) by (bit_vector) requires c == 0xFF26_2626u32;
    assert((c >> 8u32) & 0xFFu32 == 0x26u32) by (bit_vector) requires c == 0xFF26_2626u32;
    assert((c >> 16u32) & 0xFFu32 == 0x26u32) by (bit_vector) requires c == 0xFF26_2626u32;
    assert((c >> 24u32) & 0xFFu32 == 0xFFu32) by (bit_vector) requires c == 0xFF26_2626u32;
}

/// Whether the buffer's rows can be read wherever the copy reads them.
pub open spec fn source_covers(src: Seq<u8>, s: BlitSource, dst_stride: int, dst_height: int) -> bool {
    let ch = copy_height(s, dst_height);
    ch == 0 || (ch - 1) * s.stride + copy_width(s, dst_stride) <= src.len()
}

/// The frame byte at (`row`, `col`) after the copy, where `prior` held
/// before.
pub open spec fn blit_byte(
    src: Seq<u8>,
    s: BlitSource,
    dst_stride: int,
    dst_height: int,
    little: bool,
    prior: u8,
    row: int,
    col: int,
) -> u8 {
    let cw = copy_width(s, dst_stride);
    if row < copy_height(s, dst_height) && col < cw {
        if s.xrgb && col % 4 == 3 {
            0xFFu8
        } else {
            src[row * s.stride + col]
        }
    } else {
        let start = if row < copy_height(s, dst_height) { cw } else { 0 };
        if col - start < (dst_stride - start) / 4 * 4 {
            backdrop_byte((col - start) % 4, little)
        } else {
            prior
        }
    }
}

/// Inside the copied area, byte `k` of pixel `px` of a row is the
/// buffer's byte at the same place, except that for an XRGB buffer the
/// alpha byte (`k == 3`) of every pixel is opaque, whichever pixel of the
/// row it is.
pub proof fn lemma_copied_pixel(
    src: Seq<u8>,
    s: BlitSource,
    dst_stride: int,
    dst_height: int,
    little: bool,
    prior: u8,
    row: int,
    px: int,
    k: int,
)
    requires
        0 <= row < copy_height(s, dst_height),
        0 <= px,
        0 <= k < 4,
        4 * px + k < copy_width(s, dst_stride),
    ensures
        s.xrgb && k == 3 ==> blit_byte(src, s, dst_stride, dst_height, little, prior, row, 4 * px + k) == 0xFFu8,
        !(s.xrgb && k == 3) ==> blit_byte(src, s, dst_stride, dst_height, little, prior, row, 4 * px + k)
            == src[row * s.stride + 4 * px + k],
{
    assert((4 * px + k) % 4 == k);
}

proof fn lemma_row_read(row: int, ch: int, stride: int, col: int, cw: int)
    requires
        0 <= row < ch,
        0 <= stride,
        0 <= col < cw,
    ensures
        row * stride + col < (ch - 1) * stride + cw,
        0 <= row * stride,
{
    assert(row * stride <= (ch - 1) * stride) by (nonlinear_arith)
        requires
            0 <= row <= ch - 1,
            0 <= stride,
    ;
    assert(0 <= row * stride) by (nonlinear_arith)
        requires
            0 <= row,
            0 <= stride,
    ;
}

proof fn lemma_next_row(row: int, h: int, s: int)
    requires
        0 <= row < h,
        0 <= s,
    ensures
        row * s + s <= h * s,
        (row + 1) * s == row * s + s,
{
    assert((row + 1) * s <= h * s) by (nonlinear_arith)
        requires
            row + 1 <= h,
            0 <= s,
    ;
    assert((row + 1) * s == row * s + s) by (nonlinear_arith);
}

/// Paints the frame `dst` (`dst_height` rows of `dst_stride` bytes) from the
/// buffer bytes `src` described by `s`: every frame byte becomes the
/// `blit_byte` of its row and column.
pub fn blit_frame(src: &[u8], s: BlitSource, dst: &mut [u8], dst_stride: usize, dst_height: usize, little: bool)
    requires
        old(dst)@.len() == dst_stride * dst_height,
        4 * s.width <= usize::MAX,
        source_covers(src@, s, dst_stride as int, dst_height as int),
    ensures
        final(dst)@.len() == old(dst)@.len(),
        forall|i: int|
            0 <= i < old(dst)@.len() ==> #[trigger] final(dst)@[i] == blit_byte(
                src@,
                s,
                dst_stride as int,
                dst_height as int,
                little,
                old(dst)@[i],
                i / dst_stride as int,
                i % dst_stride as int,
            ),
{
    let ghost d0 = dst@;
    let dst_len: usize = dst.len();
    let src_len: usize = src.len();
    let width_bytes: usize = 4 * s.width;
    let cw: usize = if width_bytes < dst_stride { width_bytes } else { dst_stride };
    let ch: usize = if s.height < dst_height { s.height } else { dst_height };
    let bg: [u8; 4] = if little { [0x26u8, 0x26u8, 0x26u8, 0xFFu8] } else { [0xFFu8, 0x26u8, 0x26u8, 0x26u8] };
    assert(forall|k: int| 0 <= k < 4 ==> bg@[k] == backdrop_byte(k, little));
    assert(dst_height * dst_stride == dst_stride * dst_height) by (nonlinear_arith);
    let mut row: usize = 0;
    let mut base: usize = 0;
    while row < dst_height
        invariant
            row <= dst_height,
            base == row * dst_stride,
            dst@.len() == d0.len(),
            d0.len() == dst_height * dst_stride,
            d0.len() == dst_len,
            src@.len() == src_len,
            cw == copy_width(s, dst_stride as int),
            ch == copy_height(s, dst_height as int),
            source_covers(src@, s, dst_stride as int, dst_height as int),
            forall|k: int| 0 <= k < 4 ==> bg@[k] == backdrop_byte(k, little),
            forall|j: int|
                0 <= j < base ==> #[trigger] dst@[j] == blit_byte(
                    src@,
                    s,
                    dst_stride as int,
                    dst_height as int,
                    little,
                    d0[j],
                    j / dst_stride as int,
                    j % dst_stride as int,
                ),
            forall|j: int| base <= j < d0.len() ==> #[trigger] dst@[j] == d0[j],
        decreases dst_height - row,
    {
        proof {
            lemma_next_row(row as int, dst_height as int, dst_stride as int);
        }
        let start: usize = if row < ch { cw } else { 0 };
        let fill_end: usize = start + (dst_stride - start) / 4 * 4;
        let mut col: usize = 0;
        while col < dst_stride
            invariant
                row < dst_height,
                col <= dst_stride,
                base == row * dst_stride,
                base + dst_stride <= d0.len(),
                dst@.len() == d0.len(),
                d0.len() == dst_height * dst_stride,
                d0.len() == dst_len,
                src@.len() == src_len,
                cw == copy_width(s, dst_stride as int),
                ch == copy_height(s, dst_height as int),
                start == (if row < ch { cw } else { 0 }),
                fill_end == start + (dst_stride - start) / 4 * 4,
                start <= dst_stride,
                source_covers(src@, s, dst_stride as int, dst_height as int),
                forall|k: int| 0 <= k < 4 ==> bg@[k] == backdrop_byte(k, little),
                forall|j: int|
                    0 <= j < base + col ==> #[trigger] dst@[j] == blit_byte(
                        src@,
                        s,
                        dst_stride as int,
                        dst_height as int,
                        little,
                        d0[j],
                        j / dst_stride as int,
                        j % dst_stride as int,
                    ),
                forall|j: int| base + col <= j < d0.len() ==> #[trigger] dst@[j] == d0[j],
            decreases dst_stride - col,
        {
            let i: usize = base + col;
            proof {
                vstd::arithmetic::div_mod::lemma_fundamental_div_mod_converse(
                    i as int,
                    dst_stride as int,
                    row as int,
                    col as int,
                );
            }
            if row < ch && col < cw {
                if s.xrgb && col % 4 == 3 {
                    dst[i] = 0xFFu8;
                } else {
                    proof {
                        lemma_row_read(row as int, ch as int, s.stride as int, col as int, cw as int);
                    }
                    let k: usize = row * s.stride + col;
                    dst[i] = src[k];
                }
            } else if col < fill_end {
                dst[i] = bg[(col - start) % 4];
            }
            col = col + 1;
        }
        row = row + 1;
        base = base + dst_stride;
    }
}

/// What showing a committed surface involves: the buffer to copy from, the
/// buffer it replaces (to be released), and the frame callbacks to be sent
/// `done` once the frame is out.
pub struct Presentation {
    pub buffer_id: u32,
    pub buffer: ShmBuffer,
    pub release: Option<u32>,
    pub frame_done: Vec<ObjectId>,
}

impl Presentation {
    /// The stacking entry of `surface`, shown at `geometry`, with this
    /// presentation's buffer: hit testing then goes by the size of the
    /// buffer that was committed.
    pub fn stack_entry(&self, surface: ObjectId, geometry: Option<Rect>) -> (e: StackEntry)
        ensures
            e == (StackEntry {
                surface,
                geometry,
                buffer_width: self.buffer.width,
                buffer_height: self.buffer.height,
            }),
    {
        StackEntry {
            surface,
            geometry,
            buffer_width: self.buffer.width,
            buffer_height: self.buffer.height,
        }
    }
}

/// The surface `after` is `before` with its previous buffer forgotten and,
/// when `fired`, its frame callbacks taken.
pub open spec fn presented(before: SurfaceData, after: SurfaceData, fired: bool) -> bool {
    &&& after == (SurfaceData {
        previous_buffer: None,
        current: CurrentState { frame_callbacks: after.current.frame_callbacks, ..before.current },
        ..before
    })
    &&& if fired {
        callback_items(after.current.frame_callbacks).len() == 0
    } else {
        after.current.frame_callbacks == before.current.frame_callbacks
    }
}

/// The buffer that `prev` names, if the pool state still knows it.
pub open spec fn releasable(prev: Option<ObjectId>, buffers: Map<u32, ShmBuffer>) -> Option<u32> {
    match prev {
        Some(q) => if buffers.contains_key(q.0) { Some(q.0) } else { None },
        None => None,
    }
}

/// Handles a commit of surface `ev.surface_id` for display. A surface that
/// is unknown or has no buffer is left alone. Otherwise the buffer it
/// replaced is forgotten; if the buffer is a known shared-memory buffer the
/// result says what to copy, which old buffer to release and which frame
/// callbacks are due.
pub fn present_commit(surfaces: &mut SurfaceState, shm: &WlShmState, ev: &SurfaceCommitted) -> (p: Option<Presentation>)
    requires
        old(surfaces).wf(),
    ensures
        final(surfaces).wf(),
        final(surfaces).regions@ == old(surfaces).regions@,
        final(surfaces).surfaces@.dom() == old(surfaces).surfaces@.dom(),
        forall|k: u32|
            k != ev.surface_id.0 && #[trigger] old(surfaces).surfaces@.contains_key(k)
                ==> final(surfaces).surfaces@[k] == old(surfaces).surfaces@[k],
        ({
            let sid = ev.surface_id.0;
            if !old(surfaces).surfaces@.contains_key(sid) || old(surfaces).surfaces@[sid].current.buffer is None {
                &&& p is None
                &&& final(surfaces).surfaces@ == old(surfaces).surfaces@
            } else {
                let before = old(surfaces).surfaces@[sid];
                let b = before.current.buffer.unwrap().0;
                if shm.buffers().contains_key(b) {
                    &&& p matches Some(pr) && pr.buffer_id == b && pr.buffer == shm.buffers()[b]
                        && pr.release == releasable(before.previous_buffer, shm.buffers())
                        && pr.frame_done@ == callback_items(before.current.frame_callbacks)
                    &&& presented(before, final(surfaces).surfaces@[sid], true)
                } else {
                    &&& p is None
                    &&& presented(before, final(surfaces).surfaces@[sid], false)
                }
            }
        }),
{
    let sid = ev.surface_id.0;
    let mut surf = match surfaces.surfaces.remove(&sid) {
        Some(s) => s,
        None => {
            assert(surfaces.surfaces@ =~= old(surfaces).surfaces@);
            return None;
        },
    };
    let ghost before = surf;
    let buf_id = match surf.current.buffer {
        Some(b) => b.0,
        None => {
            surfaces.surfaces.insert(sid, surf);
            assert(surfaces.surfaces@ =~= old(surfaces).surfaces@);
            return None;
        },
    };
    let prev = surf.previous_buffer;
    let result = match shm.buffer(buf_id) {
        Some(buffer) => {
            let release = match prev {
                Some(q) => if shm.buffer(q.0).is_some() { Some(q.0) } else { None },
                None => None,
            };
            let frame_done = surf.fire_frame_callbacks();
            Some(Presentation { buffer_id: buf_id, buffer, release, frame_done })
        },
        None => None,
    };
    surf.previous_buffer = None;
    surfaces.surfaces.insert(sid, surf);
    assert(surfaces.surfaces@.dom() =~= old(surfaces).surfaces@.dom());
    result
}

/// The backdrop pixel's bytes, read back as a word in the host's byte order,
/// give the backdrop colour.
pub proof fn lemma_backdrop_word(little: bool)
    ensures
        word_at(
            seq![backdrop_byte(0, little), backdrop_byte(1, little), backdrop_byte(2, little), backdrop_byte(3, little)],
            0,
            little,
        ) == BACKDROP as int,
{
}

} // verus!
