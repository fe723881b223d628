//! The monochrome framebuffer: a fixed 64 x 32 grid of boolean pixels,
//! bit-packed into 32-bit words. Pixel `(x, y)` lives at bit `(y * 64 + x) % 32`
//! of word `(y * 64 + x) / 32`, so every coordinate maps to exactly one bit.

use vstd::pervasive::VecAdditionalExecFns;
use vstd::prelude::*;

verus! {

/// Number of pixel columns.
pub const CHIP8_WIDTH: usize = 64;

/// Number of pixel rows.
pub const CHIP8_HEIGHT: usize = 32;

/// Number of 32-bit words that hold the packed bitmap.
pub const BUFFER_WORDS: usize = 64 * 32 / 32;

/// True when bit `b` of word `w` is set.
pub open spec fn word_bit(w: u32, b: u32) -> bool {
    (w >> b) & 1 == 1
}

/// True when bit `k` of byte `b` is set.
pub open spec fn byte_bit(b: u8, k: u32) -> bool {
    (b >> k) & 1 == 1
}

/// The flat index of the pixel at `(x, y)`.
pub open spec fn pixel_index(x: usize, y: usize) -> int {
    y * 64 + x
}

/// The flat pixel sequence encoded by a sequence of packed words.
spec fn pixels_view(p: Seq<u32>) -> Seq<bool> {
    Seq::new(2048, |i: int| word_bit(p[i / 32], (i % 32) as u32))
}

/// A 64 x 32 monochrome bitmap, bit-packed into `BUFFER_WORDS` words.
/// Its view is the flat sequence of 2048 pixels, indexed by `y * 64 + x`.
pub struct VideoBuffer {
    pixels: Vec<u32>,
}

impl View for VideoBuffer {
    type V = Seq<bool>;

    closed spec fn view(&self) -> Seq<bool> {
        pixels_view(self.pixels@)
    }
}

proof fn lemma_bit_ops(w: u32, b: u32, b2: u32)
    by (bit_vector)
    requires
        b < 32,
        b2 < 32,
    ensures
        word_bit(w | (1u32 << b), b2) == (b2 == b || word_bit(w, b2)),
        word_bit(w & !(1u32 << b), b2) == (b2 != b && word_bit(w, b2)),
        word_bit(w ^ (1u32 << b), b2) == if b2 == b {
            !word_bit(w, b2)
        } else {
            word_bit(w, b2)
        },
        word_bit(w ^ 0u32, b2) == word_bit(w, b2),
{
}

proof fn lemma_zero_word_bit(b: u32)
    by (bit_vector)
    requires
        b < 32,
    ensures
        !word_bit(0u32, b),
{
}

proof fn lemma_byte_of_word(w: u32, s: u32, k: u32)
    by (bit_vector)
    requires
        s < 4,
        k < 8,
    ensures
        byte_bit((((w >> (s * 8)) & 0xff) as u8), k) == word_bit(w, (s * 8 + k) as u32),
{
}

/// After changing only word `idx / 32` of the packed storage, such that bit
/// `idx % 32` now encodes `v` and every other bit of that word is unchanged,
/// the pixel view is the old view with position `idx` updated to `v`.
proof fn lemma_view_update(p0: Seq<u32>, p1: Seq<u32>, idx: int, v: bool)
    requires
        p0.len() == 64,
        p1.len() == 64,
        0 <= idx < 2048,
        p1 =~= p0.update(idx / 32, p1[idx / 32]),
        word_bit(p1[idx / 32], (idx % 32) as u32) == v,
        forall|b2: u32|
            b2 < 32 && b2 != (idx % 32) as u32 ==> #[trigger] word_bit(p1[idx / 32], b2)
                == word_bit(p0[idx / 32], b2),
    ensures
        pixels_view(p1) =~= pixels_view(p0).update(idx, v),
{
    assert forall|i: int| 0 <= i < 2048 implies pixels_view(p1)[i] == pixels_view(p0).update(
        idx,
        v,
    )[i] by {
        if i / 32 == idx / 32 {
            if i % 32 == idx % 32 {
                assert(i == idx);
            } else {
                assert(word_bit(p1[i / 32], (i % 32) as u32) == word_bit(
                    p0[i / 32],
                    (i % 32) as u32,
                ));
            }
        } else {
            assert(p1[i / 32] == p0[i / 32]);
        }
    }
}

impl VideoBuffer {
    /// The physical storage always holds exactly one bit per logical pixel.
    pub closed spec fn wf(&self) -> bool {
        self.pixels@.len() == 64
    }

    /// Reads the pixel at `(x, y)`; no side effects.
    pub fn get_pixel(&self, x: usize, y: usize) -> (r: bool)
        requires
            self.wf(),
            x < 64,
            y < 32,
        ensures
            r == self@[y * 64 + x],
    {
        let idx = y * 64 + x;
        let word = idx / 32;
        let bit = (idx % 32) as u32;
        let r = (self.pixels[word] >> bit) & 1 != 0;
        proof {
            let w = self.pixels@[word as int];
            assert(((w >> bit) & 1 != 0) == word_bit(w, bit)) by (bit_vector);
        }
        r
    }

    /// Unconditionally sets the pixel at `(x, y)` to `value`.
    pub fn set_pixel(&mut self, x: usize, y: usize, value: bool)
        requires
            old(self).wf(),
            x < 64,
            y < 32,
        ensures
            final(self).wf(),
            final(self)@ == old(self)@.update(y * 64 + x, value),
    {
        let idx = y * 64 + x;
        let word = idx / 32;
        let bit = (idx % 32) as u32;
        let w = self.pixels[word];
        let neww = if value {
            w | (1u32 << bit)
        } else {
            w & !(1u32 << bit)
        };
        self.pixels.set(word, neww);
        proof {
            assert forall|b2: u32| b2 < 32 implies word_bit(neww, b2) == if b2 == bit {
                value
            } else {
                word_bit(w, b2)
            } by {
                lemma_bit_ops(w, bit, b2);
            }
            lemma_view_update(old(self).pixels@, self.pixels@, idx as int, value);
        }
    }

    /// Flips the pixel at `(x, y)` unconditionally.
    pub fn toggle_pixel(&mut self, x: usize, y: usize)
        requires
            old(self).wf(),
            x < 64,
            y < 32,
        ensures
            final(self).wf(),
            final(self)@ == old(self)@.update(y * 64 + x, !old(self)@[y * 64 + x]),
    {
        let idx = y * 64 + x;
        let word = idx / 32;
        let bit = (idx % 32) as u32;
        let w = self.pixels[word];
        let neww = w ^ (1u32 << bit);
        self.pixels.set(word, neww);
        proof {
            assert forall|b2: u32| b2 < 32 implies word_bit(neww, b2) == if b2 == bit {
                !word_bit(w, b2)
            } else {
                word_bit(w, b2)
            } by {
                lemma_bit_ops(w, bit, b2);
            }
            lemma_view_update(
                old(self).pixels@,
                self.pixels@,
                idx as int,
                !old(self)@[idx as int],
            );
        }
    }

    /// XORs `value` into the pixel at `(x, y)` and returns the pre-XOR value,
    /// which the draw opcode uses to detect erasure (collision).
    pub fn xor_pixel(&mut self, x: usize, y: usize, value: bool) -> (r: bool)
        requires
            old(self).wf(),
            x < 64,
            y < 32,
        ensures
            final(self).wf(),
            final(self)@ == old(self)@.update(y * 64 + x, old(self)@[y * 64 + x] != value),
            r == old(self)@[y * 64 + x],
    {
        let idx = y * 64 + x;
        let word = idx / 32;
        let bit = (idx % 32) as u32;
        let w = self.pixels[word];
        let current = (w >> bit) & 1 != 0;
        let mask = if value {
            1u32 << bit
        } else {
            0u32
        };
        let neww = w ^ mask;
        self.pixels.set(word, neww);
        proof {
            assert(((w >> bit) & 1 != 0) == word_bit(w, bit)) by (bit_vector);
            assert forall|b2: u32| b2 < 32 implies word_bit(neww, b2) == if b2 == bit {
                (word_bit(w, b2) != value)
            } else {
                word_bit(w, b2)
            } by {
                lemma_bit_ops(w, bit, b2);
            }
            lemma_view_update(
                old(self).pixels@,
                self.pixels@,
                idx as int,
                old(self)@[idx as int] != value,
            );
        }
        current
    }

    /// Sets every pixel to 0.
    pub fn clear(&mut self)
        requires
            old(self).wf(),
        ensures
            final(self).wf(),
            final(self)@ == Seq::new(2048, |i: int| false),
    {
        let mut i: usize = 0;
        while i < 64
            invariant
                self.pixels@.len() == 64,
                i <= 64,
                forall|j: int| 0 <= j < i ==> self.pixels@[j] == 0u32,
            decreases 64 - i,
        {
            self.pixels.set(i, 0);
            i = i + 1;
        }
        proof {
            assert forall|p: int| 0 <= p < 2048 implies !pixels_view(self.pixels@)[p] by {
                lemma_zero_word_bit((p % 32) as u32);
            }
            assert(self@ =~= Seq::new(2048, |i: int| false));
        }
    }

    /// Exports the packed bitmap as bytes, least significant byte of each
    /// word first, so that bit `k` of byte `j` is the pixel at flat index
    /// `8 * j + k`. This is the wire format the presentation side consumes.
    pub fn as_bytes(&self) -> (r: Vec<u8>)
        requires
            self.wf(),
        ensures
            r@.len() == 256,
            forall|j: int, k: u32|
                0 <= j < 256 && k < 8 ==> (#[trigger] byte_bit(r@[j], k)) == self@[8 * j + k],
    {
        let mut r: Vec<u8> = Vec::new();
        let mut j: usize = 0;
        while j < 256
            invariant
                self.wf(),
                j <= 256,
                r@.len() == j,
                forall|j2: int, k: u32|
                    0 <= j2 < j && k < 8 ==> (#[trigger] byte_bit(r@[j2], k)) == self@[8 * j2 + k],
            decreases 256 - j,
        {
            let w = self.pixels[j / 4];
            let s = (j % 4) as u32;
            let byte = ((w >> (s * 8)) & 0xff) as u8;
            proof {
                assert forall|k: u32| k < 8 implies byte_bit(byte, k) == self@[8 * j + k] by {
                    lemma_byte_of_word(w, s, k);
                    assert((8 * j + k) / 32 == j as int / 4);
                    assert((8 * j + k) % 32 == s * 8 + k);
                }
            }
            r.push(byte);
            j = j + 1;
        }
        r
    }
}

impl Default for VideoBuffer {
    /// A framebuffer is created zeroed.
    fn default() -> (r: Self)
        ensures
            r.wf(),
            r@ == Seq::new(2048, |i: int| false),
    {
        let mut pixels: Vec<u32> = Vec::new();
        let mut i: usize = 0;
        while i < 64
            invariant
                i <= 64,
                pixels@.len() == i,
                forall|j: int| 0 <= j < i ==> pixels@[j] == 0u32,
            decreases 64 - i,
        {
            pixels.push(0);
            i = i + 1;
        }
        let r = VideoBuffer { pixels };
        proof {
            assert forall|p: int| 0 <= p < 2048 implies !pixels_view(r.pixels@)[p] by {
                lemma_zero_word_bit((p % 32) as u32);
            }
            assert(r@ =~= Seq::new(2048, |i: int| false));
        }
        r
    }
}

/// Writing a pixel makes that position read back as the written value while
/// every other position is untouched, and a cleared screen reads false
/// everywhere: the round trip of `set_pixel` and `get_pixel`, stated over the
/// pixel views their contracts use.
pub proof fn lemma_set_then_get(vb: VideoBuffer, x: usize, y: usize, v: bool)
    requires
        x < 64,
        y < 32,
    ensures
        vb@.update(pixel_index(x, y), v)[pixel_index(x, y)] == v,
        forall|x2: usize, y2: usize|
            x2 < 64 && y2 < 32 && (x2 != x || y2 != y) ==> vb@.update(pixel_index(x, y), v)[
                #[trigger] pixel_index(x2, y2)
            ] == vb@[pixel_index(x2, y2)],
        forall|x2: usize, y2: usize|
            x2 < 64 && y2 < 32 ==> !(Seq::new(2048, |i: int| false)[#[trigger] pixel_index(
                x2,
                y2,
            )]),
{
}

/// XORing the same value into the same pixel twice restores the original
/// screen, and the second call's pre-XOR result equals the value the first
/// call left behind: `xor_pixel` is its own inverse.
pub proof fn lemma_xor_pixel_involution(vb: VideoBuffer, x: usize, y: usize, v: bool)
    requires
        x < 64,
        y < 32,
    ensures
        ({
            let i = y * 64 + x;
            let s1 = vb@.update(i, vb@[i] != v);
            &&& s1.update(i, s1[i] != v) == vb@
            &&& s1[i] == (vb@[i] != v)
        }),
{
    let i = y * 64 + x;
    let s1 = vb@.update(i, vb@[i] != v);
    assert(s1.update(i, s1[i] != v) =~= vb@);
}

} // verus!
