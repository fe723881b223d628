//! The built-in hexadecimal glyph font: sixteen 5-byte sprites for the digits
//! 0 through F, written into the first 80 bytes of memory at construction and
//! reset, and addressed by the "load font address" opcode as `digit * 5`.

use vstd::prelude::*;

verus! {

/// The 80 font bytes, five rows per glyph, digits 0 through F in order.
pub open spec fn font_seq() -> Seq<u8> {
    seq![
        0xF0u8, 0x90, 0x90, 0x90, 0xF0,  // 0
        0x20, 0x60, 0x20, 0x20, 0x70,  // 1
        0xF0, 0x10, 0xF0, 0x80, 0xF0,  // 2
        0xF0, 0x10, 0xF0, 0x10, 0xF0,  // 3
        0x90, 0x90, 0xF0, 0x10, 0x10,  // 4
        0xF0, 0x80, 0xF0, 0x10, 0xF0,  // 5
        0xF0, 0x80, 0xF0, 0x90, 0xF0,  // 6
        0xF0, 0x10, 0x20, 0x40, 0x40,  // 7
        0xF0, 0x90, 0xF0, 0x90, 0xF0,  // 8
        0xF0, 0x90, 0xF0, 0x10, 0xF0,  // 9
        0xF0, 0x90, 0xF0, 0x90, 0x90,  // A
        0xE0, 0x90, 0xE0, 0x90, 0xE0,  // B
        0xF0, 0x80, 0x80, 0x80, 0xF0,  // C
        0xE0, 0x90, 0x90, 0x90, 0xE0,  // D
        0xF0, 0x80, 0xF0, 0x80, 0xF0,  // E
        0xF0, 0x80, 0xF0, 0x80, 0x80,  // F
    ]
}

/// Builds the font table as a vector of its 80 bytes.
pub fn font() -> (r: Vec<u8>)
    ensures
        r@ == font_seq(),
{
    let mut r: Vec<u8> = Vec::new();
    r.push(0xF0);
    r.push(0x90);
    r.push(0x90);
    r.push(0x90);
    r.push(0xF0);
    r.push(0x20);
    r.push(0x60);
    r.push(0x20);
    r.push(0x20);
    r.push(0x70);
    r.push(0xF0);
    r.push(0x10);
    r.push(0xF0);
    r.push(0x80);
    r.push(0xF0);
    r.push(0xF0);
    r.push(0x10);
    r.push(0xF0);
    r.push(0x10);
    r.push(0xF0);
    r.push(0x90);
    r.push(0x90);
    r.push(0xF0);
    r.push(0x10);
    r.push(0x10);
    r.push(0xF0);
    r.push(0x80);
    r.push(0xF0);
    r.push(0x10);
    r.push(0xF0);
    r.push(0xF0);
    r.push(0x80);
    r.push(0xF0);
    r.push(0x90);
    r.push(0xF0);
    r.push(0xF0);
    r.push(0x10);
    r.push(0x20);
    r.push(0x40);
    r.push(0x40);
    r.push(0xF0);
    r.push(0x90);
    r.push(0xF0);
    r.push(0x90);
    r.push(0xF0);
    r.push(0xF0);
    r.push(0x90);
    r.push(0xF0);
    r.push(0x10);
    r.push(0xF0);
    r.push(0xF0);
    r.push(0x90);
    r.push(0xF0);
    r.push(0x90);
    r.push(0x90);
    r.push(0xE0);
    r.push(0x90);
    r.push(0xE0);
    r.push(0x90);
    r.push(0xE0);
    r.push(0xF0);
    r.push(0x80);
    r.push(0x80);
    r.push(0x80);
    r.push(0xF0);
    r.push(0xE0);
    r.push(0x90);
    r.push(0x90);
    r.push(0x90);
    r.push(0xE0);
    r.push(0xF0);
    r.push(0x80);
    r.push(0xF0);
    r.push(0x80);
    r.push(0xF0);
    r.push(0xF0);
    r.push(0x80);
    r.push(0xF0);
    r.push(0x80);
    r.push(0x80);
    proof {
        assert(r@ =~= font_seq());
    }
    r
}

} // verus!
