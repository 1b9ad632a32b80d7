//! The character-to-color palette used by visualizers: each alphabet
//! symbol maps to an RGB triple; unknown symbols render white.

use vstd::prelude::*;

verus! {

/// The RGB triple of a symbol, as a three-element sequence.
pub open spec fn color_of(cell: char) -> Seq<u8> {
    match cell {
        'B' => seq![0x00u8, 0x00u8, 0x00u8],
        'I' => seq![0x1Du8, 0x2Bu8, 0x53u8],
        'P' => seq![0x7Eu8, 0x25u8, 0x53u8],
        'E' => seq![0x00u8, 0x87u8, 0x51u8],
        'N' => seq![0xABu8, 0x52u8, 0x36u8],
        'D' => seq![0x5Fu8, 0x57u8, 0x4Fu8],
        'A' => seq![0xC2u8, 0xC3u8, 0xC7u8],
        'W' => seq![0xFFu8, 0xF1u8, 0xE8u8],
        'R' => seq![0xFFu8, 0x00u8, 0x4Du8],
        'O' => seq![0xFFu8, 0xA3u8, 0x00u8],
        'Y' => seq![0xFFu8, 0xECu8, 0x27u8],
        'G' => seq![0x00u8, 0xE4u8, 0x36u8],
        'U' => seq![0x29u8, 0xADu8, 0xFFu8],
        'S' => seq![0x83u8, 0x76u8, 0x9Cu8],
        'K' => seq![0xFFu8, 0x77u8, 0xA8u8],
        'F' => seq![0xFFu8, 0xCCu8, 0xAAu8],
        'C' => seq![0x00u8, 0xFFu8, 0xFFu8],
        'H' => seq![0xE4u8, 0xBBu8, 0x40u8],
        'J' => seq![0x4Bu8, 0x69u8, 0x2Fu8],
        'L' => seq![0x84u8, 0x7Eu8, 0x87u8],
        'M' => seq![0xFFu8, 0x00u8, 0xFFu8],
        'Q' => seq![0x9Bu8, 0xADu8, 0xB7u8],
        'T' => seq![0x37u8, 0x94u8, 0x6Eu8],
        'V' => seq![0x8Fu8, 0x97u8, 0x4Au8],
        'X' => seq![0xFFu8, 0x00u8, 0x00u8],
        'Z' => seq![0xFFu8, 0xFFu8, 0xFFu8],
        _ => seq![0xFFu8, 0xFFu8, 0xFFu8],
    }
}

/// The RGB color a visualizer paints for a symbol.
pub fn alphabet_color(cell: char) -> (r: [u8; 3])
    ensures
        r@ == color_of(cell),
{
    let r: [u8; 3] = match cell {
        'B' => [0x00, 0x00, 0x00],
        'I' => [0x1D, 0x2B, 0x53],
        'P' => [0x7E, 0x25, 0x53],
        'E' => [0x00, 0x87, 0x51],
        'N' => [0xAB, 0x52, 0x36],
        'D' => [0x5F, 0x57, 0x4F],
        'A' => [0xC2, 0xC3, 0xC7],
        'W' => [0xFF, 0xF1, 0xE8],
        'R' => [0xFF, 0x00, 0x4D],
        'O' => [0xFF, 0xA3, 0x00],
        'Y' => [0xFF, 0xEC, 0x27],
        'G' => [0x00, 0xE4, 0x36],
        'U' => [0x29, 0xAD, 0xFF],
        'S' => [0x83, 0x76, 0x9C],
        'K' => [0xFF, 0x77, 0xA8],
        'F' => [0xFF, 0xCC, 0xAA],
        'C' => [0x00, 0xFF, 0xFF],
        'H' => [0xE4, 0xBB, 0x40],
        'J' => [0x4B, 0x69, 0x2F],
        'L' => [0x84, 0x7E, 0x87],
        'M' => [0xFF, 0x00, 0xFF],
        'Q' => [0x9B, 0xAD, 0xB7],
        'T' => [0x37, 0x94, 0x6E],
        'V' => [0x8F, 0x97, 0x4A],
        'X' => [0xFF, 0x00, 0x00],
        'Z' => [0xFF, 0xFF, 0xFF],
        _ => [0xFF, 0xFF, 0xFF],
    };
    proof {
        assert(r@ =~= color_of(cell));
    }
    r
}

} // verus!
