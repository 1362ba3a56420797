//! The eight-byte colour sub-block: two 5-6-5 endpoints and sixteen two-bit
//! palette indices.

use byteorder::{ByteOrder, LittleEndian};
use vstd::prelude::*;

verus! {

/// A colour on the 5-6-5 grid: five bits of red, six of green, five of blue.
#[derive(Clone, Copy, Debug)]
pub struct Colour565 {
    pub r: u8,
    pub g: u8,
    pub b: u8,
}

impl Colour565 {
    /// Whether each component lies on its grid.
    pub open spec fn wf(self) -> bool {
        self.r <= 31 && self.g <= 63 && self.b <= 31
    }

    /// A grid colour from three components, each clamped to its grid.
    pub fn new(r: u8, g: u8, b: u8) -> (c: Colour565)
        ensures
            c.wf(),
            c.r == if r <= 31 { r } else { 31u8 },
            c.g == if g <= 63 { g } else { 63u8 },
            c.b == if b <= 31 { b } else { 31u8 },
    {
        Colour565 {
            r: if r <= 31 { r } else { 31 },
            g: if g <= 63 { g } else { 63 },
            b: if b <= 31 { b } else { 31 },
        }
    }
}

/// The sixteen-bit word that two bytes hold, low byte first.
pub open spec fn word_le(lo: u8, hi: u8) -> u16 {
    (lo as int + 256 * (hi as int)) as u16
}

/// The low byte of a packed colour: the low three bits of green above blue.
pub open spec fn packed_low(c: Colour565) -> u8 {
    (c.g << 5) | c.b
}

/// The high byte of a packed colour: red above the high three bits of green.
pub open spec fn packed_high(c: Colour565) -> u8 {
    (c.r << 3) | (c.g >> 3)
}

/// A grid colour as one word, red in the highest bits.
pub open spec fn packed_565(c: Colour565) -> u16 {
    word_le(packed_low(c), packed_high(c))
}

/// `byteorder::LittleEndian::read_u16`: the word made of the first two bytes
/// of `buf`, the first being the low byte. The call panics on a shorter
/// buffer, which the precondition leaves out.
#[verifier::external_body]
fn read_u16_le(buf: &[u8]) -> (value: u16)
    requires
        buf@.len() >= 2,
    ensures
        value == word_le(buf@[0], buf@[1]),
{
    LittleEndian::read_u16(buf)
}

/// `byteorder::LittleEndian::write_u16`: stores the low byte of `n` in the
/// first byte of `buf` and the high byte in the second, and leaves the rest
/// as it was. The call panics on a shorter buffer, which the precondition
/// leaves out.
#[verifier::external_body]
fn write_u16_le(buf: &mut [u8], n: u16)
    requires
        old(buf)@.len() >= 2,
    ensures
        final(buf)@ == old(buf)@.update(0, (n % 256) as u8).update(1, (n / 256) as u8),
{
    LittleEndian::write_u16(buf, n)
}

/// Packs a grid colour into its sixteen-bit word.
pub fn pack_565(colour: &Colour565) -> (packed: u16)
    ensures
        packed == packed_565(*colour),
        colour.wf() ==> packed == colour.r * 2048 + colour.g * 32 + colour.b,
{
    let r: u8 = colour.r;
    let g: u8 = colour.g;
    let b: u8 = colour.b;
    let lo: u8 = (g << 5) | b;
    let hi: u8 = (r << 3) | (g >> 3);
    assert(r <= 31 && g <= 63 && b <= 31 ==> lo as u16 + 256 * (hi as u16) == r as u16 * 2048
        + g as u16 * 32 + b as u16) by (bit_vector)
        requires
            lo == (g << 5) | b,
            hi == (r << 3) | (g >> 3),
    ;
    let buf: [u8; 2] = [lo, hi];
    read_u16_le(buf.as_slice())
}

/// A five-bit level widened to eight bits by repeating its high bits below.
pub open spec fn expand_5bit(v: u8) -> u8 {
    (v << 3) | (v >> 2)
}

/// A six-bit level widened to eight bits by repeating its high bits below.
pub open spec fn expand_6bit(v: u8) -> u8 {
    (v << 2) | (v >> 4)
}

/// The red level of a packed colour.
pub open spec fn red_of(value: u16) -> u8 {
    ((value >> 11) & 0x1F) as u8
}

/// The green level of a packed colour.
pub open spec fn green_of(value: u16) -> u8 {
    ((value >> 5) & 0x3F) as u8
}

/// The blue level of a packed colour.
pub open spec fn blue_of(value: u16) -> u8 {
    (value & 0x1F) as u8
}

/// The opaque eight-bit texel that a packed colour stands for.
pub open spec fn unpacked_565(value: u16) -> Seq<u8> {
    seq![
        expand_5bit(red_of(value)),
        expand_6bit(green_of(value)),
        expand_5bit(blue_of(value)),
        255u8,
    ]
}

/// Expands a packed colour, given as two bytes with the low byte first, to an
/// opaque eight-bit texel.
pub fn unpack_565(packed: &[u8]) -> (texel: [u8; 4])
    requires
        packed@.len() == 2,
    ensures
        texel@ == unpacked_565(word_le(packed@[0], packed@[1])),
{
    let value: u16 = read_u16_le(packed);
    let r16: u16 = (value >> 11) & 0x1F;
    let g16: u16 = (value >> 5) & 0x3F;
    let b16: u16 = value & 0x1F;
    assert(r16 <= 31 && g16 <= 63 && b16 <= 31) by (bit_vector)
        requires
            r16 == (value >> 11) & 0x1F,
            g16 == (value >> 5) & 0x3F,
            b16 == value & 0x1F,
    ;
    let r: u8 = r16 as u8;
    let g: u8 = g16 as u8;
    let b: u8 = b16 as u8;
    let texel: [u8; 4] = [(r << 3) | (r >> 2), (g << 2) | (g >> 4), (b << 3) | (b >> 2), 255u8];
    assert(texel@ =~= unpacked_565(value));
    texel
}

/// Four two-bit indices, those from `4 * i` on, packed into one byte with the
/// first in the lowest bits. Only the low two bits of each index count.
pub open spec fn packed_quad(indices: Seq<u8>, i: int) -> u8 {
    ((indices[4 * i + 3] & 0x03) << 6) | ((indices[4 * i + 2] & 0x03) << 4) | ((indices[4 * i
        + 1] & 0x03) << 2) | (indices[4 * i] & 0x03)
}

/// The bytes of a colour block: both endpoint words with the low byte first,
/// then the sixteen indices, four to a byte.
pub open spec fn colour_block_bytes(a: u16, b: u16, indices: Seq<u8>) -> Seq<u8> {
    seq![
        (a % 256) as u8,
        (a / 256) as u8,
        (b % 256) as u8,
        (b / 256) as u8,
        packed_quad(indices, 0),
        packed_quad(indices, 1),
        packed_quad(indices, 2),
        packed_quad(indices, 3),
    ]
}

/// The endpoint word that a colour block stores at position `k` (0 or 1).
pub open spec fn endpoint_word(bytes: Seq<u8>, k: int) -> u16 {
    word_le(bytes[2 * k], bytes[2 * k + 1])
}

/// Whether the index bytes of a colour block are all zero.
pub open spec fn indices_clear(bytes: Seq<u8>) -> bool {
    bytes[4] == 0 && bytes[5] == 0 && bytes[6] == 0 && bytes[7] == 0
}

/// A colour block stores its endpoint words as they were given.
pub proof fn lemma_endpoint_words(a: u16, b: u16, indices: Seq<u8>)
    ensures
        endpoint_word(colour_block_bytes(a, b, indices), 0) == a,
        endpoint_word(colour_block_bytes(a, b, indices), 1) == b,
{
}

/// Packs four two-bit indices into one byte.
fn pack_quad(indices: &[u8; 16], i: usize) -> (packed: u8)
    requires
        i < 4,
    ensures
        packed == packed_quad(indices@, i as int),
{
    ((indices[4 * i + 3] & 0x03) << 6) | ((indices[4 * i + 2] & 0x03) << 4) | ((indices[4 * i
        + 1] & 0x03) << 2) | (indices[4 * i] & 0x03)
}

/// Writes two endpoint words and sixteen indices as they are given.
fn write_block(a: u16, b: u16, indices: &[u8; 16], block: &mut [u8])
    requires
        old(block)@.len() == 8,
    ensures
        final(block)@ == colour_block_bytes(a, b, indices@),
{
    let (head, tail) = block.split_at_mut(2);
    write_u16_le(head, a);
    let (mid, packed) = tail.split_at_mut(2);
    write_u16_le(mid, b);
    packed[0] = pack_quad(indices, 0);
    packed[1] = pack_quad(indices, 1);
    packed[2] = pack_quad(indices, 2);
    packed[3] = pack_quad(indices, 3);
    assert(block@ =~= colour_block_bytes(a, b, indices@));
}

/// What an index of the three-point palette becomes when the endpoints change
/// places: the endpoints swap, the midpoint and the transparent entry stay.
pub open spec fn swapped_index3(x: u8) -> u8 {
    if x == 0 {
        1
    } else if x == 1 {
        0
    } else {
        x
    }
}

/// What an index of the four-point palette becomes when the endpoints change
/// places: the endpoints swap, and so do the two values between them.
pub open spec fn swapped_index4(x: u8) -> u8 {
    (x ^ 0x01) & 0x03
}

/// The block written for a three-point fit: the lesser endpoint word comes
/// first, so that a decoder rebuilds the three-point palette.
pub open spec fn three_block_bytes(start: Colour565, end: Colour565, indices: Seq<u8>) -> Seq<u8> {
    let a = packed_565(start);
    let b = packed_565(end);
    if a > b {
        colour_block_bytes(b, a, Seq::new(16, |i: int| swapped_index3(indices[i])))
    } else {
        colour_block_bytes(a, b, indices)
    }
}

/// The block written for a four-point fit: the greater endpoint word comes
/// first, so that a decoder rebuilds the four-point palette. Where both
/// endpoints pack to one word, every index is zero.
pub open spec fn four_block_bytes(start: Colour565, end: Colour565, indices: Seq<u8>) -> Seq<u8> {
    let a = packed_565(start);
    let b = packed_565(end);
    if a < b {
        colour_block_bytes(b, a, Seq::new(16, |i: int| swapped_index4(indices[i])))
    } else if a > b {
        colour_block_bytes(a, b, indices)
    } else {
        colour_block_bytes(a, b, Seq::new(16, |i: int| 0u8))
    }
}

/// Writes a colour block for the three-point palette. The first endpoint word
/// of the block is never the greater.
pub fn write3(start: &Colour565, end: &Colour565, indices: &[u8; 16], block: &mut [u8])
    requires
        old(block)@.len() == 8,
    ensures
        final(block)@ == three_block_bytes(*start, *end, indices@),
        endpoint_word(final(block)@, 0) <= endpoint_word(final(block)@, 1),
{
    let a: u16 = pack_565(start);
    let b: u16 = pack_565(end);
    if a > b {
        let mut remapped: [u8; 16] = *indices;
        let mut i: usize = 0;
        while i < 16
            invariant
                i <= 16,
                forall|k: int| 0 <= k < i ==> remapped@[k] == swapped_index3(indices@[k]),
                forall|k: int| i <= k < 16 ==> remapped@[k] == indices@[k],
            decreases 16 - i,
        {
            let x: u8 = remapped[i];
            remapped[i] = if x == 0 {
                1
            } else if x == 1 {
                0
            } else {
                x
            };
            i += 1;
        }
        assert(remapped@ =~= Seq::new(16, |i: int| swapped_index3(indices@[i])));
        write_block(b, a, &remapped, block);
        proof {
            lemma_endpoint_words(b, a, remapped@);
        }
    } else {
        write_block(a, b, indices, block);
        proof {
            lemma_endpoint_words(a, b, indices@);
        }
    }
}

/// Writes a colour block for the four-point palette. The first endpoint word
/// of the block is the greater, unless both endpoints pack to one word: then
/// the two words are equal and every index is zero.
pub fn write4(start: &Colour565, end: &Colour565, indices: &[u8; 16], block: &mut [u8])
    requires
        old(block)@.len() == 8,
    ensures
        final(block)@ == four_block_bytes(*start, *end, indices@),
        packed_565(*start) != packed_565(*end) ==> endpoint_word(final(block)@, 0) > endpoint_word(
            final(block)@,
            1,
        ),
        packed_565(*start) == packed_565(*end) ==> endpoint_word(final(block)@, 0) == endpoint_word(
            final(block)@,
            1,
        ) && indices_clear(final(block)@),
{
    let a: u16 = pack_565(start);
    let b: u16 = pack_565(end);
    let mut remapped: [u8; 16] = [0u8; 16];
    if a < b {
        let mut i: usize = 0;
        while i < 16
            invariant
                i <= 16,
                forall|k: int| 0 <= k < i ==> remapped@[k] == swapped_index4(indices@[k]),
            decreases 16 - i,
        {
            remapped[i] = (indices[i] ^ 0x01) & 0x03;
            i += 1;
        }
        assert(remapped@ =~= Seq::new(16, |i: int| swapped_index4(indices@[i])));
        write_block(b, a, &remapped, block);
        proof {
            lemma_endpoint_words(b, a, remapped@);
        }
    } else if a > b {
        write_block(a, b, indices, block);
        proof {
            lemma_endpoint_words(a, b, indices@);
        }
    } else {
        assert(remapped@ =~= Seq::new(16, |i: int| 0u8));
        write_block(a, b, &remapped, block);
        proof {
            lemma_endpoint_words(a, b, remapped@);
            assert(packed_quad(remapped@, 0) == 0 && packed_quad(remapped@, 1) == 0 && packed_quad(
                remapped@,
                2,
            ) == 0 && packed_quad(remapped@, 3) == 0) by {
                assert(((0u8 & 0x03) << 6) | ((0u8 & 0x03) << 4) | ((0u8 & 0x03) << 2) | (0u8
                    & 0x03) == 0u8) by (bit_vector);
            }
        }
    }
}

/// Whether a decoder reads a colour block with the three-point palette, whose
/// fourth entry is transparent black: only in BC1, and only where the first
/// endpoint word is not the greater.
pub open spec fn three_point(bytes: Seq<u8>, is_bc1: bool) -> bool {
    is_bc1 && endpoint_word(bytes, 0) <= endpoint_word(bytes, 1)
}

/// Entry `index` of the palette that a decoder rebuilds from a colour block.
pub open spec fn palette_entry(bytes: Seq<u8>, is_bc1: bool, index: int) -> Seq<u8> {
    let a = unpacked_565(endpoint_word(bytes, 0));
    let b = unpacked_565(endpoint_word(bytes, 1));
    if index == 0 {
        a
    } else if index == 1 {
        b
    } else if three_point(bytes, is_bc1) {
        if index == 2 {
            seq![
                ((a[0] + b[0]) / 2) as u8,
                ((a[1] + b[1]) / 2) as u8,
                ((a[2] + b[2]) / 2) as u8,
                255u8,
            ]
        } else {
            seq![0u8, 0u8, 0u8, 0u8]
        }
    } else {
        if index == 2 {
            seq![
                ((2 * a[0] + b[0]) / 3) as u8,
                ((2 * a[1] + b[1]) / 3) as u8,
                ((2 * a[2] + b[2]) / 3) as u8,
                255u8,
            ]
        } else {
            seq![
                ((a[0] + 2 * b[0]) / 3) as u8,
                ((a[1] + 2 * b[1]) / 3) as u8,
                ((a[2] + 2 * b[2]) / 3) as u8,
                255u8,
            ]
        }
    }
}

/// The two-bit palette index that a colour block holds for texel `i`.
pub open spec fn colour_index(bytes: Seq<u8>, i: int) -> u8 {
    (bytes[4 + i / 4] >> ((2 * (i % 4)) as u8)) & 0x03
}

/// The texel that a colour block holds at position `i`.
pub open spec fn colour_texel(bytes: Seq<u8>, is_bc1: bool, i: int) -> Seq<u8> {
    palette_entry(bytes, is_bc1, colour_index(bytes, i) as int)
}

/// Reads the two-bit index of one texel.
fn unpack_quad_index(bytes: &[u8], i: usize) -> (index: u8)
    requires
        bytes@.len() == 8,
        i < 16,
    ensures
        index == colour_index(bytes@, i as int),
        index < 4,
{
    let packed: u8 = bytes[4 + i / 4];
    let shift: u8 = (2 * (i % 4)) as u8;
    let index: u8 = (packed >> shift) & 0x03;
    assert(index < 4) by (bit_vector)
        requires
            index == (packed >> shift) & 0x03,
    ;
    index
}

/// Decodes a colour block to sixteen texels. Every eight bytes decode: the
/// order of the two endpoint words says which palette they stand for.
pub fn decompress(bytes: &[u8], is_bc1: bool) -> (rgba: [[u8; 4]; 16])
    requires
        bytes@.len() == 8,
    ensures
        forall|i: int| 0 <= i < 16 ==> #[trigger] rgba@[i]@ == colour_texel(bytes@, is_bc1, i),
{
    let a: u16 = read_u16_le(&bytes[0..2]);
    let b: u16 = read_u16_le(&bytes[2..4]);
    let first: [u8; 4] = unpack_565(&bytes[0..2]);
    let second: [u8; 4] = unpack_565(&bytes[2..4]);
    let c0: u32 = first[0] as u32;
    let c1: u32 = first[1] as u32;
    let c2: u32 = first[2] as u32;
    let d0: u32 = second[0] as u32;
    let d1: u32 = second[1] as u32;
    let d2: u32 = second[2] as u32;
    let three: bool = is_bc1 && a <= b;
    let third: [u8; 4] = if three {
        [((c0 + d0) / 2) as u8, ((c1 + d1) / 2) as u8, ((c2 + d2) / 2) as u8, 255u8]
    } else {
        [((2 * c0 + d0) / 3) as u8, ((2 * c1 + d1) / 3) as u8, ((2 * c2 + d2) / 3) as u8, 255u8]
    };
    let fourth: [u8; 4] = if three {
        [0u8, 0u8, 0u8, 0u8]
    } else {
        [((c0 + 2 * d0) / 3) as u8, ((c1 + 2 * d1) / 3) as u8, ((c2 + 2 * d2) / 3) as u8, 255u8]
    };
    let codes: [[u8; 4]; 4] = [first, second, third, fourth];
    assert(forall|k: int| 0 <= k < 4 ==> #[trigger] codes@[k]@ =~= palette_entry(bytes@, is_bc1, k));

    let mut rgba: [[u8; 4]; 16] = [[0u8; 4]; 16];
    let mut i: usize = 0;
    while i < 16
        invariant
            i <= 16,
            bytes@.len() == 8,
            forall|k: int| 0 <= k < 4 ==> #[trigger] codes@[k]@ == palette_entry(bytes@, is_bc1, k),
            forall|k: int| 0 <= k < i ==> #[trigger] rgba@[k]@ == colour_texel(bytes@, is_bc1, k),
        decreases 16 - i,
    {
        let index: u8 = unpack_quad_index(bytes, i);
        rgba[i] = codes[index as usize];
        i += 1;
    }
    rgba
}

/// A palette index of a colour block is one of four.
pub proof fn lemma_colour_index_range(bytes: Seq<u8>, i: int)
    ensures
        colour_index(bytes, i) < 4,
{
    let packed: u8 = bytes[4 + i / 4];
    let shift: u8 = (2 * (i % 4)) as u8;
    assert((packed >> shift) & 0x03 < 4) by (bit_vector);
}

/// Endpoint ordering: a block written for the three-point palette is read
/// with the three-point palette in BC1, and a block written for the
/// four-point palette is read with the four-point palette, unless both
/// endpoints pack to one word: then the two stored words are equal and every
/// texel has index 0, which both palettes read as that endpoint. Outside BC1
/// every block is read with the four-point palette.
pub proof fn lemma_endpoint_order(start: Colour565, end: Colour565, indices: Seq<u8>)
    ensures
        three_point(three_block_bytes(start, end, indices), true),
        packed_565(start) != packed_565(end) ==> !three_point(
            four_block_bytes(start, end, indices),
            true,
        ),
        packed_565(start) == packed_565(end) ==> {
            &&& indices_clear(four_block_bytes(start, end, indices))
            &&& endpoint_word(four_block_bytes(start, end, indices), 0) == packed_565(start)
            &&& endpoint_word(four_block_bytes(start, end, indices), 1) == packed_565(start)
        },
        !three_point(three_block_bytes(start, end, indices), false),
        !three_point(four_block_bytes(start, end, indices), false),
{
    let a = packed_565(start);
    let b = packed_565(end);
    let swapped3 = Seq::new(16, |i: int| swapped_index3(indices[i]));
    let swapped4 = Seq::new(16, |i: int| swapped_index4(indices[i]));
    let zeros = Seq::new(16, |i: int| 0u8);
    lemma_endpoint_words(a, b, indices);
    lemma_endpoint_words(b, a, swapped3);
    lemma_endpoint_words(b, a, swapped4);
    lemma_endpoint_words(a, b, zeros);
    assert(((0u8 & 0x03) << 6) | ((0u8 & 0x03) << 4) | ((0u8 & 0x03) << 2) | (0u8 & 0x03) == 0u8)
        by (bit_vector);
    assert(packed_quad(zeros, 0) == 0 && packed_quad(zeros, 1) == 0 && packed_quad(zeros, 2) == 0
        && packed_quad(zeros, 3) == 0);
}

/// Packing and unpacking agree: the word of a grid colour holds its three
/// levels, each in its own bits.
pub proof fn lemma_pack_unpack(c: Colour565)
    requires
        c.wf(),
    ensures
        packed_565(c) == c.r * 2048 + c.g * 32 + c.b,
        red_of(packed_565(c)) == c.r,
        green_of(packed_565(c)) == c.g,
        blue_of(packed_565(c)) == c.b,
{
    let r: u8 = c.r;
    let g: u8 = c.g;
    let b: u8 = c.b;
    let lo: u8 = (g << 5) | b;
    let hi: u8 = (r << 3) | (g >> 3);
    assert(lo as u16 + 256 * (hi as u16) == r as u16 * 2048 + g as u16 * 32 + b as u16)
        by (bit_vector)
        requires
            r <= 31 && g <= 63 && b <= 31,
            lo == (g << 5) | b,
            hi == (r << 3) | (g >> 3),
    ;
    let w: u16 = packed_565(c);
    assert((w >> 11) & 0x1F == r as u16 && (w >> 5) & 0x3F == g as u16 && w & 0x1F == b as u16)
        by (bit_vector)
        requires
            r <= 31 && g <= 63 && b <= 31,
            w == r as u16 * 2048 + g as u16 * 32 + b as u16,
    ;
}

/// Widening a level repeats its high bits below it: a five-bit level `v`
/// becomes `8v + v / 4`, a six-bit level `4v + v / 16`.
pub proof fn lemma_expand(v: u8)
    ensures
        v <= 31 ==> expand_5bit(v) == 8 * v + v / 4,
        v <= 63 ==> expand_6bit(v) == 4 * v + v / 16,
{
    assert(v <= 31 ==> (v << 3) | (v >> 2) == 8 * v + v / 4) by (bit_vector);
    assert(v <= 63 ==> (v << 2) | (v >> 4) == 4 * v + v / 16) by (bit_vector);
}

/// A colour block gives back the indices it was written with, each in its
/// low two bits.
pub proof fn lemma_index_round_trip(a: u16, b: u16, indices: Seq<u8>, i: int)
    requires
        0 <= i < 16,
    ensures
        colour_index(colour_block_bytes(a, b, indices), i) == indices[i] & 0x03,
{
    let k = i / 4;
    let x0: u8 = indices[4 * k];
    let x1: u8 = indices[4 * k + 1];
    let x2: u8 = indices[4 * k + 2];
    let x3: u8 = indices[4 * k + 3];
    let p: u8 = packed_quad(indices, k);
    assert((p >> 0u8) & 0x03 == x0 & 0x03 && (p >> 2u8) & 0x03 == x1 & 0x03 && (p >> 4u8) & 0x03
        == x2 & 0x03 && (p >> 6u8) & 0x03 == x3 & 0x03) by (bit_vector)
        requires
            p == ((x3 & 0x03) << 6) | ((x2 & 0x03) << 4) | ((x1 & 0x03) << 2) | (x0 & 0x03),
    ;
    assert(colour_block_bytes(a, b, indices)[4 + k] == p);
}

} // verus!
