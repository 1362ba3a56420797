//! The eight-byte alpha sub-block: explicit four-bit alpha (BC2) and
//! interpolated alpha with three-bit indices (BC3, BC4, BC5).

use vstd::prelude::*;

verus! {

/// Whether bit `i` of a validity mask is set, that is, whether texel `i` takes
/// part in encoding.
pub open spec fn texel_enabled(mask: u32, i: int) -> bool {
    mask & (1u32 << (i as u32)) != 0
}

/// An eight-bit alpha value rounded to the nearest of sixteen levels:
/// `round(15 * alpha / 255)`.
pub open spec fn quantise_4bit(alpha: u8) -> u8 {
    ((30 * (alpha as int) + 255) / 510) as u8
}

/// The four-bit alpha stored for texel `i`: zero where the texel is masked out.
pub open spec fn bc2_nibble(rgba: [[u8; 4]; 16], mask: u32, i: int) -> u8 {
    if texel_enabled(mask, i) {
        quantise_4bit(rgba[i][3])
    } else {
        0
    }
}

/// Byte `i` of an explicit alpha block: texel `2i` in the low nibble, texel
/// `2i + 1` in the high nibble.
pub open spec fn bc2_byte(rgba: [[u8; 4]; 16], mask: u32, i: int) -> u8 {
    bc2_nibble(rgba, mask, 2 * i) | (bc2_nibble(rgba, mask, 2 * i + 1) << 4)
}

/// The explicit alpha block of sixteen texels.
pub open spec fn bc2_alpha_block(rgba: [[u8; 4]; 16], mask: u32) -> Seq<u8> {
    Seq::new(8, |i: int| bc2_byte(rgba, mask, i))
}

/// A four-bit level widened to eight bits by repeating it in both nibbles.
pub open spec fn expand_4bit(nibble: u8) -> u8 {
    nibble | (nibble << 4)
}

/// The alpha that an explicit alpha block holds for texel `i`.
pub open spec fn bc2_alpha(bytes: Seq<u8>, i: int) -> u8 {
    if i % 2 == 0 {
        expand_4bit(bytes[i / 2] & 0x0F)
    } else {
        expand_4bit(bytes[i / 2] >> 4)
    }
}

/// Rounds an eight-bit alpha value to the nearest of sixteen levels.
fn quantise(alpha: u8) -> (q: u8)
    ensures
        q == quantise_4bit(alpha),
        q <= 15,
{
    ((30 * (alpha as u32) + 255) / 510) as u8
}

/// Encodes the alpha channel of a block as sixteen explicit four-bit values.
pub fn compress_bc2(rgba: &[[u8; 4]; 16], mask: u32, block: &mut [u8])
    requires
        old(block)@.len() == 8,
    ensures
        final(block)@ == bc2_alpha_block(*rgba, mask),
        final(block)@.len() == 8,
{
    let mut i: usize = 0;
    while i < 8
        invariant
            i <= 8,
            block@.len() == 8,
            forall|k: int| 0 <= k < i ==> block@[k] == bc2_byte(*rgba, mask, k),
        decreases 8 - i,
    {
        let mut quant1: u8 = quantise(rgba[2 * i][3]);
        let mut quant2: u8 = quantise(rgba[2 * i + 1][3]);
        let bit1: u32 = 1u32 << ((2 * i) as u32);
        let bit2: u32 = 1u32 << ((2 * i + 1) as u32);
        if (mask & bit1) == 0 {
            quant1 = 0;
        }
        if (mask & bit2) == 0 {
            quant2 = 0;
        }
        block[i] = quant1 | (quant2 << 4);
        i += 1;
    }
    assert(block@ =~= bc2_alpha_block(*rgba, mask));
}

/// Decodes an explicit alpha block into the alpha channel of sixteen texels.
pub fn decompress_bc2(rgba: &mut [[u8; 4]; 16], bytes: &[u8])
    requires
        bytes@.len() == 8,
    ensures
        forall|i: int|
            0 <= i < 16 ==> #[trigger] final(rgba)@[i]@ == old(rgba)@[i]@.update(
                3,
                bc2_alpha(bytes@, i),
            ),
{
    let mut i: usize = 0;
    while i < 8
        invariant
            i <= 8,
            bytes@.len() == 8,
            forall|k: int|
                0 <= k < 2 * i ==> #[trigger] rgba@[k]@ == old(rgba)@[k]@.update(
                    3,
                    bc2_alpha(bytes@, k),
                ),
            forall|k: int| 2 * i <= k < 16 ==> #[trigger] rgba@[k] == old(rgba)@[k],
        decreases 8 - i,
    {
        let quant: u8 = bytes[i];
        let lo: u8 = quant & 0x0F;
        let hi: u8 = quant >> 4;
        rgba[2 * i][3] = lo | (lo << 4);
        rgba[2 * i + 1][3] = hi | (hi << 4);
        assert(rgba@[2 * i as int]@ =~= old(rgba)@[2 * i as int]@.update(3, bc2_alpha(bytes@, 2 * i as int)));
        assert(rgba@[2 * i + 1]@ =~= old(rgba)@[2 * i + 1]@.update(3, bc2_alpha(bytes@, 2 * i + 1)));
        i += 1;
    }
}

/// The span `(min, max)` widened to at least `steps`: `max` grows first, as far
/// as 255 allows, then `min` shrinks.
pub open spec fn fixed_range(min: u8, max: u8, steps: u8) -> (u8, u8) {
    let hi: int = if max - min < steps {
        if min + steps < 255 {
            min + steps
        } else {
            255
        }
    } else {
        max as int
    };
    let lo: int = if hi - min < steps {
        if hi - steps > 0 {
            hi - steps
        } else {
            0
        }
    } else {
        min as int
    };
    (lo as u8, hi as u8)
}

/// Widens a range to at least `steps`.
fn fix_range(min: &mut u8, max: &mut u8, steps: u8)
    requires
        *old(min) <= *old(max),
    ensures
        (*final(min), *final(max)) == fixed_range(*old(min), *old(max), steps),
        *final(min) <= *final(max),
{
    if *max - *min < steps {
        let grown: u32 = *min as u32 + steps as u32;
        *max = if grown < 255 {
            grown as u8
        } else {
            255
        };
    }
    if *max - *min < steps {
        *min = if *max > steps {
            *max - steps
        } else {
            0
        };
    }
}

/// The least value of a channel over the first `n` texels that are enabled,
/// zero left aside where `skip_zero` is set; 255 where there is none.
pub open spec fn channel_min(
    rgba: [[u8; 4]; 16],
    channel: int,
    mask: u32,
    skip_zero: bool,
    n: int,
) -> u8
    decreases n,
{
    if n <= 0 {
        255
    } else {
        let rest = channel_min(rgba, channel, mask, skip_zero, n - 1);
        let value = rgba[n - 1][channel];
        if texel_enabled(mask, n - 1) && !(skip_zero && value == 0) && value < rest {
            value
        } else {
            rest
        }
    }
}

/// The greatest value of a channel over the first `n` texels that are
/// enabled, 255 left aside where `skip_full` is set; 0 where there is none.
pub open spec fn channel_max(
    rgba: [[u8; 4]; 16],
    channel: int,
    mask: u32,
    skip_full: bool,
    n: int,
) -> u8
    decreases n,
{
    if n <= 0 {
        0
    } else {
        let rest = channel_max(rgba, channel, mask, skip_full, n - 1);
        let value = rgba[n - 1][channel];
        if texel_enabled(mask, n - 1) && !(skip_full && value == 255) && value > rest {
            value
        } else {
            rest
        }
    }
}

/// The endpoints that the encoder tries for a channel. With `inner` set they
/// are those of the six-point palette, found without the values 0 and 255 and
/// at least 5 apart; otherwise those of the eight-point palette, at least 7
/// apart. An empty range collapses to its upper end before it is widened.
pub open spec fn alpha_range(rgba: [[u8; 4]; 16], channel: int, mask: u32, inner: bool) -> (
    u8,
    u8,
) {
    let lo = channel_min(rgba, channel, mask, inner, 16);
    let hi = channel_max(rgba, channel, mask, inner, 16);
    fixed_range(
        if lo > hi {
            hi
        } else {
            lo
        },
        hi,
        if inner {
            5u8
        } else {
            7u8
        },
    )
}

/// The value `i` steps of `steps` from `a` towards `b`, rounded down.
pub open spec fn interpolate(a: u8, b: u8, i: int, steps: int) -> u8 {
    (((steps - i) * a + i * b) / steps) as u8
}

/// The six-point palette: both endpoints, four values between them, then the
/// constants 0 and 255.
pub open spec fn palette5(a: u8, b: u8) -> Seq<u8> {
    seq![
        a,
        b,
        interpolate(a, b, 1, 5),
        interpolate(a, b, 2, 5),
        interpolate(a, b, 3, 5),
        interpolate(a, b, 4, 5),
        0u8,
        255u8,
    ]
}

/// The eight-point palette: both endpoints and six values between them.
pub open spec fn palette7(a: u8, b: u8) -> Seq<u8> {
    seq![
        a,
        b,
        interpolate(a, b, 1, 7),
        interpolate(a, b, 2, 7),
        interpolate(a, b, 3, 7),
        interpolate(a, b, 4, 7),
        interpolate(a, b, 5, 7),
        interpolate(a, b, 6, 7),
    ]
}

/// The palette that a decoder rebuilds from the two stored endpoints: eight
/// points where the first is the greater, six points and the two constants
/// otherwise.
pub open spec fn alpha_palette(alpha0: u8, alpha1: u8) -> Seq<u8> {
    if alpha0 <= alpha1 {
        palette5(alpha0, alpha1)
    } else {
        palette7(alpha0, alpha1)
    }
}

/// Builds the six-point palette of two endpoints.
fn codebook5(a: u8, b: u8) -> (codes: [u8; 8])
    ensures
        codes@ == palette5(a, b),
{
    let x: u32 = a as u32;
    let y: u32 = b as u32;
    let codes: [u8; 8] = [
        a,
        b,
        ((4 * x + y) / 5) as u8,
        ((3 * x + 2 * y) / 5) as u8,
        ((2 * x + 3 * y) / 5) as u8,
        ((x + 4 * y) / 5) as u8,
        0,
        255,
    ];
    assert(codes@ =~= palette5(a, b));
    codes
}

/// Builds the eight-point palette of two endpoints.
fn codebook7(a: u8, b: u8) -> (codes: [u8; 8])
    ensures
        codes@ == palette7(a, b),
{
    let x: u32 = a as u32;
    let y: u32 = b as u32;
    let codes: [u8; 8] = [
        a,
        b,
        ((6 * x + y) / 7) as u8,
        ((5 * x + 2 * y) / 7) as u8,
        ((4 * x + 3 * y) / 7) as u8,
        ((3 * x + 4 * y) / 7) as u8,
        ((2 * x + 5 * y) / 7) as u8,
        ((x + 6 * y) / 7) as u8,
    ];
    assert(codes@ =~= palette7(a, b));
    codes
}

/// The squared distance of a value from a palette entry.
pub open spec fn sq_dist(value: u8, code: u8) -> int {
    (value - code) * (value - code)
}

/// The index of the entry nearest to `value` among the first `n` of a
/// palette; of several equally near, the first.
pub open spec fn nearest_code(codes: Seq<u8>, value: u8, n: int) -> int
    decreases n,
{
    if n <= 1 {
        0
    } else {
        let rest = nearest_code(codes, value, n - 1);
        if sq_dist(value, codes[n - 1]) < sq_dist(value, codes[rest]) {
            n - 1
        } else {
            rest
        }
    }
}

/// The palette index given to texel `i`: that of the nearest entry, or 0 where
/// the texel is masked out.
pub open spec fn fitted_index(
    rgba: [[u8; 4]; 16],
    channel: int,
    mask: u32,
    codes: Seq<u8>,
    i: int,
) -> u8 {
    if texel_enabled(mask, i) {
        nearest_code(codes, rgba[i][channel], 8) as u8
    } else {
        0
    }
}

/// The indices given to all sixteen texels.
pub open spec fn fitted_indices(rgba: [[u8; 4]; 16], channel: int, mask: u32, codes: Seq<u8>) -> Seq<
    u8,
> {
    Seq::new(16, |i: int| fitted_index(rgba, channel, mask, codes, i))
}

/// The squared error that a palette leaves over the first `n` texels, summed
/// over those that are enabled.
pub open spec fn fitted_error(
    rgba: [[u8; 4]; 16],
    channel: int,
    mask: u32,
    codes: Seq<u8>,
    n: int,
) -> int
    decreases n,
{
    if n <= 0 {
        0
    } else {
        fitted_error(rgba, channel, mask, codes, n - 1) + if texel_enabled(mask, n - 1) {
            sq_dist(
                rgba[n - 1][channel],
                codes[nearest_code(codes, rgba[n - 1][channel], 8)],
            )
        } else {
            0
        }
    }
}

/// The nearest entry of a palette always lies inside it.
pub proof fn lemma_nearest_code_in_range(codes: Seq<u8>, value: u8, n: int)
    ensures
        0 <= nearest_code(codes, value, n),
        n >= 1 ==> nearest_code(codes, value, n) < n,
        n < 1 ==> nearest_code(codes, value, n) == 0,
    decreases n,
{
    if n > 1 {
        lemma_nearest_code_in_range(codes, value, n - 1);
    }
}

/// No entry among the first `n` is nearer to `value` than the chosen one, and
/// none before the chosen one is as near.
pub proof fn lemma_nearest_code_is_nearest(codes: Seq<u8>, value: u8, n: int, k: int)
    requires
        0 <= k < n,
    ensures
        sq_dist(value, codes[nearest_code(codes, value, n)]) <= sq_dist(value, codes[k]),
        k < nearest_code(codes, value, n) ==> sq_dist(value, codes[nearest_code(codes, value, n)])
            < sq_dist(value, codes[k]),
    decreases n,
{
    if n > 1 {
        lemma_nearest_code_in_range(codes, value, n - 1);
        if k < n - 1 {
            lemma_nearest_code_is_nearest(codes, value, n - 1, k);
        }
    }
}

/// Finds the palette entry nearest to a value, and its squared distance.
fn closest_code(codes: &[u8; 8], value: u8) -> (r: (u8, u32))
    ensures
        r.0 == nearest_code(codes@, value, 8),
        r.0 < 8,
        r.1 == sq_dist(value, codes@[r.0 as int]),
        r.1 <= 65025,
{
    let first: i32 = value as i32 - codes[0] as i32;
    assert(0 <= first * first <= 65025 && first * first == sq_dist(value, codes@[0])) by (nonlinear_arith)
        requires
            -255 <= first <= 255,
            first == value - codes@[0],
    ;
    let mut least: u32 = (first * first) as u32;
    let mut index: u8 = 0;
    let mut j: usize = 1;
    while j < 8
        invariant
            1 <= j <= 8,
            index == nearest_code(codes@, value, j as int),
            index < j,
            least == sq_dist(value, codes@[index as int]),
            least <= 65025,
        decreases 8 - j,
    {
        let dist: i32 = value as i32 - codes[j] as i32;
        assert(dist * dist <= 65025 && dist * dist >= 0 && dist * dist == sq_dist(
            value,
            codes@[j as int],
        )) by (nonlinear_arith)
            requires
                -255 <= dist <= 255,
                dist == value - codes@[j as int],
        ;
        let dist: u32 = (dist * dist) as u32;
        if dist < least {
            least = dist;
            index = j as u8;
        }
        j += 1;
    }
    (index, least)
}

/// Gives every texel the index of its nearest palette entry and returns
/// the squared error summed over the enabled texels.
fn fit_codes(
    rgba: &[[u8; 4]; 16],
    channel: usize,
    mask: u32,
    codes: &[u8; 8],
    indices: &mut [u8; 16],
) -> (err: u32)
    requires
        channel < 4,
    ensures
        final(indices)@ == fitted_indices(*rgba, channel as int, mask, codes@),
        err == fitted_error(*rgba, channel as int, mask, codes@, 16),
        forall|i: int| 0 <= i < 16 ==> final(indices)@[i] < 8,
{
    let mut err: u32 = 0;
    let mut i: usize = 0;
    while i < 16
        invariant
            i <= 16,
            channel < 4,
            err == fitted_error(*rgba, channel as int, mask, codes@, i as int),
            err <= 65025 * i,
            forall|k: int|
                0 <= k < i ==> indices@[k] == fitted_index(*rgba, channel as int, mask, codes@, k),
            forall|k: int| 0 <= k < i ==> indices@[k] < 8,
        decreases 16 - i,
    {
        let bit: u32 = 1u32 << (i as u32);
        if (mask & bit) == 0 {
            indices[i] = 0;
        } else {
            let value: u8 = rgba[i][channel];
            let (index, least) = closest_code(codes, value);
            indices[i] = index;
            err += least;
        }
        i += 1;
    }
    assert(indices@ =~= fitted_indices(*rgba, channel as int, mask, codes@));
    err
}

/// Eight three-bit indices, those from `base` on, packed into one word with
/// the first in the lowest bits; `n` says how many of them are in.
pub open spec fn packed_indices(indices: Seq<u8>, base: int, n: int) -> u32
    decreases n,
{
    if n <= 0 {
        0
    } else {
        packed_indices(indices, base, n - 1) | ((indices[base + n - 1] as u32) << ((3 * (n
            - 1)) as u32))
    }
}

/// Byte `k` of a word, counted from the lowest.
pub open spec fn byte_of_word(value: u32, k: u32) -> u8 {
    ((value >> (8 * k)) & 0xFF) as u8
}

/// The bytes of an interpolated alpha block: both endpoints, then the sixteen
/// indices in two groups of three bytes.
pub open spec fn alpha_block_bytes(alpha0: u8, alpha1: u8, indices: Seq<u8>) -> Seq<u8> {
    let lo = packed_indices(indices, 0, 8);
    let hi = packed_indices(indices, 8, 8);
    seq![
        alpha0,
        alpha1,
        byte_of_word(lo, 0),
        byte_of_word(lo, 1),
        byte_of_word(lo, 2),
        byte_of_word(hi, 0),
        byte_of_word(hi, 1),
        byte_of_word(hi, 2),
    ]
}

/// Packs eight three-bit indices into one word.
fn pack_indices(indices: &[u8; 16], base: usize) -> (value: u32)
    requires
        base <= 8,
    ensures
        value == packed_indices(indices@, base as int, 8),
{
    let mut value: u32 = 0;
    let mut j: usize = 0;
    while j < 8
        invariant
            j <= 8,
            base <= 8,
            value == packed_indices(indices@, base as int, j as int),
        decreases 8 - j,
    {
        let index: u32 = indices[base + j] as u32;
        value |= index << ((3 * j) as u32);
        j += 1;
    }
    value
}

/// Takes one of the three low bytes of a word.
fn word_byte(value: u32, k: u32) -> (b: u8)
    requires
        k < 3,
    ensures
        b == byte_of_word(value, k),
{
    let part: u32 = (value >> (8 * k)) & 0xFF;
    assert(part <= 255) by (bit_vector)
        requires
            part == (value >> (8 * k)) & 0xFF,
    ;
    part as u8
}

/// Writes two endpoints and sixteen indices as they are given.
fn write_alpha_block(alpha0: u8, alpha1: u8, indices: &[u8; 16], block: &mut [u8])
    requires
        old(block)@.len() == 8,
    ensures
        final(block)@ == alpha_block_bytes(alpha0, alpha1, indices@),
{
    let lo: u32 = pack_indices(indices, 0);
    let hi: u32 = pack_indices(indices, 8);
    block[0] = alpha0;
    block[1] = alpha1;
    block[2] = word_byte(lo, 0);
    block[3] = word_byte(lo, 1);
    block[4] = word_byte(lo, 2);
    block[5] = word_byte(hi, 0);
    block[6] = word_byte(hi, 1);
    block[7] = word_byte(hi, 2);
    assert(block@ =~= alpha_block_bytes(alpha0, alpha1, indices@));
}

/// What an index of the six-point palette becomes when the endpoints change
/// places: the endpoints swap, the four values between them reverse, and the
/// two constants stay.
pub open spec fn swapped_index5(x: u8) -> u8 {
    if x == 0 {
        1
    } else if x == 1 {
        0
    } else if x <= 5 {
        (7 - x) as u8
    } else {
        x
    }
}

/// What an index of the eight-point palette becomes when the endpoints change
/// places: the endpoints swap and the six values between them reverse.
pub open spec fn swapped_index7(x: u8) -> u8 {
    if x == 0 {
        1
    } else if x == 1 {
        0
    } else {
        (9 - x) as u8
    }
}

/// The block written for a six-point fit: the lesser endpoint comes first, so
/// that a decoder rebuilds the six-point palette.
pub open spec fn block5_bytes(alpha0: u8, alpha1: u8, indices: Seq<u8>) -> Seq<u8> {
    if alpha0 > alpha1 {
        alpha_block_bytes(alpha1, alpha0, Seq::new(16, |i: int| swapped_index5(indices[i])))
    } else {
        alpha_block_bytes(alpha0, alpha1, indices)
    }
}

/// The block written for an eight-point fit: the greater endpoint comes
/// first, so that a decoder rebuilds the eight-point palette.
pub open spec fn block7_bytes(alpha0: u8, alpha1: u8, indices: Seq<u8>) -> Seq<u8> {
    if alpha0 < alpha1 {
        alpha_block_bytes(alpha1, alpha0, Seq::new(16, |i: int| swapped_index7(indices[i])))
    } else {
        alpha_block_bytes(alpha0, alpha1, indices)
    }
}

/// Writes a six-point fit, the lesser endpoint first.
fn write_alpha_block5(alpha0: u8, alpha1: u8, indices: &[u8; 16], block: &mut [u8])
    requires
        old(block)@.len() == 8,
    ensures
        final(block)@ == block5_bytes(alpha0, alpha1, indices@),
        final(block)@[0] <= final(block)@[1],
{
    if alpha0 > alpha1 {
        let mut swapped: [u8; 16] = *indices;
        let mut i: usize = 0;
        while i < 16
            invariant
                i <= 16,
                forall|k: int| 0 <= k < i ==> swapped@[k] == swapped_index5(indices@[k]),
                forall|k: int| i <= k < 16 ==> swapped@[k] == indices@[k],
            decreases 16 - i,
        {
            let x: u8 = swapped[i];
            swapped[i] = if x == 0 {
                1
            } else if x == 1 {
                0
            } else if x <= 5 {
                7 - x
            } else {
                x
            };
            i += 1;
        }
        assert(swapped@ =~= Seq::new(16, |i: int| swapped_index5(indices@[i])));
        write_alpha_block(alpha1, alpha0, &swapped, block);
    } else {
        write_alpha_block(alpha0, alpha1, indices, block);
    }
}

/// Writes an eight-point fit, the greater endpoint first.
fn write_alpha_block7(alpha0: u8, alpha1: u8, indices: &[u8; 16], block: &mut [u8])
    requires
        old(block)@.len() == 8,
        forall|i: int| 0 <= i < 16 ==> indices@[i] < 8,
    ensures
        final(block)@ == block7_bytes(alpha0, alpha1, indices@),
        final(block)@[0] >= final(block)@[1],
        alpha0 != alpha1 ==> final(block)@[0] > final(block)@[1],
{
    if alpha0 < alpha1 {
        let mut swapped: [u8; 16] = *indices;
        let mut i: usize = 0;
        while i < 16
            invariant
                i <= 16,
                forall|k: int| 0 <= k < 16 ==> indices@[k] < 8,
                forall|k: int| 0 <= k < i ==> swapped@[k] == swapped_index7(indices@[k]),
                forall|k: int| i <= k < 16 ==> swapped@[k] == indices@[k],
            decreases 16 - i,
        {
            let x: u8 = swapped[i];
            swapped[i] = if x == 0 {
                1
            } else if x == 1 {
                0
            } else {
                9 - x
            };
            i += 1;
        }
        assert(swapped@ =~= Seq::new(16, |i: int| swapped_index7(indices@[i])));
        write_alpha_block(alpha1, alpha0, &swapped, block);
    } else {
        write_alpha_block(alpha0, alpha1, indices, block);
    }
}

/// Whether the six-point palette fits a channel at least as well as the
/// eight-point palette does, in which case the encoder takes it.
pub open spec fn prefers_palette5(rgba: [[u8; 4]; 16], channel: int, mask: u32) -> bool {
    let (min5, max5) = alpha_range(rgba, channel, mask, true);
    let (min7, max7) = alpha_range(rgba, channel, mask, false);
    fitted_error(rgba, channel, mask, palette5(min5, max5), 16) <= fitted_error(
        rgba,
        channel,
        mask,
        palette7(min7, max7),
        16,
    )
}

/// The interpolated alpha block of one channel of sixteen texels: both
/// palettes are fitted to the enabled texels and the one with the smaller
/// squared error is written.
#[verifier::opaque]
pub open spec fn bc3_alpha_block(rgba: [[u8; 4]; 16], channel: int, mask: u32) -> Seq<u8> {
    let (min5, max5) = alpha_range(rgba, channel, mask, true);
    let (min7, max7) = alpha_range(rgba, channel, mask, false);
    if prefers_palette5(rgba, channel, mask) {
        block5_bytes(min5, max5, fitted_indices(rgba, channel, mask, palette5(min5, max5)))
    } else {
        block7_bytes(min7, max7, fitted_indices(rgba, channel, mask, palette7(min7, max7)))
    }
}

/// Encodes one channel of a block with interpolated alpha. The stored
/// endpoints are in the order by which a decoder tells the two palettes
/// apart: the first is the greater exactly where the eight-point palette was
/// the better fit.
pub fn compress_bc3(rgba: &[[u8; 4]; 16], channel: usize, mask: u32, block: &mut [u8])
    requires
        channel < 4,
        old(block)@.len() == 8,
    ensures
        final(block)@ == bc3_alpha_block(*rgba, channel as int, mask),
        final(block)@.len() == 8,
        final(block)@[0] <= final(block)@[1] <==> prefers_palette5(*rgba, channel as int, mask),
{
    reveal(bc3_alpha_block);
    let mut min5: u8 = 255;
    let mut max5: u8 = 0;
    let mut min7: u8 = 255;
    let mut max7: u8 = 0;
    let mut i: usize = 0;
    while i < 16
        invariant
            i <= 16,
            channel < 4,
            min5 == channel_min(*rgba, channel as int, mask, true, i as int),
            max5 == channel_max(*rgba, channel as int, mask, true, i as int),
            min7 == channel_min(*rgba, channel as int, mask, false, i as int),
            max7 == channel_max(*rgba, channel as int, mask, false, i as int),
        decreases 16 - i,
    {
        let bit: u32 = 1u32 << (i as u32);
        if (mask & bit) != 0 {
            let value: u8 = rgba[i][channel];
            if value < min7 {
                min7 = value;
            }
            if value > max7 {
                max7 = value;
            }
            if value != 0 && value < min5 {
                min5 = value;
            }
            if value != 255 && value > max5 {
                max5 = value;
            }
        }
        i += 1;
    }
    if min5 > max5 {
        min5 = max5;
    }
    if min7 > max7 {
        min7 = max7;
    }
    fix_range(&mut min5, &mut max5, 5);
    fix_range(&mut min7, &mut max7, 7);
    assert((min5, max5) == alpha_range(*rgba, channel as int, mask, true));
    assert((min7, max7) == alpha_range(*rgba, channel as int, mask, false));
    assert(min7 < max7);

    let codes5 = codebook5(min5, max5);
    let codes7 = codebook7(min7, max7);

    let mut indices5 = [0u8; 16];
    let mut indices7 = [0u8; 16];
    let err5 = fit_codes(rgba, channel, mask, &codes5, &mut indices5);
    let err7 = fit_codes(rgba, channel, mask, &codes7, &mut indices7);

    if err5 <= err7 {
        write_alpha_block5(min5, max5, &indices5, block);
    } else {
        write_alpha_block7(min7, max7, &indices7, block);
    }
}

/// The three-bit palette index that an interpolated alpha block holds for
/// texel `i`.
pub open spec fn alpha_index(bytes: Seq<u8>, i: int) -> u8 {
    let base = 2 + 3 * (i / 8);
    let value: u32 = (bytes[base] as u32) | ((bytes[base + 1] as u32) << 8) | ((bytes[base
        + 2] as u32) << 16);
    ((value >> ((3 * (i % 8)) as u32)) & 0x07) as u8
}

/// The value that an interpolated alpha block holds for texel `i`.
pub open spec fn bc3_alpha(bytes: Seq<u8>, i: int) -> u8 {
    alpha_palette(bytes[0], bytes[1])[alpha_index(bytes, i) as int]
}

/// Reads the three-bit index of one texel.
fn unpack_index(bytes: &[u8], i: usize) -> (index: u8)
    requires
        bytes@.len() == 8,
        i < 16,
    ensures
        index == alpha_index(bytes@, i as int),
        index < 8,
{
    let base: usize = 2 + 3 * (i / 8);
    let value: u32 = (bytes[base] as u32) | ((bytes[base + 1] as u32) << 8) | ((bytes[base
        + 2] as u32) << 16);
    let shift: u32 = (3 * (i % 8)) as u32;
    let part: u32 = (value >> shift) & 0x07;
    assert(part < 8) by (bit_vector)
        requires
            part == (value >> shift) & 0x07,
    ;
    part as u8
}

/// Decodes an interpolated alpha block into one channel of sixteen texels.
pub fn decompress_bc3(rgba: &mut [[u8; 4]; 16], channel: usize, bytes: &[u8])
    requires
        channel < 4,
        bytes@.len() == 8,
    ensures
        forall|i: int|
            0 <= i < 16 ==> #[trigger] final(rgba)@[i]@ == old(rgba)@[i]@.update(
                channel as int,
                bc3_alpha(bytes@, i),
            ),
{
    let codes: [u8; 8] = if bytes[0] <= bytes[1] {
        codebook5(bytes[0], bytes[1])
    } else {
        codebook7(bytes[0], bytes[1])
    };
    let mut i: usize = 0;
    while i < 16
        invariant
            i <= 16,
            channel < 4,
            bytes@.len() == 8,
            codes@ == alpha_palette(bytes@[0], bytes@[1]),
            forall|k: int|
                0 <= k < i ==> #[trigger] rgba@[k]@ == old(rgba)@[k]@.update(
                    channel as int,
                    bc3_alpha(bytes@, k),
                ),
            forall|k: int| i <= k < 16 ==> #[trigger] rgba@[k] == old(rgba)@[k],
        decreases 16 - i,
    {
        let index: u8 = unpack_index(bytes, i);
        rgba[i][channel] = codes[index as usize];
        assert(rgba@[i as int]@ =~= old(rgba)@[i as int]@.update(
            channel as int,
            bc3_alpha(bytes@, i as int),
        ));
        i += 1;
    }
}

/// Whether two blocks hold the same texel wherever the mask enables one.
pub open spec fn agree_where_enabled(a: [[u8; 4]; 16], b: [[u8; 4]; 16], mask: u32) -> bool {
    forall|i: int| 0 <= i < 16 && texel_enabled(mask, i) ==> a[i] == b[i]
}

/// Whether two blocks hold the same value of a channel wherever the mask
/// enables a texel.
pub open spec fn agree_in_channel(
    a: [[u8; 4]; 16],
    b: [[u8; 4]; 16],
    channel: int,
    mask: u32,
) -> bool {
    forall|i: int| 0 <= i < 16 && texel_enabled(mask, i) ==> a[i][channel] == b[i][channel]
}

/// The range of a channel depends on the enabled texels' values of that
/// channel alone.
pub proof fn lemma_range_by_channel(
    a: [[u8; 4]; 16],
    b: [[u8; 4]; 16],
    channel: int,
    mask: u32,
    skip: bool,
    n: int,
)
    requires
        agree_in_channel(a, b, channel, mask),
        n <= 16,
    ensures
        channel_min(a, channel, mask, skip, n) == channel_min(b, channel, mask, skip, n),
        channel_max(a, channel, mask, skip, n) == channel_max(b, channel, mask, skip, n),
    decreases n,
{
    if n > 0 {
        lemma_range_by_channel(a, b, channel, mask, skip, n - 1);
    }
}

/// The error of a palette depends on the enabled texels' values of the
/// channel alone.
pub proof fn lemma_error_by_channel(
    a: [[u8; 4]; 16],
    b: [[u8; 4]; 16],
    channel: int,
    mask: u32,
    codes: Seq<u8>,
    n: int,
)
    requires
        agree_in_channel(a, b, channel, mask),
        n <= 16,
    ensures
        fitted_error(a, channel, mask, codes, n) == fitted_error(b, channel, mask, codes, n),
    decreases n,
{
    if n > 0 {
        lemma_error_by_channel(a, b, channel, mask, codes, n - 1);
    }
}

/// The interpolated alpha block of a channel depends on the enabled texels'
/// values of that channel alone.
pub proof fn lemma_bc3_by_channel(a: [[u8; 4]; 16], b: [[u8; 4]; 16], channel: int, mask: u32)
    requires
        agree_in_channel(a, b, channel, mask),
    ensures
        bc3_alpha_block(a, channel, mask) == bc3_alpha_block(b, channel, mask),
{
    reveal(bc3_alpha_block);
    lemma_range_by_channel(a, b, channel, mask, true, 16);
    lemma_range_by_channel(a, b, channel, mask, false, 16);
    let (min5, max5) = alpha_range(a, channel, mask, true);
    let (min7, max7) = alpha_range(a, channel, mask, false);
    lemma_error_by_channel(a, b, channel, mask, palette5(min5, max5), 16);
    lemma_error_by_channel(a, b, channel, mask, palette7(min7, max7), 16);
    assert(fitted_indices(a, channel, mask, palette5(min5, max5)) =~= fitted_indices(
        b,
        channel,
        mask,
        palette5(min5, max5),
    ));
    assert(fitted_indices(a, channel, mask, palette7(min7, max7)) =~= fitted_indices(
        b,
        channel,
        mask,
        palette7(min7, max7),
    ));
}

/// Masked encoding of alpha: two blocks that differ only in texels that the
/// mask leaves out have the same explicit alpha block and, for each channel,
/// the same interpolated alpha block.
pub proof fn lemma_alpha_ignores_masked(a: [[u8; 4]; 16], b: [[u8; 4]; 16], channel: int, mask: u32)
    requires
        agree_where_enabled(a, b, mask),
    ensures
        bc2_alpha_block(a, mask) == bc2_alpha_block(b, mask),
        bc3_alpha_block(a, channel, mask) == bc3_alpha_block(b, channel, mask),
{
    assert(bc2_alpha_block(a, mask) =~= bc2_alpha_block(b, mask));
    lemma_bc3_by_channel(a, b, channel, mask);
}

/// The error of a palette is never negative.
pub proof fn lemma_error_nonnegative(
    rgba: [[u8; 4]; 16],
    channel: int,
    mask: u32,
    codes: Seq<u8>,
    n: int,
)
    ensures
        fitted_error(rgba, channel, mask, codes, n) >= 0,
    decreases n,
{
    if n > 0 {
        lemma_error_nonnegative(rgba, channel, mask, codes, n - 1);
        let value = rgba[n - 1][channel];
        let code = codes[nearest_code(codes, value, 8)];
        assert(sq_dist(value, code) >= 0) by (nonlinear_arith)
            requires
                sq_dist(value, code) == (value - code) * (value - code),
        ;
    }
}

/// An interpolated alpha block gives back the indices it was written with.
pub proof fn lemma_alpha_index_round_trip(alpha0: u8, alpha1: u8, indices: Seq<u8>, i: int)
    requires
        0 <= i < 16,
        forall|j: int| 0 <= j < 16 ==> indices[j] < 8,
    ensures
        alpha_index(alpha_block_bytes(alpha0, alpha1, indices), i) == indices[i],
{
    let base = 8 * (i / 8);
    let bytes = alpha_block_bytes(alpha0, alpha1, indices);
    let v: u32 = packed_indices(indices, base, 8);
    let x0: u32 = indices[base] as u32;
    let x1: u32 = indices[base + 1] as u32;
    let x2: u32 = indices[base + 2] as u32;
    let x3: u32 = indices[base + 3] as u32;
    let x4: u32 = indices[base + 4] as u32;
    let x5: u32 = indices[base + 5] as u32;
    let x6: u32 = indices[base + 6] as u32;
    let x7: u32 = indices[base + 7] as u32;
    reveal_with_fuel(packed_indices, 9);
    assert(v == 0u32 | (x0 << 0u32) | (x1 << 3u32) | (x2 << 6u32) | (x3 << 9u32) | (x4 << 12u32)
        | (x5 << 15u32) | (x6 << 18u32) | (x7 << 21u32));
    let c0: u32 = (v >> 0u32) & 0xFF;
    let c1: u32 = (v >> 8u32) & 0xFF;
    let c2: u32 = (v >> 16u32) & 0xFF;
    let w: u32 = c0 | (c1 << 8u32) | (c2 << 16u32);
    assert(c0 <= 255 && c1 <= 255 && c2 <= 255 && (w >> 0u32) & 0x07 == x0 && (w >> 3u32) & 0x07
        == x1 && (w >> 6u32) & 0x07 == x2 && (w >> 9u32) & 0x07 == x3 && (w >> 12u32) & 0x07 == x4
        && (w >> 15u32) & 0x07 == x5 && (w >> 18u32) & 0x07 == x6 && (w >> 21u32) & 0x07 == x7)
        by (bit_vector)
        requires
            x0 < 8 && x1 < 8 && x2 < 8 && x3 < 8 && x4 < 8 && x5 < 8 && x6 < 8 && x7 < 8,
            v == 0u32 | (x0 << 0u32) | (x1 << 3u32) | (x2 << 6u32) | (x3 << 9u32) | (x4 << 12u32) | (
            x5 << 15u32) | (x6 << 18u32) | (x7 << 21u32),
            c0 == (v >> 0u32) & 0xFF,
            c1 == (v >> 8u32) & 0xFF,
            c2 == (v >> 16u32) & 0xFF,
            w == c0 | (c1 << 8u32) | (c2 << 16u32),
    ;
    let at = 2 + 3 * (i / 8);
    assert(bytes[at] == byte_of_word(v, 0));
    assert(bytes[at + 1] == byte_of_word(v, 1));
    assert(bytes[at + 2] == byte_of_word(v, 2));
    assert(bytes[at] as u32 == c0);
    assert(bytes[at + 1] as u32 == c1);
    assert(bytes[at + 2] as u32 == c2);
}

/// An interpolated alpha block has eight bytes.
pub proof fn lemma_bc3_block_len(rgba: [[u8; 4]; 16], channel: int, mask: u32)
    ensures
        bc3_alpha_block(rgba, channel, mask).len() == 8,
{
    reveal(bc3_alpha_block);
}

} // verus!
