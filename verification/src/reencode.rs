//! Re-encoding: a uniform block that is compressed, decompressed and
//! compressed again gives the same bytes.

use crate::alpha::{
    alpha_block_bytes, alpha_palette, alpha_range, bc2_alpha, bc2_alpha_block, bc2_byte,
    bc2_nibble, bc3_alpha, bc3_alpha_block, channel_max, channel_min, fitted_error,
    fitted_indices, interpolate, lemma_alpha_index_round_trip, lemma_bc3_block_len, lemma_bc3_by_channel,
    lemma_error_nonnegative, lemma_nearest_code_in_range, lemma_nearest_code_is_nearest,
    nearest_code, palette5, palette7, prefers_palette5, quantise_4bit, sq_dist, texel_enabled,
};
use crate::colourblock::{
    colour_block_bytes, colour_texel, endpoint_word, four_block_bytes, lemma_endpoint_words,
    lemma_expand, lemma_index_round_trip, lemma_pack_unpack, packed_565, palette_entry,
    swapped_index3, swapped_index4, three_block_bytes, three_point, unpacked_565, Colour565,
};
use crate::colourfit::{
    best_pair, best_source, channel_error, distance, grid_size, grid_value, improves,
    lemma_best_pair_in_range, lemma_pair_value_is_byte, pair_value, palette_value,
    single_best_error, single_block, single_colour_block, single_end, single_error, single_index,
    single_mid, single_start, single_three, Fit, Palettes, Source,
};
use crate::colourset::{colour_set, position, remapped, ColourSet, ColourSetView};
use crate::format::{block_encoded, colour_encoded, decoded_texel, Algorithm, Format, Params};
use vstd::prelude::*;

verus! {

/// No pair among the first `n` is to be taken over the best pair.
pub proof fn lemma_best_pair_minimal(
    six: bool,
    four: bool,
    mid: bool,
    target: int,
    n: int,
    q: int,
)
    requires
        0 <= q < n,
    ensures
        !improves(
            target,
            pair_value(six, four, mid, q),
            pair_value(six, four, mid, best_pair(six, four, mid, target, n)),
        ),
    decreases n,
{
    if n > 1 {
        if q < n - 1 {
            lemma_best_pair_minimal(six, four, mid, target, n - 1, q);
        }
    }
}

/// No pair before the best pair has its palette value.
pub proof fn lemma_best_pair_first(six: bool, four: bool, mid: bool, target: int, n: int, q: int)
    requires
        0 <= q < best_pair(six, four, mid, target, n),
    ensures
        pair_value(six, four, mid, q) != pair_value(
            six,
            four,
            mid,
            best_pair(six, four, mid, target, n),
        ),
    decreases n,
{
    if n > 1 {
        let rest = best_pair(six, four, mid, target, n - 1);
        if best_pair(six, four, mid, target, n) == rest {
            lemma_best_pair_first(six, four, mid, target, n - 1, q);
        } else {
            lemma_best_pair_minimal(six, four, mid, target, n - 1, q);
        }
    }
}

/// The best pair for a target that is itself the palette value of pair `p`
/// is `p`, if no pair before `p` has that value.
pub proof fn lemma_best_pair_of_value(six: bool, four: bool, mid: bool, p: int, n: int)
    requires
        0 <= p < n,
        forall|q: int| 0 <= q < p ==> pair_value(six, four, mid, q) != pair_value(six, four, mid, p),
    ensures
        best_pair(six, four, mid, pair_value(six, four, mid, p), n) == p,
    decreases n,
{
    let target = pair_value(six, four, mid, p);
    if n > 1 {
        if p < n - 1 {
            lemma_best_pair_of_value(six, four, mid, p, n - 1);
        } else {
            lemma_best_pair_in_range(six, four, mid, target, n - 1);
        }
    }
}

/// The palette value that a source gives.
pub open spec fn source_value(six: bool, four: bool, mid: bool, source: Source) -> int {
    palette_value(
        four,
        mid,
        grid_value(six, source.start as int),
        grid_value(six, source.end as int),
    )
}

/// What the best source of a target says: its levels lie on the grid, its
/// palette value is a byte, and its error is how far that value is from the
/// target.
pub proof fn lemma_best_source(six: bool, four: bool, mid: bool, target: u8)
    ensures
        best_source(six, four, mid, target).start < grid_size(six),
        best_source(six, four, mid, target).end < grid_size(six),
        0 <= source_value(six, four, mid, best_source(six, four, mid, target)) <= 255,
        best_source(six, four, mid, target).error == distance(
            target as int,
            source_value(six, four, mid, best_source(six, four, mid, target)),
        ),
{
    reveal(best_source);
    let n = grid_size(six);
    lemma_best_pair_in_range(six, four, mid, target as int, n * n);
    lemma_pair_value_is_byte(six, four, mid, best_pair(six, four, mid, target as int, n * n));
}

/// No pair of grid levels gives a palette value nearer to the target than the
/// best source does.
pub proof fn lemma_best_source_is_nearest(
    six: bool,
    four: bool,
    mid: bool,
    target: u8,
    start: int,
    end: int,
)
    requires
        0 <= start < grid_size(six),
        0 <= end < grid_size(six),
    ensures
        best_source(six, four, mid, target).error <= distance(
            target as int,
            palette_value(four, mid, grid_value(six, start), grid_value(six, end)),
        ),
{
    reveal(best_source);
    let n = grid_size(six);
    let q = start * n + end;
    assert(0 <= q < n * n && q / n == start && q % n == end) by {
        if six {
            assert(q == start * 64 + end);
        } else {
            assert(q == start * 32 + end);
        }
    }
    lemma_best_pair_in_range(six, four, mid, target as int, n * n);
    lemma_best_pair_minimal(six, four, mid, target as int, n * n, q);
    lemma_pair_value_is_byte(six, four, mid, best_pair(six, four, mid, target as int, n * n));
}

/// The palette value of a best source is met exactly by that same source:
/// fitted again, it gives the same levels with no error.
pub proof fn lemma_source_refit(six: bool, four: bool, mid: bool, target: u8)
    ensures
        ({
            let s = best_source(six, four, mid, target);
            let t = source_value(six, four, mid, s);
            best_source(six, four, mid, t as u8) == (Source { start: s.start, end: s.end, error: 0 })
        }),
{
    reveal(best_source);
    let n = grid_size(six);
    let p = best_pair(six, four, mid, target as int, n * n);
    lemma_best_pair_in_range(six, four, mid, target as int, n * n);
    lemma_pair_value_is_byte(six, four, mid, p);
    assert forall|q: int| 0 <= q < p implies pair_value(six, four, mid, q) != pair_value(
        six,
        four,
        mid,
        p,
    ) by {
        lemma_best_pair_first(six, four, mid, target as int, n * n, q);
    }
    lemma_best_pair_of_value(six, four, mid, p, n * n);
}

/// At an endpoint the two palettes do not differ: the best source for the
/// endpoint itself is the same in both.
pub proof fn lemma_endpoint_source_same(six: bool, target: u8)
    ensures
        best_source(six, false, false, target) == best_source(six, true, false, target),
{
    reveal(best_source);
    let n = grid_size(six);
    lemma_endpoint_pair_same(six, target as int, n * n);
}

/// At an endpoint the best pair is the same for both palettes.
pub proof fn lemma_endpoint_pair_same(six: bool, target: int, n: int)
    ensures
        best_pair(six, false, false, target, n) == best_pair(six, true, false, target, n),
    decreases n,
{
    if n > 1 {
        lemma_endpoint_pair_same(six, target, n - 1);
    }
}

/// The colour that the best sources of a colour give, all three taken at the
/// endpoint or all three at the interpolated value.
pub open spec fn fitted_value(four: bool, mid: bool, c: (u8, u8, u8)) -> (u8, u8, u8) {
    (
        source_value(false, four, mid, best_source(false, four, mid, c.0)) as u8,
        source_value(true, four, mid, best_source(true, four, mid, c.1)) as u8,
        source_value(false, four, mid, best_source(false, four, mid, c.2)) as u8,
    )
}

/// The colour that the best fit of a single colour stands for.
pub open spec fn single_value(four: bool, c: (u8, u8, u8)) -> (u8, u8, u8) {
    fitted_value(four, single_mid(four, c), c)
}

/// Whether a block of a single opaque colour is written with the four-point
/// palette: always outside BC1, and in BC1 where it leaves the smaller error.
pub open spec fn single_four(is_bc1: bool, c: (u8, u8, u8)) -> bool {
    !(is_bc1 && single_best_error(false, c) <= single_best_error(true, c))
}

/// The error of a channel is a square: never negative, and zero only where
/// the source meets the target.
pub proof fn lemma_channel_error(six: bool, four: bool, mid: bool, target: u8)
    ensures
        channel_error(six, four, mid, target) >= 0,
        channel_error(six, four, mid, target) == 0 ==> best_source(six, four, mid, target).error
            == 0,
{
    let e = best_source(six, four, mid, target).error as int;
    assert(e * e >= 0 && (e * e == 0 ==> e == 0)) by (nonlinear_arith);
}

/// The colour that a fit stands for is fitted with no error, by the same
/// sources.
pub proof fn lemma_fitted_value_exact(four: bool, mid: bool, c: (u8, u8, u8))
    ensures
        single_error(four, mid, fitted_value(four, mid, c)) == 0,
        best_source(false, four, mid, fitted_value(four, mid, c).0).start == best_source(
            false,
            four,
            mid,
            c.0,
        ).start,
        best_source(false, four, mid, fitted_value(four, mid, c).0).end == best_source(
            false,
            four,
            mid,
            c.0,
        ).end,
        best_source(true, four, mid, fitted_value(four, mid, c).1).start == best_source(
            true,
            four,
            mid,
            c.1,
        ).start,
        best_source(true, four, mid, fitted_value(four, mid, c).1).end == best_source(
            true,
            four,
            mid,
            c.1,
        ).end,
        best_source(false, four, mid, fitted_value(four, mid, c).2).start == best_source(
            false,
            four,
            mid,
            c.2,
        ).start,
        best_source(false, four, mid, fitted_value(four, mid, c).2).end == best_source(
            false,
            four,
            mid,
            c.2,
        ).end,
{
    lemma_source_refit(false, four, mid, c.0);
    lemma_source_refit(true, four, mid, c.1);
    lemma_source_refit(false, four, mid, c.2);
}

/// Where one source meets a value exactly, the best source of any target is
/// no farther from the target than that value is.
proof fn lemma_channel_dominated(
    six: bool,
    four1: bool,
    mid1: bool,
    four2: bool,
    mid2: bool,
    target: u8,
)
    requires
        channel_error(
            six,
            four2,
            mid2,
            source_value(six, four1, mid1, best_source(six, four1, mid1, target)) as u8,
        ) == 0,
    ensures
        channel_error(six, four2, mid2, target) <= channel_error(six, four1, mid1, target),
{
    let s1 = best_source(six, four1, mid1, target);
    let t = source_value(six, four1, mid1, s1);
    lemma_best_source(six, four1, mid1, target);
    let s2 = best_source(six, four2, mid2, t as u8);
    lemma_channel_error(six, four2, mid2, t as u8);
    lemma_best_source(six, four2, mid2, t as u8);
    assert(source_value(six, four2, mid2, s2) == t);
    lemma_best_source_is_nearest(six, four2, mid2, target, s2.start as int, s2.end as int);
    let e2 = best_source(six, four2, mid2, target).error as int;
    let e1 = s1.error as int;
    assert(e2 <= e1);
    assert(e2 * e2 <= e1 * e1) by (nonlinear_arith)
        requires
            0 <= e2 <= e1,
    ;
}

/// Where one way of fitting meets the colour of another fit exactly, it fits
/// the colour itself at least as well as that other fit does.
pub proof fn lemma_error_dominated(
    four1: bool,
    mid1: bool,
    four2: bool,
    mid2: bool,
    c: (u8, u8, u8),
)
    requires
        single_error(four2, mid2, fitted_value(four1, mid1, c)) == 0,
    ensures
        single_error(four2, mid2, c) <= single_error(four1, mid1, c),
{
    let v = fitted_value(four1, mid1, c);
    lemma_channel_error(false, four2, mid2, v.0);
    lemma_channel_error(true, four2, mid2, v.1);
    lemma_channel_error(false, four2, mid2, v.2);
    lemma_channel_dominated(false, four1, mid1, four2, mid2, c.0);
    lemma_channel_dominated(true, four1, mid1, four2, mid2, c.1);
    lemma_channel_dominated(false, four1, mid1, four2, mid2, c.2);
}

/// The error of fitting a colour is never negative, and at the endpoint it is
/// the same for both palettes.
pub proof fn lemma_single_error(four: bool, mid: bool, c: (u8, u8, u8))
    ensures
        single_error(four, mid, c) >= 0,
        single_error(false, false, c) == single_error(true, false, c),
        single_best_error(four, c) <= single_error(four, mid, c),
        single_best_error(four, c) >= 0,
{
    lemma_channel_error(false, four, mid, c.0);
    lemma_channel_error(true, four, mid, c.1);
    lemma_channel_error(false, four, mid, c.2);
    lemma_channel_error(false, four, !mid, c.0);
    lemma_channel_error(true, four, !mid, c.1);
    lemma_channel_error(false, four, !mid, c.2);
    lemma_endpoint_source_same(false, c.0);
    lemma_endpoint_source_same(true, c.1);
    lemma_endpoint_source_same(false, c.2);
}

/// Re-fitting a single colour: the colour that the best fit of a colour
/// stands for is fitted best with the same palette, the same endpoints and
/// the same index, and with no error.
pub proof fn lemma_single_refit(is_bc1: bool, c: (u8, u8, u8))
    ensures
        ({
            let four = single_four(is_bc1, c);
            let v = single_value(four, c);
            &&& single_four(is_bc1, v) == four
            &&& single_mid(four, v) == single_mid(four, c)
            &&& single_start(four, v) == single_start(four, c)
            &&& single_end(four, v) == single_end(four, c)
            &&& single_index(four, v) == single_index(four, c)
            &&& single_best_error(four, v) == 0
        }),
{
    let four = single_four(is_bc1, c);
    let mid = single_mid(four, c);
    let v = single_value(four, c);
    lemma_fitted_value_exact(four, mid, c);
    lemma_single_error(four, true, c);
    lemma_single_error(four, false, c);
    lemma_single_error(four, true, v);
    lemma_single_error(four, false, v);
    // the index stays
    if mid {
        if single_error(four, false, v) == 0 {
            lemma_error_dominated(four, true, four, false, c);
        }
    }
    assert(single_mid(four, v) == mid);
    assert(single_best_error(four, v) == 0);
    // the palette stays
    lemma_single_error(!four, true, v);
    lemma_single_error(!four, false, v);
    lemma_single_error(!four, true, c);
    lemma_single_error(!four, false, c);
    if is_bc1 && four {
        let other = single_mid(false, v);
        if single_error(false, other, v) == 0 {
            lemma_error_dominated(true, mid, false, other, c);
            lemma_single_error(false, other, c);
        }
    }
    assert(single_four(is_bc1, v) == four);
}

/// The texel that a palette value of each channel makes, opaque.
pub open spec fn palette_texel(
    four: bool,
    mid: bool,
    start: Colour565,
    end: Colour565,
) -> Seq<u8> {
    seq![
        palette_value(four, mid, grid_value(false, start.r as int), grid_value(false, end.r as int)) as u8,
        palette_value(four, mid, grid_value(true, start.g as int), grid_value(true, end.g as int)) as u8,
        palette_value(four, mid, grid_value(false, start.b as int), grid_value(false, end.b as int)) as u8,
        255u8,
    ]
}

/// The texel that a grid colour unpacks to holds the grid values of its
/// levels, and two grid colours with one word are one colour.
pub proof fn lemma_unpacked(c: Colour565, d: Colour565)
    requires
        c.wf(),
        d.wf(),
    ensures
        unpacked_565(packed_565(c)) == palette_texel(false, false, c, c),
        unpacked_565(packed_565(c)) == palette_texel(true, false, c, d),
        unpacked_565(packed_565(c)) == palette_texel(false, false, c, d),
        packed_565(c) == packed_565(d) ==> c == d,
{
    lemma_pack_unpack(c);
    lemma_pack_unpack(d);
    lemma_expand(c.r);
    lemma_expand(c.g);
    lemma_expand(c.b);
    assert(unpacked_565(packed_565(c)) =~= palette_texel(false, false, c, c));
    assert(palette_texel(true, false, c, d) =~= palette_texel(false, false, c, c));
    assert(palette_texel(false, false, c, d) =~= palette_texel(false, false, c, c));
}

/// What a written colour block holds for a texel: the entry, of the palette
/// that the order of the two words selects, at the index that was written.
pub proof fn lemma_written_texel(a: u16, b: u16, indices: Seq<u8>, is_bc1: bool, i: int)
    requires
        0 <= i < 16,
    ensures
        colour_texel(colour_block_bytes(a, b, indices), is_bc1, i) == palette_entry(
            colour_block_bytes(a, b, indices),
            is_bc1,
            (indices[i] & 0x03) as int,
        ),
        endpoint_word(colour_block_bytes(a, b, indices), 0) == a,
        endpoint_word(colour_block_bytes(a, b, indices), 1) == b,
        three_point(colour_block_bytes(a, b, indices), is_bc1) == (is_bc1 && a <= b),
{
    lemma_endpoint_words(a, b, indices);
    lemma_index_round_trip(a, b, indices, i);
}

/// The entries of the palette of a block, given the grid colours that its
/// words stand for.
pub proof fn lemma_palette_entries(bytes: Seq<u8>, is_bc1: bool, first: Colour565, second: Colour565)
    requires
        first.wf(),
        second.wf(),
        endpoint_word(bytes, 0) == packed_565(first),
        endpoint_word(bytes, 1) == packed_565(second),
    ensures
        palette_entry(bytes, is_bc1, 0) == palette_texel(false, false, first, second),
        palette_entry(bytes, is_bc1, 1) == palette_texel(false, false, second, first),
        three_point(bytes, is_bc1) ==> palette_entry(bytes, is_bc1, 2) == palette_texel(
            false,
            true,
            first,
            second,
        ),
        three_point(bytes, is_bc1) ==> palette_entry(bytes, is_bc1, 2) == palette_texel(
            false,
            true,
            second,
            first,
        ),
        !three_point(bytes, is_bc1) ==> palette_entry(bytes, is_bc1, 2) == palette_texel(
            true,
            true,
            first,
            second,
        ),
        !three_point(bytes, is_bc1) ==> palette_entry(bytes, is_bc1, 3) == palette_texel(
            true,
            true,
            second,
            first,
        ),
{
    lemma_unpacked(first, second);
    lemma_unpacked(second, first);
    let a = unpacked_565(packed_565(first));
    let b = unpacked_565(packed_565(second));
    assert(a == palette_texel(false, false, first, second));
    assert(b == palette_texel(false, false, second, first));
    if three_point(bytes, is_bc1) {
        assert(palette_entry(bytes, is_bc1, 2) =~= palette_texel(false, true, first, second));
        assert(palette_texel(false, true, first, second) =~= palette_texel(
            false,
            true,
            second,
            first,
        ));
    } else {
        assert(palette_entry(bytes, is_bc1, 2) =~= palette_texel(true, true, first, second));
        assert(palette_entry(bytes, is_bc1, 3) =~= palette_texel(true, true, second, first));
    }
}

/// What a block written for the three-point palette decodes to in BC1, at a
/// texel that was given index 0 or 2.
pub proof fn lemma_three_block_decodes(
    start: Colour565,
    end: Colour565,
    indices: Seq<u8>,
    mid: bool,
    i: int,
)
    requires
        start.wf(),
        end.wf(),
        0 <= i < 16,
        indices[i] == if mid { 2u8 } else { 0u8 },
    ensures
        colour_texel(three_block_bytes(start, end, indices), true, i) == palette_texel(
            false,
            mid,
            start,
            end,
        ),
{
    let a = packed_565(start);
    let b = packed_565(end);
    assert(0u8 & 0x03 == 0u8 && 2u8 & 0x03 == 2u8 && 1u8 & 0x03 == 1u8) by (bit_vector);
    if a > b {
        let swapped = Seq::new(16, |j: int| swapped_index3(indices[j]));
        lemma_written_texel(b, a, swapped, true, i);
        lemma_palette_entries(colour_block_bytes(b, a, swapped), true, end, start);
    } else {
        lemma_written_texel(a, b, indices, true, i);
        lemma_palette_entries(colour_block_bytes(a, b, indices), true, start, end);
    }
}

/// What a block written for the four-point palette decodes to, at a texel
/// that was given index 0 or 2.
pub proof fn lemma_four_block_decodes(
    start: Colour565,
    end: Colour565,
    indices: Seq<u8>,
    mid: bool,
    is_bc1: bool,
    i: int,
)
    requires
        start.wf(),
        end.wf(),
        0 <= i < 16,
        indices[i] == if mid { 2u8 } else { 0u8 },
    ensures
        colour_texel(four_block_bytes(start, end, indices), is_bc1, i) == palette_texel(
            true,
            mid,
            start,
            end,
        ),
{
    let a = packed_565(start);
    let b = packed_565(end);
    assert(0u8 & 0x03 == 0u8 && ((0u8 ^ 0x01) & 0x03) & 0x03 == 1u8 && ((2u8 ^ 0x01) & 0x03)
        & 0x03 == 3u8 && 2u8 & 0x03 == 2u8) by (bit_vector);
    if a < b {
        let swapped = Seq::new(16, |j: int| swapped_index4(indices[j]));
        lemma_written_texel(b, a, swapped, is_bc1, i);
        lemma_palette_entries(colour_block_bytes(b, a, swapped), is_bc1, end, start);
        assert(palette_texel(true, false, start, end) =~= palette_texel(false, false, start, end));
    } else if a > b {
        lemma_written_texel(a, b, indices, is_bc1, i);
        lemma_palette_entries(colour_block_bytes(a, b, indices), is_bc1, start, end);
        assert(palette_texel(true, false, start, end) =~= palette_texel(false, false, start, end));
    } else {
        let zeros = Seq::new(16, |j: int| 0u8);
        lemma_written_texel(a, b, zeros, is_bc1, i);
        lemma_palette_entries(colour_block_bytes(a, b, zeros), is_bc1, start, end);
        lemma_unpacked(start, end);
        assert(start == end);
        assert(palette_texel(true, mid, start, end) =~= palette_texel(false, false, start, end));
    }
}

/// What the block of a single colour decodes to: every texel of that colour
/// shows the colour that the fit stands for, opaque.
pub proof fn lemma_single_block_decodes(set: ColourSetView, is_bc1: bool, four: bool, i: int)
    requires
        0 <= i < 16,
        set.remap[i] == 0,
        four || is_bc1,
    ensures
        colour_texel(single_block(set, four), is_bc1, i) == seq![
            single_value(four, set.points[0]).0,
            single_value(four, set.points[0]).1,
            single_value(four, set.points[0]).2,
            255u8,
        ],
{
    let c = set.points[0];
    let mid = single_mid(four, c);
    let start = single_start(four, c);
    let end = single_end(four, c);
    let index = single_index(four, c);
    let v = single_value(four, c);
    let given = remapped(set.remap, Seq::new(16, |j: int| index));
    assert(given[i] == index);
    lemma_best_source(false, four, mid, c.0);
    lemma_best_source(true, four, mid, c.1);
    lemma_best_source(false, four, mid, c.2);
    if four {
        lemma_four_block_decodes(start, end, given, mid, is_bc1, i);
    } else {
        lemma_three_block_decodes(start, end, given, mid, i);
    }
    assert(palette_texel(four, mid, start, end) =~= seq![v.0, v.1, v.2, 255u8]);
}

/// Whether one of the first `n` texels is enabled.
pub open spec fn enabled_before(mask: u32, n: int) -> bool {
    exists|i: int| 0 <= i < n && texel_enabled(mask, i)
}

/// Whether every enabled texel of a block has the colour `c` and, for BC1,
/// is not transparent.
pub open spec fn one_colour(rgba: [[u8; 4]; 16], mask: u32, is_bc1: bool, c: (u8, u8, u8)) -> bool {
    forall|i: int|
        0 <= i < 16 && #[trigger] texel_enabled(mask, i) ==> {
            &&& rgba[i][0] == c.0
            &&& rgba[i][1] == c.1
            &&& rgba[i][2] == c.2
            &&& is_bc1 ==> rgba[i][3] >= 128
        }
}

/// The point set of a block of one colour: that colour is its only point,
/// once a texel is enabled, and every enabled texel is mapped to it.
pub proof fn lemma_uniform_set(
    rgba: [[u8; 4]; 16],
    mask: u32,
    is_bc1: bool,
    alpha_weighted: bool,
    c: (u8, u8, u8),
    n: int,
)
    requires
        one_colour(rgba, mask, is_bc1, c),
        0 <= n <= 16,
    ensures
        colour_set(rgba, mask, is_bc1, alpha_weighted, n).points == if enabled_before(mask, n) {
            seq![c]
        } else {
            Seq::<(u8, u8, u8)>::empty()
        },
        colour_set(rgba, mask, is_bc1, alpha_weighted, n).remap == Seq::new(
            n as nat,
            |i: int|
                if texel_enabled(mask, i) {
                    0int
                } else {
                    -1int
                },
        ),
        !colour_set(rgba, mask, is_bc1, alpha_weighted, n).transparent,
    decreases n,
{
    let set = colour_set(rgba, mask, is_bc1, alpha_weighted, n);
    let want = Seq::new(
        n as nat,
        |i: int|
            if texel_enabled(mask, i) {
                0int
            } else {
                -1int
            },
    );
    if n == 0 {
        assert(set.remap =~= want);
        assert(set.points =~= Seq::<(u8, u8, u8)>::empty());
    } else {
        lemma_uniform_set(rgba, mask, is_bc1, alpha_weighted, c, n - 1);
        let before = colour_set(rgba, mask, is_bc1, alpha_weighted, n - 1);
        if texel_enabled(mask, n - 1) {
            assert(enabled_before(mask, n));
            if enabled_before(mask, n - 1) {
                assert(before.points =~= seq![c]);
                assert(position(before.points, c, 0) == -1);
                assert(position(before.points, c, 1) == 0);
            } else {
                assert(before.points.len() == 0);
                assert(position(before.points, c, 0) == -1);
            }
            assert(set.points =~= seq![c]);
        } else {
            if enabled_before(mask, n) {
                let w = choose|i: int| 0 <= i < n && texel_enabled(mask, i);
                assert(0 <= w < n - 1 && texel_enabled(mask, w));
                assert(enabled_before(mask, n - 1));
            } else {
                assert(!enabled_before(mask, n - 1)) by {
                    if enabled_before(mask, n - 1) {
                        let w = choose|i: int| 0 <= i < n - 1 && texel_enabled(mask, i);
                        assert(0 <= w < n && texel_enabled(mask, w));
                    }
                }
            }
            assert(set.points == before.points);
        }
        assert(set.remap =~= want);
    }
}

/// Whether texel `i` of a block has the red, green and blue that a colour
/// block decodes to there, and for BC1 is not transparent.
pub open spec fn shows_colour(b: [[u8; 4]; 16], bytes: Seq<u8>, is_bc1: bool, i: int) -> bool {
    let texel = colour_texel(bytes, is_bc1, i);
    &&& b[i][0] == texel[0]
    &&& b[i][1] == texel[1]
    &&& b[i][2] == texel[2]
    &&& is_bc1 ==> b[i][3] >= 128
}

/// Re-encoding the colour block of a block of one colour: where a second
/// block shows, at every enabled texel, the colour that the colour block of
/// the first decodes to, it has the same colour block.
pub proof fn lemma_uniform_colour_reencode(
    a: [[u8; 4]; 16],
    b: [[u8; 4]; 16],
    mask: u32,
    is_bc1: bool,
    alpha_weighted: bool,
    c: (u8, u8, u8),
)
    requires
        one_colour(a, mask, is_bc1, c),
        enabled_before(mask, 16),
        forall|i: int|
            0 <= i < 16 && texel_enabled(mask, i) ==> #[trigger] shows_colour(
                b,
                single_colour_block(colour_set(a, mask, is_bc1, alpha_weighted, 16), is_bc1),
                is_bc1,
                i,
            ),
    ensures
        colour_set(a, mask, is_bc1, alpha_weighted, 16).points.len() == 1,
        colour_set(b, mask, is_bc1, alpha_weighted, 16).points.len() == 1,
        single_colour_block(colour_set(b, mask, is_bc1, alpha_weighted, 16), is_bc1)
            == single_colour_block(colour_set(a, mask, is_bc1, alpha_weighted, 16), is_bc1),
{
    let first = colour_set(a, mask, is_bc1, alpha_weighted, 16);
    let second = colour_set(b, mask, is_bc1, alpha_weighted, 16);
    lemma_uniform_set(a, mask, is_bc1, alpha_weighted, c, 16);
    assert(first.points[0] == c);
    let four = single_four(is_bc1, c);
    assert(four == !single_three(first, is_bc1));
    let v = single_value(four, c);
    assert forall|i: int| 0 <= i < 16 && #[trigger] texel_enabled(mask, i) implies b[i][0] == v.0
        && b[i][1] == v.1 && b[i][2] == v.2 && (is_bc1 ==> b[i][3] >= 128) by {
        assert(first.remap[i] == 0);
        lemma_single_block_decodes(first, is_bc1, four, i);
        assert(shows_colour(b, single_colour_block(first, is_bc1), is_bc1, i));
    }
    assert(one_colour(b, mask, is_bc1, v));
    lemma_uniform_set(b, mask, is_bc1, alpha_weighted, v, 16);
    assert(second.points[0] == v);
    lemma_single_refit(is_bc1, c);
    assert(second.remap == first.remap);
}

/// Re-encoding explicit alpha: where a second block has, at every enabled
/// texel, the alpha that the explicit alpha block of the first decodes to, it
/// has the same explicit alpha block.
pub proof fn lemma_bc2_alpha_reencode(a: [[u8; 4]; 16], b: [[u8; 4]; 16], mask: u32)
    requires
        forall|i: int|
            0 <= i < 16 && #[trigger] texel_enabled(mask, i) ==> b[i][3] == bc2_alpha(
                bc2_alpha_block(a, mask),
                i,
            ),
    ensures
        bc2_alpha_block(b, mask) == bc2_alpha_block(a, mask),
{
    assert forall|k: int| 0 <= k < 8 implies bc2_byte(b, mask, k) == bc2_byte(a, mask, k) by {
        let lo: u8 = bc2_nibble(a, mask, 2 * k);
        let hi: u8 = bc2_nibble(a, mask, 2 * k + 1);
        let byte: u8 = bc2_byte(a, mask, k);
        assert(byte == bc2_alpha_block(a, mask)[k]);
        assert(lo <= 15 && hi <= 15);
        assert(byte & 0x0F == lo && byte >> 4 == hi && (lo | (lo << 4)) == 17 * lo && (hi | (hi
            << 4)) == 17 * hi) by (bit_vector)
            requires
                lo <= 15,
                hi <= 15,
                byte == lo | (hi << 4),
        ;
        if texel_enabled(mask, 2 * k) {
            assert(b[2 * k][3] == bc2_alpha(bc2_alpha_block(a, mask), 2 * k));
            assert(b[2 * k][3] == 17 * lo);
            assert(quantise_4bit(b[2 * k][3]) == lo);
        }
        if texel_enabled(mask, 2 * k + 1) {
            assert(b[2 * k + 1][3] == bc2_alpha(bc2_alpha_block(a, mask), 2 * k + 1));
            assert(b[2 * k + 1][3] == 17 * hi);
            assert(quantise_4bit(b[2 * k + 1][3]) == hi);
        }
    }
    assert(bc2_alpha_block(b, mask) =~= bc2_alpha_block(a, mask));
}

/// The colour block of a block with a single point is that of its exact
/// fit, whatever the endpoint search does.
pub proof fn lemma_colour_encoded_single<F: Fn(&ColourSet, Algorithm, Palettes) -> Fit>(
    fitter: &F,
    format: Format,
    rgba: [[u8; 4]; 16],
    mask: u32,
    params: Params,
    bytes: Seq<u8>,
)
    requires
        colour_encoded(fitter, format, rgba, mask, params, bytes),
        colour_set(rgba, mask, format == Format::Bc1, params.weigh_colour_by_alpha, 16).points.len()
            == 1,
    ensures
        bytes == single_colour_block(
            colour_set(rgba, mask, format == Format::Bc1, params.weigh_colour_by_alpha, 16),
            format == Format::Bc1,
        ),
{
    reveal(colour_encoded);
}

/// Whether every enabled texel of a block has the value `x` in a channel.
pub open spec fn one_value(rgba: [[u8; 4]; 16], channel: int, mask: u32, x: u8) -> bool {
    &&& 0 <= channel < 4
    &&& forall|i: int| 0 <= i < 16 && #[trigger] texel_enabled(mask, i) ==> rgba[i][channel] == x
}

/// The range of a channel that has one value at every enabled texel.
pub proof fn lemma_uniform_range(
    rgba: [[u8; 4]; 16],
    channel: int,
    mask: u32,
    skip: bool,
    x: u8,
    n: int,
)
    requires
        one_value(rgba, channel, mask, x),
        0 <= n <= 16,
    ensures
        channel_min(rgba, channel, mask, skip, n) == if enabled_before(mask, n) && !(skip && x
            == 0) {
            x
        } else {
            255u8
        },
        channel_max(rgba, channel, mask, skip, n) == if enabled_before(mask, n) && !(skip && x
            == 255) {
            x
        } else {
            0u8
        },
    decreases n,
{
    if n > 0 {
        lemma_uniform_range(rgba, channel, mask, skip, x, n - 1);
        if texel_enabled(mask, n - 1) {
            assert(enabled_before(mask, n));
        } else if enabled_before(mask, n) {
            let w = choose|i: int| 0 <= i < n && texel_enabled(mask, i);
            assert(0 <= w < n - 1 && texel_enabled(mask, w));
            assert(enabled_before(mask, n - 1));
        } else {
            assert(!enabled_before(mask, n - 1)) by {
                if enabled_before(mask, n - 1) {
                    let w = choose|i: int| 0 <= i < n - 1 && texel_enabled(mask, i);
                    assert(0 <= w < n && texel_enabled(mask, w));
                }
            }
        }
    }
}

/// The six-point palette that the encoder tries for a channel of one value
/// holds that value.
pub proof fn lemma_uniform_palette(rgba: [[u8; 4]; 16], channel: int, mask: u32, x: u8)
    requires
        one_value(rgba, channel, mask, x),
        enabled_before(mask, 16),
    ensures
        ({
            let (lo, hi) = alpha_range(rgba, channel, mask, true);
            let codes = palette5(lo, hi);
            &&& lo <= hi
            &&& codes[nearest_code(codes, x, 8)] == x
            &&& 0 <= nearest_code(codes, x, 8) < 8
        }),
{
    lemma_uniform_range(rgba, channel, mask, true, x, 16);
    assert(channel_min(rgba, channel, mask, true, 16) == if x == 0 { 255u8 } else { x });
    assert(channel_max(rgba, channel, mask, true, 16) == if x == 255 { 0u8 } else { x });
    let (lo, hi) = alpha_range(rgba, channel, mask, true);
    assert((lo, hi) == if x == 0 || x == 255 {
        (0u8, 5u8)
    } else if x <= 250 {
        (x, (x + 5) as u8)
    } else {
        (250u8, 255u8)
    });
    let codes = palette5(lo, hi);
    let witness: int = if x == 255 {
        7
    } else if x == 0 || x <= 250 {
        0
    } else {
        x - 249
    };
    if x == 255 {
        assert(codes[7] == 255);
    } else if x == 0 || x <= 250 {
        assert(codes[0] == x);
    } else {
        assert(lo == 250 && hi == 255);
        assert(((5 - 1) * 250 + 1 * 255) / 5 == 251 && ((5 - 2) * 250 + 2 * 255) / 5 == 252 && ((5
            - 3) * 250 + 3 * 255) / 5 == 253 && ((5 - 4) * 250 + 4 * 255) / 5 == 254)
            by (nonlinear_arith);
        assert(interpolate(250, 255, 1, 5) == 251);
        assert(interpolate(250, 255, 2, 5) == 252);
        assert(interpolate(250, 255, 3, 5) == 253);
        assert(interpolate(250, 255, 4, 5) == 254);
        assert(codes[2] == 251 && codes[3] == 252 && codes[4] == 253 && codes[5] == 254);
    }
    assert(codes[witness] == x);
    lemma_nearest_code_in_range(codes, x, 8);
    lemma_nearest_code_is_nearest(codes, x, 8, witness);
    let found = codes[nearest_code(codes, x, 8)];
    assert(sq_dist(x, x) == 0);
    assert(found == x) by (nonlinear_arith)
        requires
            (x - found) * (x - found) <= 0,
    ;
}

/// The six-point palette leaves no error on a channel of one value.
pub proof fn lemma_uniform_error(rgba: [[u8; 4]; 16], channel: int, mask: u32, x: u8, n: int)
    requires
        one_value(rgba, channel, mask, x),
        0 <= n <= 16,
    ensures
        fitted_error(
            rgba,
            channel,
            mask,
            palette5(
                alpha_range(rgba, channel, mask, true).0,
                alpha_range(rgba, channel, mask, true).1,
            ),
            n,
        ) == 0,
    decreases n,
{
    if n > 0 {
        lemma_uniform_error(rgba, channel, mask, x, n - 1);
        if texel_enabled(mask, n - 1) {
            assert(enabled_before(mask, 16));
            lemma_uniform_palette(rgba, channel, mask, x);
            assert(rgba[n - 1][channel] == x);
            assert(sq_dist(x, x) == 0);
        }
    }
}

/// An interpolated alpha block of a channel of one value decodes to that
/// value at every enabled texel.
pub proof fn lemma_uniform_alpha_decodes(
    rgba: [[u8; 4]; 16],
    channel: int,
    mask: u32,
    x: u8,
    i: int,
)
    requires
        one_value(rgba, channel, mask, x),
        0 <= i < 16,
        texel_enabled(mask, i),
    ensures
        bc3_alpha(bc3_alpha_block(rgba, channel, mask), i) == x,
{
    reveal(bc3_alpha_block);
    assert(enabled_before(mask, 16));
    let (lo, hi) = alpha_range(rgba, channel, mask, true);
    let (min7, max7) = alpha_range(rgba, channel, mask, false);
    let codes = palette5(lo, hi);
    lemma_uniform_palette(rgba, channel, mask, x);
    lemma_uniform_error(rgba, channel, mask, x, 16);
    lemma_error_nonnegative(rgba, channel, mask, palette7(min7, max7), 16);
    assert(prefers_palette5(rgba, channel, mask));
    let indices = fitted_indices(rgba, channel, mask, codes);
    let bytes = alpha_block_bytes(lo, hi, indices);
    assert(bc3_alpha_block(rgba, channel, mask) == bytes);
    assert forall|j: int| 0 <= j < 16 implies indices[j] < 8 by {
        if texel_enabled(mask, j) {
            assert(rgba[j][channel] == x);
        }
    }
    lemma_alpha_index_round_trip(lo, hi, indices, i);
    assert(rgba[i][channel] == x);
    assert(indices[i] == nearest_code(codes, x, 8));
    assert(bytes[0] == lo && bytes[1] == hi);
    assert(alpha_palette(lo, hi) == codes);
}

/// Re-encoding interpolated alpha: where a channel has one value at every
/// enabled texel and a second block has there what the interpolated alpha
/// block of the first decodes to, it has the same interpolated alpha block.
pub proof fn lemma_bc3_alpha_reencode(
    a: [[u8; 4]; 16],
    b: [[u8; 4]; 16],
    channel: int,
    mask: u32,
    x: u8,
)
    requires
        one_value(a, channel, mask, x),
        forall|i: int|
            0 <= i < 16 && #[trigger] texel_enabled(mask, i) ==> b[i][channel] == bc3_alpha(
                bc3_alpha_block(a, channel, mask),
                i,
            ),
    ensures
        bc3_alpha_block(b, channel, mask) == bc3_alpha_block(a, channel, mask),
{
    assert forall|i: int| 0 <= i < 16 && texel_enabled(mask, i) implies a[i][channel]
        == b[i][channel] by {
        lemma_uniform_alpha_decodes(a, channel, mask, x, i);
    }
    lemma_bc3_by_channel(a, b, channel, mask);
}

/// Whether a block is uniform in what a format encodes of it, as far as the
/// mask enables its texels: one colour for the formats with a colour block,
/// on at least one enabled texel and opaque in BC1; one alpha in BC3; one
/// value in each channel that BC4 and BC5 encode.
pub open spec fn uniform_block(format: Format, rgba: [[u8; 4]; 16], mask: u32) -> bool {
    match format {
        Format::Bc1 => enabled_before(mask, 16) && exists|c: (u8, u8, u8)|
            one_colour(rgba, mask, true, c),
        Format::Bc2 => enabled_before(mask, 16) && exists|c: (u8, u8, u8)|
            one_colour(rgba, mask, false, c),
        Format::Bc3 => enabled_before(mask, 16) && (exists|c: (u8, u8, u8)|
            one_colour(rgba, mask, false, c)) && exists|x: u8| one_value(rgba, 3, mask, x),
        Format::Bc4 => exists|x: u8| one_value(rgba, 0, mask, x),
        Format::Bc5 => (exists|x: u8| one_value(rgba, 0, mask, x)) && exists|y: u8|
            one_value(rgba, 1, mask, y),
    }
}

/// The colour part of idempotence under re-encode, for the formats with a
/// colour block.
proof fn lemma_colour_part_reencode<F: Fn(&ColourSet, Algorithm, Palettes) -> Fit>(
    fitter: &F,
    format: Format,
    a: [[u8; 4]; 16],
    b: [[u8; 4]; 16],
    mask: u32,
    params: Params,
    first: Seq<u8>,
    second: Seq<u8>,
    c: (u8, u8, u8),
    is_bc1: bool,
)
    requires
        is_bc1 == (format == Format::Bc1),
        one_colour(a, mask, is_bc1, c),
        enabled_before(mask, 16),
        colour_encoded(fitter, format, a, mask, params, first),
        colour_encoded(fitter, format, b, mask, params, second),
        forall|i: int|
            0 <= i < 16 && texel_enabled(mask, i) ==> #[trigger] shows_colour(b, first, is_bc1, i),
    ensures
        second == first,
{
    let aw = params.weigh_colour_by_alpha;
    lemma_uniform_set(a, mask, is_bc1, aw, c, 16);
    lemma_colour_encoded_single(fitter, format, a, mask, params, first);
    lemma_uniform_colour_reencode(a, b, mask, is_bc1, aw, c);
    lemma_colour_encoded_single(fitter, format, b, mask, params, second);
}

/// What a decoded block shows of the colour block it came from.
proof fn lemma_decoded_shows_colour(format: Format, b: [[u8; 4]; 16], first: Seq<u8>, i: int)
    requires
        format == Format::Bc1 || format == Format::Bc2 || format == Format::Bc3,
        first.len() == if format == Format::Bc1 { 8int } else { 16int },
        0 <= i < 16,
        b[i]@ == decoded_texel(format, first, i),
        format == Format::Bc1 ==> colour_texel(first, true, i)[3] == 255,
    ensures
        shows_colour(b, first.subrange(first.len() - 8, first.len() as int), format == Format::Bc1, i),
        format == Format::Bc2 ==> b[i][3] == bc2_alpha(first.subrange(0, 8), i),
        format == Format::Bc3 ==> b[i][3] == bc3_alpha(first.subrange(0, 8), i),
{
    assert(b[i][0] == b[i]@[0] && b[i][1] == b[i]@[1] && b[i][2] == b[i]@[2] && b[i][3] == b[i]@[3]);
    if format == Format::Bc1 {
        assert(first.subrange(0, 8) =~= first);
    }
}

/// What a decoded block shows where the block it came from ends with the
/// colour block of a single colour.
proof fn lemma_decoded_colour(
    format: Format,
    a: [[u8; 4]; 16],
    b: [[u8; 4]; 16],
    mask: u32,
    alpha_weighted: bool,
    c: (u8, u8, u8),
    is_bc1: bool,
    first: Seq<u8>,
)
    requires
        format == Format::Bc1 || format == Format::Bc2 || format == Format::Bc3,
        is_bc1 == (format == Format::Bc1),
        one_colour(a, mask, is_bc1, c),
        enabled_before(mask, 16),
        first.len() == if is_bc1 { 8int } else { 16int },
        first.subrange(first.len() - 8, first.len() as int) == single_colour_block(
            colour_set(a, mask, is_bc1, alpha_weighted, 16),
            is_bc1,
        ),
        forall|i: int| 0 <= i < 16 ==> b[i]@ == #[trigger] decoded_texel(format, first, i),
    ensures
        forall|i: int|
            0 <= i < 16 && texel_enabled(mask, i) ==> #[trigger] shows_colour(
                b,
                first.subrange(first.len() - 8, first.len() as int),
                is_bc1,
                i,
            ),
{
    let colour = first.subrange(first.len() - 8, first.len() as int);
    lemma_uniform_set(a, mask, is_bc1, alpha_weighted, c, 16);
    let set = colour_set(a, mask, is_bc1, alpha_weighted, 16);
    let four = single_four(is_bc1, c);
    assert(four == !single_three(set, is_bc1));
    assert forall|i: int| 0 <= i < 16 && texel_enabled(mask, i) implies #[trigger] shows_colour(
        b,
        colour,
        is_bc1,
        i,
    ) by {
        assert(set.remap[i] == 0);
        lemma_single_block_decodes(set, is_bc1, four, i);
        assert(b[i]@ == decoded_texel(format, first, i));
        lemma_decoded_shows_colour(format, b, first, i);
    }
}

/// Idempotence under re-encode for the formats with a colour block.
proof fn lemma_colour_formats_reencode<F: Fn(&ColourSet, Algorithm, Palettes) -> Fit>(
    fitter: &F,
    format: Format,
    a: [[u8; 4]; 16],
    b: [[u8; 4]; 16],
    mask: u32,
    params: Params,
    first: Seq<u8>,
    second: Seq<u8>,
    c: (u8, u8, u8),
    is_bc1: bool,
)
    requires
        format == Format::Bc1 || format == Format::Bc2 || format == Format::Bc3,
        is_bc1 == (format == Format::Bc1),
        one_colour(a, mask, is_bc1, c),
        enabled_before(mask, 16),
        first.len() == if is_bc1 { 8int } else { 16int },
        second.len() == first.len(),
        colour_encoded(
            fitter,
            format,
            a,
            mask,
            params,
            first.subrange(first.len() - 8, first.len() as int),
        ),
        colour_encoded(
            fitter,
            format,
            b,
            mask,
            params,
            second.subrange(second.len() - 8, second.len() as int),
        ),
        forall|i: int| 0 <= i < 16 ==> b[i]@ == #[trigger] decoded_texel(format, first, i),
    ensures
        second.subrange(second.len() - 8, second.len() as int) == first.subrange(
            first.len() - 8,
            first.len() as int,
        ),
{
    let aw = params.weigh_colour_by_alpha;
    let colour = first.subrange(first.len() - 8, first.len() as int);
    let again = second.subrange(second.len() - 8, second.len() as int);
    lemma_uniform_set(a, mask, is_bc1, aw, c, 16);
    lemma_colour_encoded_single(fitter, format, a, mask, params, colour);
    lemma_decoded_colour(format, a, b, mask, aw, c, is_bc1, first);
    lemma_colour_part_reencode(fitter, format, a, b, mask, params, colour, again, c, is_bc1);
}

/// Idempotence under re-encode for the alpha blocks of BC2 and BC3.
proof fn lemma_alpha_part_reencode(
    format: Format,
    a: [[u8; 4]; 16],
    b: [[u8; 4]; 16],
    mask: u32,
    first: Seq<u8>,
)
    requires
        format == Format::Bc2 || format == Format::Bc3,
        uniform_block(format, a, mask),
        first.len() == 16,
        format == Format::Bc2 ==> first.subrange(0, 8) == bc2_alpha_block(a, mask),
        format == Format::Bc3 ==> first.subrange(0, 8) == bc3_alpha_block(a, 3, mask),
        forall|i: int| 0 <= i < 16 ==> b[i]@ == #[trigger] decoded_texel(format, first, i),
    ensures
        format == Format::Bc2 ==> bc2_alpha_block(b, mask) == bc2_alpha_block(a, mask),
        format == Format::Bc3 ==> bc3_alpha_block(b, 3, mask) == bc3_alpha_block(a, 3, mask),
{
    if format == Format::Bc2 {
        assert forall|i: int| 0 <= i < 16 && #[trigger] texel_enabled(mask, i) implies b[i][3]
            == bc2_alpha(bc2_alpha_block(a, mask), i) by {
            assert(b[i]@ == decoded_texel(format, first, i));
            assert(b[i][3] == b[i]@[3]);
        }
        lemma_bc2_alpha_reencode(a, b, mask);
    } else {
        let x = choose|x: u8| one_value(a, 3, mask, x);
        assert forall|i: int| 0 <= i < 16 && #[trigger] texel_enabled(mask, i) implies b[i][3]
            == bc3_alpha(bc3_alpha_block(a, 3, mask), i) by {
            assert(b[i]@ == decoded_texel(format, first, i));
            assert(b[i][3] == b[i]@[3]);
        }
        lemma_bc3_alpha_reencode(a, b, 3, mask, x);
    }
}

/// Idempotence under re-encode for BC4 and BC5.
proof fn lemma_alpha_formats_reencode(
    format: Format,
    a: [[u8; 4]; 16],
    b: [[u8; 4]; 16],
    mask: u32,
    first: Seq<u8>,
)
    requires
        format == Format::Bc4 || format == Format::Bc5,
        uniform_block(format, a, mask),
        format == Format::Bc4 ==> first == bc3_alpha_block(a, 0, mask),
        format == Format::Bc5 ==> first == bc3_alpha_block(a, 0, mask) + bc3_alpha_block(
            a,
            1,
            mask,
        ),
        forall|i: int| 0 <= i < 16 ==> b[i]@ == #[trigger] decoded_texel(format, first, i),
    ensures
        bc3_alpha_block(b, 0, mask) == bc3_alpha_block(a, 0, mask),
        format == Format::Bc5 ==> bc3_alpha_block(b, 1, mask) == bc3_alpha_block(a, 1, mask),
{
    lemma_bc3_block_len(a, 0, mask);
    lemma_bc3_block_len(a, 1, mask);
    let x = choose|x: u8| one_value(a, 0, mask, x);
    if format == Format::Bc5 {
        assert(first.subrange(0, 8) =~= bc3_alpha_block(a, 0, mask));
        assert(first.subrange(8, 16) =~= bc3_alpha_block(a, 1, mask));
    }
    assert forall|i: int| 0 <= i < 16 && #[trigger] texel_enabled(mask, i) implies b[i][0]
        == bc3_alpha(bc3_alpha_block(a, 0, mask), i) by {
        assert(b[i]@ == decoded_texel(format, first, i));
        assert(b[i][0] == b[i]@[0]);
    }
    lemma_bc3_alpha_reencode(a, b, 0, mask, x);
    if format == Format::Bc5 {
        let y = choose|y: u8| one_value(a, 1, mask, y);
        assert forall|i: int| 0 <= i < 16 && #[trigger] texel_enabled(mask, i) implies b[i][1]
            == bc3_alpha(bc3_alpha_block(a, 1, mask), i) by {
            assert(b[i]@ == decoded_texel(format, first, i));
            assert(b[i][1] == b[i]@[1]);
        }
        lemma_bc3_alpha_reencode(a, b, 1, mask, y);
    }
}

/// Idempotence under re-encode: a uniform block, compressed, decompressed
/// and compressed again under the same mask, gives the same bytes, whatever
/// the endpoint search and the parameters.
pub proof fn lemma_uniform_reencode<F: Fn(&ColourSet, Algorithm, Palettes) -> Fit>(
    fitter: &F,
    format: Format,
    a: [[u8; 4]; 16],
    b: [[u8; 4]; 16],
    mask: u32,
    params: Params,
    first: Seq<u8>,
    second: Seq<u8>,
)
    requires
        uniform_block(format, a, mask),
        block_encoded(fitter, format, a, mask, params, first),
        forall|i: int| 0 <= i < 16 ==> b[i]@ == #[trigger] decoded_texel(format, first, i),
        block_encoded(fitter, format, b, mask, params, second),
    ensures
        second == first,
{
    lemma_bc3_block_len(a, 0, mask);
    lemma_bc3_block_len(a, 1, mask);
    lemma_bc3_block_len(a, 3, mask);
    lemma_bc3_block_len(b, 0, mask);
    lemma_bc3_block_len(b, 1, mask);
    lemma_bc3_block_len(b, 3, mask);
    assert(bc2_alpha_block(a, mask).len() == 8);
    assert(bc2_alpha_block(b, mask).len() == 8);
    let is_bc1 = format == Format::Bc1;
    if format == Format::Bc1 {
        let c = choose|c: (u8, u8, u8)| one_colour(a, mask, is_bc1, c);
        lemma_colour_formats_reencode(
            fitter,
            format,
            a,
            b,
            mask,
            params,
            first,
            second,
            c,
            is_bc1,
        );
        assert(first =~= first.subrange(0, 8));
        assert(second =~= second.subrange(0, 8));
    } else if format == Format::Bc2 || format == Format::Bc3 {
        let c = choose|c: (u8, u8, u8)| one_colour(a, mask, is_bc1, c);
        lemma_colour_formats_reencode(
            fitter,
            format,
            a,
            b,
            mask,
            params,
            first,
            second,
            c,
            is_bc1,
        );
        lemma_alpha_part_reencode(format, a, b, mask, first);
        assert(second.subrange(0, 8) == first.subrange(0, 8));
        assert(second =~= second.subrange(0, 8) + second.subrange(8, 16));
        assert(first =~= first.subrange(0, 8) + first.subrange(8, 16));
    } else {
        if format == Format::Bc4 {
            assert(first =~= first.subrange(0, 8));
            assert(second =~= second.subrange(0, 8));
        } else {
            assert(first =~= first.subrange(0, 16));
            assert(second =~= second.subrange(0, 16));
        }
        lemma_alpha_formats_reencode(format, a, b, mask, first);
    }
}

} // verus!
