//! The formats, the encoder's parameters and the sizes of compressed images.

use crate::alpha::{
    agree_where_enabled, bc2_alpha, bc2_alpha_block, bc3_alpha, bc3_alpha_block, compress_bc2,
    compress_bc3, decompress_bc2, decompress_bc3, lemma_alpha_ignores_masked, texel_enabled,
};
use crate::colourblock::{colour_index, colour_texel, lemma_colour_index_range, three_point};
use crate::colourfit::{
    fitted_block, palettes_for, single_colour_block, uses_three, write_fit, Fit, Palettes,
    SingleColourFit,
};
use crate::colourset::{colour_set, lemma_colour_set_ignores_masked, ColourSet};
use vstd::prelude::*;

verus! {

/// A block compression format.
#[derive(Clone, Copy, Debug, PartialEq, Eq, Structural)]
pub enum Format {
    /// Colour with optional one-bit alpha.
    Bc1,
    /// Explicit four-bit alpha, then colour.
    Bc2,
    /// Interpolated alpha, then colour.
    Bc3,
    /// One interpolated channel.
    Bc4,
    /// Two interpolated channels.
    Bc5,
}

/// The strategy by which colour endpoints are searched.
#[derive(Clone, Copy, Debug, PartialEq, Eq, Structural)]
pub enum Algorithm {
    /// Fast, low quality.
    RangeFit,
    /// Slow, high quality.
    ClusterFit,
    /// Very slow, very high quality.
    IterativeClusterFit,
}

impl Default for Algorithm {
    fn default() -> (algorithm: Self)
        ensures
            algorithm == Algorithm::ClusterFit,
    {
        Algorithm::ClusterFit
    }
}

/// What the encoder is asked to do beyond the format.
#[derive(Clone, Copy, Debug, PartialEq, Eq, Structural)]
pub struct Params {
    /// The strategy for blocks of more than one colour.
    pub algorithm: Algorithm,
    /// Weigh each colour by the alpha of its texels when fitting.
    pub weigh_colour_by_alpha: bool,
}

impl Default for Params {
    fn default() -> (params: Self)
        ensures
            params.algorithm == Algorithm::ClusterFit,
            !params.weigh_colour_by_alpha,
    {
        Params { algorithm: Algorithm::ClusterFit, weigh_colour_by_alpha: false }
    }
}

/// The number of blocks that cover `size` texels in one dimension.
pub open spec fn blocks_1d(size: int) -> int {
    (size + 3) / 4
}

/// The number of bytes of one compressed block.
pub open spec fn block_bytes(format: Format) -> int {
    match format {
        Format::Bc1 => 8,
        Format::Bc2 => 16,
        Format::Bc3 => 16,
        Format::Bc4 => 8,
        Format::Bc5 => 16,
    }
}

/// The number of bytes of a compressed image.
pub open spec fn image_bytes(format: Format, width: int, height: int) -> int {
    blocks_1d(width) * blocks_1d(height) * block_bytes(format)
}

/// The number of blocks needed for an image of the given dimension: the least
/// count of four-texel blocks that covers it.
pub fn num_blocks(size: usize) -> (n: usize)
    requires
        size + 3 <= usize::MAX,
    ensures
        n == blocks_1d(size as int),
        4 * (n - 1) < size <= 4 * n,
{
    (size + 3) / 4
}

impl Format {
    /// How many bytes a block of sixteen texels compresses into.
    pub fn block_size(self) -> (n: usize)
        ensures
            n == block_bytes(self),
    {
        match self {
            Format::Bc1 => 8,
            Format::Bc2 => 16,
            Format::Bc3 => 16,
            Format::Bc4 => 8,
            Format::Bc5 => 16,
        }
    }

    /// The space in bytes that an image of the given size compresses into,
    /// each dimension padded to a multiple of four texels.
    pub fn compressed_size(self, width: usize, height: usize) -> (n: usize)
        requires
            image_bytes(self, width as int, height as int) <= usize::MAX,
            width + 3 <= usize::MAX,
            height + 3 <= usize::MAX,
        ensures
            n == image_bytes(self, width as int, height as int),
    {
        let wide: usize = num_blocks(width);
        let high: usize = num_blocks(height);
        assert(wide * high <= wide * high * block_bytes(self)) by (nonlinear_arith)
            requires
                block_bytes(self) >= 1,
                wide >= 0,
                high >= 0,
        ;
        let blocks: usize = wide * high;
        blocks * self.block_size()
    }
}

/// The texel that a compressed block holds at position `i`, as red, green,
/// blue and alpha. BC4 shows its one channel as grey; BC5 leaves blue at 0;
/// both are opaque.
pub open spec fn decoded_texel(format: Format, bytes: Seq<u8>, i: int) -> Seq<u8> {
    match format {
        Format::Bc1 => colour_texel(bytes, true, i),
        Format::Bc2 => colour_texel(bytes.subrange(8, 16), false, i).update(
            3,
            bc2_alpha(bytes.subrange(0, 8), i),
        ),
        Format::Bc3 => colour_texel(bytes.subrange(8, 16), false, i).update(
            3,
            bc3_alpha(bytes.subrange(0, 8), i),
        ),
        Format::Bc4 => seq![
            bc3_alpha(bytes, i),
            bc3_alpha(bytes, i),
            bc3_alpha(bytes, i),
            255u8,
        ],
        Format::Bc5 => seq![
            bc3_alpha(bytes.subrange(0, 8), i),
            bc3_alpha(bytes.subrange(8, 16), i),
            0u8,
            255u8,
        ],
    }
}

/// The alpha of a decoded texel. BC4 and BC5 are opaque. BC2 and BC3 take it
/// from their alpha block. BC1 is opaque but where the block is read with
/// the three-point palette and the texel has index 3: there alpha is 0.
pub proof fn lemma_decoded_alpha(format: Format, bytes: Seq<u8>, i: int)
    ensures
        decoded_texel(format, bytes, i).len() == 4,
        decoded_texel(format, bytes, i)[3] == match format {
            Format::Bc1 => if three_point(bytes, true) && colour_index(bytes, i) == 3 {
                0u8
            } else {
                255u8
            },
            Format::Bc2 => bc2_alpha(bytes.subrange(0, 8), i),
            Format::Bc3 => bc3_alpha(bytes.subrange(0, 8), i),
            Format::Bc4 => 255u8,
            Format::Bc5 => 255u8,
        },
{
    lemma_colour_index_range(bytes, i);
    lemma_colour_index_range(bytes.subrange(8, 16), i);
}

/// Copies the red of every texel to its green and blue.
fn splat_first(rgba: &mut [[u8; 4]; 16])
    ensures
        forall|i: int|
            0 <= i < 16 ==> #[trigger] final(rgba)@[i]@ == seq![
                old(rgba)@[i]@[0],
                old(rgba)@[i]@[0],
                old(rgba)@[i]@[0],
                old(rgba)@[i]@[3],
            ],
{
    let mut i: usize = 0;
    while i < 16
        invariant
            i <= 16,
            forall|k: int|
                0 <= k < i ==> #[trigger] rgba@[k]@ == seq![
                    old(rgba)@[k]@[0],
                    old(rgba)@[k]@[0],
                    old(rgba)@[k]@[0],
                    old(rgba)@[k]@[3],
                ],
            forall|k: int| i <= k < 16 ==> #[trigger] rgba@[k] == old(rgba)@[k],
        decreases 16 - i,
    {
        let value: u8 = rgba[i][0];
        rgba[i][1] = value;
        rgba[i][2] = value;
        assert(rgba@[i as int]@ =~= seq![
            old(rgba)@[i as int]@[0],
            old(rgba)@[i as int]@[0],
            old(rgba)@[i as int]@[0],
            old(rgba)@[i as int]@[3],
        ]);
        i += 1;
    }
}

impl Format {
    /// Decompresses one block to sixteen texels. Every block decodes; bytes
    /// behind the block are not read.
    pub fn decompress_block(self, block: &[u8]) -> (rgba: [[u8; 4]; 16])
        requires
            block@.len() >= block_bytes(self),
        ensures
            forall|i: int|
                0 <= i < 16 ==> #[trigger] rgba@[i]@ == decoded_texel(
                    self,
                    block@.subrange(0, block_bytes(self)),
                    i,
                ),
    {
        let ghost bytes = block@.subrange(0, block_bytes(self));
        match self {
            Format::Bc1 => {
                crate::colourblock::decompress(&block[0..8], true)
            },
            Format::Bc2 => {
                let mut rgba = crate::colourblock::decompress(&block[8..16], false);
                decompress_bc2(&mut rgba, &block[0..8]);
                assert(bytes.subrange(8, 16) =~= block@.subrange(8, 16));
                assert(bytes.subrange(0, 8) =~= block@.subrange(0, 8));
                rgba
            },
            Format::Bc3 => {
                let mut rgba = crate::colourblock::decompress(&block[8..16], false);
                decompress_bc3(&mut rgba, 3, &block[0..8]);
                assert(bytes.subrange(8, 16) =~= block@.subrange(8, 16));
                assert(bytes.subrange(0, 8) =~= block@.subrange(0, 8));
                rgba
            },
            Format::Bc4 => {
                let mut rgba: [[u8; 4]; 16] = [[0u8, 0u8, 0u8, 255u8]; 16];
                decompress_bc3(&mut rgba, 0, &block[0..8]);
                splat_first(&mut rgba);
                assert forall|i: int| 0 <= i < 16 implies #[trigger] rgba@[i]@ == decoded_texel(
                    self,
                    bytes,
                    i,
                ) by {
                    assert(rgba@[i]@ =~= decoded_texel(self, bytes, i));
                }
                rgba
            },
            Format::Bc5 => {
                let mut rgba: [[u8; 4]; 16] = [[0u8, 0u8, 0u8, 255u8]; 16];
                decompress_bc3(&mut rgba, 0, &block[0..8]);
                decompress_bc3(&mut rgba, 1, &block[8..16]);
                assert(bytes.subrange(8, 16) =~= block@.subrange(8, 16));
                assert(bytes.subrange(0, 8) =~= block@.subrange(0, 8));
                assert forall|i: int| 0 <= i < 16 implies #[trigger] rgba@[i]@ == decoded_texel(
                    self,
                    bytes,
                    i,
                ) by {
                    assert(rgba@[i]@ =~= decoded_texel(self, bytes, i));
                }
                rgba
            },
        }
    }
}

/// The four bytes of texel number `t` of an image.
pub open spec fn texel_at(image: Seq<u8>, t: int) -> Seq<u8> {
    image.subrange(4 * t, 4 * t + 4)
}

/// The byte offset of block `(bx, by)` in a compressed image: blocks lie row
/// by row, each in its own bytes.
pub open spec fn block_offset(format: Format, width: int, bx: int, by: int) -> int {
    (by * blocks_1d(width) + bx) * block_bytes(format)
}

/// The bytes of block `(bx, by)` of a compressed image.
pub open spec fn block_at(format: Format, data: Seq<u8>, width: int, bx: int, by: int) -> Seq<u8> {
    data.subrange(
        block_offset(format, width, bx, by),
        block_offset(format, width, bx, by) + block_bytes(format),
    )
}

/// The position within its block of the texel at `(x, y)`.
pub open spec fn index_in_block(x: int, y: int) -> int {
    4 * (y % 4) + x % 4
}

/// Texels of one row lie side by side, and rows do not overlap.
pub proof fn lemma_texel_number(width: int, height: int, x: int, y: int)
    requires
        0 <= x < width,
        0 <= y < height,
    ensures
        0 <= y * width + x < width * height,
        0 <= width * y + x < width * height,
        y * width == width * y,
        0 <= y * width,
        4 * (y * width + x) + 4 <= 4 * width * height,
{
    assert(y * width + x < width * height && 4 * (y * width + x) + 4 <= 4 * width * height)
        by (nonlinear_arith)
        requires
            0 <= x < width,
            0 <= y < height,
    ;
    assert(0 <= y * width && y * width == width * y) by (nonlinear_arith)
        requires
            0 <= width,
            0 <= y,
    ;
}

/// Two places of an image with one texel number are one place.
pub proof fn lemma_texel_number_injective(width: int, x1: int, y1: int, x2: int, y2: int)
    requires
        0 <= x1 < width,
        0 <= x2 < width,
        0 <= y1,
        0 <= y2,
        y1 * width + x1 == y2 * width + x2,
    ensures
        x1 == x2,
        y1 == y2,
{
    assert(y1 == y2) by (nonlinear_arith)
        requires
            0 <= x1 < width,
            0 <= x2 < width,
            0 <= y1,
            0 <= y2,
            y1 * width + x1 == y2 * width + x2,
    ;
}

/// Each block of an image lies within the compressed image.
pub proof fn lemma_block_offset(format: Format, width: int, height: int, bx: int, by: int)
    requires
        0 <= bx < blocks_1d(width),
        0 <= by < blocks_1d(height),
    ensures
        0 <= block_offset(format, width, bx, by),
        block_offset(format, width, bx, by) + block_bytes(format) <= image_bytes(
            format,
            width,
            height,
        ),
        0 <= by * blocks_1d(width) + bx < blocks_1d(width) * blocks_1d(height),
        0 <= by * blocks_1d(width),
        by * blocks_1d(width) + bx <= block_offset(format, width, bx, by),
{
    let wide = blocks_1d(width);
    let high = blocks_1d(height);
    let size = block_bytes(format);
    assert(0 <= by * wide + bx && by * wide + bx + 1 <= wide * high) by (nonlinear_arith)
        requires
            0 <= bx < wide,
            0 <= by < high,
    ;
    assert((by * wide + bx) * size + size <= wide * high * size && by * wide + bx <= (by * wide
        + bx) * size) by (nonlinear_arith)
        requires
            0 <= by * wide + bx,
            by * wide + bx + 1 <= wide * high,
            size >= 1,
    ;
    assert(0 <= by * wide) by (nonlinear_arith)
        requires
            0 <= by,
            0 <= wide,
    ;
}

/// Stores one texel as texel number `t` of an image.
fn store_texel(texel: &[u8; 4], t: usize, output: &mut [u8])
    requires
        4 * t + 4 <= old(output)@.len(),
    ensures
        final(output)@.len() == old(output)@.len(),
        texel_at(final(output)@, t as int) == texel@,
        forall|k: int|
            0 <= k < old(output)@.len() && !(4 * t <= k < 4 * t + 4) ==> final(output)@[k] == old(
                output,
            )@[k],
{
    let _ = output.len();
    output[4 * t] = texel[0];
    output[4 * t + 1] = texel[1];
    output[4 * t + 2] = texel[2];
    output[4 * t + 3] = texel[3];
    assert(texel_at(output@, t as int) =~= texel@);
}

/// Whether the texel at `(x, y)` lies in block `(bx, by)` at a position
/// below `n`.
pub open spec fn in_block_below(x: int, y: int, bx: int, by: int, n: int) -> bool {
    x / 4 == bx && y / 4 == by && index_in_block(x, y) < n
}

/// Stores the texels of a block that lie inside the image.
fn store_tile(
    tile: &[[u8; 4]; 16],
    width: usize,
    height: usize,
    bx: usize,
    by: usize,
    output: &mut [u8],
)
    requires
        old(output)@.len() == 4 * width * height,
        bx < blocks_1d(width as int),
        by < blocks_1d(height as int),
        width + 3 <= usize::MAX,
        height + 3 <= usize::MAX,
    ensures
        final(output)@.len() == old(output)@.len(),
        forall|x: int, y: int|
            0 <= x < width && 0 <= y < height ==> #[trigger] texel_at(
                final(output)@,
                y * width + x,
            ) == if in_block_below(x, y, bx as int, by as int, 16) {
                tile@[index_in_block(x, y)]@
            } else {
                texel_at(old(output)@, y * width + x)
            },
{
    let _ = output.len();
    let mut i: usize = 0;
    while i < 16
        invariant
            i <= 16,
            output@.len() == old(output)@.len(),
            old(output)@.len() == 4 * width * height,
            4 * width * height <= usize::MAX,
            bx < blocks_1d(width as int),
            by < blocks_1d(height as int),
            width + 3 <= usize::MAX,
            height + 3 <= usize::MAX,
            forall|x: int, y: int|
                0 <= x < width && 0 <= y < height ==> #[trigger] texel_at(output@, y * width + x)
                    == if in_block_below(x, y, bx as int, by as int, i as int) {
                    tile@[index_in_block(x, y)]@
                } else {
                    texel_at(old(output)@, y * width + x)
                },
        decreases 16 - i,
    {
        let sx: usize = 4 * bx + i % 4;
        let sy: usize = 4 * by + i / 4;
        if sx < width && sy < height {
            proof {
                lemma_texel_number(width as int, height as int, sx as int, sy as int);
            }
            let t: usize = sy * width + sx;
            let ghost before = output@;
            store_texel(&tile[i], t, output);
            assert forall|x: int, y: int| 0 <= x < width && 0 <= y < height implies #[trigger] texel_at(
                output@,
                y * width + x,
            ) == if in_block_below(x, y, bx as int, by as int, i + 1) {
                tile@[index_in_block(x, y)]@
            } else {
                texel_at(old(output)@, y * width + x)
            } by {
                lemma_texel_number(width as int, height as int, x, y);
                if y * width + x == t {
                    lemma_texel_number_injective(width as int, x, y, sx as int, sy as int);
                } else {
                    assert(texel_at(output@, y * width + x) =~= texel_at(before, y * width + x));
                }
            }
        }
        i += 1;
    }
}

/// Whether the texel at `(x, y)` of a decompressed image is the one that its
/// block of the compressed image holds for it.
pub open spec fn pixel_decoded(
    format: Format,
    data: Seq<u8>,
    width: int,
    x: int,
    y: int,
    output: Seq<u8>,
) -> bool {
    texel_at(output, y * width + x) == decoded_texel(
        format,
        block_at(format, data, width, x / 4, y / 4),
        index_in_block(x, y),
    )
}

impl Format {
    /// Decompresses an image. Each texel of the image comes from its block;
    /// what a block holds for places outside the image is dropped.
    pub fn decompress(self, data: &[u8], width: usize, height: usize, output: &mut [u8])
        requires
            width + 3 <= usize::MAX,
            height + 3 <= usize::MAX,
            data@.len() >= image_bytes(self, width as int, height as int),
            old(output)@.len() == 4 * width * height,
        ensures
            final(output)@.len() == old(output)@.len(),
            forall|x: int, y: int|
                0 <= x < width && 0 <= y < height ==> #[trigger] pixel_decoded(
                    self,
                    data@,
                    width as int,
                    x,
                    y,
                    final(output)@,
                ),
    {
        let blocks_wide: usize = num_blocks(width);
        let blocks_high: usize = num_blocks(height);
        let block_size: usize = self.block_size();
        let _ = data.len();
        let mut by: usize = 0;
        while by < blocks_high
            invariant
                by <= blocks_high,
                data@.len() <= usize::MAX,
                blocks_wide == blocks_1d(width as int),
                blocks_high == blocks_1d(height as int),
                block_size == block_bytes(self),
                width + 3 <= usize::MAX,
                height + 3 <= usize::MAX,
                data@.len() >= image_bytes(self, width as int, height as int),
                output@.len() == 4 * width * height,
                output@.len() == old(output)@.len(),
                forall|x: int, y: int|
                    0 <= x < width && 0 <= y < height && y / 4 < by ==> #[trigger] pixel_decoded(
                        self,
                        data@,
                        width as int,
                        x,
                        y,
                        output@,
                    ),
            decreases blocks_high - by,
        {
            let mut bx: usize = 0;
            while bx < blocks_wide
                invariant
                    by < blocks_high,
                    bx <= blocks_wide,
                    data@.len() <= usize::MAX,
                    blocks_wide == blocks_1d(width as int),
                    blocks_high == blocks_1d(height as int),
                    block_size == block_bytes(self),
                    width + 3 <= usize::MAX,
                    height + 3 <= usize::MAX,
                    data@.len() >= image_bytes(self, width as int, height as int),
                    output@.len() == 4 * width * height,
                    output@.len() == old(output)@.len(),
                    forall|x: int, y: int|
                        0 <= x < width && 0 <= y < height && (y / 4 < by || (y / 4 == by && x / 4
                            < bx)) ==> #[trigger] pixel_decoded(
                            self,
                            data@,
                            width as int,
                            x,
                            y,
                            output@,
                        ),
                decreases blocks_wide - bx,
            {
                proof {
                    lemma_block_offset(self, width as int, height as int, bx as int, by as int);
                }
                let bidx: usize = (by * blocks_wide + bx) * block_size;
                let rgba = self.decompress_block(&data[bidx..bidx + block_size]);
                assert(data@.subrange(bidx as int, bidx + block_size).subrange(
                    0,
                    block_bytes(self),
                ) =~= block_at(self, data@, width as int, bx as int, by as int));
                let ghost before = output@;
                store_tile(&rgba, width, height, bx, by, output);
                assert forall|x: int, y: int|
                    0 <= x < width && 0 <= y < height && (y / 4 < by || (y / 4 == by && x / 4 < bx
                        + 1)) implies #[trigger] pixel_decoded(
                    self,
                    data@,
                    width as int,
                    x,
                    y,
                    output@,
                ) by {
                    if x / 4 == bx && y / 4 == by {
                        assert(in_block_below(x, y, bx as int, by as int, 16));
                        assert(texel_at(output@, y * width + x) == rgba@[index_in_block(x, y)]@);
                    } else {
                        assert(!in_block_below(x, y, bx as int, by as int, 16));
                        assert(pixel_decoded(self, data@, width as int, x, y, before));
                        assert(texel_at(output@, y * width + x) == texel_at(
                            before,
                            y * width + x,
                        ));
                    }
                }
                bx += 1;
            }
            by += 1;
        }
    }
}

/// The strategy that a block is fitted with: a block without any point is
/// always range-fitted.
pub open spec fn effective_algorithm(points: int, algorithm: Algorithm) -> Algorithm {
    if points == 0 {
        Algorithm::RangeFit
    } else {
        algorithm
    }
}

/// Whether an endpoint search takes every consistent point set.
pub open spec fn fitter_total<F: Fn(&ColourSet, Algorithm, Palettes) -> Fit>(fitter: &F) -> bool {
    forall|set: ColourSet, algorithm: Algorithm, palettes: Palettes|
        set.wf() ==> #[trigger] fitter.requires((&set, algorithm, palettes))
}

/// Whether `bytes` is a colour block of the given texels. A block of one
/// colour has the block of its exact fit. Any other has the block of a fit
/// that the endpoint search may return for its point set, written with the
/// palette that the format and the block's transparency leave open.
#[verifier::opaque]
pub open spec fn colour_encoded<F: Fn(&ColourSet, Algorithm, Palettes) -> Fit>(
    fitter: &F,
    format: Format,
    rgba: [[u8; 4]; 16],
    mask: u32,
    params: Params,
    bytes: Seq<u8>,
) -> bool {
    let is_bc1 = format == Format::Bc1;
    let model = colour_set(rgba, mask, is_bc1, params.weigh_colour_by_alpha, 16);
    let palettes = palettes_for(is_bc1, model.transparent);
    if model.points.len() == 1 {
        bytes == single_colour_block(model, is_bc1)
    } else {
        exists|set: ColourSet, fit: Fit|
            {
                &&& set.wf()
                &&& set@ == model
                &&& set.alpha_weighted() == params.weigh_colour_by_alpha
                &&& #[trigger] fitter.ensures(
                    (&set, effective_algorithm(model.points.len() as int, params.algorithm), palettes),
                    fit,
                )
                &&& bytes == fitted_block(
                    model,
                    uses_three(palettes, fit.three),
                    fit.start,
                    fit.end,
                    fit.indices@,
                )
            }
    }
}

/// The alpha blocks that a format puts at the start of a block.
pub open spec fn alpha_part(format: Format, rgba: [[u8; 4]; 16], mask: u32) -> Seq<u8> {
    match format {
        Format::Bc1 => Seq::empty(),
        Format::Bc2 => bc2_alpha_block(rgba, mask),
        Format::Bc3 => bc3_alpha_block(rgba, 3, mask),
        Format::Bc4 => bc3_alpha_block(rgba, 0, mask),
        Format::Bc5 => bc3_alpha_block(rgba, 0, mask) + bc3_alpha_block(rgba, 1, mask),
    }
}

/// Whether a format ends its block with a colour block.
pub open spec fn has_colour(format: Format) -> bool {
    format == Format::Bc1 || format == Format::Bc2 || format == Format::Bc3
}

/// Whether `bytes` is a compressed block of the given texels: the alpha
/// blocks of the format, then its colour block if it has one.
pub open spec fn block_encoded<F: Fn(&ColourSet, Algorithm, Palettes) -> Fit>(
    fitter: &F,
    format: Format,
    rgba: [[u8; 4]; 16],
    mask: u32,
    params: Params,
    bytes: Seq<u8>,
) -> bool {
    &&& bytes.len() == block_bytes(format)
    &&& bytes.subrange(0, alpha_part(format, rgba, mask).len() as int) == alpha_part(
        format,
        rgba,
        mask,
    )
    &&& has_colour(format) ==> colour_encoded(
        fitter,
        format,
        rgba,
        mask,
        params,
        bytes.subrange(bytes.len() - 8, bytes.len() as int),
    )
}

/// Compresses the colour block of sixteen texels: a block of one colour by
/// its exact fit, any other by the fit that the endpoint search returns.
fn compress_colour<F: Fn(&ColourSet, Algorithm, Palettes) -> Fit>(
    format: Format,
    rgba: &[[u8; 4]; 16],
    mask: u32,
    params: Params,
    fitter: &F,
    block: &mut [u8],
)
    requires
        old(block)@.len() == 8,
        fitter_total(fitter),
    ensures
        final(block)@.len() == 8,
        colour_encoded(fitter, format, *rgba, mask, params, final(block)@),
{
    reveal(colour_encoded);
    let colours = ColourSet::new(rgba, mask, format, params.weigh_colour_by_alpha);
    if colours.count() == 1 {
        let mut fit = SingleColourFit::new(&colours, format);
        fit.compress(block);
    } else {
        let algorithm = if colours.count() == 0 {
            Algorithm::RangeFit
        } else {
            params.algorithm
        };
        let palettes = if format != Format::Bc1 {
            Palettes::Four
        } else if colours.is_transparent() {
            Palettes::Three
        } else {
            Palettes::Either
        };
        let fit = fitter(&colours, algorithm, palettes);
        write_fit(&colours, palettes, &fit, block);
        assert(fitter.ensures((&colours, algorithm, palettes), fit));
    }
}

impl Format {
    /// Compresses a block of sixteen texels, of which only those that the
    /// mask enables count. The endpoints of a block of several colours are
    /// those that `fitter` finds for its point set.
    pub fn compress_block_masked<F: Fn(&ColourSet, Algorithm, Palettes) -> Fit>(
        self,
        rgba: [[u8; 4]; 16],
        mask: u32,
        params: Params,
        fitter: &F,
        output: &mut [u8],
    )
        requires
            old(output)@.len() == block_bytes(self),
            fitter_total(fitter),
        ensures
            block_encoded(fitter, self, rgba, mask, params, final(output)@),
    {
        match self {
            Format::Bc1 => {
                compress_colour(self, &rgba, mask, params, fitter, output);
                assert(output@.subrange(0, 0) =~= Seq::<u8>::empty());
                assert(output@.subrange(0, 8) =~= output@);
            },
            Format::Bc2 => {
                let (alpha, colour) = output.split_at_mut(8);
                compress_bc2(&rgba, mask, alpha);
                compress_colour(self, &rgba, mask, params, fitter, colour);
                assert(output@.subrange(0, 8) =~= alpha@);
                assert(output@.subrange(8, 16) =~= colour@);
            },
            Format::Bc3 => {
                let (alpha, colour) = output.split_at_mut(8);
                compress_bc3(&rgba, 3, mask, alpha);
                compress_colour(self, &rgba, mask, params, fitter, colour);
                assert(output@.subrange(0, 8) =~= alpha@);
                assert(output@.subrange(8, 16) =~= colour@);
            },
            Format::Bc4 => {
                compress_bc3(&rgba, 0, mask, output);
                assert(output@.subrange(0, 8) =~= output@);
            },
            Format::Bc5 => {
                let (first, second) = output.split_at_mut(8);
                compress_bc3(&rgba, 0, mask, first);
                compress_bc3(&rgba, 1, mask, second);
                assert(output@.subrange(0, 16) =~= output@);
            },
        }
    }
}

/// Whether position `i` of block `(bx, by)` lies inside the image.
pub open spec fn in_image(width: int, height: int, bx: int, by: int, i: int) -> bool {
    4 * bx + i % 4 < width && 4 * by + i / 4 < height
}

/// The validity mask of block `(bx, by)` over its first `n` positions: a bit
/// is set exactly where the position lies inside the image.
pub open spec fn tile_mask(width: int, height: int, bx: int, by: int, n: int) -> u32
    decreases n,
{
    if n <= 0 {
        0
    } else {
        let rest = tile_mask(width, height, bx, by, n - 1);
        if in_image(width, height, bx, by, n - 1) {
            rest | (1u32 << ((n - 1) as u32))
        } else {
            rest
        }
    }
}

/// Whether the first `n` positions of `tile` that lie inside the image hold
/// the texels that the image has there.
pub open spec fn tile_of(
    image: Seq<u8>,
    width: int,
    height: int,
    bx: int,
    by: int,
    tile: [[u8; 4]; 16],
    n: int,
) -> bool {
    forall|i: int|
        0 <= i < n && in_image(width, height, bx, by, i) ==> #[trigger] tile[i]@ == texel_at(
            image,
            (4 * by + i / 4) * width + (4 * bx + i % 4),
        )
}

/// Whether `bytes` is a compressed block of block `(bx, by)` of an image:
/// of a tile that holds the image's texels wherever it lies inside the
/// image, under the mask that enables just those.
pub open spec fn image_block_encoded<F: Fn(&ColourSet, Algorithm, Palettes) -> Fit>(
    fitter: &F,
    format: Format,
    image: Seq<u8>,
    width: int,
    height: int,
    params: Params,
    bx: int,
    by: int,
    bytes: Seq<u8>,
) -> bool {
    exists|tile: [[u8; 4]; 16]|
        tile_of(image, width, height, bx, by, tile, 16) && #[trigger] block_encoded(
            fitter,
            format,
            tile,
            tile_mask(width, height, bx, by, 16),
            params,
            bytes,
        )
}

/// Earlier blocks lie at lower offsets, and no two blocks overlap.
pub proof fn lemma_block_order(
    format: Format,
    width: int,
    bx1: int,
    by1: int,
    bx2: int,
    by2: int,
)
    requires
        0 <= bx1 < blocks_1d(width),
        0 <= bx2 < blocks_1d(width),
        0 <= by1,
        0 <= by2,
        by1 < by2 || (by1 == by2 && bx1 < bx2),
    ensures
        0 <= block_offset(format, width, bx1, by1),
        block_offset(format, width, bx1, by1) + block_bytes(format) <= block_offset(
            format,
            width,
            bx2,
            by2,
        ),
{
    let wide = blocks_1d(width);
    let size = block_bytes(format);
    assert(0 <= by1 * wide + bx1 && by1 * wide + bx1 + 1 <= by2 * wide + bx2) by (nonlinear_arith)
        requires
            0 <= bx1 < wide,
            0 <= bx2 < wide,
            0 <= by1,
            0 <= by2,
            by1 < by2 || (by1 == by2 && bx1 < bx2),
    ;
    assert((by1 * wide + bx1) * size + size <= (by2 * wide + bx2) * size && 0 <= (by1 * wide
        + bx1) * size) by (nonlinear_arith)
        requires
            0 <= by1 * wide + bx1,
            by1 * wide + bx1 + 1 <= by2 * wide + bx2,
            size >= 0,
    ;
}

/// Gathers block `(bx, by)` of an image: the texels that lie inside the
/// image, and the mask that enables just those. The other places of the tile
/// hold zeros.
pub fn gather_tile(rgba: &[u8], width: usize, height: usize, bx: usize, by: usize) -> (r: (
    [[u8; 4]; 16],
    u32,
))
    requires
        rgba@.len() == 4 * width * height,
        bx < blocks_1d(width as int),
        by < blocks_1d(height as int),
        width + 3 <= usize::MAX,
        height + 3 <= usize::MAX,
    ensures
        tile_of(rgba@, width as int, height as int, bx as int, by as int, r.0, 16),
        r.1 == tile_mask(width as int, height as int, bx as int, by as int, 16),
        forall|i: int|
            0 <= i < 16 && !in_image(width as int, height as int, bx as int, by as int, i)
                ==> #[trigger] r.0[i]@ == seq![0u8, 0u8, 0u8, 0u8],
{
    let _ = rgba.len();
    let mut tile: [[u8; 4]; 16] = [[0u8; 4]; 16];
    assert forall|k: int| 0 <= k < 16 implies #[trigger] tile[k]@ == seq![0u8, 0u8, 0u8, 0u8] by {
        assert(tile[k]@ =~= seq![0u8, 0u8, 0u8, 0u8]);
    }
    let mut mask: u32 = 0;
    let mut i: usize = 0;
    while i < 16
        invariant
            i <= 16,
            rgba@.len() == 4 * width * height,
            4 * width * height <= usize::MAX,
            bx < blocks_1d(width as int),
            by < blocks_1d(height as int),
            width + 3 <= usize::MAX,
            height + 3 <= usize::MAX,
            tile_of(rgba@, width as int, height as int, bx as int, by as int, tile, i as int),
            mask == tile_mask(width as int, height as int, bx as int, by as int, i as int),
            forall|k: int|
                0 <= k < 16 && (k >= i || !in_image(
                    width as int,
                    height as int,
                    bx as int,
                    by as int,
                    k,
                )) ==> #[trigger] tile[k]@ == seq![0u8, 0u8, 0u8, 0u8],
        decreases 16 - i,
    {
        let sx: usize = 4 * bx + i % 4;
        let sy: usize = 4 * by + i / 4;
        if sx < width && sy < height {
            proof {
                lemma_texel_number(width as int, height as int, sx as int, sy as int);
            }
            let t: usize = sy * width + sx;
            let texel: [u8; 4] = [rgba[4 * t], rgba[4 * t + 1], rgba[4 * t + 2], rgba[4 * t + 3]];
            assert(texel@ =~= texel_at(rgba@, t as int));
            tile[i] = texel;
            mask |= 1u32 << (i as u32);
        }
        i += 1;
    }
    (tile, mask)
}

impl Format {
    /// Compresses an image, block by block and row by row. Each block goes to
    /// its own bytes of `output`; what lies behind the last block stays as it
    /// was. Places of a block outside the image are masked out.
    pub fn compress<F: Fn(&ColourSet, Algorithm, Palettes) -> Fit>(
        self,
        rgba: &[u8],
        width: usize,
        height: usize,
        params: Params,
        fitter: &F,
        output: &mut [u8],
    )
        requires
            width + 3 <= usize::MAX,
            height + 3 <= usize::MAX,
            rgba@.len() == 4 * width * height,
            old(output)@.len() >= image_bytes(self, width as int, height as int),
            fitter_total(fitter),
        ensures
            final(output)@.len() == old(output)@.len(),
            forall|bx: int, by: int|
                0 <= bx < blocks_1d(width as int) && 0 <= by < blocks_1d(height as int)
                    ==> #[trigger] image_block_encoded(
                    fitter,
                    self,
                    rgba@,
                    width as int,
                    height as int,
                    params,
                    bx,
                    by,
                    block_at(self, final(output)@, width as int, bx, by),
                ),
            forall|k: int|
                image_bytes(self, width as int, height as int) <= k < old(output)@.len()
                    ==> final(output)@[k] == old(output)@[k],
    {
        let blocks_wide: usize = num_blocks(width);
        let blocks_high: usize = num_blocks(height);
        let block_size: usize = self.block_size();
        let _ = output.len();
        let mut by: usize = 0;
        while by < blocks_high
            invariant
                by <= blocks_high,
                blocks_wide == blocks_1d(width as int),
                blocks_high == blocks_1d(height as int),
                block_size == block_bytes(self),
                width + 3 <= usize::MAX,
                height + 3 <= usize::MAX,
                rgba@.len() == 4 * width * height,
                output@.len() == old(output)@.len(),
                output@.len() <= usize::MAX,
                output@.len() >= image_bytes(self, width as int, height as int),
                fitter_total(fitter),
                forall|x: int, y: int|
                    0 <= x < blocks_wide && 0 <= y < by ==> #[trigger] image_block_encoded(
                        fitter,
                        self,
                        rgba@,
                        width as int,
                        height as int,
                        params,
                        x,
                        y,
                        block_at(self, output@, width as int, x, y),
                    ),
                forall|k: int|
                    block_offset(self, width as int, 0, by as int) <= k < output@.len()
                        ==> output@[k] == old(output)@[k],
            decreases blocks_high - by,
        {
            let mut bx: usize = 0;
            while bx < blocks_wide
                invariant
                    by < blocks_high,
                    bx <= blocks_wide,
                    blocks_wide == blocks_1d(width as int),
                    blocks_high == blocks_1d(height as int),
                    block_size == block_bytes(self),
                    width + 3 <= usize::MAX,
                    height + 3 <= usize::MAX,
                    rgba@.len() == 4 * width * height,
                    output@.len() == old(output)@.len(),
                    output@.len() <= usize::MAX,
                    output@.len() >= image_bytes(self, width as int, height as int),
                    fitter_total(fitter),
                    forall|x: int, y: int|
                        0 <= x < blocks_wide && 0 <= y && (y < by || (y == by && x < bx))
                            ==> #[trigger] image_block_encoded(
                            fitter,
                            self,
                            rgba@,
                            width as int,
                            height as int,
                            params,
                            x,
                            y,
                            block_at(self, output@, width as int, x, y),
                        ),
                    forall|k: int|
                        block_offset(self, width as int, bx as int, by as int) <= k < output@.len()
                            ==> output@[k] == old(output)@[k],
                decreases blocks_wide - bx,
            {
                proof {
                    lemma_block_offset(self, width as int, height as int, bx as int, by as int);
                }
                let (tile, mask) = gather_tile(rgba, width, height, bx, by);
                let offset: usize = (by * blocks_wide + bx) * block_size;
                let ghost before = output@;
                let (_, rest) = output.split_at_mut(offset);
                let (block, _) = rest.split_at_mut(block_size);
                self.compress_block_masked(tile, mask, params, fitter, block);
                proof {
                    assert(block_at(self, output@, width as int, bx as int, by as int) =~= block@);
                    assert forall|k: int| 0 <= k < offset || offset + block_size <= k
                        < output@.len() implies output@[k] == before[k] by {}
                    assert forall|x: int, y: int|
                        0 <= x < blocks_wide && 0 <= y && (y < by || (y == by && x < bx
                            + 1)) implies #[trigger] image_block_encoded(
                        fitter,
                        self,
                        rgba@,
                        width as int,
                        height as int,
                        params,
                        x,
                        y,
                        block_at(self, output@, width as int, x, y),
                    ) by {
                        if x == bx && y == by {
                            assert(block_encoded(fitter, self, tile, mask, params, block@));
                        } else {
                            lemma_block_order(self, width as int, x, y, bx as int, by as int);
                            assert(block_at(self, output@, width as int, x, y) =~= block_at(
                                self,
                                before,
                                width as int,
                                x,
                                y,
                            ));
                        }
                    }
                    assert(block_offset(self, width as int, bx + 1, by as int) == offset
                        + block_size) by (nonlinear_arith)
                        requires
                            offset == (by * blocks_wide + bx) * block_size,
                            blocks_wide == blocks_1d(width as int),
                            block_size == block_bytes(self),
                    ;
                }
                bx += 1;
            }
            proof {
                assert(block_offset(self, width as int, blocks_wide as int, by as int)
                    == block_offset(self, width as int, 0, by + 1)) by (nonlinear_arith)
                    requires
                        blocks_wide == blocks_1d(width as int),
                ;
            }
            by += 1;
        }
        proof {
            assert(block_offset(self, width as int, 0, blocks_high as int) == image_bytes(
                self,
                width as int,
                height as int,
            )) by (nonlinear_arith)
                requires
                    blocks_high == blocks_1d(height as int),
            ;
        }
    }
}

/// Masked encoding: a texel that the mask leaves out may take any value
/// without changing what a block compresses to. Two blocks that differ only
/// in such texels have the same point set, so the endpoint search is asked
/// the same question, and whatever is a compressed block of one is a
/// compressed block of the other.
pub proof fn lemma_block_ignores_masked<F: Fn(&ColourSet, Algorithm, Palettes) -> Fit>(
    fitter: &F,
    format: Format,
    a: [[u8; 4]; 16],
    b: [[u8; 4]; 16],
    mask: u32,
    params: Params,
    bytes: Seq<u8>,
)
    requires
        agree_where_enabled(a, b, mask),
    ensures
        alpha_part(format, a, mask) == alpha_part(format, b, mask),
        colour_set(a, mask, format == Format::Bc1, params.weigh_colour_by_alpha, 16) == colour_set(
            b,
            mask,
            format == Format::Bc1,
            params.weigh_colour_by_alpha,
            16,
        ),
        block_encoded(fitter, format, a, mask, params, bytes) == block_encoded(
            fitter,
            format,
            b,
            mask,
            params,
            bytes,
        ),
{
    reveal(colour_encoded);
    lemma_alpha_ignores_masked(a, b, 0, mask);
    lemma_alpha_ignores_masked(a, b, 1, mask);
    lemma_alpha_ignores_masked(a, b, 3, mask);
    lemma_colour_set_ignores_masked(
        a,
        b,
        mask,
        format == Format::Bc1,
        params.weigh_colour_by_alpha,
        16,
    );
}

/// The mask of a block enables exactly the places that lie inside the image.
pub proof fn lemma_tile_mask(width: int, height: int, bx: int, by: int, n: int, i: int)
    requires
        0 <= n <= 16,
        0 <= i < 16,
    ensures
        texel_enabled(tile_mask(width, height, bx, by, n), i) == (i < n && in_image(
            width,
            height,
            bx,
            by,
            i,
        )),
    decreases n,
{
    let bit: u32 = 1u32 << (i as u32);
    if n > 0 {
        lemma_tile_mask(width, height, bx, by, n - 1, i);
        let rest = tile_mask(width, height, bx, by, n - 1);
        let m: u32 = (n - 1) as u32;
        let k: u32 = i as u32;
        assert(((rest | (1u32 << m)) & (1u32 << k) != 0) == ((rest & (1u32 << k)) != 0 || k == m))
            by (bit_vector)
            requires
                m < 16,
                k < 16,
        ;
    } else {
        assert(0u32 & bit == 0) by (bit_vector);
    }
}

/// The number of blocks in one dimension is the least number of four-texel
/// blocks that covers it, so a compressed image has
/// `ceil(width / 4) * ceil(height / 4)` blocks.
pub proof fn lemma_blocks_1d_is_ceiling(size: int, n: int)
    requires
        size >= 0,
    ensures
        4 * blocks_1d(size) >= size,
        n >= 0 && 4 * n >= size ==> blocks_1d(size) <= n,
{
}

} // verus!
