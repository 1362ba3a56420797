//! Fitting two endpoints and a palette index per point to a point set: the
//! exact fit of a single colour, and the serialisation of any fit.

use crate::colourblock::{four_block_bytes, three_block_bytes, write3, write4, Colour565};
use crate::colourset::{remapped, ColourSet, ColourSetView};
use crate::format::Format;
use vstd::prelude::*;

verus! {

/// The eight-bit value of grid level `v`: a five-bit level, or a six-bit
/// level where `six` is set, with its high bits repeated below.
pub open spec fn grid_value(six: bool, v: int) -> int {
    if six {
        4 * v + v / 16
    } else {
        8 * v + v / 4
    }
}

/// The number of levels of a grid.
pub open spec fn grid_size(six: bool) -> int {
    if six {
        64
    } else {
        32
    }
}

/// The palette value that a pair of eight-bit endpoints gives: the first
/// endpoint itself, or with `mid` the interpolated value next to it, which is
/// a third of the way in the four-point palette and half way in the
/// three-point palette.
pub open spec fn palette_value(four: bool, mid: bool, a: int, b: int) -> int {
    if !mid {
        a
    } else if four {
        (2 * a + b) / 3
    } else {
        (a + b) / 2
    }
}

/// The palette value of pair number `p`, the pairs of grid levels being
/// counted with the first level as the major one.
pub open spec fn pair_value(six: bool, four: bool, mid: bool, p: int) -> int {
    palette_value(
        four,
        mid,
        grid_value(six, p / grid_size(six)),
        grid_value(six, p % grid_size(six)),
    )
}

/// The distance between two values.
pub open spec fn distance(a: int, b: int) -> int {
    if a >= b {
        a - b
    } else {
        b - a
    }
}

/// Whether `candidate` is to be taken over `best` as an approximation of
/// `target`: it is nearer, or as near and smaller.
pub open spec fn improves(target: int, candidate: int, best: int) -> bool {
    distance(target, candidate) < distance(target, best) || (distance(target, candidate)
        == distance(target, best) && candidate < best)
}

/// The number of the best among the first `n` pairs: its palette value is
/// nearest to `target`, of two equally near values the smaller, and of
/// several pairs with that value it is the first.
pub open spec fn best_pair(six: bool, four: bool, mid: bool, target: int, n: int) -> int
    decreases n,
{
    if n <= 1 {
        0
    } else {
        let rest = best_pair(six, four, mid, target, n - 1);
        if improves(target, pair_value(six, four, mid, n - 1), pair_value(six, four, mid, rest)) {
            n - 1
        } else {
            rest
        }
    }
}

/// The pair of grid levels that approximates a target best in one channel,
/// and how far off it is.
pub struct Source {
    pub start: u8,
    pub end: u8,
    pub error: u8,
}

/// The best source of a target among all pairs of a grid.
#[verifier::opaque]
pub open spec fn best_source(six: bool, four: bool, mid: bool, target: u8) -> Source {
    let n = grid_size(six);
    let p = best_pair(six, four, mid, target as int, n * n);
    Source {
        start: (p / n) as u8,
        end: (p % n) as u8,
        error: distance(target as int, pair_value(six, four, mid, p)) as u8,
    }
}

/// The best pair is one of the pairs looked at.
pub proof fn lemma_best_pair_in_range(six: bool, four: bool, mid: bool, target: int, n: int)
    ensures
        0 <= best_pair(six, four, mid, target, n),
        n >= 1 ==> best_pair(six, four, mid, target, n) < n,
    decreases n,
{
    if n > 1 {
        lemma_best_pair_in_range(six, four, mid, target, n - 1);
    }
}

/// Widens a grid level to its eight-bit value.
fn grid_level(six: bool, v: u32) -> (value: u32)
    requires
        v < 4096,
    ensures
        value == grid_value(six, v as int),
        value <= 8 * v + v / 4,
{
    if six {
        4 * v + v / 16
    } else {
        8 * v + v / 4
    }
}

/// Computes the palette value of a pair of grid levels.
fn pair_code(six: bool, four: bool, mid: bool, p: u32) -> (value: u32)
    requires
        p < 4096,
    ensures
        value == pair_value(six, four, mid, p as int),
        value < 65536,
{
    let n: u32 = if six {
        64
    } else {
        32
    };
    let a: u32 = grid_level(six, p / n);
    let b: u32 = grid_level(six, p % n);
    if !mid {
        a
    } else if four {
        (2 * a + b) / 3
    } else {
        (a + b) / 2
    }
}

/// The distance between two values.
fn gap(a: u32, b: u32) -> (d: u32)
    ensures
        d == distance(a as int, b as int),
{
    if a >= b {
        a - b
    } else {
        b - a
    }
}

/// The values of a grid lie within a byte.
pub proof fn lemma_pair_value_is_byte(six: bool, four: bool, mid: bool, p: int)
    requires
        0 <= p < grid_size(six) * grid_size(six),
    ensures
        0 <= pair_value(six, four, mid, p) <= 255,
        0 <= p / grid_size(six) < grid_size(six),
        0 <= p % grid_size(six) < grid_size(six),
{
}

/// Finds the pair of grid levels whose palette value approximates `target`
/// best.
pub fn find_source(six: bool, four: bool, mid: bool, target: u8) -> (source: Source)
    ensures
        source == best_source(six, four, mid, target),
        source.start < grid_size(six),
        source.end < grid_size(six),
        source.error == distance(
            target as int,
            palette_value(
                four,
                mid,
                grid_value(six, source.start as int),
                grid_value(six, source.end as int),
            ),
        ),
{
    let n: u32 = if six {
        64
    } else {
        32
    };
    let total: u32 = if six {
        4096
    } else {
        1024
    };
    let goal: u32 = target as u32;
    let mut best: u32 = 0;
    let mut best_value: u32 = pair_code(six, four, mid, 0);
    let mut p: u32 = 1;
    while p < total
        invariant
            1 <= p <= total,
            total == grid_size(six) * grid_size(six),
            n == grid_size(six),
            goal == target,
            best == best_pair(six, four, mid, target as int, p as int),
            best < p,
            best_value == pair_value(six, four, mid, best as int),
        decreases total - p,
    {
        let value: u32 = pair_code(six, four, mid, p);
        let d: u32 = gap(goal, value);
        let e: u32 = gap(goal, best_value);
        if d < e || (d == e && value < best_value) {
            best = p;
            best_value = value;
        }
        p += 1;
    }
    proof {
        reveal(best_source);
        lemma_pair_value_is_byte(six, four, mid, best as int);
    }
    Source { start: (best / n) as u8, end: (best % n) as u8, error: gap(goal, best_value) as u8 }
}

/// The squared error that the best source leaves in one channel.
pub open spec fn channel_error(six: bool, four: bool, mid: bool, target: u8) -> int {
    let e = best_source(six, four, mid, target).error as int;
    e * e
}

/// The squared error that the best sources leave over the three channels of
/// a colour, all three taken at the endpoint or all three at the interpolated
/// value.
pub open spec fn single_error(four: bool, mid: bool, c: (u8, u8, u8)) -> int {
    channel_error(false, four, mid, c.0) + channel_error(true, four, mid, c.1) + channel_error(
        false,
        four,
        mid,
        c.2,
    )
}

/// Whether a single colour is better met by the interpolated value than by
/// an endpoint.
pub open spec fn single_mid(four: bool, c: (u8, u8, u8)) -> bool {
    single_error(four, true, c) < single_error(four, false, c)
}

/// The error of the best fit of a single colour.
pub open spec fn single_best_error(four: bool, c: (u8, u8, u8)) -> int {
    single_error(four, single_mid(four, c), c)
}

/// The first endpoint of the best fit of a single colour.
pub open spec fn single_start(four: bool, c: (u8, u8, u8)) -> Colour565 {
    let mid = single_mid(four, c);
    Colour565 {
        r: best_source(false, four, mid, c.0).start,
        g: best_source(true, four, mid, c.1).start,
        b: best_source(false, four, mid, c.2).start,
    }
}

/// The second endpoint of the best fit of a single colour.
pub open spec fn single_end(four: bool, c: (u8, u8, u8)) -> Colour565 {
    let mid = single_mid(four, c);
    Colour565 {
        r: best_source(false, four, mid, c.0).end,
        g: best_source(true, four, mid, c.1).end,
        b: best_source(false, four, mid, c.2).end,
    }
}

/// The palette index of the best fit of a single colour: 0 for the first
/// endpoint, 2 for the interpolated value.
pub open spec fn single_index(four: bool, c: (u8, u8, u8)) -> u8 {
    if single_mid(four, c) {
        2
    } else {
        0
    }
}

/// The colour block of a fit: its per-point indices are spread over the
/// texels and written with its endpoints for the palette it was made for.
pub open spec fn fitted_block(
    set: ColourSetView,
    three: bool,
    start: Colour565,
    end: Colour565,
    indices: Seq<u8>,
) -> Seq<u8> {
    if three {
        three_block_bytes(start, end, remapped(set.remap, indices))
    } else {
        four_block_bytes(start, end, remapped(set.remap, indices))
    }
}

/// The colour block of the best fit of the first colour of a set with one
/// palette.
pub open spec fn single_block(set: ColourSetView, four: bool) -> Seq<u8> {
    let c = set.points[0];
    fitted_block(
        set,
        !four,
        single_start(four, c),
        single_end(four, c),
        Seq::new(16, |i: int| single_index(four, c)),
    )
}

/// Whether the block of a single colour is written with the three-point
/// palette: only in BC1, and there unless the block is opaque and the
/// four-point palette leaves a smaller error.
pub open spec fn single_three(set: ColourSetView, is_bc1: bool) -> bool {
    is_bc1 && (set.transparent || single_best_error(false, set.points[0]) <= single_best_error(
        true,
        set.points[0],
    ))
}

/// The colour block written for a set of a single colour.
pub open spec fn single_colour_block(set: ColourSetView, is_bc1: bool) -> Seq<u8> {
    single_block(set, !single_three(set, is_bc1))
}

/// Copies an eight-byte block.
fn copy_block(source: &[u8; 8], block: &mut [u8])
    requires
        old(block)@.len() == 8,
    ensures
        final(block)@ == source@,
{
    let mut i: usize = 0;
    while i < 8
        invariant
            i <= 8,
            block@.len() == 8,
            forall|k: int| 0 <= k < i ==> block@[k] == source@[k],
        decreases 8 - i,
    {
        block[i] = source[i];
        i += 1;
    }
    assert(block@ =~= source@);
}

/// The fitter of a block of one colour: for each channel it takes the pair of
/// grid levels whose palette holds the value nearest to the colour.
pub struct SingleColourFit<'a> {
    colourset: &'a ColourSet,
    format: Format,
    start: Colour565,
    end: Colour565,
    index: u8,
    error: u32,
    best_error: u32,
    best_compressed: [u8; 8],
}

impl<'a> SingleColourFit<'a> {
    /// The point set that is fitted.
    pub closed spec fn set(&self) -> ColourSetView {
        self.colourset@
    }

    /// Whether the block is fitted for BC1.
    pub closed spec fn bc1(&self) -> bool {
        self.format == Format::Bc1
    }

    /// The error of the best block so far.
    pub closed spec fn best_error(&self) -> int {
        self.best_error as int
    }

    /// The best block so far.
    pub closed spec fn best_block(&self) -> Seq<u8> {
        self.best_compressed@
    }

    /// Whether there is a colour to fit.
    pub closed spec fn wf(&self) -> bool {
        self.colourset.wf() && self.colourset@.points.len() >= 1
    }

    /// A fitter for the first colour of a set, with no block yet.
    pub fn new(colourset: &'a ColourSet, format: Format) -> (fit: Self)
        requires
            colourset.wf(),
            colourset@.points.len() >= 1,
        ensures
            fit.wf(),
            fit.set() == colourset@,
            fit.bc1() == (format == Format::Bc1),
            fit.best_error() == u32::MAX,
    {
        SingleColourFit {
            colourset,
            format,
            start: Colour565::new(0, 0, 0),
            end: Colour565::new(0, 0, 0),
            index: 0,
            error: u32::MAX,
            best_error: u32::MAX,
            best_compressed: [0u8; 8],
        }
    }

    /// Finds the best source of each channel and the squared error that
    /// the three leave together.
    fn source_error(four: bool, mid: bool, colour: [u8; 3]) -> (r: (Source, Source, Source, u32))
        ensures
            r.0 == best_source(false, four, mid, colour[0]),
            r.1 == best_source(true, four, mid, colour[1]),
            r.2 == best_source(false, four, mid, colour[2]),
            r.3 == single_error(four, mid, (colour[0], colour[1], colour[2])),
            r.3 <= 195075,
    {
        let red = find_source(false, four, mid, colour[0]);
        let green = find_source(true, four, mid, colour[1]);
        let blue = find_source(false, four, mid, colour[2]);
        let x: u32 = red.error as u32;
        let y: u32 = green.error as u32;
        let z: u32 = blue.error as u32;
        assert(x * x <= 65025 && y * y <= 65025 && z * z <= 65025) by (nonlinear_arith)
            requires
                x <= 255,
                y <= 255,
                z <= 255,
        ;
        let error: u32 = x * x + y * y + z * z;
        (red, green, blue, error)
    }

    /// Finds the endpoints and the index of the best fit with one palette.
    fn compute_endpoints(&mut self, four: bool)
        requires
            old(self).wf(),
        ensures
            final(self).wf(),
            final(self).colourset == old(self).colourset,
            final(self).format == old(self).format,
            final(self).best_error == old(self).best_error,
            final(self).best_compressed == old(self).best_compressed,
            final(self).start == single_start(four, old(self).set().points[0]),
            final(self).end == single_end(four, old(self).set().points[0]),
            final(self).index == single_index(four, old(self).set().points[0]),
            final(self).error == single_best_error(four, old(self).set().points[0]),
            final(self).error <= 195075,
    {
        let colour: [u8; 3] = self.colourset.points()[0];
        let at_end = Self::source_error(four, false, colour);
        let at_mid = Self::source_error(four, true, colour);
        if at_mid.3 < at_end.3 {
            self.start = Colour565 { r: at_mid.0.start, g: at_mid.1.start, b: at_mid.2.start };
            self.end = Colour565 { r: at_mid.0.end, g: at_mid.1.end, b: at_mid.2.end };
            self.index = 2;
            self.error = at_mid.3;
        } else {
            self.start = Colour565 { r: at_end.0.start, g: at_end.1.start, b: at_end.2.start };
            self.end = Colour565 { r: at_end.0.end, g: at_end.1.end, b: at_end.2.end };
            self.index = 0;
            self.error = at_end.3;
        }
    }

    /// Whether the block is fitted for BC1.
    pub fn is_bc1(&self) -> (b: bool)
        ensures
            b == self.bc1(),
    {
        self.format == Format::Bc1
    }

    /// Whether the point set left a texel out as transparent.
    pub fn is_transparent(&self) -> (t: bool)
        ensures
            t == self.set().transparent,
    {
        self.colourset.is_transparent()
    }

    /// The best block so far.
    pub fn best_compressed(&self) -> (block: &[u8])
        ensures
            block@ == self.best_block(),
    {
        self.best_compressed.as_slice()
    }

    /// Fits the colour with one palette and keeps the block if it is better
    /// than the best so far.
    fn try_palette(&mut self, four: bool)
        requires
            old(self).wf(),
        ensures
            final(self).wf(),
            final(self).set() == old(self).set(),
            final(self).bc1() == old(self).bc1(),
            0 <= single_best_error(four, old(self).set().points[0]) <= 195075,
            single_best_error(four, old(self).set().points[0]) < old(self).best_error() ==> {
                &&& final(self).best_error() == single_best_error(four, old(self).set().points[0])
                &&& final(self).best_block() == single_block(old(self).set(), four)
            },
            single_best_error(four, old(self).set().points[0]) >= old(self).best_error() ==> {
                &&& final(self).best_error() == old(self).best_error()
                &&& final(self).best_block() == old(self).best_block()
            },
    {
        self.compute_endpoints(four);
        if self.error < self.best_error {
            let source: [u8; 16] = [self.index; 16];
            let mut indices: [u8; 16] = [0u8; 16];
            self.colourset.remap_indices(&source, &mut indices);
            assert(source@ =~= Seq::new(16, |i: int| self.index));
            let start = self.start;
            let end = self.end;
            if four {
                write4(&start, &end, &indices, &mut self.best_compressed);
            } else {
                write3(&start, &end, &indices, &mut self.best_compressed);
            }
            self.best_error = self.error;
        }
    }

    /// Fits the colour with the three-point palette and keeps the block if
    /// it is better than the best so far.
    pub fn compress3(&mut self)
        requires
            old(self).wf(),
        ensures
            final(self).wf(),
            final(self).set() == old(self).set(),
            final(self).bc1() == old(self).bc1(),
            0 <= single_best_error(false, old(self).set().points[0]) <= 195075,
            single_best_error(false, old(self).set().points[0]) < old(self).best_error() ==> {
                &&& final(self).best_error() == single_best_error(false, old(self).set().points[0])
                &&& final(self).best_block() == single_block(old(self).set(), false)
            },
            single_best_error(false, old(self).set().points[0]) >= old(self).best_error() ==> {
                &&& final(self).best_error() == old(self).best_error()
                &&& final(self).best_block() == old(self).best_block()
            },
    {
        self.try_palette(false);
    }

    /// Fits the colour with the four-point palette and keeps the block if it
    /// is better than the best so far.
    pub fn compress4(&mut self)
        requires
            old(self).wf(),
        ensures
            final(self).wf(),
            final(self).set() == old(self).set(),
            final(self).bc1() == old(self).bc1(),
            0 <= single_best_error(true, old(self).set().points[0]) <= 195075,
            single_best_error(true, old(self).set().points[0]) < old(self).best_error() ==> {
                &&& final(self).best_error() == single_best_error(true, old(self).set().points[0])
                &&& final(self).best_block() == single_block(old(self).set(), true)
            },
            single_best_error(true, old(self).set().points[0]) >= old(self).best_error() ==> {
                &&& final(self).best_error() == old(self).best_error()
                &&& final(self).best_block() == old(self).best_block()
            },
    {
        self.try_palette(true);
    }

    /// Fits the colour with each palette that the format and the block
    /// allow, the three-point palette first, and writes the best block. On a
    /// new fitter that is the block of the best fit of the colour.
    pub fn compress(&mut self, block: &mut [u8])
        requires
            old(self).wf(),
            old(block)@.len() == 8,
        ensures
            final(self).wf(),
            final(self).set() == old(self).set(),
            final(self).bc1() == old(self).bc1(),
            final(block)@ == final(self).best_block(),
            old(self).best_error() == u32::MAX ==> final(block)@ == single_colour_block(
                old(self).set(),
                old(self).bc1(),
            ),
    {
        if self.is_bc1() {
            self.compress3();
            if !self.is_transparent() {
                self.compress4();
            }
        } else {
            self.compress4();
        }
        copy_block(&self.best_compressed, block);
    }
}

/// The palettes that a fit may choose from.
#[derive(Clone, Copy, Debug, PartialEq, Eq, Structural)]
pub enum Palettes {
    /// Only the three-point palette, whose fourth entry is transparent.
    Three,
    /// Only the four-point palette.
    Four,
    /// Whichever of the two leaves the smaller error.
    Either,
}

/// What an endpoint search hands over: the palette it chose, two endpoints on
/// the grid, and a palette index for each point of the set.
#[derive(Clone, Copy, Debug)]
pub struct Fit {
    /// Whether the fit was made for the three-point palette.
    pub three: bool,
    /// The first endpoint.
    pub start: Colour565,
    /// The second endpoint.
    pub end: Colour565,
    /// The palette index of each point; those beyond the set's count are
    /// not read.
    pub indices: [u8; 16],
}

/// The palettes open to a block: BC1 alone has the three-point palette, and
/// must take it where a texel is transparent.
pub open spec fn palettes_for(is_bc1: bool, transparent: bool) -> Palettes {
    if !is_bc1 {
        Palettes::Four
    } else if transparent {
        Palettes::Three
    } else {
        Palettes::Either
    }
}

/// Whether a fit is written with the three-point palette: its own choice
/// counts only where both palettes were open.
pub open spec fn uses_three(palettes: Palettes, chosen: bool) -> bool {
    match palettes {
        Palettes::Three => true,
        Palettes::Four => false,
        Palettes::Either => chosen,
    }
}

/// Writes the colour block of a fit.
pub fn write_fit(colours: &ColourSet, palettes: Palettes, fit: &Fit, block: &mut [u8])
    requires
        colours.wf(),
        old(block)@.len() == 8,
    ensures
        final(block)@ == fitted_block(
            colours@,
            uses_three(palettes, fit.three),
            fit.start,
            fit.end,
            fit.indices@,
        ),
{
    let mut indices: [u8; 16] = [0u8; 16];
    colours.remap_indices(&fit.indices, &mut indices);
    let three: bool = match palettes {
        Palettes::Three => true,
        Palettes::Four => false,
        Palettes::Either => fit.three,
    };
    if three {
        write3(&fit.start, &fit.end, &indices, block);
    } else {
        write4(&fit.start, &fit.end, &indices, block);
    }
}

/// The most orderings that an iterated cluster fit goes through.
pub const MAX_ITERATIONS: usize = 8;

/// Whether point `p` stands in an ordering at a position from `from` up to,
/// but not including, `to`.
pub open spec fn occurs(order: Seq<u8>, from: int, to: int, p: int) -> bool {
    exists|m: int| from <= m < to && #[trigger] order[m] == p
}

/// The palette index of point `p` under a partition of an ordering into
/// three clusters: positions before `i` take the first endpoint (index 0),
/// those from `i` before `j` the value between (index 2), those from `j` on
/// the second endpoint (index 1).
pub open spec fn cluster_index3(order: Seq<u8>, count: int, i: int, j: int, p: int) -> u8 {
    if occurs(order, j, count, p) {
        1
    } else if occurs(order, i, j, p) {
        2
    } else {
        0
    }
}

/// The palette index of point `p` under a partition of an ordering into four
/// clusters: positions before `i` take the first endpoint (index 0), those
/// from `i` before `j` the value next to it (index 2), those from `j` before
/// `k` the value next to the second endpoint (index 3), those from `k` on the
/// second endpoint (index 1).
pub open spec fn cluster_index4(order: Seq<u8>, count: int, i: int, j: int, k: int, p: int) -> u8 {
    if occurs(order, k, count, p) {
        1
    } else if occurs(order, j, count, p) {
        3
    } else if occurs(order, i, j, p) {
        2
    } else {
        0
    }
}

/// Gives `index` to every point that stands in the ordering at a position
/// from `from` up to, but not including, `to`.
fn mark(order: &[u8; 16], from: usize, to: usize, index: u8, indices: &mut [u8; 16])
    requires
        to <= 16,
        forall|m: int| from <= m < to ==> order@[m] < 16,
    ensures
        forall|p: int|
            0 <= p < 16 ==> final(indices)@[p] == if occurs(order@, from as int, to as int, p) {
                index
            } else {
                old(indices)@[p]
            },
{
    if from >= to {
        return;
    }
    let mut m: usize = from;
    while m < to
        invariant
            from <= m <= to <= 16,
            forall|m: int| from <= m < to ==> order@[m] < 16,
            forall|p: int|
                0 <= p < 16 ==> indices@[p] == if occurs(order@, from as int, m as int, p) {
                    index
                } else {
                    old(indices)@[p]
                },
        decreases to - m,
    {
        let ghost before = indices@;
        indices[order[m] as usize] = index;
        assert forall|p: int| 0 <= p < 16 implies indices@[p] == if occurs(
            order@,
            from as int,
            m + 1,
            p,
        ) {
            index
        } else {
            old(indices)@[p]
        } by {
            if order@[m as int] == p {
                assert(occurs(order@, from as int, m + 1, p));
            } else if occurs(order@, from as int, m as int, p) {
                let w = choose|w: int| from <= w < m && #[trigger] order@[w] == p;
                assert(occurs(order@, from as int, m + 1, p));
            } else {
                if occurs(order@, from as int, m + 1, p) {
                    let w = choose|w: int| from <= w < m + 1 && #[trigger] order@[w] == p;
                    assert(w < m);
                }
            }
        }
        m += 1;
    }
}

/// The palette index of each point under a partition of an ordering into
/// three clusters.
pub fn cluster_indices3(order: &[u8; 16], count: usize, i: usize, j: usize) -> (indices: [u8; 16])
    requires
        j <= count <= 16,
        forall|m: int| 0 <= m < count ==> order@[m] < 16,
    ensures
        forall|p: int|
            0 <= p < 16 ==> indices@[p] == cluster_index3(
                order@,
                count as int,
                i as int,
                j as int,
                p,
            ),
{
    let mut indices: [u8; 16] = [0u8; 16];
    mark(order, i, j, 2, &mut indices);
    mark(order, j, count, 1, &mut indices);
    indices
}

/// The palette index of each point under a partition of an ordering into
/// four clusters.
pub fn cluster_indices4(order: &[u8; 16], count: usize, i: usize, j: usize, k: usize) -> (indices:
    [u8; 16])
    requires
        j <= count <= 16,
        forall|m: int| 0 <= m < count ==> order@[m] < 16,
    ensures
        forall|p: int|
            0 <= p < 16 ==> indices@[p] == cluster_index4(
                order@,
                count as int,
                i as int,
                j as int,
                k as int,
                p,
            ),
{
    let mut indices: [u8; 16] = [0u8; 16];
    mark(order, i, j, 2, &mut indices);
    mark(order, j, count, 3, &mut indices);
    mark(order, k, count, 1, &mut indices);
    indices
}

/// Whether the ordering of iteration `iteration` is that of an earlier one.
pub fn ordering_seen(orders: &[[u8; 16]; 8], iteration: usize) -> (seen: bool)
    requires
        iteration < 8,
    ensures
        seen == exists|e: int| 0 <= e < iteration && #[trigger] orders@[e]@ == orders@[iteration as int]@,
{
    let mut e: usize = 0;
    while e < iteration
        invariant
            e <= iteration < 8,
            forall|d: int| 0 <= d < e ==> #[trigger] orders@[d]@ != orders@[iteration as int]@,
        decreases iteration - e,
    {
        let mut same: bool = true;
        let mut j: usize = 0;
        while j < 16
            invariant
                j <= 16,
                e < iteration < 8,
                same == (forall|m: int|
                    0 <= m < j ==> orders@[e as int]@[m] == orders@[iteration as int]@[m]),
            decreases 16 - j,
        {
            if orders[iteration][j] != orders[e][j] {
                same = false;
            }
            j += 1;
        }
        if same {
            assert(orders@[e as int]@ =~= orders@[iteration as int]@);
            return true;
        }
        e += 1;
    }
    false
}

} // verus!
