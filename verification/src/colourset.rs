//! The point set of a block: its distinct colours, each with the weight of
//! the texels that share it.

use crate::alpha::{agree_where_enabled, texel_enabled};
use crate::format::Format;
use vstd::prelude::*;

verus! {

/// What a point set holds, as plain values.
pub struct ColourSetView {
    /// The distinct colours, in the order in which the block first shows them.
    pub points: Seq<(u8, u8, u8)>,
    /// For each point the sum over its texels of 1 or, where colour is
    /// weighed by alpha, of `alpha + 1`.
    pub weights: Seq<nat>,
    /// For each of the sixteen texels the index of its point, or -1 where the
    /// texel takes no part.
    pub remap: Seq<int>,
    /// Whether an enabled texel was left out as transparent.
    pub transparent: bool,
}

/// The set before any texel is seen.
pub open spec fn empty_set() -> ColourSetView {
    ColourSetView {
        points: Seq::empty(),
        weights: Seq::empty(),
        remap: Seq::empty(),
        transparent: false,
    }
}

/// The index of the first of the first `n` points that equals `c`, or -1.
pub open spec fn position(points: Seq<(u8, u8, u8)>, c: (u8, u8, u8), n: int) -> int
    decreases n,
{
    if n <= 0 {
        -1
    } else {
        let before = position(points, c, n - 1);
        if before >= 0 {
            before
        } else if points[n - 1] == c {
            n - 1
        } else {
            -1
        }
    }
}

/// The set after one more texel. A texel that is masked out, or that BC1
/// reads as transparent (alpha below 128), gets no point. Any other joins the
/// point of its colour, adding its weight, or founds a new one.
pub open spec fn add_texel(
    set: ColourSetView,
    texel: [u8; 4],
    enabled: bool,
    is_bc1: bool,
    alpha_weighted: bool,
) -> ColourSetView {
    if !enabled {
        ColourSetView {
            points: set.points,
            weights: set.weights,
            remap: set.remap.push(-1),
            transparent: set.transparent,
        }
    } else if is_bc1 && texel[3] < 128 {
        ColourSetView {
            points: set.points,
            weights: set.weights,
            remap: set.remap.push(-1),
            transparent: true,
        }
    } else {
        let c = (texel[0], texel[1], texel[2]);
        let w: nat = if alpha_weighted {
            (texel[3] + 1) as nat
        } else {
            1
        };
        let k = position(set.points, c, set.points.len() as int);
        if k >= 0 {
            ColourSetView {
                points: set.points,
                weights: set.weights.update(k, set.weights[k] + w),
                remap: set.remap.push(k),
                transparent: set.transparent,
            }
        } else {
            ColourSetView {
                points: set.points.push(c),
                weights: set.weights.push(w),
                remap: set.remap.push(set.points.len() as int),
                transparent: set.transparent,
            }
        }
    }
}

/// The point set of the first `n` texels of a block.
pub open spec fn colour_set(
    rgba: [[u8; 4]; 16],
    mask: u32,
    is_bc1: bool,
    alpha_weighted: bool,
    n: int,
) -> ColourSetView
    decreases n,
{
    if n <= 0 {
        empty_set()
    } else {
        add_texel(
            colour_set(rgba, mask, is_bc1, alpha_weighted, n - 1),
            rgba[n - 1],
            texel_enabled(mask, n - 1),
            is_bc1,
            alpha_weighted,
        )
    }
}

/// Per-point palette indices spread over the sixteen texels: a texel without
/// a point gets index 3.
pub open spec fn remapped(remap: Seq<int>, source: Seq<u8>) -> Seq<u8> {
    Seq::new(
        16,
        |i: int|
            if remap[i] == -1 {
                3u8
            } else {
                source[remap[i]]
            },
    )
}

/// A found position is a valid index and holds the colour sought; where none
/// is found, no point among the first `n` has that colour.
pub proof fn lemma_position(points: Seq<(u8, u8, u8)>, c: (u8, u8, u8), n: int)
    ensures
        -1 <= position(points, c, n),
        n >= 0 ==> position(points, c, n) < n,
        position(points, c, n) >= 0 ==> points[position(points, c, n)] == c,
        position(points, c, n) == -1 ==> forall|k: int| 0 <= k < n ==> points[k] != c,
        forall|k: int| 0 <= k < position(points, c, n) ==> points[k] != c,
    decreases n,
{
    if n > 0 {
        lemma_position(points, c, n - 1);
    }
}

/// A position once found stays as more points are looked at.
pub proof fn lemma_position_stable(points: Seq<(u8, u8, u8)>, c: (u8, u8, u8), m: int, n: int)
    requires
        0 <= m <= n,
        position(points, c, m) >= 0,
    ensures
        position(points, c, n) == position(points, c, m),
    decreases n,
{
    if n > m {
        lemma_position_stable(points, c, m, n - 1);
    }
}

/// The distinct colours of a block with their weights, and the way back from
/// each texel to its colour.
pub struct ColourSet {
    count: usize,
    points: [[u8; 3]; 16],
    weights: [u32; 16],
    remap: [i8; 16],
    transparent: bool,
    alpha_weighted: bool,
}

impl ColourSet {
    /// The set as plain values, with the way back known for the first `n`
    /// texels.
    pub closed spec fn view_upto(&self, n: int) -> ColourSetView {
        ColourSetView {
            points: Seq::new(
                self.count as nat,
                |k: int| (self.points[k][0], self.points[k][1], self.points[k][2]),
            ),
            weights: Seq::new(self.count as nat, |k: int| self.weights[k] as nat),
            remap: Seq::new(n as nat, |i: int| self.remap[i] as int),
            transparent: self.transparent,
        }
    }

    /// The set as plain values.
    pub closed spec fn view(&self) -> ColourSetView {
        self.view_upto(16)
    }

    /// Whether the weights of this set are sums of `alpha + 1`, to be read in
    /// units of 1/256, rather than counts of texels.
    pub closed spec fn alpha_weighted(&self) -> bool {
        self.alpha_weighted
    }

    /// Whether the set is consistent: at most sixteen points, a weight for
    /// each, and every texel mapped to one of them or to none.
    pub open spec fn wf(&self) -> bool {
        &&& self@.points.len() <= 16
        &&& self@.weights.len() == self@.points.len()
        &&& self@.remap.len() == 16
        &&& forall|i: int| 0 <= i < 16 ==> -1 <= #[trigger] self@.remap[i] < self@.points.len()
        &&& forall|k: int| 0 <= k < self@.weights.len() ==> 1 <= #[trigger] self@.weights[k] <= 4096
    }

    /// Builds the point set of a block from the texels that the mask enables.
    pub fn new(rgba: &[[u8; 4]; 16], mask: u32, format: Format, alpha_weighted: bool) -> (set:
        ColourSet)
        ensures
            set.wf(),
            set@ == colour_set(*rgba, mask, format == Format::Bc1, alpha_weighted, 16),
            set.alpha_weighted() == alpha_weighted,
    {
        let is_bc1: bool = format == Format::Bc1;
        let mut set = ColourSet {
            count: 0,
            points: [[0u8; 3]; 16],
            weights: [0u32; 16],
            remap: [0i8; 16],
            transparent: false,
            alpha_weighted,
        };
        assert(set.view_upto(0) =~= empty_set()) by {
            assert(set.view_upto(0).points =~= Seq::empty());
            assert(set.view_upto(0).weights =~= Seq::empty());
            assert(set.view_upto(0).remap =~= Seq::empty());
        }
        let mut i: usize = 0;
        while i < 16
            invariant
                i <= 16,
                set.count <= i,
                set.alpha_weighted == alpha_weighted,
                is_bc1 == (format == Format::Bc1),
                set.view_upto(i as int) == colour_set(*rgba, mask, is_bc1, alpha_weighted, i as int),
                forall|k: int| 0 <= k < i ==> -1 <= #[trigger] set.remap@[k] < set.count,
                forall|k: int| 0 <= k < set.count ==> 1 <= #[trigger] set.weights@[k] <= 256 * i,
            decreases 16 - i,
        {
            let ghost before = set.view_upto(i as int);
            let ghost points_before = before.points;
            let bit: u32 = 1u32 << (i as u32);
            if (mask & bit) == 0 {
                set.remap[i] = -1;
            } else if is_bc1 && rgba[i][3] < 128 {
                set.remap[i] = -1;
                set.transparent = true;
            } else {
                let r: u8 = rgba[i][0];
                let g: u8 = rgba[i][1];
                let b: u8 = rgba[i][2];
                let w: u32 = if alpha_weighted {
                    rgba[i][3] as u32 + 1
                } else {
                    1
                };
                let mut k: usize = 0;
                while k < set.count && !(set.points[k][0] == r && set.points[k][1] == g
                    && set.points[k][2] == b)
                    invariant
                        k <= set.count <= i < 16,
                        points_before == set.view_upto(i as int).points,
                        position(points_before, (r, g, b), k as int) == -1,
                    decreases set.count - k,
                {
                    k += 1;
                }
                proof {
                    if k < set.count {
                        assert(points_before[k as int] == (r, g, b));
                        assert(position(points_before, (r, g, b), k + 1) == k);
                        lemma_position_stable(points_before, (r, g, b), k + 1, set.count as int);
                    }
                }
                if k < set.count {
                    set.weights[k] = set.weights[k] + w;
                    set.remap[i] = k as i8;
                } else {
                    set.points[k] = [r, g, b];
                    set.weights[k] = w;
                    set.remap[i] = k as i8;
                    set.count = k + 1;
                }
            }
            proof {
                let after = set.view_upto(i + 1);
                let want = add_texel(
                    before,
                    rgba[i as int],
                    texel_enabled(mask, i as int),
                    is_bc1,
                    alpha_weighted,
                );
                assert(after.points =~= want.points);
                assert(after.weights =~= want.weights);
                assert(after.remap =~= want.remap);
                assert(after.transparent == want.transparent);
            }
            i += 1;
        }
        set
    }

    /// Whether an enabled texel was left out as transparent.
    pub fn is_transparent(&self) -> (t: bool)
        ensures
            t == self@.transparent,
    {
        self.transparent
    }

    /// The number of distinct colours.
    pub fn count(&self) -> (n: usize)
        ensures
            n == self@.points.len(),
    {
        self.count
    }

    /// The colours of the points, each as red, green and blue.
    pub fn points(&self) -> (points: &[[u8; 3]])
        requires
            self.wf(),
        ensures
            points@.len() == self@.points.len(),
            forall|k: int|
                0 <= k < points@.len() ==> (points@[k][0], points@[k][1], points@[k][2])
                    == #[trigger] self@.points[k],
    {
        let all: &[[u8; 3]] = self.points.as_slice();
        let (points, _) = all.split_at(self.count);
        points
    }

    /// The weights of the points before the square root is taken: counts of
    /// texels, or sums of `alpha + 1` in units of 1/256.
    pub fn weights(&self) -> (weights: &[u32])
        requires
            self.wf(),
        ensures
            weights@.len() == self@.points.len(),
            forall|k: int| 0 <= k < weights@.len() ==> weights@[k] == #[trigger] self@.weights[k],
    {
        let all: &[u32] = self.weights.as_slice();
        let (weights, _) = all.split_at(self.count);
        weights
    }

    /// The unit of the weights: 256 where colour is weighed by alpha, else 1.
    pub fn weight_scale(&self) -> (s: u32)
        ensures
            s == if self.alpha_weighted() { 256u32 } else { 1u32 },
    {
        if self.alpha_weighted {
            256
        } else {
            1
        }
    }

    /// Spreads per-point palette indices over the sixteen texels.
    pub fn remap_indices(&self, source: &[u8; 16], target: &mut [u8; 16])
        requires
            self.wf(),
        ensures
            final(target)@ == remapped(self@.remap, source@),
    {
        let mut i: usize = 0;
        while i < 16
            invariant
                i <= 16,
                self.wf(),
                forall|k: int| 0 <= k < i ==> target@[k] == remapped(self@.remap, source@)[k],
            decreases 16 - i,
        {
            let j: i8 = self.remap[i];
            assert(j == self@.remap[i as int]);
            if j == -1 {
                target[i] = 3;
            } else {
                target[i] = source[j as usize];
            }
            i += 1;
        }
        assert(target@ =~= remapped(self@.remap, source@));
    }
}

/// Masked encoding of colour: two blocks that differ only in texels that the
/// mask leaves out have the same point set.
pub proof fn lemma_colour_set_ignores_masked(
    a: [[u8; 4]; 16],
    b: [[u8; 4]; 16],
    mask: u32,
    is_bc1: bool,
    alpha_weighted: bool,
    n: int,
)
    requires
        agree_where_enabled(a, b, mask),
        n <= 16,
    ensures
        colour_set(a, mask, is_bc1, alpha_weighted, n) == colour_set(
            b,
            mask,
            is_bc1,
            alpha_weighted,
            n,
        ),
    decreases n,
{
    if n > 0 {
        lemma_colour_set_ignores_masked(a, b, mask, is_bc1, alpha_weighted, n - 1);
    }
}

/// The point set of a block is consistent: every texel is mapped to one of
/// its points or to none, the points are distinct, and each has a weight.
pub proof fn lemma_colour_set_consistent(
    rgba: [[u8; 4]; 16],
    mask: u32,
    is_bc1: bool,
    alpha_weighted: bool,
    n: int,
)
    requires
        0 <= n <= 16,
    ensures
        ({
            let set = colour_set(rgba, mask, is_bc1, alpha_weighted, n);
            &&& set.remap.len() == n
            &&& set.points.len() <= n
            &&& set.weights.len() == set.points.len()
            &&& forall|i: int| 0 <= i < n ==> -1 <= #[trigger] set.remap[i] < set.points.len()
            &&& forall|j: int, k: int|
                0 <= j < k < set.points.len() ==> set.points[j] != set.points[k]
        }),
    decreases n,
{
    if n > 0 {
        lemma_colour_set_consistent(rgba, mask, is_bc1, alpha_weighted, n - 1);
        let before = colour_set(rgba, mask, is_bc1, alpha_weighted, n - 1);
        let texel = rgba[n - 1];
        lemma_position(before.points, (texel[0], texel[1], texel[2]), before.points.len() as int);
    }
}

} // verus!
