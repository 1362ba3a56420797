use std::cmp::Ordering;
use std::ops::{Add, AddAssign, Div, Mul, Sub};

use squish::alpha::{compress_bc2, compress_bc3};
use squish::colourblock::{pack_565, write3, write4, Colour565};
use squish::colourfit::{
    cluster_indices3, cluster_indices4, find_source, ordering_seen, write_fit, Fit, Palettes,
    SingleColourFit, MAX_ITERATIONS,
};
use squish::colourset::ColourSet;
use squish::format::gather_tile;
use squish::{Algorithm, Format, Params};

/// A vector of three floats.
#[derive(Copy, Clone, PartialEq, Debug)]
pub struct Vec3 {
    x: f32,
    y: f32,
    z: f32,
}

impl Vec3 {
    pub fn new(x: f32, y: f32, z: f32) -> Self {
        Self { x, y, z }
    }

    pub fn x(&self) -> f32 {
        self.x
    }

    pub fn y(&self) -> f32 {
        self.y
    }

    pub fn z(&self) -> f32 {
        self.z
    }

    pub fn dot(&self, other: &Vec3) -> f32 {
        self.x * other.x + self.y * other.y + self.z * other.z
    }

    pub fn length2(&self) -> f32 {
        self.x * self.x + self.y * self.y + self.z * self.z
    }

    pub fn max(&self, other: Vec3) -> Vec3 {
        Vec3::new(self.x.max(other.x), self.y.max(other.y), self.z.max(other.z))
    }

    pub fn min(&self, other: Vec3) -> Vec3 {
        Vec3::new(self.x.min(other.x), self.y.min(other.y), self.z.min(other.z))
    }

    pub fn truncate(&self) -> Vec3 {
        Vec3::new(libm::truncf(self.x), libm::truncf(self.y), libm::truncf(self.z))
    }
}

impl Add for Vec3 {
    type Output = Vec3;

    fn add(self, other: Vec3) -> Vec3 {
        Vec3::new(self.x + other.x, self.y + other.y, self.z + other.z)
    }
}

impl Sub for Vec3 {
    type Output = Vec3;

    fn sub(self, other: Vec3) -> Vec3 {
        Vec3::new(self.x - other.x, self.y - other.y, self.z - other.z)
    }
}

impl Mul for Vec3 {
    type Output = Vec3;

    fn mul(self, other: Vec3) -> Vec3 {
        Vec3::new(self.x * other.x, self.y * other.y, self.z * other.z)
    }
}

impl Mul<f32> for Vec3 {
    type Output = Vec3;

    fn mul(self, other: f32) -> Vec3 {
        Vec3::new(self.x * other, self.y * other, self.z * other)
    }
}

impl Div<f32> for Vec3 {
    type Output = Vec3;

    fn div(self, other: f32) -> Vec3 {
        Vec3::new(self.x / other, self.y / other, self.z / other)
    }
}

/// A vector of four floats.
#[derive(Copy, Clone, PartialEq, Debug)]
pub struct Vec4 {
    x: f32,
    y: f32,
    z: f32,
    w: f32,
}

impl Vec4 {
    pub fn new(x: f32, y: f32, z: f32, w: f32) -> Self {
        Self { x, y, z, w }
    }

    pub fn x(&self) -> f32 {
        self.x
    }

    pub fn y(&self) -> f32 {
        self.y
    }

    pub fn z(&self) -> f32 {
        self.z
    }

    pub fn w(&self) -> f32 {
        self.w
    }

    pub fn to_vec3(&self) -> Vec3 {
        Vec3::new(self.x, self.y, self.z)
    }

    pub fn splat_x(&self) -> Vec4 {
        Vec4::new(self.x, self.x, self.x, self.x)
    }

    pub fn splat_y(&self) -> Vec4 {
        Vec4::new(self.y, self.y, self.y, self.y)
    }

    pub fn splat_z(&self) -> Vec4 {
        Vec4::new(self.z, self.z, self.z, self.z)
    }

    pub fn splat_w(&self) -> Vec4 {
        Vec4::new(self.w, self.w, self.w, self.w)
    }

    pub fn max(&self, other: Vec4) -> Vec4 {
        Vec4::new(
            self.x.max(other.x),
            self.y.max(other.y),
            self.z.max(other.z),
            self.w.max(other.w),
        )
    }

    pub fn min(&self, other: Vec4) -> Vec4 {
        Vec4::new(
            self.x.min(other.x),
            self.y.min(other.y),
            self.z.min(other.z),
            self.w.min(other.w),
        )
    }

    pub fn reciprocal(&self) -> Vec4 {
        Vec4::new(1.0 / self.x, 1.0 / self.y, 1.0 / self.z, 1.0 / self.w)
    }

    pub fn any_less_than(&self, other: &Vec4) -> bool {
        self.x < other.x || self.y < other.y || self.z < other.z || self.w < other.w
    }

    pub fn truncate(&self) -> Vec4 {
        Vec4::new(
            libm::truncf(self.x),
            libm::truncf(self.y),
            libm::truncf(self.z),
            libm::truncf(self.w),
        )
    }
}

impl Add for Vec4 {
    type Output = Vec4;

    fn add(self, other: Vec4) -> Vec4 {
        Vec4::new(self.x + other.x, self.y + other.y, self.z + other.z, self.w + other.w)
    }
}

impl AddAssign for Vec4 {
    fn add_assign(&mut self, other: Vec4) {
        *self = *self + other;
    }
}

impl Sub for Vec4 {
    type Output = Vec4;

    fn sub(self, other: Vec4) -> Vec4 {
        Vec4::new(self.x - other.x, self.y - other.y, self.z - other.z, self.w - other.w)
    }
}

impl Mul for Vec4 {
    type Output = Vec4;

    fn mul(self, other: Vec4) -> Vec4 {
        Vec4::new(self.x * other.x, self.y * other.y, self.z * other.z, self.w * other.w)
    }
}

/// A symmetric 3x3 matrix, held as its six distinct coefficients.
pub struct Sym3x3 {
    x: [f32; 6],
}

impl Sym3x3 {
    pub fn new(s: f32) -> Self {
        Self { x: [s, s, s, s, s, s] }
    }

    /// The covariance of weighted points about their weighted centroid.
    pub fn weighted_covariance(points: &[Vec3], weights: &[f32]) -> Self {
        assert!(points.len() == weights.len());

        let mut total = 0.0f32;
        let mut centroid = Vec3::new(0.0, 0.0, 0.0);
        for (p, &w) in points.iter().zip(weights) {
            total += w;
            centroid = centroid + *p * w;
        }
        let centroid = if total > f32::EPSILON { centroid / total } else { centroid };

        let mut covariance = Sym3x3::new(0.0);
        for (p, &w) in points.iter().zip(weights) {
            let a = *p - centroid;
            let b = a * w;
            covariance.x[0] += a.x() * b.x();
            covariance.x[1] += a.x() * b.y();
            covariance.x[2] += a.x() * b.z();
            covariance.x[3] += a.y() * b.y();
            covariance.x[4] += a.y() * b.z();
            covariance.x[5] += a.z() * b.z();
        }
        covariance
    }

    /// The dominant eigenvector, by a fixed number of power iterations.
    pub fn principle_component(&self) -> Vec3 {
        const POWER_ITERATION_COUNT: usize = 8;

        let row0 = Vec4::new(self.x[0], self.x[1], self.x[2], 0.0);
        let row1 = Vec4::new(self.x[1], self.x[3], self.x[4], 0.0);
        let row2 = Vec4::new(self.x[2], self.x[4], self.x[5], 0.0);
        let mut v = Vec4::new(1.0, 1.0, 1.0, 1.0);

        for _ in 0..POWER_ITERATION_COUNT {
            let w = row0 * v.splat_x();
            let w = row1 * v.splat_y() + w;
            let w = row2 * v.splat_z() + w;

            let a = w.x().max(w.y().max(w.z()));
            let a = Vec4::new(a, a, a, a);

            v = w * a.reciprocal();
        }

        v.to_vec3()
    }
}

/// Rounds half away from zero, then clamps to `[0, limit]`.
pub fn f32_to_i32_clamped(a: f32, limit: i32) -> i32 {
    libm::roundf(a).max(0.0).min(limit as f32) as i32
}
/// RGB colour channel weights for use in block fitting.
pub type ColourWeights = [f32; 3];

/// Uniform weights for each colour channel.
pub const COLOUR_WEIGHTS_UNIFORM: ColourWeights = [1.0, 1.0, 1.0];

/// Weights based on the perceived brightness of each colour channel.
pub const COLOUR_WEIGHTS_PERCEPTUAL: ColourWeights = [0.2126, 0.7152, 0.0722];

/// The points of a set as vectors in the unit cube.
pub fn points_of(set: &ColourSet) -> Vec<Vec3> {
    let mut points = Vec::with_capacity(set.count());
    for c in set.points() {
        points.push(Vec3::new(
            f32::from(c[0]) / 255.0,
            f32::from(c[1]) / 255.0,
            f32::from(c[2]) / 255.0,
        ));
    }
    points
}

/// The weights of a set, each the square root of what its texels add up to.
pub fn weights_of(set: &ColourSet) -> Vec<f32> {
    let scale = set.weight_scale() as f32;
    let mut weights = Vec::with_capacity(set.count());
    for &w in set.weights() {
        weights.push((w as f32 / scale).sqrt());
    }
    weights
}

/// The grid colour nearest to a point of the unit cube.
pub fn to_565(colour: &Vec3) -> Colour565 {
    Colour565::new(
        f32_to_i32_clamped(31.0 * colour.x(), 31) as u8,
        f32_to_i32_clamped(63.0 * colour.y(), 63) as u8,
        f32_to_i32_clamped(31.0 * colour.z(), 31) as u8,
    )
}

/// A block fitter that tries the palettes one after the other and keeps
/// the best fit.
pub trait ColourFitImpl {
    fn compress3(&mut self);
    fn compress4(&mut self);
    fn best_fit(&self) -> Fit;
}

/// The common entry point of the fitters.
pub trait ColourFit {
    fn compress(&mut self, palettes: Palettes) -> Fit;
}

impl<T: ColourFitImpl> ColourFit for T {
    fn compress(&mut self, palettes: Palettes) -> Fit {
        match palettes {
            Palettes::Three => self.compress3(),
            Palettes::Four => self.compress4(),
            Palettes::Either => {
                self.compress3();
                self.compress4();
            }
        }
        self.best_fit()
    }
}

fn empty_fit() -> Fit {
    Fit {
        three: false,
        start: Colour565::new(0, 0, 0),
        end: Colour565::new(0, 0, 0),
        indices: [0u8; 16],
    }
}

// Floating point throughout: the endpoints are extreme projections on a principal axis found by power iteration.
pub struct RangeFit {
    points: Vec<Vec3>,
    weights: Vec3,
    start: Vec3,
    end: Vec3,
    best_error: f32,
    best: Fit,
}

impl RangeFit {
    pub fn new(colourset: &ColourSet, weights: ColourWeights) -> Self {
        let values = points_of(colourset);
        let point_weights = weights_of(colourset);
        let count = values.len();

        let covariance = Sym3x3::weighted_covariance(&values, &point_weights);
        let principle = covariance.principle_component();

        let mut start = Vec3::new(0.0, 0.0, 0.0);
        let mut end = Vec3::new(0.0, 0.0, 0.0);
        if count > 0 {
            start = values[0];
            end = start;
            let mut min = start.dot(&principle);
            let mut max = min;
            for &val in values.iter().take(count).skip(1) {
                let dot = val.dot(&principle);
                if dot < min {
                    start = val;
                    min = dot;
                } else if dot > max {
                    end = val;
                    max = dot;
                }
            }
        }

        let one = Vec3::new(1.0, 1.0, 1.0);
        let zero = Vec3::new(0.0, 0.0, 0.0);
        start = one.min(zero.max(start));
        end = one.min(zero.max(end));

        let grid = Vec3::new(31.0, 63.0, 31.0);
        let gridrcp = Vec3::new(1.0 / 31.0, 1.0 / 63.0, 1.0 / 31.0);
        let half = Vec3::new(0.5, 0.5, 0.5);
        let start = (grid * start + half).truncate() * gridrcp;
        let end = (grid * end + half).truncate() * gridrcp;

        RangeFit {
            points: values,
            weights: Vec3::new(weights[0], weights[1], weights[2]),
            start,
            end,
            best_error: f32::MAX,
            best: empty_fit(),
        }
    }

    fn compression_helper(&mut self, codes: &[Vec3], three: bool) {
        let mut closest = [0u8; 16];
        let mut error = 0f32;
        for i in 0..self.points.len() {
            let mut dist = f32::MAX;
            let mut idx = 0;
            for (j, code) in codes.iter().enumerate() {
                let d = (self.weights * (self.points[i] - *code)).length2();
                if d < dist {
                    dist = d;
                    idx = j;
                }
            }
            closest[i] = idx as u8;
            error += dist;
        }

        if error < self.best_error {
            self.best = Fit {
                three,
                start: to_565(&self.start),
                end: to_565(&self.end),
                indices: closest,
            };
            self.best_error = error;
        }
    }
}

impl ColourFitImpl for RangeFit {
    fn compress3(&mut self) {
        let codes = [self.start, self.end, self.start * 0.5 + self.end * 0.5];
        self.compression_helper(&codes, true);
    }

    fn compress4(&mut self) {
        let codes = [
            self.start,
            self.end,
            self.start * (2.0 / 3.0) + self.end * (1.0 / 3.0),
            self.start * (1.0 / 3.0) + self.end * (2.0 / 3.0),
        ];
        self.compression_helper(&codes, false);
    }

    fn best_fit(&self) -> Fit {
        self.best
    }
}

// Floating point throughout: a least-squares solve for every ordered partition of the points along an axis.
pub struct ClusterFit {
    points: Vec<Vec3>,
    point_weights: Vec<f32>,
    weights: Vec4,
    num_iterations: usize,
    principle: Vec3,
    order: [[u8; 16]; MAX_ITERATIONS],
    points_weights: [Vec4; 16],
    xsum_wsum: Vec4,
    best_error: Vec4,
    best: Fit,
}

/// The order of two projections; those that are not finite come last.
fn order_floats(a: f32, b: f32) -> Ordering {
    match (a, b) {
        (x, y) if !x.is_finite() && !y.is_finite() => Ordering::Equal,
        (x, _) if !x.is_finite() => Ordering::Greater,
        (_, y) if !y.is_finite() => Ordering::Less,
        (_, _) => a.partial_cmp(&b).unwrap(),
    }
}

fn sort_by_projection(dps: &mut [(usize, f32); 16]) {
    dps.sort_unstable_by(|a, b| order_floats(a.1, b.1));
}

impl ClusterFit {
    pub fn new(colourset: &ColourSet, weights: ColourWeights, iterate: bool) -> Self {
        let points = points_of(colourset);
        let point_weights = weights_of(colourset);
        let covariance = Sym3x3::weighted_covariance(&points, &point_weights);
        let principle = covariance.principle_component();
        ClusterFit {
            points,
            point_weights,
            weights: Vec4::new(weights[0], weights[1], weights[2], 1.0),
            num_iterations: if iterate { MAX_ITERATIONS } else { 1 },
            principle,
            order: [[0u8; 16]; MAX_ITERATIONS],
            points_weights: [Vec4::new(0.0, 0.0, 0.0, 0.0); 16],
            xsum_wsum: Vec4::new(0.0, 0.0, 0.0, 0.0),
            best_error: Vec4::new(f32::MAX, f32::MAX, f32::MAX, f32::MAX),
            best: empty_fit(),
        }
    }

    fn construct_ordering(&mut self, axis: &Vec3, iteration: usize) -> bool {
        let count = self.points.len();
        assert!(iteration < MAX_ITERATIONS);

        let mut dps = [(0usize, f32::MAX); 16];
        for i in 0..count {
            dps[i] = (i, self.points[i].dot(axis));
        }
        sort_by_projection(&mut dps);

        for (a, b) in self.order[iteration].iter_mut().zip(dps.iter()) {
            *a = b.0 as u8;
        }

        if ordering_seen(&self.order, iteration) {
            return false;
        }

        self.xsum_wsum = Vec4::new(0.0, 0.0, 0.0, 0.0);
        for i in 0..count {
            let j = self.order[iteration][i] as usize;
            let p = Vec4::new(self.points[j].x(), self.points[j].y(), self.points[j].z(), 1.0);
            let w = self.point_weights[j];
            let x = p * Vec4::new(w, w, w, w);
            self.points_weights[i] = x;
            self.xsum_wsum += x;
        }

        true
    }

    fn solve(
        &self,
        alphax_sum: Vec4,
        betax_sum: Vec4,
        alphabeta_sum: Vec4,
    ) -> (Vec4, Vec4, Vec4) {
        let two = Vec4::new(2.0, 2.0, 2.0, 2.0);
        let one = Vec4::new(1.0, 1.0, 1.0, 1.0);
        let zero = Vec4::new(0.0, 0.0, 0.0, 0.0);
        let half = Vec4::new(0.5, 0.5, 0.5, 0.5);
        let grid = Vec4::new(31.0, 63.0, 31.0, 0.0);
        let gridrcp = Vec4::new(1.0 / 31.0, 1.0 / 63.0, 1.0 / 31.0, 0.0);

        let alpha2_sum = alphax_sum.splat_w();
        let beta2_sum = betax_sum.splat_w();

        let factor = ((alpha2_sum * beta2_sum) - alphabeta_sum * alphabeta_sum).reciprocal();
        let a = ((alphax_sum * beta2_sum) - betax_sum * alphabeta_sum) * factor;
        let b = ((betax_sum * alpha2_sum) - alphax_sum * alphabeta_sum) * factor;

        let a = one.min(zero.max(a));
        let b = one.min(zero.max(b));
        let a = (grid * a + half).truncate() * gridrcp;
        let b = (grid * b + half).truncate() * gridrcp;

        let e1 = (a * a) * alpha2_sum + (b * b * beta2_sum);
        let e2 = (a * b * alphabeta_sum) - a * alphax_sum;
        let e3 = e2 - b * betax_sum;
        let e4 = two * e3 + e1;

        let e5 = e4 * self.weights;
        let error = e5.splat_x() + e5.splat_y() + e5.splat_z();
        (a, b, error)
    }
}

impl ColourFitImpl for ClusterFit {
    fn compress3(&mut self) {
        let count = self.points.len();
        let half_half2 = Vec4::new(0.5, 0.5, 0.5, 0.25);
        let zero = Vec4::new(0.0, 0.0, 0.0, 0.0);

        let mut best_start = zero;
        let mut best_end = zero;
        let mut best_error = self.best_error;
        let mut best_iteration = 0;
        let mut best_i = 0;
        let mut best_j = 0;

        let mut axis = self.principle;

        for iteration_index in 0..self.num_iterations {
            if !self.construct_ordering(&axis, iteration_index) {
                break;
            }

            let mut part0 = zero;
            for i in 0..count {
                let mut part1 = if i == 0 { self.points_weights[0] } else { zero };
                let jmin = if i == 0 { 1 } else { i };

                for j in jmin..=count {
                    let part2 = self.xsum_wsum - part1 - part0;

                    let alphax_sum = part1 * half_half2 + part0;
                    let betax_sum = part1 * half_half2 + part2;
                    let alphabeta_sum = (part1 * half_half2).splat_w();

                    let (a, b, error) = self.solve(alphax_sum, betax_sum, alphabeta_sum);

                    if error.any_less_than(&best_error) {
                        best_start = a;
                        best_end = b;
                        best_i = i;
                        best_j = j;
                        best_error = error;
                        best_iteration = iteration_index;
                    }

                    if j < count {
                        part1 += self.points_weights[j];
                    }
                }

                part0 += self.points_weights[i];
            }

            if best_iteration != iteration_index {
                break;
            }

            axis = (best_end - best_start).to_vec3();
        }

        if best_error.any_less_than(&self.best_error) {
            let order = self.order[best_iteration];
            assert!(best_j <= count && count <= 16);
            assert!(order.iter().take(count).all(|&p| p < 16));
            self.best = Fit {
                three: true,
                start: to_565(&best_start.to_vec3()),
                end: to_565(&best_end.to_vec3()),
                indices: cluster_indices3(&order, count, best_i, best_j),
            };
            self.best_error = best_error;
        }
    }

    fn compress4(&mut self) {
        let count = self.points.len();
        let onethird_onethird2 = Vec4::new(1.0 / 3.0, 1.0 / 3.0, 1.0 / 3.0, 1.0 / 9.0);
        let twothirds_twothirds2 = Vec4::new(2.0 / 3.0, 2.0 / 3.0, 2.0 / 3.0, 4.0 / 9.0);
        let twoninths = Vec4::new(2.0 / 9.0, 2.0 / 9.0, 2.0 / 9.0, 2.0 / 9.0);
        let zero = Vec4::new(0.0, 0.0, 0.0, 0.0);

        let mut best_start = zero;
        let mut best_end = zero;
        let mut best_error = self.best_error;
        let mut best_iteration = 0;
        let mut best_i = 0;
        let mut best_j = 0;
        let mut best_k = 0;

        let mut axis = self.principle;

        for iteration_index in 0..self.num_iterations {
            if !self.construct_ordering(&axis, iteration_index) {
                break;
            }

            let mut part0 = zero;
            for i in 0..count {
                let mut part1 = zero;

                for j in i..=count {
                    let mut part2 = if j == 0 { self.points_weights[0] } else { zero };
                    let kmin = if j == 0 { 1 } else { j };

                    for k in kmin..=count {
                        let part3 = self.xsum_wsum - part2 - part1 - part0;

                        let alphax_sum =
                            part2 * onethird_onethird2 + (part1 * twothirds_twothirds2 + part0);
                        let betax_sum =
                            part1 * onethird_onethird2 + (part2 * twothirds_twothirds2 + part3);
                        let alphabeta_sum = twoninths * (part1 + part2).splat_w();

                        let (a, b, error) = self.solve(alphax_sum, betax_sum, alphabeta_sum);

                        if error.any_less_than(&best_error) {
                            best_start = a;
                            best_end = b;
                            best_i = i;
                            best_j = j;
                            best_k = k;
                            best_error = error;
                            best_iteration = iteration_index;
                        }

                        if k < count {
                            part2 += self.points_weights[k];
                        }
                    }

                    if j < count {
                        part1 += self.points_weights[j];
                    }
                }

                part0 += self.points_weights[i];
            }

            if best_iteration != iteration_index {
                break;
            }

            axis = (best_end - best_start).to_vec3();
        }

        if best_error.any_less_than(&self.best_error) {
            let order = self.order[best_iteration];
            assert!(best_j <= count && count <= 16);
            assert!(order.iter().take(count).all(|&p| p < 16));
            self.best = Fit {
                three: false,
                start: to_565(&best_start.to_vec3()),
                end: to_565(&best_end.to_vec3()),
                indices: cluster_indices4(&order, count, best_i, best_j, best_k),
            };
            self.best_error = best_error;
        }
    }

    fn best_fit(&self) -> Fit {
        self.best
    }
}

/// The endpoint search that the library's encoder asks for: range fit or
/// cluster fit under the given channel weights.
pub fn fit_colours(
    colourset: &ColourSet,
    algorithm: Algorithm,
    palettes: Palettes,
    weights: ColourWeights,
) -> Fit {
    match algorithm {
        Algorithm::RangeFit => RangeFit::new(colourset, weights).compress(palettes),
        Algorithm::ClusterFit => ClusterFit::new(colourset, weights, false).compress(palettes),
        Algorithm::IterativeClusterFit => {
            ClusterFit::new(colourset, weights, true).compress(palettes)
        }
    }
}

fn search(weights: ColourWeights) -> impl Fn(&ColourSet, Algorithm, Palettes) -> Fit {
    move |set: &ColourSet, algorithm: Algorithm, palettes: Palettes| {
        fit_colours(set, algorithm, palettes, weights)
    }
}

fn params(algorithm: Algorithm) -> Params {
    Params { algorithm, weigh_colour_by_alpha: false }
}

const ALGORITHMS: [Algorithm; 3] =
    [Algorithm::ClusterFit, Algorithm::RangeFit, Algorithm::IterativeClusterFit];

fn expand_single_to_rgb(input: &[u8; 16]) -> [u8; 48] {
    let mut output = [0u8; 48];
    for i in 0..16 {
        output[i * 3] = input[i];
        output[i * 3 + 1] = input[i];
        output[i * 3 + 2] = input[i];
    }
    output
}

fn add_alpha_to_rgb(input: &[u8; 48], alpha_values: &[u8; 16]) -> [u8; 64] {
    let mut output = [0u8; 64];
    for i in 0..16 {
        output[i * 4] = input[i * 3];
        output[i * 4 + 1] = input[i * 3 + 1];
        output[i * 4 + 2] = input[i * 3 + 2];
        output[i * 4 + 3] = alpha_values[i];
    }
    output
}

fn to_block(image: &[u8; 64]) -> [[u8; 4]; 16] {
    let mut block = [[0u8; 4]; 16];
    for i in 0..16 {
        block[i].copy_from_slice(&image[4 * i..4 * i + 4]);
    }
    block
}

const COLOUR_BLOCK_RGB: [u8; 48] = [
    0xFF, 0x96, 0x4A, 0xFF, 0x96, 0x4A, 0xFF, 0x96, 0x4A, 0xFF, 0x96, 0x4A, 0xFF, 0x78, 0x34, 0xFF,
    0x78, 0x34, 0xFF, 0x78, 0x34, 0xFF, 0x78, 0x34, 0xFF, 0x69, 0x29, 0xFF, 0x69, 0x29, 0xFF, 0x69,
    0x29, 0xFF, 0x69, 0x29, 0xFF, 0x69, 0x29, 0xFF, 0x69, 0x29, 0xFF, 0x69, 0x29, 0xFF, 0x69, 0x29,
];

const GRAY_CHECKER: [u8; 16] = [
    0xFF, 0x00, 0xFF, 0x00, 0x00, 0x7F, 0x7F, 0xFF, 0xFF, 0x7F, 0x7F, 0x00, 0x00, 0xFF, 0x00, 0xFF,
];

const GRAY_BLOCK_LUMA: [u8; 16] = [
    0xFF, 0x00, 0xFF, 0x00, 0x00, 0x55, 0x55, 0xFF, 0xFF, 0x55, 0x55, 0x00, 0x00, 0xFF, 0x00, 0xFF,
];

const LINEAR_RAMP: [u8; 16] = [
    0x00, 0x11, 0x22, 0x33, 0x44, 0x55, 0x66, 0x77, 0x88, 0x99, 0xAA, 0xBB, 0xCC, 0xDD, 0xEE, 0xFF,
];

const BC3_ALPHA_DECODED: [u8; 16] = [
    0x00, 0x24, 0x48, 0x6D, 0x91, 0xB6, 0xDB, 0xFF, 0x00, 0x24, 0x48, 0x6D, 0x91, 0xB6, 0xDB, 0xFF,
];

const BC1_GRAY_ENCODED: [u8; 8] = [0x00, 0x00, 0xFF, 0xFF, 0x11, 0x68, 0x29, 0x44];
const BC1_COLOUR_ENCODED: [u8; 8] = [0xA9, 0xFC, 0x45, 0xFB, 0x00, 0xFF, 0x55, 0x55];
const BC2_GRAY_ENCODED: [u8; 16] = [
    0x10, 0x32, 0x54, 0x76, 0x98, 0xBA, 0xDC, 0xFE, 0xFF, 0xFF, 0x00, 0x00, 0x44, 0x3D, 0x7C, 0x11,
];
const BC2_COLOUR_ENCODED: [u8; 16] = [
    0x10, 0x32, 0x54, 0x76, 0x98, 0xBA, 0xDC, 0xFE, 0xA9, 0xFC, 0x45, 0xFB, 0x00, 0xFF, 0x55, 0x55,
];
const BC3_GRAY_ENCODED: [u8; 16] = [
    0x24, 0xDB, 0x86, 0xC6, 0xE6, 0x86, 0xC6, 0xE6, 0xFF, 0xFF, 0x00, 0x00, 0x44, 0x3D, 0x7C, 0x11,
];
const BC4_GRAY_ENCODED: [u8; 8] = [0x7F, 0x84, 0xF7, 0x6D, 0xE0, 0x07, 0xEC, 0xFB];
const BC5_GRAY_ENCODED: [u8; 16] = [
    0x7F, 0x84, 0xF7, 0x6D, 0xE0, 0x07, 0xEC, 0xFB, 0x7F, 0x84, 0xBE, 0x7F, 0xC0, 0x06, 0x7E, 0xDF,
];
const BC5_GRAY_RGB: [u8; 48] = [
    0xFF, 0x00, 0x00, 0x00, 0xFF, 0x00, 0xFF, 0x00, 0x00, 0x00, 0xFF, 0x00, 0x00, 0xFF, 0x00, 0x7F,
    0x7F, 0x00, 0x7F, 0x7F, 0x00, 0xFF, 0x00, 0x00, 0xFF, 0x00, 0x00, 0x7F, 0x7F, 0x00, 0x7F, 0x7F,
    0x00, 0x00, 0xFF, 0x00, 0x00, 0xFF, 0x00, 0xFF, 0x00, 0x00, 0x00, 0xFF, 0x00, 0xFF, 0x00, 0x00,
];

#[test]
fn test_bc1_compression_gray() {
    let decoded = add_alpha_to_rgb(&expand_single_to_rgb(&GRAY_CHECKER), &[0xFF; 16]);
    for algorithm in ALGORITHMS {
        let mut output_actual = [0u8; 8];
        Format::Bc1.compress(
            &decoded,
            4,
            4,
            params(algorithm),
            &search(COLOUR_WEIGHTS_UNIFORM),
            &mut output_actual,
        );
        assert_eq!(output_actual, BC1_GRAY_ENCODED);
    }
}

#[test]
fn test_bc1_compression_colour() {
    let decoded = add_alpha_to_rgb(&COLOUR_BLOCK_RGB, &[0xFF; 16]);
    for algorithm in ALGORITHMS {
        let mut output_actual = [0u8; 8];
        Format::Bc1.compress(
            &decoded,
            4,
            4,
            params(algorithm),
            &search(COLOUR_WEIGHTS_UNIFORM),
            &mut output_actual,
        );
        assert_eq!(output_actual, BC1_COLOUR_ENCODED);
    }
}

#[test]
fn test_bc2_compression_gray() {
    let decoded = add_alpha_to_rgb(&expand_single_to_rgb(&GRAY_BLOCK_LUMA), &LINEAR_RAMP);
    for algorithm in ALGORITHMS {
        let mut output_actual = [0u8; 16];
        Format::Bc2.compress(
            &decoded,
            4,
            4,
            params(algorithm),
            &search(COLOUR_WEIGHTS_UNIFORM),
            &mut output_actual,
        );
        assert_eq!(output_actual, BC2_GRAY_ENCODED);
    }
}

#[test]
fn test_bc2_compression_colour() {
    let decoded = add_alpha_to_rgb(&COLOUR_BLOCK_RGB, &LINEAR_RAMP);
    for algorithm in ALGORITHMS {
        let mut output_actual = [0u8; 16];
        Format::Bc2.compress(
            &decoded,
            4,
            4,
            params(algorithm),
            &search(COLOUR_WEIGHTS_UNIFORM),
            &mut output_actual,
        );
        assert_eq!(output_actual, BC2_COLOUR_ENCODED);
    }
}

#[test]
fn bc3_compression_gray() {
    let decoded = add_alpha_to_rgb(&expand_single_to_rgb(&GRAY_BLOCK_LUMA), &BC3_ALPHA_DECODED);
    for algorithm in ALGORITHMS {
        let mut output_actual = [0u8; 16];
        Format::Bc3.compress(
            &decoded,
            4,
            4,
            params(algorithm),
            &search(COLOUR_WEIGHTS_UNIFORM),
            &mut output_actual,
        );
        assert_eq!(output_actual, BC3_GRAY_ENCODED);
    }
}

#[test]
fn bc4_and_bc5_compression_gray() {
    let decoded = add_alpha_to_rgb(&expand_single_to_rgb(&GRAY_CHECKER), &[0xFF; 16]);
    let mut output_actual = [0u8; 8];
    Format::Bc4.compress(
        &decoded,
        4,
        4,
        Params::default(),
        &search(COLOUR_WEIGHTS_UNIFORM),
        &mut output_actual,
    );
    assert_eq!(output_actual, BC4_GRAY_ENCODED);

    let decoded = add_alpha_to_rgb(&BC5_GRAY_RGB, &[0xFF; 16]);
    let mut output_actual = [0u8; 16];
    Format::Bc5.compress(
        &decoded,
        4,
        4,
        Params::default(),
        &search(COLOUR_WEIGHTS_UNIFORM),
        &mut output_actual,
    );
    assert_eq!(output_actual, BC5_GRAY_ENCODED);
}

#[test]
fn bc2_alpha_rounds_to_nearest_level() {
    let mut rgba = [[0u8; 4]; 16];
    let alphas = [0u8, 8, 9, 17, 25, 26, 127, 128, 136, 137, 246, 247, 254, 255, 100, 200];
    for i in 0..16 {
        rgba[i][3] = alphas[i];
    }
    let mut block = [0u8; 8];
    compress_bc2(&rgba, 0xFFFF, &mut block);
    // round(alpha * 15 / 255): 0 0 1 1 1 2 7 8 8 8 14 15 15 15 6 12
    assert_eq!(block, [0x00, 0x11, 0x21, 0x87, 0x88, 0xFE, 0xFF, 0xC6]);
    // masked texels store zero
    compress_bc2(&rgba, 0b1010_1010_1010_1010, &mut block);
    assert_eq!(block, [0x00, 0x10, 0x20, 0x80, 0x80, 0xF0, 0xF0, 0xC0]);
}

#[test]
fn bc3_alpha_uniform_values() {
    let mut block = [0u8; 8];
    // a uniform inner value: six-point palette from the value up
    compress_bc3(&[[0, 0, 0, 100]; 16], 3, 0xFFFF, &mut block);
    assert_eq!(block, [100, 105, 0, 0, 0, 0, 0, 0]);
    // all 255: the six-point palette has it as its last constant
    compress_bc3(&[[0, 0, 0, 255]; 16], 3, 0xFFFF, &mut block);
    assert_eq!(block, [0, 5, 0xFF, 0xFF, 0xFF, 0xFF, 0xFF, 0xFF]);
    // all 0: the first endpoint
    compress_bc3(&[[0, 0, 0, 0]; 16], 3, 0xFFFF, &mut block);
    assert_eq!(block, [0, 5, 0, 0, 0, 0, 0, 0]);
    // nothing enabled: both ranges collapse to zero, every index is 0
    compress_bc3(&[[0, 0, 0, 77]; 16], 3, 0, &mut block);
    assert_eq!(block, [0, 5, 0, 0, 0, 0, 0, 0]);
    // near the top the range grows downwards
    compress_bc3(&[[0, 0, 0, 253]; 16], 3, 0xFFFF, &mut block);
    assert_eq!(&block[..2], &[250, 255]);
}

#[test]
fn bc3_alpha_eight_point_palette_puts_greater_endpoint_first() {
    // an even ramp over the whole range fits the eight-point palette exactly
    let values = [0u8, 36, 72, 109, 145, 182, 218, 255];
    let mut rgba = [[0u8; 4]; 16];
    for i in 0..16 {
        rgba[i][0] = values[i % 8];
    }
    let mut block = [0u8; 8];
    compress_bc3(&rgba, 0, 0xFFFF, &mut block);
    assert_eq!(&block[..2], &[255, 0]);
    let mut decoded = [[0u8; 4]; 16];
    squish::alpha::decompress_bc3(&mut decoded, 0, &block);
    for i in 0..16 {
        assert_eq!(decoded[i][0], values[i % 8]);
    }
}

#[test]
fn pack_565_puts_red_highest() {
    assert_eq!(pack_565(&Colour565::new(31, 0, 0)), 0xF800);
    assert_eq!(pack_565(&Colour565::new(0, 63, 0)), 0x07E0);
    assert_eq!(pack_565(&Colour565::new(0, 0, 31)), 0x001F);
    assert_eq!(pack_565(&Colour565::new(1, 2, 3)), 0x0843);
    // components are clamped to the grid
    assert_eq!(pack_565(&Colour565::new(200, 200, 200)), 0xFFFF);
}

#[test]
fn write3_orders_endpoints_ascending() {
    let low = Colour565::new(1, 2, 3);
    let high = Colour565::new(31, 0, 0);
    let indices = [0u8, 1, 2, 3, 0, 1, 2, 3, 0, 1, 2, 3, 0, 1, 2, 3];
    let mut block = [0u8; 8];
    write3(&low, &high, &indices, &mut block);
    assert_eq!(block, [0x43, 0x08, 0x00, 0xF8, 0xE4, 0xE4, 0xE4, 0xE4]);
    // given the other way round the endpoints swap and indices 0 and 1 with them
    write3(&high, &low, &indices, &mut block);
    assert_eq!(block, [0x43, 0x08, 0x00, 0xF8, 0xE1, 0xE1, 0xE1, 0xE1]);
}

#[test]
fn write4_orders_endpoints_descending() {
    let low = Colour565::new(1, 2, 3);
    let high = Colour565::new(31, 0, 0);
    let indices = [0u8, 1, 2, 3, 0, 1, 2, 3, 0, 1, 2, 3, 0, 1, 2, 3];
    let mut block = [0u8; 8];
    write4(&high, &low, &indices, &mut block);
    assert_eq!(block, [0x00, 0xF8, 0x43, 0x08, 0xE4, 0xE4, 0xE4, 0xE4]);
    // swapped: every index is flipped in its lowest bit
    write4(&low, &high, &indices, &mut block);
    assert_eq!(block, [0x00, 0xF8, 0x43, 0x08, 0xB1, 0xB1, 0xB1, 0xB1]);
    // equal endpoints: all indices zero
    write4(&low, &low, &indices, &mut block);
    assert_eq!(block, [0x43, 0x08, 0x43, 0x08, 0, 0, 0, 0]);
}

#[test]
fn colour_set_merges_equal_colours() {
    let mut rgba = [[10u8, 20, 30, 255]; 16];
    rgba[3] = [1, 2, 3, 255];
    rgba[7] = [1, 2, 3, 99];
    rgba[9] = [10, 20, 30, 0];
    let set = ColourSet::new(&rgba, 0xFFFF & !(1 << 5), Format::Bc3, false);
    assert_eq!(set.count(), 2);
    assert_eq!(set.points(), &[[10, 20, 30], [1, 2, 3]]);
    assert_eq!(set.weights(), &[13, 2]);
    assert_eq!(set.weight_scale(), 1);
    assert!(!set.is_transparent());
    let mut target = [9u8; 16];
    set.remap_indices(&[1, 2, 0, 0, 0, 0, 0, 0, 0, 0, 0, 0, 0, 0, 0, 0], &mut target);
    assert_eq!(target, [1, 1, 1, 2, 1, 3, 1, 2, 1, 1, 1, 1, 1, 1, 1, 1]);

    // BC1 leaves texels with alpha below 128 out
    let set = ColourSet::new(&rgba, 0xFFFF, Format::Bc1, true);
    assert_eq!(set.count(), 2);
    assert!(set.is_transparent());
    assert_eq!(set.weights(), &[13 * 256, 256]);
    assert_eq!(set.weight_scale(), 256);
    set.remap_indices(&[0, 1, 0, 0, 0, 0, 0, 0, 0, 0, 0, 0, 0, 0, 0, 0], &mut target);
    assert_eq!(target, [0, 0, 0, 1, 0, 0, 0, 3, 0, 3, 0, 0, 0, 0, 0, 0]);
}

#[test]
fn single_colour_sources() {
    // an exact endpoint: the level itself, paired with zero
    let s = find_source(false, false, false, 8);
    assert_eq!((s.start, s.end, s.error), (1, 0, 0));
    // between two levels the nearer wins, the lower on a tie
    let s = find_source(false, false, false, 4);
    assert_eq!((s.start, s.end, s.error), (0, 0, 4));
    let s = find_source(false, false, false, 5);
    assert_eq!((s.start, s.end, s.error), (1, 0, 3));
    // the midpoint of levels 0 and 1 of the five-bit grid is 4
    let s = find_source(false, false, true, 4);
    assert_eq!((s.start, s.end, s.error), (0, 1, 0));
    let s = find_source(false, false, true, 3);
    assert_eq!((s.start, s.end, s.error), (0, 1, 1));
    // a third of the way from 0 to 8 is 2
    let s = find_source(false, true, true, 2);
    assert_eq!((s.start, s.end, s.error), (0, 1, 0));
    let s = find_source(false, true, true, 10);
    assert_eq!((s.start, s.end, s.error), (1, 2, 0));
    // six-bit grid
    let s = find_source(true, false, false, 255);
    assert_eq!((s.start, s.end, s.error), (63, 0, 0));
    let s = find_source(true, false, true, 2);
    assert_eq!((s.start, s.end, s.error), (0, 1, 0));
}

#[test]
fn single_colour_block_is_exact_for_grid_colours() {
    let rgba = [[255u8, 0, 0, 255]; 16];
    let set = ColourSet::new(&rgba, 0xFFFF, Format::Bc1, false);
    let mut fit = SingleColourFit::new(&set, Format::Bc1);
    let mut block = [0u8; 8];
    fit.compress(&mut block);
    // pure red is an endpoint; the three-point block has it second
    assert_eq!(block, [0x00, 0x00, 0x00, 0xF8, 0x55, 0x55, 0x55, 0x55]);
    let decoded = Format::Bc1.decompress_block(&block);
    assert_eq!(decoded, rgba);
}

#[test]
fn uniform_blocks_reencode_to_the_same_bytes() {
    let colours: [[u8; 4]; 8] = [
        [0, 0, 0, 255],
        [255, 255, 255, 255],
        [3, 3, 3, 255],
        [7, 8, 8, 200],
        [100, 150, 200, 255],
        [13, 77, 201, 129],
        [254, 1, 127, 255],
        [90, 91, 92, 255],
    ];
    for format in [Format::Bc1, Format::Bc2, Format::Bc3, Format::Bc4, Format::Bc5] {
        for colour in colours {
            for algorithm in ALGORITHMS {
                let size = format.block_size();
                let mut first = [0u8; 16];
                format.compress_block_masked(
                    [colour; 16],
                    0xFFFF,
                    params(algorithm),
                    &search(COLOUR_WEIGHTS_PERCEPTUAL),
                    &mut first[..size],
                );
                let decoded = format.decompress_block(&first[..size]);
                let mut second = [0u8; 16];
                format.compress_block_masked(
                    decoded,
                    0xFFFF,
                    params(algorithm),
                    &search(COLOUR_WEIGHTS_PERCEPTUAL),
                    &mut second[..size],
                );
                assert_eq!(first, second);
            }
        }
    }
}

#[test]
fn partly_masked_uniform_blocks_reencode_to_the_same_bytes() {
    let masks = [0x0001u32, 0x0333, 0x8000, 0x7FFE];
    let colours: [[u8; 4]; 4] =
        [[3, 3, 3, 255], [100, 150, 200, 128], [254, 1, 127, 255], [0, 0, 0, 251]];
    for format in [Format::Bc1, Format::Bc2, Format::Bc3, Format::Bc4, Format::Bc5] {
        for mask in masks {
            for colour in colours {
                let size = format.block_size();
                let mut block = [[9u8, 8, 7, 6]; 16];
                for i in 0..16 {
                    if mask & (1 << i) != 0 {
                        block[i] = colour;
                    }
                }
                let mut first = [0u8; 16];
                format.compress_block_masked(
                    block,
                    mask,
                    params(Algorithm::ClusterFit),
                    &search(COLOUR_WEIGHTS_PERCEPTUAL),
                    &mut first[..size],
                );
                let decoded = format.decompress_block(&first[..size]);
                let mut second = [0u8; 16];
                format.compress_block_masked(
                    decoded,
                    mask,
                    params(Algorithm::ClusterFit),
                    &search(COLOUR_WEIGHTS_PERCEPTUAL),
                    &mut second[..size],
                );
                assert_eq!(first, second);
            }
        }
    }
}

#[test]
fn decompress_block_reads_only_the_block() {
    let mut long = [0xEEu8; 24];
    long[..8].copy_from_slice(&BC1_GRAY_ENCODED);
    assert_eq!(
        Format::Bc1.decompress_block(&long),
        Format::Bc1.decompress_block(&BC1_GRAY_ENCODED)
    );
}

#[test]
fn masked_texels_do_not_matter() {
    let base = to_block(&add_alpha_to_rgb(&COLOUR_BLOCK_RGB, &LINEAR_RAMP));
    let mask = 0b0111_1011_1101_1110u32;
    for format in [Format::Bc1, Format::Bc2, Format::Bc3, Format::Bc4, Format::Bc5] {
        for algorithm in ALGORITHMS {
            let size = format.block_size();
            let mut expected = [0u8; 16];
            format.compress_block_masked(
                base,
                mask,
                params(algorithm),
                &search(COLOUR_WEIGHTS_PERCEPTUAL),
                &mut expected[..size],
            );
            let mut changed = base;
            changed[0] = [1, 2, 3, 4];
            changed[5] = [250, 0, 99, 255];
            changed[10] = [0, 0, 0, 0];
            changed[15] = [77, 77, 77, 130];
            let mut actual = [0u8; 16];
            format.compress_block_masked(
                changed,
                mask,
                params(algorithm),
                &search(COLOUR_WEIGHTS_PERCEPTUAL),
                &mut actual[..size],
            );
            assert_eq!(actual, expected);
        }
    }
}

#[test]
fn fully_masked_block_is_deterministic() {
    let rgba = to_block(&add_alpha_to_rgb(&COLOUR_BLOCK_RGB, &[0xFF; 16]));
    for algorithm in ALGORITHMS {
        let mut first = [0xAAu8; 8];
        let mut second = [0x55u8; 8];
        Format::Bc1.compress_block_masked(
            rgba,
            0,
            params(algorithm),
            &search(COLOUR_WEIGHTS_PERCEPTUAL),
            &mut first,
        );
        Format::Bc1.compress_block_masked(
            rgba,
            0,
            params(algorithm),
            &search(COLOUR_WEIGHTS_PERCEPTUAL),
            &mut second,
        );
        assert_eq!(first, second);
        let _ = Format::Bc1.decompress_block(&first);
    }
}

#[test]
fn endpoint_order_matches_the_palette() {
    let mut rgba = to_block(&add_alpha_to_rgb(&COLOUR_BLOCK_RGB, &[0xFF; 16]));
    for algorithm in ALGORITHMS {
        let mut block = [0u8; 16];
        // BC2 colour blocks never use the three-point palette
        Format::Bc2.compress_block_masked(
            rgba,
            0xFFFF,
            params(algorithm),
            &search(COLOUR_WEIGHTS_PERCEPTUAL),
            &mut block,
        );
        let a = u16::from(block[8]) | (u16::from(block[9]) << 8);
        let b = u16::from(block[10]) | (u16::from(block[11]) << 8);
        assert!(a > b);
    }
    // a transparent texel forces the three-point palette in BC1
    rgba[6][3] = 0;
    for algorithm in ALGORITHMS {
        let mut block = [0u8; 8];
        Format::Bc1.compress_block_masked(
            rgba,
            0xFFFF,
            params(algorithm),
            &search(COLOUR_WEIGHTS_PERCEPTUAL),
            &mut block,
        );
        let a = u16::from(block[0]) | (u16::from(block[1]) << 8);
        let b = u16::from(block[2]) | (u16::from(block[3]) << 8);
        assert!(a <= b);
        let decoded = Format::Bc1.decompress_block(&block);
        assert_eq!(decoded[6], [0, 0, 0, 0]);
        assert_eq!(decoded[5][3], 255);
    }
}

#[test]
fn padded_image_round_trip() {
    // 15x30: four blocks wide, eight tall
    let width = 15usize;
    let height = 30usize;
    assert_eq!(Format::Bc1.compressed_size(width, height), 256);
    let tile = add_alpha_to_rgb(&expand_single_to_rgb(&GRAY_CHECKER), &[0xFF; 16]);
    let mut image = vec![0u8; 4 * width * height];
    for y in 0..height {
        for x in 0..width {
            let t = 4 * ((y % 4) * 4 + x % 4);
            image[4 * (y * width + x)..4 * (y * width + x) + 4].copy_from_slice(&tile[t..t + 4]);
        }
    }
    for algorithm in ALGORITHMS {
        let mut encoded = vec![0u8; 256];
        Format::Bc1.compress(
            &image,
            width,
            height,
            params(algorithm),
            &search(COLOUR_WEIGHTS_UNIFORM),
            &mut encoded,
        );
        let mut decoded = vec![0u8; 4 * width * height];
        Format::Bc1.decompress(&encoded, width, height, &mut decoded);
        let mut again = vec![0u8; 256];
        Format::Bc1.compress(
            &decoded,
            width,
            height,
            params(algorithm),
            &search(COLOUR_WEIGHTS_UNIFORM),
            &mut again,
        );
        assert_eq!(again, encoded);
    }
}

#[test]
fn compress_leaves_the_rest_of_the_buffer() {
    let decoded = add_alpha_to_rgb(&COLOUR_BLOCK_RGB, &[0xFF; 16]);
    let mut output = [0x5Au8; 24];
    Format::Bc1.compress(
        &decoded,
        4,
        4,
        Params::default(),
        &search(COLOUR_WEIGHTS_UNIFORM),
        &mut output,
    );
    assert_eq!(&output[..8], &BC1_COLOUR_ENCODED);
    assert_eq!(&output[8..], &[0x5Au8; 16]);
}

#[test]
fn gather_tile_masks_places_outside_the_image() {
    let width = 6usize;
    let height = 5usize;
    let mut image = vec![0u8; 4 * width * height];
    for (i, b) in image.iter_mut().enumerate() {
        *b = i as u8;
    }
    let (tile, mask) = gather_tile(&image, width, height, 1, 1);
    // block (1, 1) covers x in 4..8, y in 4..8: only (4,4) and (5,4) are inside
    assert_eq!(mask, 0b0011);
    let t = 4 * (4 * width + 4);
    assert_eq!(tile[0], [image[t], image[t + 1], image[t + 2], image[t + 3]]);
    assert_eq!(tile[1], [image[t + 4], image[t + 5], image[t + 6], image[t + 7]]);
    assert_eq!(tile[2], [0, 0, 0, 0]);
    let (_, mask) = gather_tile(&image, width, height, 0, 0);
    assert_eq!(mask, 0xFFFF);
}

#[test]
fn write_fit_takes_the_open_palette() {
    let rgba = to_block(&add_alpha_to_rgb(&COLOUR_BLOCK_RGB, &[0xFF; 16]));
    let set = ColourSet::new(&rgba, 0xFFFF, Format::Bc1, false);
    assert_eq!(set.count(), 3);
    let fit = Fit {
        three: true,
        start: Colour565::new(31, 63, 31),
        end: Colour565::new(0, 0, 0),
        indices: [0, 2, 1, 0, 0, 0, 0, 0, 0, 0, 0, 0, 0, 0, 0, 0],
    };
    let mut block = [0u8; 8];
    write_fit(&set, Palettes::Either, &fit, &mut block);
    // three-point: endpoints ascending, indices 0 and 1 swapped
    assert_eq!(block, [0x00, 0x00, 0xFF, 0xFF, 0x55, 0xAA, 0x00, 0x00]);
    write_fit(&set, Palettes::Four, &fit, &mut block);
    assert_eq!(block, [0xFF, 0xFF, 0x00, 0x00, 0x00, 0xAA, 0x55, 0x55]);
    write_fit(&set, Palettes::Three, &Fit { three: false, ..fit }, &mut block);
    assert_eq!(block, [0x00, 0x00, 0xFF, 0xFF, 0x55, 0xAA, 0x00, 0x00]);
}

#[test]
fn cluster_indices_follow_the_partition() {
    let order = [3u8, 0, 2, 1, 0, 0, 0, 0, 0, 0, 0, 0, 0, 0, 0, 0];
    let indices = cluster_indices3(&order, 4, 1, 3);
    assert_eq!(&indices[..4], &[2, 1, 2, 0]);
    let indices = cluster_indices4(&order, 4, 1, 2, 3);
    assert_eq!(&indices[..4], &[2, 1, 3, 0]);
    let indices = cluster_indices4(&order, 4, 0, 0, 0);
    assert_eq!(&indices[..4], &[1, 1, 1, 1]);
}

#[test]
fn ordering_seen_compares_with_earlier_iterations() {
    let mut orders = [[0u8; 16]; MAX_ITERATIONS];
    orders[0][0] = 1;
    orders[1][0] = 2;
    orders[2][0] = 1;
    assert!(!ordering_seen(&orders, 0));
    assert!(!ordering_seen(&orders, 1));
    assert!(ordering_seen(&orders, 2));
    assert!(!ordering_seen(&orders, 3) || orders[3] == orders[0]);
}
