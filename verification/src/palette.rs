//! Palette extraction: the k-means clustering of `crate::clustering`,
//! computed.
use crate::clustering::{
    assigned, channel_sum, cluster_sizes, clustered, first_smaller, frequency_order, indices,
    initial_centroids, initial_clustering, is_nearest, lemma_cluster_bounds,
    lemma_indices_injective, lemma_nearest_is, lemma_palette_empty,
    member_count, naturals, nearest, palette_of, palette_of_clustering, refined,
    updated_centroids, Clustering,
};
use crate::color::{distance_squared, Color};
use crate::palette_laws::lemma_palette_length;
use crate::raster::{resample, RasterImage, MAX_RESAMPLED_PIXELS, MAX_RESAMPLED_SIDE};
use vstd::prelude::*;

verus! {

/// Why no palette could be extracted from an image.
#[derive(Debug, Clone, Copy, PartialEq, Eq, Structural)]
pub enum PaletteError {
    /// The image cannot be scaled to the width asked for: that width is
    /// zero, or the image has, before or after scaling, a longer side or
    /// more pixels than can be resampled.
    Unscalable,
}

/// The height to which an image is scaled along with its width, so that its
/// proportions stay: the whole part of `target_width * height / width`, and
/// at least one row.
pub open spec fn scaled_height(width: int, height: int, target_width: int) -> int {
    let rows = (target_width * height) / width;
    if rows < 1 {
        1
    } else {
        rows
    }
}

/// Whether an image of `width` by `height` pixels can be scaled to
/// `target_width`: it has pixels, the target has, no side of the image or of
/// its scaled form is longer than `MAX_RESAMPLED_SIDE`, and neither the
/// image, nor its scaled form, nor the form in between (scaled in height
/// only) has more than `MAX_RESAMPLED_PIXELS` pixels.
pub open spec fn can_scale(width: int, height: int, target_width: int) -> bool {
    &&& 0 < width <= MAX_RESAMPLED_SIDE
    &&& 0 < height <= MAX_RESAMPLED_SIDE
    &&& 0 < target_width <= MAX_RESAMPLED_SIDE
    &&& scaled_height(width, height, target_width) <= MAX_RESAMPLED_SIDE
    &&& width * height <= MAX_RESAMPLED_PIXELS
    &&& width * scaled_height(width, height, target_width) <= MAX_RESAMPLED_PIXELS
    &&& target_width * scaled_height(width, height, target_width) <= MAX_RESAMPLED_PIXELS
}

/// `scaled` has the size that `image` has after scaling to `target_width`,
/// and holds what `image` holds where that is the size of `image` already.
pub open spec fn is_scaled(scaled: RasterImage, image: RasterImage, target_width: int) -> bool {
    &&& scaled.well_formed()
    &&& scaled.width == target_width
    &&& scaled.height == scaled_height(image.width as int, image.height as int, target_width)
    &&& scaled.width == image.width && scaled.height == image.height ==> scaled.data@
        == image.data@
}

/// `palette` is what an extractor for `colors` colors, scaling to `width`
/// and clustering for at most `rounds` rounds, may give for `image`: the
/// empty palette where the image has no pixels, and otherwise the clustering
/// of the colors of an image of the scaled size.
pub open spec fn extracted_from(
    palette: Seq<Color>,
    image: RasterImage,
    colors: nat,
    width: nat,
    rounds: nat,
) -> bool {
    &&& palette.len() <= colors
    &&& if image.width == 0 || image.height == 0 {
        palette.len() == 0
    } else {
        exists|scaled: RasterImage|
            is_scaled(scaled, image, width as int) && palette == palette_of(
                scaled.colors(),
                colors,
                rounds,
            )
    }
}

/// Settings for extracting a palette from an image.
#[derive(Debug, Clone, Copy)]
pub struct PaletteExtractor {
    num_colors: usize,
    resize_width: u32,
    max_iterations: usize,
}

impl Default for PaletteExtractor {
    /// Five colors, images scaled to 150 pixels in width, at most 100 rounds
    /// of clustering.
    fn default() -> (extractor: Self)
        ensures
            extractor.colors() == 5,
            extractor.width() == 150,
            extractor.rounds() == 100,
    {
        PaletteExtractor { num_colors: 5, resize_width: 150, max_iterations: 100 }
    }
}

/// The index of the entry of `colors` nearest to `c`, ties going to the
/// lowest index; zero where there is no color at all.
pub fn nearest_index(colors: &[Color], c: &Color) -> (j: usize)
    ensures
        j as int == nearest(colors@, *c),
        colors@.len() > 0 ==> is_nearest(colors@, *c, j as int),
{
    if colors.len() == 0 {
        return 0;
    }
    let mut best: usize = 0;
    let mut best_distance: u32 = c.distance_squared_to(&colors[0]);
    let mut i: usize = 1;
    while i < colors.len()
        invariant
            1 <= i <= colors@.len(),
            best < i,
            best_distance == distance_squared(*c, colors@[best as int]),
            forall|m: int|
                0 <= m < i ==> distance_squared(*c, colors@[best as int]) <= distance_squared(
                    *c,
                    #[trigger] colors@[m],
                ),
            forall|m: int|
                0 <= m < best ==> distance_squared(*c, colors@[best as int]) < distance_squared(
                    *c,
                    #[trigger] colors@[m],
                ),
        decreases colors@.len() - i,
    {
        let distance = c.distance_squared_to(&colors[i]);
        if distance < best_distance {
            best_distance = distance;
            best = i;
        }
        i += 1;
    }
    proof {
        lemma_nearest_is(colors@, *c, best as int);
    }
    best
}

/// For each pixel the index of its nearest centroid.
fn assign_pixels(pixels: &[Color], centroids: &[Color]) -> (assignments: Vec<usize>)
    requires
        centroids@.len() > 0,
    ensures
        indices(assignments@) == assigned(pixels@, centroids@),
        assignments@.len() == pixels@.len(),
        forall|i: int| 0 <= i < assignments@.len() ==> #[trigger] assignments@[i] < centroids@.len(),
{
    let mut assignments: Vec<usize> = Vec::new();
    let mut i: usize = 0;
    while i < pixels.len()
        invariant
            centroids@.len() > 0,
            i <= pixels@.len(),
            assignments@.len() == i,
            forall|m: int|
                0 <= m < i ==> #[trigger] assignments@[m] as int == nearest(centroids@, pixels@[m]),
            forall|m: int| 0 <= m < i ==> #[trigger] assignments@[m] < centroids@.len(),
        decreases pixels@.len() - i,
    {
        let j = nearest_index(centroids, &pixels[i]);
        assignments.push(j);
        i += 1;
    }
    assert(indices(assignments@) =~= assigned(pixels@, centroids@));
    assignments
}

/// What one cluster has gathered of the pixels seen so far.
#[derive(Clone, Copy)]
struct ClusterSum {
    red: u128,
    green: u128,
    blue: u128,
    count: usize,
}

/// The whole part of the mean of one channel over a cluster.
fn channel_mean(sum: u128, count: usize) -> (mean: u8)
    requires
        count > 0,
        sum <= 255 * count,
    ensures
        mean as int == sum as int / count as int,
{
    let mean = sum / (count as u128);
    assert(mean <= 255) by (nonlinear_arith)
        requires
            count > 0,
            sum <= 255 * count,
            mean == sum as int / count as int,
    ;
    mean as u8
}

/// The centroids after the pixels have been assigned to their clusters.
fn update_centroids(pixels: &[Color], assignments: &Vec<usize>, centroids: &Vec<Color>) -> (updated:
    Vec<Color>)
    requires
        assignments@.len() == pixels@.len(),
        forall|i: int| 0 <= i < assignments@.len() ==> #[trigger] assignments@[i] < centroids@.len(),
    ensures
        updated@ == updated_centroids(pixels@, indices(assignments@), centroids@),
{
    let k = centroids.len();
    let ghost a = indices(assignments@);
    let mut sums: Vec<ClusterSum> = Vec::new();
    let mut j: usize = 0;
    while j < k
        invariant
            j <= k,
            sums@.len() == j,
            forall|m: int|
                0 <= m < j ==> (#[trigger] sums@[m]) == (ClusterSum {
                    red: 0,
                    green: 0,
                    blue: 0,
                    count: 0,
                }),
        decreases k - j,
    {
        sums.push(ClusterSum { red: 0, green: 0, blue: 0, count: 0 });
        j += 1;
    }
    let mut i: usize = 0;
    while i < pixels.len()
        invariant
            i <= pixels@.len(),
            assignments@.len() == pixels@.len(),
            a == indices(assignments@),
            k == centroids@.len(),
            sums@.len() == k,
            forall|m: int| 0 <= m < assignments@.len() ==> #[trigger] assignments@[m] < k,
            forall|m: int|
                0 <= m < k ==> {
                    &&& (#[trigger] sums@[m]).count == member_count(a, m, i as int)
                    &&& sums@[m].red == channel_sum(pixels@, a, m, 0, i as int)
                    &&& sums@[m].green == channel_sum(pixels@, a, m, 1, i as int)
                    &&& sums@[m].blue == channel_sum(pixels@, a, m, 2, i as int)
                },
        decreases pixels@.len() - i,
    {
        let c = assignments[i];
        let pixel = pixels[i];
        let sum = sums[c];
        proof {
            assert(a[i as int] == c as int);
            lemma_cluster_bounds(pixels@, a, c as int, 0, i as int);
            lemma_cluster_bounds(pixels@, a, c as int, 1, i as int);
            lemma_cluster_bounds(pixels@, a, c as int, 2, i as int);
        }
        sums.set(
            c,
            ClusterSum {
                red: sum.red + pixel.r as u128,
                green: sum.green + pixel.g as u128,
                blue: sum.blue + pixel.b as u128,
                count: sum.count + 1,
            },
        );
        i += 1;
    }
    let mut updated: Vec<Color> = Vec::new();
    let mut j: usize = 0;
    while j < k
        invariant
            j <= k,
            k == centroids@.len(),
            sums@.len() == k,
            updated@.len() == j,
            forall|m: int|
                0 <= m < k ==> {
                    &&& (#[trigger] sums@[m]).count == member_count(a, m, pixels@.len() as int)
                    &&& sums@[m].red == channel_sum(pixels@, a, m, 0, pixels@.len() as int)
                    &&& sums@[m].green == channel_sum(pixels@, a, m, 1, pixels@.len() as int)
                    &&& sums@[m].blue == channel_sum(pixels@, a, m, 2, pixels@.len() as int)
                },
            forall|m: int|
                0 <= m < j ==> #[trigger] updated@[m] == updated_centroids(
                    pixels@,
                    a,
                    centroids@,
                )[m],
        decreases k - j,
    {
        let sum = sums[j];
        if sum.count > 0 {
            proof {
                lemma_cluster_bounds(pixels@, a, j as int, 0, pixels@.len() as int);
                lemma_cluster_bounds(pixels@, a, j as int, 1, pixels@.len() as int);
                lemma_cluster_bounds(pixels@, a, j as int, 2, pixels@.len() as int);
            }
            let red = channel_mean(sum.red, sum.count);
            let green = channel_mean(sum.green, sum.count);
            let blue = channel_mean(sum.blue, sum.count);
            updated.push(Color { r: red, g: green, b: blue });
        } else {
            updated.push(centroids[j]);
        }
        j += 1;
    }
    assert(updated@ =~= updated_centroids(pixels@, a, centroids@));
    updated
}

/// The number of pixels in each of `k` clusters.
fn count_members(assignments: &Vec<usize>, k: usize) -> (sizes: Vec<usize>)
    requires
        forall|i: int| 0 <= i < assignments@.len() ==> #[trigger] assignments@[i] < k,
    ensures
        naturals(sizes@) == cluster_sizes(indices(assignments@), k as nat),
        sizes@.len() == k,
{
    let ghost a = indices(assignments@);
    let mut sizes: Vec<usize> = Vec::new();
    let mut j: usize = 0;
    while j < k
        invariant
            j <= k,
            sizes@.len() == j,
            forall|m: int| 0 <= m < j ==> #[trigger] sizes@[m] == 0,
        decreases k - j,
    {
        sizes.push(0);
        j += 1;
    }
    let mut i: usize = 0;
    while i < assignments.len()
        invariant
            i <= assignments@.len(),
            a == indices(assignments@),
            sizes@.len() == k,
            forall|m: int| 0 <= m < assignments@.len() ==> #[trigger] assignments@[m] < k,
            forall|m: int| 0 <= m < k ==> #[trigger] sizes@[m] == member_count(a, m, i as int),
            forall|m: int| 0 <= m < k ==> #[trigger] sizes@[m] <= i,
        decreases assignments@.len() - i,
    {
        let c = assignments[i];
        assert(a[i as int] == c as int);
        sizes.set(c, sizes[c] + 1);
        i += 1;
    }
    assert(naturals(sizes@) =~= cluster_sizes(a, k as nat));
    sizes
}

/// The clusters that have pixels, in the order in which their centroids
/// enter the palette.
fn order_by_frequency(sizes: &Vec<usize>) -> (order: Vec<usize>)
    ensures
        indices(order@) == frequency_order(naturals(sizes@), sizes@.len()),
        forall|p: int| 0 <= p < order@.len() ==> #[trigger] order@[p] < sizes@.len(),
{
    let ghost s = naturals(sizes@);
    let mut order: Vec<usize> = Vec::new();
    let mut j: usize = 0;
    assert(indices(order@) =~= frequency_order(s, 0));
    while j < sizes.len()
        invariant
            j <= sizes@.len(),
            s == naturals(sizes@),
            indices(order@) == frequency_order(s, j as nat),
            forall|p: int| 0 <= p < order@.len() ==> #[trigger] order@[p] < j,
        decreases sizes@.len() - j,
    {
        let size = sizes[j];
        if size > 0 {
            let ghost before = indices(order@);
            let mut p: usize = 0;
            while p < order.len() && sizes[order[p]] >= size
                invariant
                    p <= order@.len(),
                    j < sizes@.len(),
                    s == naturals(sizes@),
                    before == indices(order@),
                    forall|q: int| 0 <= q < order@.len() ==> #[trigger] order@[q] < j,
                    first_smaller(s, before, size as nat, 0) == first_smaller(
                        s,
                        before,
                        size as nat,
                        p as int,
                    ),
                decreases order@.len() - p,
            {
                assert(before[p as int] == order@[p as int] as int);
                assert(s[before[p as int]] == sizes@[order@[p as int] as int] as nat);
                p += 1;
            }
            proof {
                if p < order@.len() {
                    assert(before[p as int] == order@[p as int] as int);
                    assert(s[before[p as int]] == sizes@[order@[p as int] as int] as nat);
                }
                assert(first_smaller(s, before, size as nat, p as int) == p);
                assert(s[j as int] == size as nat);
            }
            order.insert(p, j);
            assert(indices(order@) =~= before.insert(p as int, j as int));
        }
        j += 1;
    }
    order
}

impl PaletteExtractor {
    /// The number of colors asked for.
    pub closed spec fn colors(&self) -> nat {
        self.num_colors as nat
    }

    /// The width, in pixels, to which an image is scaled before its pixels
    /// are clustered.
    pub closed spec fn width(&self) -> nat {
        self.resize_width as nat
    }

    /// The greatest number of rounds of clustering.
    pub closed spec fn rounds(&self) -> nat {
        self.max_iterations as nat
    }

    /// An extractor for `num_colors` colors, with the default width and
    /// number of rounds.
    pub fn new(num_colors: usize) -> (extractor: Self)
        ensures
            extractor.colors() == num_colors,
            extractor.width() == 150,
            extractor.rounds() == 100,
    {
        PaletteExtractor { num_colors, resize_width: 150, max_iterations: 100 }
    }

    /// The same extractor, scaling images to `width` pixels.
    pub fn with_resize_width(self, width: u32) -> (extractor: Self)
        ensures
            extractor.colors() == self.colors(),
            extractor.width() == width,
            extractor.rounds() == self.rounds(),
    {
        PaletteExtractor {
            num_colors: self.num_colors,
            resize_width: width,
            max_iterations: self.max_iterations,
        }
    }

    /// The same extractor, clustering for at most `iterations` rounds.
    pub fn with_max_iterations(self, iterations: usize) -> (extractor: Self)
        ensures
            extractor.colors() == self.colors(),
            extractor.width() == self.width(),
            extractor.rounds() == iterations,
    {
        PaletteExtractor {
            num_colors: self.num_colors,
            resize_width: self.resize_width,
            max_iterations: iterations,
        }
    }

    /// The centroids that clustering starts from.
    ///
    /// With more pixels than colors asked for, the pixels are taken at a
    /// stride of `len / colors`. The stride is then at least one, so the
    /// positions taken are all different and all inside the image
    /// (`lemma_stride_positions`): no position has to be replaced by another.
    pub fn initialize_centroids(&self, pixels: &[Color]) -> (centroids: Vec<Color>)
        ensures
            centroids@ == initial_centroids(pixels@, self.colors()),
    {
        let mut centroids: Vec<Color> = Vec::new();
        if pixels.len() <= self.num_colors {
            let mut i: usize = 0;
            while i < pixels.len()
                invariant
                    i <= pixels@.len(),
                    centroids@ == pixels@.take(i as int),
                decreases pixels@.len() - i,
            {
                centroids.push(pixels[i]);
                assert(pixels@.take(i + 1) =~= pixels@.take(i as int).push(pixels@[i as int]));
                i += 1;
            }
            assert(pixels@.take(pixels@.len() as int) =~= pixels@);
            return centroids;
        }
        let k = self.num_colors;
        let len = pixels.len();
        if k == 0 {
            assert(centroids@ =~= initial_centroids(pixels@, 0));
            return centroids;
        }
        let step = len / k;
        let mut i: usize = 0;
        while i < k
            invariant
                0 < k < len,
                len == pixels@.len(),
                step == len / k,
                i <= k,
                centroids@.len() == i,
                forall|m: int| 0 <= m < i ==> #[trigger] centroids@[m] == pixels@[m * step],
            decreases k - i,
        {
            proof {
                lemma_stride_positions(len as nat, k as nat, i as int, i as int);
            }
            centroids.push(pixels[i * step]);
            i += 1;
        }
        assert(centroids@ =~= initial_centroids(pixels@, k as nat));
        centroids
    }

    /// The image scaled to the extractor's width, its proportions kept. An
    /// image that has the scaled size already stays as it is. What the
    /// pixels of any other scaled image hold is the resampler's matter; its
    /// size is stated here.
    pub fn preprocess_image(&self, image: &RasterImage) -> (scaled: Result<
        RasterImage,
        PaletteError,
    >)
        requires
            image.well_formed(),
        ensures
            scaled is Ok <==> can_scale(image.width as int, image.height as int, self.width() as int),
            scaled matches Ok(s) ==> is_scaled(s, *image, self.width() as int),
    {
        let width = image.width as u64;
        let height = image.height as u64;
        let target = self.resize_width as u64;
        let side = MAX_RESAMPLED_SIDE as u64;
        if width == 0 || height == 0 || target == 0 || width > side || height > side || target
            > side {
            return Err(PaletteError::Unscalable);
        }
        assert(target * height <= 0xFFFF_FFFE_0000_0001 && width * height <= 0xFFFF_FFFE_0000_0001)
            by (nonlinear_arith)
            requires
                target <= 0xFFFF_FFFF,
                height <= 0xFFFF_FFFF,
                width <= 0xFFFF_FFFF,
        ;
        let rows = target * height / width;
        let rows = if rows < 1 {
            1
        } else {
            rows
        };
        assert(rows == scaled_height(width as int, height as int, target as int));
        if rows > side {
            return Err(PaletteError::Unscalable);
        }
        assert(width * rows <= 0xFFFE_0001 && target * rows <= 0xFFFE_0001) by (nonlinear_arith)
            requires
                target <= 0xFFFF,
                width <= 0xFFFF,
                rows <= 0xFFFF,
        ;
        if width * height > MAX_RESAMPLED_PIXELS || width * rows > MAX_RESAMPLED_PIXELS || target
            * rows > MAX_RESAMPLED_PIXELS {
            return Err(PaletteError::Unscalable);
        }
        Ok(resample(image, self.resize_width, rows as u32))
    }

    /// The colors of the pixels of an image, row by row, alpha left out.
    pub fn extract_pixels(&self, image: &RasterImage) -> (pixels: Vec<Color>)
        ensures
            pixels@ == image.colors(),
    {
        let len = image.data.len();
        let count = len / 4;
        let mut pixels: Vec<Color> = Vec::new();
        let mut i: usize = 0;
        while i < count
            invariant
                len == image.data@.len(),
                count == len / 4,
                i <= count,
                pixels@.len() == i,
                forall|m: int| 0 <= m < i ==> #[trigger] pixels@[m] == image.colors()[m],
            decreases count - i,
        {
            pixels.push(
                Color { r: image.data[4 * i], g: image.data[4 * i + 1], b: image.data[4 * i + 2] },
            );
            i += 1;
        }
        assert(pixels@ =~= image.colors());
        pixels
    }

    /// The palette of an image: the image is scaled to the extractor's
    /// width, and the colors of the scaled pixels are clustered.
    ///
    /// An image without pixels has the empty palette. An image that cannot
    /// be scaled has none.
    pub fn extract_palette(&self, image: &RasterImage) -> (result: Result<Vec<Color>, PaletteError>)
        requires
            image.well_formed(),
        ensures
            result is Ok <==> image.width == 0 || image.height == 0 || can_scale(
                image.width as int,
                image.height as int,
                self.width() as int,
            ),
            result matches Ok(palette) ==> extracted_from(
                palette@,
                *image,
                self.colors(),
                self.width(),
                self.rounds(),
            ),
            result matches Err(error) ==> error == PaletteError::Unscalable,
    {
        if image.width == 0 || image.height == 0 {
            return Ok(Vec::new());
        }
        match self.preprocess_image(image) {
            Ok(scaled) => {
                let pixels = self.extract_pixels(&scaled);
                let palette = self.kmeans_clustering(pixels);
                proof {
                    lemma_palette_length(scaled.colors(), self.colors(), self.rounds());
                }
                Ok(palette)
            },
            Err(e) => Err(e),
        }
    }

    /// Clusters the pixels and returns the palette: the centroids of the
    /// clusters that have pixels, the cluster with the most pixels first.
    /// Without pixels, or with no color asked for, the palette is empty.
    pub fn kmeans_clustering(&self, pixels: Vec<Color>) -> (palette: Vec<Color>)
        ensures
            palette@ == palette_of(pixels@, self.colors(), self.rounds()),
    {
        let ghost k = self.colors();
        let ghost max_rounds = self.rounds();
        let mut centroids = self.initialize_centroids(pixels.as_slice());
        if centroids.len() == 0 {
            proof {
                lemma_palette_empty(pixels@, k, max_rounds);
            }
            return Vec::new();
        }
        let mut assignments: Vec<usize> = Vec::new();
        let mut i: usize = 0;
        while i < pixels.len()
            invariant
                i <= pixels@.len(),
                assignments@.len() == i,
                forall|m: int| 0 <= m < i ==> #[trigger] assignments@[m] == 0,
            decreases pixels@.len() - i,
        {
            assignments.push(0);
            i += 1;
        }
        assert(indices(assignments@) =~= initial_clustering(pixels@, k).assignments);
        let mut round: usize = 0;
        let mut settled = false;
        while round < self.max_iterations && !settled
            invariant
                max_rounds == self.max_iterations,
                round <= self.max_iterations,
                centroids@.len() > 0,
                assignments@.len() == pixels@.len(),
                forall|m: int|
                    0 <= m < assignments@.len() ==> #[trigger] assignments@[m] < centroids@.len(),
                clustered(pixels@, initial_clustering(pixels@, k), 0, max_rounds) == (if settled {
                    Clustering { centroids: centroids@, assignments: indices(assignments@) }
                } else {
                    clustered(
                        pixels@,
                        Clustering { centroids: centroids@, assignments: indices(assignments@) },
                        round as nat,
                        max_rounds,
                    )
                }),
            decreases self.max_iterations - round + (if settled { 0int } else { 1int }),
        {
            let ghost state = Clustering {
                centroids: centroids@,
                assignments: indices(assignments@),
            };
            let next_assignments = assign_pixels(pixels.as_slice(), centroids.as_slice());
            let unchanged = same_assignments(&next_assignments, &assignments);
            let next_centroids = update_centroids(pixels.as_slice(), &next_assignments, &centroids);
            proof {
                lemma_indices_injective(next_assignments@, assignments@);
                assert(refined(pixels@, state) == (Clustering {
                    centroids: next_centroids@,
                    assignments: indices(next_assignments@),
                }));
            }
            centroids = next_centroids;
            assignments = next_assignments;
            if unchanged && round > 5 {
                settled = true;
            } else {
                round += 1;
            }
        }
        let sizes = count_members(&assignments, centroids.len());
        let order = order_by_frequency(&sizes);
        let ghost state = Clustering { centroids: centroids@, assignments: indices(assignments@) };
        assert(state == clustered(pixels@, initial_clustering(pixels@, k), 0, max_rounds));
        let mut palette: Vec<Color> = Vec::new();
        let mut p: usize = 0;
        while p < order.len()
            invariant
                p <= order@.len(),
                palette@.len() == p,
                forall|q: int| 0 <= q < order@.len() ==> #[trigger] order@[q] < centroids@.len(),
                forall|q: int| 0 <= q < p ==> #[trigger] palette@[q] == centroids@[order@[q] as int],
            decreases order@.len() - p,
        {
            palette.push(centroids[order[p]]);
            p += 1;
        }
        assert(palette@ =~= palette_of_clustering(state));
        palette
    }
}

/// Whether two vectors of assignments are the same.
fn same_assignments(a: &Vec<usize>, b: &Vec<usize>) -> (same: bool)
    ensures
        same == (a@ == b@),
{
    if a.len() != b.len() {
        return false;
    }
    let mut i: usize = 0;
    while i < a.len()
        invariant
            i <= a@.len(),
            a@.len() == b@.len(),
            forall|m: int| 0 <= m < i ==> a@[m] == b@[m],
        decreases a@.len() - i,
    {
        if a[i] != b[i] {
            return false;
        }
        i += 1;
    }
    assert(a@ =~= b@);
    true
}

/// An image that has the scaled size already is clustered as it is: its
/// palette is the palette of its own pixels.
pub proof fn lemma_palette_of_unscaled_image(
    palette: Seq<Color>,
    image: RasterImage,
    colors: nat,
    width: nat,
    rounds: nat,
)
    requires
        image.width == width,
        image.height > 0,
        width > 0,
        extracted_from(palette, image, colors, width, rounds),
    ensures
        palette == palette_of(image.colors(), colors, rounds),
{
    assert(width as int * image.height as int / width as int == image.height as int) by (nonlinear_arith)
        requires
            width > 0,
    ;
    let scaled = choose|scaled: RasterImage|
        is_scaled(scaled, image, width as int) && palette == palette_of(
            scaled.colors(),
            colors,
            rounds,
        );
    assert(scaled.colors() =~= image.colors());
}

/// Striding through `len` positions for `k < len` centroids never leaves the
/// sequence and never takes a position twice: position `i * (len / k)` lies
/// below `len`, and the positions grow with `i`.
pub proof fn lemma_stride_positions(len: nat, k: nat, i: int, j: int)
    requires
        0 < k < len,
        0 <= i <= j < k,
    ensures
        0 <= i * (len as int / k as int) <= j * (len as int / k as int) < len,
        i < j ==> i * (len as int / k as int) < j * (len as int / k as int),
{
    let step = len as int / k as int;
    assert(step >= 1 && step * k <= len) by (nonlinear_arith)
        requires
            0 < k < len,
            step == len as int / k as int,
    ;
    assert(0 <= i * step <= j * step && j * step <= (k - 1) * step && (i < j ==> i * step < j
        * step)) by (nonlinear_arith)
        requires
            0 <= i <= j < k,
            step >= 1,
    ;
    assert((k - 1) * step < len) by (nonlinear_arith)
        requires
            step >= 1,
            step * k <= len,
    ;
}

} // verus!
