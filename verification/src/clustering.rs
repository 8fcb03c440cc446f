//! The mathematical model of palette extraction: k-means over RGB colors
//! with a fixed seeding, a capped number of rounds and a frequency-ordered
//! result. Everything here is specification and proof; `crate::palette`
//! holds the code that computes it.
use crate::color::{distance_squared, Color};
use vstd::prelude::*;

verus! {

/// `j` is the index of the entry of `colors` nearest to `c`: no entry is
/// closer, and no entry before `j` is as close.
pub open spec fn is_nearest(colors: Seq<Color>, c: Color, j: int) -> bool {
    &&& 0 <= j < colors.len()
    &&& forall|i: int|
        0 <= i < colors.len() ==> distance_squared(c, colors[j]) <= distance_squared(
            c,
            #[trigger] colors[i],
        )
    &&& forall|i: int|
        0 <= i < j ==> distance_squared(c, colors[j]) < distance_squared(c, #[trigger] colors[i])
}

/// The index of the nearest entry of `colors` to `c`, ties going to the
/// lowest index; zero when `colors` is empty.
pub open spec fn nearest(colors: Seq<Color>, c: Color) -> int {
    if colors.len() == 0 {
        0
    } else {
        choose|j: int| is_nearest(colors, c, j)
    }
}

/// The centroids a clustering starts from. With at most `k` pixels every
/// pixel is a centroid; otherwise `k` pixels are taken at a stride of
/// `len / k`, starting with the first.
pub open spec fn initial_centroids(pixels: Seq<Color>, k: nat) -> Seq<Color> {
    if pixels.len() <= k {
        pixels
    } else {
        Seq::new(k, |i: int| pixels[i * (pixels.len() as int / k as int)])
    }
}

/// For each pixel the index of its nearest centroid.
pub open spec fn assigned(pixels: Seq<Color>, centroids: Seq<Color>) -> Seq<int> {
    Seq::new(pixels.len(), |i: int| nearest(centroids, pixels[i]))
}

/// How many of the first `n` pixels are assigned to cluster `j`.
pub open spec fn member_count(assignments: Seq<int>, j: int, n: int) -> nat
    decreases n,
{
    if n <= 0 {
        0
    } else {
        member_count(assignments, j, n - 1) + if assignments[n - 1] == j {
            1nat
        } else {
            0nat
        }
    }
}

/// One channel of a color: 0 is red, 1 is green, anything else is blue.
pub open spec fn channel(c: Color, ch: int) -> int {
    if ch == 0 {
        c.r as int
    } else if ch == 1 {
        c.g as int
    } else {
        c.b as int
    }
}

/// The sum of one channel over those of the first `n` pixels that are
/// assigned to cluster `j`.
pub open spec fn channel_sum(
    pixels: Seq<Color>,
    assignments: Seq<int>,
    j: int,
    ch: int,
    n: int,
) -> int
    decreases n,
{
    if n <= 0 {
        0
    } else {
        channel_sum(pixels, assignments, j, ch, n - 1) + if assignments[n - 1] == j {
            channel(pixels[n - 1], ch)
        } else {
            0
        }
    }
}

/// The mean of the pixels assigned to cluster `j`, channel by channel, each
/// mean cut down to a whole number.
pub open spec fn mean_color(pixels: Seq<Color>, assignments: Seq<int>, j: int) -> Color {
    let n = pixels.len() as int;
    let count = member_count(assignments, j, n) as int;
    Color {
        r: (channel_sum(pixels, assignments, j, 0, n) / count) as u8,
        g: (channel_sum(pixels, assignments, j, 1, n) / count) as u8,
        b: (channel_sum(pixels, assignments, j, 2, n) / count) as u8,
    }
}

/// The centroids after the pixels have been assigned: the mean of each
/// cluster that has pixels, and the old centroid of each that has none.
pub open spec fn updated_centroids(
    pixels: Seq<Color>,
    assignments: Seq<int>,
    centroids: Seq<Color>,
) -> Seq<Color> {
    Seq::new(
        centroids.len(),
        |j: int|
            if member_count(assignments, j, pixels.len() as int) > 0 {
                mean_color(pixels, assignments, j)
            } else {
                centroids[j]
            },
    )
}

/// The state of a clustering between two rounds.
pub struct Clustering {
    pub centroids: Seq<Color>,
    pub assignments: Seq<int>,
}

/// The state a clustering starts in: the initial centroids, and every pixel
/// in cluster zero.
pub open spec fn initial_clustering(pixels: Seq<Color>, k: nat) -> Clustering {
    Clustering {
        centroids: initial_centroids(pixels, k),
        assignments: Seq::new(pixels.len(), |i: int| 0int),
    }
}

/// One round: every pixel goes to its nearest centroid, then every centroid
/// moves to the mean of its pixels.
pub open spec fn refined(pixels: Seq<Color>, state: Clustering) -> Clustering {
    let assignments = assigned(pixels, state.centroids);
    Clustering {
        centroids: updated_centroids(pixels, assignments, state.centroids),
        assignments,
    }
}

/// The state after the rounds from `round` on, of at most `max_rounds`
/// rounds in all. The rounds end early after a round past the sixth that
/// moved no pixel to another cluster.
pub open spec fn clustered(
    pixels: Seq<Color>,
    state: Clustering,
    round: nat,
    max_rounds: nat,
) -> Clustering
    decreases max_rounds - round,
{
    if round >= max_rounds {
        state
    } else {
        let next = refined(pixels, state);
        if next.assignments == state.assignments && round > 5 {
            next
        } else {
            clustered(pixels, next, round + 1, max_rounds)
        }
    }
}

/// The number of pixels in each of the first `k` clusters.
pub open spec fn cluster_sizes(assignments: Seq<int>, k: nat) -> Seq<nat> {
    Seq::new(k, |j: int| member_count(assignments, j, assignments.len() as int))
}

/// Cluster `a` comes before cluster `b` in the palette: it has more pixels,
/// or as many and the lower index.
pub open spec fn precedes(sizes: Seq<nat>, a: int, b: int) -> bool {
    sizes[a] > sizes[b] || (sizes[a] == sizes[b] && a < b)
}

/// The first position from `from` on at which `order` holds a cluster with
/// fewer than `size` pixels, or the length of `order` if there is none.
pub open spec fn first_smaller(sizes: Seq<nat>, order: Seq<int>, size: nat, from: int) -> int
    decreases order.len() - from,
{
    if from < 0 || from >= order.len() || sizes[order[from]] < size {
        from
    } else {
        first_smaller(sizes, order, size, from + 1)
    }
}

/// The clusters among the first `n` that have pixels, those with more pixels
/// first and, among clusters of one size, the lower index first.
pub open spec fn frequency_order(sizes: Seq<nat>, n: nat) -> Seq<int>
    decreases n,
{
    if n == 0 {
        Seq::empty()
    } else {
        let before = frequency_order(sizes, (n - 1) as nat);
        let j = n - 1;
        if sizes[j] > 0 {
            before.insert(first_smaller(sizes, before, sizes[j], 0), j)
        } else {
            before
        }
    }
}

/// The palette of a clustering: the centroids of the clusters that have
/// pixels, in frequency order.
pub open spec fn palette_of_clustering(state: Clustering) -> Seq<Color> {
    let sizes = cluster_sizes(state.assignments, state.centroids.len());
    let order = frequency_order(sizes, state.centroids.len());
    Seq::new(order.len(), |p: int| state.centroids[order[p]])
}

/// The palette of `pixels` for `k` requested colors and at most `max_rounds`
/// rounds of clustering.
pub open spec fn palette_of(pixels: Seq<Color>, k: nat, max_rounds: nat) -> Seq<Color> {
    palette_of_clustering(clustered(pixels, initial_clustering(pixels, k), 0, max_rounds))
}

/// A sequence of cluster indices as mathematical integers.
pub open spec fn indices(v: Seq<usize>) -> Seq<int> {
    v.map_values(|x: usize| x as int)
}

/// A sequence of cluster sizes as natural numbers.
pub open spec fn naturals(v: Seq<usize>) -> Seq<nat> {
    v.map_values(|x: usize| x as nat)
}

/// Two sequences of indices are the same exactly when they are the same as
/// sequences of integers.
pub proof fn lemma_indices_injective(a: Seq<usize>, b: Seq<usize>)
    ensures
        (indices(a) == indices(b)) <==> a == b,
{
    if indices(a) == indices(b) {
        assert(a.len() == indices(a).len());
        assert(b.len() == indices(b).len());
        assert forall|i: int| 0 <= i < a.len() implies a[i] == b[i] by {
            assert(indices(a)[i] == a[i] as int);
            assert(indices(b)[i] == b[i] as int);
        }
        assert(a =~= b);
    }
}

/// Rounds of clustering change neither the number of centroids nor the
/// number of assignments.
pub proof fn lemma_clustered_shape(
    pixels: Seq<Color>,
    state: Clustering,
    round: nat,
    max_rounds: nat,
)
    requires
        state.assignments.len() == pixels.len(),
    ensures
        clustered(pixels, state, round, max_rounds).centroids.len() == state.centroids.len(),
        clustered(pixels, state, round, max_rounds).assignments.len() == pixels.len(),
    decreases max_rounds - round,
{
    if round < max_rounds {
        let next = refined(pixels, state);
        if !(next.assignments == state.assignments && round > 5) {
            lemma_clustered_shape(pixels, next, round + 1, max_rounds);
        }
    }
}

/// Nothing can be clustered around no centroid: without pixels, or with no
/// color asked for, the palette is empty.
pub proof fn lemma_palette_empty(pixels: Seq<Color>, k: nat, max_rounds: nat)
    requires
        pixels.len() == 0 || k == 0,
    ensures
        palette_of(pixels, k, max_rounds) == Seq::<Color>::empty(),
{
    let start = initial_clustering(pixels, k);
    assert(start.centroids.len() == 0);
    lemma_clustered_shape(pixels, start, 0, max_rounds);
    assert(palette_of(pixels, k, max_rounds) =~= Seq::<Color>::empty());
}

/// The position that `first_smaller` finds lies between `from` and the end
/// of `order`; every cluster from `from` up to it has at least `size`
/// pixels, and the cluster at it, if there is one, has fewer.
pub proof fn lemma_first_smaller(sizes: Seq<nat>, order: Seq<int>, size: nat, from: int)
    requires
        0 <= from <= order.len(),
    ensures
        from <= first_smaller(sizes, order, size, from) <= order.len(),
        forall|p: int|
            from <= p < first_smaller(sizes, order, size, from) ==> sizes[#[trigger] order[p]]
                >= size,
        first_smaller(sizes, order, size, from) < order.len() ==> sizes[order[first_smaller(
            sizes,
            order,
            size,
            from,
        )]] < size,
    decreases order.len() - from,
{
    if from < order.len() && sizes[order[from]] >= size {
        lemma_first_smaller(sizes, order, size, from + 1);
    }
}

/// Every non-empty sequence of colors has a nearest entry to any color.
pub proof fn lemma_nearest_exists(colors: Seq<Color>, c: Color)
    requires
        colors.len() > 0,
    ensures
        is_nearest(colors, c, nearest(colors, c)),
{
    lemma_nearest_in_prefix(colors, c, colors.len() as int);
    assert(colors.take(colors.len() as int) =~= colors);
}

proof fn lemma_nearest_in_prefix(colors: Seq<Color>, c: Color, n: int)
    requires
        0 < n <= colors.len(),
    ensures
        exists|j: int| is_nearest(colors.take(n), c, j),
    decreases n,
{
    let prefix = colors.take(n);
    if n == 1 {
        assert(is_nearest(prefix, c, 0));
    } else {
        lemma_nearest_in_prefix(colors, c, n - 1);
        let shorter = colors.take(n - 1);
        let j = choose|j: int| is_nearest(shorter, c, j);
        assert forall|i: int| 0 <= i < n - 1 implies prefix[i] == shorter[i] by {}
        if distance_squared(c, colors[n - 1]) < distance_squared(c, shorter[j]) {
            assert forall|i: int| 0 <= i < prefix.len() implies distance_squared(c, prefix[n - 1])
                <= distance_squared(c, #[trigger] prefix[i]) by {
                if i < n - 1 {
                    assert(prefix[i] == shorter[i]);
                }
            }
            assert forall|i: int| 0 <= i < n - 1 implies distance_squared(c, prefix[n - 1])
                < distance_squared(c, #[trigger] prefix[i]) by {
                assert(prefix[i] == shorter[i]);
            }
            assert(is_nearest(prefix, c, n - 1));
        } else {
            assert forall|i: int| 0 <= i < prefix.len() implies distance_squared(c, prefix[j])
                <= distance_squared(c, #[trigger] prefix[i]) by {
                if i < n - 1 {
                    assert(prefix[i] == shorter[i]);
                }
            }
            assert forall|i: int| 0 <= i < j implies distance_squared(c, prefix[j])
                < distance_squared(c, #[trigger] prefix[i]) by {
                assert(prefix[i] == shorter[i]);
            }
            assert(is_nearest(prefix, c, j));
        }
    }
}

/// A color has one nearest entry only.
pub proof fn lemma_nearest_unique(colors: Seq<Color>, c: Color, j1: int, j2: int)
    requires
        is_nearest(colors, c, j1),
        is_nearest(colors, c, j2),
    ensures
        j1 == j2,
{
    if j1 < j2 {
        assert(distance_squared(c, colors[j2]) < distance_squared(c, colors[j1]));
        assert(distance_squared(c, colors[j1]) <= distance_squared(c, colors[j2]));
    } else if j2 < j1 {
        assert(distance_squared(c, colors[j1]) < distance_squared(c, colors[j2]));
        assert(distance_squared(c, colors[j2]) <= distance_squared(c, colors[j1]));
    }
}

/// Whatever index is a nearest entry is the nearest entry.
pub proof fn lemma_nearest_is(colors: Seq<Color>, c: Color, j: int)
    requires
        is_nearest(colors, c, j),
    ensures
        nearest(colors, c) == j,
{
    lemma_nearest_exists(colors, c);
    lemma_nearest_unique(colors, c, j, nearest(colors, c));
}

/// A cluster holds no more pixels than there are, and the sum of a channel
/// over its pixels is at most 255 for each of them.
pub proof fn lemma_cluster_bounds(
    pixels: Seq<Color>,
    assignments: Seq<int>,
    j: int,
    ch: int,
    n: int,
)
    requires
        0 <= n <= pixels.len(),
    ensures
        member_count(assignments, j, n) <= n,
        0 <= channel_sum(pixels, assignments, j, ch, n) <= 255 * member_count(assignments, j, n),
    decreases n,
{
    if n > 0 {
        lemma_cluster_bounds(pixels, assignments, j, ch, n - 1);
    }
}

} // verus!
