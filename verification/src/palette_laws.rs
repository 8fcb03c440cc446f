//! What holds of every palette that `crate::clustering` describes.
use crate::clustering::{
    assigned, channel, channel_sum, cluster_sizes, clustered, first_smaller, frequency_order,
    initial_clustering, lemma_clustered_shape, lemma_first_smaller,
    lemma_nearest_exists, mean_color, member_count, nearest, palette_of, palette_of_clustering,
    precedes, refined, updated_centroids, Clustering,
};
use crate::color::{distance_squared, lemma_distance_zero_iff_equal, Color};
use vstd::arithmetic::div_mod::lemma_div_by_multiple;
use vstd::prelude::*;
use vstd::seq_lib::seq_to_set_is_finite;
use vstd::set_lib::lemma_len_subset;

verus! {

/// The frequency order of the first `n` clusters lists exactly those of them
/// that have pixels, each once, a cluster with more pixels before one with
/// fewer and, among clusters of one size, the lower index first.
pub proof fn lemma_frequency_order(sizes: Seq<nat>, n: nat)
    requires
        n <= sizes.len(),
    ensures
        frequency_order(sizes, n).len() <= n,
        forall|p: int|
            0 <= p < frequency_order(sizes, n).len() ==> {
                &&& 0 <= (#[trigger] frequency_order(sizes, n)[p]) < n
                &&& sizes[frequency_order(sizes, n)[p]] > 0
            },
        forall|j: int|
            0 <= j < n && #[trigger] sizes[j] > 0 ==> frequency_order(sizes, n).contains(j),
        forall|p: int, q: int|
            0 <= p < q < frequency_order(sizes, n).len() ==> precedes(
                sizes,
                #[trigger] frequency_order(sizes, n)[p],
                #[trigger] frequency_order(sizes, n)[q],
            ),
    decreases n,
{
    if n > 0 {
        let before = frequency_order(sizes, (n - 1) as nat);
        let order = frequency_order(sizes, n);
        let j = n - 1;
        lemma_frequency_order(sizes, (n - 1) as nat);
        if sizes[j] > 0 {
            let pos = first_smaller(sizes, before, sizes[j], 0);
            lemma_first_smaller(sizes, before, sizes[j], 0);
            before.insert_ensures(pos, j);
            assert(order == before.insert(pos, j));
            assert forall|m: int| 0 <= m < n && #[trigger] sizes[m] > 0 implies order.contains(
                m,
            ) by {
                if m == j {
                    assert(order[pos] == j);
                } else {
                    assert(before.contains(m));
                    let p = choose|p: int| 0 <= p < before.len() && before[p] == m;
                    if p < pos {
                        assert(order[p] == m);
                    } else {
                        assert(order[p + 1] == m);
                    }
                }
            }
            assert forall|p: int| 0 <= p < order.len() implies {
                &&& 0 <= (#[trigger] order[p]) < n
                &&& sizes[order[p]] > 0
            } by {
                if p < pos {
                    assert(order[p] == before[p]);
                } else if p > pos {
                    assert(order[(p - 1) + 1] == before[p - 1]);
                }
            }
            assert forall|p: int, q: int| 0 <= p < q < order.len() implies precedes(
                sizes,
                #[trigger] order[p],
                #[trigger] order[q],
            ) by {
                let a = if p < pos {
                    p
                } else {
                    p - 1
                };
                let b = if q < pos {
                    q
                } else {
                    q - 1
                };
                if p != pos {
                    assert(order[p] == before[a]) by {
                        if p > pos {
                            assert(order[(p - 1) + 1] == before[p - 1]);
                        }
                    }
                }
                if q != pos {
                    assert(order[q] == before[b]) by {
                        if q > pos {
                            assert(order[(q - 1) + 1] == before[q - 1]);
                        }
                    }
                }
                if p == pos {
                    if pos < b {
                        assert(precedes(sizes, before[pos], before[b]));
                    }
                    assert(sizes[before[b]] < sizes[j]);
                } else if q == pos {
                    assert(sizes[before[a]] >= sizes[j]);
                    assert(before[a] < j);
                } else {
                    assert(precedes(sizes, before[a], before[b]));
                }
            }
        }
    }
}


/// A cluster that counts a pixel among the first `n` has one there.
pub proof fn lemma_member_witness(assignments: Seq<int>, j: int, n: int) -> (i: int)
    requires
        member_count(assignments, j, n) > 0,
    ensures
        0 <= i < n,
        assignments[i] == j,
    decreases n,
{
    if assignments[n - 1] == j {
        n - 1
    } else {
        lemma_member_witness(assignments, j, n - 1)
    }
}

/// A pixel among the first `n` is counted in its cluster.
pub proof fn lemma_member_counted(assignments: Seq<int>, j: int, n: int, i: int)
    requires
        0 <= i < n,
        assignments[i] == j,
    ensures
        member_count(assignments, j, n) > 0,
    decreases n,
{
    if i < n - 1 {
        lemma_member_counted(assignments, j, n - 1, i);
    }
}

/// Pixels of one color are in one cluster.
pub open spec fn follows_colors(pixels: Seq<Color>, assignments: Seq<int>) -> bool {
    forall|i1: int, i2: int|
        0 <= i1 < pixels.len() && 0 <= i2 < pixels.len() && pixels[i1] == pixels[i2]
            ==> #[trigger] assignments[i1] == #[trigger] assignments[i2]
}

/// Every pixel is in one of the first `k` clusters.
pub open spec fn within(assignments: Seq<int>, k: nat) -> bool {
    forall|i: int| 0 <= i < assignments.len() ==> 0 <= #[trigger] assignments[i] < k
}

/// Through all the rounds every pixel is in a cluster that exists, and
/// pixels of one color are in one cluster.
pub proof fn lemma_clustered_assignments(
    pixels: Seq<Color>,
    state: Clustering,
    round: nat,
    max_rounds: nat,
)
    requires
        state.centroids.len() > 0,
        state.assignments.len() == pixels.len(),
        follows_colors(pixels, state.assignments),
        within(state.assignments, state.centroids.len()),
    ensures
        follows_colors(pixels, clustered(pixels, state, round, max_rounds).assignments),
        within(
            clustered(pixels, state, round, max_rounds).assignments,
            state.centroids.len(),
        ),
    decreases max_rounds - round,
{
    if round < max_rounds {
        let next = refined(pixels, state);
        assert forall|i: int| 0 <= i < next.assignments.len() implies 0
            <= #[trigger] next.assignments[i] < state.centroids.len() by {
            lemma_nearest_exists(state.centroids, pixels[i]);
        }
        if !(next.assignments == state.assignments && round > 5) {
            lemma_clustered_assignments(pixels, next, round + 1, max_rounds);
        }
    }
}

/// The palette is no longer than the number of colors asked for, nor than
/// the number of different colors among the pixels; and it is not empty
/// where there is a pixel and a color is asked for.
pub proof fn lemma_palette_length(pixels: Seq<Color>, k: nat, max_rounds: nat)
    ensures
        palette_of(pixels, k, max_rounds).len() <= k,
        palette_of(pixels, k, max_rounds).len() <= pixels.to_set().len(),
        pixels.len() > 0 && k > 0 ==> palette_of(pixels, k, max_rounds).len() >= 1,
{
    let start = initial_clustering(pixels, k);
    let last = clustered(pixels, start, 0, max_rounds);
    let a = last.assignments;
    let n = pixels.len() as int;
    let count = last.centroids.len();
    let sizes = cluster_sizes(a, count);
    let order = frequency_order(sizes, count);
    lemma_clustered_shape(pixels, start, 0, max_rounds);
    lemma_frequency_order(sizes, count);
    assert(count <= k);
    if count > 0 {
        lemma_clustered_assignments(pixels, start, 0, max_rounds);
        assert forall|q: int| 0 <= q < order.len() implies exists|i: int|
            0 <= i < n && a[i] == #[trigger] order[q] by {
            let i = lemma_member_witness(a, order[q], n);
        }
        let witness = |q: int| choose|i: int| 0 <= i < n && a[i] == order[q];
        let colors = Seq::new(order.len(), |q: int| pixels[witness(q)]);
        assert forall|q1: int, q2: int|
            0 <= q1 < colors.len() && 0 <= q2 < colors.len() && q1 != q2 implies colors[q1]
            != colors[q2] by {
            let w1 = witness(q1);
            let w2 = witness(q2);
            assert(a[w1] == order[q1] && a[w2] == order[q2]);
            if q1 < q2 {
                assert(precedes(sizes, order[q1], order[q2]));
            } else {
                assert(precedes(sizes, order[q2], order[q1]));
            }
        }
        assert forall|c: Color| colors.to_set().contains(c) implies pixels.to_set().contains(
            c,
        ) by {
            let q = choose|q: int| 0 <= q < colors.len() && colors[q] == c;
            assert(pixels[witness(q)] == c);
        }
        colors.unique_seq_to_set();
        seq_to_set_is_finite(pixels);
        lemma_len_subset(colors.to_set(), pixels.to_set());
        if n > 0 {
            lemma_member_counted(a, a[0], n, 0);
            assert(sizes[a[0]] > 0);
            assert(order.contains(a[0]));
        }
    }
}

/// Every color of the palette is the centroid, after the last round, of a
/// cluster that has pixels.
pub proof fn lemma_palette_entries_are_centroids(
    pixels: Seq<Color>,
    k: nat,
    max_rounds: nat,
    p: int,
) -> (j: int)
    requires
        0 <= p < palette_of(pixels, k, max_rounds).len(),
    ensures
        0 <= j < clustered(pixels, initial_clustering(pixels, k), 0, max_rounds).centroids.len(),
        palette_of(pixels, k, max_rounds)[p] == clustered(
            pixels,
            initial_clustering(pixels, k),
            0,
            max_rounds,
        ).centroids[j],
        member_count(
            clustered(pixels, initial_clustering(pixels, k), 0, max_rounds).assignments,
            j,
            pixels.len() as int,
        ) > 0,
{
    let start = initial_clustering(pixels, k);
    let last = clustered(pixels, start, 0, max_rounds);
    let sizes = cluster_sizes(last.assignments, last.centroids.len());
    lemma_clustered_shape(pixels, start, 0, max_rounds);
    lemma_frequency_order(sizes, last.centroids.len());
    let j = frequency_order(sizes, last.centroids.len())[p];
    assert(sizes[j] > 0);
    j
}

/// The colors of the palette stand in the order of their clusters' sizes:
/// no color comes before one whose cluster has more pixels.
pub proof fn lemma_palette_most_frequent_first(state: Clustering, p: int, q: int)
    requires
        0 <= p <= q < palette_of_clustering(state).len(),
    ensures
        cluster_sizes(state.assignments, state.centroids.len())[frequency_order(
            cluster_sizes(state.assignments, state.centroids.len()),
            state.centroids.len(),
        )[p]] >= cluster_sizes(state.assignments, state.centroids.len())[frequency_order(
            cluster_sizes(state.assignments, state.centroids.len()),
            state.centroids.len(),
        )[q]],
        palette_of_clustering(state)[p] == state.centroids[frequency_order(
            cluster_sizes(state.assignments, state.centroids.len()),
            state.centroids.len(),
        )[p]],
{
    let sizes = cluster_sizes(state.assignments, state.centroids.len());
    lemma_frequency_order(sizes, state.centroids.len());
    let order = frequency_order(sizes, state.centroids.len());
    if p < q {
        assert(precedes(sizes, order[p], order[q]));
    }
}

/// Clustering is a function of the pixels, the number of colors and the
/// number of rounds: the same pixels in the same order, clustered with the
/// same settings, give the same palette.
pub proof fn lemma_palette_is_determined(
    pixels: Seq<Color>,
    again: Seq<Color>,
    k: nat,
    max_rounds: nat,
)
    requires
        pixels.len() == again.len(),
        forall|i: int| 0 <= i < pixels.len() ==> pixels[i] == again[i],
    ensures
        palette_of(pixels, k, max_rounds) == palette_of(again, k, max_rounds),
{
    assert(pixels =~= again);
}

/// Among colors that hold `colors[i]`, the nearest entry to it is the first
/// entry of that very color.
pub proof fn lemma_nearest_own_entry(colors: Seq<Color>, i: int)
    requires
        0 <= i < colors.len(),
    ensures
        0 <= nearest(colors, colors[i]) <= i,
        colors[nearest(colors, colors[i])] == colors[i],
        forall|m: int| 0 <= m < nearest(colors, colors[i]) ==> #[trigger] colors[m] != colors[i],
{
    let c = colors[i];
    let f = nearest(colors, c);
    lemma_nearest_exists(colors, c);
    lemma_distance_zero_iff_equal(c, c);
    lemma_distance_zero_iff_equal(c, colors[f]);
    assert(distance_squared(c, colors[f]) <= distance_squared(c, colors[i]));
    assert forall|m: int| 0 <= m < f implies #[trigger] colors[m] != c by {
        lemma_distance_zero_iff_equal(c, colors[m]);
    }
}

proof fn lemma_uniform_cluster_sum(
    pixels: Seq<Color>,
    assignments: Seq<int>,
    j: int,
    ch: int,
    n: int,
    c: Color,
)
    requires
        0 <= n <= pixels.len(),
        forall|i: int| 0 <= i < n && #[trigger] assignments[i] == j ==> pixels[i] == c,
    ensures
        channel_sum(pixels, assignments, j, ch, n) == member_count(assignments, j, n) * channel(
            c,
            ch,
        ),
    decreases n,
{
    let v = channel(c, ch);
    if n > 0 {
        lemma_uniform_cluster_sum(pixels, assignments, j, ch, n - 1, c);
        let before = member_count(assignments, j, n - 1) as int;
        if assignments[n - 1] == j {
            assert(pixels[n - 1] == c);
            assert((before + 1) * v == before * v + v) by (nonlinear_arith);
        }
    } else {
        assert(0 * v == 0) by (nonlinear_arith);
    }
}

proof fn lemma_uniform_cluster_mean(pixels: Seq<Color>, assignments: Seq<int>, j: int, c: Color)
    requires
        member_count(assignments, j, pixels.len() as int) > 0,
        forall|i: int|
            0 <= i < pixels.len() && #[trigger] assignments[i] == j ==> pixels[i] == c,
    ensures
        mean_color(pixels, assignments, j) == c,
{
    let n = pixels.len() as int;
    let count = member_count(assignments, j, n) as int;
    lemma_uniform_cluster_sum(pixels, assignments, j, 0, n, c);
    lemma_uniform_cluster_sum(pixels, assignments, j, 1, n, c);
    lemma_uniform_cluster_sum(pixels, assignments, j, 2, n, c);
    assert forall|v: int| 0 <= v implies #[trigger] (count * v) / count == v by {
        lemma_div_by_multiple(v, count);
        assert(v * count == count * v) by (nonlinear_arith);
    }
    assert((count * channel(c, 0)) / count == channel(c, 0));
    assert((count * channel(c, 1)) / count == channel(c, 1));
    assert((count * channel(c, 2)) / count == channel(c, 2));
}

/// Centroids that are the pixels themselves stay where they are: each
/// cluster gathers pixels of one color only, the color of its centroid.
pub proof fn lemma_own_centroids_stay(pixels: Seq<Color>)
    ensures
        updated_centroids(pixels, assigned(pixels, pixels), pixels) == pixels,
{
    let a = assigned(pixels, pixels);
    let updated = updated_centroids(pixels, a, pixels);
    assert forall|j: int| 0 <= j < pixels.len() implies updated[j] == pixels[j] by {
        if member_count(a, j, pixels.len() as int) > 0 {
            assert forall|i: int| 0 <= i < pixels.len() && #[trigger] a[i] == j implies pixels[i]
                == pixels[j] by {
                lemma_nearest_own_entry(pixels, i);
            }
            lemma_uniform_cluster_mean(pixels, a, j, pixels[j]);
        }
    }
    assert(updated =~= pixels);
}

proof fn lemma_clustered_own_centroids(
    pixels: Seq<Color>,
    assignments: Seq<int>,
    round: nat,
    max_rounds: nat,
)
    ensures
        clustered(
            pixels,
            Clustering { centroids: pixels, assignments },
            round,
            max_rounds,
        ).centroids == pixels,
        round < max_rounds || assignments == assigned(pixels, pixels) ==> clustered(
            pixels,
            Clustering { centroids: pixels, assignments },
            round,
            max_rounds,
        ).assignments == assigned(pixels, pixels),
    decreases max_rounds - round,
{
    if round < max_rounds {
        let state = Clustering { centroids: pixels, assignments };
        let next = refined(pixels, state);
        lemma_own_centroids_stay(pixels);
        assert(next == Clustering { centroids: pixels, assignments: assigned(pixels, pixels) });
        if !(next.assignments == state.assignments && round > 5) {
            lemma_clustered_own_centroids(pixels, next.assignments, round + 1, max_rounds);
        }
    }
}

/// With no more pixels than colors asked for, and at least one round, the
/// palette holds the colors of the pixels and no other, each of them once:
/// it is as long as there are different colors, which is no more than were
/// asked for.
pub proof fn lemma_few_pixels_keep_their_colors(pixels: Seq<Color>, k: nat, max_rounds: nat)
    requires
        pixels.len() <= k,
        max_rounds >= 1,
    ensures
        palette_of(pixels, k, max_rounds).no_duplicates(),
        forall|c: Color| palette_of(pixels, k, max_rounds).contains(c) <==> pixels.contains(c),
        palette_of(pixels, k, max_rounds).len() == pixels.to_set().len(),
        pixels.to_set().len() <= k,
{
    pixels.lemma_cardinality_of_set();
    let start = initial_clustering(pixels, k);
    let last = clustered(pixels, start, 0, max_rounds);
    let a = assigned(pixels, pixels);
    let n = pixels.len() as int;
    let palette = palette_of(pixels, k, max_rounds);
    lemma_clustered_own_centroids(pixels, start.assignments, 0, max_rounds);
    assert(last.centroids == pixels && last.assignments == a);
    let sizes = cluster_sizes(a, pixels.len());
    let order = frequency_order(sizes, pixels.len());
    lemma_frequency_order(sizes, pixels.len());
    assert forall|c: Color| pixels.contains(c) implies palette.contains(c) by {
        let i = choose|i: int| 0 <= i < n && pixels[i] == c;
        lemma_nearest_own_entry(pixels, i);
        lemma_member_counted(a, a[i], n, i);
        assert(sizes[a[i]] > 0);
        assert(order.contains(a[i]));
        let q = choose|q: int| 0 <= q < order.len() && order[q] == a[i];
        assert(palette[q] == c);
    }
    assert forall|c: Color| palette.contains(c) implies pixels.contains(c) by {
        let q = choose|q: int| 0 <= q < palette.len() && palette[q] == c;
        assert(pixels[order[q]] == c);
    }
    assert forall|q1: int, q2: int|
        0 <= q1 < palette.len() && 0 <= q2 < palette.len() && q1 != q2 implies palette[q1]
        != palette[q2] by {
        let j1 = order[q1];
        let j2 = order[q2];
        if q1 < q2 {
            assert(precedes(sizes, j1, j2));
        } else {
            assert(precedes(sizes, j2, j1));
        }
        let i1 = lemma_member_witness(a, j1, n);
        let i2 = lemma_member_witness(a, j2, n);
        lemma_nearest_own_entry(pixels, i1);
        lemma_nearest_own_entry(pixels, i2);
    }
    assert(palette.to_set() =~= pixels.to_set());
    palette.unique_seq_to_set();
}

} // verus!
