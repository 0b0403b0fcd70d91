use std::collections::HashMap;

use vstd::prelude::*;

use crate::argb::Argb;
use crate::quantize::wu::packed;

verus! {

broadcast use vstd::std_specs::hash::group_hash_axioms;

/// The seed of the quantizer's pseudo-random sequence.
pub const RANDOM_SEED: u64 = 42_688;

/// One step of the linear congruential generator: `s * 1103515245 + 12345`
/// modulo 2^64.
pub open spec fn lcg_step(s: u64) -> u64 {
    vstd::wrapping::u64_specs::wrapping_add(
        vstd::wrapping::u64_specs::wrapping_mul(s, 1_103_515_245),
        12_345,
    )
}

/// The value the generator hands out for state `s`: bits 16..47.
pub open spec fn lcg_output(s: u64) -> u64 {
    ((s / 65_536) % 0x8000_0000) as u64
}

/// The generator state after `n` steps from `seed`.
pub open spec fn lcg_state(seed: u64, n: nat) -> u64
    decreases n,
{
    if n == 0 {
        seed
    } else {
        lcg_step(lcg_state(seed, (n - 1) as nat))
    }
}

/// The distinct values of `s` in order of first appearance.
pub open spec fn distinct_in_order(s: Seq<u32>) -> Seq<u32>
    decreases s.len(),
{
    if s.len() == 0 {
        Seq::empty()
    } else {
        let d = distinct_in_order(s.drop_last());
        if d.contains(s.last()) {
            d
        } else {
            d.push(s.last())
        }
    }
}

/// How often `v` occurs in `s`.
pub open spec fn occurrences(s: Seq<u32>, v: u32) -> nat
    decreases s.len(),
{
    if s.len() == 0 {
        0
    } else {
        occurrences(s.drop_last(), v) + if s.last() == v {
            1nat
        } else {
            0nat
        }
    }
}

/// A deterministic pseudo-random generator (the C library's `rand`
/// recurrence), so that quantization is reproducible.
pub struct DeterministicRng {
    state: u64,
}

impl View for DeterministicRng {
    type V = u64;

    /// The generator state.
    closed spec fn view(&self) -> u64 {
        self.state
    }
}

impl DeterministicRng {
    /// A generator in state `seed`.
    pub fn new(seed: u64) -> (r: Self)
        ensures
            r@ == seed,
    {
        Self { state: seed }
    }

    /// Advances the generator one step and returns the new state's output,
    /// a value below 2^31.
    pub fn next_u31(&mut self) -> (r: u64)
        ensures
            final(self)@ == lcg_step(old(self)@),
            r == lcg_output(final(self)@),
            r < 0x8000_0000,
    {
        self.state = self.state.wrapping_mul(1_103_515_245).wrapping_add(12_345);
        (self.state / 65_536) % 0x8000_0000
    }
}

proof fn lemma_occurrences_push(s: Seq<u32>, x: u32, v: u32)
    ensures
        occurrences(s.push(x), v) == occurrences(s, v) + if x == v {
            1nat
        } else {
            0nat
        },
{
    assert(s.push(x).drop_last() =~= s);
}

proof fn lemma_occurrences_bound(s: Seq<u32>, v: u32)
    ensures
        occurrences(s, v) <= s.len(),
    decreases s.len(),
{
    if s.len() > 0 {
        lemma_occurrences_bound(s.drop_last(), v);
    }
}

/// The distinct pixels of `input` in order of first appearance, and how
/// often each occurs.
pub fn count_pixels(input: &[Argb]) -> (r: (Vec<Argb>, Vec<u32>))
    requires
        input.len() <= u32::MAX,
    ensures
        packed(r.0@) == distinct_in_order(packed(input@)),
        r.1@.len() == r.0@.len(),
        forall|k: int|
            0 <= k < r.1@.len() ==> #[trigger] r.1@[k] == occurrences(
                packed(input@),
                packed(r.0@)[k],
            ),
{
    let mut index_of: HashMap<u32, usize> = HashMap::new();
    let mut pixels: Vec<Argb> = Vec::new();
    let mut counts: Vec<u32> = Vec::new();
    let n = input.len();
    let ghost all = packed(input@);
    for i in 0..n
        invariant
            n == input.len(),
            n <= u32::MAX,
            all == packed(input@),
            packed(pixels@) == distinct_in_order(all.take(i as int)),
            counts@.len() == pixels@.len(),
            forall|k: int|
                0 <= k < counts@.len() ==> #[trigger] counts@[k] == occurrences(
                    all.take(i as int),
                    pixels@[k]@,
                ),
            forall|k: int|
                0 <= k < pixels@.len() ==> index_of@.contains_key(#[trigger] pixels@[k]@)
                    && index_of@[pixels@[k]@] == k,
            forall|v: u32|
                #[trigger] index_of@.contains_key(v) ==> index_of@[v] < pixels@.len()
                    && pixels@[index_of@[v] as int]@ == v,
    {
        let pixel = input[i];
        let value = pixel.to_u32();
        let ghost before = all.take(i as int);
        proof {
            assert(all.take(i + 1) =~= before.push(value));
            assert(all.take(i + 1).drop_last() =~= before);
            assert(packed(pixels@).len() == pixels@.len());
        }
        match index_of.get(&value) {
            Some(found) => {
                let k = *found;
                proof {
                    assert(packed(pixels@)[k as int] == value);
                    assert(distinct_in_order(before).contains(value));
                    lemma_occurrences_bound(before, value);
                    lemma_occurrences_push(before, value, value);
                }
                let updated = counts[k] + 1;
                counts.set(k, updated);
                proof {
                    assert forall|j: int| 0 <= j < counts@.len() implies #[trigger] counts@[j]
                        == occurrences(all.take(i + 1), pixels@[j]@) by {
                        lemma_occurrences_push(before, value, pixels@[j]@);
                    }
                }
            },
            None => {
                proof {
                    assert(!distinct_in_order(before).contains(value)) by {
                        if distinct_in_order(before).contains(value) {
                            let k = choose|k: int|
                                0 <= k < distinct_in_order(before).len() && distinct_in_order(
                                    before,
                                )[k] == value;
                            assert(packed(pixels@)[k] == pixels@[k]@);
                        }
                    }
                }
                let ghost old_pixels = pixels@;
                index_of.insert(value, pixels.len());
                pixels.push(pixel);
                counts.push(1);
                proof {
                    assert(packed(pixels@) =~= packed(old_pixels).push(value));
                    assert forall|j: int| 0 <= j < counts@.len() implies #[trigger] counts@[j]
                        == occurrences(all.take(i + 1), pixels@[j]@) by {
                        lemma_occurrences_push(before, value, pixels@[j]@);
                        if j == counts@.len() - 1 {
                            if occurrences(before, value) > 0 {
                                lemma_occurrence_in_distinct(before, value);
                            }
                        } else {
                            assert(pixels@[j] == old_pixels[j]);
                        }
                    }
                    assert forall|k: int| 0 <= k < pixels@.len() implies index_of@.contains_key(
                        #[trigger] pixels@[k]@,
                    ) && index_of@[pixels@[k]@] == k by {
                        if k < pixels@.len() - 1 {
                            assert(pixels@[k] == old_pixels[k]);
                        }
                    }
                }
            },
        }
    }
    proof {
        assert(all.take(n as int) =~= all);
    }
    (pixels, counts)
}

/// A value that occurs in `s` is among its distinct values.
proof fn lemma_occurrence_in_distinct(s: Seq<u32>, v: u32)
    requires
        occurrences(s, v) > 0,
    ensures
        distinct_in_order(s).contains(v),
    decreases s.len(),
{
    let d = distinct_in_order(s.drop_last());
    if s.last() == v {
        if !d.contains(v) {
            assert(d.push(v)[d.len() as int] == v);
        }
    } else {
        lemma_occurrence_in_distinct(s.drop_last(), v);
        if !d.contains(s.last()) {
            let k = choose|k: int| 0 <= k < d.len() && d[k] == v;
            assert(d.push(s.last())[k] == v);
        }
    }
}

/// The cluster that the generator assigns to point `i` before the first
/// iteration.
pub open spec fn initial_cluster(i: int, cluster_count: int) -> int {
    lcg_output(lcg_state(RANDOM_SEED, (i + 1) as nat)) as int % cluster_count
}

/// The starting cluster of each of `point_count` points: successive outputs
/// of the generator seeded with `RANDOM_SEED`, modulo `cluster_count`.
pub fn initial_cluster_indices(point_count: usize, cluster_count: usize) -> (r: Vec<usize>)
    requires
        cluster_count > 0,
    ensures
        r@.len() == point_count,
        forall|i: int| 0 <= i < point_count ==> #[trigger] r@[i] == initial_cluster(i, cluster_count as int),
        forall|i: int| 0 <= i < point_count ==> #[trigger] r@[i] < cluster_count,
{
    let mut rng = DeterministicRng::new(RANDOM_SEED);
    let mut indices: Vec<usize> = Vec::new();
    for i in 0..point_count
        invariant
            cluster_count > 0,
            indices@.len() == i,
            rng@ == lcg_state(RANDOM_SEED, i as nat),
            forall|j: int| 0 <= j < i ==> #[trigger] indices@[j] == initial_cluster(j, cluster_count as int),
            forall|j: int| 0 <= j < i ==> #[trigger] indices@[j] < cluster_count,
    {
        let value = rng.next_u31();
        indices.push((value as usize) % cluster_count);
    }
    indices
}

/// The sum of `counts` over the positions that `indices` assigns to
/// `cluster`.
pub open spec fn assigned_count(indices: Seq<usize>, counts: Seq<u32>, cluster: int) -> nat
    decreases indices.len(),
{
    if indices.len() == 0 || counts.len() == 0 {
        0
    } else {
        assigned_count(indices.drop_last(), counts.drop_last(), cluster) + if indices.last()
            == cluster {
            counts.last() as nat
        } else {
            0nat
        }
    }
}

/// The sum of all counts.
pub open spec fn total_count(counts: Seq<u32>) -> nat
    decreases counts.len(),
{
    if counts.len() == 0 {
        0
    } else {
        total_count(counts.drop_last()) + counts.last() as nat
    }
}

proof fn lemma_assigned_le_total(indices: Seq<usize>, counts: Seq<u32>, cluster: int)
    requires
        indices.len() == counts.len(),
    ensures
        assigned_count(indices, counts, cluster) <= total_count(counts),
    decreases indices.len(),
{
    if indices.len() > 0 {
        lemma_assigned_le_total(indices.drop_last(), counts.drop_last(), cluster);
    }
}

/// How many pixels each cluster holds: `counts[i]` pixels belong to the
/// cluster `indices[i]`.
pub fn cluster_pixel_counts(indices: &[usize], counts: &[u32], cluster_count: usize) -> (r: Vec<u32>)
    requires
        indices.len() == counts.len(),
        forall|i: int| 0 <= i < indices.len() ==> #[trigger] indices@[i] < cluster_count,
        total_count(counts@) <= u32::MAX,
    ensures
        r@.len() == cluster_count,
        forall|c: int| 0 <= c < cluster_count ==> #[trigger] r@[c] == assigned_count(indices@, counts@, c),
{
    let mut sums: Vec<u32> = Vec::new();
    for c in 0..cluster_count
        invariant
            sums@.len() == c,
            forall|d: int| 0 <= d < c ==> #[trigger] sums@[d] == 0,
    {
        sums.push(0);
    }
    proof {
        assert forall|d: int| 0 <= d < cluster_count implies #[trigger] sums@[d] == assigned_count(
            indices@.take(0),
            counts@.take(0),
            d,
        ) by {}
    }
    let n = indices.len();
    for i in 0..n
        invariant
            n == indices.len(),
            n == counts.len(),
            forall|j: int| 0 <= j < indices.len() ==> #[trigger] indices@[j] < cluster_count,
            total_count(counts@) <= u32::MAX,
            sums@.len() == cluster_count,
            forall|d: int|
                0 <= d < cluster_count ==> #[trigger] sums@[d] == assigned_count(
                    indices@.take(i as int),
                    counts@.take(i as int),
                    d,
                ),
    {
        let cluster = indices[i];
        let ghost ip = indices@.take(i + 1);
        let ghost cp = counts@.take(i + 1);
        proof {
            assert(ip.drop_last() =~= indices@.take(i as int));
            assert(cp.drop_last() =~= counts@.take(i as int));
            lemma_assigned_le_total(ip, cp, cluster as int);
            lemma_total_prefix(counts@, i + 1);
        }
        let updated = sums[cluster] + counts[i];
        sums.set(cluster, updated);
    }
    proof {
        assert(indices@.take(n as int) =~= indices@);
        assert(counts@.take(n as int) =~= counts@);
    }
    sums
}

/// A prefix of the counts sums to no more than all of them.
proof fn lemma_total_prefix(counts: Seq<u32>, k: int)
    requires
        0 <= k <= counts.len(),
    ensures
        total_count(counts.take(k)) <= total_count(counts),
    decreases counts.len(),
{
    if k < counts.len() {
        assert(counts.drop_last().take(k) =~= counts.take(k));
        lemma_total_prefix(counts.drop_last(), k);
    } else {
        assert(counts.take(k) =~= counts);
    }
}

/// The cluster colors whose clusters hold at least one pixel, in cluster
/// order.
pub open spec fn populated_colors(argbs: Seq<u32>, counts: Seq<u32>) -> Seq<u32>
    decreases argbs.len(),
{
    if argbs.len() == 0 || counts.len() == 0 {
        Seq::empty()
    } else {
        let earlier = populated_colors(argbs.drop_last(), counts.drop_last());
        if counts.last() > 0 {
            earlier.push(argbs.last())
        } else {
            earlier
        }
    }
}

/// The pixels of all clusters whose color is `v`.
pub open spec fn population_of(argbs: Seq<u32>, counts: Seq<u32>, v: u32) -> nat
    decreases argbs.len(),
{
    if argbs.len() == 0 || counts.len() == 0 {
        0
    } else {
        population_of(argbs.drop_last(), counts.drop_last(), v) + if argbs.last() == v {
            counts.last() as nat
        } else {
            0nat
        }
    }
}

/// The colors of a list of (color, population) entries.
pub open spec fn entry_colors(entries: Seq<(Argb, u32)>) -> Seq<u32> {
    entries.map_values(|e: (Argb, u32)| e.0@)
}

proof fn lemma_distinct_no_duplicates(s: Seq<u32>)
    ensures
        forall|a: int, b: int|
            0 <= a < b < distinct_in_order(s).len() ==> distinct_in_order(s)[a]
                != distinct_in_order(s)[b],
    decreases s.len(),
{
    if s.len() > 0 {
        lemma_distinct_no_duplicates(s.drop_last());
        let d = distinct_in_order(s.drop_last());
        if !d.contains(s.last()) {
            assert forall|a: int, b: int|
                0 <= a < b < d.push(s.last()).len() implies d.push(s.last())[a] != d.push(
                s.last(),
            )[b] by {
                if b == d.len() {
                    assert(d.push(s.last())[a] == d[a]);
                }
            }
        }
    }
}

proof fn lemma_contains_in_distinct(s: Seq<u32>, v: u32)
    requires
        s.contains(v),
    ensures
        distinct_in_order(s).contains(v),
    decreases s.len(),
{
    let d = distinct_in_order(s.drop_last());
    if s.last() == v {
        if !d.contains(v) {
            assert(d.push(v)[d.len() as int] == v);
        }
    } else {
        let k = choose|k: int| 0 <= k < s.len() && s[k] == v;
        assert(s.drop_last()[k] == v);
        lemma_contains_in_distinct(s.drop_last(), v);
        if !d.contains(s.last()) {
            let j = choose|j: int| 0 <= j < d.len() && d[j] == v;
            assert(d.push(s.last())[j] == v);
        }
    }
}

proof fn lemma_population_positive(argbs: Seq<u32>, counts: Seq<u32>, v: u32)
    requires
        population_of(argbs, counts, v) > 0,
    ensures
        populated_colors(argbs, counts).contains(v),
    decreases argbs.len(),
{
    let earlier = populated_colors(argbs.drop_last(), counts.drop_last());
    if argbs.last() == v && counts.last() > 0 {
        assert(earlier.push(v)[earlier.len() as int] == v);
    } else {
        lemma_population_positive(argbs.drop_last(), counts.drop_last(), v);
        let k = choose|k: int| 0 <= k < earlier.len() && earlier[k] == v;
        if counts.last() > 0 {
            assert(earlier.push(argbs.last())[k] == v);
        }
    }
}

proof fn lemma_population_le_total(argbs: Seq<u32>, counts: Seq<u32>, v: u32)
    requires
        argbs.len() == counts.len(),
    ensures
        population_of(argbs, counts, v) <= total_count(counts),
    decreases argbs.len(),
{
    if argbs.len() > 0 {
        lemma_population_le_total(argbs.drop_last(), counts.drop_last(), v);
    }
}

/// Merges the clusters by color: one entry per color of a cluster that
/// holds pixels, in order of first appearance, with the pixels of all
/// clusters of that color.
pub fn cluster_populations(argbs: &[Argb], counts: &[u32]) -> (r: Vec<(Argb, u32)>)
    requires
        argbs.len() == counts.len(),
        total_count(counts@) <= u32::MAX,
    ensures
        entry_colors(r@) == distinct_in_order(populated_colors(packed(argbs@), counts@)),
        forall|k: int|
            0 <= k < r@.len() ==> #[trigger] r@[k].1 == population_of(
                packed(argbs@),
                counts@,
                r@[k].0@,
            ),
{
    let mut swatches: Vec<(Argb, u32)> = Vec::new();
    let n = argbs.len();
    let ghost all = packed(argbs@);
    for i in 0..n
        invariant
            n == argbs.len(),
            n == counts.len(),
            all == packed(argbs@),
            total_count(counts@) <= u32::MAX,
            entry_colors(swatches@) == distinct_in_order(
                populated_colors(all.take(i as int), counts@.take(i as int)),
            ),
            forall|k: int|
                0 <= k < swatches@.len() ==> #[trigger] swatches@[k].1 == population_of(
                    all.take(i as int),
                    counts@.take(i as int),
                    swatches@[k].0@,
                ),
    {
        let count = counts[i];
        let argb = argbs[i];
        let value = argb.to_u32();
        let ghost ap = all.take(i as int);
        let ghost cp = counts@.take(i as int);
        let ghost keys = entry_colors(swatches@);
        proof {
            assert(all.take(i + 1).drop_last() =~= ap);
            assert(counts@.take(i + 1).drop_last() =~= cp);
            assert(all.take(i + 1).last() == value);
            assert(counts@.take(i + 1).last() == count);
            lemma_distinct_no_duplicates(populated_colors(ap, cp));
            lemma_total_prefix(counts@, i + 1);
            lemma_population_le_total(all.take(i + 1), counts@.take(i + 1), value);
            assert(all.take(i + 1).len() == counts@.take(i + 1).len());
        }
        if count > 0 {
            let mut j: usize = 0;
            let mut found = false;
            while j < swatches.len() && !found
                invariant
                    j <= swatches@.len(),
                    found ==> j < swatches@.len() && swatches@[j as int].0@ == value,
                    !found ==> forall|t: int| 0 <= t < j ==> #[trigger] swatches@[t].0@ != value,
                decreases swatches@.len() - j + if found { 0int } else { 1int },
            {
                if swatches[j].0.to_u32() == value {
                    found = true;
                } else {
                    j = j + 1;
                }
            }
            if found {
                proof {
                    assert(keys[j as int] == value);
                    assert(distinct_in_order(populated_colors(ap, cp)).contains(value));
                    assert(populated_colors(all.take(i + 1), counts@.take(i + 1)) =~= populated_colors(ap, cp).push(value));
                    lemma_distinct_push(populated_colors(ap, cp), value);
                }
                let updated = swatches[j].1 + count;
                swatches.set(j, (argb, updated));
                proof {
                    assert(entry_colors(swatches@) =~= keys);
                    assert forall|k: int| 0 <= k < swatches@.len() implies #[trigger] swatches@[k].1
                        == population_of(all.take(i + 1), counts@.take(i + 1), swatches@[k].0@) by {
                        if k != j {
                            assert(keys[k] != keys[j as int]);
                        }
                    }
                }
            } else {
                proof {
                    assert(!distinct_in_order(populated_colors(ap, cp)).contains(value)) by {
                        if distinct_in_order(populated_colors(ap, cp)).contains(value) {
                            let t = choose|t: int| 0 <= t < keys.len() && keys[t] == value;
                            assert(swatches@[t].0@ == value);
                        }
                    }
                    if population_of(ap, cp, value) > 0 {
                        lemma_population_positive(ap, cp, value);
                        lemma_contains_in_distinct(populated_colors(ap, cp), value);
                    }
                    assert(populated_colors(all.take(i + 1), counts@.take(i + 1)) =~= populated_colors(ap, cp).push(value));
                    lemma_distinct_push(populated_colors(ap, cp), value);
                }
                let ghost old_swatches = swatches@;
                swatches.push((argb, count));
                proof {
                    assert(entry_colors(swatches@) =~= keys.push(value));
                    assert forall|k: int| 0 <= k < swatches@.len() implies #[trigger] swatches@[k].1
                        == population_of(all.take(i + 1), counts@.take(i + 1), swatches@[k].0@) by {
                        if k < old_swatches.len() {
                            assert(swatches@[k] == old_swatches[k]);
                            assert(old_swatches[k].0@ != value);
                        }
                    }
                }
            }
        } else {
            proof {
                assert(populated_colors(all.take(i + 1), counts@.take(i + 1)) =~= populated_colors(ap, cp));
            }
        }
    }
    proof {
        assert(all.take(n as int) =~= all);
        assert(counts@.take(n as int) =~= counts@);
    }
    swatches
}

proof fn lemma_distinct_push(p: Seq<u32>, x: u32)
    ensures
        distinct_in_order(p.push(x)) == if distinct_in_order(p).contains(x) {
            distinct_in_order(p)
        } else {
            distinct_in_order(p).push(x)
        },
{
    assert(p.push(x).drop_last() =~= p);
}

/// The opaque values of `s`, in order.
pub open spec fn opaque_only(s: Seq<u32>) -> Seq<u32>
    decreases s.len(),
{
    if s.len() == 0 {
        Seq::empty()
    } else {
        let earlier = opaque_only(s.drop_last());
        if crate::argb::alpha_of(s.last()) == 0xff {
            earlier.push(s.last())
        } else {
            earlier
        }
    }
}

/// The opaque pixels of `pixels`, in order.
pub fn opaque_pixels(pixels: &[Argb]) -> (r: Vec<Argb>)
    ensures
        packed(r@) == opaque_only(packed(pixels@)),
{
    let mut out: Vec<Argb> = Vec::new();
    let n = pixels.len();
    let ghost all = packed(pixels@);
    for i in 0..n
        invariant
            n == pixels.len(),
            all == packed(pixels@),
            packed(out@) == opaque_only(all.take(i as int)),
    {
        let pixel = pixels[i];
        proof {
            assert(all.take(i + 1).drop_last() =~= all.take(i as int));
            assert(all.take(i + 1).last() == pixel@);
        }
        if pixel.is_opaque() {
            let ghost before = out@;
            out.push(pixel);
            proof {
                assert(packed(out@) =~= packed(before).push(pixel@));
            }
        }
    }
    proof {
        assert(all.take(n as int) =~= all);
    }
    out
}

} // verus!
