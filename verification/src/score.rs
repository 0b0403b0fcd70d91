use vstd::prelude::*;

use crate::argb::Argb;

verus! {

/// How colors are ranked: how many to return, the color to return when none
/// qualifies, and whether to drop colors of too little chroma or share.
#[derive(Clone, Copy, Debug, Eq, PartialEq)]
pub struct ScoreOptions {
    pub desired: usize,
    pub fallback_color_argb: Argb,
    pub filter: bool,
}

impl Default for ScoreOptions {
    /// Four colors, falling back to Google blue `0xff4285f4`, filtered.
    fn default() -> (r: Self)
        ensures
            r.desired == 4,
            r.fallback_color_argb@ == 0xff42_85f4,
            r.filter,
    {
        Self { desired: 4, fallback_color_argb: Argb::new(0xff42_85f4), filter: true }
    }
}

/// The total population of the colors whose whole-degree hue is `hue`:
/// `populations[i]` belongs to the hue `hues[i]`.
pub open spec fn hue_population(hues: Seq<u32>, populations: Seq<u32>, hue: int) -> nat
    decreases hues.len(),
{
    if hues.len() == 0 || populations.len() == 0 {
        0
    } else {
        hue_population(hues.drop_last(), populations.drop_last(), hue) + if hues.last() == hue {
            populations.last() as nat
        } else {
            0nat
        }
    }
}

/// A prefix of the colors holds no more of a hue than all of them.
proof fn lemma_hue_population_prefix(hues: Seq<u32>, populations: Seq<u32>, hue: int, k: int)
    requires
        hues.len() == populations.len(),
        0 <= k <= hues.len(),
    ensures
        hue_population(hues.take(k), populations.take(k), hue) <= hue_population(
            hues,
            populations,
            hue,
        ),
    decreases hues.len(),
{
    if k < hues.len() {
        assert(hues.drop_last().take(k) =~= hues.take(k));
        assert(populations.drop_last().take(k) =~= populations.take(k));
        lemma_hue_population_prefix(hues.drop_last(), populations.drop_last(), hue, k);
    } else {
        assert(hues.take(k) =~= hues);
        assert(populations.take(k) =~= populations);
    }
}

/// The hue histogram of a set of colors: bin `h` of the result holds the
/// population of every color whose hue, rounded down to whole degrees, is
/// `h`. `None` when some bin's total does not fit in 32 bits.
pub fn hue_populations(hues: &[u32], populations: &[u32]) -> (r: Option<Vec<u32>>)
    requires
        hues.len() == populations.len(),
        forall|i: int| 0 <= i < hues.len() ==> #[trigger] hues@[i] < 360,
    ensures
        match r {
            Some(bins) => {
                &&& bins@.len() == 360
                &&& forall|h: int|
                    0 <= h < 360 ==> #[trigger] bins@[h] == hue_population(hues@, populations@, h)
            },
            None => exists|h: int|
                0 <= h < 360 && #[trigger] hue_population(hues@, populations@, h) > u32::MAX,
        },
{
    let mut bins: Vec<u32> = Vec::new();
    for h in 0..360usize
        invariant
            bins@.len() == h,
            forall|d: int| 0 <= d < h ==> #[trigger] bins@[d] == 0,
    {
        bins.push(0);
    }
    proof {
        assert forall|d: int| 0 <= d < 360 implies #[trigger] bins@[d] == hue_population(
            hues@.take(0),
            populations@.take(0),
            d,
        ) by {}
    }
    let n = hues.len();
    for i in 0..n
        invariant
            n == hues.len(),
            n == populations.len(),
            forall|j: int| 0 <= j < hues.len() ==> #[trigger] hues@[j] < 360,
            bins@.len() == 360,
            forall|d: int|
                0 <= d < 360 ==> #[trigger] bins@[d] == hue_population(
                    hues@.take(i as int),
                    populations@.take(i as int),
                    d,
                ),
    {
        let hue = hues[i] as usize;
        let ghost hp = hues@.take(i + 1);
        let ghost pp = populations@.take(i + 1);
        proof {
            assert(hp.drop_last() =~= hues@.take(i as int));
            assert(pp.drop_last() =~= populations@.take(i as int));
        }
        match bins[hue].checked_add(populations[i]) {
            Some(updated) => {
                bins.set(hue, updated);
            },
            None => {
                proof {
                    lemma_hue_population_prefix(hues@, populations@, hue as int, i + 1);
                }
                return None;
            },
        }
    }
    proof {
        assert(hues@.take(n as int) =~= hues@);
        assert(populations@.take(n as int) =~= populations@);
    }
    Some(bins)
}

} // verus!
