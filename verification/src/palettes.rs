use vstd::prelude::*;

verus! {

/// The tone that the key-color search prefers to stay close to.
pub const PIVOT_TONE: i32 = 50;

/// Where the search for a palette's key tone stands after one probe: a
/// narrower range of tones still to search, or the tone it settled on.
#[derive(Clone, Copy, Debug, PartialEq, Eq, Structural)]
pub enum KeyToneStep {
    Narrowed { lower: i32, upper: i32 },
    Found(i32),
}

/// The distance between two tones.
pub open spec fn tone_distance(a: int, b: int) -> int {
    if a < b {
        b - a
    } else {
        a - b
    }
}

/// The tone probed while searching the tones `lower..=upper`.
pub open spec fn probe_tone(lower: int, upper: int) -> int {
    (lower + upper) / 2
}

/// One step of the key-tone search over `lower..=upper`, given whether the
/// probe tone reaches the requested chroma and whether the attainable
/// chroma still rises just above it. With enough chroma the search moves
/// toward the pivot tone; without, it follows the rising chroma.
pub open spec fn key_tone_next(lower: i32, upper: i32, sufficient_chroma: bool, ascending: bool) -> KeyToneStep {
    let mid = probe_tone(lower as int, upper as int);
    if sufficient_chroma {
        if tone_distance(lower as int, PIVOT_TONE as int) < tone_distance(upper as int, PIVOT_TONE as int) {
            KeyToneStep::Narrowed { lower, upper: mid as i32 }
        } else if lower == mid {
            KeyToneStep::Found(lower)
        } else {
            KeyToneStep::Narrowed { lower: mid as i32, upper }
        }
    } else if ascending {
        KeyToneStep::Narrowed { lower: (mid + 1) as i32, upper }
    } else {
        KeyToneStep::Narrowed { lower, upper: mid as i32 }
    }
}

/// The tone to probe next while searching `lower..=upper`: the midpoint,
/// rounded down. It and the tone above it are both within the range.
pub fn key_tone_probe(lower: i32, upper: i32) -> (r: i32)
    requires
        0 <= lower < upper <= 100,
    ensures
        r == probe_tone(lower as int, upper as int),
        lower <= r < upper,
{
    (lower + upper) / 2
}

/// Advances the key-tone search by one probe. Each step either settles on a
/// tone of the range or strictly narrows the range, so the search ends.
pub fn key_tone_step(lower: i32, upper: i32, sufficient_chroma: bool, ascending: bool) -> (r:
    KeyToneStep)
    requires
        0 <= lower < upper <= 100,
    ensures
        r == key_tone_next(lower, upper, sufficient_chroma, ascending),
        r matches KeyToneStep::Narrowed { lower: l, upper: u } ==> 0 <= l <= u <= 100 && u - l
            < upper - lower,
        r matches KeyToneStep::Found(t) ==> lower <= t < upper,
        r matches KeyToneStep::Found(t) ==> t == lower && upper == lower + 1,
        sufficient_chroma ==> (r matches KeyToneStep::Narrowed { lower: l, upper: _ } ==> l >= lower),
{
    let mid = key_tone_probe(lower, upper);
    if sufficient_chroma {
        let lower_distance = if lower < PIVOT_TONE {
            PIVOT_TONE - lower
        } else {
            lower - PIVOT_TONE
        };
        let upper_distance = if upper < PIVOT_TONE {
            PIVOT_TONE - upper
        } else {
            upper - PIVOT_TONE
        };
        if lower_distance < upper_distance {
            KeyToneStep::Narrowed { lower, upper: mid }
        } else if lower == mid {
            KeyToneStep::Found(lower)
        } else {
            KeyToneStep::Narrowed { lower: mid, upper }
        }
    } else if ascending {
        KeyToneStep::Narrowed { lower: mid + 1, upper }
    } else {
        KeyToneStep::Narrowed { lower, upper: mid }
    }
}

/// The tone the whole key-tone search settles on, for any answers to its
/// probes: `sufficient(t)` and `ascending(t)` are the answers at tone `t`.
pub open spec fn key_tone_search(
    sufficient: spec_fn(int) -> bool,
    ascending: spec_fn(int) -> bool,
    lower: i32,
    upper: i32,
) -> int
    decreases upper - lower,
{
    if 0 <= lower < upper <= 100 {
        let mid = probe_tone(lower as int, upper as int);
        match key_tone_next(lower, upper, sufficient(mid), ascending(mid)) {
            KeyToneStep::Found(t) => t as int,
            KeyToneStep::Narrowed { lower: l, upper: u } => key_tone_search(
                sufficient,
                ascending,
                l,
                u,
            ),
        }
    } else {
        lower as int
    }
}

/// Whatever the attainable chromas are, the key-tone search started on
/// `lower..=upper` within `0..=100` settles on a tone of that range.
pub proof fn lemma_key_tone_in_range(
    sufficient: spec_fn(int) -> bool,
    ascending: spec_fn(int) -> bool,
    lower: i32,
    upper: i32,
)
    requires
        0 <= lower <= upper <= 100,
    ensures
        lower <= key_tone_search(sufficient, ascending, lower, upper) <= upper,
    decreases upper - lower,
{
    if lower < upper {
        let mid = probe_tone(lower as int, upper as int);
        match key_tone_next(lower, upper, sufficient(mid), ascending(mid)) {
            KeyToneStep::Found(t) => {},
            KeyToneStep::Narrowed { lower: l, upper: u } => {
                lemma_key_tone_in_range(sufficient, ascending, l, u);
            },
        }
    }
}

/// The search settles only when the range holds two adjacent tones, and
/// then on the lower one; every other step narrows the range.
pub proof fn lemma_key_tone_settles_on_adjacent(lower: i32, upper: i32, sufficient_chroma: bool, ascending: bool)
    requires
        0 <= lower < upper <= 100,
    ensures
        key_tone_next(lower, upper, sufficient_chroma, ascending) matches KeyToneStep::Found(t) ==> t
            == lower && upper == lower + 1,
        upper > lower + 1 ==> key_tone_next(lower, upper, sufficient_chroma, ascending) is Narrowed,
{
}

/// When the pivot tone 50 reaches the requested chroma, the full search
/// from 0 to 100 first keeps the upper half and so settles on a tone of at
/// least 50, nearer the pivot than the dark end.
pub proof fn lemma_key_tone_from_pivot(sufficient: spec_fn(int) -> bool, ascending: spec_fn(int) -> bool)
    requires
        sufficient(50),
    ensures
        key_tone_next(0, 100, true, ascending(50)) == (KeyToneStep::Narrowed { lower: 50, upper: 100 }),
        50 <= key_tone_search(sufficient, ascending, 0, 100) <= 100,
{
    assert(key_tone_search(sufficient, ascending, 0, 100) == key_tone_search(sufficient, ascending, 50, 100));
    lemma_key_tone_in_range(sufficient, ascending, 50, 100);
}

} // verus!
