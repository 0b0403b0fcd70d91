use material_color::palettes::{KeyToneStep, key_tone_probe, key_tone_step};

#[test]
fn key_tone_probe_is_the_lower_midpoint() {
    assert_eq!(key_tone_probe(0, 100), 50);
    assert_eq!(key_tone_probe(50, 51), 50);
    assert_eq!(key_tone_probe(3, 8), 5);
}

#[test]
fn key_tone_step_with_enough_chroma_moves_toward_the_pivot() {
    // The lower end is nearer the pivot tone: keep the lower half.
    assert_eq!(
        key_tone_step(40, 100, true, false),
        KeyToneStep::Narrowed { lower: 40, upper: 70 }
    );
    // The upper end is nearer: keep the upper half.
    assert_eq!(
        key_tone_step(0, 60, true, true),
        KeyToneStep::Narrowed { lower: 30, upper: 60 }
    );
    // Nothing left to narrow upwards: settle on the lower tone.
    assert_eq!(key_tone_step(49, 50, true, false), KeyToneStep::Found(49));
    assert_eq!(
        key_tone_step(50, 51, true, false),
        KeyToneStep::Narrowed { lower: 50, upper: 50 }
    );
}

#[test]
fn key_tone_step_without_enough_chroma_follows_rising_chroma() {
    assert_eq!(
        key_tone_step(0, 100, false, true),
        KeyToneStep::Narrowed { lower: 51, upper: 100 }
    );
    assert_eq!(
        key_tone_step(0, 100, false, false),
        KeyToneStep::Narrowed { lower: 0, upper: 50 }
    );
}

#[test]
fn key_tone_search_settles_within_the_tone_range() {
    // Whatever the answers, the search ends on a tone in 0..=100.
    for pattern in 0u32..64 {
        let mut lower = 0;
        let mut upper = 100;
        let mut steps = 0;
        let tone = loop {
            if lower >= upper {
                break lower;
            }
            let mid = key_tone_probe(lower, upper);
            let sufficient = (pattern >> (steps % 6)) & 1 == 1;
            let ascending = mid % 3 == 0;
            match key_tone_step(lower, upper, sufficient, ascending) {
                KeyToneStep::Narrowed { lower: l, upper: u } => {
                    assert!(u - l < upper - lower);
                    lower = l;
                    upper = u;
                }
                KeyToneStep::Found(t) => break t,
            }
            steps += 1;
        };
        assert!((0..=100).contains(&tone));
        assert!(steps <= 100);
    }
}
