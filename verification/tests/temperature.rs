use material_color::temperature::analogous_positions;

#[test]
fn analogous_positions_surround_the_input() {
    // Five colors from a ring of twelve: two before the input, two after.
    assert_eq!(
        analogous_positions(5, 12),
        vec![Some(10), Some(11), None, Some(1), Some(2)]
    );
}

#[test]
fn analogous_positions_with_even_count_lean_clockwise() {
    assert_eq!(
        analogous_positions(4, 12),
        vec![Some(11), None, Some(1), Some(2)]
    );
}

#[test]
fn analogous_positions_wrap_around_a_short_ring() {
    assert_eq!(
        analogous_positions(7, 2),
        vec![Some(1), Some(0), Some(1), None, Some(1), Some(0), Some(1)]
    );
}

#[test]
fn analogous_positions_of_zero_or_one_color_is_the_input() {
    assert_eq!(analogous_positions(0, 12), vec![None]);
    assert_eq!(analogous_positions(1, 12), vec![None]);
}
