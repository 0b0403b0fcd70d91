use vstd::prelude::*;

use crate::argb::{Argb, argb_from_rgb, blue_of, green_of, pack_opaque, red_of};

verus! {

/// Number of histogram slots per channel: 32 cells plus a zero border.
pub const INDEX_COUNT: usize = 33;

/// Number of slots of the three-dimensional histogram.
pub const TOTAL_SIZE: usize = 35937;

/// The capacity of the box table.
pub const MAX_COLORS: usize = 256;

/// A half-open range of histogram cells `(r0, r1] x (g0, g1] x (b0, b1]`.
pub type CellRange = (int, int, int, int, int, int);

/// The quantity that a histogram accumulates per pixel.
#[derive(Clone, Copy, Debug, PartialEq, Eq, Structural)]
pub enum Moment {
    Weight,
    Red,
    Green,
    Blue,
    Square,
}

/// The histogram cell (1..=32) of an 8-bit channel value.
pub open spec fn cell_coord(c: u8) -> int {
    (c / 8) as int + 1
}

/// What one pixel adds to a histogram of the given moment.
pub open spec fn moment_value(v: u32, m: Moment) -> int {
    match m {
        Moment::Weight => 1,
        Moment::Red => red_of(v) as int,
        Moment::Green => green_of(v) as int,
        Moment::Blue => blue_of(v) as int,
        Moment::Square => red_of(v) * red_of(v) + green_of(v) * green_of(v) + blue_of(v) * blue_of(
            v,
        ),
    }
}

/// The largest value `moment_value` can take for the given moment.
pub open spec fn moment_max(m: Moment) -> int {
    match m {
        Moment::Weight => 1,
        Moment::Square => 195075,
        _ => 255,
    }
}

/// Whether the pixel `v` falls into the cell range `b`.
pub open spec fn in_cells(v: u32, b: CellRange) -> bool {
    &&& b.0 < cell_coord(red_of(v)) <= b.1
    &&& b.2 < cell_coord(green_of(v)) <= b.3
    &&& b.4 < cell_coord(blue_of(v)) <= b.5
}

/// The sum of the moment over the pixels of `ps` that fall into `b`.
pub open spec fn box_sum(ps: Seq<Argb>, m: Moment, b: CellRange) -> int
    decreases ps.len(),
{
    if ps.len() == 0 {
        0
    } else {
        box_sum(ps.drop_last(), m, b) + if in_cells(ps.last()@, b) {
            moment_value(ps.last()@, m)
        } else {
            0
        }
    }
}

/// The most pixels the quantizer takes: with more, a channel sum over all
/// pixels may not fit in a signed 64-bit integer, and four bytes per pixel
/// exceed every 57-bit address space.
pub open spec fn max_pixels() -> int {
    0x80_8080_8080_8080
}

/// The single cell `(r, g, b)` as a range.
pub open spec fn unit_cell(r: int, g: int, b: int) -> CellRange {
    (r - 1, r, g - 1, g, b - 1, b)
}

/// All cells up to `(r, g, b)` as a range.
pub open spec fn prefix_cells(r: int, g: int, b: int) -> CellRange {
    (0, r, 0, g, 0, b)
}

/// The slot of cell `(r, g, b)` in a flat histogram.
pub open spec fn index_of(r: int, g: int, b: int) -> int {
    r * 1089 + g * 33 + b
}

pub open spec fn in_grid(r: int, g: int, b: int) -> bool {
    0 <= r <= 32 && 0 <= g <= 32 && 0 <= b <= 32
}

/// `h` holds, at every slot, the moment summed over the pixels of that cell.
pub open spec fn is_histogram(h: Seq<i128>, ps: Seq<Argb>, m: Moment) -> bool {
    &&& h.len() == TOTAL_SIZE
    &&& forall|r: int, g: int, b: int|
        in_grid(r, g, b) ==> #[trigger] h[index_of(r, g, b)] == box_sum(ps, m, unit_cell(r, g, b))
}

/// `h` holds, at every slot, the moment summed over all cells up to that cell.
pub open spec fn is_cumulative(h: Seq<i128>, ps: Seq<Argb>, m: Moment) -> bool {
    &&& h.len() == TOTAL_SIZE
    &&& forall|r: int, g: int, b: int|
        in_grid(r, g, b) ==> #[trigger] h[index_of(r, g, b)] == box_sum(
            ps,
            m,
            prefix_cells(r, g, b),
        )
}

proof fn lemma_moment_bounds(v: u32, m: Moment)
    ensures
        0 <= moment_value(v, m) <= moment_max(m),
        moment_value(v, Moment::Red) <= 255 * moment_value(v, Moment::Weight),
        moment_value(v, Moment::Green) <= 255 * moment_value(v, Moment::Weight),
        moment_value(v, Moment::Blue) <= 255 * moment_value(v, Moment::Weight),
        moment_value(v, Moment::Square) <= 195075 * moment_value(v, Moment::Weight),
{
    let r = red_of(v) as int;
    let g = green_of(v) as int;
    let b = blue_of(v) as int;
    assert(0 <= r * r <= 65025) by (nonlinear_arith)
        requires
            0 <= r <= 255,
    ;
    assert(0 <= g * g <= 65025) by (nonlinear_arith)
        requires
            0 <= g <= 255,
    ;
    assert(0 <= b * b <= 65025) by (nonlinear_arith)
        requires
            0 <= b <= 255,
    ;
}

/// Box sums are non-negative, bounded by the pixel count times the largest
/// per-pixel moment, and channel sums are bounded by the weight.
proof fn lemma_box_sum_bounds(ps: Seq<Argb>, m: Moment, b: CellRange)
    ensures
        0 <= box_sum(ps, m, b) <= ps.len() * moment_max(m),
        box_sum(ps, Moment::Weight, b) <= ps.len(),
        box_sum(ps, Moment::Red, b) <= 255 * box_sum(ps, Moment::Weight, b),
        box_sum(ps, Moment::Green, b) <= 255 * box_sum(ps, Moment::Weight, b),
        box_sum(ps, Moment::Blue, b) <= 255 * box_sum(ps, Moment::Weight, b),
        box_sum(ps, Moment::Square, b) <= 195075 * box_sum(ps, Moment::Weight, b),
    decreases ps.len(),
{
    if ps.len() > 0 {
        lemma_box_sum_bounds(ps.drop_last(), m, b);
        lemma_moment_bounds(ps.last()@, m);
        assert((ps.len() - 1) * moment_max(m) + moment_max(m) == ps.len() * moment_max(m))
            by (nonlinear_arith);
    }
}

/// A range that is empty along some axis, or lies outside the cells
/// `1..=32`, has sum zero.
proof fn lemma_box_sum_empty(ps: Seq<Argb>, m: Moment, b: CellRange)
    requires
        b.1 <= b.0 || b.3 <= b.2 || b.5 <= b.4 || b.1 <= 0 || b.3 <= 0 || b.5 <= 0,
    ensures
        box_sum(ps, m, b) == 0,
    decreases ps.len(),
{
    if ps.len() > 0 {
        lemma_box_sum_empty(ps.drop_last(), m, b);
    }
}

/// Splitting a range along the red axis splits its sum.
proof fn lemma_split_red(ps: Seq<Argb>, m: Moment, b: CellRange, c: int)
    requires
        b.0 <= c <= b.1,
    ensures
        box_sum(ps, m, b) == box_sum(ps, m, (b.0, c, b.2, b.3, b.4, b.5)) + box_sum(
            ps,
            m,
            (c, b.1, b.2, b.3, b.4, b.5),
        ),
    decreases ps.len(),
{
    if ps.len() > 0 {
        lemma_split_red(ps.drop_last(), m, b, c);
    }
}

/// Splitting a range along the green axis splits its sum.
proof fn lemma_split_green(ps: Seq<Argb>, m: Moment, b: CellRange, c: int)
    requires
        b.2 <= c <= b.3,
    ensures
        box_sum(ps, m, b) == box_sum(ps, m, (b.0, b.1, b.2, c, b.4, b.5)) + box_sum(
            ps,
            m,
            (b.0, b.1, c, b.3, b.4, b.5),
        ),
    decreases ps.len(),
{
    if ps.len() > 0 {
        lemma_split_green(ps.drop_last(), m, b, c);
    }
}

/// Splitting a range along the blue axis splits its sum.
proof fn lemma_split_blue(ps: Seq<Argb>, m: Moment, b: CellRange, c: int)
    requires
        b.4 <= c <= b.5,
    ensures
        box_sum(ps, m, b) == box_sum(ps, m, (b.0, b.1, b.2, b.3, b.4, c)) + box_sum(
            ps,
            m,
            (b.0, b.1, b.2, b.3, c, b.5),
        ),
    decreases ps.len(),
{
    if ps.len() > 0 {
        lemma_split_blue(ps.drop_last(), m, b, c);
    }
}

/// The flat slot of cell `(red, green, blue)`.
fn get_index(red: usize, green: usize, blue: usize) -> (r: usize)
    requires
        red <= 32,
        green <= 32,
        blue <= 32,
    ensures
        r == index_of(red as int, green as int, blue as int),
        r < TOTAL_SIZE,
{
    red * INDEX_COUNT * INDEX_COUNT + green * INDEX_COUNT + blue
}

/// What `pixel` adds to a histogram of moment `m`.
fn moment_of(pixel: Argb, m: Moment) -> (r: i128)
    ensures
        r == moment_value(pixel@, m),
{
    let red = pixel.red() as i128;
    let green = pixel.green() as i128;
    let blue = pixel.blue() as i128;
    match m {
        Moment::Weight => 1,
        Moment::Red => red,
        Moment::Green => green,
        Moment::Blue => blue,
        Moment::Square => {
            assert(0 <= red * red <= 65025) by (nonlinear_arith)
                requires
                    0 <= red <= 255,
            ;
            assert(0 <= green * green <= 65025) by (nonlinear_arith)
                requires
                    0 <= green <= 255,
            ;
            assert(0 <= blue * blue <= 65025) by (nonlinear_arith)
                requires
                    0 <= blue <= 255,
            ;
            red * red + green * green + blue * blue
        },
    }
}

/// The histogram cell (1..=32) of a channel value: its top five bits plus one.
fn cell_of(channel: u8) -> (r: usize)
    ensures
        r == cell_coord(channel),
        1 <= r <= 32,
{
    assert(channel >> 3u8 == channel / 8) by (bit_vector);
    ((channel >> 3u8) as usize) + 1
}

proof fn lemma_index_injective(r: int, g: int, b: int, r2: int, g2: int, b2: int)
    requires
        in_grid(r, g, b),
        in_grid(r2, g2, b2),
        index_of(r, g, b) == index_of(r2, g2, b2),
    ensures
        r == r2 && g == g2 && b == b2,
{
}

/// The histogram of moment `m` over the cells of `pixels`.
fn construct_histogram(pixels: &[Argb], m: Moment) -> (h: Vec<i128>)
    requires
        pixels.len() <= max_pixels(),
    ensures
        is_histogram(h@, pixels@, m),
{
    let mut h: Vec<i128> = vec![0; TOTAL_SIZE];
    let n = pixels.len();
    proof {
        assert forall|r: int, g: int, b: int| in_grid(r, g, b) implies #[trigger] h@[index_of(
            r,
            g,
            b,
        )] == box_sum(pixels@.take(0), m, unit_cell(r, g, b)) by {
            assert(pixels@.take(0).len() == 0);
        }
    }
    for i in 0..n
        invariant
            n == pixels.len(),
            n <= max_pixels(),
            is_histogram(h@, pixels@.take(i as int), m),
    {
        let pixel = pixels[i];
        let cr = cell_of(pixel.red());
        let cg = cell_of(pixel.green());
        let cb = cell_of(pixel.blue());
        let index = get_index(cr, cg, cb);
        let value = moment_of(pixel, m);
        let ghost before = pixels@.take(i as int);
        let ghost after = pixels@.take(i + 1);
        proof {
            assert(after.drop_last() =~= before);
            assert(after.last() == pixel);
            lemma_box_sum_bounds(after, m, unit_cell(cr as int, cg as int, cb as int));
            lemma_moment_bounds(pixel@, m);
            assert(h@[index_of(cr as int, cg as int, cb as int)] == box_sum(
                before,
                m,
                unit_cell(cr as int, cg as int, cb as int),
            ));
            assert(in_cells(pixel@, unit_cell(cr as int, cg as int, cb as int)));
            assert(after.len() * moment_max(m) <= 0x80_8080_8080_8080 * 195075) by (nonlinear_arith)
                requires
                    after.len() <= 0x80_8080_8080_8080,
                    moment_max(m) <= 195075,
            ;
        }
        let updated = h[index] + value;
        h.set(index, updated);
        proof {
            assert forall|r: int, g: int, b: int| in_grid(r, g, b) implies #[trigger] h@[index_of(
                r,
                g,
                b,
            )] == box_sum(after, m, unit_cell(r, g, b)) by {
                if index_of(r, g, b) == index as int {
                    lemma_index_injective(r, g, b, cr as int, cg as int, cb as int);
                } else {
                    assert(!in_cells(pixel@, unit_cell(r, g, b)));
                }
            }
        }
    }
    proof {
        assert(pixels@.take(n as int) =~= pixels@);
    }
    h
}

/// Whether cell `(r2, g2, b2)` comes before cell `(r, g, b)` in the order in
/// which `compute_moments` visits cells.
pub open spec fn visited_before(r2: int, g2: int, b2: int, r: int, g: int, b: int) -> bool {
    r2 < r || (r2 == r && (g2 < g || (g2 == g && b2 < b)))
}

/// The cells visited so far hold cumulative sums, the others histogram sums.
pub open spec fn partly_cumulative(
    h: Seq<i128>,
    ps: Seq<Argb>,
    m: Moment,
    r: int,
    g: int,
    b: int,
) -> bool {
    &&& h.len() == TOTAL_SIZE
    &&& forall|r2: int, g2: int, b2: int|
        in_grid(r2, g2, b2) ==> #[trigger] h[index_of(r2, g2, b2)] == if visited_before(
            r2,
            g2,
            b2,
            r,
            g,
            b,
        ) {
            box_sum(ps, m, prefix_cells(r2, g2, b2))
        } else {
            box_sum(ps, m, unit_cell(r2, g2, b2))
        }
}

proof fn lemma_bound_fits(ps: Seq<Argb>, m: Moment, b: CellRange)
    requires
        ps.len() <= max_pixels(),
    ensures
        0 <= box_sum(ps, m, b) <= 0x200_0000_0000_0000_0000,
{
    lemma_box_sum_bounds(ps, m, b);
    assert(ps.len() * moment_max(m) <= 0x80_8080_8080_8080 * 195075) by (nonlinear_arith)
        requires
            ps.len() <= 0x80_8080_8080_8080,
            0 <= moment_max(m) <= 195075,
    ;
}

/// Turns a histogram into cumulative sums: afterwards slot `(r, g, b)` holds
/// the moment summed over all cells `(i, j, k)` with `i <= r`, `j <= g`,
/// `k <= b`.
fn compute_moments(h: &mut Vec<i128>, Ghost(ps): Ghost<Seq<Argb>>, Ghost(m): Ghost<Moment>)
    requires
        is_histogram(old(h)@, ps, m),
        ps.len() <= max_pixels(),
    ensures
        is_cumulative(final(h)@, ps, m),
{
    proof {
        assert forall|r2: int, g2: int, b2: int| in_grid(r2, g2, b2) implies #[trigger] h@[index_of(
            r2,
            g2,
            b2,
        )] == if visited_before(r2, g2, b2, 1, 1, 1) {
            box_sum(ps, m, prefix_cells(r2, g2, b2))
        } else {
            box_sum(ps, m, unit_cell(r2, g2, b2))
        } by {
            if r2 == 0 || g2 == 0 || b2 == 0 {
                lemma_box_sum_empty(ps, m, prefix_cells(r2, g2, b2));
                lemma_box_sum_empty(ps, m, unit_cell(r2, g2, b2));
            }
        }
    }
    let mut red: usize = 1;
    while red < INDEX_COUNT
        invariant
            1 <= red <= INDEX_COUNT,
            ps.len() <= max_pixels(),
            partly_cumulative(h@, ps, m, red as int, 1, 1),
        decreases INDEX_COUNT - red,
    {
        let mut area: Vec<i128> = vec![0; INDEX_COUNT];
        proof {
            assert forall|b2: int| 0 <= b2 <= 32 implies #[trigger] area@[b2] == box_sum(
                ps,
                m,
                (red - 1, red as int, 0, 0, 0, b2),
            ) by {
                lemma_box_sum_empty(ps, m, (red - 1, red as int, 0, 0, 0, b2));
            }
        }
        let mut green: usize = 1;
        while green < INDEX_COUNT
            invariant
                1 <= red < INDEX_COUNT,
                1 <= green <= INDEX_COUNT,
                ps.len() <= max_pixels(),
                area@.len() == INDEX_COUNT,
                forall|b2: int|
                    0 <= b2 <= 32 ==> #[trigger] area@[b2] == box_sum(
                        ps,
                        m,
                        (red - 1, red as int, 0, green - 1, 0, b2),
                    ),
                partly_cumulative(h@, ps, m, red as int, green as int, 1),
            decreases INDEX_COUNT - green,
        {
            let mut line: i128 = 0;
            proof {
                lemma_box_sum_empty(ps, m, (red - 1, red as int, green - 1, green as int, 0, 0));
                lemma_box_sum_empty(ps, m, (red - 1, red as int, 0, green as int, 0, 0));
                lemma_box_sum_empty(ps, m, (red - 1, red as int, 0, green - 1, 0, 0));
            }
            let mut blue: usize = 1;
            while blue < INDEX_COUNT
                invariant
                    1 <= red < INDEX_COUNT,
                    1 <= green < INDEX_COUNT,
                    1 <= blue <= INDEX_COUNT,
                    ps.len() <= max_pixels(),
                    area@.len() == INDEX_COUNT,
                    line == box_sum(ps, m, (red - 1, red as int, green - 1, green as int, 0, blue - 1)),
                    forall|b2: int|
                        0 <= b2 <= 32 ==> #[trigger] area@[b2] == if b2 < blue {
                            box_sum(ps, m, (red - 1, red as int, 0, green as int, 0, b2))
                        } else {
                            box_sum(ps, m, (red - 1, red as int, 0, green - 1, 0, b2))
                        },
                    partly_cumulative(h@, ps, m, red as int, green as int, blue as int),
                decreases INDEX_COUNT - blue,
            {
                let index = get_index(red, green, blue);
                let previous_index = get_index(red - 1, green, blue);
                let ghost r = red as int;
                let ghost g = green as int;
                let ghost b = blue as int;
                proof {
                    assert(h@[index_of(r, g, b)] == box_sum(ps, m, unit_cell(r, g, b)));
                    assert(h@[index_of(r - 1, g, b)] == box_sum(ps, m, prefix_cells(r - 1, g, b)));
                    lemma_split_blue(ps, m, (r - 1, r, g - 1, g, 0, b), b - 1);
                    lemma_bound_fits(ps, m, (r - 1, r, g - 1, g, 0, b));
                }
                line = line + h[index];
                proof {
                    assert(area@[b] == box_sum(ps, m, (r - 1, r, 0, g - 1, 0, b)));
                    lemma_split_green(ps, m, (r - 1, r, 0, g, 0, b), g - 1);
                    lemma_bound_fits(ps, m, (r - 1, r, 0, g, 0, b));
                }
                let new_area = area[blue] + line;
                area.set(blue, new_area);
                proof {
                    lemma_split_red(ps, m, prefix_cells(r, g, b), r - 1);
                    lemma_bound_fits(ps, m, prefix_cells(r, g, b));
                }
                let cumulative = h[previous_index] + new_area;
                h.set(index, cumulative);
                proof {
                    assert forall|r2: int, g2: int, b2: int| in_grid(r2, g2, b2) implies #[trigger] h@[index_of(
                        r2,
                        g2,
                        b2,
                    )] == if visited_before(r2, g2, b2, r, g, b + 1) {
                        box_sum(ps, m, prefix_cells(r2, g2, b2))
                    } else {
                        box_sum(ps, m, unit_cell(r2, g2, b2))
                    } by {
                        if index_of(r2, g2, b2) == index as int {
                            lemma_index_injective(r2, g2, b2, r, g, b);
                        }
                    }
                }
                blue = blue + 1;
            }
            proof {
                let r = red as int;
                let g = green as int;
                assert(blue == 33);
                assert(partly_cumulative(h@, ps, m, r, g, 33));
                assert forall|r2: int, g2: int, b2: int| in_grid(r2, g2, b2) implies #[trigger] h@[index_of(
                    r2,
                    g2,
                    b2,
                )] == if visited_before(r2, g2, b2, r, g + 1, 1) {
                    box_sum(ps, m, prefix_cells(r2, g2, b2))
                } else {
                    box_sum(ps, m, unit_cell(r2, g2, b2))
                } by {
                    assert(h@[index_of(r2, g2, b2)] == if visited_before(r2, g2, b2, r, g, 33) {
                        box_sum(ps, m, prefix_cells(r2, g2, b2))
                    } else {
                        box_sum(ps, m, unit_cell(r2, g2, b2))
                    });
                    if r2 == r && g2 == g + 1 && b2 == 0 {
                        lemma_box_sum_empty(ps, m, prefix_cells(r2, g2, b2));
                        lemma_box_sum_empty(ps, m, unit_cell(r2, g2, b2));
                    }
                    if r2 == r && g2 == g && b2 == 0 {
                        lemma_box_sum_empty(ps, m, prefix_cells(r2, g2, b2));
                        lemma_box_sum_empty(ps, m, unit_cell(r2, g2, b2));
                    }
                }
            }
            green = green + 1;
        }
        proof {
            let r = red as int;
            assert forall|r2: int, g2: int, b2: int| in_grid(r2, g2, b2) implies #[trigger] h@[index_of(
                r2,
                g2,
                b2,
            )] == if visited_before(r2, g2, b2, r + 1, 1, 1) {
                box_sum(ps, m, prefix_cells(r2, g2, b2))
            } else {
                box_sum(ps, m, unit_cell(r2, g2, b2))
            } by {
                assert(h@[index_of(r2, g2, b2)] == if visited_before(r2, g2, b2, r, 33, 1) {
                    box_sum(ps, m, prefix_cells(r2, g2, b2))
                } else {
                    box_sum(ps, m, unit_cell(r2, g2, b2))
                });
                if r2 == r + 1 && (g2 == 0 || b2 == 0) {
                    lemma_box_sum_empty(ps, m, prefix_cells(r2, g2, b2));
                    lemma_box_sum_empty(ps, m, unit_cell(r2, g2, b2));
                }
                if r2 == r && g2 == 0 {
                    lemma_box_sum_empty(ps, m, prefix_cells(r2, g2, b2));
                    lemma_box_sum_empty(ps, m, unit_cell(r2, g2, b2));
                }
                if r2 == r && b2 == 0 {
                    lemma_box_sum_empty(ps, m, prefix_cells(r2, g2, b2));
                    lemma_box_sum_empty(ps, m, unit_cell(r2, g2, b2));
                }
            }
        }
        red = red + 1;
    }
}

/// Four prefix sums at red coordinate `x` combine into the sum over the
/// green-blue rectangle `(g0, g1] x (b0, b1]` of all cells with red `<= x`.
proof fn lemma_face_red(ps: Seq<Argb>, m: Moment, x: int, g0: int, g1: int, b0: int, b1: int)
    requires
        0 <= g0 <= g1,
        0 <= b0 <= b1,
    ensures
        box_sum(ps, m, prefix_cells(x, g1, b1)) - box_sum(ps, m, prefix_cells(x, g1, b0)) - box_sum(
            ps,
            m,
            prefix_cells(x, g0, b1),
        ) + box_sum(ps, m, prefix_cells(x, g0, b0)) == box_sum(ps, m, (0, x, g0, g1, b0, b1)),
{
    lemma_split_blue(ps, m, prefix_cells(x, g1, b1), b0);
    lemma_split_blue(ps, m, prefix_cells(x, g0, b1), b0);
    lemma_split_green(ps, m, (0, x, 0, g1, b0, b1), g0);
}

/// The green-axis counterpart of `lemma_face_red`.
proof fn lemma_face_green(ps: Seq<Argb>, m: Moment, y: int, r0: int, r1: int, b0: int, b1: int)
    requires
        0 <= r0 <= r1,
        0 <= b0 <= b1,
    ensures
        box_sum(ps, m, prefix_cells(r1, y, b1)) - box_sum(ps, m, prefix_cells(r1, y, b0)) - box_sum(
            ps,
            m,
            prefix_cells(r0, y, b1),
        ) + box_sum(ps, m, prefix_cells(r0, y, b0)) == box_sum(ps, m, (r0, r1, 0, y, b0, b1)),
{
    lemma_split_blue(ps, m, prefix_cells(r1, y, b1), b0);
    lemma_split_blue(ps, m, prefix_cells(r0, y, b1), b0);
    lemma_split_red(ps, m, (0, r1, 0, y, b0, b1), r0);
}

/// The blue-axis counterpart of `lemma_face_red`.
proof fn lemma_face_blue(ps: Seq<Argb>, m: Moment, z: int, r0: int, r1: int, g0: int, g1: int)
    requires
        0 <= r0 <= r1,
        0 <= g0 <= g1,
    ensures
        box_sum(ps, m, prefix_cells(r1, g1, z)) - box_sum(ps, m, prefix_cells(r1, g0, z)) - box_sum(
            ps,
            m,
            prefix_cells(r0, g1, z),
        ) + box_sum(ps, m, prefix_cells(r0, g0, z)) == box_sum(ps, m, (r0, r1, g0, g1, 0, z)),
{
    lemma_split_green(ps, m, prefix_cells(r1, g1, z), g0);
    lemma_split_green(ps, m, prefix_cells(r0, g1, z), g0);
    lemma_split_red(ps, m, (0, r1, g0, g1, 0, z), r0);
}

/// An axis-aligned box of histogram cells `(r0, r1] x (g0, g1] x (b0, b1]`
/// together with its cell count.
#[derive(Clone, Copy, Debug, Default)]
struct Box3d {
    r0: usize,
    r1: usize,
    g0: usize,
    g1: usize,
    b0: usize,
    b1: usize,
    volume: usize,
}

/// The cell range that a box covers.
spec fn range_of(b: Box3d) -> CellRange {
    (b.r0 as int, b.r1 as int, b.g0 as int, b.g1 as int, b.b0 as int, b.b1 as int)
}

/// Each axis range is ordered and inside the grid.
spec fn valid_box(b: Box3d) -> bool {
    b.r0 <= b.r1 <= 32 && b.g0 <= b.g1 <= 32 && b.b0 <= b.b1 <= 32
}

/// The axis along which a box is cut.
#[derive(Clone, Copy, Debug, PartialEq, Eq, Structural)]
pub enum Direction {
    Red,
    Green,
    Blue,
}

/// The part of `b` below the cut at `position` along `d`.
pub open spec fn lower_part(b: CellRange, d: Direction, position: int) -> CellRange {
    match d {
        Direction::Red => (b.0, position, b.2, b.3, b.4, b.5),
        Direction::Green => (b.0, b.1, b.2, position, b.4, b.5),
        Direction::Blue => (b.0, b.1, b.2, b.3, b.4, position),
    }
}

/// The part of `b` above the cut at `position` along `d`.
pub open spec fn upper_part(b: CellRange, d: Direction, position: int) -> CellRange {
    match d {
        Direction::Red => (position, b.1, b.2, b.3, b.4, b.5),
        Direction::Green => (b.0, b.1, position, b.3, b.4, b.5),
        Direction::Blue => (b.0, b.1, b.2, b.3, position, b.5),
    }
}

/// The lower end of `b` along `d`.
pub open spec fn axis_low(b: CellRange, d: Direction) -> int {
    match d {
        Direction::Red => b.0,
        Direction::Green => b.2,
        Direction::Blue => b.4,
    }
}

/// The upper end of `b` along `d`.
pub open spec fn axis_high(b: CellRange, d: Direction) -> int {
    match d {
        Direction::Red => b.1,
        Direction::Green => b.3,
        Direction::Blue => b.5,
    }
}

/// The moment summed over the cells of `cube`.
fn volume(cube: Box3d, moment: &Vec<i128>, Ghost(ps): Ghost<Seq<Argb>>, Ghost(m): Ghost<Moment>) -> (r: i128)
    requires
        valid_box(cube),
        is_cumulative(moment@, ps, m),
        ps.len() <= max_pixels(),
    ensures
        r == box_sum(ps, m, range_of(cube)),
{
    let ghost (r0, r1, g0, g1, b0, b1) = range_of(cube);
    let i1 = get_index(cube.r1, cube.g1, cube.b1);
    let i2 = get_index(cube.r1, cube.g1, cube.b0);
    let i3 = get_index(cube.r1, cube.g0, cube.b1);
    let i4 = get_index(cube.r1, cube.g0, cube.b0);
    let i5 = get_index(cube.r0, cube.g1, cube.b1);
    let i6 = get_index(cube.r0, cube.g1, cube.b0);
    let i7 = get_index(cube.r0, cube.g0, cube.b1);
    let i8 = get_index(cube.r0, cube.g0, cube.b0);
    proof {
        lemma_corner_values(moment@, ps, m, r0, r1, g0, g1, b0, b1);
        lemma_face_red(ps, m, r1, g0, g1, b0, b1);
        lemma_face_red(ps, m, r0, g0, g1, b0, b1);
        lemma_split_red(ps, m, (0, r1, g0, g1, b0, b1), r0);
    }
    moment[i1] - moment[i2] - moment[i3] + moment[i4] - moment[i5] + moment[i6] + moment[i7]
        - moment[i8]
}

/// The cells of `b` along the two other axes, but from 0 to `position` along
/// `d`.
spec fn slab_to(b: CellRange, d: Direction, position: int) -> CellRange {
    match d {
        Direction::Red => (0, position, b.2, b.3, b.4, b.5),
        Direction::Green => (b.0, b.1, 0, position, b.4, b.5),
        Direction::Blue => (b.0, b.1, b.2, b.3, 0, position),
    }
}

/// The slab up to `position` minus the slab up to the box's lower end along
/// `d` is the part of the box below `position`.
proof fn lemma_slab_difference(ps: Seq<Argb>, m: Moment, b: CellRange, d: Direction, position: int)
    requires
        0 <= axis_low(b, d) <= position,
    ensures
        box_sum(ps, m, slab_to(b, d, position)) - box_sum(ps, m, slab_to(b, d, axis_low(b, d)))
            == box_sum(ps, m, lower_part(b, d, position)),
{
    match d {
        Direction::Red => lemma_split_red(ps, m, slab_to(b, d, position), b.0),
        Direction::Green => lemma_split_green(ps, m, slab_to(b, d, position), b.2),
        Direction::Blue => lemma_split_blue(ps, m, slab_to(b, d, position), b.4),
    }
}

/// Facts about the eight prefix sums at the corners spanned by the given
/// coordinates.
proof fn lemma_corner_values(
    moment: Seq<i128>,
    ps: Seq<Argb>,
    m: Moment,
    r0: int,
    r1: int,
    g0: int,
    g1: int,
    b0: int,
    b1: int,
)
    requires
        is_cumulative(moment, ps, m),
        ps.len() <= max_pixels(),
        in_grid(r0, g0, b0),
        in_grid(r1, g1, b1),
    ensures
        moment[index_of(r1, g1, b1)] == box_sum(ps, m, prefix_cells(r1, g1, b1)),
        moment[index_of(r1, g1, b0)] == box_sum(ps, m, prefix_cells(r1, g1, b0)),
        moment[index_of(r1, g0, b1)] == box_sum(ps, m, prefix_cells(r1, g0, b1)),
        moment[index_of(r1, g0, b0)] == box_sum(ps, m, prefix_cells(r1, g0, b0)),
        moment[index_of(r0, g1, b1)] == box_sum(ps, m, prefix_cells(r0, g1, b1)),
        moment[index_of(r0, g1, b0)] == box_sum(ps, m, prefix_cells(r0, g1, b0)),
        moment[index_of(r0, g0, b1)] == box_sum(ps, m, prefix_cells(r0, g0, b1)),
        moment[index_of(r0, g0, b0)] == box_sum(ps, m, prefix_cells(r0, g0, b0)),
        0 <= moment[index_of(r1, g1, b1)] <= 0x200_0000_0000_0000_0000,
        0 <= moment[index_of(r1, g1, b0)] <= 0x200_0000_0000_0000_0000,
        0 <= moment[index_of(r1, g0, b1)] <= 0x200_0000_0000_0000_0000,
        0 <= moment[index_of(r1, g0, b0)] <= 0x200_0000_0000_0000_0000,
        0 <= moment[index_of(r0, g1, b1)] <= 0x200_0000_0000_0000_0000,
        0 <= moment[index_of(r0, g1, b0)] <= 0x200_0000_0000_0000_0000,
        0 <= moment[index_of(r0, g0, b1)] <= 0x200_0000_0000_0000_0000,
        0 <= moment[index_of(r0, g0, b0)] <= 0x200_0000_0000_0000_0000,
{
    lemma_bound_fits(ps, m, prefix_cells(r1, g1, b1));
    lemma_bound_fits(ps, m, prefix_cells(r1, g1, b0));
    lemma_bound_fits(ps, m, prefix_cells(r1, g0, b1));
    lemma_bound_fits(ps, m, prefix_cells(r1, g0, b0));
    lemma_bound_fits(ps, m, prefix_cells(r0, g1, b1));
    lemma_bound_fits(ps, m, prefix_cells(r0, g1, b0));
    lemma_bound_fits(ps, m, prefix_cells(r0, g0, b1));
    lemma_bound_fits(ps, m, prefix_cells(r0, g0, b0));
}

/// Minus the moment summed over the slab of cells from 0 up to the lower end
/// of `cube` along `direction`.
fn bottom(
    cube: Box3d,
    direction: Direction,
    moment: &Vec<i128>,
    Ghost(ps): Ghost<Seq<Argb>>,
    Ghost(m): Ghost<Moment>,
) -> (r: i128)
    requires
        valid_box(cube),
        is_cumulative(moment@, ps, m),
        ps.len() <= max_pixels(),
    ensures
        r == -box_sum(
            ps,
            m,
            slab_to(range_of(cube), direction, axis_low(range_of(cube), direction)),
        ),
{
    let ghost (r0, r1, g0, g1, b0, b1) = range_of(cube);
    proof {
        lemma_corner_values(moment@, ps, m, r0, r1, g0, g1, b0, b1);
    }
    match direction {
        Direction::Red => {
            proof {
                lemma_face_red(ps, m, r0, g0, g1, b0, b1);
            }
            -moment[get_index(cube.r0, cube.g1, cube.b1)] + moment[get_index(
                cube.r0,
                cube.g1,
                cube.b0,
            )] + moment[get_index(cube.r0, cube.g0, cube.b1)] - moment[get_index(
                cube.r0,
                cube.g0,
                cube.b0,
            )]
        },
        Direction::Green => {
            proof {
                lemma_face_green(ps, m, g0, r0, r1, b0, b1);
            }
            -moment[get_index(cube.r1, cube.g0, cube.b1)] + moment[get_index(
                cube.r1,
                cube.g0,
                cube.b0,
            )] + moment[get_index(cube.r0, cube.g0, cube.b1)] - moment[get_index(
                cube.r0,
                cube.g0,
                cube.b0,
            )]
        },
        Direction::Blue => {
            proof {
                lemma_face_blue(ps, m, b0, r0, r1, g0, g1);
            }
            -moment[get_index(cube.r1, cube.g1, cube.b0)] + moment[get_index(
                cube.r1,
                cube.g0,
                cube.b0,
            )] + moment[get_index(cube.r0, cube.g1, cube.b0)] - moment[get_index(
                cube.r0,
                cube.g0,
                cube.b0,
            )]
        },
    }
}

/// The moment summed over the slab of cells from 0 up to `position` along
/// `direction`, within the extent of `cube` along the other two axes.
fn top(
    cube: Box3d,
    direction: Direction,
    position: usize,
    moment: &Vec<i128>,
    Ghost(ps): Ghost<Seq<Argb>>,
    Ghost(m): Ghost<Moment>,
) -> (r: i128)
    requires
        valid_box(cube),
        position <= 32,
        is_cumulative(moment@, ps, m),
        ps.len() <= max_pixels(),
    ensures
        r == box_sum(ps, m, slab_to(range_of(cube), direction, position as int)),
{
    let ghost (r0, r1, g0, g1, b0, b1) = range_of(cube);
    let ghost p = position as int;
    match direction {
        Direction::Red => {
            proof {
                lemma_corner_values(moment@, ps, m, r0, p, g0, g1, b0, b1);
                lemma_face_red(ps, m, p, g0, g1, b0, b1);
            }
            moment[get_index(position, cube.g1, cube.b1)] - moment[get_index(
                position,
                cube.g1,
                cube.b0,
            )] - moment[get_index(position, cube.g0, cube.b1)] + moment[get_index(
                position,
                cube.g0,
                cube.b0,
            )]
        },
        Direction::Green => {
            proof {
                lemma_corner_values(moment@, ps, m, r0, r1, g0, p, b0, b1);
                lemma_face_green(ps, m, p, r0, r1, b0, b1);
            }
            moment[get_index(cube.r1, position, cube.b1)] - moment[get_index(
                cube.r1,
                position,
                cube.b0,
            )] - moment[get_index(cube.r0, position, cube.b1)] + moment[get_index(
                cube.r0,
                position,
                cube.b0,
            )]
        },
        Direction::Blue => {
            proof {
                lemma_corner_values(moment@, ps, m, r0, r1, g0, g1, b0, p);
                lemma_face_blue(ps, m, p, r0, r1, g0, g1);
            }
            moment[get_index(cube.r1, cube.g1, position)] - moment[get_index(
                cube.r1,
                cube.g0,
                position,
            )] - moment[get_index(cube.r0, cube.g1, position)] + moment[get_index(
                cube.r0,
                cube.g0,
                position,
            )]
        },
    }
}

/// The product `a * b` as its high and low 128-bit halves.
fn wide_mul(a: u128, b: u128) -> (r: (u128, u128))
    ensures
        r.0 * 0x1_0000_0000_0000_0000_0000_0000_0000_0000 + r.1 == a * b,
        r.1 < 0x1_0000_0000_0000_0000_0000_0000_0000_0000,
{
    let base: u128 = 0x1_0000_0000_0000_0000;
    let a1 = a / base;
    let a0 = a % base;
    let b1 = b / base;
    let b0 = b % base;
    proof {
        assert(a1 < base && b1 < base);
        assert(a0 * b0 < base * base) by (nonlinear_arith)
            requires a0 < base, b0 < base, base > 0;
        assert(a0 * b1 < base * base) by (nonlinear_arith)
            requires a0 < base, b1 < base, base > 0;
        assert(a1 * b0 < base * base) by (nonlinear_arith)
            requires a1 < base, b0 < base, base > 0;
        assert(a1 * b1 < base * base) by (nonlinear_arith)
            requires a1 < base, b1 < base, base > 0;
    }
    let p00 = a0 * b0;
    let p01 = a0 * b1;
    let p10 = a1 * b0;
    let p11 = a1 * b1;
    let mid = p00 / base + p01 % base + p10 % base;
    let lo = p00 % base + (mid % base) * base;
    proof {
        let ai = a as int;
        let bi = b as int;
        let x = ai * bi;
        assert(ai == a1 * 0x1_0000_0000_0000_0000 + a0 && bi == b1 * 0x1_0000_0000_0000_0000 + b0);
        assert(x == p11 * 0x1_0000_0000_0000_0000_0000_0000_0000_0000 + (p01 + p10)
            * 0x1_0000_0000_0000_0000 + p00) by (nonlinear_arith)
            requires
                x == ai * bi,
                ai == a1 * 0x1_0000_0000_0000_0000 + a0,
                bi == b1 * 0x1_0000_0000_0000_0000 + b0,
                p00 == a0 * b0,
                p01 == a0 * b1,
                p10 == a1 * b0,
                p11 == a1 * b1,
        ;
        let h = p11 + p01 / base + p10 / base + mid / base;
        assert(x == h * 0x1_0000_0000_0000_0000_0000_0000_0000_0000 + (mid % base)
            * 0x1_0000_0000_0000_0000 + p00 % base);
        assert(ai < 0x1_0000_0000_0000_0000_0000_0000_0000_0000);
        assert(bi < 0x1_0000_0000_0000_0000_0000_0000_0000_0000);
        assert(x < 0x1_0000_0000_0000_0000_0000_0000_0000_0000
            * 0x1_0000_0000_0000_0000_0000_0000_0000_0000) by (nonlinear_arith)
            requires
                x == ai * bi,
                0 <= ai < 0x1_0000_0000_0000_0000_0000_0000_0000_0000,
                0 <= bi < 0x1_0000_0000_0000_0000_0000_0000_0000_0000,
        ;
        assert(h < 0x1_0000_0000_0000_0000_0000_0000_0000_0000);
    }
    let hi = p11 + p01 / base + p10 / base + mid / base;
    (hi, lo)
}

/// Whether `a * b > c * d`, on 256-bit products.
fn product_greater(a: u128, b: u128, c: u128, d: u128) -> (r: bool)
    ensures
        r == (a * b > c * d),
{
    let (h1, l1) = wide_mul(a, b);
    let (h2, l2) = wide_mul(c, d);
    proof {
        let w = 0x1_0000_0000_0000_0000_0000_0000_0000_0000int;
        if h1 > h2 {
            assert(h1 * w + l1 > h2 * w + l2) by (nonlinear_arith)
                requires h1 >= h2 + 1, 0 <= l1, l2 < w, w > 0;
        } else if h1 < h2 {
            assert(h1 * w + l1 < h2 * w + l2) by (nonlinear_arith)
                requires h2 >= h1 + 1, 0 <= l2, l1 < w, w > 0;
        }
    }
    h1 > h2 || (h1 == h2 && l1 > l2)
}

/// Comparing two numbers `f + n / d` (with `0 <= n < d`) as fractions
/// `(f * d + n) / d` comes down to their whole parts, then their fractional
/// parts.
proof fn lemma_mixed_compare(f1: int, n1: int, d1: int, f2: int, n2: int, d2: int)
    requires
        0 <= n1 < d1,
        0 <= n2 < d2,
    ensures
        ((f1 * d1 + n1) * d2 > (f2 * d2 + n2) * d1) == (f1 > f2 || (f1 == f2 && n1 * d2 > n2
            * d1)),
{
    assert((f1 * d1 + n1) * d2 - (f2 * d2 + n2) * d1 == (f1 - f2) * (d1 * d2) + (n1 * d2 - n2
        * d1)) by (nonlinear_arith);
    assert(0 <= n1 * d2 < d1 * d2) by (nonlinear_arith)
        requires 0 <= n1 < d1, 0 < d2;
    assert(0 <= n2 * d1 < d1 * d2) by (nonlinear_arith)
        requires 0 <= n2 < d2, 0 < d1;
    if f1 > f2 {
        assert((f1 - f2) * (d1 * d2) >= d1 * d2) by (nonlinear_arith)
            requires f1 - f2 >= 1, d1 * d2 > 0;
    } else if f1 < f2 {
        assert((f1 - f2) * (d1 * d2) <= -(d1 * d2)) by (nonlinear_arith)
            requires f1 - f2 <= -1, d1 * d2 > 0;
    } else {
        assert((f1 - f2) * (d1 * d2) == 0) by (nonlinear_arith)
            requires f1 == f2;
    }
}

/// A number `i + n / w` (with `0 <= n < w`) is at most zero exactly when its
/// whole part is negative, or zero with no fractional part.
proof fn lemma_mixed_sign(i: int, n: int, w: int)
    requires
        0 <= n < w,
    ensures
        (i * w + n <= 0) == (i < 0 || (i == 0 && n == 0)),
{
    if i < 0 {
        assert(i * w + n < 0) by (nonlinear_arith)
            requires i <= -1, 0 <= n < w;
    } else if i > 0 {
        assert(i * w + n > 0) by (nonlinear_arith)
            requires i >= 1, 0 <= n, w > 0;
    }
}

/// A split score `f + n / d` as whole part, numerator and denominator, with
/// `0 <= n < d`.
spec fn score_ok(x: (u128, u128, u128)) -> bool {
    0 < x.2 && x.1 < x.2
}

/// Whether score `x` exceeds score `y`, as the fractions
/// `(f * d + n) / d` compare.
fn score_greater(x: (u128, u128, u128), y: (u128, u128, u128)) -> (r: bool)
    requires
        score_ok(x),
        score_ok(y),
    ensures
        r == ((x.0 * x.2 + x.1) * y.2 > (y.0 * y.2 + y.1) * x.2),
{
    proof {
        lemma_mixed_compare(x.0 as int, x.1 as int, x.2 as int, y.0 as int, y.1 as int, y.2 as int);
    }
    if x.0 != y.0 {
        x.0 > y.0
    } else {
        product_greater(x.1, y.2, y.1, x.2)
    }
}

/// The five cumulative moment tables of a pixel list.
struct Moments {
    weights: Vec<i128>,
    red: Vec<i128>,
    green: Vec<i128>,
    blue: Vec<i128>,
    squares: Vec<i128>,
}

spec fn moments_of(mo: &Moments, ps: Seq<Argb>) -> bool {
    &&& is_cumulative(mo.weights@, ps, Moment::Weight)
    &&& is_cumulative(mo.red@, ps, Moment::Red)
    &&& is_cumulative(mo.green@, ps, Moment::Green)
    &&& is_cumulative(mo.blue@, ps, Moment::Blue)
    &&& is_cumulative(mo.squares@, ps, Moment::Square)
    &&& ps.len() <= max_pixels()
}

/// The squared length of the summed color of the pixels in `b`.
pub open spec fn sum_square(ps: Seq<Argb>, b: CellRange) -> int {
    box_sum(ps, Moment::Red, b) * box_sum(ps, Moment::Red, b) + box_sum(ps, Moment::Green, b)
        * box_sum(ps, Moment::Green, b) + box_sum(ps, Moment::Blue, b) * box_sum(
        ps,
        Moment::Blue,
        b,
    )
}

/// The score of cutting `b` at `c` along `d`, as the fraction
/// `|S_a|^2 / w_a + |S_b|^2 / w_b` over the two parts `a` and `b` with
/// summed colors `S` and pixel counts `w`: numerator and denominator.
pub open spec fn split_fraction(ps: Seq<Argb>, b: CellRange, d: Direction, c: int) -> (int, int) {
    let lo = lower_part(b, d, c);
    let hi = upper_part(b, d, c);
    (
        sum_square(ps, lo) * box_sum(ps, Moment::Weight, hi) + sum_square(ps, hi) * box_sum(
            ps,
            Moment::Weight,
            lo,
        ),
        box_sum(ps, Moment::Weight, lo) * box_sum(ps, Moment::Weight, hi),
    )
}

/// Scanning the cut positions `first..end` along `d` in order: the best
/// score so far (starting from 0/1) and the first position reaching it.
/// Only positions that leave pixels on both sides count, and a position
/// replaces the best one only with a strictly greater score.
pub open spec fn best_cut_scan(ps: Seq<Argb>, b: CellRange, d: Direction, first: int, end: int) -> (
    int,
    int,
    Option<int>,
)
    decreases end - first,
{
    if end <= first {
        (0, 1, None)
    } else {
        let prev = best_cut_scan(ps, b, d, first, end - 1);
        let c = end - 1;
        if box_sum(ps, Moment::Weight, lower_part(b, d, c)) != 0 && box_sum(
            ps,
            Moment::Weight,
            upper_part(b, d, c),
        ) != 0 {
            let score = split_fraction(ps, b, d, c);
            if score.0 * prev.1 > prev.0 * score.1 {
                (score.0, score.1, Some(c))
            } else {
                prev
            }
        } else {
            prev
        }
    }
}

/// The best cut of `b` along `d`, over all positions strictly inside it.
pub open spec fn axis_best(ps: Seq<Argb>, b: CellRange, d: Direction) -> (int, int, Option<int>) {
    best_cut_scan(ps, b, d, axis_low(b, d) + 1, axis_high(b, d))
}

/// The cut that Wu's quantizer makes in `b`: along the axis with the best
/// score (red, then green, then blue on ties) at that axis's best position;
/// `None` when that axis has no position leaving pixels on both sides.
pub open spec fn wu_cut(ps: Seq<Argb>, b: CellRange) -> Option<(Direction, int)> {
    let red = axis_best(ps, b, Direction::Red);
    let green = axis_best(ps, b, Direction::Green);
    let blue = axis_best(ps, b, Direction::Blue);
    let chosen = if red.0 * green.1 >= green.0 * red.1 && red.0 * blue.1 >= blue.0 * red.1 {
        (Direction::Red, red.2)
    } else if green.0 * red.1 >= red.0 * green.1 && green.0 * blue.1 >= blue.0 * green.1 {
        (Direction::Green, green.2)
    } else {
        (Direction::Blue, blue.2)
    };
    match chosen.1 {
        Some(c) => Some((chosen.0, c)),
        None => None,
    }
}

/// The number of cells of a range.
pub open spec fn range_cells(b: CellRange) -> int {
    (b.1 - b.0) * (b.3 - b.2) * (b.5 - b.4)
}

/// The variance recorded for a box just cut out: `W * Q - |S|^2` over `W`
/// for its pixel count `W`, summed color `S` and summed squared channels
/// `Q`; 0/1 for a box of at most one cell.
pub open spec fn cut_variance(ps: Seq<Argb>, b: CellRange) -> (int, int) {
    if range_cells(b) > 1 {
        (
            box_sum(ps, Moment::Square, b) * box_sum(ps, Moment::Weight, b) - sum_square(ps, b),
            box_sum(ps, Moment::Weight, b),
        )
    } else {
        (0, 1)
    }
}

/// The first of the boxes `0..=last` with the largest recorded variance.
pub open spec fn widest_box(variances: Seq<(int, int)>, last: int) -> int
    decreases last,
{
    if last <= 0 {
        0
    } else {
        let p = widest_box(variances, last - 1);
        if variances[last].0 * variances[p].1 > variances[p].0 * variances[last].1 {
            last
        } else {
            p
        }
    }
}

/// The state of Wu's quantizer between cuts: the boxes so far, the variance
/// recorded for each, the box to cut next, and whether no box is worth
/// cutting any more.
pub struct WuState {
    pub boxes: Seq<CellRange>,
    pub variances: Seq<(int, int)>,
    pub next: int,
    pub done: bool,
}

/// The quantizer starts from the whole grid as one box.
pub open spec fn wu_start() -> WuState {
    WuState {
        boxes: seq![(0int, 32int, 0int, 32int, 0int, 32int)],
        variances: seq![(0int, 1int)],
        next: 0,
        done: false,
    }
}

/// Whether the quantizer has stopped: nothing is worth cutting, or it holds
/// `max_colors` boxes.
pub open spec fn wu_finished(max_colors: int, s: WuState) -> bool {
    s.done || s.boxes.len() >= max_colors
}

/// One round of the quantizer: cut the chosen box in two (or, when it
/// cannot be cut, record it as not worth cutting), then choose the box with
/// the largest variance, and stop when that variance is not positive.
pub open spec fn wu_step(ps: Seq<Argb>, max_colors: int, s: WuState) -> WuState {
    if wu_finished(max_colors, s) {
        s
    } else {
        let b = s.boxes[s.next];
        let cut = wu_cut(ps, b);
        let boxes = match cut {
            Some(dc) => s.boxes.update(s.next, lower_part(b, dc.0, dc.1)).push(
                upper_part(b, dc.0, dc.1),
            ),
            None => s.boxes,
        };
        let variances = match cut {
            Some(dc) => s.variances.update(
                s.next,
                cut_variance(ps, lower_part(b, dc.0, dc.1)),
            ).push(cut_variance(ps, upper_part(b, dc.0, dc.1))),
            None => s.variances.update(s.next, (0int, 1int)),
        };
        let next = widest_box(variances, boxes.len() - 1);
        WuState { boxes, variances, next, done: variances[next].0 <= 0 }
    }
}

/// The state of the quantizer after `k` rounds.
pub open spec fn wu_rounds(ps: Seq<Argb>, max_colors: int, k: nat) -> WuState
    decreases k,
{
    if k == 0 {
        wu_start()
    } else {
        wu_step(ps, max_colors, wu_rounds(ps, max_colors, (k - 1) as nat))
    }
}

/// A position found by the scan lies in the scanned positions.
proof fn lemma_scan_position(ps: Seq<Argb>, b: CellRange, d: Direction, first: int, end: int)
    ensures
        best_cut_scan(ps, b, d, first, end).2 matches Some(c) ==> first <= c < end,
    decreases end - first,
{
    if end > first {
        lemma_scan_position(ps, b, d, first, end - 1);
    }
}

/// The cut chosen for a box lies strictly inside it.
proof fn lemma_cut_inside(ps: Seq<Argb>, b: CellRange)
    ensures
        wu_cut(ps, b) matches Some(dc) ==> axis_low(b, dc.0) < dc.1 < axis_high(b, dc.0),
{
    lemma_scan_position(ps, b, Direction::Red, axis_low(b, Direction::Red) + 1, axis_high(b, Direction::Red));
    lemma_scan_position(ps, b, Direction::Green, axis_low(b, Direction::Green) + 1, axis_high(b, Direction::Green));
    lemma_scan_position(ps, b, Direction::Blue, axis_low(b, Direction::Blue) + 1, axis_high(b, Direction::Blue));
}

/// The widest box is one of the boxes considered.
proof fn lemma_widest_box_range(variances: Seq<(int, int)>, last: int)
    requires
        last >= 0,
    ensures
        0 <= widest_box(variances, last) <= last,
    decreases last,
{
    if last > 0 {
        lemma_widest_box_range(variances, last - 1);
    }
}

/// Every state the quantizer passes through has its boxes partition the
/// grid, with no more boxes than `max_colors` (and at least one), one
/// recorded variance per box, and the next box to cut among them.
pub proof fn lemma_wu_rounds_partition(ps: Seq<Argb>, max_colors: int, k: nat)
    requires
        max_colors >= 1,
    ensures
        is_partition(wu_rounds(ps, max_colors, k).boxes),
        1 <= wu_rounds(ps, max_colors, k).boxes.len() <= max_colors,
        wu_rounds(ps, max_colors, k).variances.len() == wu_rounds(ps, max_colors, k).boxes.len(),
        0 <= wu_rounds(ps, max_colors, k).next < wu_rounds(ps, max_colors, k).boxes.len(),
    decreases k,
{
    if k == 0 {
        lemma_whole_grid_partition(wu_start().boxes);
    } else {
        let prev = wu_rounds(ps, max_colors, (k - 1) as nat);
        lemma_wu_rounds_partition(ps, max_colors, (k - 1) as nat);
        if !wu_finished(max_colors, prev) {
            let b = prev.boxes[prev.next];
            lemma_cut_inside(ps, b);
            let s = wu_step(ps, max_colors, prev);
            match wu_cut(ps, b) {
                Some(dc) => {
                    lemma_split_partition(prev.boxes, prev.next, dc.0, dc.1);
                },
                None => {},
            }
            lemma_widest_box_range(s.variances, s.boxes.len() - 1);
        }
    }
}

/// A finished quantizer stays as it is in later rounds.
proof fn lemma_finished_stays(ps: Seq<Argb>, max_colors: int, k1: nat, k: nat)
    requires
        wu_finished(max_colors, wu_rounds(ps, max_colors, k1)),
        k1 <= k,
    ensures
        wu_rounds(ps, max_colors, k) == wu_rounds(ps, max_colors, k1),
    decreases k - k1,
{
    if k > k1 {
        lemma_finished_stays(ps, max_colors, k1, (k - 1) as nat);
    }
}

/// The quantizer finishes in one state only: whichever round count it is
/// observed finished at, the boxes (and so the colors) are the same.
pub proof fn lemma_wu_result_unique(ps: Seq<Argb>, max_colors: int, k1: nat, k2: nat)
    requires
        wu_finished(max_colors, wu_rounds(ps, max_colors, k1)),
        wu_finished(max_colors, wu_rounds(ps, max_colors, k2)),
    ensures
        wu_rounds(ps, max_colors, k1) == wu_rounds(ps, max_colors, k2),
{
    if k1 <= k2 {
        lemma_finished_stays(ps, max_colors, k1, k2);
    } else {
        lemma_finished_stays(ps, max_colors, k2, k1);
    }
}

/// The score `|S_a|^2 / w_a + |S_b|^2 / w_b` of two pixel groups with
/// summed channels `S` and weights `w`, as whole part, numerator and
/// denominator `w_a * w_b`.
fn split_score(
    ar: i128,
    ag: i128,
    ab: i128,
    aw: i128,
    br: i128,
    bg: i128,
    bb: i128,
    bw: i128,
) -> (r: (u128, u128, u128))
    requires
        0 < aw <= max_pixels(),
        0 < bw <= max_pixels(),
        0 <= ar <= 255 * aw,
        0 <= ag <= 255 * aw,
        0 <= ab <= 255 * aw,
        0 <= br <= 255 * bw,
        0 <= bg <= 255 * bw,
        0 <= bb <= 255 * bw,
    ensures
        r.0 * r.2 + r.1 == (ar * ar + ag * ag + ab * ab) * bw + (br * br + bg * bg + bb * bb) * aw,
        r.2 == aw * bw,
        score_ok(r),
{
    let ghost mp = max_pixels();
    let (sa, wa) = channel_square(ar, ag, ab, aw);
    let (sb, wb) = channel_square(br, bg, bb, bw);
    let fa = sa / wa;
    let ra = sa % wa;
    let fb = sb / wb;
    let rb = sb % wb;
    proof {
        assert(fa <= 195075 * mp) by (nonlinear_arith)
            requires sa <= 195075 * wa * wa, fa == sa / wa, wa > 0, wa <= mp;
        assert(fb <= 195075 * mp) by (nonlinear_arith)
            requires sb <= 195075 * wb * wb, fb == sb / wb, wb > 0, wb <= mp;
        assert(wa * wb <= mp * mp) by (nonlinear_arith)
            requires 0 < wa <= mp, 0 < wb <= mp;
        assert(ra * wb < wa * wb) by (nonlinear_arith)
            requires 0 <= ra < wa, wb > 0;
        assert(rb * wa < wa * wb) by (nonlinear_arith)
            requires 0 <= rb < wb, wa > 0;
    }
    let d = wa * wb;
    let n = ra * wb + rb * wa;
    let f = fa + fb;
    proof {
        vstd::arithmetic::div_mod::lemma_fundamental_div_mod(sa as int, wa as int);
        vstd::arithmetic::div_mod::lemma_fundamental_div_mod(sb as int, wb as int);
        assert(sa == fa * wa + ra && sb == fb * wb + rb) by (nonlinear_arith)
            requires
                sa == wa * (sa / wa) + sa % wa,
                sb == wb * (sb / wb) + sb % wb,
                fa == sa / wa,
                ra == sa % wa,
                fb == sb / wb,
                rb == sb % wb,
        ;
        assert(f * d + n == sa * wb + sb * wa) by (nonlinear_arith)
            requires
                sa == fa * wa + ra,
                sb == fb * wb + rb,
                d == wa * wb,
                n == ra * wb + rb * wa,
                f == fa + fb,
        ;
    }
    if n >= d {
        proof {
            assert((f + 1) * d + (n - d) == f * d + n) by (nonlinear_arith);
        }
        (f + 1, n - d, d)
    } else {
        (f, n, d)
    }
}

/// The squared length `|S|^2` of summed channels over `w` pixels, and `w`,
/// as unsigned integers.
fn channel_square(r: i128, g: i128, b: i128, w: i128) -> (out: (u128, u128))
    requires
        0 < w <= max_pixels(),
        0 <= r <= 255 * w,
        0 <= g <= 255 * w,
        0 <= b <= 255 * w,
    ensures
        out.0 == r * r + g * g + b * b,
        out.0 <= 195075 * w * w,
        out.1 == w,
{
    let ghost mp = max_pixels();
    proof {
        assert(r * r <= 65025 * (w * w)) by (nonlinear_arith)
            requires 0 <= r <= 255 * w;
        assert(g * g <= 65025 * (w * w)) by (nonlinear_arith)
            requires 0 <= g <= 255 * w;
        assert(b * b <= 65025 * (w * w)) by (nonlinear_arith)
            requires 0 <= b <= 255 * w;
        assert(w * w <= mp * mp) by (nonlinear_arith)
            requires 0 < w <= mp;
        assert(195075 * (mp * mp) < 0x1_0000_0000_0000_0000_0000_0000_0000_0000);
        assert(0 <= r * r && 0 <= g * g && 0 <= b * b) by (nonlinear_arith);
        assert(195075 * w * w == 195075 * (w * w)) by (nonlinear_arith);
    }
    let (r, g, b, w) = (r as u128, g as u128, b as u128, w as u128);
    (r * r + g * g + b * b, w)
}

/// A box is the union of its parts below and above a cut along any axis.
proof fn lemma_lower_upper(ps: Seq<Argb>, m: Moment, b: CellRange, d: Direction, c: int)
    requires
        axis_low(b, d) <= c <= axis_high(b, d),
    ensures
        box_sum(ps, m, b) == box_sum(ps, m, lower_part(b, d, c)) + box_sum(
            ps,
            m,
            upper_part(b, d, c),
        ),
{
    match d {
        Direction::Red => lemma_split_red(ps, m, b, c),
        Direction::Green => lemma_split_green(ps, m, b, c),
        Direction::Blue => lemma_split_blue(ps, m, b, c),
    }
}

/// Bounds on the sums of a range that keep the arithmetic of the quantizer
/// inside machine integers.
proof fn lemma_range_bounds(ps: Seq<Argb>, b: CellRange)
    requires
        ps.len() <= max_pixels(),
    ensures
        0 <= box_sum(ps, Moment::Weight, b) <= max_pixels(),
        0 <= box_sum(ps, Moment::Red, b) <= 255 * box_sum(ps, Moment::Weight, b),
        0 <= box_sum(ps, Moment::Green, b) <= 255 * box_sum(ps, Moment::Weight, b),
        0 <= box_sum(ps, Moment::Blue, b) <= 255 * box_sum(ps, Moment::Weight, b),
        0 <= box_sum(ps, Moment::Square, b) <= 195075 * box_sum(ps, Moment::Weight, b),
{
    lemma_box_sum_bounds(ps, Moment::Weight, b);
    lemma_box_sum_bounds(ps, Moment::Red, b);
    lemma_box_sum_bounds(ps, Moment::Green, b);
    lemma_box_sum_bounds(ps, Moment::Blue, b);
    lemma_box_sum_bounds(ps, Moment::Square, b);
}

/// The moment summed over the part of `cube` below the cut at `position`.
fn lower_sum(
    cube: Box3d,
    direction: Direction,
    position: usize,
    bottom_value: i128,
    moment: &Vec<i128>,
    Ghost(ps): Ghost<Seq<Argb>>,
    Ghost(m): Ghost<Moment>,
) -> (r: i128)
    requires
        valid_box(cube),
        axis_low(range_of(cube), direction) <= position <= 32,
        is_cumulative(moment@, ps, m),
        ps.len() <= max_pixels(),
        bottom_value == -box_sum(
            ps,
            m,
            slab_to(range_of(cube), direction, axis_low(range_of(cube), direction)),
        ),
    ensures
        r == box_sum(ps, m, lower_part(range_of(cube), direction, position as int)),
{
    let t = top(cube, direction, position, moment, Ghost(ps), Ghost(m));
    proof {
        lemma_slab_difference(ps, m, range_of(cube), direction, position as int);
        lemma_bound_fits(ps, m, slab_to(range_of(cube), direction, position as int));
        lemma_bound_fits(
            ps,
            m,
            slab_to(range_of(cube), direction, axis_low(range_of(cube), direction)),
        );
    }
    bottom_value + t
}

/// Searches the cut positions `first..last` along `direction` for the one
/// whose two non-empty halves maximise `|S_a|^2 / w_a + |S_b|^2 / w_b`.
/// Returns that maximum as whole part, numerator and denominator (zero when
/// no position qualifies) and the first position reaching it.
fn maximize(
    cube: Box3d,
    direction: Direction,
    first: usize,
    last: usize,
    whole_weight: i128,
    whole_red: i128,
    whole_green: i128,
    whole_blue: i128,
    mo: &Moments,
    Ghost(ps): Ghost<Seq<Argb>>,
) -> (r: ((u128, u128, u128), Option<usize>))
    requires
        valid_box(cube),
        moments_of(mo, ps),
        axis_low(range_of(cube), direction) < first,
        last <= axis_high(range_of(cube), direction),
        whole_weight == box_sum(ps, Moment::Weight, range_of(cube)),
        whole_red == box_sum(ps, Moment::Red, range_of(cube)),
        whole_green == box_sum(ps, Moment::Green, range_of(cube)),
        whole_blue == box_sum(ps, Moment::Blue, range_of(cube)),
    ensures
        score_ok(r.0),
        r.0.0 * r.0.2 + r.0.1 == best_cut_scan(ps, range_of(cube), direction, first as int, last as int).0,
        r.0.2 == best_cut_scan(ps, range_of(cube), direction, first as int, last as int).1,
        r.1 is Some <==> best_cut_scan(ps, range_of(cube), direction, first as int, last as int).2 is Some,
        r.1 is Some ==> r.1->0 == best_cut_scan(ps, range_of(cube), direction, first as int, last as int).2->0,
        r.1 is Some ==> {
            let c = r.1->0;
            &&& first <= c < last
            &&& box_sum(ps, Moment::Weight, lower_part(range_of(cube), direction, c as int)) > 0
            &&& box_sum(ps, Moment::Weight, upper_part(range_of(cube), direction, c as int)) > 0
        },
{
    let bottom_red = bottom(cube, direction, &mo.red, Ghost(ps), Ghost(Moment::Red));
    let bottom_green = bottom(cube, direction, &mo.green, Ghost(ps), Ghost(Moment::Green));
    let bottom_blue = bottom(cube, direction, &mo.blue, Ghost(ps), Ghost(Moment::Blue));
    let bottom_weight = bottom(cube, direction, &mo.weights, Ghost(ps), Ghost(Moment::Weight));
    let mut best: (u128, u128, u128) = (0, 0, 1);
    let mut cut: Option<usize> = None;
    let ghost b = range_of(cube);
    let mut index = first;
    while index < last
        invariant
            valid_box(cube),
            moments_of(mo, ps),
            b == range_of(cube),
            axis_low(b, direction) < first,
            first <= index,
            index == first || index <= last,
            last <= axis_high(b, direction),
            whole_weight == box_sum(ps, Moment::Weight, b),
            whole_red == box_sum(ps, Moment::Red, b),
            whole_green == box_sum(ps, Moment::Green, b),
            whole_blue == box_sum(ps, Moment::Blue, b),
            bottom_red == -box_sum(ps, Moment::Red, slab_to(b, direction, axis_low(b, direction))),
            bottom_green == -box_sum(
                ps,
                Moment::Green,
                slab_to(b, direction, axis_low(b, direction)),
            ),
            bottom_blue == -box_sum(
                ps,
                Moment::Blue,
                slab_to(b, direction, axis_low(b, direction)),
            ),
            bottom_weight == -box_sum(
                ps,
                Moment::Weight,
                slab_to(b, direction, axis_low(b, direction)),
            ),
            score_ok(best),
            best.0 * best.2 + best.1 == best_cut_scan(ps, b, direction, first as int, index as int).0,
            best.2 == best_cut_scan(ps, b, direction, first as int, index as int).1,
            cut is Some <==> best_cut_scan(ps, b, direction, first as int, index as int).2 is Some,
            cut is Some ==> cut->0 == best_cut_scan(ps, b, direction, first as int, index as int).2->0,
            cut is Some ==> {
                let c = cut->0;
                &&& first <= c < last
                &&& box_sum(ps, Moment::Weight, lower_part(b, direction, c as int)) > 0
                &&& box_sum(ps, Moment::Weight, upper_part(b, direction, c as int)) > 0
            },
        decreases last - index,
    {
        let half_red = lower_sum(cube, direction, index, bottom_red, &mo.red, Ghost(ps), Ghost(Moment::Red));
        let half_green = lower_sum(cube, direction, index, bottom_green, &mo.green, Ghost(ps), Ghost(Moment::Green));
        let half_blue = lower_sum(cube, direction, index, bottom_blue, &mo.blue, Ghost(ps), Ghost(Moment::Blue));
        let half_weight = lower_sum(cube, direction, index, bottom_weight, &mo.weights, Ghost(ps), Ghost(Moment::Weight));
        let ghost lower = lower_part(b, direction, index as int);
        let ghost upper = upper_part(b, direction, index as int);
        proof {
            lemma_range_bounds(ps, lower);
            lemma_range_bounds(ps, upper);
            lemma_lower_upper(ps, Moment::Weight, b, direction, index as int);
            lemma_lower_upper(ps, Moment::Red, b, direction, index as int);
            lemma_lower_upper(ps, Moment::Green, b, direction, index as int);
            lemma_lower_upper(ps, Moment::Blue, b, direction, index as int);
        }
        proof {
            assert(sum_square(ps, lower) == half_red * half_red + half_green * half_green
                + half_blue * half_blue);
        }
        if half_weight != 0 {
            let rest_red = whole_red - half_red;
            let rest_green = whole_green - half_green;
            let rest_blue = whole_blue - half_blue;
            let rest_weight = whole_weight - half_weight;
            if rest_weight != 0 {
                let score = split_score(
                    half_red,
                    half_green,
                    half_blue,
                    half_weight,
                    rest_red,
                    rest_green,
                    rest_blue,
                    rest_weight,
                );
                if score_greater(score, best) {
                    best = score;
                    cut = Some(index);
                }
            }
        }
        index = index + 1;
    }
    proof {
        if index > last {
            assert(best_cut_scan(ps, b, direction, first as int, last as int) == (0int, 1int, None::<int>));
            assert(best_cut_scan(ps, b, direction, first as int, index as int) == (0int, 1int, None::<int>));
        }
    }
    (best, cut)
}

/// The number of cells of a box.
spec fn cell_count(b: Box3d) -> int {
    (b.r1 - b.r0) * (b.g1 - b.g0) * (b.b1 - b.b0)
}

/// A valid box whose `volume` field is its cell count.
spec fn sized_box(b: Box3d) -> bool {
    valid_box(b) && b.volume == cell_count(b)
}

/// The cell count of a valid box.
fn box_volume(b: &Box3d) -> (r: usize)
    requires
        valid_box(*b),
    ensures
        r == cell_count(*b),
{
    let dr = b.r1 - b.r0;
    let dg = b.g1 - b.g0;
    let db = b.b1 - b.b0;
    assert(dr * dg <= 1024) by (nonlinear_arith)
        requires
            0 <= dr <= 32,
            0 <= dg <= 32,
    ;
    assert(dr * dg * db <= 32768) by (nonlinear_arith)
        requires
            0 <= dr * dg <= 1024,
            0 <= db <= 32,
    ;
    dr * dg * db
}

/// Whether score `x` is at least score `y`.
fn score_at_least(x: (u128, u128, u128), y: (u128, u128, u128)) -> (r: bool)
    requires
        score_ok(x),
        score_ok(y),
    ensures
        r == ((x.0 * x.2 + x.1) * y.2 >= (y.0 * y.2 + y.1) * x.2),
{
    !score_greater(y, x)
}

/// Tries to cut `box1` in two along the axis and position where the two
/// halves differ most. It succeeds exactly when two of the box's pixels lie
/// in different cells; then `box1` keeps the lower half, `box2` receives the
/// upper half, both halves hold pixels, their sums add up to the box's, and
/// `true` is returned; otherwise neither box changes.
fn cut(box1: &mut Box3d, box2: &mut Box3d, mo: &Moments, Ghost(ps): Ghost<Seq<Argb>>) -> (r: bool)
    requires
        valid_box(*old(box1)),
        moments_of(mo, ps),
    ensures
        r ==> exists|d: Direction, c: int|
            {
                &&& axis_low(range_of(*old(box1)), d) < c < axis_high(range_of(*old(box1)), d)
                &&& range_of(*final(box1)) == lower_part(range_of(*old(box1)), d, c)
                &&& range_of(*final(box2)) == upper_part(range_of(*old(box1)), d, c)
                &&& box_sum(ps, Moment::Weight, range_of(*final(box1))) > 0
                &&& box_sum(ps, Moment::Weight, range_of(*final(box2))) > 0
            },
        r ==> sized_box(*final(box1)) && sized_box(*final(box2)),
        r ==> forall|m: Moment|
            #[trigger] box_sum(ps, m, range_of(*old(box1))) == box_sum(ps, m, range_of(*final(box1)))
                + box_sum(ps, m, range_of(*final(box2))),
        !r ==> *final(box1) == *old(box1) && *final(box2) == *old(box2),
        r == (wu_cut(ps, range_of(*old(box1))) is Some),
        r == spans_two_cells(ps, range_of(*old(box1))),
        r ==> match wu_cut(ps, range_of(*old(box1))) {
            Some(dc) => {
                &&& range_of(*final(box1)) == lower_part(range_of(*old(box1)), dc.0, dc.1)
                &&& range_of(*final(box2)) == upper_part(range_of(*old(box1)), dc.0, dc.1)
            },
            None => false,
        },
{
    let cube = *box1;
    proof {
        lemma_cut_exists_iff_two_cells(ps, range_of(cube));
    }
    let whole_red = volume(cube, &mo.red, Ghost(ps), Ghost(Moment::Red));
    let whole_green = volume(cube, &mo.green, Ghost(ps), Ghost(Moment::Green));
    let whole_blue = volume(cube, &mo.blue, Ghost(ps), Ghost(Moment::Blue));
    let whole_weight = volume(cube, &mo.weights, Ghost(ps), Ghost(Moment::Weight));

    let (max_red, cut_red) = maximize(
        cube,
        Direction::Red,
        cube.r0 + 1,
        cube.r1,
        whole_weight,
        whole_red,
        whole_green,
        whole_blue,
        mo,
        Ghost(ps),
    );
    let (max_green, cut_green) = maximize(
        cube,
        Direction::Green,
        cube.g0 + 1,
        cube.g1,
        whole_weight,
        whole_red,
        whole_green,
        whole_blue,
        mo,
        Ghost(ps),
    );
    let (max_blue, cut_blue) = maximize(
        cube,
        Direction::Blue,
        cube.b0 + 1,
        cube.b1,
        whole_weight,
        whole_red,
        whole_green,
        whole_blue,
        mo,
        Ghost(ps),
    );

    let red_wins = score_at_least(max_red, max_green) && score_at_least(max_red, max_blue);
    let green_wins = score_at_least(max_green, max_red) && score_at_least(max_green, max_blue);
    let (direction, position) = if red_wins {
        match cut_red {
            Some(c) => (Direction::Red, c),
            None => return false,
        }
    } else if green_wins {
        match cut_green {
            Some(c) => (Direction::Green, c),
            None => return false,
        }
    } else {
        match cut_blue {
            Some(c) => (Direction::Blue, c),
            None => return false,
        }
    };

    box2.r1 = box1.r1;
    box2.g1 = box1.g1;
    box2.b1 = box1.b1;
    match direction {
        Direction::Red => {
            box2.r0 = position;
            box1.r1 = position;
            box2.g0 = box1.g0;
            box2.b0 = box1.b0;
        },
        Direction::Green => {
            box2.r0 = box1.r0;
            box2.g0 = position;
            box1.g1 = position;
            box2.b0 = box1.b0;
        },
        Direction::Blue => {
            box2.r0 = box1.r0;
            box2.g0 = box1.g0;
            box2.b0 = position;
            box1.b1 = position;
        },
    }
    let v1 = box_volume(box1);
    box1.volume = v1;
    let v2 = box_volume(box2);
    box2.volume = v2;
    proof {
        assert(range_of(*box1) == lower_part(range_of(cube), direction, position as int));
        assert(range_of(*box2) == upper_part(range_of(cube), direction, position as int));
        assert forall|m: Moment| #[trigger] box_sum(ps, m, range_of(cube)) == box_sum(
            ps,
            m,
            range_of(*box1),
        ) + box_sum(ps, m, range_of(*box2)) by {
            lemma_lower_upper(ps, m, range_of(cube), direction, position as int);
        }
    }
    true
}

/// `W * Q - |S|^2` over `W` is the variance of the pixels in `cube`, where
/// `W` is their count, `S` their summed color and `Q` their summed squared
/// channels; returns it as whole part `i`, numerator `n` and denominator
/// `W`, with `i * W + n` the numerator above and `0 <= n < W`.
fn variance(cube: Box3d, mo: &Moments, Ghost(ps): Ghost<Seq<Argb>>) -> (r: (i128, i128, i128))
    requires
        valid_box(cube),
        moments_of(mo, ps),
        box_sum(ps, Moment::Weight, range_of(cube)) > 0,
    ensures
        r.0 * r.2 + r.1 == box_sum(ps, Moment::Square, range_of(cube)) * box_sum(
            ps,
            Moment::Weight,
            range_of(cube),
        ) - sum_square(ps, range_of(cube)),
        r.2 == box_sum(ps, Moment::Weight, range_of(cube)),
        variance_ok(r),
{
    let red = volume(cube, &mo.red, Ghost(ps), Ghost(Moment::Red));
    let green = volume(cube, &mo.green, Ghost(ps), Ghost(Moment::Green));
    let blue = volume(cube, &mo.blue, Ghost(ps), Ghost(Moment::Blue));
    let moment = volume(cube, &mo.squares, Ghost(ps), Ghost(Moment::Square));
    let weight = volume(cube, &mo.weights, Ghost(ps), Ghost(Moment::Weight));
    let ghost mp = max_pixels();
    proof {
        lemma_range_bounds(ps, range_of(cube));
    }
    let (square, w) = channel_square(red, green, blue, weight);
    let whole = square / w;
    let rest = square % w;
    proof {
        assert(whole <= 195075 * mp) by (nonlinear_arith)
            requires square <= 195075 * w * w, whole == square / w, w > 0, w <= mp;
        assert(0 <= moment <= 195075 * mp) by (nonlinear_arith)
            requires 0 <= moment <= 195075 * weight, weight <= mp;
        vstd::arithmetic::div_mod::lemma_fundamental_div_mod(square as int, w as int);
        assert(square == whole * w + rest) by (nonlinear_arith)
            requires
                square == w * (square / w) + square % w,
                whole == square / w,
                rest == square % w,
        ;
    }
    let base = moment - whole as i128;
    if rest == 0 {
        proof {
            assert(base * weight + 0 == moment * weight - square) by (nonlinear_arith)
                requires
                    base == moment - whole,
                    square == whole * w + rest,
                    rest == 0,
                    w == weight,
            ;
        }
        (base, 0, weight)
    } else {
        proof {
            assert((base - 1) * weight + (weight - rest) == moment * weight - square)
                by (nonlinear_arith)
                requires
                    base == moment - whole,
                    square == whole * w + rest,
                    w == weight,
            ;
        }
        (base - 1, weight - rest as i128, weight)
    }
}

/// Whether cell `(i, j, k)` lies in range `b`.
pub open spec fn cell_in_range(i: int, j: int, k: int, b: CellRange) -> bool {
    b.0 < i <= b.1 && b.2 < j <= b.3 && b.4 < k <= b.5
}

/// The range is ordered along each axis and lies in the grid.
pub open spec fn grid_range(b: CellRange) -> bool {
    0 <= b.0 <= b.1 <= 32 && 0 <= b.2 <= b.3 <= 32 && 0 <= b.4 <= b.5 <= 32
}

/// The ranges are separated along some axis, so they share no cell.
pub open spec fn ranges_disjoint(a: CellRange, b: CellRange) -> bool {
    a.1 <= b.0 || b.1 <= a.0 || a.3 <= b.2 || b.3 <= a.2 || a.5 <= b.4 || b.5 <= a.4
}

/// The ranges lie in the grid, pairwise share no cell, and together cover
/// every cell `(i, j, k)` with `1 <= i, j, k <= 32`.
pub open spec fn is_partition(boxes: Seq<CellRange>) -> bool {
    &&& forall|t: int| 0 <= t < boxes.len() ==> grid_range(#[trigger] boxes[t])
    &&& forall|s: int, t: int|
        0 <= s < boxes.len() && 0 <= t < boxes.len() && s != t ==> ranges_disjoint(
            #[trigger] boxes[s],
            #[trigger] boxes[t],
        )
    &&& forall|i: int, j: int, k: int|
        1 <= i <= 32 && 1 <= j <= 32 && 1 <= k <= 32 ==> #[trigger] covered(boxes, i, j, k)
}

/// Some range of `boxes` holds cell `(i, j, k)`.
pub open spec fn covered(boxes: Seq<CellRange>, i: int, j: int, k: int) -> bool {
    exists|t: int| 0 <= t < boxes.len() && #[trigger] cell_in_range(i, j, k, boxes[t])
}

/// The color whose channels are the truncated means of the pixels in `b`.
pub open spec fn mean_color(ps: Seq<Argb>, b: CellRange) -> u32 {
    let w = box_sum(ps, Moment::Weight, b);
    pack_opaque(
        (box_sum(ps, Moment::Red, b) / w) as u8,
        (box_sum(ps, Moment::Green, b) / w) as u8,
        (box_sum(ps, Moment::Blue, b) / w) as u8,
    )
}

/// The mean colors of the ranges that hold at least one pixel, in order.
pub open spec fn box_means(ps: Seq<Argb>, boxes: Seq<CellRange>) -> Seq<u32>
    decreases boxes.len(),
{
    if boxes.len() == 0 {
        Seq::empty()
    } else {
        let earlier = box_means(ps, boxes.drop_last());
        if box_sum(ps, Moment::Weight, boxes.last()) > 0 {
            earlier.push(mean_color(ps, boxes.last()))
        } else {
            earlier
        }
    }
}

/// Cutting one range of a partition in two gives a partition.
proof fn lemma_split_partition(boxes: Seq<CellRange>, t: int, d: Direction, c: int)
    requires
        is_partition(boxes),
        0 <= t < boxes.len(),
        axis_low(boxes[t], d) < c < axis_high(boxes[t], d),
    ensures
        is_partition(
            boxes.update(t, lower_part(boxes[t], d, c)).push(upper_part(boxes[t], d, c)),
        ),
{
    let b = boxes[t];
    let nb = boxes.update(t, lower_part(b, d, c)).push(upper_part(b, d, c));
    let n = boxes.len();
    assert forall|u: int| 0 <= u < nb.len() implies grid_range(#[trigger] nb[u]) by {
        if u < n && u != t {
            assert(nb[u] == boxes[u]);
        }
    }
    assert forall|s: int, u: int|
        0 <= s < nb.len() && 0 <= u < nb.len() && s != u implies ranges_disjoint(
        #[trigger] nb[s],
        #[trigger] nb[u],
    ) by {
        if s < n && s != t {
            assert(nb[s] == boxes[s]);
            assert(ranges_disjoint(boxes[s], b));
        }
        if u < n && u != t {
            assert(nb[u] == boxes[u]);
            assert(ranges_disjoint(boxes[u], b));
        }
        if s < n && s != t && u < n && u != t {
            assert(ranges_disjoint(boxes[s], boxes[u]));
        }
    }
    assert forall|i: int, j: int, k: int|
        1 <= i <= 32 && 1 <= j <= 32 && 1 <= k <= 32 implies #[trigger] covered(nb, i, j, k) by {
        assert(covered(boxes, i, j, k));
        let w = choose|w: int| 0 <= w < n && #[trigger] cell_in_range(i, j, k, boxes[w]);
        if w != t {
            assert(nb[w] == boxes[w]);
            assert(cell_in_range(i, j, k, nb[w]));
        } else if cell_in_range(i, j, k, lower_part(b, d, c)) {
            assert(cell_in_range(i, j, k, nb[t]));
        } else {
            assert(cell_in_range(i, j, k, nb[n as int]));
        }
    }
}

/// The ranges of the first `n` boxes.
spec fn ranges(cubes: Seq<Box3d>, n: int) -> Seq<CellRange> {
    cubes.take(n).map_values(|b: Box3d| range_of(b))
}

/// The packed values of a list of colors.
pub open spec fn packed(colors: Seq<Argb>) -> Seq<u32> {
    colors.map_values(|c: Argb| c@)
}

/// The inputs on which the Wu quantizer returns no color at all.
pub open spec fn wu_degenerate(pixel_count: int, max_colors: u16) -> bool {
    max_colors == 0 || max_colors > 256 || pixel_count == 0
}

/// A pixel inside a range gives the range a positive weight.
proof fn lemma_member_weight(ps: Seq<Argb>, b: CellRange, idx: int)
    requires
        0 <= idx < ps.len(),
        in_cells(ps[idx]@, b),
    ensures
        box_sum(ps, Moment::Weight, b) >= 1,
    decreases ps.len(),
{
    if idx == ps.len() - 1 {
        lemma_box_sum_bounds(ps.drop_last(), Moment::Weight, b);
    } else {
        assert(ps.drop_last()[idx] == ps[idx]);
        lemma_member_weight(ps.drop_last(), b, idx);
    }
}

/// `box_means` lists at most one color per range, and at least one when
/// some range holds a pixel.
proof fn lemma_box_means_len(ps: Seq<Argb>, boxes: Seq<CellRange>, t: int)
    ensures
        box_means(ps, boxes).len() <= boxes.len(),
        0 <= t < boxes.len() && box_sum(ps, Moment::Weight, boxes[t]) > 0 ==> box_means(
            ps,
            boxes,
        ).len() >= 1,
    decreases boxes.len(),
{
    if boxes.len() > 0 {
        if 0 <= t < boxes.len() - 1 {
            assert(boxes.drop_last()[t] == boxes[t]);
        }
        lemma_box_means_len(ps, boxes.drop_last(), t);
    }
}

/// The whole grid is a partition of itself.
proof fn lemma_whole_grid_partition(boxes: Seq<CellRange>)
    requires
        boxes.len() == 1,
        boxes[0] == (0int, 32int, 0int, 32int, 0int, 32int),
    ensures
        is_partition(boxes),
{
    assert forall|i: int, j: int, k: int|
        1 <= i <= 32 && 1 <= j <= 32 && 1 <= k <= 32 implies #[trigger] covered(boxes, i, j, k) by {
        assert(cell_in_range(i, j, k, boxes[0]));
    }
}

/// Whether variance `a` exceeds variance `b`, as the fractions
/// `(i * w + n) / w` compare.
fn variance_greater(a: (i128, i128, i128), b: (i128, i128, i128)) -> (r: bool)
    requires
        variance_ok(a),
        variance_ok(b),
    ensures
        r == ((a.0 * a.2 + a.1) * b.2 > (b.0 * b.2 + b.1) * a.2),
{
    proof {
        lemma_mixed_compare(a.0 as int, a.1 as int, a.2 as int, b.0 as int, b.1 as int, b.2 as int);
        let mp = max_pixels();
        assert(a.1 * b.2 < mp * mp) by (nonlinear_arith)
            requires 0 <= a.1 < a.2, a.2 <= mp, 0 < b.2 <= mp;
        assert(b.1 * a.2 < mp * mp) by (nonlinear_arith)
            requires 0 <= b.1 < b.2, b.2 <= mp, 0 < a.2 <= mp;
        assert(0 <= a.1 * b.2 && 0 <= b.1 * a.2) by (nonlinear_arith)
            requires 0 <= a.1, 0 < b.2, 0 <= b.1, 0 < a.2;
    }
    if a.0 != b.0 {
        a.0 > b.0
    } else {
        a.1 * b.2 > b.1 * a.2
    }
}

/// Whether a recorded variance `i + n / w` is positive.
spec fn variance_positive(v: (i128, i128, i128)) -> bool {
    v.0 > 0 || (v.0 == 0 && v.1 > 0)
}

/// How many recorded variances are positive.
spec fn positive_count(vv: Seq<(i128, i128, i128)>) -> nat
    decreases vv.len(),
{
    if vv.len() == 0 {
        0
    } else {
        positive_count(vv.drop_last()) + if variance_positive(vv.last()) {
            1nat
        } else {
            0nat
        }
    }
}

/// Clearing a positive variance lowers the count of positive ones.
proof fn lemma_clear_positive(vv: Seq<(i128, i128, i128)>, t: int, v: (i128, i128, i128))
    requires
        0 <= t < vv.len(),
        variance_positive(vv[t]),
        !variance_positive(v),
    ensures
        positive_count(vv.update(t, v)) < positive_count(vv),
    decreases vv.len(),
{
    if t == vv.len() - 1 {
        assert(vv.update(t, v).drop_last() =~= vv.drop_last());
    } else {
        assert(vv.update(t, v).drop_last() =~= vv.drop_last().update(t, v));
        lemma_clear_positive(vv.drop_last(), t, v);
    }
}

/// A recorded variance `i + n / w`: `0 <= n < w`, `w` a pixel count, and
/// `i` within the range of a box's variance.
spec fn variance_ok(v: (i128, i128, i128)) -> bool {
    &&& 0 < v.2 <= max_pixels()
    &&& 0 <= v.1 < v.2
    &&& -0x800_0000_0000_0000_0000 <= v.0 <= 0x800_0000_0000_0000_0000
}

/// The variance recorded for a box after a cut: zero for boxes of at most
/// one cell.
fn box_variance(cube: Box3d, mo: &Moments, Ghost(ps): Ghost<Seq<Argb>>) -> (r: (i128, i128, i128))
    requires
        sized_box(cube),
        moments_of(mo, ps),
        box_sum(ps, Moment::Weight, range_of(cube)) > 0,
    ensures
        variance_ok(r),
        r.0 * r.2 + r.1 == cut_variance(ps, range_of(cube)).0,
        r.2 == cut_variance(ps, range_of(cube)).1,
{
    if cube.volume > 1 {
        variance(cube, mo, Ghost(ps))
    } else {
        (0, 0, 1)
    }
}

/// The histogram of moment `m` turned into cumulative sums.
fn cumulative_moment(pixels: &[Argb], m: Moment) -> (h: Vec<i128>)
    requires
        pixels.len() <= max_pixels(),
    ensures
        is_cumulative(h@, pixels@, m),
{
    let mut h = construct_histogram(pixels, m);
    compute_moments(&mut h, Ghost(pixels@), Ghost(m));
    h
}

/// `colors` is what the quantizer returns for `ps`: the mean colors of the
/// boxes it finishes with, in box order.
pub open spec fn wu_result(ps: Seq<Argb>, max_colors: int, colors: Seq<Argb>) -> bool {
    exists|k: nat|
        {
            &&& wu_finished(max_colors, #[trigger] wu_rounds(ps, max_colors, k))
            &&& packed(colors) == box_means(ps, wu_rounds(ps, max_colors, k).boxes)
        }
}

/// The first `n` recorded variances as pairs of integers.
spec fn int_pairs(vv: Seq<(i128, i128, i128)>, n: int) -> Seq<(int, int)> {
    vv.take(n).map_values(|p: (i128, i128, i128)| (p.0 * p.2 + p.1, p.2 as int))
}

/// Wu's color quantizer: repeatedly cuts the box of histogram cells with
/// the largest color variance in two, and returns the mean color of every
/// box that holds pixels.
///
/// The colors are exactly those of the boxes the quantizer finishes with
/// (`wu_rounds` run until `wu_finished`), in box order. Those boxes always
/// partition the 32x32x32 cell grid (each cell spans eight values per
/// channel), and there are at most `max_colors` of them. Inputs with
/// `max_colors` zero or above 256, or without pixels, give no colors.
///
/// Split scores and box variances are compared as exact fractions of
/// integers. A quantizer that compares them as `f64` values rounds them
/// first, so on near-ties whose difference lies below that rounding it can
/// pick another cut position or another box to cut next; everywhere else
/// the two agree.
///
/// At most `max_pixels()` pixels are accepted: beyond that a channel sum
/// over the pixels need not fit in a signed 64-bit integer, and the pixels
/// would not fit in any 57-bit address space.
pub fn quantize_wu(pixels: &[Argb], max_colors: u16) -> (r: Vec<Argb>)
    requires
        pixels.len() <= max_pixels(),
    ensures
        wu_degenerate(pixels@.len() as int, max_colors) ==> r@.len() == 0,
        !wu_degenerate(pixels@.len() as int, max_colors) ==> 1 <= r@.len() <= max_colors,
        !wu_degenerate(pixels@.len() as int, max_colors) ==> exists|boxes: Seq<CellRange>|
            {
                &&& is_partition(boxes)
                &&& 1 <= boxes.len() <= max_colors
                &&& packed(r@) == box_means(pixels@, boxes)
                &&& r@.len() == boxes.len()
                &&& (boxes.len() == max_colors || forall|t: int|
                    0 <= t < boxes.len() ==> !spans_two_cells(pixels@, #[trigger] boxes[t]))
            },
        !wu_degenerate(pixels@.len() as int, max_colors) ==> wu_result(pixels@, max_colors as int, r@),
        !wu_degenerate(pixels@.len() as int, max_colors) && occupied_cells(pixels@).len()
            >= max_colors ==> r@.len() == max_colors,
{
    if max_colors == 0 || max_colors > 256 || pixels.len() == 0 {
        return Vec::new();
    }
    let ghost ps = pixels@;
    let mo = Moments {
        weights: cumulative_moment(pixels, Moment::Weight),
        red: cumulative_moment(pixels, Moment::Red),
        green: cumulative_moment(pixels, Moment::Green),
        blue: cumulative_moment(pixels, Moment::Blue),
        squares: cumulative_moment(pixels, Moment::Square),
    };
    let max_count = max_colors as usize;

    let mut cubes: Vec<Box3d> = Vec::new();
    let mut volume_variance: Vec<(i128, i128, i128)> = Vec::new();
    while cubes.len() < MAX_COLORS
        invariant
            cubes.len() == volume_variance.len(),
            cubes.len() <= MAX_COLORS,
            forall|t: int| 0 <= t < cubes.len() ==> valid_box(#[trigger] cubes@[t]),
            forall|t: int| 0 <= t < volume_variance.len() ==> variance_ok(#[trigger] volume_variance@[t]),
            forall|t: int| 0 <= t < volume_variance.len() ==> #[trigger] volume_variance@[t] == (0i128, 0i128, 1i128),
        decreases MAX_COLORS - cubes.len(),
    {
        cubes.push(Box3d { r0: 0, r1: 0, g0: 0, g1: 0, b0: 0, b1: 0, volume: 0 });
        volume_variance.push((0, 0, 1));
    }
    cubes.set(0, Box3d { r0: 0, r1: INDEX_COUNT - 1, g0: 0, g1: INDEX_COUNT - 1, b0: 0, b1: INDEX_COUNT - 1, volume: 0 });
    proof {
        assert(ranges(cubes@, 1)[0] == (0int, 32int, 0int, 32int, 0int, 32int));
        lemma_whole_grid_partition(ranges(cubes@, 1));
        assert(ranges(cubes@, 1) =~= wu_start().boxes);
        assert(volume_variance@[0] == (0i128, 0i128, 1i128));
        assert(int_pairs(volume_variance@, 1) =~= wu_start().variances);
    }
    let ghost max_int = max_colors as int;
    let ghost mut rounds: nat = 0;

    let mut generated_color_count = max_count;
    let mut next: usize = 0;
    let mut index: usize = 1;
    let mut stop = false;
    while !stop && index < max_count
        invariant
            moments_of(&mo, ps),
            ps == pixels@,
            1 <= max_count <= MAX_COLORS,
            cubes.len() == MAX_COLORS,
            volume_variance.len() == MAX_COLORS,
            forall|t: int| 0 <= t < MAX_COLORS ==> valid_box(#[trigger] cubes@[t]),
            forall|t: int| 0 <= t < MAX_COLORS ==> variance_ok(#[trigger] volume_variance@[t]),
            !stop ==> {
                &&& 1 <= index <= max_count
                &&& next < index
                &&& generated_color_count == max_count
                &&& is_partition(ranges(cubes@, index as int))
            },
            !stop ==> (variance_positive(volume_variance@[next as int]) || forall|t: int|
                0 <= t < index ==> !variance_positive(#[trigger] volume_variance@[t])),
            stop ==> {
                &&& 1 <= generated_color_count <= max_count
                &&& is_partition(ranges(cubes@, generated_color_count as int))
            },
            max_int == max_count,
            !stop ==> {
                &&& ranges(cubes@, index as int) == wu_rounds(ps, max_int, rounds).boxes
                &&& int_pairs(volume_variance@, index as int) == wu_rounds(ps, max_int, rounds).variances
                &&& next == wu_rounds(ps, max_int, rounds).next
                &&& !wu_rounds(ps, max_int, rounds).done
            },
            stop ==> {
                &&& ranges(cubes@, generated_color_count as int) == wu_rounds(ps, max_int, rounds).boxes
                &&& wu_rounds(ps, max_int, rounds).done
            },
        decreases (if stop { 0int } else { max_count - index + 1 }), positive_count(volume_variance@),
    {
        let ghost state = wu_rounds(ps, max_int, rounds);
        let ghost b = state.boxes[next as int];
        proof {
            assert(!wu_finished(max_int, state));
            assert(b == range_of(cubes@[next as int]));
        }
        let ghost old_vv = volume_variance@;
        let ghost old_next = next;
        let mut box1 = cubes[next];
        let mut box2 = cubes[index];
        let ghost before = cubes@;
        if cut(&mut box1, &mut box2, &mo, Ghost(ps)) {
            cubes.set(next, box1);
            cubes.set(index, box2);
            proof {
                let (d, c) = choose|d: Direction, c: int|
                    {
                        &&& axis_low(range_of(before[next as int]), d) < c < axis_high(
                            range_of(before[next as int]),
                            d,
                        )
                        &&& range_of(box1) == lower_part(range_of(before[next as int]), d, c)
                        &&& range_of(box2) == upper_part(range_of(before[next as int]), d, c)
                        &&& box_sum(ps, Moment::Weight, range_of(box1)) > 0
                        &&& box_sum(ps, Moment::Weight, range_of(box2)) > 0
                    };
                let old_ranges = ranges(before, index as int);
                assert(old_ranges[next as int] == range_of(before[next as int]));
                lemma_split_partition(old_ranges, next as int, d, c);
                assert(ranges(cubes@, index + 1) =~= old_ranges.update(
                    next as int,
                    lower_part(old_ranges[next as int], d, c),
                ).push(upper_part(old_ranges[next as int], d, c)));
            }
            let v1 = box_variance(box1, &mo, Ghost(ps));
            volume_variance.set(next, v1);
            let v2 = box_variance(box2, &mo, Ghost(ps));
            volume_variance.set(index, v2);
            proof {
                let dc = wu_cut(ps, b)->0;
                assert(ranges(cubes@, index + 1) =~= state.boxes.update(
                    next as int,
                    lower_part(b, dc.0, dc.1),
                ).push(upper_part(b, dc.0, dc.1)));
                assert(int_pairs(volume_variance@, index + 1) =~= state.variances.update(
                    next as int,
                    cut_variance(ps, lower_part(b, dc.0, dc.1)),
                ).push(cut_variance(ps, upper_part(b, dc.0, dc.1))));
            }
        } else {
            volume_variance.set(next, (0, 0, 1));
            proof {
                if variance_positive(old_vv[old_next as int]) {
                    lemma_clear_positive(old_vv, old_next as int, (0, 0, 1));
                }
                assert(int_pairs(volume_variance@, index as int) =~= state.variances.update(
                    next as int,
                    (0int, 1int),
                ));
            }
            index = index - 1;
        }
        let ghost cut_variances = int_pairs(volume_variance@, index + 1);
        proof {
            assert(cut_variances.len() == index + 1);
        }

        next = 0;
        let mut temp = volume_variance[0];
        let mut candidate: usize = 1;
        while candidate <= index
            invariant
                volume_variance.len() == MAX_COLORS,
                forall|t: int| 0 <= t < MAX_COLORS ==> variance_ok(#[trigger] volume_variance@[t]),
                index < MAX_COLORS,
                1 <= candidate <= index + 1,
                next < candidate,
                temp == volume_variance@[next as int],
                cut_variances == int_pairs(volume_variance@, index + 1),
                next == widest_box(cut_variances, candidate - 1),
            decreases index + 1 - candidate,
        {
            proof {
                let vc = volume_variance@[candidate as int];
                let vn = volume_variance@[next as int];
                assert(cut_variances[candidate as int] == (vc.0 * vc.2 + vc.1, vc.2 as int));
                assert(cut_variances[next as int] == (vn.0 * vn.2 + vn.1, vn.2 as int));
            }
            if variance_greater(volume_variance[candidate], temp) {
                temp = volume_variance[candidate];
                next = candidate;
            }
            candidate = candidate + 1;
        }

        proof {
            rounds = rounds + 1;
            assert(cut_variances[next as int].0 == temp.0 * temp.2 + temp.1);
            lemma_mixed_sign(temp.0 as int, temp.1 as int, temp.2 as int);
        }
        if temp.0 < 0 || (temp.0 == 0 && temp.1 == 0) {
            generated_color_count = index + 1;
            stop = true;
        } else {
            index = index + 1;
        }
    }
    proof {
        if !stop {
            assert(index == max_count);
        }
        assert(wu_finished(max_int, wu_rounds(ps, max_int, rounds)));
        assert(ranges(cubes@, generated_color_count as int) == wu_rounds(ps, max_int, rounds).boxes);
    }

    let ghost boxes = ranges(cubes@, generated_color_count as int);
    let mut out_colors: Vec<Argb> = Vec::new();
    let mut i: usize = 0;
    while i < generated_color_count
        invariant
            moments_of(&mo, ps),
            ps == pixels@,
            generated_color_count <= MAX_COLORS,
            cubes.len() == MAX_COLORS,
            forall|t: int| 0 <= t < MAX_COLORS ==> valid_box(#[trigger] cubes@[t]),
            boxes == ranges(cubes@, generated_color_count as int),
            0 <= i <= generated_color_count,
            packed(out_colors@) == box_means(ps, boxes.take(i as int)),
        decreases generated_color_count - i,
    {
        let cube = cubes[i];
        let weight = volume(cube, &mo.weights, Ghost(ps), Ghost(Moment::Weight));
        let ghost b = range_of(cube);
        proof {
            assert(boxes.take(i + 1).drop_last() =~= boxes.take(i as int));
            assert(boxes.take(i + 1).last() == b);
        }
        if weight > 0 {
            let red = volume(cube, &mo.red, Ghost(ps), Ghost(Moment::Red)) / weight;
            let green = volume(cube, &mo.green, Ghost(ps), Ghost(Moment::Green)) / weight;
            let blue = volume(cube, &mo.blue, Ghost(ps), Ghost(Moment::Blue)) / weight;
            proof {
                lemma_range_bounds(ps, b);
                let w = weight as int;
                assert(box_sum(ps, Moment::Red, b) / w <= 255) by (nonlinear_arith)
                    requires
                        0 <= box_sum(ps, Moment::Red, b) <= 255 * w,
                        w > 0,
                ;
                assert(box_sum(ps, Moment::Green, b) / w <= 255) by (nonlinear_arith)
                    requires
                        0 <= box_sum(ps, Moment::Green, b) <= 255 * w,
                        w > 0,
                ;
                assert(box_sum(ps, Moment::Blue, b) / w <= 255) by (nonlinear_arith)
                    requires
                        0 <= box_sum(ps, Moment::Blue, b) <= 255 * w,
                        w > 0,
                ;
            }
            let color = argb_from_rgb(red as i32, green as i32, blue as i32);
            let ghost prev = out_colors@;
            out_colors.push(color);
            proof {
                assert(packed(out_colors@) =~= packed(prev).push(color@));
                assert(color@ == mean_color(ps, b));
            }
        }
        i = i + 1;
    }
    proof {
        assert(boxes.take(generated_color_count as int) =~= boxes);
        assert(boxes.len() == generated_color_count);
        let p0 = ps[0];
        let (ci, cj, ck) = (cell_coord(red_of(p0@)), cell_coord(green_of(p0@)), cell_coord(blue_of(p0@)));
        assert(covered(boxes, ci, cj, ck));
        let t = choose|t: int| 0 <= t < boxes.len() && #[trigger] cell_in_range(ci, cj, ck, boxes[t]);
        lemma_member_weight(ps, boxes[t], 0);
        lemma_box_means_len(ps, boxes, t);
        lemma_wu_states_ok(ps, max_int, rounds);
        lemma_box_means_all_held(ps, boxes);
        assert(packed(out_colors@).len() == out_colors@.len());
        if stop {
            lemma_wu_stops_only_when_settled(ps, max_int, rounds);
            lemma_settled_boxes_count_cells(ps, boxes);
        }
    }
    out_colors
}

/// Whether every pixel of `ps` has the red, green and blue channels of `c`.
pub open spec fn same_rgb(ps: Seq<Argb>, c: u32) -> bool {
    forall|i: int|
        0 <= i < ps.len() ==> red_of(#[trigger] ps[i]@) == red_of(c) && green_of(ps[i]@)
            == green_of(c) && blue_of(ps[i]@) == blue_of(c)
}

proof fn lemma_uniform_sums(ps: Seq<Argb>, c: u32, b: CellRange)
    requires
        same_rgb(ps, c),
    ensures
        box_sum(ps, Moment::Red, b) == red_of(c) * box_sum(ps, Moment::Weight, b),
        box_sum(ps, Moment::Green, b) == green_of(c) * box_sum(ps, Moment::Weight, b),
        box_sum(ps, Moment::Blue, b) == blue_of(c) * box_sum(ps, Moment::Weight, b),
    decreases ps.len(),
{
    if ps.len() > 0 {
        assert(same_rgb(ps.drop_last(), c)) by {
            assert forall|i: int| 0 <= i < ps.drop_last().len() implies red_of(
                #[trigger] ps.drop_last()[i]@,
            ) == red_of(c) && green_of(ps.drop_last()[i]@) == green_of(c) && blue_of(
                ps.drop_last()[i]@,
            ) == blue_of(c) by {
                assert(ps.drop_last()[i] == ps[i]);
            }
        }
        lemma_uniform_sums(ps.drop_last(), c, b);
        assert(ps.last() == ps[ps.len() - 1]);
        let w = box_sum(ps.drop_last(), Moment::Weight, b);
        assert(red_of(c) * w + red_of(c) == red_of(c) * (w + 1)) by (nonlinear_arith);
        assert(green_of(c) * w + green_of(c) == green_of(c) * (w + 1)) by (nonlinear_arith);
        assert(blue_of(c) * w + blue_of(c) == blue_of(c) * (w + 1)) by (nonlinear_arith);
    }
}

/// When all pixels share one color, every color the quantizer reports for a
/// partition is that color made opaque.
pub proof fn lemma_uniform_pixels_keep_their_color(ps: Seq<Argb>, boxes: Seq<CellRange>, c: u32)
    requires
        same_rgb(ps, c),
    ensures
        forall|k: int|
            0 <= k < box_means(ps, boxes).len() ==> #[trigger] box_means(ps, boxes)[k]
                == pack_opaque(red_of(c), green_of(c), blue_of(c)),
    decreases boxes.len(),
{
    if boxes.len() > 0 {
        lemma_uniform_pixels_keep_their_color(ps, boxes.drop_last(), c);
        let b = boxes.last();
        let w = box_sum(ps, Moment::Weight, b);
        if w > 0 {
            lemma_uniform_sums(ps, c, b);
            vstd::arithmetic::div_mod::lemma_div_multiples_vanish(red_of(c) as int, w);
            vstd::arithmetic::div_mod::lemma_div_multiples_vanish(green_of(c) as int, w);
            vstd::arithmetic::div_mod::lemma_div_multiples_vanish(blue_of(c) as int, w);
            assert(red_of(c) * w == w * red_of(c)) by (nonlinear_arith);
            assert(green_of(c) * w == w * green_of(c)) by (nonlinear_arith);
            assert(blue_of(c) * w == w * blue_of(c)) by (nonlinear_arith);
            let earlier = box_means(ps, boxes.drop_last());
            assert(box_sum(ps, Moment::Red, b) / w == red_of(c));
            assert(box_sum(ps, Moment::Green, b) / w == green_of(c));
            assert(box_sum(ps, Moment::Blue, b) / w == blue_of(c));
            assert(mean_color(ps, b) == pack_opaque(red_of(c), green_of(c), blue_of(c)));
            assert(box_means(ps, boxes) == earlier.push(mean_color(ps, b)));
            assert forall|k: int| 0 <= k < earlier.len() + 1 implies #[trigger] earlier.push(
                mean_color(ps, b),
            )[k] == pack_opaque(red_of(c), green_of(c), blue_of(c)) by {
                if k < earlier.len() {
                    assert(earlier.push(mean_color(ps, b))[k] == earlier[k]);
                }
            }
        } else {
            assert(box_means(ps, boxes) == box_means(ps, boxes.drop_last()));
        }
    }
}

/// Every reported color is opaque.
pub proof fn lemma_box_means_opaque(ps: Seq<Argb>, boxes: Seq<CellRange>)
    ensures
        forall|k: int|
            0 <= k < box_means(ps, boxes).len() ==> crate::argb::alpha_of(
                #[trigger] box_means(ps, boxes)[k],
            ) == 0xff,
    decreases boxes.len(),
{
    if boxes.len() > 0 {
        lemma_box_means_opaque(ps, boxes.drop_last());
        let b = boxes.last();
        let earlier = box_means(ps, boxes.drop_last());
        if box_sum(ps, Moment::Weight, b) > 0 {
            let w = box_sum(ps, Moment::Weight, b);
            crate::argb::lemma_pack_then_read(
                (box_sum(ps, Moment::Red, b) / w) as u8,
                (box_sum(ps, Moment::Green, b) / w) as u8,
                (box_sum(ps, Moment::Blue, b) / w) as u8,
            );
            assert forall|k: int| 0 <= k < earlier.len() + 1 implies crate::argb::alpha_of(
                #[trigger] earlier.push(mean_color(ps, b))[k],
            ) == 0xff by {
                if k < earlier.len() {
                    assert(earlier.push(mean_color(ps, b))[k] == earlier[k]);
                }
            }
            assert(box_means(ps, boxes) == earlier.push(mean_color(ps, b)));
        } else {
            assert(box_means(ps, boxes) == earlier);
        }
    }
}

/// What one pixel adds to the sum of moment `m` over range `b`.
spec fn pixel_share(v: u32, m: Moment, b: CellRange) -> int {
    if in_cells(v, b) {
        moment_value(v, m)
    } else {
        0
    }
}

/// Two pixel lists give the same sum of every moment over every range.
pub open spec fn same_box_sums(ps: Seq<Argb>, qs: Seq<Argb>) -> bool {
    forall|m: Moment, b: CellRange| #[trigger] box_sum(ps, m, b) == box_sum(qs, m, b)
}

/// Taking pixel `i` out of the list takes its share out of every sum.
proof fn lemma_box_sum_remove(ps: Seq<Argb>, i: int, m: Moment, b: CellRange)
    requires
        0 <= i < ps.len(),
    ensures
        box_sum(ps, m, b) == box_sum(ps.remove(i), m, b) + pixel_share(ps[i]@, m, b),
    decreases ps.len(),
{
    if i == ps.len() - 1 {
        assert(ps.remove(i) =~= ps.drop_last());
    } else {
        let rest = ps.remove(i);
        assert(rest.drop_last() =~= ps.drop_last().remove(i));
        assert(rest.last() == ps.last());
        assert(ps.drop_last()[i] == ps[i]);
        lemma_box_sum_remove(ps.drop_last(), i, m, b);
    }
}

/// Lists holding the same pixels, in any order, have the same sums.
proof fn lemma_box_sum_permutation(ps: Seq<Argb>, qs: Seq<Argb>, m: Moment, b: CellRange)
    requires
        ps.to_multiset() == qs.to_multiset(),
    ensures
        box_sum(ps, m, b) == box_sum(qs, m, b),
    decreases ps.len(),
{
    broadcast use vstd::seq_lib::group_to_multiset_ensures;
    broadcast use vstd::multiset::group_multiset_axioms;

    if ps.len() == 0 {
        assert(ps.to_multiset().len() == ps.len());
        assert(qs.to_multiset().len() == qs.len());
        assert(qs.len() == 0);
    } else {
        let x = ps.last();
        let rest = ps.drop_last();
        assert(rest.push(x) =~= ps);
        assert(ps.to_multiset() =~= rest.to_multiset().insert(x));
        assert(ps.to_multiset().count(x) > 0);
        assert(qs.contains(x));
        let j = choose|j: int| 0 <= j < qs.len() && qs[j] == x;
        assert(qs.remove(j).to_multiset() =~= qs.to_multiset().remove(x));
        assert(rest.to_multiset() =~= ps.to_multiset().remove(x));
        lemma_box_sum_permutation(rest, qs.remove(j), m, b);
        lemma_box_sum_remove(qs, j, m, b);
    }
}

/// Lists whose pixels agree in red, green and blue, position by position,
/// have the same sums.
proof fn lemma_box_sum_same_rgb(ps: Seq<Argb>, qs: Seq<Argb>, m: Moment, b: CellRange)
    requires
        ps.len() == qs.len(),
        forall|i: int|
            0 <= i < ps.len() ==> red_of(#[trigger] ps[i]@) == red_of(qs[i]@) && green_of(ps[i]@)
                == green_of(qs[i]@) && blue_of(ps[i]@) == blue_of(qs[i]@),
    ensures
        box_sum(ps, m, b) == box_sum(qs, m, b),
    decreases ps.len(),
{
    if ps.len() > 0 {
        assert forall|i: int| 0 <= i < ps.drop_last().len() implies red_of(
            #[trigger] ps.drop_last()[i]@,
        ) == red_of(qs.drop_last()[i]@) && green_of(ps.drop_last()[i]@) == green_of(
            qs.drop_last()[i]@,
        ) && blue_of(ps.drop_last()[i]@) == blue_of(qs.drop_last()[i]@) by {
            assert(ps.drop_last()[i] == ps[i]);
            assert(qs.drop_last()[i] == qs[i]);
        }
        lemma_box_sum_same_rgb(ps.drop_last(), qs.drop_last(), m, b);
        assert(ps.last() == ps[ps.len() - 1]);
        assert(qs.last() == qs[qs.len() - 1]);
    }
}

proof fn lemma_scan_same_sums(ps: Seq<Argb>, qs: Seq<Argb>, b: CellRange, d: Direction, first: int, end: int)
    requires
        same_box_sums(ps, qs),
    ensures
        best_cut_scan(ps, b, d, first, end) == best_cut_scan(qs, b, d, first, end),
    decreases end - first,
{
    if end > first {
        lemma_scan_same_sums(ps, qs, b, d, first, end - 1);
        let lo = lower_part(b, d, end - 1);
        let hi = upper_part(b, d, end - 1);
        assert(box_sum(ps, Moment::Weight, lo) == box_sum(qs, Moment::Weight, lo));
        assert(box_sum(ps, Moment::Weight, hi) == box_sum(qs, Moment::Weight, hi));
        assert(box_sum(ps, Moment::Red, lo) == box_sum(qs, Moment::Red, lo));
        assert(box_sum(ps, Moment::Green, lo) == box_sum(qs, Moment::Green, lo));
        assert(box_sum(ps, Moment::Blue, lo) == box_sum(qs, Moment::Blue, lo));
        assert(box_sum(ps, Moment::Red, hi) == box_sum(qs, Moment::Red, hi));
        assert(box_sum(ps, Moment::Green, hi) == box_sum(qs, Moment::Green, hi));
        assert(box_sum(ps, Moment::Blue, hi) == box_sum(qs, Moment::Blue, hi));
        assert(split_fraction(ps, b, d, end - 1) == split_fraction(qs, b, d, end - 1));
    }
}

proof fn lemma_cut_same_sums(ps: Seq<Argb>, qs: Seq<Argb>, b: CellRange)
    requires
        same_box_sums(ps, qs),
    ensures
        wu_cut(ps, b) == wu_cut(qs, b),
        forall|c: CellRange| #[trigger] cut_variance(ps, c) == cut_variance(qs, c),
{
    lemma_scan_same_sums(ps, qs, b, Direction::Red, axis_low(b, Direction::Red) + 1, axis_high(b, Direction::Red));
    lemma_scan_same_sums(ps, qs, b, Direction::Green, axis_low(b, Direction::Green) + 1, axis_high(b, Direction::Green));
    lemma_scan_same_sums(ps, qs, b, Direction::Blue, axis_low(b, Direction::Blue) + 1, axis_high(b, Direction::Blue));
    assert forall|c: CellRange| #[trigger] cut_variance(ps, c) == cut_variance(qs, c) by {
        assert(box_sum(ps, Moment::Square, c) == box_sum(qs, Moment::Square, c));
        assert(box_sum(ps, Moment::Weight, c) == box_sum(qs, Moment::Weight, c));
        assert(box_sum(ps, Moment::Red, c) == box_sum(qs, Moment::Red, c));
        assert(box_sum(ps, Moment::Green, c) == box_sum(qs, Moment::Green, c));
        assert(box_sum(ps, Moment::Blue, c) == box_sum(qs, Moment::Blue, c));
    }
}

/// Pixel lists with the same sums drive the quantizer through the same
/// states and give the same colors for the same boxes.
proof fn lemma_rounds_same_sums(ps: Seq<Argb>, qs: Seq<Argb>, max_colors: int, k: nat)
    requires
        same_box_sums(ps, qs),
    ensures
        wu_rounds(ps, max_colors, k) == wu_rounds(qs, max_colors, k),
    decreases k,
{
    if k > 0 {
        lemma_rounds_same_sums(ps, qs, max_colors, (k - 1) as nat);
        let s = wu_rounds(ps, max_colors, (k - 1) as nat);
        if !wu_finished(max_colors, s) {
            lemma_cut_same_sums(ps, qs, s.boxes[s.next]);
        }
    }
}

proof fn lemma_means_same_sums(ps: Seq<Argb>, qs: Seq<Argb>, boxes: Seq<CellRange>)
    requires
        same_box_sums(ps, qs),
    ensures
        box_means(ps, boxes) == box_means(qs, boxes),
    decreases boxes.len(),
{
    if boxes.len() > 0 {
        lemma_means_same_sums(ps, qs, boxes.drop_last());
        let b = boxes.last();
        assert(box_sum(ps, Moment::Weight, b) == box_sum(qs, Moment::Weight, b));
        assert(box_sum(ps, Moment::Red, b) == box_sum(qs, Moment::Red, b));
        assert(box_sum(ps, Moment::Green, b) == box_sum(qs, Moment::Green, b));
        assert(box_sum(ps, Moment::Blue, b) == box_sum(qs, Moment::Blue, b));
    }
}

/// Lists of colors with the same packed values are equal.
proof fn lemma_packed_injective(r1: Seq<Argb>, r2: Seq<Argb>)
    requires
        packed(r1) == packed(r2),
    ensures
        r1 == r2,
{
    assert(r1.len() == packed(r1).len());
    assert forall|i: int| 0 <= i < r1.len() implies r1[i] == r2[i] by {
        assert(packed(r1)[i] == r1[i]@);
        assert(packed(r2)[i] == r2[i]@);
        crate::argb::lemma_view_injective(r1[i], r2[i]);
    }
    assert(r1 =~= r2);
}

/// Two results of the quantizer for pixel lists with the same sums are equal.
proof fn lemma_results_same_sums(ps: Seq<Argb>, qs: Seq<Argb>, max_colors: int, r1: Seq<Argb>, r2: Seq<Argb>)
    requires
        same_box_sums(ps, qs),
        wu_result(ps, max_colors, r1),
        wu_result(qs, max_colors, r2),
    ensures
        r1 == r2,
{
    let k1 = choose|k: nat|
        {
            &&& wu_finished(max_colors, #[trigger] wu_rounds(ps, max_colors, k))
            &&& packed(r1) == box_means(ps, wu_rounds(ps, max_colors, k).boxes)
        };
    let k2 = choose|k: nat|
        {
            &&& wu_finished(max_colors, #[trigger] wu_rounds(qs, max_colors, k))
            &&& packed(r2) == box_means(qs, wu_rounds(qs, max_colors, k).boxes)
        };
    lemma_rounds_same_sums(ps, qs, max_colors, k1);
    lemma_rounds_same_sums(ps, qs, max_colors, k2);
    lemma_wu_result_unique(ps, max_colors, k1, k2);
    lemma_means_same_sums(ps, qs, wu_rounds(ps, max_colors, k1).boxes);
    lemma_packed_injective(r1, r2);
}

/// Reordering the pixels does not change what the quantizer returns: the
/// same rounds run, and any two results for the two orders are equal.
pub proof fn lemma_wu_ignores_pixel_order(
    ps: Seq<Argb>,
    qs: Seq<Argb>,
    max_colors: int,
    r1: Seq<Argb>,
    r2: Seq<Argb>,
)
    requires
        ps.to_multiset() == qs.to_multiset(),
    ensures
        forall|k: nat| #[trigger] wu_rounds(ps, max_colors, k) == wu_rounds(qs, max_colors, k),
        wu_result(ps, max_colors, r1) && wu_result(qs, max_colors, r2) ==> r1 == r2,
{
    assert forall|m: Moment, b: CellRange| #[trigger] box_sum(ps, m, b) == box_sum(qs, m, b) by {
        lemma_box_sum_permutation(ps, qs, m, b);
    }
    assert forall|k: nat| #[trigger] wu_rounds(ps, max_colors, k) == wu_rounds(qs, max_colors, k) by {
        lemma_rounds_same_sums(ps, qs, max_colors, k);
    }
    if wu_result(ps, max_colors, r1) && wu_result(qs, max_colors, r2) {
        lemma_results_same_sums(ps, qs, max_colors, r1, r2);
    }
}

/// Pixels that differ only in alpha give the quantizer the same result:
/// the same rounds run, and any two results are equal.
pub proof fn lemma_wu_ignores_alpha(
    ps: Seq<Argb>,
    qs: Seq<Argb>,
    max_colors: int,
    r1: Seq<Argb>,
    r2: Seq<Argb>,
)
    requires
        ps.len() == qs.len(),
        forall|i: int|
            0 <= i < ps.len() ==> red_of(#[trigger] ps[i]@) == red_of(qs[i]@) && green_of(ps[i]@)
                == green_of(qs[i]@) && blue_of(ps[i]@) == blue_of(qs[i]@),
    ensures
        forall|k: nat| #[trigger] wu_rounds(ps, max_colors, k) == wu_rounds(qs, max_colors, k),
        wu_result(ps, max_colors, r1) && wu_result(qs, max_colors, r2) ==> r1 == r2,
{
    assert forall|m: Moment, b: CellRange| #[trigger] box_sum(ps, m, b) == box_sum(qs, m, b) by {
        lemma_box_sum_same_rgb(ps, qs, m, b);
    }
    assert forall|k: nat| #[trigger] wu_rounds(ps, max_colors, k) == wu_rounds(qs, max_colors, k) by {
        lemma_rounds_same_sums(ps, qs, max_colors, k);
    }
    if wu_result(ps, max_colors, r1) && wu_result(qs, max_colors, r2) {
        lemma_results_same_sums(ps, qs, max_colors, r1, r2);
    }
}

/// The cell coordinate of pixel `v` along `d`.
pub open spec fn pixel_axis(v: u32, d: Direction) -> int {
    match d {
        Direction::Red => cell_coord(red_of(v)),
        Direction::Green => cell_coord(green_of(v)),
        Direction::Blue => cell_coord(blue_of(v)),
    }
}

/// The moment that sums channel `d`.
pub open spec fn axis_moment(d: Direction) -> Moment {
    match d {
        Direction::Red => Moment::Red,
        Direction::Green => Moment::Green,
        Direction::Blue => Moment::Blue,
    }
}

/// Two of the pixels in range `b` lie in different cells.
pub open spec fn spans_two_cells(ps: Seq<Argb>, b: CellRange) -> bool {
    exists|p: int, q: int|
        #![trigger ps[p], ps[q]]
        0 <= p < ps.len() && 0 <= q < ps.len() && in_cells(ps[p]@, b) && in_cells(ps[q]@, b) && (
        pixel_axis(ps[p]@, Direction::Red) != pixel_axis(ps[q]@, Direction::Red) || pixel_axis(
            ps[p]@,
            Direction::Green,
        ) != pixel_axis(ps[q]@, Direction::Green) || pixel_axis(ps[p]@, Direction::Blue)
            != pixel_axis(ps[q]@, Direction::Blue))
}

/// A pixel in a range makes every moment sum of the range at least its own
/// value.
proof fn lemma_member_moment(ps: Seq<Argb>, b: CellRange, idx: int, m: Moment)
    requires
        0 <= idx < ps.len(),
        in_cells(ps[idx]@, b),
    ensures
        box_sum(ps, m, b) >= moment_value(ps[idx]@, m),
    decreases ps.len(),
{
    if idx == ps.len() - 1 {
        lemma_box_sum_bounds(ps.drop_last(), m, b);
    } else {
        assert(ps.drop_last()[idx] == ps[idx]);
        lemma_member_moment(ps.drop_last(), b, idx, m);
        lemma_moment_bounds(ps.last()@, m);
    }
}

/// A range with a positive pixel count holds one of the pixels.
proof fn lemma_weight_has_member(ps: Seq<Argb>, b: CellRange)
    requires
        box_sum(ps, Moment::Weight, b) > 0,
    ensures
        exists|p: int| 0 <= p < ps.len() && #[trigger] in_cells(ps[p]@, b),
    decreases ps.len(),
{
    if in_cells(ps.last()@, b) {
        assert(in_cells(ps[ps.len() - 1]@, b));
    } else {
        lemma_weight_has_member(ps.drop_last(), b);
        let p = choose|p: int| 0 <= p < ps.drop_last().len() && #[trigger] in_cells(
            ps.drop_last()[p]@,
            b,
        );
        assert(ps.drop_last()[p] == ps[p]);
    }
}

/// Whether position `c` leaves pixels on both sides of the cut of `b`
/// along `d`.
spec fn valid_position(ps: Seq<Argb>, b: CellRange, d: Direction, c: int) -> bool {
    &&& box_sum(ps, Moment::Weight, lower_part(b, d, c)) != 0
    &&& box_sum(ps, Moment::Weight, upper_part(b, d, c)) != 0
}

/// The scan keeps a positive denominator and a non-negative numerator; it
/// finds no position only with the score 0/1, and a position it finds
/// leaves pixels on both sides.
proof fn lemma_scan_shape(ps: Seq<Argb>, b: CellRange, d: Direction, first: int, end: int)
    ensures
        best_cut_scan(ps, b, d, first, end).1 > 0,
        best_cut_scan(ps, b, d, first, end).0 >= 0,
        best_cut_scan(ps, b, d, first, end).2 is None ==> best_cut_scan(ps, b, d, first, end).0
            == 0,
        best_cut_scan(ps, b, d, first, end).2 matches Some(c) ==> valid_position(ps, b, d, c),
    decreases end - first,
{
    if end > first {
        lemma_scan_shape(ps, b, d, first, end - 1);
        let c = end - 1;
        let lo = lower_part(b, d, c);
        let hi = upper_part(b, d, c);
        lemma_box_sum_bounds(ps, Moment::Weight, lo);
        lemma_box_sum_bounds(ps, Moment::Weight, hi);
        let wl = box_sum(ps, Moment::Weight, lo);
        let wh = box_sum(ps, Moment::Weight, hi);
        let ql = sum_square(ps, lo);
        let qh = sum_square(ps, hi);
        assert(ql >= 0 && qh >= 0) by (nonlinear_arith)
            requires
                ql == box_sum(ps, Moment::Red, lo) * box_sum(ps, Moment::Red, lo) + box_sum(ps, Moment::Green, lo) * box_sum(ps, Moment::Green, lo) + box_sum(ps, Moment::Blue, lo) * box_sum(ps, Moment::Blue, lo),
                qh == box_sum(ps, Moment::Red, hi) * box_sum(ps, Moment::Red, hi) + box_sum(ps, Moment::Green, hi) * box_sum(ps, Moment::Green, hi) + box_sum(ps, Moment::Blue, hi) * box_sum(ps, Moment::Blue, hi),
        ;
        if wl != 0 && wh != 0 {
            assert(ql * wh + qh * wl >= 0 && wl * wh > 0) by (nonlinear_arith)
                requires ql >= 0, qh >= 0, wl > 0, wh > 0;
        }
    }
}

/// A valid position along the scanned axis whose score is positive makes
/// the scan's best score positive.
proof fn lemma_scan_positive(ps: Seq<Argb>, b: CellRange, d: Direction, first: int, end: int, c: int)
    requires
        first <= c < end,
        valid_position(ps, b, d, c),
        split_fraction(ps, b, d, c).0 > 0,
    ensures
        best_cut_scan(ps, b, d, first, end).0 > 0,
    decreases end - first,
{
    lemma_scan_shape(ps, b, d, first, end - 1);
    let prev = best_cut_scan(ps, b, d, first, end - 1);
    let last = end - 1;
    if c < last {
        lemma_scan_positive(ps, b, d, first, end - 1, c);
    }
    if valid_position(ps, b, d, last) {
        let lo = lower_part(b, d, last);
        let hi = upper_part(b, d, last);
        lemma_box_sum_bounds(ps, Moment::Weight, lo);
        lemma_box_sum_bounds(ps, Moment::Weight, hi);
        let score = split_fraction(ps, b, d, last);
        assert(score.1 > 0) by (nonlinear_arith)
            requires
                score.1 == box_sum(ps, Moment::Weight, lo) * box_sum(ps, Moment::Weight, hi),
                box_sum(ps, Moment::Weight, lo) > 0,
                box_sum(ps, Moment::Weight, hi) > 0,
        ;
        if c < last {
            if score.0 * prev.1 > prev.0 * score.1 {
                assert(score.0 > 0) by (nonlinear_arith)
                    requires score.0 * prev.1 > prev.0 * score.1, prev.0 > 0, prev.1 > 0, score.1 > 0;
            }
        } else {
            if !(score.0 * prev.1 > prev.0 * score.1) {
                assert(prev.0 > 0) by (nonlinear_arith)
                    requires score.0 * prev.1 <= prev.0 * score.1, score.0 > 0, prev.1 > 0, score.1 > 0;
            }
        }
    }
}

/// When some axis has a positive best score, the chosen cut exists.
proof fn lemma_cut_found(ps: Seq<Argb>, b: CellRange)
    requires
        axis_best(ps, b, Direction::Red).0 > 0 || axis_best(ps, b, Direction::Green).0 > 0
            || axis_best(ps, b, Direction::Blue).0 > 0,
    ensures
        wu_cut(ps, b) is Some,
{
    let red = axis_best(ps, b, Direction::Red);
    let green = axis_best(ps, b, Direction::Green);
    let blue = axis_best(ps, b, Direction::Blue);
    lemma_scan_shape(ps, b, Direction::Red, axis_low(b, Direction::Red) + 1, axis_high(b, Direction::Red));
    lemma_scan_shape(ps, b, Direction::Green, axis_low(b, Direction::Green) + 1, axis_high(b, Direction::Green));
    lemma_scan_shape(ps, b, Direction::Blue, axis_low(b, Direction::Blue) + 1, axis_high(b, Direction::Blue));
    if red.0 * green.1 >= green.0 * red.1 && red.0 * blue.1 >= blue.0 * red.1 {
        assert(red.0 > 0) by (nonlinear_arith)
            requires
                red.0 * green.1 >= green.0 * red.1,
                red.0 * blue.1 >= blue.0 * red.1,
                red.0 > 0 || green.0 > 0 || blue.0 > 0,
                red.0 >= 0, green.0 >= 0, blue.0 >= 0,
                red.1 > 0, green.1 > 0, blue.1 > 0,
        ;
    } else if green.0 * red.1 >= red.0 * green.1 && green.0 * blue.1 >= blue.0 * green.1 {
        assert(green.0 > 0) by (nonlinear_arith)
            requires
                green.0 * red.1 >= red.0 * green.1,
                green.0 * blue.1 >= blue.0 * green.1,
                red.0 > 0 || green.0 > 0 || blue.0 > 0,
                red.0 >= 0, green.0 >= 0, blue.0 >= 0,
                red.1 > 0, green.1 > 0, blue.1 > 0,
        ;
    } else {
        assert(blue.0 > 0) by (nonlinear_arith)
            requires
                !(red.0 * green.1 >= green.0 * red.1 && red.0 * blue.1 >= blue.0 * red.1),
                !(green.0 * red.1 >= red.0 * green.1 && green.0 * blue.1 >= blue.0 * green.1),
                red.0 >= 0, green.0 >= 0, blue.0 >= 0,
                red.1 > 0, green.1 > 0, blue.1 > 0,
        ;
    }
}

/// A pixel in a cell above the first along `d` has a channel of at least 8
/// along `d`.
proof fn lemma_high_cell_channel(v: u32, d: Direction)
    requires
        pixel_axis(v, d) >= 2,
    ensures
        moment_value(v, axis_moment(d)) >= 8,
{
}

/// Two pixels of `b` in different cells along `d` make a valid cut with a
/// positive score between them.
proof fn lemma_cut_between(ps: Seq<Argb>, b: CellRange, d: Direction, p: int, q: int)
    requires
        0 <= p < ps.len(),
        0 <= q < ps.len(),
        in_cells(ps[p]@, b),
        in_cells(ps[q]@, b),
        pixel_axis(ps[p]@, d) < pixel_axis(ps[q]@, d),
    ensures
        axis_best(ps, b, d).0 > 0,
{
    let c = pixel_axis(ps[p]@, d);
    let lo = lower_part(b, d, c);
    let hi = upper_part(b, d, c);
    assert(in_cells(ps[p]@, lo));
    assert(in_cells(ps[q]@, hi));
    assert(axis_low(b, d) < c < axis_high(b, d));
    lemma_member_weight(ps, lo, p);
    lemma_member_weight(ps, hi, q);
    lemma_high_cell_channel(ps[q]@, d);
    lemma_member_moment(ps, hi, q, axis_moment(d));
    lemma_range_sums_nonnegative(ps, lo);
    lemma_range_sums_nonnegative(ps, hi);
    let wl = box_sum(ps, Moment::Weight, lo);
    let wh = box_sum(ps, Moment::Weight, hi);
    let ql = sum_square(ps, lo);
    let qh = sum_square(ps, hi);
    let sr = box_sum(ps, Moment::Red, hi);
    let sg = box_sum(ps, Moment::Green, hi);
    let sb = box_sum(ps, Moment::Blue, hi);
    assert(sr >= 8 || sg >= 8 || sb >= 8);
    assert(qh > 0) by (nonlinear_arith)
        requires
            qh == sr * sr + sg * sg + sb * sb,
            sr >= 0, sg >= 0, sb >= 0,
            sr >= 8 || sg >= 8 || sb >= 8,
    ;
    let lr = box_sum(ps, Moment::Red, lo);
    let lg = box_sum(ps, Moment::Green, lo);
    let lb = box_sum(ps, Moment::Blue, lo);
    assert(ql >= 0) by (nonlinear_arith)
        requires ql == lr * lr + lg * lg + lb * lb;
    assert(ql * wh + qh * wl > 0) by (nonlinear_arith)
        requires ql >= 0, qh > 0, wl >= 1, wh >= 1;
    lemma_scan_positive(ps, b, d, axis_low(b, d) + 1, axis_high(b, d), c);
}

proof fn lemma_range_sums_nonnegative(ps: Seq<Argb>, b: CellRange)
    ensures
        box_sum(ps, Moment::Weight, b) >= 0,
        box_sum(ps, Moment::Red, b) >= 0,
        box_sum(ps, Moment::Green, b) >= 0,
        box_sum(ps, Moment::Blue, b) >= 0,
{
    lemma_box_sum_bounds(ps, Moment::Weight, b);
    lemma_box_sum_bounds(ps, Moment::Red, b);
    lemma_box_sum_bounds(ps, Moment::Green, b);
    lemma_box_sum_bounds(ps, Moment::Blue, b);
}

/// The quantizer can cut a range exactly when two of its pixels lie in
/// different cells.
pub proof fn lemma_cut_exists_iff_two_cells(ps: Seq<Argb>, b: CellRange)
    ensures
        (wu_cut(ps, b) is Some) == spans_two_cells(ps, b),
{
    if spans_two_cells(ps, b) {
        let (p, q) = choose|p: int, q: int|
            #![trigger ps[p], ps[q]]
            0 <= p < ps.len() && 0 <= q < ps.len() && in_cells(ps[p]@, b) && in_cells(ps[q]@, b) && (
            pixel_axis(ps[p]@, Direction::Red) != pixel_axis(ps[q]@, Direction::Red) || pixel_axis(
                ps[p]@,
                Direction::Green,
            ) != pixel_axis(ps[q]@, Direction::Green) || pixel_axis(ps[p]@, Direction::Blue)
                != pixel_axis(ps[q]@, Direction::Blue));
        let d = if pixel_axis(ps[p]@, Direction::Red) != pixel_axis(ps[q]@, Direction::Red) {
            Direction::Red
        } else if pixel_axis(ps[p]@, Direction::Green) != pixel_axis(ps[q]@, Direction::Green) {
            Direction::Green
        } else {
            Direction::Blue
        };
        if pixel_axis(ps[p]@, d) < pixel_axis(ps[q]@, d) {
            lemma_cut_between(ps, b, d, p, q);
        } else {
            lemma_cut_between(ps, b, d, q, p);
        }
        lemma_cut_found(ps, b);
    }
    if wu_cut(ps, b) is Some {
        let dc = wu_cut(ps, b)->0;
        let d = dc.0;
        let c = dc.1;
        lemma_scan_shape(ps, b, d, axis_low(b, d) + 1, axis_high(b, d));
        assert(axis_best(ps, b, d).2 == Some(c));
        let lo = lower_part(b, d, c);
        let hi = upper_part(b, d, c);
        lemma_range_sums_nonnegative(ps, lo);
        lemma_range_sums_nonnegative(ps, hi);
        lemma_weight_has_member(ps, lo);
        lemma_weight_has_member(ps, hi);
        let p = choose|p: int| 0 <= p < ps.len() && #[trigger] in_cells(ps[p]@, lo);
        let q = choose|p: int| 0 <= p < ps.len() && #[trigger] in_cells(ps[p]@, hi);
        assert(pixel_axis(ps[p]@, d) <= c < pixel_axis(ps[q]@, d));
        assert(in_cells(ps[p]@, b) && in_cells(ps[q]@, b));
    }
}

/// The channel of pixel `v` along `d`.
pub open spec fn pixel_channel(v: u32, d: Direction) -> int {
    match d {
        Direction::Red => red_of(v) as int,
        Direction::Green => green_of(v) as int,
        Direction::Blue => blue_of(v) as int,
    }
}

/// The channel sums of a range lie between the smallest and largest channel
/// values its cells allow, times its pixel count.
proof fn lemma_channel_sum_in_cells(ps: Seq<Argb>, b: CellRange, d: Direction)
    requires
        grid_range(b),
    ensures
        8 * axis_low(b, d) * box_sum(ps, Moment::Weight, b) <= box_sum(ps, axis_moment(d), b),
        box_sum(ps, axis_moment(d), b) <= (8 * axis_high(b, d) - 1) * box_sum(ps, Moment::Weight, b),
    decreases ps.len(),
{
    if ps.len() > 0 {
        lemma_channel_sum_in_cells(ps.drop_last(), b, d);
        let v = ps.last()@;
        let lo = axis_low(b, d);
        let hi = axis_high(b, d);
        let w = box_sum(ps.drop_last(), Moment::Weight, b);
        let t = box_sum(ps.drop_last(), axis_moment(d), b);
        if in_cells(v, b) {
            let c = pixel_channel(v, d);
            assert(moment_value(v, axis_moment(d)) == c);
            assert(8 * lo <= c <= 8 * hi - 1);
            assert(8 * lo * (w + 1) <= t + c && t + c <= (8 * hi - 1) * (w + 1)) by (nonlinear_arith)
                requires
                    8 * lo * w <= t,
                    t <= (8 * hi - 1) * w,
                    8 * lo <= c <= 8 * hi - 1,
            ;
        }
    }
}

/// The mean color of a range holding pixels lies in the range's cells.
pub proof fn lemma_mean_in_box(ps: Seq<Argb>, b: CellRange)
    requires
        grid_range(b),
        box_sum(ps, Moment::Weight, b) > 0,
    ensures
        in_cells(mean_color(ps, b), b),
{
    let w = box_sum(ps, Moment::Weight, b);
    lemma_channel_sum_in_cells(ps, b, Direction::Red);
    lemma_channel_sum_in_cells(ps, b, Direction::Green);
    lemma_channel_sum_in_cells(ps, b, Direction::Blue);
    let sr = box_sum(ps, Moment::Red, b);
    let sg = box_sum(ps, Moment::Green, b);
    let sb = box_sum(ps, Moment::Blue, b);
    assert(8 * b.0 <= sr / w <= 8 * b.1 - 1) by (nonlinear_arith)
        requires 8 * b.0 * w <= sr, sr <= (8 * b.1 - 1) * w, w > 0, b.0 >= 0;
    assert(8 * b.2 <= sg / w <= 8 * b.3 - 1) by (nonlinear_arith)
        requires 8 * b.2 * w <= sg, sg <= (8 * b.3 - 1) * w, w > 0, b.2 >= 0;
    assert(8 * b.4 <= sb / w <= 8 * b.5 - 1) by (nonlinear_arith)
        requires 8 * b.4 * w <= sb, sb <= (8 * b.5 - 1) * w, w > 0, b.4 >= 0;
    crate::argb::lemma_pack_then_read((sr / w) as u8, (sg / w) as u8, (sb / w) as u8);
}

/// Color `v` lies in one of the ranges.
pub open spec fn in_some_range(v: u32, boxes: Seq<CellRange>) -> bool {
    exists|t: int| 0 <= t < boxes.len() && #[trigger] in_cells(v, boxes[t])
}

/// For ranges that lie in the grid and share no cell, the reported colors
/// are pairwise different, and each lies in one of the ranges.
#[verifier::spinoff_prover]
pub proof fn lemma_box_means_distinct(ps: Seq<Argb>, boxes: Seq<CellRange>)
    requires
        forall|t: int| 0 <= t < boxes.len() ==> grid_range(#[trigger] boxes[t]),
        forall|s: int, t: int|
            0 <= s < boxes.len() && 0 <= t < boxes.len() && s != t ==> ranges_disjoint(
                #[trigger] boxes[s],
                #[trigger] boxes[t],
            ),
    ensures
        forall|i: int, j: int|
            0 <= i < j < box_means(ps, boxes).len() ==> box_means(ps, boxes)[i] != box_means(
                ps,
                boxes,
            )[j],
        forall|k: int|
            0 <= k < box_means(ps, boxes).len() ==> in_some_range(
                #[trigger] box_means(ps, boxes)[k],
                boxes,
            ),
    decreases boxes.len(),
{
    if boxes.len() > 0 {
        let init = boxes.drop_last();
        let n = boxes.len() - 1;
        assert forall|t: int| 0 <= t < init.len() implies grid_range(#[trigger] init[t]) by {
            assert(init[t] == boxes[t]);
        }
        assert forall|s: int, t: int|
            0 <= s < init.len() && 0 <= t < init.len() && s != t implies ranges_disjoint(
            #[trigger] init[s],
            #[trigger] init[t],
        ) by {
            assert(init[s] == boxes[s] && init[t] == boxes[t]);
        }
        lemma_box_means_distinct(ps, init);
        let earlier = box_means(ps, init);
        let last = boxes[n];
        assert(boxes.last() == last);
        assert forall|k: int| 0 <= k < earlier.len() implies #[trigger] in_some_range(
            earlier[k],
            boxes,
        ) && !in_cells(earlier[k], last) by {
            assert(in_some_range(earlier[k], init));
            let t = choose|t: int| 0 <= t < init.len() && #[trigger] in_cells(earlier[k], init[t]);
            assert(init[t] == boxes[t]);
            assert(ranges_disjoint(boxes[t], boxes[n]));
        }
        if box_sum(ps, Moment::Weight, last) > 0 {
            let v = mean_color(ps, last);
            lemma_mean_in_box(ps, last);
            let all = earlier.push(v);
            assert(box_means(ps, boxes) == all);
            assert(in_some_range(v, boxes));
            assert forall|k: int| 0 <= k < all.len() implies #[trigger] in_some_range(all[k], boxes) by {
                if k < earlier.len() {
                    assert(all[k] == earlier[k]);
                }
            }
            assert forall|i: int, j: int| 0 <= i < j < all.len() implies all[i] != all[j] by {
                assert(all[i] == earlier[i]);
                if j < earlier.len() {
                    assert(all[j] == earlier[j]);
                } else {
                    assert(!in_cells(earlier[i], last));
                }
            }
        } else {
            assert(box_means(ps, boxes) == earlier);
        }
    }
}

/// The colors the quantizer returns are pairwise different.
pub proof fn lemma_wu_colors_distinct(ps: Seq<Argb>, max_colors: int, colors: Seq<Argb>)
    requires
        max_colors >= 1,
        wu_result(ps, max_colors, colors),
    ensures
        forall|i: int, j: int| 0 <= i < j < colors.len() ==> colors[i] != colors[j],
{
    let k = choose|k: nat|
        {
            &&& wu_finished(max_colors, #[trigger] wu_rounds(ps, max_colors, k))
            &&& packed(colors) == box_means(ps, wu_rounds(ps, max_colors, k).boxes)
        };
    let boxes = wu_rounds(ps, max_colors, k).boxes;
    lemma_wu_rounds_partition(ps, max_colors, k);
    lemma_box_means_distinct(ps, boxes);
    assert forall|i: int, j: int| 0 <= i < j < colors.len() implies colors[i] != colors[j] by {
        assert(packed(colors)[i] == colors[i]@);
        assert(packed(colors)[j] == colors[j]@);
    }
}

/// When every pixel's channel `d` lies in `lo..=hi`, the channel sum of
/// any range lies between `lo` and `hi` times its pixel count.
proof fn lemma_channel_sum_bounded(ps: Seq<Argb>, b: CellRange, d: Direction, lo: int, hi: int)
    requires
        forall|i: int| 0 <= i < ps.len() ==> lo <= #[trigger] pixel_channel(ps[i]@, d) <= hi,
    ensures
        lo * box_sum(ps, Moment::Weight, b) <= box_sum(ps, axis_moment(d), b),
        box_sum(ps, axis_moment(d), b) <= hi * box_sum(ps, Moment::Weight, b),
    decreases ps.len(),
{
    if ps.len() > 0 {
        assert forall|i: int| 0 <= i < ps.drop_last().len() implies lo <= #[trigger] pixel_channel(
            ps.drop_last()[i]@,
            d,
        ) <= hi by {
            assert(ps.drop_last()[i] == ps[i]);
        }
        lemma_channel_sum_bounded(ps.drop_last(), b, d, lo, hi);
        let v = ps.last()@;
        assert(ps.last() == ps[ps.len() - 1]);
        assert(lo <= pixel_channel(ps[ps.len() - 1]@, d) <= hi);
        let w = box_sum(ps.drop_last(), Moment::Weight, b);
        let t = box_sum(ps.drop_last(), axis_moment(d), b);
        if in_cells(v, b) {
            let c = pixel_channel(v, d);
            assert(moment_value(v, axis_moment(d)) == c);
            assert(lo * (w + 1) <= t + c && t + c <= hi * (w + 1)) by (nonlinear_arith)
                requires lo * w <= t, t <= hi * w, lo <= c <= hi;
        }
    }
}

/// When every pixel's channel `d` lies in `lo..=hi`, so does channel `d` of
/// every reported color.
pub proof fn lemma_box_means_channels(ps: Seq<Argb>, boxes: Seq<CellRange>, d: Direction, lo: int, hi: int)
    requires
        forall|i: int| 0 <= i < ps.len() ==> lo <= #[trigger] pixel_channel(ps[i]@, d) <= hi,
    ensures
        forall|k: int|
            0 <= k < box_means(ps, boxes).len() ==> lo <= #[trigger] pixel_channel(
                box_means(ps, boxes)[k],
                d,
            ) <= hi,
    decreases boxes.len(),
{
    if boxes.len() > 0 {
        lemma_box_means_channels(ps, boxes.drop_last(), d, lo, hi);
        let earlier = box_means(ps, boxes.drop_last());
        let b = boxes.last();
        let w = box_sum(ps, Moment::Weight, b);
        if w > 0 {
            lemma_channel_sum_bounded(ps, b, d, lo, hi);
            lemma_range_sums_nonnegative(ps, b);
            lemma_box_sum_bounds(ps, Moment::Red, b);
            lemma_box_sum_bounds(ps, Moment::Green, b);
            lemma_box_sum_bounds(ps, Moment::Blue, b);
            let sr = box_sum(ps, Moment::Red, b);
            let sg = box_sum(ps, Moment::Green, b);
            let sb = box_sum(ps, Moment::Blue, b);
            assert(sr / w <= 255 && sg / w <= 255 && sb / w <= 255) by (nonlinear_arith)
                requires sr <= 255 * w, sg <= 255 * w, sb <= 255 * w, sr >= 0, sg >= 0, sb >= 0, w > 0;
            crate::argb::lemma_pack_then_read((sr / w) as u8, (sg / w) as u8, (sb / w) as u8);
            let s = box_sum(ps, axis_moment(d), b);
            assert(lo <= s / w <= hi) by (nonlinear_arith)
                requires lo * w <= s, s <= hi * w, w > 0;
            let v = mean_color(ps, b);
            assert(pixel_channel(v, d) == s / w);
            let all = earlier.push(v);
            assert(box_means(ps, boxes) == all);
            assert forall|k: int| 0 <= k < all.len() implies lo <= #[trigger] pixel_channel(all[k], d) <= hi by {
                if k < earlier.len() {
                    assert(all[k] == earlier[k]);
                }
            }
        } else {
            assert(box_means(ps, boxes) == earlier);
        }
    }
}

/// Each channel of every color the quantizer returns lies between the
/// smallest and largest value of that channel over the pixels (any bounds
/// `lo..=hi` on it), and the colors are pairwise different.
pub proof fn lemma_wu_colors_within_pixels(
    ps: Seq<Argb>,
    max_colors: int,
    colors: Seq<Argb>,
    d: Direction,
    lo: int,
    hi: int,
)
    requires
        max_colors >= 1,
        wu_result(ps, max_colors, colors),
        forall|i: int| 0 <= i < ps.len() ==> lo <= #[trigger] pixel_channel(ps[i]@, d) <= hi,
    ensures
        forall|k: int| 0 <= k < colors.len() ==> lo <= #[trigger] pixel_channel(colors[k]@, d) <= hi,
        forall|i: int, j: int| 0 <= i < j < colors.len() ==> colors[i] != colors[j],
{
    let k = choose|k: nat|
        {
            &&& wu_finished(max_colors, #[trigger] wu_rounds(ps, max_colors, k))
            &&& packed(colors) == box_means(ps, wu_rounds(ps, max_colors, k).boxes)
        };
    let boxes = wu_rounds(ps, max_colors, k).boxes;
    lemma_box_means_channels(ps, boxes, d, lo, hi);
    assert forall|j: int| 0 <= j < colors.len() implies lo <= #[trigger] pixel_channel(colors[j]@, d) <= hi by {
        assert(packed(colors)[j] == colors[j]@);
    }
    lemma_wu_colors_distinct(ps, max_colors, colors);
}

/// The squared distance between pixel `v` and the point `x` in color space.
pub open spec fn sq_dist(v: u32, x: (int, int, int)) -> int {
    let dr = red_of(v) - x.0;
    let dg = green_of(v) - x.1;
    let db = blue_of(v) - x.2;
    dr * dr + dg * dg + db * db
}

/// The sum of the squared distances from the pixels in `b` to the point `x`.
pub open spec fn dist_sum(ps: Seq<Argb>, b: CellRange, x: (int, int, int)) -> int
    decreases ps.len(),
{
    if ps.len() == 0 {
        0
    } else {
        dist_sum(ps.drop_last(), b, x) + if in_cells(ps.last()@, b) {
            sq_dist(ps.last()@, x)
        } else {
            0
        }
    }
}

/// `W * Q - |S|^2` for the pixels in `b`: `W` times their variance.
pub open spec fn spread(ps: Seq<Argb>, b: CellRange) -> int {
    box_sum(ps, Moment::Square, b) * box_sum(ps, Moment::Weight, b) - sum_square(ps, b)
}

/// The color of pixel `v` as a point.
pub open spec fn color_point(v: u32) -> (int, int, int) {
    (red_of(v) as int, green_of(v) as int, blue_of(v) as int)
}

/// The distance sum expands into the box sums.
proof fn lemma_dist_sum_expand(ps: Seq<Argb>, b: CellRange, x: (int, int, int))
    ensures
        dist_sum(ps, b, x) == box_sum(ps, Moment::Weight, b) * (x.0 * x.0 + x.1 * x.1 + x.2 * x.2)
            - 2 * (box_sum(ps, Moment::Red, b) * x.0 + box_sum(ps, Moment::Green, b) * x.1 + box_sum(
            ps,
            Moment::Blue,
            b,
        ) * x.2) + box_sum(ps, Moment::Square, b),
    decreases ps.len(),
{
    if ps.len() > 0 {
        lemma_dist_sum_expand(ps.drop_last(), b, x);
        let v = ps.last()@;
        if in_cells(v, b) {
            let r = red_of(v) as int;
            let g = green_of(v) as int;
            let bl = blue_of(v) as int;
            let w = box_sum(ps.drop_last(), Moment::Weight, b);
            let sr = box_sum(ps.drop_last(), Moment::Red, b);
            let sg = box_sum(ps.drop_last(), Moment::Green, b);
            let sb = box_sum(ps.drop_last(), Moment::Blue, b);
            let q = box_sum(ps.drop_last(), Moment::Square, b);
            let d0 = dist_sum(ps.drop_last(), b, x);
            lemma_sq_diff(r, x.0);
            lemma_sq_diff(g, x.1);
            lemma_sq_diff(bl, x.2);
            lemma_add_one_mul(w, x.0 * x.0 + x.1 * x.1 + x.2 * x.2);
            lemma_add_mul(sr, r, x.0);
            lemma_add_mul(sg, g, x.1);
            lemma_add_mul(sb, bl, x.2);
            assert(d0 + sq_dist(v, x) == (w + 1) * (x.0 * x.0 + x.1 * x.1 + x.2 * x.2) - 2 * ((sr
                + r) * x.0 + (sg + g) * x.1 + (sb + bl) * x.2) + (q + (r * r + g * g + bl * bl)));
        }
    }
}

/// The distance sum is at least the squared distance of any one pixel of
/// the range, and never negative.
proof fn lemma_dist_sum_member(ps: Seq<Argb>, b: CellRange, x: (int, int, int), idx: int)
    ensures
        dist_sum(ps, b, x) >= 0,
        0 <= idx < ps.len() && in_cells(ps[idx]@, b) ==> dist_sum(ps, b, x) >= sq_dist(ps[idx]@, x),
    decreases ps.len(),
{
    if ps.len() > 0 {
        lemma_dist_sum_member(ps.drop_last(), b, x, idx);
        let v = ps.last()@;
        assert(sq_dist(v, x) >= 0) by (nonlinear_arith)
            requires
                sq_dist(v, x) == (red_of(v) - x.0) * (red_of(v) - x.0) + (green_of(v) - x.1) * (
                green_of(v) - x.1) + (blue_of(v) - x.2) * (blue_of(v) - x.2),
        ;
        if 0 <= idx < ps.len() - 1 {
            assert(ps.drop_last()[idx] == ps[idx]);
        }
    }
}

proof fn lemma_sq_diff(a: int, t: int)
    ensures
        (a - t) * (a - t) == a * a - 2 * (a * t) + t * t,
{
    assert((a - t) * (a - t) == a * a - 2 * (a * t) + t * t) by (nonlinear_arith);
}

proof fn lemma_sq_sum(s: int, a: int)
    ensures
        (s + a) * (s + a) == s * s + 2 * (s * a) + a * a,
{
    assert((s + a) * (s + a) == s * s + 2 * (s * a) + a * a) by (nonlinear_arith);
}

proof fn lemma_add_mul(a: int, b: int, c: int)
    ensures
        (a + b) * c == a * c + b * c,
{
    assert((a + b) * c == a * c + b * c) by (nonlinear_arith);
}

proof fn lemma_add_one_mul(w: int, x: int)
    ensures
        (w + 1) * x == w * x + x,
{
    assert((w + 1) * x == w * x + x) by (nonlinear_arith);
}

proof fn lemma_prod_expand(q: int, u: int, w: int)
    ensures
        (q + u) * (w + 1) == q * w + q + w * u + u,
{
    assert((q + u) * (w + 1) == q * w + q + w * u + u) by (nonlinear_arith);
}

/// Adding a pixel of the range to the list adds its distance sum to the
/// earlier pixels of the range to the spread.
proof fn lemma_spread_step(ps: Seq<Argb>, b: CellRange)
    requires
        ps.len() > 0,
    ensures
        spread(ps, b) == spread(ps.drop_last(), b) + if in_cells(ps.last()@, b) {
            dist_sum(ps.drop_last(), b, color_point(ps.last()@))
        } else {
            0
        },
{
    let v = ps.last()@;
    let pre = ps.drop_last();
    if in_cells(v, b) {
        let x = color_point(v);
        lemma_dist_sum_expand(pre, b, x);
        let (r, g, bl) = (x.0, x.1, x.2);
        let w = box_sum(pre, Moment::Weight, b);
        let sr = box_sum(pre, Moment::Red, b);
        let sg = box_sum(pre, Moment::Green, b);
        let sb = box_sum(pre, Moment::Blue, b);
        let q = box_sum(pre, Moment::Square, b);
        lemma_prod_expand(q, r * r + g * g + bl * bl, w);
        lemma_sq_sum(sr, r);
        lemma_sq_sum(sg, g);
        lemma_sq_sum(sb, bl);
        assert((q + (r * r + g * g + bl * bl)) * (w + 1) - ((sr + r) * (sr + r) + (sg + g) * (sg + g)
            + (sb + bl) * (sb + bl)) == q * w - (sr * sr + sg * sg + sb * sb) + (w * (r * r + g * g
            + bl * bl) - 2 * (sr * r + sg * g + sb * bl) + q));
    }
}

/// The spread of a prefix of the list is at most the spread of the list,
/// and the spread is never negative.
proof fn lemma_spread_prefix(ps: Seq<Argb>, b: CellRange, k: int)
    requires
        0 <= k <= ps.len(),
    ensures
        0 <= spread(ps.take(k), b) <= spread(ps, b),
    decreases ps.len(),
{
    if ps.len() == 0 {
        assert(ps.take(k) =~= ps);
        lemma_box_sum_empty_list(ps, b);
    } else if k == ps.len() {
        assert(ps.take(k) =~= ps);
        lemma_spread_prefix(ps.drop_last(), b, k - 1);
        lemma_spread_step(ps, b);
        lemma_dist_sum_member(ps.drop_last(), b, color_point(ps.last()@), 0);
    } else {
        assert(ps.drop_last().take(k) =~= ps.take(k));
        lemma_spread_prefix(ps.drop_last(), b, k);
        lemma_spread_prefix(ps.drop_last(), b, ps.len() - 1);
        assert(ps.drop_last().take(ps.len() - 1) =~= ps.drop_last());
        lemma_spread_step(ps, b);
        lemma_dist_sum_member(ps.drop_last(), b, color_point(ps.last()@), 0);
    }
}

/// An empty list has zero sums and spread.
proof fn lemma_box_sum_empty_list(ps: Seq<Argb>, b: CellRange)
    requires
        ps.len() == 0,
    ensures
        spread(ps, b) == 0,
{
}

/// Two pixels of a range in different cells give the range a positive
/// spread, and the range has more than one cell.
pub proof fn lemma_two_cells_spread(ps: Seq<Argb>, b: CellRange)
    requires
        grid_range(b),
        spans_two_cells(ps, b),
    ensures
        spread(ps, b) > 0,
        range_cells(b) > 1,
        cut_variance(ps, b).0 > 0,
{
    let (p, q) = choose|p: int, q: int|
        #![trigger ps[p], ps[q]]
        0 <= p < ps.len() && 0 <= q < ps.len() && in_cells(ps[p]@, b) && in_cells(ps[q]@, b) && (
        pixel_axis(ps[p]@, Direction::Red) != pixel_axis(ps[q]@, Direction::Red) || pixel_axis(
            ps[p]@,
            Direction::Green,
        ) != pixel_axis(ps[q]@, Direction::Green) || pixel_axis(ps[p]@, Direction::Blue)
            != pixel_axis(ps[q]@, Direction::Blue));
    let (i, j) = if p < q { (p, q) } else { (q, p) };
    assert(i != j);
    let vi = ps[i]@;
    let vj = ps[j]@;
    assert(red_of(vi) != red_of(vj) || green_of(vi) != green_of(vj) || blue_of(vi) != blue_of(vj));
    let x = color_point(vj);
    let dr = red_of(vi) - x.0;
    let dg = green_of(vi) - x.1;
    let db = blue_of(vi) - x.2;
    assert(sq_dist(vi, x) > 0) by (nonlinear_arith)
        requires
            sq_dist(vi, x) == dr * dr + dg * dg + db * db,
            dr != 0 || dg != 0 || db != 0,
    ;
    let pre = ps.take(j);
    assert(pre[i] == ps[i]);
    lemma_dist_sum_member(pre, b, x, i);
    let upto = ps.take(j + 1);
    assert(upto.drop_last() =~= pre);
    assert(upto.last() == ps[j]);
    lemma_spread_step(upto, b);
    lemma_spread_prefix(ps, b, j);
    lemma_spread_prefix(ps, b, j + 1);
    assert(spread(ps, b) > 0);
    // two cells inside the range make it more than one cell
    let (ar, ag, ab) = (b.1 - b.0, b.3 - b.2, b.5 - b.4);
    assert(ar >= 1 && ag >= 1 && ab >= 1);
    assert(ar >= 2 || ag >= 2 || ab >= 2);
    assert(ar * ag * ab > 1) by (nonlinear_arith)
        requires ar >= 1, ag >= 1, ab >= 1, ar >= 2 || ag >= 2 || ab >= 2;
}

/// What every state of the quantizer keeps: each box holds pixels, each
/// recorded variance has a positive denominator, and each box whose pixels
/// lie in two cells has a positive recorded variance, unless it is the box
/// about to be cut first.
pub open spec fn wu_state_ok(ps: Seq<Argb>, s: WuState) -> bool {
    &&& forall|t: int| 0 <= t < s.boxes.len() ==> box_sum(ps, Moment::Weight, #[trigger] s.boxes[t]) > 0
    &&& forall|t: int| 0 <= t < s.variances.len() ==> (#[trigger] s.variances[t]).1 > 0
    &&& forall|t: int|
        0 <= t < s.boxes.len() ==> (spans_two_cells(ps, #[trigger] s.boxes[t]) ==> s.variances[t].0
            > 0 || (t == s.next && !s.done))
}

/// The position that `wu_cut` chooses is the best one found along its axis.
proof fn lemma_cut_is_axis_best(ps: Seq<Argb>, b: CellRange)
    ensures
        wu_cut(ps, b) matches Some(dc) ==> axis_best(ps, b, dc.0).2 == Some(dc.1),
{
}

/// Both parts of a chosen cut hold pixels.
proof fn lemma_cut_parts_hold_pixels(ps: Seq<Argb>, b: CellRange)
    ensures
        wu_cut(ps, b) matches Some(dc) ==> box_sum(ps, Moment::Weight, lower_part(b, dc.0, dc.1)) > 0
            && box_sum(ps, Moment::Weight, upper_part(b, dc.0, dc.1)) > 0,
{
    if wu_cut(ps, b) is Some {
        let dc = wu_cut(ps, b)->0;
        lemma_cut_is_axis_best(ps, b);
        lemma_scan_shape(ps, b, dc.0, axis_low(b, dc.0) + 1, axis_high(b, dc.0));
        lemma_range_sums_nonnegative(ps, lower_part(b, dc.0, dc.1));
        lemma_range_sums_nonnegative(ps, upper_part(b, dc.0, dc.1));
    }
}

/// The variance recorded for a part of a cut has a positive denominator,
/// and is positive when the part's pixels lie in two cells.
proof fn lemma_cut_variance_ok(ps: Seq<Argb>, b: CellRange)
    requires
        grid_range(b),
        box_sum(ps, Moment::Weight, b) > 0,
    ensures
        cut_variance(ps, b).1 > 0,
        spans_two_cells(ps, b) ==> cut_variance(ps, b).0 > 0,
{
    if spans_two_cells(ps, b) {
        lemma_two_cells_spread(ps, b);
    }
}

/// Every state of the quantizer over a non-empty pixel list is in order.
pub proof fn lemma_wu_states_ok(ps: Seq<Argb>, max_colors: int, k: nat)
    requires
        ps.len() > 0,
        max_colors >= 1,
    ensures
        wu_state_ok(ps, wu_rounds(ps, max_colors, k)),
    decreases k,
{
    lemma_wu_rounds_partition(ps, max_colors, k);
    if k == 0 {
        let whole = (0int, 32int, 0int, 32int, 0int, 32int);
        assert(in_cells(ps[0]@, whole));
        lemma_member_weight(ps, whole, 0);
        assert(wu_start().boxes[0] == whole);
    } else {
        let prev = wu_rounds(ps, max_colors, (k - 1) as nat);
        lemma_wu_states_ok(ps, max_colors, (k - 1) as nat);
        lemma_wu_rounds_partition(ps, max_colors, (k - 1) as nat);
        if !wu_finished(max_colors, prev) {
            let s = wu_step(ps, max_colors, prev);
            let n = prev.next;
            let b = prev.boxes[n];
            lemma_cut_exists_iff_two_cells(ps, b);
            lemma_cut_parts_hold_pixels(ps, b);
            assert(prev.boxes[n] == b);
            assert(grid_range(b));
            match wu_cut(ps, b) {
                Some(dc) => {
                    let lo = lower_part(b, dc.0, dc.1);
                    let hi = upper_part(b, dc.0, dc.1);
                    assert(s.boxes[n] == lo);
                    assert(s.boxes[prev.boxes.len() as int] == hi);
                    assert(grid_range(lo) && grid_range(hi));
                    lemma_cut_variance_ok(ps, lo);
                    lemma_cut_variance_ok(ps, hi);
                    assert forall|t: int| 0 <= t < s.boxes.len() implies box_sum(
                        ps,
                        Moment::Weight,
                        #[trigger] s.boxes[t],
                    ) > 0 by {
                        if t != n && t < prev.boxes.len() {
                            assert(s.boxes[t] == prev.boxes[t]);
                        }
                    }
                    assert forall|t: int| 0 <= t < s.variances.len() implies (
                    #[trigger] s.variances[t]).1 > 0 by {
                        if t != n && t < prev.boxes.len() {
                            assert(s.variances[t] == prev.variances[t]);
                        }
                    }
                    assert forall|t: int| 0 <= t < s.boxes.len() implies (spans_two_cells(
                        ps,
                        #[trigger] s.boxes[t],
                    ) ==> s.variances[t].0 > 0) by {
                        if t != n && t < prev.boxes.len() {
                            assert(s.boxes[t] == prev.boxes[t]);
                            assert(s.variances[t] == prev.variances[t]);
                        }
                    }
                },
                None => {
                    assert(!spans_two_cells(ps, b));
                    assert forall|t: int| 0 <= t < s.boxes.len() implies box_sum(
                        ps,
                        Moment::Weight,
                        #[trigger] s.boxes[t],
                    ) > 0 by {
                        assert(s.boxes[t] == prev.boxes[t]);
                    }
                    assert forall|t: int| 0 <= t < s.variances.len() implies (
                    #[trigger] s.variances[t]).1 > 0 by {
                        if t != n {
                            assert(s.variances[t] == prev.variances[t]);
                        }
                    }
                    assert forall|t: int| 0 <= t < s.boxes.len() implies (spans_two_cells(
                        ps,
                        #[trigger] s.boxes[t],
                    ) ==> s.variances[t].0 > 0) by {
                        assert(s.boxes[t] == prev.boxes[t]);
                        if t != n {
                            assert(s.variances[t] == prev.variances[t]);
                        }
                    }
                },
            }
        }
    }
}

/// `a / b <= c / d < e / f` gives `a / b <= e / f`, for positive
/// denominators.
proof fn lemma_fraction_le_lt(a: int, b: int, c: int, d: int, e: int, f: int)
    requires
        b > 0,
        d > 0,
        f > 0,
        a * d <= c * b,
        c * f < e * d,
    ensures
        a * f <= e * b,
{
    assert(a * d * f <= c * b * f) by (nonlinear_arith)
        requires a * d <= c * b, f > 0;
    assert(c * f * b < e * d * b) by (nonlinear_arith)
        requires c * f < e * d, b > 0;
    assert(c * b * f == c * f * b) by (nonlinear_arith);
    assert(e * d * b == e * b * d) by (nonlinear_arith);
    assert(a * d * f == a * f * d) by (nonlinear_arith);
    assert(a * f <= e * b) by (nonlinear_arith)
        requires a * f * d < e * b * d, d > 0;
}

/// No recorded variance among the boxes `0..=last` exceeds that of the
/// widest box.
proof fn lemma_widest_box_max(v: Seq<(int, int)>, last: int)
    requires
        0 <= last < v.len(),
        forall|t: int| 0 <= t <= last ==> (#[trigger] v[t]).1 > 0,
    ensures
        0 <= widest_box(v, last) <= last,
        forall|t: int|
            0 <= t <= last ==> (#[trigger] v[t]).0 * v[widest_box(v, last)].1 <= v[widest_box(
                v,
                last,
            )].0 * v[t].1,
    decreases last,
{
    lemma_widest_box_range(v, last);
    if last > 0 {
        lemma_widest_box_max(v, last - 1);
        let p = widest_box(v, last - 1);
        if v[last].0 * v[p].1 > v[p].0 * v[last].1 {
            assert forall|t: int| 0 <= t <= last implies (#[trigger] v[t]).0 * v[last].1 <= v[last].0
                * v[t].1 by {
                if t < last {
                    lemma_fraction_le_lt(v[t].0, v[t].1, v[p].0, v[p].1, v[last].0, v[last].1);
                } else {
                    assert(v[t].0 * v[last].1 == v[last].0 * v[t].1);
                }
            }
        }
    } else {
        assert(v[0].0 * v[0].1 <= v[0].0 * v[0].1);
    }
}

/// A quantizer that stopped for want of variance chose the widest box last.
proof fn lemma_done_after_choice(ps: Seq<Argb>, max_colors: int, k: nat)
    requires
        wu_rounds(ps, max_colors, k).done,
    ensures
        wu_rounds(ps, max_colors, k).next == widest_box(
            wu_rounds(ps, max_colors, k).variances,
            wu_rounds(ps, max_colors, k).boxes.len() - 1,
        ),
        wu_rounds(ps, max_colors, k).variances[wu_rounds(ps, max_colors, k).next].0 <= 0,
    decreases k,
{
    if k > 0 {
        let prev = wu_rounds(ps, max_colors, (k - 1) as nat);
        if wu_finished(max_colors, prev) {
            lemma_done_after_choice(ps, max_colors, (k - 1) as nat);
        }
    }
}

/// When the quantizer stops before it holds `max_colors` boxes, it is
/// because no box can be split any more: the pixels of every box lie in a
/// single cell. So it stops short only when the pixels occupy fewer cells
/// than `max_colors`.
pub proof fn lemma_wu_stops_only_when_settled(ps: Seq<Argb>, max_colors: int, k: nat)
    requires
        ps.len() > 0,
        max_colors >= 1,
        wu_rounds(ps, max_colors, k).done,
    ensures
        forall|t: int|
            0 <= t < wu_rounds(ps, max_colors, k).boxes.len() ==> !spans_two_cells(
                ps,
                #[trigger] wu_rounds(ps, max_colors, k).boxes[t],
            ),
{
    let s = wu_rounds(ps, max_colors, k);
    lemma_wu_states_ok(ps, max_colors, k);
    lemma_wu_rounds_partition(ps, max_colors, k);
    lemma_done_after_choice(ps, max_colors, k);
    let last = s.boxes.len() - 1;
    lemma_widest_box_max(s.variances, last);
    let w = s.next;
    assert(s.variances[w].0 <= 0);
    assert forall|t: int| 0 <= t < s.boxes.len() implies !spans_two_cells(ps, #[trigger] s.boxes[t]) by {
        let vt = s.variances[t];
        let vw = s.variances[w];
        assert(vt.0 * vw.1 <= vw.0 * vt.1);
        assert(vt.1 > 0 && vw.1 > 0);
        assert(vt.0 <= 0) by (nonlinear_arith)
            requires vt.0 * vw.1 <= vw.0 * vt.1, vw.0 <= 0, vt.1 > 0, vw.1 > 0;
    }
}

/// Ranges that all hold pixels each give one reported color.
proof fn lemma_box_means_all_held(ps: Seq<Argb>, boxes: Seq<CellRange>)
    requires
        forall|t: int| 0 <= t < boxes.len() ==> box_sum(ps, Moment::Weight, #[trigger] boxes[t]) > 0,
    ensures
        box_means(ps, boxes).len() == boxes.len(),
    decreases boxes.len(),
{
    if boxes.len() > 0 {
        assert forall|t: int| 0 <= t < boxes.drop_last().len() implies box_sum(
            ps,
            Moment::Weight,
            #[trigger] boxes.drop_last()[t],
        ) > 0 by {
            assert(boxes.drop_last()[t] == boxes[t]);
        }
        lemma_box_means_all_held(ps, boxes.drop_last());
        assert(boxes.last() == boxes[boxes.len() - 1]);
    }
}

/// Any result of the quantizer over a non-empty pixel list gives one color
/// per box of a partition of the grid, and holds `max_colors` colors unless
/// no box can be split further (the pixels of every box lie in one cell).
pub proof fn lemma_wu_result_full_or_settled(ps: Seq<Argb>, max_colors: int, colors: Seq<Argb>)
    requires
        ps.len() > 0,
        max_colors >= 1,
        wu_result(ps, max_colors, colors),
    ensures
        exists|boxes: Seq<CellRange>|
            {
                &&& is_partition(boxes)
                &&& packed(colors) == box_means(ps, boxes)
                &&& colors.len() == boxes.len()
                &&& boxes.len() <= max_colors
                &&& (boxes.len() == max_colors || forall|t: int|
                    0 <= t < boxes.len() ==> !spans_two_cells(ps, #[trigger] boxes[t]))
            },
{
    let k = choose|k: nat|
        {
            &&& wu_finished(max_colors, #[trigger] wu_rounds(ps, max_colors, k))
            &&& packed(colors) == box_means(ps, wu_rounds(ps, max_colors, k).boxes)
        };
    let st = wu_rounds(ps, max_colors, k);
    lemma_wu_rounds_partition(ps, max_colors, k);
    lemma_wu_states_ok(ps, max_colors, k);
    lemma_box_means_all_held(ps, st.boxes);
    assert(packed(colors).len() == colors.len());
    if st.done {
        lemma_wu_stops_only_when_settled(ps, max_colors, k);
    }
}

/// The histogram cell of pixel `v`.
pub open spec fn pixel_cell(v: u32) -> (int, int, int) {
    (cell_coord(red_of(v)), cell_coord(green_of(v)), cell_coord(blue_of(v)))
}

/// The cells that hold at least one of the pixels.
pub open spec fn occupied_cells(ps: Seq<Argb>) -> Set<(int, int, int)> {
    ps.map_values(|p: Argb| pixel_cell(p@)).to_set()
}

/// The box of a partition that holds cell `c`.
spec fn box_of_cell(boxes: Seq<CellRange>, c: (int, int, int)) -> int {
    choose|t: int| 0 <= t < boxes.len() && cell_in_range(c.0, c.1, c.2, boxes[t])
}

/// When the pixels of each box of a partition lie in one cell, the pixels
/// occupy no more cells than there are boxes.
pub proof fn lemma_settled_boxes_count_cells(ps: Seq<Argb>, boxes: Seq<CellRange>)
    requires
        is_partition(boxes),
        forall|t: int| 0 <= t < boxes.len() ==> !spans_two_cells(ps, #[trigger] boxes[t]),
    ensures
        occupied_cells(ps).finite(),
        occupied_cells(ps).len() <= boxes.len(),
{
    let cells = occupied_cells(ps);
    let cs = ps.map_values(|p: Argb| pixel_cell(p@));
    vstd::seq_lib::seq_to_set_is_finite(cs);
    let f = |c: (int, int, int)| box_of_cell(boxes, c);
    assert forall|c: (int, int, int)| #[trigger] cells.contains(c) implies exists|i: int|
        0 <= i < ps.len() && pixel_cell(ps[i]@) == c && 0 <= f(c) < boxes.len() && in_cells(
            ps[i]@,
            boxes[f(c)],
        ) by {
        assert(cs.contains(c));
        let i = choose|i: int| 0 <= i < cs.len() && cs[i] == c;
        assert(cs[i] == pixel_cell(ps[i]@));
        assert(covered(boxes, c.0, c.1, c.2));
    }
    assert(vstd::relations::injective_on(f, cells)) by {
        assert forall|c1: (int, int, int), c2: (int, int, int)|
            cells.contains(c1) && cells.contains(c2) && #[trigger] f(c1) == #[trigger] f(c2) implies c1
            == c2 by {
            let i1 = choose|i: int|
                0 <= i < ps.len() && pixel_cell(ps[i]@) == c1 && 0 <= f(c1) < boxes.len() && in_cells(
                    ps[i]@,
                    boxes[f(c1)],
                );
            let i2 = choose|i: int|
                0 <= i < ps.len() && pixel_cell(ps[i]@) == c2 && 0 <= f(c2) < boxes.len() && in_cells(
                    ps[i]@,
                    boxes[f(c2)],
                );
            let t = f(c1);
            assert(!spans_two_cells(ps, boxes[t]));
            assert(in_cells(ps[i1]@, boxes[t]) && in_cells(ps[i2]@, boxes[t]));
            assert(!(pixel_axis(ps[i1]@, Direction::Red) != pixel_axis(ps[i2]@, Direction::Red)
                || pixel_axis(ps[i1]@, Direction::Green) != pixel_axis(ps[i2]@, Direction::Green)
                || pixel_axis(ps[i1]@, Direction::Blue) != pixel_axis(ps[i2]@, Direction::Blue)));
        }
    }
    let image = cells.map(f);
    vstd::set_lib::lemma_map_size(cells, image, f);
    let range = vstd::set_lib::set_int_range(0, boxes.len() as int);
    vstd::set_lib::lemma_int_range(0, boxes.len() as int);
    assert(image.subset_of(range)) by {
        assert forall|t: int| #[trigger] image.contains(t) implies range.contains(t) by {
            let c = choose|c: (int, int, int)| cells.contains(c) && f(c) == t;
        }
    }
    vstd::set_lib::lemma_len_subset(image, range);
}

/// When the pixels occupy at least `max_colors` cells, the quantizer returns
/// exactly `max_colors` colors.
pub proof fn lemma_wu_fills_when_enough_cells(ps: Seq<Argb>, max_colors: int, colors: Seq<Argb>)
    requires
        ps.len() > 0,
        max_colors >= 1,
        wu_result(ps, max_colors, colors),
        occupied_cells(ps).len() >= max_colors,
    ensures
        colors.len() == max_colors,
{
    lemma_wu_result_full_or_settled(ps, max_colors, colors);
    let boxes = choose|boxes: Seq<CellRange>|
        {
            &&& is_partition(boxes)
            &&& packed(colors) == box_means(ps, boxes)
            &&& colors.len() == boxes.len()
            &&& boxes.len() <= max_colors
            &&& (boxes.len() == max_colors || forall|t: int|
                0 <= t < boxes.len() ==> !spans_two_cells(ps, #[trigger] boxes[t]))
        };
    if boxes.len() != max_colors {
        lemma_settled_boxes_count_cells(ps, boxes);
    }
}

} // verus!
