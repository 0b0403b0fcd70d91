use vstd::prelude::*;

verus! {

/// The largest number of analogous colors that can be asked for: counts
/// are exact up to this bound wherever they are measured in
/// floating-point steps, and no memory holds more colors.
pub open spec fn max_analogous_count() -> int {
    0x20_0000_0000_0000
}

/// How many of `count` analogous colors lie counter-clockwise of the input
/// color: half of the others, rounded down.
pub open spec fn ccw_count(count: int) -> int {
    if count <= 0 {
        0
    } else {
        (count - 1) / 2
    }
}

/// How many of `count` analogous colors lie clockwise of the input color:
/// the rest of the others.
pub open spec fn cw_count(count: int) -> int {
    if count <= 0 {
        0
    } else {
        count - 1 - ccw_count(count)
    }
}

/// Where each analogous color comes from, in order from the most
/// counter-clockwise to the most clockwise: `None` is the input color
/// itself, `Some(i)` is position `i` of the hue-ordered ring of
/// `palette_len` colors, whose position 0 is the input's hue. The
/// counter-clockwise colors are taken by walking the ring backwards from
/// position 0, the clockwise ones forwards, wrapping around the ring.
pub fn analogous_positions(count: usize, palette_len: usize) -> (r: Vec<Option<usize>>)
    requires
        palette_len > 0,
        count <= max_analogous_count(),
    ensures
        r@.len() == ccw_count(count as int) + 1 + cw_count(count as int),
        forall|k: int|
            0 <= k < ccw_count(count as int) ==> #[trigger] r@[k] == Some(
                ((k - ccw_count(count as int)) % (palette_len as int)) as usize,
            ),
        r@[ccw_count(count as int)] == None::<usize>,
        forall|j: int|
            1 <= j <= cw_count(count as int) ==> #[trigger] r@[ccw_count(count as int) + j] == Some(
                (j % (palette_len as int)) as usize,
            ),
{
    let ccw: usize = if count == 0 {
        0
    } else {
        (count - 1) / 2
    };
    let cw: usize = if count == 0 {
        0
    } else {
        count - 1 - ccw
    };
    let mut positions: Vec<Option<usize>> = Vec::new();
    for k in 0..ccw
        invariant
            ccw == ccw_count(count as int),
            palette_len > 0,
            positions@.len() == k,
            forall|i: int|
                0 <= i < k ==> #[trigger] positions@[i] == Some(
                    ((i - ccw) % (palette_len as int)) as usize,
                ),
    {
        let steps_back = ccw - k;
        let position = (palette_len - steps_back % palette_len) % palette_len;
        proof {
            lemma_backward_position(steps_back as int, palette_len as int);
        }
        positions.push(Some(position));
    }
    positions.push(None);
    for j in 1..cw + 1
        invariant
            ccw == ccw_count(count as int),
            cw == cw_count(count as int),
            cw < usize::MAX,
            palette_len > 0,
            positions@.len() == ccw + j,
            forall|i: int|
                0 <= i < ccw ==> #[trigger] positions@[i] == Some(
                    ((i - ccw) % (palette_len as int)) as usize,
                ),
            positions@[ccw as int] == None::<usize>,
            forall|i: int|
                1 <= i < j ==> #[trigger] positions@[ccw + i] == Some(
                    (i % (palette_len as int)) as usize,
                ),
    {
        positions.push(Some(j % palette_len));
    }
    positions
}

/// Walking `steps` positions backwards on a ring of `len` positions from
/// position 0 ends at `(len - steps % len) % len`.
proof fn lemma_backward_position(steps: int, len: int)
    requires
        steps >= 0,
        len > 0,
    ensures
        (len - steps % len) % len == (-steps) % len,
        0 <= (len - steps % len) % len < len,
{
    let r = steps % len;
    let q = steps / len;
    vstd::arithmetic::div_mod::lemma_fundamental_div_mod(steps, len);
    assert(0 <= r < len);
    if r == 0 {
        assert(-steps == (-q) * len) by (nonlinear_arith)
            requires
                steps == len * q + r,
                r == 0,
        ;
        vstd::arithmetic::div_mod::lemma_fundamental_div_mod_converse(-steps, len, -q, 0);
        vstd::arithmetic::div_mod::lemma_fundamental_div_mod_converse(len, len, 1, 0);
    } else {
        assert(-steps == (-q - 1) * len + (len - r)) by (nonlinear_arith)
            requires
                steps == len * q + r,
        ;
        vstd::arithmetic::div_mod::lemma_fundamental_div_mod_converse(-steps, len, -q - 1, len - r);
        vstd::arithmetic::div_mod::lemma_fundamental_div_mod_converse(len - r, len, 0, len - r);
    }
}

} // verus!
