//! The texels of the example's test texture: a red gradient down the rows
//! and a green gradient along each row, each wrapping every 256 texels.
use vstd::prelude::*;

verus! {

/// Texel `k` of a texture whose rows are `columns` texels long, laid out
/// row after row (the order in which the texture is uploaded): its red,
/// green, blue and alpha bytes.
pub open spec fn texel(k: int, columns: int) -> (u8, u8, u8, u8) {
    (((k / columns) % 256) as u8, ((k % columns) % 256) as u8, 0, 255)
}

/// The RGBA bytes of a texture of `rows` rows of `columns` texels each,
/// row after row, whose texel in row `x` and column `y` is
/// `(x % 256, y % 256, 0, 255)`.
pub fn texture_data(rows: usize, columns: usize) -> (r: Vec<u8>)
    requires
        rows * columns * 4 <= usize::MAX,
    ensures
        r@.len() == 4 * (rows * columns),
        forall|k: int|
            0 <= k < rows * columns ==> (r@[4 * k], r@[4 * k + 1], r@[4 * k + 2], r@[4 * k + 3]) == #[trigger] texel(
                k,
                columns as int,
            ),
{
    let total = rows * columns;
    let mut r: Vec<u8> = Vec::new();
    let mut k: usize = 0;
    while k < total
        invariant
            total == rows * columns,
            total * 4 <= usize::MAX,
            k <= total,
            r@.len() == 4 * k,
            forall|j: int|
                0 <= j < k ==> (r@[4 * j], r@[4 * j + 1], r@[4 * j + 2], r@[4 * j + 3]) == #[trigger] texel(
                    j,
                    columns as int,
                ),
        decreases total - k,
    {
        assert(columns > 0) by (nonlinear_arith)
            requires
                k < rows * columns,
        ;
        let x = k / columns;
        let y = k % columns;
        let ghost before = r@;
        r.push((x % 256) as u8);
        r.push((y % 256) as u8);
        r.push(0);
        r.push(255);
        assert forall|j: int| 0 <= j < k + 1 implies (r@[4 * j], r@[4 * j + 1], r@[4 * j + 2], r@[4 * j + 3])
            == #[trigger] texel(j, columns as int) by {
            if j < k {
                assert(r@[4 * j] == before[4 * j]);
                assert(r@[4 * j + 1] == before[4 * j + 1]);
                assert(r@[4 * j + 2] == before[4 * j + 2]);
                assert(r@[4 * j + 3] == before[4 * j + 3]);
            }
        }
        k = k + 1;
    }
    r
}

/// Texel `x * columns + y`, the one in row `x` and column `y`, is
/// `(x % 256, y % 256, 0, 255)`.
pub proof fn lemma_texel_at(x: int, y: int, columns: int)
    requires
        0 <= x,
        0 <= y < columns,
    ensures
        texel(x * columns + y, columns) == ((x % 256) as u8, (y % 256) as u8, 0u8, 255u8),
{
    assert((x * columns + y) / columns == x && (x * columns + y) % columns == y) by (nonlinear_arith)
        requires
            0 <= x,
            0 <= y < columns,
    {
        vstd::arithmetic::div_mod::lemma_fundamental_div_mod_converse(x * columns + y, columns, x, y);
    }
}

} // verus!
