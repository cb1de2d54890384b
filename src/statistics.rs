use vstd::prelude::*;

use crate::error::ThermoError;
use crate::rgb_image::lemma_row_of;
use crate::temperature_pixel::TemperaturPixel;

verus! {

/// `g[k]` is a smallest sample, and no later sample is as small.
pub open spec fn is_last_min(g: Seq<i32>, k: int) -> bool {
    &&& 0 <= k < g.len()
    &&& forall|i: int| 0 <= i < g.len() ==> g[k] <= #[trigger] g[i]
    &&& forall|i: int| k < i < g.len() ==> g[k] < #[trigger] g[i]
}

/// `g[k]` is a largest sample, and no later sample is as large.
pub open spec fn is_last_max(g: Seq<i32>, k: int) -> bool {
    &&& 0 <= k < g.len()
    &&& forall|i: int| 0 <= i < g.len() ==> #[trigger] g[i] <= g[k]
    &&& forall|i: int| k < i < g.len() ==> #[trigger] g[i] < g[k]
}

/// Sample `k` of a row-major grid with `cols` columns, with its position.
pub open spec fn grid_pixel(g: Seq<i32>, cols: u32, k: int) -> TemperaturPixel {
    TemperaturPixel { x: (k % cols as int) as u32, y: (k / cols as int) as u32, value: g[k] }
}

pub open spec fn sum_of(g: Seq<i32>) -> int
    decreases g.len(),
{
    if g.len() == 0 {
        0
    } else {
        sum_of(g.drop_last()) + g.last()
    }
}

/// The mean of the samples, rounded down.
pub open spec fn mean_of(g: Seq<i32>) -> int {
    sum_of(g) / (g.len() as int)
}

/// Whether `(max_pixel, min_pixel, mean)` is what a scan of a grid with
/// `cols` columns gives: the last largest sample, the last smallest sample,
/// and the mean rounded down.
pub open spec fn is_statistics(
    g: Seq<i32>,
    cols: u32,
    max_pixel: TemperaturPixel,
    min_pixel: TemperaturPixel,
    mean: i32,
) -> bool {
    &&& exists|k: int| is_last_max(g, k) && max_pixel == grid_pixel(g, cols, k)
    &&& exists|k: int| is_last_min(g, k) && min_pixel == grid_pixel(g, cols, k)
    &&& mean == mean_of(g)
}

/// Scans a row-major temperature grid of `shape = (rows, cols)` for its
/// extrema and mean. The first sample seeds both extrema; on ties the last
/// sample wins. Fails on an empty grid, and on one whose length is not
/// `rows * cols`.
pub fn extract_statistics(
    grid: &Vec<i32>,
    shape: (u32, u32),
) -> (r: Result<(TemperaturPixel, TemperaturPixel, i32), ThermoError>)
    ensures
        grid@.len() == 0 ==> r == Err::<(TemperaturPixel, TemperaturPixel, i32), ThermoError>(
            ThermoError::EmptyInput,
        ),
        grid@.len() != 0 && grid@.len() != shape.0 * shape.1 ==> r == Err::<
            (TemperaturPixel, TemperaturPixel, i32),
            ThermoError,
        >(ThermoError::DimensionMismatch),
        grid@.len() != 0 && grid@.len() == shape.0 * shape.1 ==> r is Ok,
        r is Ok ==> r->Ok_0.0.x < shape.1 && r->Ok_0.0.y < shape.0 && r->Ok_0.1.x < shape.1
            && r->Ok_0.1.y < shape.0,
        r is Ok ==> is_statistics(
            grid@,
            shape.1,
            r->Ok_0.0,
            r->Ok_0.1,
            r->Ok_0.2,
        ),
{
    let n = grid.len();
    if n == 0 {
        return Err(ThermoError::EmptyInput);
    }
    proof {
        assert(0 <= shape.0 * shape.1 <= 0xffff_ffff * 0xffff_ffff) by (nonlinear_arith)
            requires
                shape.0 <= 0xffff_ffff,
                shape.1 <= 0xffff_ffff,
        ;
    }
    if n as u128 != (shape.0 as u128) * (shape.1 as u128) {
        return Err(ThermoError::DimensionMismatch);
    }
    let cols = shape.1;
    assert(cols > 0 && shape.0 > 0) by (nonlinear_arith)
        requires
            n == shape.0 * cols,
            n > 0,
            cols >= 0,
            shape.0 >= 0,
    ;
    let ghost g = grid@;
    let mut min_idx: usize = 0;
    let mut min_val = grid[0];
    let mut max_idx: usize = 0;
    let mut max_val = grid[0];
    let mut sum: i128 = grid[0] as i128;
    let mut i: usize = 1;
    proof {
        assert(g.take(1).drop_last() == g.take(0));
        assert(sum_of(g.take(0)) == 0);
        assert(g.take(1).last() == g[0]);
    }
    while i < n
        invariant
            n == g.len(),
            g == grid@,
            1 <= i <= n,
            min_idx < i && g[min_idx as int] == min_val,
            forall|j: int| 0 <= j < i ==> min_val <= #[trigger] g[j],
            forall|j: int| min_idx < j < i ==> min_val < #[trigger] g[j],
            max_idx < i && g[max_idx as int] == max_val,
            forall|j: int| 0 <= j < i ==> #[trigger] g[j] <= max_val,
            forall|j: int| max_idx < j < i ==> #[trigger] g[j] < max_val,
            sum == sum_of(g.take(i as int)),
            -0x8000_0000 * i <= sum <= 0x7fff_ffff * i,
        decreases n - i,
    {
        let t = grid[i];
        if t <= min_val {
            min_val = t;
            min_idx = i;
        }
        if t >= max_val {
            max_val = t;
            max_idx = i;
        }
        proof {
            assert(g.take(i + 1).drop_last() == g.take(i as int));
        }
        sum = sum + t as i128;
        i = i + 1;
    }
    assert(g.take(n as int) == g);
    proof {
        lemma_div_range(sum as int, n as int);
    }
    let mean = floor_div(sum, n) as i32;
    proof {
        lemma_row_of(min_idx as int, shape.0 as int, cols as int);
        lemma_row_of(max_idx as int, shape.0 as int, cols as int);
    }
    let cols_n = cols as usize;
    let min_pixel = TemperaturPixel {
        x: (min_idx % cols_n) as u32,
        y: (min_idx / cols_n) as u32,
        value: min_val,
    };
    let max_pixel = TemperaturPixel {
        x: (max_idx % cols_n) as u32,
        y: (max_idx / cols_n) as u32,
        value: max_val,
    };
    proof {
        assert(is_last_min(g, min_idx as int));
        assert(min_pixel == grid_pixel(g, cols, min_idx as int));
        assert(is_last_max(g, max_idx as int));
        assert(max_pixel == grid_pixel(g, cols, max_idx as int));
    }
    Ok((max_pixel, min_pixel, mean))
}

/// `sum / n` rounded down.
fn floor_div(sum: i128, n: usize) -> (q: i128)
    requires
        n > 0,
        -0x8000_0000 * n <= sum <= 0x7fff_ffff * n,
    ensures
        q == sum as int / n as int,
{
    if sum >= 0 {
        (sum as u128 / n as u128) as i128
    } else {
        let a = (-sum) as u128;
        let c = (a + (n as u128) - 1) / (n as u128);
        proof {
            let ni = n as int;
            vstd::arithmetic::div_mod::lemma_fundamental_div_mod(a + ni - 1, ni);
            vstd::arithmetic::div_mod::lemma_fundamental_div_mod(sum as int, ni);
            let r1 = (a + ni - 1) % ni;
            let q2 = sum as int / ni;
            let r2 = sum as int % ni;
            assert(q2 == -c) by (nonlinear_arith)
                requires
                    a + ni - 1 == ni * c + r1,
                    0 <= r1 < ni,
                    sum == ni * q2 + r2,
                    0 <= r2 < ni,
                    a == -sum,
                    ni > 0,
            ;
        }
        -(c as i128)
    }
}

proof fn lemma_div_range(sum: int, n: int)
    requires
        n > 0,
        -0x8000_0000 * n <= sum <= 0x7fff_ffff * n,
    ensures
        -0x8000_0000 <= sum / n <= 0x7fff_ffff,
{
    vstd::arithmetic::div_mod::lemma_fundamental_div_mod(sum, n);
    let q = sum / n;
    let r = sum % n;
    assert(-0x8000_0000 <= q <= 0x7fff_ffff) by (nonlinear_arith)
        requires
            sum == n * q + r,
            0 <= r < n,
            -0x8000_0000 * n <= sum <= 0x7fff_ffff * n,
    ;
}

} // verus!
