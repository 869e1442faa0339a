use vstd::prelude::*;

use crate::conv::{patch_dot, window_sum, Conv2D};
use crate::dot::row_dot;
use crate::elementwise::{relu_spec, relu_value};
use crate::pool::{block_max, lemma_block_max, lemma_window_in_range, pool_output};
use crate::tensor::{cols_of, is_dense, rows_of};

verus! {

/// Rectifying twice is rectifying once.
pub proof fn relu_idempotent(x: Seq<Seq<Seq<i32>>>)
    ensures
        relu_spec(relu_spec(x)) == relu_spec(x),
{
    assert forall|v: i32| relu_value(relu_value(v)) == #[trigger] relu_value(v) by {}
    assert(relu_spec(relu_spec(x)) =~~= relu_spec(x));
}

proof fn lemma_row_dot_zero(xs: Seq<i32>, ws: Seq<i32>, x0: int, n: int)
    requires
        forall|k: int| 0 <= k < n ==> #[trigger] ws[k] == 0,
    ensures
        row_dot(xs, ws, x0, n) == 0,
    decreases n,
{
    if n > 0 {
        lemma_row_dot_zero(xs, ws, x0, n - 1);
        assert(ws[n - 1] == 0);
        assert(xs[x0 + n - 1] * 0 == 0);
    }
}

proof fn lemma_patch_dot_zero(xp: Seq<Seq<i32>>, wp: Seq<Seq<i32>>, y0: int, x0: int, kw: int, n: int)
    requires
        forall|j: int, k: int| 0 <= j < n && 0 <= k < kw ==> #[trigger] wp[j][k] == 0,
    ensures
        patch_dot(xp, wp, y0, x0, kw, n) == 0,
    decreases n,
{
    if n > 0 {
        lemma_patch_dot_zero(xp, wp, y0, x0, kw, n - 1);
        let row = wp[n - 1];
        assert forall|k: int| 0 <= k < kw implies #[trigger] row[k] == 0 by {
            assert(wp[n - 1][k] == 0);
        }
        lemma_row_dot_zero(xp[y0 + n - 1], row, x0, kw);
    }
}

proof fn lemma_window_sum_zero(
    x: Seq<Seq<Seq<i32>>>,
    w: Seq<Seq<Seq<i32>>>,
    y0: int,
    x0: int,
    kh: int,
    kw: int,
    n: int,
)
    requires
        forall|c: int, j: int, k: int|
            0 <= c < n && 0 <= j < kh && 0 <= k < kw ==> #[trigger] w[c][j][k] == 0,
    ensures
        window_sum(x, w, y0, x0, kh, kw, n) == 0,
    decreases n,
{
    if n > 0 {
        lemma_window_sum_zero(x, w, y0, x0, kh, kw, n - 1);
        let slab = w[n - 1];
        assert forall|j: int, k: int| 0 <= j < kh && 0 <= k < kw implies #[trigger] slab[j][k]
            == 0 by {
            assert(w[n - 1][j][k] == 0);
        }
        lemma_patch_dot_zero(x[n - 1], slab, y0, x0, kw, kh);
    }
}

/// A convolution whose filters and biases are all zero maps every input it
/// accepts to the all-zero tensor of the output shape.
pub proof fn conv_zero_parameters(layer: Conv2D, x: Seq<Seq<Seq<i32>>>)
    requires
        layer.accepts(x),
        forall|o: int, c: int, j: int, k: int|
            0 <= o < layer.out_channels() && 0 <= c < layer.in_channels() && 0 <= j < layer.kh()
                && 0 <= k < layer.kw() ==> #[trigger] layer.filters()[o][c][j][k] == 0,
        forall|o: int| 0 <= o < layer.out_channels() ==> #[trigger] layer.biases()[o] == 0,
    ensures
        layer.forward_spec(x) == Ok::<Seq<Seq<Seq<i32>>>, crate::tensor::ModelError>(
            Seq::new(
                layer.out_channels() as nat,
                |o: int|
                    Seq::new(
                        layer.out_rows(x) as nat,
                        |y: int| Seq::new(layer.out_cols(x) as nat, |xx: int| 0i32),
                    ),
            ),
        ),
{
    assert forall|o: int, y: int, xx: int|
        0 <= o < layer.out_channels() && 0 <= y < layer.out_rows(x) && 0 <= xx < layer.out_cols(x)
        implies #[trigger] layer.cell_value(x, o, y, xx) == 0 by {
        let w = layer.filters()[o];
        assert forall|c: int, j: int, k: int|
            0 <= c < layer.in_channels() && 0 <= j < layer.kh() && 0 <= k < layer.kw()
            implies #[trigger] w[c][j][k] == 0 by {
            assert(layer.filters()[o][c][j][k] == 0);
        }
        lemma_window_sum_zero(x, w, y, xx, layer.kh(), layer.kw(), layer.in_channels() as int);
        assert(layer.biases()[o] == 0);
    }
    assert(layer.fits(x));
    let zero = Seq::new(
        layer.out_channels() as nat,
        |o: int|
            Seq::new(
                layer.out_rows(x) as nat,
                |y: int| Seq::new(layer.out_cols(x) as nat, |xx: int| 0i32),
            ),
    );
    let out = layer.output(x);
    assert forall|o: int| 0 <= o < layer.out_channels() implies #[trigger] out[o] == zero[o] by {
        assert forall|y: int| 0 <= y < layer.out_rows(x) implies #[trigger] out[o][y] == zero[o][y] by {
            assert forall|xx: int| 0 <= xx < layer.out_cols(x) implies #[trigger] out[o][y][xx]
                == zero[o][y][xx] by {
                assert(layer.cell_value(x, o, y, xx) == 0);
            }
            assert(out[o][y] =~= zero[o][y]);
        }
        assert(out[o] =~= zero[o]);
    }
    assert(out =~= zero);
}

/// Every pooled value is no smaller than any element of its window, is one
/// of those elements, and so never exceeds a bound on the whole input.
pub proof fn pool_window_bounds(x: Seq<Seq<Seq<i32>>>, p: int, c: int, y: int, xx: int, m: i32)
    requires
        is_dense(x),
        p > 0,
        0 <= c < x.len(),
        0 <= y < rows_of(x) / p,
        0 <= xx < cols_of(x) / p,
    ensures
        forall|i: int, j: int|
            0 <= i < p && 0 <= j < p ==> pool_output(x, p)[c][y][xx] >= #[trigger] x[c][y * p
                + i][xx * p + j],
        exists|i: int, j: int|
            0 <= i < p && 0 <= j < p && pool_output(x, p)[c][y][xx] == #[trigger] x[c][y * p
                + i][xx * p + j],
        (forall|a: int, b: int, d: int|
            0 <= a < x.len() && 0 <= b < rows_of(x) && 0 <= d < cols_of(x) ==> #[trigger] x[a][b][d]
                <= m) ==> pool_output(x, p)[c][y][xx] <= m,
{
    lemma_block_max(x[c], y * p, xx * p, p, p);
    let (i, j) = choose|i: int, j: int|
        0 <= i < p && 0 <= j < p && block_max(x[c], y * p, xx * p, p, p) == #[trigger] x[c][y * p
            + i][xx * p + j];
    assert(y * p + p <= rows_of(x) && xx * p + p <= cols_of(x) && 0 <= y * p && 0 <= xx * p) by {
        lemma_window_in_range(y, p, rows_of(x));
        lemma_window_in_range(xx, p, cols_of(x));
    }
}

} // verus!
