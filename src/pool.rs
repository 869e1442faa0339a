use vstd::prelude::*;

use crate::tensor::{cols_of, has_shape, is_dense, is_dense_image, result3, rows_of, view2, view3, ModelError};

verus! {

/// Largest of `row[x0], …, row[x0 + n − 1]` (`n ≥ 1`).
pub open spec fn row_max(row: Seq<i32>, x0: int, n: int) -> i32
    decreases n,
{
    if n <= 1 {
        row[x0]
    } else {
        let m = row_max(row, x0, n - 1);
        let v = row[x0 + n - 1];
        if v > m {
            v
        } else {
            m
        }
    }
}

/// Largest element of the `n × k` block of `p` whose top-left cell is
/// `(y0, x0)` (`n, k ≥ 1`).
pub open spec fn block_max(p: Seq<Seq<i32>>, y0: int, x0: int, k: int, n: int) -> i32
    decreases n,
{
    if n <= 1 {
        row_max(p[y0], x0, k)
    } else {
        let m = block_max(p, y0, x0, k, n - 1);
        let v = row_max(p[y0 + n - 1], x0, k);
        if v > m {
            v
        } else {
            m
        }
    }
}

/// Non-overlapping `p × p` max pooling of a dense tensor; remainder rows and
/// columns are dropped.
pub open spec fn pool_output(x: Seq<Seq<Seq<i32>>>, p: int) -> Seq<Seq<Seq<i32>>> {
    Seq::new(
        x.len(),
        |c: int|
            Seq::new(
                (rows_of(x) / p) as nat,
                |y: int|
                    Seq::new((cols_of(x) / p) as nat, |xx: int| block_max(x[c], y * p, xx * p, p, p)),
            ),
    )
}

/// Max pooling with window `p` of a tensor that must be dense.
pub open spec fn pool_spec(x: Seq<Seq<Seq<i32>>>, p: int) -> Result<Seq<Seq<Seq<i32>>>, ModelError> {
    if is_dense(x) {
        Ok(pool_output(x, p))
    } else {
        Err(ModelError::ShapeMismatch)
    }
}

/// `row_max` is one of the elements it ranges over, and no smaller than any.
pub proof fn lemma_row_max(row: Seq<i32>, x0: int, n: int)
    requires
        1 <= n,
    ensures
        forall|k: int| 0 <= k < n ==> row_max(row, x0, n) >= #[trigger] row[x0 + k],
        exists|k: int| 0 <= k < n && row_max(row, x0, n) == #[trigger] row[x0 + k],
    decreases n,
{
    if n > 1 {
        lemma_row_max(row, x0, n - 1);
        let k = choose|k: int| 0 <= k < n - 1 && row_max(row, x0, n - 1) == #[trigger] row[x0 + k];
        if row[x0 + n - 1] > row_max(row, x0, n - 1) {
            assert(row_max(row, x0, n) == row[x0 + (n - 1)]);
        } else {
            assert(row_max(row, x0, n) == row[x0 + k]);
        }
    } else {
        assert(row_max(row, x0, n) == row[x0 + 0]);
    }
}

/// `block_max` is one of the elements of its block, and no smaller than any.
pub proof fn lemma_block_max(p: Seq<Seq<i32>>, y0: int, x0: int, k: int, n: int)
    requires
        1 <= n,
        1 <= k,
    ensures
        forall|i: int, j: int|
            0 <= i < n && 0 <= j < k ==> block_max(p, y0, x0, k, n) >= #[trigger] p[y0 + i][x0 + j],
        exists|i: int, j: int|
            0 <= i < n && 0 <= j < k && block_max(p, y0, x0, k, n) == #[trigger] p[y0 + i][x0 + j],
    decreases n,
{
    lemma_row_max(p[y0 + n - 1], x0, k);
    let jl = choose|j: int| 0 <= j < k && row_max(p[y0 + n - 1], x0, k) == #[trigger] p[y0 + n - 1][x0 + j];
    if n > 1 {
        lemma_block_max(p, y0, x0, k, n - 1);
        let (i, j) = choose|i: int, j: int|
            0 <= i < n - 1 && 0 <= j < k && block_max(p, y0, x0, k, n - 1) == #[trigger] p[y0 + i][x0 + j];
        assert forall|a: int, b: int| 0 <= a < n && 0 <= b < k implies block_max(p, y0, x0, k, n) >= #[trigger] p[y0 + a][x0 + b] by {
            if a < n - 1 {
            } else {
                assert(p[y0 + a] == p[y0 + n - 1]);
                assert(row_max(p[y0 + n - 1], x0, k) >= p[y0 + n - 1][x0 + b]);
            }
        }
        if row_max(p[y0 + n - 1], x0, k) > block_max(p, y0, x0, k, n - 1) {
            assert(block_max(p, y0, x0, k, n) == p[y0 + (n - 1)][x0 + jl]);
        } else {
            assert(block_max(p, y0, x0, k, n) == p[y0 + i][x0 + j]);
        }
    } else {
        assert forall|a: int, b: int| 0 <= a < n && 0 <= b < k implies block_max(p, y0, x0, k, n) >= #[trigger] p[y0 + a][x0 + b] by {
            assert(p[y0 + a] == p[y0 + n - 1]);
            assert(row_max(p[y0 + n - 1], x0, k) >= p[y0 + n - 1][x0 + b]);
        }
        assert(block_max(p, y0, x0, k, n) == p[y0 + 0][x0 + jl]);
    }
}

/// The `y`-th window of size `p` ends within `h` rows when `y < h / p`.
pub proof fn lemma_window_in_range(y: int, p: int, h: int)
    requires
        0 < p,
        0 <= h,
        0 <= y < h / p,
    ensures
        0 <= y * p,
        y * p + p <= h,
{
    let q = h / p;
    vstd::arithmetic::div_mod::lemma_fundamental_div_mod(h, p);
    assert(0 <= y * p && y * p + p <= h) by (nonlinear_arith)
        requires
            0 < p,
            0 <= y < q,
            h == p * q + h % p,
            0 <= h % p,
    ;
}

/// `row_max` of `n` elements of `row` starting at `x0`.
fn row_max_exec(row: &Vec<i32>, x0: usize, n: usize) -> (r: i32)
    requires
        1 <= n,
        x0 + n <= row.len(),
    ensures
        r == row_max(row@, x0 as int, n as int),
{
    let mut m = row[x0];
    let mut k: usize = 1;
    while k < n
        invariant
            1 <= k <= n,
            x0 + n <= row.len(),
            m == row_max(row@, x0 as int, k as int),
        decreases n - k,
    {
        let v = row[x0 + k];
        if v > m {
            m = v;
        }
        k += 1;
    }
    m
}

/// `block_max` of the `n × k` block of `plane` at `(y0, x0)`.
fn block_max_exec(plane: &Vec<Vec<i32>>, y0: usize, x0: usize, k: usize, n: usize) -> (r: i32)
    requires
        1 <= n,
        1 <= k,
        y0 + n <= plane.len(),
        forall|j: int| y0 <= j < y0 + n ==> x0 + k <= (#[trigger] plane@[j])@.len(),
    ensures
        r == block_max(view2(plane), y0 as int, x0 as int, k as int, n as int),
{
    assert(view2(plane)[y0 as int] == plane@[y0 as int]@);
    let mut m = row_max_exec(&plane[y0], x0, k);
    let mut i: usize = 1;
    while i < n
        invariant
            1 <= i <= n,
            1 <= k,
            y0 + n <= plane.len(),
            forall|j: int| y0 <= j < y0 + n ==> x0 + k <= (#[trigger] plane@[j])@.len(),
            m == block_max(view2(plane), y0 as int, x0 as int, k as int, i as int),
        decreases n - i,
    {
        assert(x0 + k <= plane@[y0 + i]@.len());
        assert(view2(plane)[y0 + i] == plane@[y0 + i]@);
        let v = row_max_exec(&plane[y0 + i], x0, k);
        if v > m {
            m = v;
        }
        i += 1;
    }
    m
}

/// Non-overlapping square max pooling.
#[derive(Debug)]
pub struct MaxPooling2D {
    pool_size: u32,
}

impl MaxPooling2D {
    /// Side of the pooling window.
    pub closed spec fn size(&self) -> int {
        self.pool_size as int
    }

    #[verifier::type_invariant]
    spec fn positive(&self) -> bool {
        self.pool_size > 0
    }

    /// A pooling layer with a `pool_size × pool_size` window.
    pub fn new(pool_size: u32) -> (r: MaxPooling2D)
        requires
            pool_size > 0,
        ensures
            r.size() == pool_size,
    {
        MaxPooling2D { pool_size: pool_size }
    }

    /// What `forward` returns for input `x`.
    pub open spec fn forward_spec(&self, x: Seq<Seq<Seq<i32>>>) -> Result<
        Seq<Seq<Seq<i32>>>,
        ModelError,
    > {
        pool_spec(x, self.size())
    }

    fn forward_plane(&self, plane: &Vec<Vec<i32>>, h: usize, w: usize) -> (r: Vec<Vec<i32>>)
        requires
            self.size() > 0,
            plane@.len() == h,
            forall|j: int| 0 <= j < h ==> (#[trigger] plane@[j])@.len() == w,
        ensures
            r@.len() == h as int / self.size(),
            forall|y: int| 0 <= y < r@.len() ==> (#[trigger] r@[y])@.len() == w as int / self.size(),
            forall|y: int, xx: int|
                0 <= y < r@.len() && 0 <= xx < w as int / self.size() ==> #[trigger] r@[y]@[xx]
                    == block_max(view2(plane), y * self.size(), xx * self.size(), self.size(), self.size()),
    {
        let p = self.pool_size as usize;
        let nrows = h / p;
        let ncols = w / p;
        let mut out: Vec<Vec<i32>> = Vec::new();
        let mut y: usize = 0;
        while y < nrows
            invariant
                p == self.size(),
                p > 0,
                nrows == h as int / p as int,
                ncols == w as int / p as int,
                plane@.len() == h,
                forall|j: int| 0 <= j < h ==> (#[trigger] plane@[j])@.len() == w,
                0 <= y <= nrows,
                out@.len() == y,
                forall|b: int| 0 <= b < y ==> (#[trigger] out@[b])@.len() == ncols,
                forall|b: int, xx: int|
                    0 <= b < y && 0 <= xx < ncols ==> #[trigger] out@[b]@[xx] == block_max(
                        view2(plane),
                        b * p,
                        xx * p,
                        p as int,
                        p as int,
                    ),
            decreases nrows - y,
        {
            proof {
                lemma_window_in_range(y as int, p as int, h as int);
            }
            let y0 = y * p;
            let mut row: Vec<i32> = Vec::new();
            let mut xx: usize = 0;
            while xx < ncols
                invariant
                    p == self.size(),
                    p > 0,
                    ncols == w as int / p as int,
                    plane@.len() == h,
                    forall|j: int| 0 <= j < h ==> (#[trigger] plane@[j])@.len() == w,
                    y0 == y * p,
                    y0 + p <= h,
                    0 <= xx <= ncols,
                    row@.len() == xx,
                    forall|c: int|
                        0 <= c < xx ==> #[trigger] row@[c] == block_max(
                            view2(plane),
                            y * p,
                            c * p,
                            p as int,
                            p as int,
                        ),
                decreases ncols - xx,
            {
                proof {
                    lemma_window_in_range(xx as int, p as int, w as int);
                }
                let v = block_max_exec(plane, y0, xx * p, p, p);
                row.push(v);
                xx += 1;
            }
            out.push(row);
            y += 1;
        }
        out
    }

    /// Max pooling of every channel of `input` with a square window; rows
    /// and columns past the last full window are dropped.
    pub fn forward(&self, input: &Vec<Vec<Vec<i32>>>) -> (r: Result<
        Vec<Vec<Vec<i32>>>,
        ModelError,
    >)
        ensures
            result3(r) == self.forward_spec(view3(input)),
            r is Ok ==> has_shape(
                view3(&r->Ok_0),
                view3(input).len() as int,
                rows_of(view3(input)) / self.size(),
                cols_of(view3(input)) / self.size(),
            ),
    {
        proof {
            use_type_invariant(self);
        }
        let ghost g = view3(input);
        if !is_dense_image(input) {
            return Err(ModelError::ShapeMismatch);
        }
        let h: usize = if input.len() > 0 { input[0].len() } else { 0 };
        let w: usize = if input.len() > 0 && input[0].len() > 0 { input[0][0].len() } else { 0 };
        proof {
            if input.len() > 0 {
                assert(g[0] == view2(&input@[0]));
            }
        }
        assert(h == rows_of(g) && w == cols_of(g));
        let ghost target = pool_output(g, self.size());
        let mut out: Vec<Vec<Vec<i32>>> = Vec::new();
        let mut c: usize = 0;
        while c < input.len()
            invariant
                g == view3(input),
                target == pool_output(g, self.size()),
                self.size() > 0,
                is_dense(g),
                h == rows_of(g),
                w == cols_of(g),
                0 <= c <= input.len(),
                out@.len() == c,
                forall|a: int| 0 <= a < c ==> view2(&(#[trigger] out@[a])) == target[a],
            decreases input.len() - c,
        {
            assert(g[c as int] == view2(&input@[c as int]));
            assert forall|j: int| 0 <= j < h implies (#[trigger] input@[c as int]@[j])@.len() == w by {
                assert(g[c as int][j].len() == w);
            }
            let p = self.forward_plane(&input[c], h, w);
            assert(view2(&p) =~~= target[c as int]);
            out.push(p);
            c += 1;
        }
        assert(view3(&out) =~~= target);
        Ok(out)
    }
}

} // verus!
