use vstd::prelude::*;

use crate::tensor::{cols_of, is_dense, rows_of, view2, view3};

verus! {

/// Rectified value: `max(v, 0)`.
pub open spec fn relu_value(v: i32) -> i32 {
    if v > 0 {
        v
    } else {
        0
    }
}

/// Elementwise rectification of a rank-3 tensor; it keeps the shape.
pub open spec fn relu_spec(g: Seq<Seq<Seq<i32>>>) -> Seq<Seq<Seq<i32>>> {
    g.map_values(
        |p: Seq<Seq<i32>>| p.map_values(|r: Seq<i32>| r.map_values(|v: i32| relu_value(v))),
    )
}

/// Stateless rectifier layer.
#[derive(Debug)]
pub struct ReLU {
    input_size: u32,
    output_size: u32,
}

/// Rectifies one row.
fn relu_row(row: &Vec<i32>) -> (r: Vec<i32>)
    ensures
        r@ == row@.map_values(|v: i32| relu_value(v)),
{
    let mut out: Vec<i32> = Vec::new();
    let mut k: usize = 0;
    while k < row.len()
        invariant
            0 <= k <= row.len(),
            out@ == row@.subrange(0, k as int).map_values(|v: i32| relu_value(v)),
        decreases row.len() - k,
    {
        let v = row[k];
        out.push(if v > 0 { v } else { 0 });
        assert(row@.subrange(0, k + 1) == row@.subrange(0, k as int).push(v));
        k += 1;
    }
    assert(row@.subrange(0, row.len() as int) == row@);
    out
}

/// Rectifies one channel.
fn relu_plane(plane: &Vec<Vec<i32>>) -> (r: Vec<Vec<i32>>)
    ensures
        r@.map_values(|q: Vec<i32>| q@) == plane@.map_values(|q: Vec<i32>| q@).map_values(
            |q: Seq<i32>| q.map_values(|v: i32| relu_value(v)),
        ),
{
    let mut out: Vec<Vec<i32>> = Vec::new();
    let mut j: usize = 0;
    while j < plane.len()
        invariant
            0 <= j <= plane.len(),
            out@.len() == j,
            forall|b: int|
                0 <= b < j ==> #[trigger] out@[b]@ == plane@[b]@.map_values(
                    |v: i32| relu_value(v),
                ),
        decreases plane.len() - j,
    {
        let row = relu_row(&plane[j]);
        out.push(row);
        j += 1;
    }
    assert(out@.map_values(|q: Vec<i32>| q@) =~= plane@.map_values(|q: Vec<i32>| q@).map_values(
        |q: Seq<i32>| q.map_values(|v: i32| relu_value(v)),
    ));
    out
}

impl ReLU {
    /// The declared input size.
    pub closed spec fn input_size(&self) -> u32 {
        self.input_size
    }

    /// The declared output size.
    pub closed spec fn output_size(&self) -> u32 {
        self.output_size
    }

    pub fn new(input_size: u32, output_size: u32) -> (r: ReLU)
        ensures
            r.input_size() == input_size,
            r.output_size() == output_size,
    {
        ReLU { input_size: input_size, output_size: output_size }
    }

    /// Rectifies every element of `input`, keeping its shape.
    pub fn forward(input: &Vec<Vec<Vec<i32>>>) -> (r: Vec<Vec<Vec<i32>>>)
        ensures
            view3(&r) == relu_spec(view3(input)),
    {
        let mut out: Vec<Vec<Vec<i32>>> = Vec::new();
        let mut i: usize = 0;
        while i < input.len()
            invariant
                0 <= i <= input.len(),
                out@.len() == i,
                forall|a: int|
                    0 <= a < i ==> (#[trigger] out@[a])@.map_values(|q: Vec<i32>| q@) == relu_spec(
                        view3(input),
                    )[a],
            decreases input.len() - i,
        {
            let plane = relu_plane(&input[i]);
            out.push(plane);
            i += 1;
        }
        assert(view3(&out) =~= relu_spec(view3(input)));
        out
    }
}

/// Stateless layer that lays a rank-3 tensor out as a vector.
#[derive(Debug)]
pub struct Flatten {
    input_size: u32,
    output_size: u32,
}

/// Rows `0 .. n` of a matrix laid end to end.
pub open spec fn flat_rows(p: Seq<Seq<i32>>, n: int) -> Seq<i32>
    decreases n,
{
    if n <= 0 {
        Seq::empty()
    } else {
        flat_rows(p, n - 1) + p[n - 1]
    }
}

/// Channels `0 .. n` of a rank-3 tensor laid end to end, each row-major.
pub open spec fn flat_planes(x: Seq<Seq<Seq<i32>>>, n: int) -> Seq<i32>
    decreases n,
{
    if n <= 0 {
        Seq::empty()
    } else {
        flat_planes(x, n - 1) + flat_rows(x[n - 1], x[n - 1].len() as int)
    }
}

/// The flattening of a rank-3 tensor: traversal order `(c, h, w)`, `w` fastest.
pub open spec fn flatten_spec(x: Seq<Seq<Seq<i32>>>) -> Seq<i32> {
    flat_planes(x, x.len() as int)
}

/// For a `[n, w]` matrix the laid-out rows have `n · w` elements, element
/// `(j, k)` at `j · w + k`.
pub proof fn lemma_flat_rows(p: Seq<Seq<i32>>, n: int, w: int)
    requires
        0 <= n <= p.len(),
        0 <= w,
        forall|j: int| 0 <= j < n ==> (#[trigger] p[j]).len() == w,
    ensures
        flat_rows(p, n).len() == n * w,
        forall|j: int, k: int|
            0 <= j < n && 0 <= k < w ==> flat_rows(p, n)[j * w + k] == #[trigger] p[j][k],
    decreases n,
{
    if n == 0 {
        assert(n * w == 0) by (nonlinear_arith)
            requires
                n == 0,
        ;
    } else {
        lemma_flat_rows(p, n - 1, w);
        assert(n * w == (n - 1) * w + w) by (nonlinear_arith);
        assert forall|j: int, k: int| 0 <= j < n && 0 <= k < w implies flat_rows(p, n)[j * w + k]
            == #[trigger] p[j][k] by {
            if j < n - 1 {
                assert(j * w + k < (n - 1) * w) by (nonlinear_arith)
                    requires
                        0 <= j < n - 1,
                        0 <= k < w,
                ;
                assert(0 <= j * w) by (nonlinear_arith)
                    requires
                        0 <= j,
                        0 <= w,
                ;
            } else {
                assert(j * w == (n - 1) * w);
            }
        }
    }
}

/// For a dense `[c, h, w]` tensor the flattening has `c · h · w` elements,
/// element `(a, b, d)` at `(a · h + b) · w + d`.
pub proof fn lemma_flat_planes(x: Seq<Seq<Seq<i32>>>, n: int, h: int, w: int)
    requires
        0 <= n <= x.len(),
        0 <= h,
        0 <= w,
        forall|a: int| 0 <= a < n ==> (#[trigger] x[a]).len() == h,
        forall|a: int, b: int| 0 <= a < n && 0 <= b < h ==> (#[trigger] x[a][b]).len() == w,
    ensures
        flat_planes(x, n).len() == n * h * w,
        forall|a: int, b: int, d: int|
            0 <= a < n && 0 <= b < h && 0 <= d < w ==> flat_planes(x, n)[(a * h + b) * w + d]
                == #[trigger] x[a][b][d],
    decreases n,
{
    if n > 0 {
        lemma_flat_planes(x, n - 1, h, w);
        let last = x[n - 1];
        assert forall|j: int| 0 <= j < h implies (#[trigger] last[j]).len() == w by {
            assert(x[n - 1][j].len() == w);
        }
        assert(last.len() == h);
        lemma_flat_rows(last, h, w);
        assert(n * h * w == (n - 1) * h * w + h * w) by (nonlinear_arith);
        assert forall|a: int, b: int, d: int| 0 <= a < n && 0 <= b < h && 0 <= d < w implies flat_planes(
            x,
            n,
        )[(a * h + b) * w + d] == #[trigger] x[a][b][d] by {
            assert((a * h + b) * w + d == a * h * w + (b * w + d)) by (nonlinear_arith);
            assert(0 <= b * w + d < h * w) by (nonlinear_arith)
                requires
                    0 <= b < h,
                    0 <= d < w,
            ;
            if a < n - 1 {
                assert(a * h * w + h * w <= (n - 1) * h * w) by (nonlinear_arith)
                    requires
                        0 <= a < n - 1,
                        0 <= h,
                        0 <= w,
                ;
                assert(0 <= a * h * w) by (nonlinear_arith)
                    requires
                        0 <= a,
                        0 <= h,
                        0 <= w,
                ;
            } else {
                assert(a * h * w == (n - 1) * h * w);
                assert(flat_rows(last, h)[b * w + d] == last[b][d]);
            }
        }
    } else {
        assert(n * h * w == 0) by (nonlinear_arith)
            requires
                n == 0,
        ;
    }
}

impl Flatten {
    /// The declared input size.
    pub closed spec fn input_size(&self) -> u32 {
        self.input_size
    }

    /// The declared output size.
    pub closed spec fn output_size(&self) -> u32 {
        self.output_size
    }

    pub fn new(input_size: u32, output_size: u32) -> (r: Flatten)
        ensures
            r.input_size() == input_size,
            r.output_size() == output_size,
    {
        Flatten { input_size: input_size, output_size: output_size }
    }

    /// Lays `img` out as a vector in traversal order `(c, h, w)`, `w` fastest.
    /// A dense `[C, H, W]` input gives `C · H · W` elements.
    pub fn forward(img: &Vec<Vec<Vec<i32>>>) -> (r: Vec<i32>)
        ensures
            r@ == flatten_spec(view3(img)),
            is_dense(view3(img)) ==> r@.len() == view3(img).len() * rows_of(view3(img)) * cols_of(
                view3(img),
            ),
    {
        let ghost g = view3(img);
        let mut out: Vec<i32> = Vec::new();
        let mut i: usize = 0;
        while i < img.len()
            invariant
                g == view3(img),
                0 <= i <= img.len(),
                out@ == flat_planes(g, i as int),
            decreases img.len() - i,
        {
            let plane = &img[i];
            let ghost p = g[i as int];
            assert(p == view2(plane));
            let ghost before = out@;
            let mut j: usize = 0;
            while j < plane.len()
                invariant
                    p == view2(plane),
                    0 <= j <= plane.len(),
                    out@ == before + flat_rows(p, j as int),
                decreases plane.len() - j,
            {
                let row = &plane[j];
                let ghost mid = out@;
                let mut k: usize = 0;
                while k < row.len()
                    invariant
                        0 <= k <= row.len(),
                        out@ == mid + row@.subrange(0, k as int),
                    decreases row.len() - k,
                {
                    out.push(row[k]);
                    assert(row@.subrange(0, k + 1) == row@.subrange(0, k as int).push(row@[k as int]));
                    k += 1;
                }
                assert(row@.subrange(0, row.len() as int) == row@);
                assert(p[j as int] == row@);
                assert(flat_rows(p, j + 1) == flat_rows(p, j as int) + p[j as int]);
                j += 1;
            }
            i += 1;
        }
        proof {
            if is_dense(g) {
                lemma_flat_planes(g, g.len() as int, rows_of(g), cols_of(g));
            }
        }
        out
    }
}

} // verus!
