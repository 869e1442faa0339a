use vstd::prelude::*;

use crate::dot::{lemma_scale_step, row_dot, row_dot_exec, term_bound};
use crate::tensor::{cols_of, has_shape, is_dense, is_dense_image, result3, rows_of, view2, view3, ModelError, ONE};

verus! {

/// Largest number of multiply-accumulate taps (`Cin · Kh · Kw`) of one
/// output cell; it keeps every partial sum within `i128`.
pub const MAX_TAPS: u64 = 0x1_0000_0000;

/// Mathematical view of a filter bank `[out][in][row][column]`.
pub open spec fn view4(f: &Vec<Vec<Vec<Vec<i32>>>>) -> Seq<Seq<Seq<Seq<i32>>>> {
    f@.map_values(|a: Vec<Vec<Vec<i32>>>| view3(&a))
}

/// Kernel height of a filter bank, read from its first slab.
pub open spec fn kernel_rows_of(f: Seq<Seq<Seq<Seq<i32>>>>) -> int {
    if f.len() > 0 && f[0].len() > 0 {
        f[0][0].len() as int
    } else {
        0
    }
}

/// Kernel width of a filter bank, read from its first row.
pub open spec fn kernel_cols_of(f: Seq<Seq<Seq<Seq<i32>>>>) -> int {
    if f.len() > 0 && f[0].len() > 0 && f[0][0].len() > 0 {
        f[0][0][0].len() as int
    } else {
        0
    }
}

/// Parameters that make a valid convolution: a dense `[cout, cin, Kh, Kw]`
/// filter bank with non-empty kernels, one bias per output channel.
pub open spec fn conv_params_ok(
    cin: int,
    cout: int,
    f: Seq<Seq<Seq<Seq<i32>>>>,
    b: Seq<i32>,
) -> bool {
    let kh = kernel_rows_of(f);
    let kw = kernel_cols_of(f);
    &&& 1 <= cin
    &&& 1 <= cout
    &&& f.len() == cout
    &&& b.len() == cout
    &&& forall|o: int| 0 <= o < cout ==> has_shape(#[trigger] f[o], cin, kh, kw)
    &&& 1 <= kh
    &&& 1 <= kw
    &&& cin * kh * kw <= MAX_TAPS
}

/// `Σ_{ky < n} Σ_{kx < kw} xp[y0 + ky][x0 + kx] · wp[ky][kx]`.
pub open spec fn patch_dot(
    xp: Seq<Seq<i32>>,
    wp: Seq<Seq<i32>>,
    y0: int,
    x0: int,
    kw: int,
    n: int,
) -> int
    decreases n,
{
    if n <= 0 {
        0
    } else {
        patch_dot(xp, wp, y0, x0, kw, n - 1) + row_dot(xp[y0 + n - 1], wp[n - 1], x0, kw)
    }
}

/// `Σ_{c < n} Σ_{ky < kh} Σ_{kx < kw} x[c][y0 + ky][x0 + kx] · w[c][ky][kx]`.
pub open spec fn window_sum(
    x: Seq<Seq<Seq<i32>>>,
    w: Seq<Seq<Seq<i32>>>,
    y0: int,
    x0: int,
    kh: int,
    kw: int,
    n: int,
) -> int
    decreases n,
{
    if n <= 0 {
        0
    } else {
        window_sum(x, w, y0, x0, kh, kw, n - 1) + patch_dot(x[n - 1], w[n - 1], y0, x0, kw, kh)
    }
}

/// Valid 2D cross-correlation layer (stride 1, no padding) with one bias per
/// output channel.
#[derive(Debug)]
pub struct Conv2D {
    input_size: u32,
    output_size: u32,
    filter: Vec<Vec<Vec<Vec<i32>>>>,
    bias: Vec<i32>,
    kernel_rows: usize,
    kernel_cols: usize,
}

impl Conv2D {
    /// Number of input channels.
    pub closed spec fn in_channels(&self) -> nat {
        self.input_size as nat
    }

    /// Number of output channels.
    pub closed spec fn out_channels(&self) -> nat {
        self.output_size as nat
    }

    /// The filter bank `[out][in][row][column]`.
    pub closed spec fn filters(&self) -> Seq<Seq<Seq<Seq<i32>>>> {
        view4(&self.filter)
    }

    /// The bias of each output channel.
    pub closed spec fn biases(&self) -> Seq<i32> {
        self.bias@
    }

    /// The layer's parameters are consistent.
    pub closed spec fn wf(&self) -> bool {
        &&& conv_params_ok(self.in_channels() as int, self.out_channels() as int, self.filters(), self.biases())
        &&& self.kernel_rows == kernel_rows_of(self.filters())
        &&& self.kernel_cols == kernel_cols_of(self.filters())
    }

    #[verifier::type_invariant]
    spec fn consistent(&self) -> bool {
        self.wf()
    }

    /// Kernel height.
    pub open spec fn kh(&self) -> int {
        kernel_rows_of(self.filters())
    }

    /// Kernel width.
    pub open spec fn kw(&self) -> int {
        kernel_cols_of(self.filters())
    }

    /// `x` is an input this layer accepts: dense, `in_channels` deep, and at
    /// least as large as the kernel.
    pub open spec fn accepts(&self, x: Seq<Seq<Seq<i32>>>) -> bool {
        &&& is_dense(x)
        &&& x.len() == self.in_channels()
        &&& rows_of(x) >= self.kh()
        &&& cols_of(x) >= self.kw()
    }

    /// Output height for input `x`.
    pub open spec fn out_rows(&self, x: Seq<Seq<Seq<i32>>>) -> int {
        rows_of(x) - self.kh() + 1
    }

    /// Output width for input `x`.
    pub open spec fn out_cols(&self, x: Seq<Seq<Seq<i32>>>) -> int {
        cols_of(x) - self.kw() + 1
    }

    /// Exact value of output cell `(o, y, xx)` at scale `ONE²`:
    /// `bias[o] · ONE + Σ_{c, ky, kx} x[c][y + ky][xx + kx] · filter[o][c][ky][kx]`.
    pub open spec fn cell_exact(&self, x: Seq<Seq<Seq<i32>>>, o: int, y: int, xx: int) -> int {
        self.biases()[o] * ONE + window_sum(
            x,
            self.filters()[o],
            y,
            xx,
            self.kh(),
            self.kw(),
            self.in_channels() as int,
        )
    }

    /// Raw fixed-point value of output cell `(o, y, xx)`: the exact value
    /// rounded down to the fixed-point grid.
    pub open spec fn cell_value(&self, x: Seq<Seq<Seq<i32>>>, o: int, y: int, xx: int) -> int {
        self.cell_exact(x, o, y, xx) / (ONE as int)
    }

    /// Every output cell for input `x` fits the raw range.
    pub open spec fn fits(&self, x: Seq<Seq<Seq<i32>>>) -> bool {
        forall|o: int, y: int, xx: int|
            0 <= o < self.out_channels() && 0 <= y < self.out_rows(x) && 0 <= xx < self.out_cols(x)
                ==> i32::MIN <= #[trigger] self.cell_value(x, o, y, xx) <= i32::MAX
    }

    /// The output tensor `[Cout, H − Kh + 1, W − Kw + 1]` for input `x`.
    pub open spec fn output(&self, x: Seq<Seq<Seq<i32>>>) -> Seq<Seq<Seq<i32>>> {
        Seq::new(
            self.out_channels() as nat,
            |o: int|
                Seq::new(
                    self.out_rows(x) as nat,
                    |y: int|
                        Seq::new(
                            self.out_cols(x) as nat,
                            |xx: int| self.cell_value(x, o, y, xx) as i32,
                        ),
                ),
        )
    }

    /// What `forward` returns for input `x`.
    pub open spec fn forward_spec(&self, x: Seq<Seq<Seq<i32>>>) -> Result<
        Seq<Seq<Seq<i32>>>,
        ModelError,
    > {
        if !self.accepts(x) {
            Err(ModelError::ShapeMismatch)
        } else if !self.fits(x) {
            Err(ModelError::NumericError)
        } else {
            Ok(self.output(x))
        }
    }
}


/// With at most `MAX_TAPS` taps, a sum of products stays far inside `i128`.
proof fn lemma_taps_bound(a: int, b: int, c: int)
    requires
        0 <= a,
        0 <= b,
        0 <= c,
        a * b * c <= MAX_TAPS,
    ensures
        a * (b * (c * term_bound())) == (a * b * c) * term_bound(),
        0 <= a * (b * (c * term_bound())) <= 0x4000_0000_0000_0000_0000_0000,
        0 <= b * c,
{
    assert(a * (b * (c * term_bound())) == (a * b * c) * term_bound()) by (nonlinear_arith);
    assert(0 <= b * c) by (nonlinear_arith)
        requires
            0 <= b,
            0 <= c,
    ;
    assert(0 <= a * b * c) by (nonlinear_arith)
        requires
            0 <= a,
            0 <= b,
            0 <= c,
    ;
}

/// A bound on `a · b · c` with `a ≥ 1` bounds `b · c`.
proof fn lemma_taps_split(a: int, b: int, c: int)
    requires
        1 <= a,
        0 <= b,
        0 <= c,
        a * b * c <= MAX_TAPS,
    ensures
        b * c <= MAX_TAPS,
{
    assert(b * c <= a * b * c) by (nonlinear_arith)
        requires
            1 <= a,
            0 <= b,
            0 <= c,
    ;
}

/// Exact `patch_dot` over `kh` rows of `xp` starting at row `y0`.
fn patch_dot_exec(
    xp: &Vec<Vec<i32>>,
    wp: &Vec<Vec<i32>>,
    y0: usize,
    x0: usize,
    kw: usize,
    kh: usize,
) -> (r: i128)
    requires
        y0 + kh <= xp.len(),
        kh <= wp.len(),
        forall|j: int| y0 <= j < y0 + kh ==> x0 + kw <= (#[trigger] xp@[j])@.len(),
        forall|j: int| 0 <= j < kh ==> kw <= (#[trigger] wp@[j])@.len(),
        kh * kw <= MAX_TAPS,
    ensures
        r == patch_dot(view2(xp), view2(wp), y0 as int, x0 as int, kw as int, kh as int),
        -(kh * (kw * term_bound())) <= r <= kh * (kw * term_bound()),
{
    let ghost t: int = kw * term_bound();
    proof {
        lemma_taps_bound(1, kh as int, kw as int);
    }
    let mut acc: i128 = 0;
    let mut j: usize = 0;
    while j < kh
        invariant
            t == kw * term_bound(),
            0 <= j <= kh,
            y0 + kh <= xp.len(),
            kh <= wp.len(),
            forall|i: int| y0 <= i < y0 + kh ==> x0 + kw <= (#[trigger] xp@[i])@.len(),
            forall|i: int| 0 <= i < kh ==> kw <= (#[trigger] wp@[i])@.len(),
            0 <= kh * t <= 0x4000_0000_0000_0000_0000_0000,
            acc == patch_dot(view2(xp), view2(wp), y0 as int, x0 as int, kw as int, j as int),
            -(j * t) <= acc <= j * t,
        decreases kh - j,
    {
        assert(x0 + kw <= xp@[y0 + j]@.len());
        assert(kw <= wp@[j as int]@.len());
        let s = row_dot_exec(&xp[y0 + j], &wp[j], x0, kw);
        proof {
            lemma_scale_step(j as int, kh as int, t);
            lemma_scale_step(j + 1, kh as int, t);
            assert(view2(xp)[y0 + j] == xp@[y0 + j]@);
            assert(view2(wp)[j as int] == wp@[j as int]@);
        }
        acc = acc + s;
        j += 1;
    }
    acc
}

/// Exact `window_sum` over the first `cin` channels.
fn window_exec(
    x: &Vec<Vec<Vec<i32>>>,
    w: &Vec<Vec<Vec<i32>>>,
    y0: usize,
    x0: usize,
    kh: usize,
    kw: usize,
    cin: usize,
) -> (r: i128)
    requires
        cin <= x.len(),
        cin <= w.len(),
        forall|c: int| 0 <= c < cin ==> y0 + kh <= (#[trigger] x@[c])@.len(),
        forall|c: int| 0 <= c < cin ==> kh <= (#[trigger] w@[c])@.len(),
        forall|c: int, j: int|
            0 <= c < cin && y0 <= j < y0 + kh ==> x0 + kw <= (#[trigger] x@[c]@[j])@.len(),
        forall|c: int, j: int| 0 <= c < cin && 0 <= j < kh ==> kw <= (#[trigger] w@[c]@[j])@.len(),
        cin * kh * kw <= MAX_TAPS,
    ensures
        r == window_sum(view3(x), view3(w), y0 as int, x0 as int, kh as int, kw as int, cin as int),
        -(cin * (kh * (kw * term_bound()))) <= r <= cin * (kh * (kw * term_bound())),
{
    let ghost t: int = kh * (kw * term_bound());
    proof {
        lemma_taps_bound(cin as int, kh as int, kw as int);
        let k = kh as int;
        let m = kw as int;
        assert(0 <= k * (m * 0x4000_0000_0000_0000)) by (nonlinear_arith)
            requires
                0 <= k,
                0 <= m,
        ;
        if cin > 0 {
            lemma_taps_split(cin as int, kh as int, kw as int);
            lemma_taps_bound(1, kh as int, kw as int);
        }
    }
    let mut acc: i128 = 0;
    let mut c: usize = 0;
    while c < cin
        invariant
            t == kh * (kw * term_bound()),
            0 <= t,
            0 <= c <= cin,
            cin <= x.len(),
            cin <= w.len(),
            forall|a: int| 0 <= a < cin ==> y0 + kh <= (#[trigger] x@[a])@.len(),
            forall|a: int| 0 <= a < cin ==> kh <= (#[trigger] w@[a])@.len(),
            forall|a: int, j: int|
                0 <= a < cin && y0 <= j < y0 + kh ==> x0 + kw <= (#[trigger] x@[a]@[j])@.len(),
            forall|a: int, j: int|
                0 <= a < cin && 0 <= j < kh ==> kw <= (#[trigger] w@[a]@[j])@.len(),
            cin > 0 ==> kh * kw <= MAX_TAPS,
            0 <= cin * t <= 0x4000_0000_0000_0000_0000_0000,
            acc == window_sum(
                view3(x),
                view3(w),
                y0 as int,
                x0 as int,
                kh as int,
                kw as int,
                c as int,
            ),
            -(c * t) <= acc <= c * t,
        decreases cin - c,
    {
        let ghost xc = x@[c as int];
        let ghost wc = w@[c as int];
        assert forall|j: int| y0 <= j < y0 + kh implies x0 + kw <= (#[trigger] xc@[j])@.len() by {
            assert(x0 + kw <= x@[c as int]@[j]@.len());
        }
        assert forall|j: int| 0 <= j < kh implies kw <= (#[trigger] wc@[j])@.len() by {
            assert(kw <= w@[c as int]@[j]@.len());
        }
        let s = patch_dot_exec(&x[c], &w[c], y0, x0, kw, kh);
        proof {
            lemma_scale_step(c as int, cin as int, t);
            lemma_scale_step(c + 1, cin as int, t);
            assert(view3(x)[c as int] == view2(&x@[c as int]));
            assert(view3(w)[c as int] == view2(&w@[c as int]));
        }
        acc = acc + s;
        c += 1;
    }
    acc
}


impl Conv2D {
    /// Builds a layer from a filter bank `[output_size][input_size][Kh][Kw]`
    /// and one bias per output channel; refuses inconsistent shapes.
    pub fn new(
        input_size: u32,
        output_size: u32,
        filter: Vec<Vec<Vec<Vec<i32>>>>,
        bias: Vec<i32>,
    ) -> (r: Result<Conv2D, ModelError>)
        ensures
            match r {
                Ok(c) => {
                    &&& conv_params_ok(
                        input_size as int,
                        output_size as int,
                        view4(&filter),
                        bias@,
                    )
                    &&& c.wf()
                    &&& c.in_channels() == input_size
                    &&& c.out_channels() == output_size
                    &&& c.filters() == view4(&filter)
                    &&& c.biases() == bias@
                },
                Err(e) => {
                    &&& e == ModelError::ShapeMismatch
                    &&& !conv_params_ok(
                        input_size as int,
                        output_size as int,
                        view4(&filter),
                        bias@,
                    )
                },
            },
    {
        let ghost f = view4(&filter);
        if input_size == 0 || output_size == 0 || filter.len() != output_size as usize
            || bias.len() != output_size as usize {
            return Err(ModelError::ShapeMismatch);
        }
        assert(f[0] == view3(&filter@[0]));
        if filter[0].len() == 0 {
            return Err(ModelError::ShapeMismatch);
        }
        let kh = filter[0][0].len();
        if kh == 0 {
            return Err(ModelError::ShapeMismatch);
        }
        let kw = filter[0][0][0].len();
        if kw == 0 {
            return Err(ModelError::ShapeMismatch);
        }
        assert(kh == kernel_rows_of(f));
        assert(kw == kernel_cols_of(f));
        let mut o: usize = 0;
        while o < filter.len()
            invariant
                f == view4(&filter),
                filter.len() == output_size,
                kh == kernel_rows_of(f),
                kw == kernel_cols_of(f),
                1 <= kh,
                1 <= kw,
                0 <= o <= filter.len(),
                forall|a: int|
                    0 <= a < o ==> has_shape(#[trigger] f[a], input_size as int, kh as int, kw as int),
            decreases filter.len() - o,
        {
            if !crate::tensor::has_shape_exec(&filter[o], input_size as usize, kh, kw) {
                assert(f[o as int] == view3(&filter@[o as int]));
                return Err(ModelError::ShapeMismatch);
            }
            assert(f[o as int] == view3(&filter@[o as int]));
            o += 1;
        }
        let taps = match (input_size as u64).checked_mul(kh as u64) {
            Some(p) => p.checked_mul(kw as u64),
            None => None,
        };
        match taps {
            Some(t) => {
                if t > MAX_TAPS {
                    return Err(ModelError::ShapeMismatch);
                }
            },
            None => {
                proof {
                    let (a, b, c) = (input_size as int, kh as int, kw as int);
                    assert(a * b * c > MAX_TAPS) by (nonlinear_arith)
                        requires
                            1 <= a,
                            1 <= b,
                            1 <= c,
                            a * b > 0xffff_ffff_ffff_ffff || a * b * c > 0xffff_ffff_ffff_ffff,
                    ;
                }
                return Err(ModelError::ShapeMismatch);
            },
        }
        Ok(
            Conv2D {
                input_size: input_size,
                output_size: output_size,
                filter: filter,
                bias: bias,
                kernel_rows: kh,
                kernel_cols: kw,
            },
        )
    }

    /// Computes one output row `y` of output channel `o`.
    fn forward_row(&self, input: &Vec<Vec<Vec<i32>>>, o: usize, y: usize) -> (r: Result<
        Vec<i32>,
        ModelError,
    >)
        requires
            self.wf(),
            self.accepts(view3(input)),
            o < self.out_channels(),
            y < self.out_rows(view3(input)),
        ensures
            match r {
                Ok(v) => {
                    &&& v@.len() == self.out_cols(view3(input))
                    &&& forall|xx: int|
                        0 <= xx < v@.len() ==> #[trigger] v@[xx] as int == self.cell_value(
                            view3(input),
                            o as int,
                            y as int,
                            xx,
                        )
                },
                Err(e) => {
                    &&& e == ModelError::NumericError
                    &&& exists|xx: int|
                        0 <= xx < self.out_cols(view3(input)) && !(i32::MIN <= #[trigger] self.cell_value(
                            view3(input),
                            o as int,
                            y as int,
                            xx,
                        ) <= i32::MAX)
                },
            },
    {
        let ghost g = view3(input);
        let ghost f = self.filters();
        let kh = self.kernel_rows;
        let kw = self.kernel_cols;
        let cin = self.input_size as usize;
        let ncols = input[0][0].len() - kw + 1;
        let w = &self.filter[o];
        proof {
            assert(f[o as int] == view3(w));
            assert(has_shape(f[o as int], cin as int, kh as int, kw as int));
            assert(g[0] == view2(&input@[0]));
        }
        let mut out: Vec<i32> = Vec::new();
        let mut xx: usize = 0;
        while xx < ncols
            invariant
                g == view3(input),
                f == self.filters(),
                self.wf(),
                self.accepts(g),
                o < self.out_channels(),
                y < self.out_rows(g),
                kh == self.kh(),
                kw == self.kw(),
                cin == self.in_channels(),
                ncols == self.out_cols(g),
                f[o as int] == view3(w),
                0 <= xx <= ncols,
                out@.len() == xx,
                forall|b: int|
                    0 <= b < xx ==> #[trigger] out@[b] as int == self.cell_value(
                        g,
                        o as int,
                        y as int,
                        b,
                    ),
            decreases ncols - xx,
        {
            proof {
                assert(has_shape(f[o as int], cin as int, kh as int, kw as int));
                assert forall|c: int| 0 <= c < cin implies y + kh <= (#[trigger] input@[c])@.len() by {
                    assert(g[c].len() == input@[c]@.len());
                }
                assert forall|c: int| 0 <= c < cin implies kh <= (#[trigger] w@[c])@.len() by {
                    assert(view3(w)[c].len() == w@[c]@.len());
                }
                assert forall|c: int, j: int|
                    0 <= c < cin && y <= j < y + kh implies xx + kw <= (#[trigger] input@[c]@[j])@.len() by {
                    assert(g[c][j].len() == input@[c]@[j]@.len());
                }
                assert forall|c: int, j: int|
                    0 <= c < cin && 0 <= j < kh implies kw <= (#[trigger] w@[c]@[j])@.len() by {
                    assert(view3(w)[c][j].len() == w@[c]@[j]@.len());
                }
            }
            let s = window_exec(input, w, y, xx, kh, kw, cin);
            proof {
                lemma_taps_bound(cin as int, kh as int, kw as int);
            }
            let exact: i128 = (self.bias[o] as i128) * 65536 + s;
            assert(exact == self.cell_exact(g, o as int, y as int, xx as int));
            let q = match exact.checked_div_euclid(65536) {
                Some(q) => q,
                None => {
                    return Err(ModelError::NumericError);
                },
            };
            if q < i32::MIN as i128 || q > i32::MAX as i128 {
                assert(!(i32::MIN <= self.cell_value(g, o as int, y as int, xx as int) <= i32::MAX));
                return Err(ModelError::NumericError);
            }
            out.push(q as i32);
            xx += 1;
        }
        Ok(out)
    }
}

impl Conv2D {
    /// Computes output channel `o`.
    fn forward_plane(&self, input: &Vec<Vec<Vec<i32>>>, o: usize) -> (r: Result<
        Vec<Vec<i32>>,
        ModelError,
    >)
        requires
            self.wf(),
            self.accepts(view3(input)),
            o < self.out_channels(),
        ensures
            match r {
                Ok(p) => {
                    &&& p@.len() == self.out_rows(view3(input))
                    &&& forall|y: int|
                        0 <= y < p@.len() ==> (#[trigger] p@[y])@.len() == self.out_cols(
                            view3(input),
                        )
                    &&& forall|y: int, xx: int|
                        0 <= y < p@.len() && 0 <= xx < self.out_cols(view3(input))
                            ==> #[trigger] p@[y]@[xx] as int == self.cell_value(
                            view3(input),
                            o as int,
                            y,
                            xx,
                        )
                },
                Err(e) => {
                    &&& e == ModelError::NumericError
                    &&& exists|y: int, xx: int|
                        0 <= y < self.out_rows(view3(input)) && 0 <= xx < self.out_cols(
                            view3(input),
                        ) && !(i32::MIN <= #[trigger] self.cell_value(
                            view3(input),
                            o as int,
                            y,
                            xx,
                        ) <= i32::MAX)
                },
            },
    {
        let ghost g = view3(input);
        proof {
            assert(g[0] == view2(&input@[0]));
        }
        let nrows = input[0].len() - self.kernel_rows + 1;
        let mut out: Vec<Vec<i32>> = Vec::new();
        let mut y: usize = 0;
        while y < nrows
            invariant
                g == view3(input),
                self.wf(),
                self.accepts(g),
                o < self.out_channels(),
                nrows == self.out_rows(g),
                0 <= y <= nrows,
                out@.len() == y,
                forall|b: int| 0 <= b < y ==> (#[trigger] out@[b])@.len() == self.out_cols(g),
                forall|b: int, xx: int|
                    0 <= b < y && 0 <= xx < self.out_cols(g) ==> #[trigger] out@[b]@[xx] as int
                        == self.cell_value(g, o as int, b, xx),
            decreases nrows - y,
        {
            match self.forward_row(input, o, y) {
                Ok(row) => {
                    out.push(row);
                },
                Err(e) => {
                    return Err(e);
                },
            }
            y += 1;
        }
        Ok(out)
    }

    /// Valid cross-correlation of `input` with the filter bank, plus bias.
    pub fn forward(&self, input: &Vec<Vec<Vec<i32>>>) -> (r: Result<
        Vec<Vec<Vec<i32>>>,
        ModelError,
    >)
        ensures
            result3(r) == self.forward_spec(view3(input)),
            r is Ok ==> has_shape(
                view3(&r->Ok_0),
                self.out_channels() as int,
                rows_of(view3(input)) - self.kh() + 1,
                cols_of(view3(input)) - self.kw() + 1,
            ),
    {
        proof {
            use_type_invariant(self);
        }
        let ghost g = view3(input);
        let cin = self.input_size as usize;
        if input.len() != cin || !is_dense_image(input) {
            return Err(ModelError::ShapeMismatch);
        }
        proof {
            assert(g[0] == view2(&input@[0]));
        }
        if input[0].len() < self.kernel_rows {
            return Err(ModelError::ShapeMismatch);
        }
        if input[0][0].len() < self.kernel_cols {
            return Err(ModelError::ShapeMismatch);
        }
        assert(self.accepts(g));
        let cout = self.output_size as usize;
        let mut out: Vec<Vec<Vec<i32>>> = Vec::new();
        let mut o: usize = 0;
        while o < cout
            invariant
                g == view3(input),
                self.wf(),
                self.accepts(g),
                cout == self.out_channels(),
                0 <= o <= cout,
                out@.len() == o,
                forall|a: int|
                    0 <= a < o ==> (#[trigger] out@[a])@.len() == self.out_rows(g),
                forall|a: int, b: int|
                    0 <= a < o && 0 <= b < self.out_rows(g) ==> (#[trigger] out@[a]@[b])@.len()
                        == self.out_cols(g),
                forall|a: int, b: int, xx: int|
                    0 <= a < o && 0 <= b < self.out_rows(g) && 0 <= xx < self.out_cols(g)
                        ==> #[trigger] out@[a]@[b]@[xx] as int == self.cell_value(g, a, b, xx),
            decreases cout - o,
        {
            match self.forward_plane(input, o) {
                Ok(p) => {
                    out.push(p);
                },
                Err(e) => {
                    proof {
                        let (y, xx) = choose|y: int, xx: int|
                            0 <= y < self.out_rows(g) && 0 <= xx < self.out_cols(g) && !(i32::MIN
                                <= #[trigger] self.cell_value(g, o as int, y, xx) <= i32::MAX);
                        assert(!(i32::MIN <= self.cell_value(g, o as int, y, xx) <= i32::MAX));
                        assert(!self.fits(g));
                    }
                    return Err(e);
                },
            }
            o += 1;
        }
        proof {
            let v = view3(&out);
            assert forall|a: int, b: int, xx: int|
                0 <= a < cout && 0 <= b < self.out_rows(g) && 0 <= xx < self.out_cols(g)
                implies i32::MIN <= #[trigger] self.cell_value(g, a, b, xx) <= i32::MAX by {
                assert(out@[a]@[b]@[xx] as int == self.cell_value(g, a, b, xx));
            }
            assert(self.fits(g));
            assert(v =~~= self.output(g));
        }
        Ok(out)
    }
}

} // verus!
