use vstd::prelude::*;

verus! {

/// Largest magnitude of a product of two raw values, `2^62`.
pub open spec fn term_bound() -> int {
    0x4000_0000_0000_0000
}

/// `Σ_{k < n} xs[x0 + k] · ws[k]`, computed exactly.
pub open spec fn row_dot(xs: Seq<i32>, ws: Seq<i32>, x0: int, n: int) -> int
    decreases n,
{
    if n <= 0 {
        0
    } else {
        row_dot(xs, ws, x0, n - 1) + xs[x0 + n - 1] * ws[n - 1]
    }
}

/// The product of two raw values has magnitude at most `2^62`.
pub proof fn lemma_term_bound(a: i32, b: i32)
    ensures
        -term_bound() <= (a as int) * (b as int) <= term_bound(),
{
    let x = a as int;
    let y = b as int;
    assert(-0x4000_0000_0000_0000 <= x * y <= 0x4000_0000_0000_0000) by (nonlinear_arith)
        requires
            -0x8000_0000 <= x <= 0x7fff_ffff,
            -0x8000_0000 <= y <= 0x7fff_ffff,
    ;
}

/// `(j + 1) · t = j · t + t`, and `j · t` grows with `j` for `t ≥ 0`.
pub proof fn lemma_scale_step(j: int, k: int, t: int)
    requires
        0 <= j <= k,
        0 <= t,
    ensures
        (j + 1) * t == j * t + t,
        0 <= j * t <= k * t,
{
    assert((j + 1) * t == j * t + t) by (nonlinear_arith);
    assert(0 <= j * t <= k * t) by (nonlinear_arith)
        requires
            0 <= j <= k,
            0 <= t,
    ;
}

/// Exact dot product of `n` elements of `xs` starting at `x0` with the first
/// `n` elements of `ws`.
pub fn row_dot_exec(xs: &Vec<i32>, ws: &Vec<i32>, x0: usize, n: usize) -> (r: i128)
    requires
        x0 + n <= xs.len(),
        n <= ws.len(),
    ensures
        r == row_dot(xs@, ws@, x0 as int, n as int),
        -(n * term_bound()) <= r <= n * term_bound(),
{
    let mut acc: i128 = 0;
    let mut k: usize = 0;
    while k < n
        invariant
            0 <= k <= n,
            x0 + n <= xs.len(),
            n <= ws.len(),
            acc == row_dot(xs@, ws@, x0 as int, k as int),
            -(k * term_bound()) <= acc <= k * term_bound(),
        decreases n - k,
    {
        proof {
            lemma_term_bound(xs@[x0 + k], ws@[k as int]);
        }
        acc = acc + (xs[x0 + k] as i128) * (ws[k] as i128);
        k += 1;
    }
    acc
}

} // verus!
