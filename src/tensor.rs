use vstd::prelude::*;

verus! {

/// The raw encoding of the real number 1 (sixteen fractional bits): a raw
/// value `v` stands for `v / ONE`.
pub const ONE: i32 = 65536;

/// Why a layer, the network or the parameter loader refused its input.
#[derive(Debug, Clone, Copy, PartialEq, Eq, Structural)]
pub enum ModelError {
    /// A tensor does not have the shape that the operator expects.
    ShapeMismatch,
    /// A parameter is missing, has the wrong rank, or is ragged.
    SchemaError,
    /// An exact result does not fit the fixed-point range.
    NumericError,
}

/// Mathematical view of a rank-3 tensor `[channel][row][column]`.
pub open spec fn view3(x: &Vec<Vec<Vec<i32>>>) -> Seq<Seq<Seq<i32>>> {
    x@.map_values(|p: Vec<Vec<i32>>| p@.map_values(|r: Vec<i32>| r@))
}

/// Mathematical view of a rank-2 matrix `[row][column]`.
pub open spec fn view2(x: &Vec<Vec<i32>>) -> Seq<Seq<i32>> {
    x@.map_values(|r: Vec<i32>| r@)
}

/// The view of a layer's rank-3 result.
pub open spec fn result3(r: Result<Vec<Vec<Vec<i32>>>, ModelError>) -> Result<
    Seq<Seq<Seq<i32>>>,
    ModelError,
> {
    match r {
        Ok(v) => Ok(view3(&v)),
        Err(e) => Err(e),
    }
}

/// `g` is a dense tensor of shape `[c, h, w]`.
pub open spec fn has_shape(g: Seq<Seq<Seq<i32>>>, c: int, h: int, w: int) -> bool {
    &&& g.len() == c
    &&& forall|i: int| 0 <= i < c ==> #[trigger] g[i].len() == h
    &&& forall|i: int, j: int| 0 <= i < c && 0 <= j < h ==> #[trigger] g[i][j].len() == w
}

/// Number of rows of a rank-3 tensor, read from its first channel.
pub open spec fn rows_of(g: Seq<Seq<Seq<i32>>>) -> int {
    if g.len() > 0 {
        g[0].len() as int
    } else {
        0
    }
}

/// Number of columns of a rank-3 tensor, read from its first row.
pub open spec fn cols_of(g: Seq<Seq<Seq<i32>>>) -> int {
    if g.len() > 0 && g[0].len() > 0 {
        g[0][0].len() as int
    } else {
        0
    }
}

/// `g` is dense: every channel has the same rows, every row the same columns.
pub open spec fn is_dense(g: Seq<Seq<Seq<i32>>>) -> bool {
    has_shape(g, g.len() as int, rows_of(g), cols_of(g))
}

/// Whether a nested vector is a dense rank-3 tensor.
pub fn is_dense_image(x: &Vec<Vec<Vec<i32>>>) -> (r: bool)
    ensures
        r == is_dense(view3(x)),
{
    let ghost g = view3(x);
    if x.len() == 0 {
        return true;
    }
    let h = x[0].len();
    let w: usize = if h > 0 { x[0][0].len() } else { 0 };
    let mut i: usize = 0;
    while i < x.len()
        invariant
            g == view3(x),
            h == rows_of(g),
            w == cols_of(g),
            0 <= i <= x.len(),
            forall|a: int| 0 <= a < i ==> #[trigger] g[a].len() == h,
            forall|a: int, b: int| 0 <= a < i && 0 <= b < h ==> #[trigger] g[a][b].len() == w,
        decreases x.len() - i,
    {
        if x[i].len() != h {
            assert(g[i as int].len() != h);
            return false;
        }
        let mut j: usize = 0;
        while j < h
            invariant
                g == view3(x),
                0 <= i < x.len(),
                x@[i as int]@.len() == h,
                h == rows_of(g),
                w == cols_of(g),
                0 <= j <= h,
                forall|b: int| 0 <= b < j ==> #[trigger] g[i as int][b].len() == w,
            decreases h - j,
        {
            if x[i][j].len() != w {
                assert(g[i as int][j as int].len() != w);
                return false;
            }
            j += 1;
        }
        i += 1;
    }
    true
}

/// Whether a nested vector has shape `[c, h, w]`.
pub fn has_shape_exec(x: &Vec<Vec<Vec<i32>>>, c: usize, h: usize, w: usize) -> (r: bool)
    ensures
        r == has_shape(view3(x), c as int, h as int, w as int),
{
    let ghost g = view3(x);
    if x.len() != c {
        return false;
    }
    let mut i: usize = 0;
    while i < c
        invariant
            g == view3(x),
            x.len() == c,
            0 <= i <= c,
            forall|a: int| 0 <= a < i ==> #[trigger] g[a].len() == h,
            forall|a: int, b: int| 0 <= a < i && 0 <= b < h ==> #[trigger] g[a][b].len() == w,
        decreases c - i,
    {
        if x[i].len() != h {
            assert(g[i as int].len() != h);
            return false;
        }
        let mut j: usize = 0;
        while j < h
            invariant
                g == view3(x),
                x.len() == c,
                0 <= i < c,
                x@[i as int]@.len() == h,
                0 <= j <= h,
                forall|b: int| 0 <= b < j ==> #[trigger] g[i as int][b].len() == w,
            decreases h - j,
        {
            if x[i][j].len() != w {
                assert(g[i as int][j as int].len() != w);
                return false;
            }
            j += 1;
        }
        i += 1;
    }
    true
}

} // verus!
