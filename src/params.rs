use vstd::prelude::*;

use vstd::string::StringExecFns;

use crate::conv::{conv_params_ok, view4, Conv2D};
use crate::dense::{fc_params_ok, FullyConnected};
use crate::network::CNN;
use crate::tensor::{cols_of, rows_of, view2, view3, ModelError};

verus! {

/// A value of a decoded parameter document; numbers are already in fixed
/// point.
#[derive(Debug)]
pub enum ParamValue {
    Number(i32),
    Array(Vec<ParamValue>),
    /// Anything that is neither a number nor an array.
    Other,
}

/// The number `v` holds, if it is one.
pub open spec fn number_of(v: ParamValue) -> Option<i32> {
    match v {
        ParamValue::Number(n) => Some(n),
        _ => None,
    }
}

/// `v` read as a rank-1 array of numbers.
pub open spec fn vector_of(v: ParamValue) -> Option<Seq<i32>> {
    match v {
        ParamValue::Array(items) => if forall|i: int|
            0 <= i < items@.len() ==> (#[trigger] number_of(items@[i])) is Some {
            Some(items@.map_values(|e: ParamValue| number_of(e)->Some_0))
        } else {
            None
        },
        _ => None,
    }
}

/// Rows and columns of a matrix, the columns read from its first row.
pub open spec fn dims2(m: Seq<Seq<i32>>) -> (int, int) {
    (m.len() as int, if m.len() > 0 { m[0].len() as int } else { 0 })
}

/// `v` read as a rectangular rank-2 array.
pub open spec fn matrix_of(v: ParamValue) -> Option<Seq<Seq<i32>>> {
    match v {
        ParamValue::Array(items) => if (forall|i: int|
            0 <= i < items@.len() ==> (#[trigger] vector_of(items@[i])) is Some) && (forall|i: int|
            0 <= i < items@.len() ==> (#[trigger] vector_of(items@[i]))->Some_0.len() == vector_of(
                items@[0],
            )->Some_0.len()) {
            Some(items@.map_values(|e: ParamValue| vector_of(e)->Some_0))
        } else {
            None
        },
        _ => None,
    }
}

/// `v` read as a dense rank-3 array.
pub open spec fn rank3_of(v: ParamValue) -> Option<Seq<Seq<Seq<i32>>>> {
    match v {
        ParamValue::Array(items) => if (forall|i: int|
            0 <= i < items@.len() ==> (#[trigger] matrix_of(items@[i])) is Some) && (forall|i: int|
            0 <= i < items@.len() ==> dims2((#[trigger] matrix_of(items@[i]))->Some_0) == dims2(
                matrix_of(items@[0])->Some_0,
            )) {
            Some(items@.map_values(|e: ParamValue| matrix_of(e)->Some_0))
        } else {
            None
        },
        _ => None,
    }
}

/// Depth, rows and columns of a rank-3 array.
pub open spec fn dims3(g: Seq<Seq<Seq<i32>>>) -> (int, int, int) {
    (g.len() as int, rows_of(g), cols_of(g))
}

/// `v` read as a dense rank-4 array.
pub open spec fn rank4_of(v: ParamValue) -> Option<Seq<Seq<Seq<Seq<i32>>>>> {
    match v {
        ParamValue::Array(items) => if (forall|i: int|
            0 <= i < items@.len() ==> (#[trigger] rank3_of(items@[i])) is Some) && (forall|i: int|
            0 <= i < items@.len() ==> dims3((#[trigger] rank3_of(items@[i]))->Some_0) == dims3(
                rank3_of(items@[0])->Some_0,
            )) {
            Some(items@.map_values(|e: ParamValue| rank3_of(e)->Some_0))
        } else {
            None
        },
        _ => None,
    }
}

/// Reads a rank-1 array of numbers.
pub fn to_vector(v: &ParamValue) -> (r: Result<Vec<i32>, ModelError>)
    ensures
        match r {
            Ok(x) => vector_of(*v) == Some(x@),
            Err(e) => e == ModelError::SchemaError && vector_of(*v) is None,
        },
{
    let items = match v {
        ParamValue::Array(items) => items,
        _ => {
            return Err(ModelError::SchemaError);
        },
    };
    let mut out: Vec<i32> = Vec::new();
    let mut i: usize = 0;
    while i < items.len()
        invariant
            *v == ParamValue::Array(*items),
            0 <= i <= items.len(),
            out@.len() == i,
            forall|a: int| 0 <= a < i ==> (#[trigger] number_of(items@[a])) is Some,
            forall|a: int| 0 <= a < i ==> out@[a] == (#[trigger] number_of(items@[a]))->Some_0,
        decreases items.len() - i,
    {
        match &items[i] {
            ParamValue::Number(n) => {
                out.push(*n);
            },
            _ => {
                assert(number_of(items@[i as int]) is None);
                return Err(ModelError::SchemaError);
            },
        }
        i += 1;
    }
    assert(out@ =~= items@.map_values(|e: ParamValue| number_of(e)->Some_0));
    Ok(out)
}

/// Reads a rectangular rank-2 array.
pub fn to_matrix(v: &ParamValue) -> (r: Result<Vec<Vec<i32>>, ModelError>)
    ensures
        match r {
            Ok(x) => matrix_of(*v) == Some(view2(&x)),
            Err(e) => e == ModelError::SchemaError && matrix_of(*v) is None,
        },
{
    let items = match v {
        ParamValue::Array(items) => items,
        _ => {
            return Err(ModelError::SchemaError);
        },
    };
    let mut out: Vec<Vec<i32>> = Vec::new();
    let mut i: usize = 0;
    while i < items.len()
        invariant
            *v == ParamValue::Array(*items),
            0 <= i <= items.len(),
            out@.len() == i,
            forall|a: int| 0 <= a < i ==> (#[trigger] vector_of(items@[a])) is Some,
            forall|a: int| 0 <= a < i ==> (#[trigger] out@[a])@ == vector_of(items@[a])->Some_0,
            forall|a: int|
                0 <= a < i ==> (#[trigger] vector_of(items@[a]))->Some_0.len() == vector_of(
                    items@[0],
                )->Some_0.len(),
        decreases items.len() - i,
    {
        let row = match to_vector(&items[i]) {
            Ok(row) => row,
            Err(e) => {
                return Err(e);
            },
        };
        if i > 0 && row.len() != out[0].len() {
            assert(vector_of(items@[i as int])->Some_0.len() != vector_of(items@[0])->Some_0.len());
            return Err(ModelError::SchemaError);
        }
        out.push(row);
        i += 1;
    }
    assert(view2(&out) =~= items@.map_values(|e: ParamValue| vector_of(e)->Some_0));
    Ok(out)
}

/// Reads a dense rank-3 array.
pub fn to_rank3(v: &ParamValue) -> (r: Result<Vec<Vec<Vec<i32>>>, ModelError>)
    ensures
        match r {
            Ok(x) => rank3_of(*v) == Some(view3(&x)),
            Err(e) => e == ModelError::SchemaError && rank3_of(*v) is None,
        },
{
    let items = match v {
        ParamValue::Array(items) => items,
        _ => {
            return Err(ModelError::SchemaError);
        },
    };
    let mut out: Vec<Vec<Vec<i32>>> = Vec::new();
    let mut i: usize = 0;
    while i < items.len()
        invariant
            *v == ParamValue::Array(*items),
            0 <= i <= items.len(),
            out@.len() == i,
            forall|a: int| 0 <= a < i ==> (#[trigger] matrix_of(items@[a])) is Some,
            forall|a: int| 0 <= a < i ==> view2(&(#[trigger] out@[a])) == matrix_of(items@[a])->Some_0,
            forall|a: int|
                0 <= a < i ==> dims2((#[trigger] matrix_of(items@[a]))->Some_0) == dims2(
                    matrix_of(items@[0])->Some_0,
                ),
        decreases items.len() - i,
    {
        let m = match to_matrix(&items[i]) {
            Ok(m) => m,
            Err(e) => {
                return Err(e);
            },
        };
        if i > 0 {
            let same_rows = m.len() == out[0].len();
            let same = same_rows && (m.len() == 0 || m[0].len() == out[0][0].len());
            proof {
                let d = dims2(matrix_of(items@[i as int])->Some_0);
                let d0 = dims2(matrix_of(items@[0])->Some_0);
                assert(view2(&m).len() == m@.len());
                assert(view2(&out@[0]).len() == out@[0]@.len());
                if m@.len() > 0 {
                    assert(view2(&m)[0] == m@[0]@);
                }
                if out@[0]@.len() > 0 {
                    assert(view2(&out@[0])[0] == out@[0]@[0]@);
                }
                assert(same == (d == d0));
            }
            if !same {
                return Err(ModelError::SchemaError);
            }
        }
        out.push(m);
        i += 1;
    }
    assert(view3(&out) =~= items@.map_values(|e: ParamValue| matrix_of(e)->Some_0));
    Ok(out)
}

/// Reads a dense rank-4 array.
pub fn to_rank4(v: &ParamValue) -> (r: Result<Vec<Vec<Vec<Vec<i32>>>>, ModelError>)
    ensures
        match r {
            Ok(x) => rank4_of(*v) == Some(view4(&x)),
            Err(e) => e == ModelError::SchemaError && rank4_of(*v) is None,
        },
{
    let items = match v {
        ParamValue::Array(items) => items,
        _ => {
            return Err(ModelError::SchemaError);
        },
    };
    let mut out: Vec<Vec<Vec<Vec<i32>>>> = Vec::new();
    let mut i: usize = 0;
    while i < items.len()
        invariant
            *v == ParamValue::Array(*items),
            0 <= i <= items.len(),
            out@.len() == i,
            forall|a: int| 0 <= a < i ==> (#[trigger] rank3_of(items@[a])) is Some,
            forall|a: int| 0 <= a < i ==> view3(&(#[trigger] out@[a])) == rank3_of(items@[a])->Some_0,
            forall|a: int|
                0 <= a < i ==> dims3((#[trigger] rank3_of(items@[a]))->Some_0) == dims3(
                    rank3_of(items@[0])->Some_0,
                ),
        decreases items.len() - i,
    {
        let g = match to_rank3(&items[i]) {
            Ok(g) => g,
            Err(e) => {
                return Err(e);
            },
        };
        if i > 0 {
            let first = &out[0];
            let same_depth = g.len() == first.len();
            let rows_g: usize = if g.len() > 0 { g[0].len() } else { 0 };
            let rows_f: usize = if first.len() > 0 { first[0].len() } else { 0 };
            let cols_g: usize = if g.len() > 0 && g[0].len() > 0 { g[0][0].len() } else { 0 };
            let cols_f: usize = if first.len() > 0 && first[0].len() > 0 { first[0][0].len() } else { 0 };
            proof {
                let vg = view3(&g);
                let vf = view3(first);
                if g@.len() > 0 {
                    assert(vg[0] == view2(&g@[0]));
                    if g@[0]@.len() > 0 {
                        assert(vg[0][0] == g@[0]@[0]@);
                    }
                }
                if first@.len() > 0 {
                    assert(vf[0] == view2(&first@[0]));
                    if first@[0]@.len() > 0 {
                        assert(vf[0][0] == first@[0]@[0]@);
                    }
                }
                assert(dims3(vg) == (g@.len() as int, rows_g as int, cols_g as int));
                assert(dims3(vf) == (first@.len() as int, rows_f as int, cols_f as int));
            }
            if !same_depth || rows_g != rows_f || cols_g != cols_f {
                return Err(ModelError::SchemaError);
            }
        }
        out.push(g);
        i += 1;
    }
    assert(view4(&out) =~= items@.map_values(|e: ParamValue| rank3_of(e)->Some_0));
    Ok(out)
}

/// The value stored under `key`: the first entry with that name.
pub open spec fn lookup_spec(doc: Seq<(String, ParamValue)>, key: Seq<char>) -> Option<ParamValue>
    decreases doc.len(),
{
    if doc.len() == 0 {
        None
    } else if doc[0].0@ == key {
        Some(doc[0].1)
    } else {
        lookup_spec(doc.drop_first(), key)
    }
}

/// Finds the first entry of `doc` named `key`.
pub fn lookup<'a>(doc: &'a Vec<(String, ParamValue)>, key: &String) -> (r: Option<&'a ParamValue>)
    ensures
        match r {
            Some(v) => lookup_spec(doc@, key@) == Some(*v),
            None => lookup_spec(doc@, key@) is None,
        },
{
    let mut i: usize = 0;
    assert(doc@.subrange(0, doc@.len() as int) =~= doc@);
    while i < doc.len()
        invariant
            0 <= i <= doc.len(),
            lookup_spec(doc@, key@) == lookup_spec(doc@.subrange(i as int, doc@.len() as int), key@),
        decreases doc.len() - i,
    {
        let ghost rest = doc@.subrange(i as int, doc@.len() as int);
        assert(rest.drop_first() =~= doc@.subrange(i + 1, doc@.len() as int));
        if doc[i].0 == *key {
            return Some(&doc[i].1);
        }
        i += 1;
    }
    None
}

/// Input channels of a filter bank, read from its first slab.
pub open spec fn in_channels_of(f: Seq<Seq<Seq<Seq<i32>>>>) -> int {
    if f.len() > 0 {
        f[0].len() as int
    } else {
        0
    }
}

/// The filter bank and biases stored under `<name>.weight` and
/// `<name>.bias`, or why they do not make a convolution.
pub open spec fn conv_layer_spec(doc: Seq<(String, ParamValue)>, name: Seq<char>) -> Result<
    (Seq<Seq<Seq<Seq<i32>>>>, Seq<i32>),
    ModelError,
> {
    match (lookup_spec(doc, name + ".weight"@), lookup_spec(doc, name + ".bias"@)) {
        (Some(w), Some(b)) => match (rank4_of(w), vector_of(b)) {
            (Some(f), Some(bv)) => if f.len() <= u32::MAX && in_channels_of(f) <= u32::MAX
                && conv_params_ok(in_channels_of(f), f.len() as int, f, bv) {
                Ok((f, bv))
            } else {
                Err(ModelError::ShapeMismatch)
            },
            _ => Err(ModelError::SchemaError),
        },
        _ => Err(ModelError::SchemaError),
    }
}

/// The weight matrix and biases stored under `<name>.weight` and
/// `<name>.bias`, or why they do not make a fully connected layer.
pub open spec fn fc_layer_spec(doc: Seq<(String, ParamValue)>, name: Seq<char>) -> Result<
    (Seq<Seq<i32>>, Seq<i32>),
    ModelError,
> {
    match (lookup_spec(doc, name + ".weight"@), lookup_spec(doc, name + ".bias"@)) {
        (Some(w), Some(b)) => match (matrix_of(w), vector_of(b)) {
            (Some(m), Some(bv)) => if m.len() <= u32::MAX && dims2(m).1 <= u32::MAX
                && fc_params_ok(dims2(m).1, m.len() as int, m, bv) {
                Ok((m, bv))
            } else {
                Err(ModelError::ShapeMismatch)
            },
            _ => Err(ModelError::SchemaError),
        },
        _ => Err(ModelError::SchemaError),
    }
}

/// Builds the convolution stored under `<name>.weight` (rank 4,
/// `[out, in, Kh, Kw]`) and `<name>.bias` (rank 1).
pub fn generate_conv2d(doc: &Vec<(String, ParamValue)>, name: &str) -> (r: Result<
    Conv2D,
    ModelError,
>)
    ensures
        match conv_layer_spec(doc@, name@) {
            Ok((f, b)) => {
                &&& r is Ok
                &&& r->Ok_0.filters() == f
                &&& r->Ok_0.biases() == b
                &&& r->Ok_0.in_channels() == in_channels_of(f)
                &&& r->Ok_0.out_channels() == f.len()
            },
            Err(e) => r == Err::<Conv2D, ModelError>(e),
        },
{
    let wkey = name.to_owned().concat(".weight");
    let bkey = name.to_owned().concat(".bias");
    let w = match lookup(doc, &wkey) {
        Some(w) => w,
        None => {
            return Err(ModelError::SchemaError);
        },
    };
    let b = match lookup(doc, &bkey) {
        Some(b) => b,
        None => {
            return Err(ModelError::SchemaError);
        },
    };
    let filter = match to_rank4(w) {
        Ok(f) => f,
        Err(e) => {
            return Err(e);
        },
    };
    let bias = match to_vector(b) {
        Ok(v) => v,
        Err(e) => {
            return Err(e);
        },
    };
    let ghost f = view4(&filter);
    let cout = filter.len();
    let cin: usize = if cout > 0 { filter[0].len() } else { 0 };
    proof {
        if cout > 0 {
            assert(f[0] == view3(&filter@[0]));
        }
    }
    if cout > u32::MAX as usize || cin > u32::MAX as usize {
        return Err(ModelError::ShapeMismatch);
    }
    Conv2D::new(cin as u32, cout as u32, filter, bias)
}

/// Builds the fully connected layer stored under `<name>.weight` (rank 2,
/// `[out, in]`) and `<name>.bias` (rank 1).
pub fn generate_fully_connected(doc: &Vec<(String, ParamValue)>, name: &str) -> (r: Result<
    FullyConnected,
    ModelError,
>)
    ensures
        match fc_layer_spec(doc@, name@) {
            Ok((m, b)) => {
                &&& r is Ok
                &&& r->Ok_0.weight_rows() == m
                &&& r->Ok_0.biases() == b
                &&& r->Ok_0.in_features() == dims2(m).1
                &&& r->Ok_0.out_features() == m.len()
            },
            Err(e) => r == Err::<FullyConnected, ModelError>(e),
        },
{
    let wkey = name.to_owned().concat(".weight");
    let bkey = name.to_owned().concat(".bias");
    let w = match lookup(doc, &wkey) {
        Some(w) => w,
        None => {
            return Err(ModelError::SchemaError);
        },
    };
    let b = match lookup(doc, &bkey) {
        Some(b) => b,
        None => {
            return Err(ModelError::SchemaError);
        },
    };
    let weights = match to_matrix(w) {
        Ok(m) => m,
        Err(e) => {
            return Err(e);
        },
    };
    let bias = match to_vector(b) {
        Ok(v) => v,
        Err(e) => {
            return Err(e);
        },
    };
    let ghost m = view2(&weights);
    let n_out = weights.len();
    let n_in: usize = if n_out > 0 { weights[0].len() } else { 0 };
    if n_out > u32::MAX as usize || n_in > u32::MAX as usize {
        return Err(ModelError::ShapeMismatch);
    }
    FullyConnected::new(n_in as u32, n_out as u32, weights, bias)
}

/// Builds the digit classifier from the layers `conv1`, `conv2` and `fc1`
/// of `doc`. Entries under other names are ignored; where a name occurs
/// twice, the first entry is used.
pub fn load_model(doc: &Vec<(String, ParamValue)>) -> (r: Result<CNN, ModelError>)
    ensures
        match r {
            Ok(m) => {
                &&& conv_layer_spec(doc@, "conv1"@) == Ok::<_, ModelError>(
                    (m.first().filters(), m.first().biases()),
                )
                &&& conv_layer_spec(doc@, "conv2"@) == Ok::<_, ModelError>(
                    (m.second().filters(), m.second().biases()),
                )
                &&& fc_layer_spec(doc@, "fc1"@) == Ok::<_, ModelError>(
                    (m.head().weight_rows(), m.head().biases()),
                )
            },
            Err(e) => {
                ||| conv_layer_spec(doc@, "conv1"@) == Err::<
                    (Seq<Seq<Seq<Seq<i32>>>>, Seq<i32>),
                    ModelError,
                >(e)
                ||| conv_layer_spec(doc@, "conv1"@) is Ok && conv_layer_spec(doc@, "conv2"@)
                    == Err::<(Seq<Seq<Seq<Seq<i32>>>>, Seq<i32>), ModelError>(e)
                ||| conv_layer_spec(doc@, "conv1"@) is Ok && conv_layer_spec(doc@, "conv2"@) is Ok
                    && fc_layer_spec(doc@, "fc1"@) == Err::<(Seq<Seq<i32>>, Seq<i32>), ModelError>(
                    e,
                )
            },
        },
{
    let conv1 = match generate_conv2d(doc, "conv1") {
        Ok(c) => c,
        Err(e) => {
            return Err(e);
        },
    };
    let conv2 = match generate_conv2d(doc, "conv2") {
        Ok(c) => c,
        Err(e) => {
            return Err(e);
        },
    };
    let fc = match generate_fully_connected(doc, "fc1") {
        Ok(l) => l,
        Err(e) => {
            return Err(e);
        },
    };
    Ok(CNN::new(1, 10, conv1, conv2, fc))
}

} // verus!
