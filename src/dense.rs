use vstd::prelude::*;

use crate::dot::{row_dot, row_dot_exec, term_bound};
use crate::tensor::{view2, ModelError, ONE};

verus! {

/// Parameters of a valid fully connected layer: an `[out, in]` weight
/// matrix and one bias per output.
pub open spec fn fc_params_ok(n_in: int, n_out: int, w: Seq<Seq<i32>>, b: Seq<i32>) -> bool {
    &&& w.len() == n_out
    &&& b.len() == n_out
    &&& forall|o: int| 0 <= o < n_out ==> (#[trigger] w[o]).len() == n_in
}

/// Affine layer `Y[o] = bias[o] + Σ_i X[i] · weights[o][i]`.
#[derive(Debug)]
pub struct FullyConnected {
    input_size: u32,
    output_size: u32,
    weights: Vec<Vec<i32>>,
    bias: Vec<i32>,
}

impl FullyConnected {
    /// Number of inputs.
    pub closed spec fn in_features(&self) -> nat {
        self.input_size as nat
    }

    /// Number of outputs.
    pub closed spec fn out_features(&self) -> nat {
        self.output_size as nat
    }

    /// The weight matrix `[out][in]`.
    pub closed spec fn weight_rows(&self) -> Seq<Seq<i32>> {
        view2(&self.weights)
    }

    /// The bias of each output.
    pub closed spec fn biases(&self) -> Seq<i32> {
        self.bias@
    }

    /// The layer's parameters are consistent.
    pub open spec fn wf(&self) -> bool {
        fc_params_ok(self.in_features() as int, self.out_features() as int, self.weight_rows(), self.biases())
    }

    #[verifier::type_invariant]
    spec fn consistent(&self) -> bool {
        self.wf()
    }

    /// Exact value of output `o` at scale `ONE²`.
    pub open spec fn output_exact(&self, x: Seq<i32>, o: int) -> int {
        self.biases()[o] * ONE + row_dot(x, self.weight_rows()[o], 0, self.in_features() as int)
    }

    /// Raw fixed-point value of output `o`: the exact value rounded down to
    /// the fixed-point grid.
    pub open spec fn output_value(&self, x: Seq<i32>, o: int) -> int {
        self.output_exact(x, o) / (ONE as int)
    }

    /// What `forward` returns for input `x`.
    pub open spec fn forward_spec(&self, x: Seq<i32>) -> Result<Seq<i32>, ModelError> {
        if x.len() != self.in_features() {
            Err(ModelError::ShapeMismatch)
        } else if exists|o: int|
            0 <= o < self.out_features() && !(i32::MIN <= #[trigger] self.output_value(x, o)
                <= i32::MAX) {
            Err(ModelError::NumericError)
        } else {
            Ok(Seq::new(self.out_features() as nat, |o: int| self.output_value(x, o) as i32))
        }
    }

    /// Builds a layer from an `[output_size][input_size]` weight matrix and
    /// one bias per output; refuses inconsistent shapes.
    pub fn new(input_size: u32, output_size: u32, weights: Vec<Vec<i32>>, bias: Vec<i32>) -> (r:
        Result<FullyConnected, ModelError>)
        ensures
            match r {
                Ok(l) => {
                    &&& fc_params_ok(input_size as int, output_size as int, view2(&weights), bias@)
                    &&& l.wf()
                    &&& l.in_features() == input_size
                    &&& l.out_features() == output_size
                    &&& l.weight_rows() == view2(&weights)
                    &&& l.biases() == bias@
                },
                Err(e) => {
                    &&& e == ModelError::ShapeMismatch
                    &&& !fc_params_ok(input_size as int, output_size as int, view2(&weights), bias@)
                },
            },
    {
        let ghost w = view2(&weights);
        if weights.len() != output_size as usize || bias.len() != output_size as usize {
            return Err(ModelError::ShapeMismatch);
        }
        let mut o: usize = 0;
        while o < weights.len()
            invariant
                w == view2(&weights),
                0 <= o <= weights.len(),
                forall|a: int| 0 <= a < o ==> (#[trigger] w[a]).len() == input_size,
            decreases weights.len() - o,
        {
            if weights[o].len() != input_size as usize {
                assert(w[o as int].len() != input_size);
                return Err(ModelError::ShapeMismatch);
            }
            o += 1;
        }
        Ok(
            FullyConnected {
                input_size: input_size,
                output_size: output_size,
                weights: weights,
                bias: bias,
            },
        )
    }

    /// `Y[o] = bias[o] + Σ_i X[i] · weights[o][i]` for every output `o`.
    pub fn forward(&self, input: &Vec<i32>) -> (r: Result<Vec<i32>, ModelError>)
        ensures
            match r {
                Ok(v) => self.forward_spec(input@) == Ok::<Seq<i32>, ModelError>(v@),
                Err(e) => self.forward_spec(input@) == Err::<Seq<i32>, ModelError>(e),
            },
            r is Ok ==> r->Ok_0@.len() == self.out_features(),
    {
        proof {
            use_type_invariant(self);
        }
        let n = self.input_size as usize;
        if input.len() != n {
            return Err(ModelError::ShapeMismatch);
        }
        let m = self.output_size as usize;
        let mut out: Vec<i32> = Vec::new();
        let mut o: usize = 0;
        while o < m
            invariant
                self.wf(),
                n == self.in_features(),
                m == self.out_features(),
                input@.len() == n,
                0 <= o <= m,
                out@.len() == o,
                forall|a: int| 0 <= a < o ==> #[trigger] out@[a] as int == self.output_value(input@, a),
            decreases m - o,
        {
            assert(view2(&self.weights)[o as int] == self.weights@[o as int]@);
            let s = row_dot_exec(input, &self.weights[o], 0, n);
            let exact: i128 = (self.bias[o] as i128) * 65536 + s;
            let q = match exact.checked_div_euclid(65536) {
                Some(q) => q,
                None => {
                    return Err(ModelError::NumericError);
                },
            };
            if q < i32::MIN as i128 || q > i32::MAX as i128 {
                assert(!(i32::MIN <= self.output_value(input@, o as int) <= i32::MAX));
                return Err(ModelError::NumericError);
            }
            out.push(q as i32);
            o += 1;
        }
        proof {
            assert forall|a: int| 0 <= a < m implies i32::MIN <= #[trigger] self.output_value(
                input@,
                a,
            ) <= i32::MAX by {
                assert(out@[a] as int == self.output_value(input@, a));
            }
            assert(out@ =~= Seq::new(m as nat, |a: int| self.output_value(input@, a) as i32));
        }
        Ok(out)
    }
}

/// `k` is the index of the largest element of `s`, the lowest such index
/// on ties.
pub open spec fn is_argmax(s: Seq<i32>, k: int) -> bool {
    &&& 0 <= k < s.len()
    &&& forall|i: int| 0 <= i < s.len() ==> #[trigger] s[i] <= s[k]
    &&& forall|i: int| 0 <= i < k ==> #[trigger] s[i] < s[k]
}

/// Index of the largest element, the lowest index on ties.
pub fn argmax(input: &Vec<i32>) -> (r: usize)
    requires
        input@.len() > 0,
    ensures
        is_argmax(input@, r as int),
{
    let mut max = input[0];
    let mut index: usize = 0;
    let mut i: usize = 1;
    while i < input.len()
        invariant
            1 <= i <= input.len(),
            0 <= index < i,
            max == input@[index as int],
            forall|a: int| 0 <= a < i ==> #[trigger] input@[a] <= max,
            forall|a: int| 0 <= a < index ==> #[trigger] input@[a] < max,
        decreases input.len() - i,
    {
        if input[i] > max {
            max = input[i];
            index = i;
        }
        i += 1;
    }
    index
}

} // verus!
