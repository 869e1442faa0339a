use vstd::prelude::*;

use crate::conv::Conv2D;
use crate::dense::{argmax, is_argmax, FullyConnected};
use crate::elementwise::{flatten_spec, relu_spec, Flatten, ReLU};
use crate::pool::{pool_spec, MaxPooling2D};
use crate::tensor::{view3, ModelError};

verus! {

/// Side of the pooling window that follows each convolution.
pub const POOL: u32 = 2;

/// The fixed digit classifier:
/// conv → ReLU → pool → conv → ReLU → pool → flatten → fully connected.
#[derive(Debug)]
pub struct CNN {
    input_size: u32,
    output_size: u32,
    conv1: Conv2D,
    conv2: Conv2D,
    fc: FullyConnected,
}

impl CNN {
    /// The first convolution.
    pub closed spec fn first(&self) -> Conv2D {
        self.conv1
    }

    /// The second convolution.
    pub closed spec fn second(&self) -> Conv2D {
        self.conv2
    }

    /// The final fully connected layer.
    pub closed spec fn head(&self) -> FullyConnected {
        self.fc
    }

    /// The declared number of input channels.
    pub closed spec fn input_size(&self) -> u32 {
        self.input_size
    }

    /// The declared number of classes.
    pub closed spec fn output_size(&self) -> u32 {
        self.output_size
    }

    pub fn new(
        input_size: u32,
        output_size: u32,
        conv1: Conv2D,
        conv2: Conv2D,
        fc: FullyConnected,
    ) -> (r: CNN)
        ensures
            r.input_size() == input_size,
            r.output_size() == output_size,
            r.first() == conv1,
            r.second() == conv2,
            r.head() == fc,
    {
        CNN { input_size, output_size, conv1, conv2, fc }
    }

    /// The logits of the pipeline for input `x`, or the first error.
    pub open spec fn logits_spec(&self, x: Seq<Seq<Seq<i32>>>) -> Result<Seq<i32>, ModelError> {
        match self.first().forward_spec(x) {
            Err(e) => Err(e),
            Ok(a) => match pool_spec(relu_spec(a), POOL as int) {
                Err(e) => Err(e),
                Ok(b) => match self.second().forward_spec(b) {
                    Err(e) => Err(e),
                    Ok(c) => match pool_spec(relu_spec(c), POOL as int) {
                        Err(e) => Err(e),
                        Ok(d) => self.head().forward_spec(flatten_spec(d)),
                    },
                },
            },
        }
    }

    /// Runs every layer on `img` and returns the logits of the classes.
    pub fn logits(&self, img: &Vec<Vec<Vec<i32>>>) -> (r: Result<Vec<i32>, ModelError>)
        ensures
            match r {
                Ok(v) => self.logits_spec(view3(img)) == Ok::<Seq<i32>, ModelError>(v@),
                Err(e) => self.logits_spec(view3(img)) == Err::<Seq<i32>, ModelError>(e),
            },
    {
        let pool = MaxPooling2D::new(POOL);
        let a = match self.conv1.forward(img) {
            Ok(a) => a,
            Err(e) => {
                return Err(e);
            },
        };
        let a = ReLU::forward(&a);
        let b = match pool.forward(&a) {
            Ok(b) => b,
            Err(e) => {
                return Err(e);
            },
        };
        let c = match self.conv2.forward(&b) {
            Ok(c) => c,
            Err(e) => {
                return Err(e);
            },
        };
        let c = ReLU::forward(&c);
        let d = match pool.forward(&c) {
            Ok(d) => d,
            Err(e) => {
                return Err(e);
            },
        };
        let flat = Flatten::forward(&d);
        self.fc.forward(&flat)
    }

    /// Runs the pipeline on `img` and returns the predicted class: the
    /// index of the largest logit, the lowest on ties. Softmax is strictly
    /// increasing in each logit, so it would not change this index.
    pub fn forward(&self, img: &Vec<Vec<Vec<i32>>>) -> (r: Result<usize, ModelError>)
        ensures
            match r {
                Ok(k) => {
                    &&& self.logits_spec(view3(img)) is Ok
                    &&& is_argmax(self.logits_spec(view3(img))->Ok_0, k as int)
                },
                Err(e) => {
                    ||| self.logits_spec(view3(img)) == Err::<Seq<i32>, ModelError>(e)
                    ||| {
                        &&& self.logits_spec(view3(img)) == Ok::<Seq<i32>, ModelError>(
                            Seq::empty(),
                        )
                        &&& e == ModelError::ShapeMismatch
                    }
                },
            },
    {
        let logits = match self.logits(img) {
            Ok(l) => l,
            Err(e) => {
                return Err(e);
            },
        };
        if logits.len() == 0 {
            assert(logits@ =~= Seq::empty());
            return Err(ModelError::ShapeMismatch);
        }
        Ok(argmax(&logits))
    }
}

} // verus!
