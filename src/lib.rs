//! Fixed-point inference engine for a small convolutional digit classifier,
//! with the loader that builds it from a decoded parameter document.
//!
//! Activations and parameters are Q16.16 fixed-point numbers held in `i32`:
//! a raw value `v` stands for the real number `v / ONE`. Convolutions and
//! fully connected layers sum exactly and round each result down to that grid.
pub mod tensor;
pub mod dot;
pub mod elementwise;
pub mod conv;
pub mod pool;
pub mod dense;
pub mod network;
pub mod laws;
pub mod params;

pub use conv::Conv2D;
pub use dense::{argmax, FullyConnected};
pub use elementwise::{Flatten, ReLU};
pub use network::CNN;
pub use params::{generate_conv2d, generate_fully_connected, load_model, ParamValue};
pub use pool::MaxPooling2D;
pub use tensor::{ModelError, ONE};
