//! The decisions of a small image-classification trainer, verified.
//!
//! Three kinds of model are trained on feature vectors: a linear
//! discriminant, a radial-basis network and a multilayer perceptron. This
//! library holds what they decide and keep without arithmetic on real
//! numbers: the layout of each model and the checks against it, the written
//! form of the parameters and the format of the files that hold them, the
//! choice of examples and centers, the counting of outcomes, the choice of
//! the winning class or model, and the rule by which a training run saves
//! its parameters. A score reaches the library by its bits, or as an integer
//! key that grows with it; a parameter reaches it as the text of a numeral.

pub mod codec;
pub mod error;
pub mod evaluation;
pub mod harness;
pub mod linear;
pub mod mlp;
pub mod naming;
pub mod numeral;
pub mod rbf;
pub mod rbf_codec;
pub mod sampling;
pub mod schedule;
pub mod scoring;
pub mod text;
