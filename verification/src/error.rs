use vstd::prelude::*;

verus! {

/// The ways in which a model operation can fail.
#[derive(Clone, Copy, Debug, PartialEq, Eq, Structural)]
pub enum ModelError {
    /// A feature vector's length disagrees with the width the model expects.
    DimensionMismatch,
    /// A layer specification has fewer than two layers or a layer of width zero.
    InvalidTopology,
    /// An evaluation was asked for on no labelled example.
    EmptyDataset,
    /// A persisted parameter file could not be read back.
    CorruptParameterFile,
    /// No parameter file exists where one is needed.
    MissingParameterFile,
}

} // verus!
