use vstd::prelude::*;
use crate::error::ModelError;
use crate::evaluation::{count_outcomes, evaluate_detailed, Outcome, Tally};
use crate::rbf_codec::{decode_rbf, encode_rbf, grid, rbf_centers, rbf_format, rbf_lines, rbf_weights, RbfParameters};
use crate::sampling::{is_selection, seed_centers};
use crate::text::{lines_of, text_of, views};

verus! {

/// The layout of a radial-basis network: how many centers it has, and how
/// many coordinates each center and each input has.
#[derive(Clone, Copy, Debug, PartialEq, Eq, Structural)]
pub struct RBFN {
    num_centers: usize,
    input_dimension: usize,
}

/// The width of the centers: that of the first, and zero where there is none.
pub open spec fn center_width(centers: Seq<Seq<Seq<u8>>>) -> int {
    if centers.len() > 0 {
        centers[0].len() as int
    } else {
        0
    }
}

impl RBFN {
    /// The number of centers.
    pub closed spec fn centers(&self) -> usize {
        self.num_centers
    }

    /// The number of coordinates of an input.
    pub closed spec fn dimension(&self) -> usize {
        self.input_dimension
    }

    /// There is room for the bias beside the weights of the centers.
    pub open spec fn wf(&self) -> bool {
        self.centers() < usize::MAX
    }

    /// Lays out a network of `num_centers` centers for inputs of
    /// `input_dimension` coordinates.
    pub fn new(num_centers: usize, input_dimension: usize) -> (layout: RBFN)
        requires
            num_centers < usize::MAX,
        ensures
            layout.wf(),
            layout.centers() == num_centers,
            layout.dimension() == input_dimension,
    {
        RBFN { num_centers, input_dimension }
    }

    /// The number of centers.
    pub fn num_centers(&self) -> (count: usize)
        ensures
            count == self.centers(),
    {
        self.num_centers
    }

    /// The number of coordinates of an input.
    pub fn input_dimension(&self) -> (width: usize)
        ensures
            width == self.dimension(),
    {
        self.input_dimension
    }

    /// The number of weights: the bias, and one for each center.
    pub fn weight_count(&self) -> (count: usize)
        requires
            self.wf(),
        ensures
            count == self.centers() + 1,
    {
        self.num_centers + 1
    }

    /// Holds an input against the width of the centers.
    pub fn check_input(&self, length: usize) -> (r: Result<(), ModelError>)
        ensures
            r.is_ok() == (length == self.dimension()),
            r.is_err() ==> r == Err::<(), ModelError>(ModelError::DimensionMismatch),
    {
        if length == self.input_dimension {
            Ok(())
        } else {
            Err(ModelError::DimensionMismatch)
        }
    }

    /// Picks, before training, the examples that the centers are set to: as
    /// many different ones among `samples` as there are centers, at random.
    pub fn seed_centers(&self, samples: usize) -> (chosen: Vec<usize>)
        requires
            self.centers() <= samples,
        ensures
            is_selection(chosen@, self.centers() as nat, samples as nat),
    {
        seed_centers(samples, self.num_centers)
    }

    /// Counts how the predictions stand to the labels.
    ///
    /// Without a label there is nothing to evaluate: that is an empty
    /// dataset. Predictions that are not one for each label are a dimension
    /// mismatch.
    pub fn evaluate_detailed(&self, predictions: &Vec<i32>, labels: &Vec<i32>) -> (r: Result<
        Tally,
        ModelError,
    >)
        ensures
            match r {
                Ok(tally) => labels@.len() > 0 && predictions@.len() == labels@.len()
                    && tally.counts(predictions@, labels@),
                Err(e) => if labels@.len() == 0 {
                    e == ModelError::EmptyDataset
                } else {
                    e == ModelError::DimensionMismatch && predictions@.len() != labels@.len()
                },
            },
    {
        evaluate_detailed(predictions, labels)
    }

    /// Counts the predictions that are the label, and the labels: the
    /// accuracy, as a fraction.
    pub fn evaluate(&self, predictions: &Vec<i32>, labels: &Vec<i32>) -> (r: Result<
        (usize, usize),
        ModelError,
    >)
        ensures
            match r {
                Ok(pair) => labels@.len() > 0 && predictions@.len() == labels@.len() && pair.0
                    == count_outcomes(
                    predictions@,
                    labels@,
                    Outcome::Correct,
                    labels@.len() as int,
                ) && pair.1 == labels@.len(),
                Err(e) => if labels@.len() == 0 {
                    e == ModelError::EmptyDataset
                } else {
                    e == ModelError::DimensionMismatch && predictions@.len() != labels@.len()
                },
            },
    {
        match evaluate_detailed(predictions, labels) {
            Ok(tally) => Ok((tally.correct, tally.total)),
            Err(e) => Err(e),
        }
    }

    /// Writes the parameters of a network as the text of its file.
    pub fn save_model(parameters: &RbfParameters) -> (text: Vec<u8>)
        ensures
            text@ == text_of(
                rbf_lines(
                    parameters.metric@,
                    grid(parameters.centers@),
                    views(parameters.weights@),
                ),
            ),
    {
        encode_rbf(parameters)
    }

    /// Reads a network from the text of its file: its parameters, and the
    /// layout that they have. A text that holds no network is a corrupt
    /// parameter file.
    pub fn load_model(text: &[u8]) -> (r: Result<(RBFN, RbfParameters), ModelError>)
        ensures
            match r {
                Ok(pair) => {
                    &&& rbf_format(lines_of(text@))
                    &&& pair.1.metric@ == lines_of(text@)[1]
                    &&& grid(pair.1.centers@) == rbf_centers(lines_of(text@))
                    &&& views(pair.1.weights@) == rbf_weights(lines_of(text@))
                    &&& pair.1.wf()
                    &&& pair.0.wf()
                    &&& pair.0.centers() == pair.1.centers@.len()
                    &&& pair.0.dimension() == center_width(grid(pair.1.centers@))
                },
                Err(e) => e == ModelError::CorruptParameterFile && !rbf_format(lines_of(text@)),
            },
    {
        match decode_rbf(text) {
            Err(e) => Err(e),
            Ok(parameters) => {
                let num_centers: usize = parameters.centers.len();
                let weights: usize = parameters.weights.len();
                assert(num_centers + 1 == weights);
                let input_dimension: usize = if num_centers > 0 {
                    assert(grid(parameters.centers@)[0] == views(parameters.centers@[0]@));
                    parameters.centers[0].len()
                } else {
                    0
                };
                Ok((RBFN { num_centers, input_dimension }, parameters))
            },
        }
    }
}

} // verus!
