use vstd::prelude::*;
use crate::error::ModelError;

verus! {

/// How a prediction stands to the label of its example.
#[derive(Clone, Copy, Debug, PartialEq, Eq, Structural)]
pub enum Outcome {
    /// The prediction is the label.
    Correct,
    /// The prediction is the positive class and the label is not.
    FalsePositive,
    /// The prediction is not the positive class, and not the label.
    FalseNegative,
}

/// The outcome of one prediction.
pub open spec fn outcome_of(prediction: i32, label: i32) -> Outcome {
    if prediction == label {
        Outcome::Correct
    } else if prediction == 1 {
        Outcome::FalsePositive
    } else {
        Outcome::FalseNegative
    }
}

/// How many of the first `n` predictions have the outcome `kind`.
pub open spec fn count_outcomes(
    predictions: Seq<i32>,
    labels: Seq<i32>,
    kind: Outcome,
    n: int,
) -> nat
    decreases n,
{
    if n <= 0 {
        0
    } else {
        let rest = count_outcomes(predictions, labels, kind, n - 1);
        if outcome_of(predictions[n - 1], labels[n - 1]) == kind {
            rest + 1
        } else {
            rest
        }
    }
}

/// The outcomes of an evaluation, counted.
#[derive(Clone, Copy, Debug, PartialEq, Eq, Structural)]
pub struct Tally {
    /// The predictions that are the label.
    pub correct: usize,
    /// The wrong predictions of the positive class.
    pub false_positives: usize,
    /// The wrong predictions of another class.
    pub false_negatives: usize,
    /// The examples that were evaluated.
    pub total: usize,
}

impl Tally {
    /// Whether the tally counts the outcomes of these predictions.
    pub open spec fn counts(&self, predictions: Seq<i32>, labels: Seq<i32>) -> bool {
        let n = labels.len() as int;
        &&& self.total == n
        &&& self.correct == count_outcomes(predictions, labels, Outcome::Correct, n)
        &&& self.false_positives == count_outcomes(predictions, labels, Outcome::FalsePositive, n)
        &&& self.false_negatives == count_outcomes(predictions, labels, Outcome::FalseNegative, n)
    }
}

/// Every prediction has one outcome, so the three counts add up to the number
/// of predictions.
pub proof fn lemma_outcomes_add_up(predictions: Seq<i32>, labels: Seq<i32>, n: int)
    requires
        0 <= n,
    ensures
        count_outcomes(predictions, labels, Outcome::Correct, n) + count_outcomes(
            predictions,
            labels,
            Outcome::FalsePositive,
            n,
        ) + count_outcomes(predictions, labels, Outcome::FalseNegative, n) == n,
    decreases n,
{
    if n > 0 {
        lemma_outcomes_add_up(predictions, labels, n - 1);
    }
}

/// The class that a score speaks for: the positive class where the score is
/// zero or more, the negative class below.
pub fn sign_label(nonnegative: bool) -> (label: i32)
    ensures
        label == (if nonnegative { 1i32 } else { -1i32 }),
{
    if nonnegative {
        1
    } else {
        -1
    }
}

/// What the label has over the prediction: the error that a training step
/// moves the weights by.
pub fn label_error(label: i32, prediction: i32) -> (error: i32)
    requires
        -1 <= label <= 1,
        -1 <= prediction <= 1,
    ensures
        error == label - prediction,
{
    label - prediction
}

/// Counts how the predictions stand to the labels.
///
/// Without a label there is nothing to evaluate: that is an empty dataset.
/// Predictions that are not one for each label are a dimension mismatch.
pub fn evaluate_detailed(predictions: &Vec<i32>, labels: &Vec<i32>) -> (r: Result<
    Tally,
    ModelError,
>)
    ensures
        match r {
            Ok(tally) => labels@.len() > 0 && predictions@.len() == labels@.len() && tally.counts(
                predictions@,
                labels@,
            ),
            Err(e) => if labels@.len() == 0 {
                e == ModelError::EmptyDataset
            } else {
                e == ModelError::DimensionMismatch && predictions@.len() != labels@.len()
            },
        },
{
    let n: usize = labels.len();
    if n == 0 {
        return Err(ModelError::EmptyDataset);
    }
    if predictions.len() != n {
        return Err(ModelError::DimensionMismatch);
    }
    let mut correct: usize = 0;
    let mut false_positives: usize = 0;
    let mut false_negatives: usize = 0;
    let mut i: usize = 0;
    while i < n
        invariant
            i <= n,
            n == labels@.len(),
            n == predictions@.len(),
            correct == count_outcomes(predictions@, labels@, Outcome::Correct, i as int),
            false_positives == count_outcomes(
                predictions@,
                labels@,
                Outcome::FalsePositive,
                i as int,
            ),
            false_negatives == count_outcomes(
                predictions@,
                labels@,
                Outcome::FalseNegative,
                i as int,
            ),
            correct + false_positives + false_negatives == i,
        decreases n - i,
    {
        if predictions[i] == labels[i] {
            correct += 1;
        } else if predictions[i] == 1 {
            false_positives += 1;
        } else {
            false_negatives += 1;
        }
        i += 1;
    }
    Ok(Tally { correct, false_positives, false_negatives, total: n })
}

/// Counts the predictions that are the label, and the labels.
///
/// Without a label there is nothing to evaluate: that is an empty dataset.
/// Predictions that are not one for each label are a dimension mismatch.
pub fn evaluate(predictions: &Vec<i32>, labels: &Vec<i32>) -> (r: Result<(usize, usize), ModelError>)
    ensures
        match r {
            Ok(pair) => labels@.len() > 0 && predictions@.len() == labels@.len() && pair.0
                == count_outcomes(predictions@, labels@, Outcome::Correct, labels@.len() as int)
                && pair.1 == labels@.len(),
            Err(e) => if labels@.len() == 0 {
                e == ModelError::EmptyDataset
            } else {
                e == ModelError::DimensionMismatch && predictions@.len() != labels@.len()
            },
        },
{
    match evaluate_detailed(predictions, labels) {
        Ok(tally) => Ok((tally.correct, tally.total)),
        Err(e) => Err(e),
    }
}

} // verus!
