use vstd::prelude::*;
use crate::codec::{braced_tokens, decode_linear, encode_linear, linear_format, linear_lines, LinearParameters};
use crate::error::ModelError;
use crate::text::{lines_of, text_of, views};

verus! {

/// What loading a linear model gives.
pub enum Loaded {
    /// The parameters that the file holds.
    Stored(LinearParameters),
    /// No file is there: the model starts from fresh parameters.
    Fresh,
}

/// Whether every row of `rows` has `width` entries.
pub open spec fn all_of_width<T>(rows: Seq<Vec<T>>, width: int) -> bool {
    forall|i: int| 0 <= i < rows.len() ==> (#[trigger] rows[i])@.len() == width
}

/// The sizes that a training set gives a linear model: the number of
/// examples, the number of features of the first of them (none where there is
/// no example), and the number of weights, which is one more for the bias.
pub fn set_var<T>(x: &Vec<Vec<T>>) -> (sizes: (usize, usize, usize))
    requires
        x@.len() > 0 ==> x@[0]@.len() < usize::MAX,
    ensures
        sizes.0 == x@.len(),
        sizes.1 == (if x@.len() > 0 { x@[0]@.len() } else { 0 }),
        sizes.2 == sizes.1 + 1,
{
    let rows: usize = x.len();
    let cols: usize = if rows > 0 {
        x[0].len()
    } else {
        0
    };
    (rows, cols, cols + 1)
}

/// Holds the feature vectors of a dataset against the number of weights of a
/// model: each must have one feature for each weight but the bias.
pub fn check_features<T>(x: &Vec<Vec<T>>, weights: usize) -> (r: Result<(), ModelError>)
    ensures
        r.is_ok() == (weights > 0 && all_of_width(x@, weights - 1)),
        r.is_err() ==> r == Err::<(), ModelError>(ModelError::DimensionMismatch),
{
    if weights == 0 {
        return Err(ModelError::DimensionMismatch);
    }
    let width: usize = weights - 1;
    let mut i: usize = 0;
    while i < x.len()
        invariant
            i <= x@.len(),
            width == weights - 1,
            forall|j: int| 0 <= j < i ==> (#[trigger] x@[j])@.len() == width,
        decreases x@.len() - i,
    {
        if x[i].len() != width {
            return Err(ModelError::DimensionMismatch);
        }
        i += 1;
    }
    Ok(())
}

/// What a list of texts holds, text by text.
pub open spec fn texts(votes: Seq<String>) -> Seq<Seq<char>> {
    Seq::new(votes.len(), |i: int| votes[i]@)
}

/// How often `text` stands among the first `n` of `votes`.
pub open spec fn occurrences(votes: Seq<Seq<char>>, text: Seq<char>, n: int) -> nat
    decreases n,
{
    if n <= 0 {
        0
    } else {
        let rest = occurrences(votes, text, n - 1);
        if votes[n - 1] == text {
            rest + 1
        } else {
            rest
        }
    }
}

/// Counts how often `text` stands among `votes`.
fn count_votes(votes: &Vec<String>, text: &String) -> (count: usize)
    ensures
        count == occurrences(texts(votes@), text@, votes@.len() as int),
{
    let mut count: usize = 0;
    let mut i: usize = 0;
    while i < votes.len()
        invariant
            i <= votes@.len(),
            count <= i,
            count == occurrences(texts(votes@), text@, i as int),
        decreases votes@.len() - i,
    {
        assert(texts(votes@)[i as int] == votes@[i as int]@);
        if votes[i] == *text {
            count += 1;
        }
        i += 1;
    }
    count
}

/// Whether the vote at place `k` wins: no vote is given more often, and none
/// before it as often.
pub open spec fn is_majority(votes: Seq<Seq<char>>, k: int) -> bool {
    let n = votes.len() as int;
    &&& 0 <= k < n
    &&& forall|j: int|
        0 <= j < n ==> occurrences(votes, #[trigger] votes[j], n) <= occurrences(votes, votes[k], n)
    &&& forall|j: int|
        0 <= j < k ==> occurrences(votes, #[trigger] votes[j], n) < occurrences(votes, votes[k], n)
}

/// The answer that most of the models give: the vote that no other vote
/// outnumbers, the earliest of them where several are given equally often,
/// and nothing where there is no vote.
pub fn most_frequent(votes: &Vec<String>) -> (winner: Option<String>)
    ensures
        winner.is_none() == (votes@.len() == 0),
        winner matches Some(w) ==> exists|k: int|
            is_majority(texts(votes@), k) && texts(votes@)[k] == w@,
{
    if votes.len() == 0 {
        return None;
    }
    let ghost all = texts(votes@);
    let ghost n = votes@.len() as int;
    let mut best: usize = 0;
    let mut best_count: usize = count_votes(votes, &votes[0]);
    let mut i: usize = 1;
    assert(all[0] == votes@[0]@);
    while i < votes.len()
        invariant
            0 <= best < i <= votes@.len(),
            all == texts(votes@),
            n == votes@.len(),
            best_count == occurrences(all, all[best as int], n),
            forall|j: int| 0 <= j < i ==> occurrences(all, #[trigger] all[j], n) <= best_count,
            forall|j: int| 0 <= j < best ==> occurrences(all, #[trigger] all[j], n) < best_count,
        decreases votes@.len() - i,
    {
        assert(all[i as int] == votes@[i as int]@);
        let count = count_votes(votes, &votes[i]);
        if count > best_count {
            best = i;
            best_count = count;
        }
        i += 1;
    }
    proof {
        assert(is_majority(all, best as int));
        assert(all[best as int] == votes@[best as int]@);
    }
    Some(votes[best].clone())
}

/// Loads a linear model.
///
/// `file` is the text of the parameter file, where there is one. Without a
/// file the model starts fresh where `fall_back` allows it, and a parameter
/// file is missing where it does not. A file that holds no linear model is
/// corrupt.
pub fn load_model_weights(file: Option<&[u8]>, fall_back: bool) -> (r: Result<Loaded, ModelError>)
    ensures
        match file {
            None => if fall_back {
                r matches Ok(Loaded::Fresh)
            } else {
                r matches Err(ModelError::MissingParameterFile)
            },
            Some(text) => match r {
                Ok(Loaded::Stored(p)) => {
                    &&& linear_format(lines_of(text@))
                    &&& p.metric@ == lines_of(text@)[1]
                    &&& views(p.weights@) == braced_tokens(lines_of(text@), 3)
                    &&& p.wf()
                },
                Ok(Loaded::Fresh) => false,
                Err(e) => e == ModelError::CorruptParameterFile && !linear_format(lines_of(text@)),
            },
        },
{
    match file {
        None => {
            if fall_back {
                Ok(Loaded::Fresh)
            } else {
                Err(ModelError::MissingParameterFile)
            }
        },
        Some(text) => {
            match decode_linear(text) {
                Ok(p) => Ok(Loaded::Stored(p)),
                Err(e) => Err(e),
            }
        },
    }
}

/// Writes a linear model as the text of its file.
pub fn save_model_linear(parameters: &LinearParameters) -> (text: Vec<u8>)
    ensures
        text@ == text_of(linear_lines(parameters.metric@, views(parameters.weights@))),
{
    encode_linear(parameters)
}

} // verus!
