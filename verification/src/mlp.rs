use vstd::prelude::*;
use crate::error::ModelError;

verus! {

/// Whether `widths` describes a network: an input layer, an output layer, and
/// no layer without neurons.
pub open spec fn valid_topology(widths: Seq<usize>) -> bool {
    widths.len() >= 2 && forall|i: int| 0 <= i < widths.len() ==> #[trigger] widths[i] > 0
}

/// Whether `k` is the place of the greatest of `keys`, and the first such place.
pub open spec fn is_first_max(keys: Seq<i64>, k: int) -> bool {
    &&& 0 <= k < keys.len()
    &&& forall|j: int| 0 <= j < keys.len() ==> #[trigger] keys[j] <= keys[k]
    &&& forall|j: int| 0 <= j < k ==> #[trigger] keys[j] < keys[k]
}

/// Whether the rows listed in `shape`, layer by layer and each by its length,
/// are those of a network of these `widths`: one matrix for each step from a
/// layer to the next, with a row for the bias and one for each neuron of the
/// layer that feeds it, and in each row one weight for each neuron that is fed.
pub open spec fn shape_fits(widths: Seq<usize>, shape: Seq<Seq<usize>>) -> bool {
    &&& shape.len() == widths.len() - 1
    &&& forall|l: int|
        0 <= l < shape.len() ==> (#[trigger] shape[l]).len() == widths[l] + 1
    &&& forall|l: int, r: int|
        0 <= l < shape.len() && 0 <= r < shape[l].len() ==> #[trigger] shape[l][r] == widths[l + 1]
}

/// What a list of row lengths holds, layer by layer.
pub open spec fn shape_of(rows: Seq<Vec<usize>>) -> Seq<Seq<usize>> {
    Seq::new(rows.len(), |l: int| rows[l]@)
}

/// The steps of one training example, in the order in which they are due.
#[derive(Clone, Copy, Debug, PartialEq, Eq, Structural)]
pub enum Phase {
    /// No example is under way: a forward pass is due.
    Ready,
    /// The outputs of the example are cached: the backward pass is due.
    Forwarded,
    /// The deltas of the example are known: the weight update is due.
    Backpropagated,
}

/// The operations that make up one training step.
#[derive(Clone, Copy, Debug, PartialEq, Eq, Structural)]
pub enum Operation {
    /// Computing the outputs of every layer.
    ForwardPropagate,
    /// Computing the deltas of every layer.
    BackwardPropagateError,
    /// Moving the weights along the deltas.
    UpdateWeights,
}

/// The phase that `operation` leads to from `phase`, where it is due there.
pub open spec fn phase_after(phase: Phase, operation: Operation) -> Option<Phase> {
    match (phase, operation) {
        (Phase::Ready, Operation::ForwardPropagate) => Some(Phase::Forwarded),
        (Phase::Forwarded, Operation::BackwardPropagateError) => Some(Phase::Backpropagated),
        (Phase::Backpropagated, Operation::UpdateWeights) => Some(Phase::Ready),
        _ => None,
    }
}

/// The layout of a multilayer perceptron: how many neurons each layer has,
/// from the input layer to the output layer.
pub struct MLP {
    neurons_per_layer: Vec<usize>,
}

impl MLP {
    /// The widths of the layers, input layer first.
    pub closed spec fn widths(&self) -> Seq<usize> {
        self.neurons_per_layer@
    }

    /// The layout is a valid topology, and each width leaves room for a bias.
    pub open spec fn wf(&self) -> bool {
        valid_topology(self.widths()) && forall|i: int|
            0 <= i < self.widths().len() ==> #[trigger] self.widths()[i] < usize::MAX
    }

    /// Lays out a network with the given number of neurons in each layer.
    ///
    /// Fewer than two layers, or a layer without neurons, is an invalid
    /// topology.
    pub fn new(neurons_per_layer: Vec<usize>) -> (r: Result<MLP, ModelError>)
        requires
            forall|i: int|
                0 <= i < neurons_per_layer@.len() ==> #[trigger] neurons_per_layer@[i]
                    < usize::MAX,
        ensures
            match r {
                Ok(m) => valid_topology(neurons_per_layer@) && m.widths() == neurons_per_layer@
                    && m.wf(),
                Err(e) => e == ModelError::InvalidTopology && !valid_topology(neurons_per_layer@),
            },
    {
        if neurons_per_layer.len() < 2 {
            return Err(ModelError::InvalidTopology);
        }
        let mut i: usize = 0;
        while i < neurons_per_layer.len()
            invariant
                i <= neurons_per_layer@.len(),
                forall|j: int| 0 <= j < i ==> #[trigger] neurons_per_layer@[j] > 0,
            decreases neurons_per_layer@.len() - i,
        {
            if neurons_per_layer[i] == 0 {
                return Err(ModelError::InvalidTopology);
            }
            i += 1;
        }
        Ok(MLP { neurons_per_layer })
    }

    /// The number of weight matrices: one for each step from a layer to the next.
    pub fn layers(&self) -> (count: usize)
        requires
            self.wf(),
        ensures
            count == self.widths().len() - 1,
    {
        self.neurons_per_layer.len() - 1
    }

    /// The width of the input layer.
    pub fn input_width(&self) -> (width: usize)
        requires
            self.wf(),
        ensures
            width == self.widths()[0],
    {
        self.neurons_per_layer[0]
    }

    /// The width of the output layer.
    pub fn output_width(&self) -> (width: usize)
        requires
            self.wf(),
        ensures
            width == self.widths()[self.widths().len() - 1],
    {
        self.neurons_per_layer[self.neurons_per_layer.len() - 1]
    }

    /// The shape of the weight matrix of layer `layer`: a row for the bias and
    /// one for each input, and a column for each neuron.
    pub fn layer_shape(&self, layer: usize) -> (shape: (usize, usize))
        requires
            self.wf(),
            layer < self.widths().len() - 1,
        ensures
            shape.0 == self.widths()[layer as int] + 1,
            shape.1 == self.widths()[layer + 1],
    {
        let count: usize = self.neurons_per_layer.len();
        assert(layer + 1 < count);
        (self.neurons_per_layer[layer] + 1, self.neurons_per_layer[layer + 1])
    }

    /// Holds an input against the width of the input layer.
    pub fn check_input(&self, length: usize) -> (r: Result<(), ModelError>)
        requires
            self.wf(),
        ensures
            r.is_ok() == (length == self.widths()[0]),
            r.is_err() ==> r == Err::<(), ModelError>(ModelError::DimensionMismatch),
    {
        if length == self.neurons_per_layer[0] {
            Ok(())
        } else {
            Err(ModelError::DimensionMismatch)
        }
    }

    /// Holds weights, given by the length of each of their rows, against the
    /// layout: they are taken where every matrix has the shape of its layer.
    pub fn check_weights(&self, rows: &Vec<Vec<usize>>) -> (r: Result<(), ModelError>)
        requires
            self.wf(),
        ensures
            r.is_ok() == shape_fits(self.widths(), shape_of(rows@)),
            r.is_err() ==> r == Err::<(), ModelError>(ModelError::DimensionMismatch),
    {
        let ghost shape = shape_of(rows@);
        let count: usize = self.neurons_per_layer.len() - 1;
        if rows.len() != count {
            return Err(ModelError::DimensionMismatch);
        }
        let mut l: usize = 0;
        while l < count
            invariant
                self.wf(),
                l <= count,
                count == self.widths().len() - 1,
                count == rows@.len(),
                shape == shape_of(rows@),
                forall|k: int| 0 <= k < l ==> (#[trigger] shape[k]).len() == self.widths()[k] + 1,
                forall|k: int, r: int|
                    0 <= k < l && 0 <= r < shape[k].len() ==> #[trigger] shape[k][r]
                        == self.widths()[k + 1],
            decreases count - l,
        {
            let layer = &rows[l];
            assert(shape[l as int] == layer@);
            if layer.len() != self.neurons_per_layer[l] + 1 {
                return Err(ModelError::DimensionMismatch);
            }
            let width: usize = self.neurons_per_layer[l + 1];
            let mut r: usize = 0;
            while r < layer.len()
                invariant
                    r <= layer@.len(),
                    forall|q: int| 0 <= q < r ==> #[trigger] layer@[q] == width,
                    l < count,
                    count == rows@.len(),
                    shape == shape_of(rows@),
                    shape[l as int] == layer@,
                    width == self.widths()[l + 1],
                    count == self.widths().len() - 1,
                decreases layer@.len() - r,
            {
                if layer[r] != width {
                    assert(shape[l as int][r as int] != self.widths()[l + 1]);
                    return Err(ModelError::DimensionMismatch);
                }
                r += 1;
            }
            l += 1;
        }
        Ok(())
    }

    /// The class that the outputs speak for: the place of the greatest of
    /// them, and of the first where several are greatest. Each output is given
    /// by an integer that grows with it.
    pub fn predict(&self, outputs: &Vec<i64>) -> (r: Result<usize, ModelError>)
        requires
            self.wf(),
        ensures
            match r {
                Ok(k) => outputs@.len() == self.widths()[self.widths().len() - 1] && is_first_max(
                    outputs@,
                    k as int,
                ),
                Err(e) => e == ModelError::DimensionMismatch && outputs@.len()
                    != self.widths()[self.widths().len() - 1],
            },
    {
        if outputs.len() != self.output_width() {
            return Err(ModelError::DimensionMismatch);
        }
        Ok(first_max(outputs))
    }

    /// The name of the class at `predicted_index`, where `categories` has one.
    pub fn predict_image(&self, predicted_index: usize, categories: &Vec<String>) -> (r: Result<
        String,
        ModelError,
    >)
        ensures
            match r {
                Ok(name) => predicted_index < categories@.len() && name
                    == categories@[predicted_index as int],
                Err(e) => e == ModelError::DimensionMismatch && predicted_index
                    >= categories@.len(),
            },
    {
        if predicted_index < categories.len() {
            Ok(categories[predicted_index].clone())
        } else {
            Err(ModelError::DimensionMismatch)
        }
    }
}

/// The label of class `class` among `classes`: set at that place and nowhere else.
pub open spec fn one_hot_of(class: int, classes: int) -> Seq<bool> {
    Seq::new(classes as nat, |i: int| i == class)
}

/// Whether `expected` is set at `k` and nowhere before.
pub open spec fn is_first_set(expected: Seq<bool>, k: int) -> bool {
    0 <= k < expected.len() && expected[k] && forall|j: int| 0 <= j < k ==> !expected[j]
}

/// How many of the first `n` predicted classes are the expected ones.
pub open spec fn count_matches(predicted: Seq<usize>, expected: Seq<usize>, n: int) -> nat
    decreases n,
{
    if n <= 0 {
        0
    } else {
        let rest = count_matches(predicted, expected, n - 1);
        if predicted[n - 1] == expected[n - 1] {
            rest + 1
        } else {
            rest
        }
    }
}

/// The label of class `class` among `classes`.
pub fn one_hot(class: usize, classes: usize) -> (label: Vec<bool>)
    ensures
        label@ == one_hot_of(class as int, classes as int),
{
    let mut label: Vec<bool> = Vec::new();
    let mut i: usize = 0;
    while i < classes
        invariant
            i <= classes,
            label@ == one_hot_of(class as int, i as int),
        decreases classes - i,
    {
        label.push(i == class);
        i += 1;
        proof {
            assert(label@ =~= one_hot_of(class as int, i as int));
        }
    }
    label
}

/// The class that a label stands for: the first place at which it is set,
/// where it is set at all.
pub fn hot_index(expected: &Vec<bool>) -> (class: Option<usize>)
    ensures
        match class {
            Some(k) => is_first_set(expected@, k as int),
            None => forall|j: int| 0 <= j < expected@.len() ==> !expected@[j],
        },
{
    let mut i: usize = 0;
    while i < expected.len()
        invariant
            i <= expected@.len(),
            forall|j: int| 0 <= j < i ==> !expected@[j],
        decreases expected@.len() - i,
    {
        if expected[i] {
            return Some(i);
        }
        i += 1;
    }
    None
}

/// A label stands for the class it was made for.
pub proof fn lemma_one_hot_round_trip(class: int, classes: int)
    requires
        0 <= class < classes,
    ensures
        is_first_set(one_hot_of(class, classes), class),
        forall|k: int| is_first_set(one_hot_of(class, classes), k) ==> k == class,
{
}

/// Counts the predicted classes that are the expected ones, and the examples:
/// the accuracy, as a fraction.
///
/// Without an example there is nothing to evaluate: that is an empty
/// dataset. Predictions that are not one for each example are a dimension
/// mismatch.
pub fn evaluate_model(predicted: &Vec<usize>, expected: &Vec<usize>) -> (r: Result<
    (usize, usize),
    ModelError,
>)
    ensures
        match r {
            Ok(pair) => expected@.len() > 0 && predicted@.len() == expected@.len() && pair.0
                == count_matches(predicted@, expected@, expected@.len() as int) && pair.1
                == expected@.len(),
            Err(e) => if expected@.len() == 0 {
                e == ModelError::EmptyDataset
            } else {
                e == ModelError::DimensionMismatch && predicted@.len() != expected@.len()
            },
        },
{
    let n: usize = expected.len();
    if n == 0 {
        return Err(ModelError::EmptyDataset);
    }
    if predicted.len() != n {
        return Err(ModelError::DimensionMismatch);
    }
    let mut correct: usize = 0;
    let mut i: usize = 0;
    while i < n
        invariant
            i <= n,
            n == expected@.len(),
            n == predicted@.len(),
            correct <= i,
            correct == count_matches(predicted@, expected@, i as int),
        decreases n - i,
    {
        if predicted[i] == expected[i] {
            correct += 1;
        }
        i += 1;
    }
    Ok((correct, n))
}

/// The place of the greatest of `keys`, and of the first where several are greatest.
pub fn first_max(keys: &Vec<i64>) -> (k: usize)
    requires
        keys@.len() > 0,
    ensures
        is_first_max(keys@, k as int),
{
    let mut best: usize = 0;
    let mut i: usize = 1;
    while i < keys.len()
        invariant
            0 <= best < i <= keys@.len(),
            forall|j: int| 0 <= j < i ==> #[trigger] keys@[j] <= keys@[best as int],
            forall|j: int| 0 <= j < best ==> #[trigger] keys@[j] < keys@[best as int],
        decreases keys@.len() - i,
    {
        if keys[i] > keys[best] {
            best = i;
        }
        i += 1;
    }
    best
}

/// Takes `operation` in `phase`: the phase that follows, or nothing where the
/// operation is not the one that is due.
pub fn next_phase(phase: Phase, operation: Operation) -> (next: Option<Phase>)
    ensures
        next == phase_after(phase, operation),
{
    match (phase, operation) {
        (Phase::Ready, Operation::ForwardPropagate) => Some(Phase::Forwarded),
        (Phase::Forwarded, Operation::BackwardPropagateError) => Some(Phase::Backpropagated),
        (Phase::Backpropagated, Operation::UpdateWeights) => Some(Phase::Ready),
        _ => None,
    }
}

/// A whole training step is the three operations in their order, and no
/// other three: from `Ready` they lead back to `Ready` exactly when they are
/// the forward pass, the backward pass and the update.
pub proof fn lemma_training_step_order(first: Operation, second: Operation, third: Operation)
    ensures
        (phase_after(Phase::Ready, first) matches Some(p) && phase_after(p, second) matches Some(q)
            && phase_after(q, third) == Some(Phase::Ready)) <==> (first
            == Operation::ForwardPropagate && second == Operation::BackwardPropagateError && third
            == Operation::UpdateWeights),
{
}

} // verus!
