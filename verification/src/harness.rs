use vstd::prelude::*;
use crate::naming::same_text;

verus! {

/// The kinds of model that can be trained.
#[derive(Clone, Copy, Debug, PartialEq, Eq, Structural)]
pub enum ModelKind {
    /// The linear discriminant.
    LinearClassifier,
    /// The radial-basis-function network.
    RBFNetwork,
    /// The multilayer perceptron.
    MultilayerPerceptron,
}

/// What a run does with its model.
#[derive(Clone, Copy, Debug, PartialEq, Eq, Structural)]
pub enum Mode {
    /// The model learns from the training split.
    Train,
    /// The model classifies an image.
    Predict,
}

/// The kind of model that a configuration names.
pub open spec fn kind_named(name: Seq<char>) -> Option<ModelKind> {
    if name == "linear_model"@ {
        Some(ModelKind::LinearClassifier)
    } else if name == "rbf_model"@ {
        Some(ModelKind::RBFNetwork)
    } else if name == "mlp_model"@ {
        Some(ModelKind::MultilayerPerceptron)
    } else {
        None
    }
}

/// The mode that a configuration names.
pub open spec fn mode_named(name: Seq<char>) -> Option<Mode> {
    if name == "train"@ {
        Some(Mode::Train)
    } else if name == "predict"@ {
        Some(Mode::Predict)
    } else {
        None
    }
}

/// The kind of model that a configuration names, where it names one.
pub fn model_kind(name: &str) -> (kind: Option<ModelKind>)
    ensures
        kind == kind_named(name@),
{
    if same_text(name, "linear_model") {
        Some(ModelKind::LinearClassifier)
    } else if same_text(name, "rbf_model") {
        Some(ModelKind::RBFNetwork)
    } else if same_text(name, "mlp_model") {
        Some(ModelKind::MultilayerPerceptron)
    } else {
        None
    }
}

/// The mode that a configuration names, where it names one.
pub fn run_mode(name: &str) -> (mode: Option<Mode>)
    ensures
        mode == mode_named(name@),
{
    if same_text(name, "train") {
        Some(Mode::Train)
    } else if same_text(name, "predict") {
        Some(Mode::Predict)
    } else {
        None
    }
}

/// Whether training stops before its budget is spent: it does where the cost
/// has risen since the last checkpoint, or has changed by less than the
/// tolerance. Each cost is given by an integer that grows with it.
pub fn stop_early(previous: i64, current: i64, within_tolerance: bool) -> (stop: bool)
    ensures
        stop == (within_tolerance || current > previous),
{
    within_tolerance || current > previous
}

/// The texts of `categories` that are not `target`, in their order.
pub open spec fn others_of(categories: Seq<String>, target: Seq<char>) -> Seq<String> {
    categories.filter(|c: String| c@ != target)
}

/// The categories that a model for `target` is trained against: all but
/// `target`, in their order.
pub fn non_target_categories(categories: &Vec<String>, target: &String) -> (others: Vec<String>)
    ensures
        others@ == others_of(categories@, target@),
{
    let mut others: Vec<String> = Vec::new();
    let mut i: usize = 0;
    proof {
        assert(categories@.take(0) =~= Seq::<String>::empty());
    }
    while i < categories.len()
        invariant
            i <= categories@.len(),
            others@ == others_of(categories@.take(i as int), target@),
        decreases categories@.len() - i,
    {
        proof {
            let keep = |c: String| c@ != target@;
            let next = categories@.take(i + 1);
            assert(next.drop_last() =~= categories@.take(i as int));
            assert(next.last() == categories@[i as int]);
            reveal(Seq::filter);
            assert(next.filter(keep) == if keep(next.last()) {
                next.drop_last().filter(keep).push(next.last())
            } else {
                next.drop_last().filter(keep)
            });
        }
        if categories[i] != *target {
            others.push(categories[i].clone());
        }
        i += 1;
    }
    proof {
        assert(categories@.take(categories@.len() as int) =~= categories@);
    }
    others
}

/// The greatest of `start` and the first `n` of `metrics`.
pub open spec fn best_of(start: i64, metrics: Seq<i64>, n: int) -> i64
    decreases n,
{
    if n <= 0 {
        start
    } else {
        let before = best_of(start, metrics, n - 1);
        if metrics[n - 1] > before {
            metrics[n - 1]
        } else {
            before
        }
    }
}

/// The record of a training run: the metric of each evaluation so far, and
/// the best metric that the saved parameters have reached. Each metric is an
/// integer that grows with it.
pub struct TrainingHarness {
    start: i64,
    watermark: i64,
    history: Vec<i64>,
}

impl TrainingHarness {
    /// The metric that the run started from.
    pub closed spec fn start(&self) -> i64 {
        self.start
    }

    /// The best metric that was saved.
    pub closed spec fn watermark(&self) -> i64 {
        self.watermark
    }

    /// The metrics that were recorded, oldest first.
    pub closed spec fn history(&self) -> Seq<i64> {
        self.history@
    }

    /// The watermark is the best of the start and of all that was recorded.
    pub open spec fn wf(&self) -> bool {
        self.watermark() == best_of(self.start(), self.history(), self.history().len() as int)
    }

    /// Starts a run from the metric of the parameters that are saved.
    pub fn new(saved: i64) -> (harness: TrainingHarness)
        ensures
            harness.wf(),
            harness.start() == saved,
            harness.watermark() == saved,
            harness.history() == Seq::<i64>::empty(),
    {
        TrainingHarness { start: saved, watermark: saved, history: Vec::new() }
    }

    /// The best metric that was saved.
    pub fn best(&self) -> (best: i64)
        ensures
            best == self.watermark(),
    {
        self.watermark
    }

    /// The number of evaluations that were recorded.
    pub fn epochs(&self) -> (count: usize)
        ensures
            count == self.history().len(),
    {
        self.history.len()
    }

    /// Records the metric of an evaluation and says whether the parameters
    /// are to be saved: they are where the metric is above the watermark, and
    /// only there, and the watermark then rises to it.
    pub fn record(&mut self, metric: i64) -> (save: bool)
        requires
            old(self).wf(),
        ensures
            final(self).wf(),
            save == (metric > old(self).watermark()),
            final(self).start() == old(self).start(),
            final(self).history() == old(self).history().push(metric),
            final(self).watermark() == (if save {
                metric
            } else {
                old(self).watermark()
            }),
    {
        let ghost before = self.history@;
        self.history.push(metric);
        proof {
            let n = before.len() as int;
            assert(self.history@.take(n) =~= before);
            lemma_best_of_prefix(self.start, before, self.history@, n);
        }
        if metric > self.watermark {
            self.watermark = metric;
            true
        } else {
            false
        }
    }
}

/// The best of the first `n` metrics depends on those `n` alone.
pub proof fn lemma_best_of_prefix(start: i64, a: Seq<i64>, b: Seq<i64>, n: int)
    requires
        0 <= n <= a.len(),
        n <= b.len(),
        forall|i: int| 0 <= i < n ==> a[i] == b[i],
    ensures
        best_of(start, a, n) == best_of(start, b, n),
    decreases n,
{
    if n > 0 {
        lemma_best_of_prefix(start, a, b, n - 1);
    }
}

/// The watermark never falls, and it is never below a metric that was recorded.
pub proof fn lemma_best_of_bounds(start: i64, metrics: Seq<i64>, n: int)
    requires
        0 <= n <= metrics.len(),
    ensures
        best_of(start, metrics, n) >= start,
        forall|i: int| 0 <= i < n ==> metrics[i] <= best_of(start, metrics, n),
    decreases n,
{
    if n > 0 {
        lemma_best_of_bounds(start, metrics, n - 1);
    }
}

} // verus!
