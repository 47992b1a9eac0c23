use vstd::prelude::*;

verus! {

/// What a training run is busy with.
#[derive(Clone, Copy, Debug, PartialEq, Eq, Structural)]
pub enum Stage {
    /// The examples of the current category are being loaded.
    Loading,
    /// The model of the current category is being trained.
    Training,
    /// The model of the current category is being evaluated.
    Evaluating,
    /// The parameters of the current category are being saved.
    Saving,
    /// Nothing is left to do.
    Finished,
}

/// What the run is told when the work it asked for has ended.
#[derive(Clone, Copy, Debug, PartialEq, Eq, Structural)]
pub enum Event {
    /// The work is done.
    Done,
    /// The evaluation is done; the metric on the held-out split is given by
    /// an integer that grows with it.
    Evaluated(i64),
    /// The work failed.
    Failed,
}

/// What the run asks for next.
#[derive(Clone, Copy, Debug, PartialEq, Eq, Structural)]
pub enum Action {
    /// Load the training and held-out examples of this category.
    Load(usize),
    /// Spend one budget of training on the model of this category.
    Train(usize),
    /// Evaluate the model of this category.
    Evaluate(usize),
    /// Save the parameters of the model of this category.
    Save(usize),
    /// Stop: the run is over.
    Stop,
}

/// A training run as contracts see it.
pub struct RunState {
    /// The number of rounds over the categories.
    pub epochs: nat,
    /// The round that is under way.
    pub epoch: nat,
    /// The category that is under way.
    pub category: nat,
    /// What the run is busy with.
    pub stage: Stage,
    /// For each category the best metric that was saved.
    pub watermarks: Seq<i64>,
    /// For each category whether its training was given up.
    pub aborted: Seq<bool>,
}

/// The first category from `from` on that was not given up, or the number of
/// categories where there is none.
pub open spec fn next_active(aborted: Seq<bool>, from: int) -> int
    decreases aborted.len() - from,
{
    if 0 <= from < aborted.len() && aborted[from] {
        next_active(aborted, from + 1)
    } else {
        from
    }
}

/// The run once the current category is done with for this round: on to the
/// next category that was not given up, or to the first such category of
/// the next round, or to the end.
pub open spec fn moved_on(s: RunState) -> RunState {
    let next = next_active(s.aborted, (s.category + 1) as int);
    let first = next_active(s.aborted, 0);
    if next < s.aborted.len() {
        RunState { category: next as nat, stage: Stage::Loading, ..s }
    } else if s.epoch + 1 < s.epochs && first < s.aborted.len() {
        RunState { epoch: s.epoch + 1, category: first as nat, stage: Stage::Loading, ..s }
    } else {
        RunState { stage: Stage::Finished, ..s }
    }
}

/// The run after `event`.
///
/// Loading, training and evaluating follow one another. After an evaluation
/// the parameters are saved where the metric is above the watermark of the
/// category, which then rises to it, and only there. A failure gives the
/// category up for the rest of the run. An event that the stage does not
/// wait for changes nothing.
pub open spec fn step(s: RunState, event: Event) -> RunState {
    match (s.stage, event) {
        (Stage::Finished, _) => s,
        (_, Event::Failed) => moved_on(
            RunState { aborted: s.aborted.update(s.category as int, true), ..s },
        ),
        (Stage::Loading, Event::Done) => RunState { stage: Stage::Training, ..s },
        (Stage::Training, Event::Done) => RunState { stage: Stage::Evaluating, ..s },
        (Stage::Evaluating, Event::Evaluated(metric)) => if metric > s.watermarks[s.category as int] {
            RunState {
                stage: Stage::Saving,
                watermarks: s.watermarks.update(s.category as int, metric),
                ..s
            }
        } else {
            moved_on(s)
        },
        (Stage::Saving, Event::Done) => moved_on(s),
        _ => s,
    }
}

/// Whether the event is an evaluation that the run waits for and whose metric
/// is above the watermark of the current category.
pub open spec fn improves(s: RunState, event: Event) -> bool {
    match event {
        Event::Evaluated(metric) => s.stage == Stage::Evaluating && metric
            > s.watermarks[s.category as int],
        _ => false,
    }
}

/// What the run asks for in this state.
pub open spec fn action_of(s: RunState) -> Action {
    match s.stage {
        Stage::Loading => Action::Load(s.category as usize),
        Stage::Training => Action::Train(s.category as usize),
        Stage::Evaluating => Action::Evaluate(s.category as usize),
        Stage::Saving => Action::Save(s.category as usize),
        Stage::Finished => Action::Stop,
    }
}

/// Whether the state is one that a run can be in: a watermark and a mark for
/// each category, and, until the run is over, a round within the budget and
/// a current category that was not given up.
pub open spec fn valid(s: RunState) -> bool {
    &&& s.watermarks.len() == s.aborted.len()
    &&& s.stage != Stage::Finished ==> {
        &&& s.epoch < s.epochs
        &&& s.category < s.aborted.len()
        &&& !s.aborted[s.category as int]
    }
}

/// How far the stage is from the end of its category: the events that it may
/// still take before the run moves on.
pub open spec fn stage_left(stage: Stage) -> nat {
    match stage {
        Stage::Loading => 4,
        Stage::Training => 3,
        Stage::Evaluating => 2,
        Stage::Saving => 1,
        Stage::Finished => 0,
    }
}

/// A bound on the events that the run may still take before it is over.
pub open spec fn events_left(s: RunState) -> nat {
    if s.stage == Stage::Finished {
        0
    } else {
        ((s.epochs - s.epoch - 1) * s.aborted.len() * 4 + (s.aborted.len() - s.category - 1) * 4
            + stage_left(s.stage)) as nat
    }
}

/// Whether the stage waits for the event.
pub open spec fn awaited(stage: Stage, event: Event) -> bool {
    match (stage, event) {
        (Stage::Finished, _) => false,
        (_, Event::Failed) => true,
        (Stage::Evaluating, Event::Evaluated(_)) => true,
        (Stage::Evaluating, Event::Done) => false,
        (_, Event::Done) => true,
        _ => false,
    }
}

/// A training run: which category is worked on in which round, what is asked
/// for next, and the best metric that each category has saved.
pub struct Run {
    epochs: usize,
    epoch: usize,
    category: usize,
    stage: Stage,
    watermarks: Vec<i64>,
    aborted: Vec<bool>,
}

impl View for Run {
    type V = RunState;

    closed spec fn view(&self) -> RunState {
        RunState {
            epochs: self.epochs as nat,
            epoch: self.epoch as nat,
            category: self.category as nat,
            stage: self.stage,
            watermarks: self.watermarks@,
            aborted: self.aborted@,
        }
    }
}

impl Run {
    /// Starts a run of `epochs` rounds over as many categories as there are
    /// watermarks: for each category the metric of the parameters that are
    /// saved for it.
    pub fn new(epochs: usize, watermarks: Vec<i64>) -> (run: Run)
        ensures
            valid(run@),
            run@.epochs == epochs,
            run@.epoch == 0,
            run@.category == 0,
            run@.watermarks == watermarks@,
            run@.aborted == Seq::new(watermarks@.len(), |i: int| false),
            run@.stage == (if epochs > 0 && watermarks@.len() > 0 {
                Stage::Loading
            } else {
                Stage::Finished
            }),
    {
        let mut aborted: Vec<bool> = Vec::new();
        let mut i: usize = 0;
        while i < watermarks.len()
            invariant
                i <= watermarks@.len(),
                aborted@ == Seq::new(i as nat, |j: int| false),
            decreases watermarks@.len() - i,
        {
            aborted.push(false);
            i += 1;
            proof {
                assert(aborted@ =~= Seq::new(i as nat, |j: int| false));
            }
        }
        let stage = if epochs > 0 && watermarks.len() > 0 {
            Stage::Loading
        } else {
            Stage::Finished
        };
        Run { epochs, epoch: 0, category: 0, stage, watermarks, aborted }
    }

    /// What the run asks for next.
    pub fn action(&self) -> (action: Action)
        ensures
            action == action_of(self@),
    {
        match self.stage {
            Stage::Loading => Action::Load(self.category),
            Stage::Training => Action::Train(self.category),
            Stage::Evaluating => Action::Evaluate(self.category),
            Stage::Saving => Action::Save(self.category),
            Stage::Finished => Action::Stop,
        }
    }

    /// The best metric that was saved for `category`.
    pub fn watermark(&self, category: usize) -> (best: i64)
        requires
            category < self@.watermarks.len(),
        ensures
            best == self@.watermarks[category as int],
    {
        self.watermarks[category]
    }

    /// Whether the training of `category` was given up.
    pub fn is_aborted(&self, category: usize) -> (yes: bool)
        requires
            category < self@.aborted.len(),
        ensures
            yes == self@.aborted[category as int],
    {
        self.aborted[category]
    }

    /// The first category from `from` on that was not given up.
    fn find_active(&self, from: usize) -> (found: usize)
        requires
            from <= self@.aborted.len(),
        ensures
            found == next_active(self@.aborted, from as int),
            from <= found <= self@.aborted.len(),
    {
        let mut i: usize = from;
        while i < self.aborted.len() && self.aborted[i]
            invariant
                from <= i <= self.aborted@.len(),
                next_active(self.aborted@, from as int) == next_active(self.aborted@, i as int),
            decreases self.aborted@.len() - i,
        {
            i += 1;
        }
        i
    }

    /// Leaves the current category for this round.
    fn move_on(&mut self)
        requires
            old(self)@.watermarks.len() == old(self)@.aborted.len(),
            old(self)@.category < old(self)@.aborted.len(),
            old(self)@.epoch < old(self)@.epochs,
        ensures
            final(self)@ == moved_on(old(self)@),
    {
        let count: usize = self.aborted.len();
        let next = self.find_active(self.category + 1);
        if next < count {
            self.category = next;
            self.stage = Stage::Loading;
            return ;
        }
        let first = self.find_active(0);
        if self.epoch + 1 < self.epochs && first < count {
            self.epoch = self.epoch + 1;
            self.category = first;
            self.stage = Stage::Loading;
        } else {
            self.stage = Stage::Finished;
        }
    }

    /// Takes the event that ends the work that was asked for, and moves the
    /// run to what comes next.
    pub fn advance(&mut self, event: Event)
        requires
            valid(old(self)@),
        ensures
            final(self)@ == step(old(self)@, event),
            valid(final(self)@),
            awaited(old(self)@.stage, event) ==> events_left(final(self)@) < events_left(
                old(self)@,
            ),
    {
        proof {
            lemma_step_valid(self@, event);
            if awaited(self@.stage, event) {
                lemma_step_progress(self@, event);
            }
        }
        match (self.stage, event) {
            (Stage::Finished, _) => {},
            (_, Event::Failed) => {
                let category = self.category;
                self.aborted.set(category, true);
                self.move_on();
            },
            (Stage::Loading, Event::Done) => {
                self.stage = Stage::Training;
            },
            (Stage::Training, Event::Done) => {
                self.stage = Stage::Evaluating;
            },
            (Stage::Evaluating, Event::Evaluated(metric)) => {
                if metric > self.watermarks[self.category] {
                    let category = self.category;
                    self.watermarks.set(category, metric);
                    self.stage = Stage::Saving;
                } else {
                    self.move_on();
                }
            },
            (Stage::Saving, Event::Done) => {
                self.move_on();
            },
            _ => {},
        }
    }
}

/// The first category that was not given up lies at or after the place the
/// search starts from, and is not given up.
proof fn lemma_next_active(aborted: Seq<bool>, from: int)
    requires
        0 <= from <= aborted.len(),
    ensures
        from <= next_active(aborted, from) <= aborted.len(),
        next_active(aborted, from) < aborted.len() ==> !aborted[next_active(aborted, from)],
    decreases aborted.len() - from,
{
    if from < aborted.len() && aborted[from] {
        lemma_next_active(aborted, from + 1);
    }
}

/// A run that moves on stays a run, and moves towards its end.
proof fn lemma_moved_on(s: RunState)
    requires
        s.watermarks.len() == s.aborted.len(),
        s.category < s.aborted.len(),
        s.epoch < s.epochs,
    ensures
        valid(moved_on(s)),
        moved_on(s).stage != Stage::Finished ==> events_left(moved_on(s)) + 4 <= (s.epochs
            - s.epoch - 1) * s.aborted.len() * 4 + (s.aborted.len() - s.category - 1) * 4 + 4,
{
    lemma_next_active(s.aborted, (s.category + 1) as int);
    lemma_next_active(s.aborted, 0);
    let n = s.aborted.len() as int;
    let next = next_active(s.aborted, (s.category + 1) as int);
    let first = next_active(s.aborted, 0);
    if next < n {
    } else if s.epoch + 1 < s.epochs && first < n {
        let a = s.epochs - s.epoch - 1;
        assert((a - 1) * n * 4 + n * 4 == a * n * 4) by (nonlinear_arith);
    }
}

/// Every event leaves a run a run.
pub proof fn lemma_step_valid(s: RunState, event: Event)
    requires
        valid(s),
    ensures
        valid(step(s, event)),
{
    if s.stage != Stage::Finished {
        lemma_moved_on(s);
        lemma_moved_on(RunState { aborted: s.aborted.update(s.category as int, true), ..s });
    }
}

/// Every event that the run waits for brings it nearer to its end: a run is
/// over after no more events than four for each category in each round.
pub proof fn lemma_step_progress(s: RunState, event: Event)
    requires
        valid(s),
        awaited(s.stage, event),
    ensures
        events_left(step(s, event)) < events_left(s),
{
    let n = s.aborted.len() as int;
    let a = s.epochs - s.epoch - 1;
    let b = n - s.category - 1;
    assert(a * n * 4 >= 0) by (nonlinear_arith)
        requires
            a >= 0,
            n >= 0,
    ;
    lemma_moved_on(s);
    lemma_moved_on(RunState { aborted: s.aborted.update(s.category as int, true), ..s });
}

/// The parameters of a category are saved exactly when an evaluation gives a
/// metric above its watermark, and no event lowers a watermark or takes up a
/// category again that was given up.
pub proof fn lemma_step_keeps_records(s: RunState, event: Event)
    requires
        valid(s),
    ensures
        step(s, event).watermarks.len() == s.watermarks.len(),
        step(s, event).aborted.len() == s.aborted.len(),
        forall|c: int|
            0 <= c < s.watermarks.len() ==> s.watermarks[c] <= #[trigger] step(
                s,
                event,
            ).watermarks[c],
        forall|c: int| 0 <= c < s.aborted.len() && s.aborted[c] ==> #[trigger] step(s, event).aborted[c],
        (s.stage != Stage::Saving && step(s, event).stage == Stage::Saving) <==> improves(s, event),
{
    if s.stage != Stage::Finished {
        lemma_moved_on(s);
        lemma_moved_on(RunState { aborted: s.aborted.update(s.category as int, true), ..s });
    }
}

} // verus!
