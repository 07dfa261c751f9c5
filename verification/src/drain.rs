//! The drain run, executable: one value that holds the coordinator's counters, the
//! live receive tasks, the channel and the aggregator, and that is moved from state
//! to state by the events of the run.
//!
//! The caller does the outside work (asks the queue service, calls the sink) and
//! reports each answer; everything the run decides, it decides here. Each method is
//! one transition of `RunView`, taken if it is enabled and refused otherwise.

use crate::aggregator::{AggregationMode, Aggregator};
use crate::channel::{Channel, RecvError};
use crate::error::{IoError, QueueError, RoundFailure};
use crate::model::{
    lemma_load_push, lemma_load_remove, lemma_load_update, load, Event, Outcome, Phase, RunView,
    TaskView, MAX_ROUNDS,
};
use vstd::prelude::*;

verus! {

/// No batch is longer than this.
pub const BATCH_LIMIT: u64 = 0xffff_ffff_ffff_ffff;

/// What `DrainRun::forward` did.
#[derive(Clone, Copy, Debug, PartialEq, Eq, Structural)]
pub enum ForwardOutcome {
    /// The task put its next message into the channel.
    Sent,
    /// The task has a message but the channel is full: it has to wait.
    Blocked,
    /// No live task of that round has anything to forward.
    Idle,
}

/// What `DrainRun::collect` did.
#[derive(Clone, Copy, Debug, PartialEq, Eq, Structural)]
pub enum CollectOutcome {
    /// The aggregator took the oldest message of the channel.
    Collected,
    /// The channel is empty but open: the aggregator has to wait.
    Empty,
    /// The channel is empty and closed: the aggregator is through.
    Closed,
}

/// What the caller of `DrainRun::next_action` has to do.
pub enum Action<M> {
    /// Ask the queue service for the approximate depth, and report the answer with
    /// `on_depth`.
    QueryDepth,
    /// Start the receive call of this round without waiting for it to return, and
    /// report its answer with `on_batch` when it has.
    Receive(u64),
    /// Nothing is to be started: wait for an outstanding answer and report it.
    Wait,
    /// Call the sink with this collection, once, and report the answer with
    /// `on_sink`.
    Write(Vec<M>),
    /// The run is over.
    Done,
}

/// A summary of a run, as far as it has come.
#[derive(Clone, Debug, PartialEq, Eq)]
pub struct DrainReport {
    /// How the run ended; `None` while it has not.
    pub outcome: Option<Outcome>,
    /// The rounds that were due.
    pub target_rounds: u64,
    /// The rounds that were launched.
    pub rounds_launched: u64,
    /// The rounds that failed and why, in the order in which they did.
    pub failures: Vec<RoundFailure>,
    /// The messages the aggregator was handed.
    pub messages_collected: u128,
    /// Whether the run was cancelled.
    pub cancelled: bool,
}

impl DrainReport {
    /// Whether the run has ended and did all it was to do.
    pub fn is_success(&self) -> (success: bool)
        ensures
            success == (self.outcome == Some(Outcome::Completed)),
    {
        match &self.outcome {
            Some(Outcome::Completed) => true,
            _ => false,
        }
    }
}

/// An outcome equal to the given one.
fn same_outcome(outcome: &Option<Outcome>) -> (copy: Option<Outcome>)
    ensures
        copy == *outcome,
{
    match outcome {
        None => None,
        Some(Outcome::Completed) => Some(Outcome::Completed),
        Some(Outcome::DepthFailed(error)) => Some(Outcome::DepthFailed(*error)),
        Some(Outcome::RoundsFailed) => Some(Outcome::RoundsFailed),
        Some(Outcome::Cancelled) => Some(Outcome::Cancelled),
        Some(Outcome::SinkFailed(error)) => Some(
            Outcome::SinkFailed(IoError { message: error.message.clone() }),
        ),
    }
}

/// The answer of a receive call, with the batch as a sequence.
pub open spec fn batch_view<M>(answer: Result<Vec<M>, QueueError>) -> Result<Seq<M>, QueueError> {
    match answer {
        Ok(batch) => Ok(batch@),
        Err(error) => Err(error),
    }
}

struct Producer<M> {
    round: u64,
    outbox: Option<Vec<M>>,
}

impl<M> Producer<M> {
    spec fn view(&self) -> TaskView<M> {
        TaskView {
            round: self.round as nat,
            outbox: match self.outbox {
                None => None,
                Some(outbox) => Some(outbox@),
            },
        }
    }
}

spec fn task_views<M>(tasks: Seq<Producer<M>>) -> Seq<TaskView<M>> {
    Seq::new(tasks.len(), |i: int| tasks[i].view())
}

pub struct DrainRun<M> {
    capacity: u16,
    phase: Phase,
    outcome: Option<Outcome>,
    target: u64,
    launched: u64,
    stopped: bool,
    cancelled: bool,
    tasks: Vec<Producer<M>>,
    channel: Channel<M>,
    aggregator: Aggregator<M>,
    failures: Vec<RoundFailure>,
    received: Ghost<nat>,
    arrived: Ghost<Seq<M>>,
}

impl<M> View for DrainRun<M> {
    type V = RunView<M>;

    closed spec fn view(&self) -> RunView<M> {
        RunView {
            capacity: self.capacity as nat,
            mode: self.aggregator@.mode,
            phase: self.phase,
            outcome: self.outcome,
            target: self.target as nat,
            launched: self.launched as nat,
            stopped: self.stopped,
            cancelled: self.cancelled,
            tasks: task_views(self.tasks@),
            channel: self.channel@.queue,
            senders: self.channel@.senders,
            collected: self.aggregator@.seen,
            received: self.received@,
            arrived: self.arrived@,
            failures: self.failures@,
            sink_calls: if self.aggregator@.delivered {
                1
            } else {
                0
            },
        }
    }
}

impl<M> DrainRun<M> {
    /// The parts fit together, and the counters have room.
    pub closed spec fn parts_wf(&self) -> bool {
        &&& self.channel.wf()
        &&& self.channel@.capacity == self.capacity
        &&& self.aggregator.wf()
        &&& forall|i: int|
            0 <= i < self.tasks@.len() ==> ((#[trigger] self.tasks@[i]).outbox matches Some(outbox)
                ==> outbox@.len() <= BATCH_LIMIT)
        &&& self@.collected.len() + self@.channel.len() + load(self@.tasks, BATCH_LIMIT as nat)
            <= self@.launched * BATCH_LIMIT
    }

    /// The run is in a state that can be reached.
    pub open spec fn wf(&self) -> bool {
        self@.inv() && self.parts_wf()
    }

    /// A run for at most `max_concurrency` receive tasks at a time, about to ask
    /// for the depth.
    pub fn new(max_concurrency: u16, mode: AggregationMode) -> (run: Self)
        requires
            max_concurrency >= 1,
        ensures
            run.wf(),
            run@ == RunView::<M>::init(max_concurrency as nat, mode),
    {
        let run = DrainRun {
            capacity: max_concurrency,
            phase: Phase::AwaitingDepth,
            outcome: None,
            target: 0,
            launched: 0,
            stopped: false,
            cancelled: false,
            tasks: Vec::new(),
            channel: Channel::new(max_concurrency as usize),
            aggregator: Aggregator::new(mode),
            failures: Vec::new(),
            received: Ghost(0),
            arrived: Ghost(Seq::empty()),
        };
        proof {
            RunView::<M>::lemma_init_inv(max_concurrency as nat, mode);
        }
        assert(run@.tasks =~= Seq::<TaskView<M>>::empty());
        assert(run@ == RunView::<M>::init(max_concurrency as nat, mode));
        run
    }

    /// Reports the answer to the depth query. Refused, with nothing changed, unless
    /// the run is waiting for it.
    pub fn on_depth(&mut self, answer: Result<i64, QueueError>) -> (accepted: bool)
        requires
            old(self).wf(),
        ensures
            final(self).wf(),
            accepted == old(self)@.awaits_depth(),
            final(self)@ == if accepted {
                old(self)@.after_depth(answer)
            } else {
                old(self)@
            },
            final(self)@ == old(self)@.step(Event::Depth(answer)),
    {
        match self.phase {
            Phase::AwaitingDepth => {},
            _ => {
                return false;
            },
        }
        proof {
            old(self)@.lemma_after_depth(answer);
        }
        match answer {
            Ok(depth) => {
                self.phase = Phase::Draining;
                if depth > 0 {
                    self.target = depth as u64;
                } else {
                    self.channel.drop_sender();
                }
            },
            Err(error) => {
                self.phase = Phase::Finished;
                self.outcome = Some(Outcome::DepthFailed(error));
                self.channel.drop_sender();
            },
        }
        assert(self@ == old(self)@.after_depth(answer));
        true
    }

    /// Where the task of `round` stands among the live tasks, if it is alive.
    fn position(&self, round: u64) -> (found: Option<usize>)
        requires
            self.wf(),
        ensures
            match found {
                Some(i) => {
                    &&& i < self.tasks@.len()
                    &&& self.tasks@[i as int].round == round
                    &&& self@.has_task(round as nat)
                    &&& self@.slot(round as nat) == i
                },
                None => !self@.has_task(round as nat),
            },
    {
        let mut i: usize = 0;
        while i < self.tasks.len()
            invariant
                self.wf(),
                i <= self.tasks@.len(),
                self@.tasks.len() == self.tasks@.len(),
                forall|k: int| 0 <= k < i ==> (#[trigger] self@.tasks[k]).round != round,
            decreases self.tasks@.len() - i,
        {
            if self.tasks[i].round == round {
                proof {
                    assert(self@.tasks[i as int].round == round as nat);
                    self@.lemma_slot(round as nat, i as int);
                }
                return Some(i);
            }
            i = i + 1;
        }
        None
    }

    /// Launches the next round if one is due and fewer than the allowed number of
    /// tasks are alive, and returns its number; the caller then starts the receive
    /// call of that round. Otherwise nothing changes.
    pub fn launch(&mut self) -> (round: Option<u64>)
        requires
            old(self).wf(),
        ensures
            final(self).wf(),
            round is Some == old(self)@.can_launch(),
            round matches Some(number) ==> number == old(self)@.launched,
            final(self)@ == if round is Some {
                old(self)@.after_launch()
            } else {
                old(self)@
            },
            final(self)@ == old(self)@.step(Event::Launch),
    {
        let draining = match self.phase {
            Phase::Draining => true,
            _ => false,
        };
        if !draining || self.stopped || self.launched >= self.target || self.tasks.len()
            >= self.capacity as usize {
            return None;
        }
        proof {
            old(self)@.lemma_after_launch();
            lemma_load_push(
                old(self)@.tasks,
                TaskView { round: old(self)@.launched, outbox: None },
                BATCH_LIMIT as nat,
            );
        }
        let number = self.launched;
        let added = self.channel.add_sender();
        assert(added);
        self.tasks.push(Producer { round: number, outbox: None });
        self.launched = self.launched + 1;
        if self.launched == self.target {
            self.channel.drop_sender();
        }
        assert(self@.tasks =~= old(self)@.after_launch().tasks);
        assert(self@ == old(self)@.after_launch());
        Some(number)
    }

    /// Reports that the receive call of `round` has returned. A batch is from now on
    /// what the task has to forward; with an empty batch or an error the task ends,
    /// and an error is recorded. A refusal of the credentials stops the launching of
    /// rounds. Refused, with nothing changed, unless the task of `round` is alive
    /// and waiting for this.
    pub fn on_batch(&mut self, round: u64, answer: Result<Vec<M>, QueueError>) -> (accepted: bool)
        requires
            old(self).wf(),
        ensures
            final(self).wf(),
            accepted == old(self)@.awaits_batch(round as nat),
            final(self)@ == if accepted {
                old(self)@.after_batch(round as nat, batch_view(answer))
            } else {
                old(self)@
            },
            final(self)@ == old(self)@.step(Event::Batch(round as nat, batch_view(answer))),
    {
        let i = match self.position(round) {
            Some(i) => i,
            None => {
                return false;
            },
        };
        if self.tasks[i].outbox.is_some() {
            return false;
        }
        let ghost before = self@;
        let ghost answered = batch_view(answer);
        proof {
            before.lemma_after_batch(round as nat, answered);
            lemma_load_remove(before.tasks, i as int, BATCH_LIMIT as nat);
        }
        let task = self.tasks.remove(i);
        assert(task_views(self.tasks@) =~= before.tasks.remove(i as int));
        match answer {
            Ok(batch) => {
                let n = batch.len();
                if n == 0 {
                    self.channel.drop_sender();
                } else {
                    proof {
                        lemma_load_update(
                            before.tasks,
                            i as int,
                            TaskView { round: round as nat, outbox: Some(batch@) },
                            BATCH_LIMIT as nat,
                        );
                    }
                    self.arrived = Ghost(self.arrived@ + batch@);
                    self.tasks.insert(i, Producer { round, outbox: Some(batch) });
                    self.received = Ghost(self.received@ + n as nat);
                    assert(task_views(self.tasks@) =~= before.tasks.update(
                        i as int,
                        TaskView { round: round as nat, outbox: Some(batch@) },
                    ));
                }
            },
            Err(error) => {
                self.channel.drop_sender();
                self.failures.push(RoundFailure { round, error });
                if error.is_fatal() {
                    if !self.stopped && self.launched < self.target {
                        self.channel.drop_sender();
                    }
                    self.stopped = true;
                }
            },
        }
        assert(self@ == before.after_batch(round as nat, answered));
        true
    }

    /// Lets the task of `round` put its next message into the channel. With its
    /// last message the task ends. Nothing changes if the channel is full, or if no
    /// live task of that round has a message to forward.
    pub fn forward(&mut self, round: u64) -> (outcome: ForwardOutcome)
        requires
            old(self).wf(),
        ensures
            final(self).wf(),
            outcome is Sent == old(self)@.can_forward(round as nat),
            outcome is Blocked == (old(self)@.has_task(round as nat) && old(self)@.tasks[old(
                self,
            )@.slot(round as nat)].outbox is Some && old(self)@.channel.len() >= old(
                self,
            )@.capacity),
            final(self)@ == if outcome is Sent {
                old(self)@.after_forward(round as nat)
            } else {
                old(self)@
            },
            final(self)@ == old(self)@.step(Event::Forward(round as nat)),
    {
        let i = match self.position(round) {
            Some(i) => i,
            None => {
                return ForwardOutcome::Idle;
            },
        };
        if self.tasks[i].outbox.is_none() {
            return ForwardOutcome::Idle;
        }
        if self.channel.len() >= self.channel.capacity() {
            return ForwardOutcome::Blocked;
        }
        let ghost before = self@;
        proof {
            before.lemma_after_forward(round as nat);
            lemma_load_remove(before.tasks, i as int, BATCH_LIMIT as nat);
        }
        let task = self.tasks.remove(i);
        assert(task_views(self.tasks@) =~= before.tasks.remove(i as int));
        match task.outbox {
            Some(mut outbox) => {
                let ghost whole = outbox@;
                let message = outbox.remove(0);
                assert(outbox@ =~= whole.drop_first());
                match self.channel.try_send(message) {
                    Ok(_) => {},
                    Err(_) => {
                        assert(false);
                    },
                }
                if outbox.len() == 0 {
                    self.channel.drop_sender();
                } else {
                    proof {
                        lemma_load_update(
                            before.tasks,
                            i as int,
                            TaskView { round: round as nat, outbox: Some(outbox@) },
                            BATCH_LIMIT as nat,
                        );
                    }
                    self.tasks.insert(i, Producer { round, outbox: Some(outbox) });
                    assert(task_views(self.tasks@) =~= before.tasks.update(
                        i as int,
                        TaskView { round: round as nat, outbox: Some(whole.drop_first()) },
                    ));
                }
            },
            None => {
                assert(false);
            },
        }
        assert(self@ == before.after_forward(round as nat));
        ForwardOutcome::Sent
    }

    /// Lets the aggregator take the oldest message out of the channel. Without one,
    /// says whether the aggregator has to wait or is through.
    pub fn collect(&mut self) -> (outcome: CollectOutcome)
        requires
            old(self).wf(),
        ensures
            final(self).wf(),
            outcome is Collected == old(self)@.can_collect(),
            outcome is Closed == (!old(self)@.can_collect() && old(self)@.closed()),
            final(self)@ == if outcome is Collected {
                old(self)@.after_collect()
            } else {
                old(self)@
            },
            final(self)@ == old(self)@.step(Event::Collect),
    {
        let ghost before = self@;
        match self.channel.try_recv() {
            Ok(message) => {
                proof {
                    before.lemma_after_collect();
                    assert(before.launched * BATCH_LIMIT <= MAX_ROUNDS * BATCH_LIMIT);
                }
                self.aggregator.collect(message);
                assert(self@ == before.after_collect());
                CollectOutcome::Collected
            },
            Err(RecvError::Empty) => CollectOutcome::Empty,
            Err(RecvError::Closed) => CollectOutcome::Closed,
        }
    }

    /// Ends the draining once the channel is closed and drained, and hands out the
    /// collection if it is now due to the sink: that is in materialising mode, after
    /// a run without a failed round and without cancellation. The caller then calls
    /// the sink with it, once, and reports the answer with `on_sink`. In every other
    /// case nothing is handed out; before the channel is closed and drained nothing
    /// changes either.
    pub fn conclude(&mut self) -> (handed: Option<Vec<M>>)
        requires
            old(self).wf(),
        ensures
            final(self).wf(),
            final(self)@ == if old(self)@.can_conclude() {
                old(self)@.after_conclude()
            } else {
                old(self)@
            },
            final(self)@ == old(self)@.step(Event::Conclude),
            handed is Some == (old(self)@.can_conclude() && final(self)@.phase is AwaitingSink),
            handed matches Some(messages) ==> messages@ == old(self)@.collected,
    {
        let draining = match self.phase {
            Phase::Draining => true,
            _ => false,
        };
        if !draining || !self.channel.is_closed() || self.channel.len() != 0 {
            return None;
        }
        let ghost before = self@;
        proof {
            before.lemma_after_conclude();
        }
        if self.failures.len() > 0 {
            self.phase = Phase::Finished;
            self.outcome = Some(Outcome::RoundsFailed);
            assert(self@ == before.after_conclude());
            None
        } else if self.cancelled {
            self.phase = Phase::Finished;
            self.outcome = Some(Outcome::Cancelled);
            assert(self@ == before.after_conclude());
            None
        } else {
            match self.aggregator.mode() {
                AggregationMode::Materialize => {
                    self.phase = Phase::AwaitingSink;
                    let messages = self.aggregator.hand_over();
                    assert(self@ == before.after_conclude());
                    Some(messages)
                },
                AggregationMode::CountOnly => {
                    self.phase = Phase::Finished;
                    self.outcome = Some(Outcome::Completed);
                    assert(self@ == before.after_conclude());
                    None
                },
            }
        }
    }

    /// Reports the answer of the sink, which ends the run. Refused, with nothing
    /// changed, unless the run is waiting for it.
    pub fn on_sink(&mut self, answer: Result<(), IoError>) -> (accepted: bool)
        requires
            old(self).wf(),
        ensures
            final(self).wf(),
            accepted == old(self)@.awaits_sink(),
            final(self)@ == if accepted {
                old(self)@.after_sink(answer)
            } else {
                old(self)@
            },
            final(self)@ == old(self)@.step(Event::Sink(answer)),
    {
        match self.phase {
            Phase::AwaitingSink => {},
            _ => {
                return false;
            },
        }
        proof {
            old(self)@.lemma_after_sink(answer);
        }
        self.phase = Phase::Finished;
        self.outcome = Some(
            match answer {
                Ok(_) => Outcome::Completed,
                Err(error) => Outcome::SinkFailed(error),
            },
        );
        assert(self@ == old(self)@.after_sink(answer));
        true
    }

    /// Cancels the run: before the depth is known it ends at once; while draining,
    /// no further round is launched and the live tasks go on to their end. Refused,
    /// with nothing changed, once the draining is over.
    pub fn cancel(&mut self) -> (accepted: bool)
        requires
            old(self).wf(),
        ensures
            final(self).wf(),
            accepted == old(self)@.can_cancel(),
            final(self)@ == if accepted {
                old(self)@.after_cancel()
            } else {
                old(self)@
            },
            final(self)@ == old(self)@.step(Event::Cancel),
    {
        match self.phase {
            Phase::AwaitingDepth => {
                proof {
                    old(self)@.lemma_after_cancel();
                }
                self.phase = Phase::Finished;
                self.outcome = Some(Outcome::Cancelled);
                self.stopped = true;
                self.cancelled = true;
                self.channel.drop_sender();
                assert(self@ == old(self)@.after_cancel());
                true
            },
            Phase::Draining => {
                proof {
                    old(self)@.lemma_after_cancel();
                }
                if !self.stopped && self.launched < self.target {
                    self.channel.drop_sender();
                }
                self.stopped = true;
                self.cancelled = true;
                assert(self@ == old(self)@.after_cancel());
                true
            },
            _ => false,
        }
    }

    /// Lets the pipeline run dry: the aggregator takes what is in the channel, and
    /// then each task that has a batch forwards it, message by message through the
    /// channel, and ends. Tasks whose receive call has not returned are left.
    pub fn settle(&mut self)
        requires
            old(self).wf(),
        ensures
            final(self).wf(),
            final(self)@ == old(self)@.settled(),
            old(self)@.reaches(final(self)@),
    {
        proof {
            old(self)@.lemma_reaches_itself();
        }
        while self.channel.len() > 0
            invariant
                self.wf(),
                self@.settled() == old(self)@.settled(),
                old(self)@.reaches(self@),
            decreases self@.channel.len(),
        {
            proof {
                self@.lemma_collect_settles();
                old(self)@.lemma_reaches_step(self@, Event::Collect);
            }
            self.collect();
        }
        let mut i: usize = 0;
        while i < self.tasks.len()
            invariant
                self.wf(),
                self@.settled() == old(self)@.settled(),
                old(self)@.reaches(self@),
                self@.channel.len() == 0,
                self@.tasks.len() == self.tasks@.len(),
                i <= self.tasks@.len(),
                forall|k: int| 0 <= k < i ==> (#[trigger] self@.tasks[k]).outbox is None,
            decreases load(self@.tasks, 0) + self@.tasks.len() - i,
        {
            if self.tasks[i].outbox.is_none() {
                assert(self@.tasks[i as int].outbox is None);
                i = i + 1;
            } else {
                let round = self.tasks[i].round;
                let ghost before = self@;
                proof {
                    assert(before.tasks[i as int].outbox is Some);
                    assert(before.tasks[i as int].round == round as nat);
                    before.lemma_forward_settles(i as int);
                    old(self)@.lemma_reaches_step(before, Event::Forward(round as nat));
                }
                let sent = self.forward(round);
                assert(sent is Sent);
                let ghost between = self@;
                proof {
                    between.lemma_collect_settles();
                    old(self)@.lemma_reaches_step(between, Event::Collect);
                    assert forall|k: int| 0 <= k < i implies (#[trigger] between.tasks[k]).outbox
                        is None by {
                        assert(between.tasks[k] == before.tasks[k]);
                    }
                }
                self.collect();
                assert(self@.tasks == between.tasks);
            }
        }
        proof {
            self@.lemma_settled_is_fixed();
        }
    }

    /// Moves the run on as far as it can go by itself and says what the caller has
    /// to do next. While draining, the pipeline runs dry first; then the next round
    /// is launched if one can be (`Receive`); else, if a task is alive, its answer is
    /// to be waited for (`Wait`); else the draining is over, and the collection goes
    /// to the sink (`Write`) or the run has ended (`Done`).
    pub fn next_action(&mut self) -> (action: Action<M>)
        requires
            old(self).wf(),
        ensures
            final(self).wf(),
            final(self)@ == old(self)@.scheduled(),
            old(self)@.reaches(final(self)@),
            match action {
                Action::QueryDepth => old(self)@.phase is AwaitingDepth,
                Action::Receive(round) => {
                    &&& old(self)@.phase is Draining
                    &&& old(self)@.settled().can_launch()
                    &&& round == old(self)@.launched
                },
                Action::Wait => {
                    ||| old(self)@.phase is AwaitingSink
                    ||| {
                        &&& old(self)@.phase is Draining
                        &&& !old(self)@.settled().can_launch()
                        &&& old(self)@.settled().tasks.len() > 0
                    }
                },
                Action::Write(messages) => {
                    &&& old(self)@.phase is Draining
                    &&& !old(self)@.settled().can_launch()
                    &&& old(self)@.settled().tasks.len() == 0
                    &&& final(self)@.phase is AwaitingSink
                    &&& messages@ == final(self)@.collected
                },
                Action::Done => final(self)@.phase is Finished,
            },
    {
        proof {
            old(self)@.lemma_reaches_itself();
        }
        match self.phase {
            Phase::AwaitingDepth => Action::QueryDepth,
            Phase::AwaitingSink => Action::Wait,
            Phase::Finished => Action::Done,
            Phase::Draining => {
                self.settle();
                proof {
                    old(self)@.lemma_reaches_step(self@, Event::Launch);
                }
                match self.launch() {
                    Some(round) => Action::Receive(round),
                    None => {
                        if self.tasks.len() > 0 {
                            Action::Wait
                        } else {
                            assert(self@.can_conclude());
                            proof {
                                old(self)@.lemma_reaches_step(self@, Event::Conclude);
                            }
                            match self.conclude() {
                                Some(messages) => Action::Write(messages),
                                None => Action::Done,
                            }
                        }
                    },
                }
            },
        }
    }

    /// Where the run stands.
    pub fn phase(&self) -> (phase: Phase)
        ensures
            phase == self@.phase,
    {
        self.phase
    }

    /// How the run ended; `None` while it has not.
    pub fn outcome(&self) -> (outcome: Option<Outcome>)
        ensures
            outcome == self@.outcome,
    {
        same_outcome(&self.outcome)
    }

    /// The most receive tasks alive at once.
    pub fn max_concurrency(&self) -> (n: u16)
        ensures
            n == self@.capacity,
    {
        self.capacity
    }

    /// What the aggregator does with the messages.
    pub fn mode(&self) -> (mode: AggregationMode)
        ensures
            mode == self@.mode,
    {
        self.aggregator.mode()
    }

    /// The rounds that are due.
    pub fn target_rounds(&self) -> (n: u64)
        ensures
            n == self@.target,
    {
        self.target
    }

    /// The rounds launched so far.
    pub fn rounds_launched(&self) -> (n: u64)
        ensures
            n == self@.launched,
    {
        self.launched
    }

    /// The receive tasks that are alive.
    pub fn in_flight(&self) -> (n: usize)
        ensures
            n == self@.tasks.len(),
    {
        self.tasks.len()
    }

    /// The messages that are in the channel.
    pub fn in_channel(&self) -> (n: usize)
        requires
            self.wf(),
        ensures
            n == self@.channel.len(),
    {
        self.channel.len()
    }

    /// Whether the channel is closed: every sender was given back.
    pub fn is_closed(&self) -> (closed: bool)
        ensures
            closed == self@.closed(),
    {
        self.channel.is_closed()
    }

    /// The messages the aggregator was handed so far.
    pub fn messages_collected(&self) -> (n: u128)
        requires
            self.wf(),
        ensures
            n == self@.collected.len(),
    {
        self.aggregator.count()
    }

    /// The rounds that failed so far and why, in the order in which they did.
    pub fn failures(&self) -> (failures: Vec<RoundFailure>)
        ensures
            failures@ == self@.failures,
    {
        let mut failures: Vec<RoundFailure> = Vec::new();
        let mut k: usize = 0;
        while k < self.failures.len()
            invariant
                k <= self.failures@.len(),
                failures@ == self.failures@.take(k as int),
            decreases self.failures@.len() - k,
        {
            failures.push(self.failures[k]);
            assert(self.failures@.take(k as int).push(self.failures@[k as int])
                =~= self.failures@.take(k as int + 1));
            k = k + 1;
        }
        assert(self.failures@.take(k as int) =~= self.failures@);
        failures
    }

    /// The summary of the run as far as it has come.
    pub fn report(&self) -> (report: DrainReport)
        requires
            self.wf(),
        ensures
            report.outcome == self@.outcome,
            report.target_rounds == self@.target,
            report.rounds_launched == self@.launched,
            report.failures@ == self@.failures,
            report.messages_collected == self@.collected.len(),
            report.cancelled == self@.cancelled,
    {
        DrainReport {
            outcome: self.outcome(),
            target_rounds: self.target,
            rounds_launched: self.launched,
            failures: self.failures(),
            messages_collected: self.aggregator.count(),
            cancelled: self.cancelled,
        }
    }
}

} // verus!
