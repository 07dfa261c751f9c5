//! The drain run as a transition system over mathematical values.
//!
//! A run is a coordinator, the receive tasks it has launched and that are still
//! alive, the bounded channel, and the aggregator. Each atomic thing that one of
//! them does is a transition here; any order in which enabled transitions are taken
//! is an interleaving of the concurrent run. `RunView::inv` holds in every state
//! that can be reached.

use crate::aggregator::AggregationMode;
use crate::error::{IoError, QueueError, RoundFailure};
use vstd::multiset::Multiset;
use vstd::prelude::*;
use vstd::seq_lib::{lemma_multiset_commutative, to_multiset_build, to_multiset_len};

verus! {

/// Where a run stands.
#[derive(Clone, Copy, Debug, PartialEq, Eq, Structural)]
pub enum Phase {
    /// The queue's depth was asked for and is not known yet.
    AwaitingDepth,
    /// Rounds are launched, batches forwarded and messages collected.
    Draining,
    /// The collection was handed to the sink, whose answer is outstanding.
    AwaitingSink,
    /// Nothing more will happen.
    Finished,
}

/// How a finished run ended.
#[derive(Clone, Debug, PartialEq, Eq)]
pub enum Outcome {
    /// Every round was launched and answered with a batch, every message was
    /// collected, and in materialising mode the sink wrote them.
    Completed,
    /// The depth could not be had: no round was launched, the sink was not called.
    DepthFailed(QueueError),
    /// At least one round failed; the failures are listed in the report. The sink
    /// was not called.
    RoundsFailed,
    /// The run was cancelled before it was through. The sink was not called.
    Cancelled,
    /// The sink was called and failed.
    SinkFailed(IoError),
}

/// Most rounds a run can have: the largest depth the service can report.
pub const MAX_ROUNDS: u64 = 0x7fff_ffff_ffff_ffff;

/// A live receive task: its round, and the messages of its batch that it has still
/// to forward (`None` while the receive call has not returned).
pub struct TaskView<M> {
    pub round: nat,
    pub outbox: Option<Seq<M>>,
}

impl<M> TaskView<M> {
    /// The messages the task still holds, where a task whose call has not returned
    /// counts for `idle`.
    pub open spec fn weight(self, idle: nat) -> nat {
        match self.outbox {
            None => idle,
            Some(outbox) => outbox.len(),
        }
    }

    /// The messages the task has still to forward.
    pub open spec fn unsent(self) -> Seq<M> {
        match self.outbox {
            None => Seq::empty(),
            Some(outbox) => outbox,
        }
    }

    /// The messages the task has still to forward, their order set aside.
    pub open spec fn holding(self) -> Multiset<M> {
        match self.outbox {
            None => Multiset::empty(),
            Some(outbox) => outbox.to_multiset(),
        }
    }
}

/// The sum of the tasks' weights.
pub open spec fn load<M>(tasks: Seq<TaskView<M>>, idle: nat) -> nat
    decreases tasks.len(),
{
    if tasks.len() == 0 {
        0
    } else {
        load(tasks.drop_last(), idle) + tasks.last().weight(idle)
    }
}

pub proof fn lemma_load_push<M>(tasks: Seq<TaskView<M>>, task: TaskView<M>, idle: nat)
    ensures
        load(tasks.push(task), idle) == load(tasks, idle) + task.weight(idle),
{
    assert(tasks.push(task).drop_last() =~= tasks);
}

pub proof fn lemma_load_update<M>(tasks: Seq<TaskView<M>>, i: int, task: TaskView<M>, idle: nat)
    requires
        0 <= i < tasks.len(),
    ensures
        load(tasks.update(i, task), idle) + tasks[i].weight(idle) == load(tasks, idle) + task.weight(
            idle,
        ),
    decreases tasks.len(),
{
    if i == tasks.len() - 1 {
        assert(tasks.update(i, task).drop_last() =~= tasks.drop_last());
    } else {
        lemma_load_update(tasks.drop_last(), i, task, idle);
        assert(tasks.update(i, task).drop_last() =~= tasks.drop_last().update(i, task));
    }
}

pub proof fn lemma_load_remove<M>(tasks: Seq<TaskView<M>>, i: int, idle: nat)
    requires
        0 <= i < tasks.len(),
    ensures
        load(tasks.remove(i), idle) + tasks[i].weight(idle) == load(tasks, idle),
    decreases tasks.len(),
{
    if i == tasks.len() - 1 {
        assert(tasks.remove(i) =~= tasks.drop_last());
    } else {
        lemma_load_remove(tasks.drop_last(), i, idle);
        assert(tasks.remove(i).drop_last() =~= tasks.drop_last().remove(i));
        assert(tasks.remove(i).last() == tasks.last());
    }
}

/// The messages that the tasks have still to forward, their order set aside.
pub open spec fn bag<M>(tasks: Seq<TaskView<M>>) -> Multiset<M>
    decreases tasks.len(),
{
    if tasks.len() == 0 {
        Multiset::empty()
    } else {
        bag(tasks.drop_last()).add(tasks.last().holding())
    }
}

pub proof fn lemma_bag_push<M>(tasks: Seq<TaskView<M>>, task: TaskView<M>)
    ensures
        bag(tasks.push(task)) == bag(tasks).add(task.holding()),
{
    assert(tasks.push(task).drop_last() =~= tasks);
}

/// The tasks hold what one of them holds and what the others hold.
pub proof fn lemma_bag_remove<M>(tasks: Seq<TaskView<M>>, i: int)
    requires
        0 <= i < tasks.len(),
    ensures
        bag(tasks) == bag(tasks.remove(i)).add(tasks[i].holding()),
    decreases tasks.len(),
{
    broadcast use vstd::multiset::group_multiset_axioms;

    if i == tasks.len() - 1 {
        assert(tasks.remove(i) =~= tasks.drop_last());
    } else {
        lemma_bag_remove(tasks.drop_last(), i);
        assert(tasks.remove(i).drop_last() =~= tasks.drop_last().remove(i));
        assert(tasks.remove(i).last() == tasks.last());
        assert(tasks.drop_last()[i] == tasks[i]);
        assert(bag(tasks.remove(i)) == bag(tasks.drop_last().remove(i)).add(
            tasks.last().holding(),
        ));
        assert(bag(tasks) == bag(tasks.drop_last().remove(i)).add(tasks[i].holding()).add(
            tasks.last().holding(),
        ));
        assert(bag(tasks) =~= bag(tasks.remove(i)).add(tasks[i].holding()));
    }
}

/// With one task changed, the tasks hold what that one now holds and what the
/// others hold.
pub proof fn lemma_bag_update<M>(tasks: Seq<TaskView<M>>, i: int, task: TaskView<M>)
    requires
        0 <= i < tasks.len(),
    ensures
        bag(tasks.update(i, task)) == bag(tasks.remove(i)).add(task.holding()),
{
    lemma_bag_remove(tasks.update(i, task), i);
    assert(tasks.update(i, task).remove(i) =~= tasks.remove(i));
}

/// A sequence holds its first message and the messages of the rest.
pub proof fn lemma_front_message<M>(messages: Seq<M>)
    requires
        messages.len() > 0,
    ensures
        messages.to_multiset() == messages.drop_first().to_multiset().insert(messages[0]),
{
    broadcast use vstd::multiset::group_multiset_axioms;

    let front = Seq::<M>::empty().push(messages[0]);
    assert(front + messages.drop_first() =~= messages);
    lemma_multiset_commutative(front, messages.drop_first());
    to_multiset_build(Seq::<M>::empty(), messages[0]);
    lemma_nothing_held::<M>();
    assert(messages.to_multiset() =~= messages.drop_first().to_multiset().insert(messages[0]));
}

/// No messages, no multiset.
pub proof fn lemma_nothing_held<M>()
    ensures
        Seq::<M>::empty().to_multiset() == Multiset::<M>::empty(),
{
    broadcast use vstd::multiset::group_multiset_axioms;

    to_multiset_len(Seq::<M>::empty());
    vstd::multiset::lemma_multiset_empty_len(Seq::<M>::empty().to_multiset());
    assert(Seq::<M>::empty().to_multiset() =~= Multiset::<M>::empty());
}

/// The messages that the tasks have still to forward, the tasks taken in launch
/// order and each task's messages in the order of its batch.
pub open spec fn drained<M>(tasks: Seq<TaskView<M>>) -> Seq<M>
    decreases tasks.len(),
{
    if tasks.len() == 0 {
        Seq::empty()
    } else {
        tasks[0].unsent() + drained(tasks.drop_first())
    }
}

/// The tasks whose receive call has not returned, in launch order.
pub open spec fn waiting<M>(tasks: Seq<TaskView<M>>) -> Seq<TaskView<M>>
    decreases tasks.len(),
{
    if tasks.len() == 0 {
        Seq::empty()
    } else if tasks[0].outbox is None {
        seq![tasks[0]] + waiting(tasks.drop_first())
    } else {
        waiting(tasks.drop_first())
    }
}

pub proof fn lemma_waiting_len<M>(tasks: Seq<TaskView<M>>)
    ensures
        waiting(tasks).len() <= tasks.len(),
    decreases tasks.len(),
{
    if tasks.len() > 0 {
        lemma_waiting_len(tasks.drop_first());
    }
}

/// Where no task has anything to forward, nothing is to be drained and all wait.
pub proof fn lemma_all_waiting<M>(tasks: Seq<TaskView<M>>)
    requires
        forall|k: int| 0 <= k < tasks.len() ==> (#[trigger] tasks[k]).outbox is None,
    ensures
        waiting(tasks) == tasks,
        drained(tasks) == Seq::<M>::empty(),
    decreases tasks.len(),
{
    if tasks.len() > 0 {
        let rest = tasks.drop_first();
        assert forall|k: int| 0 <= k < rest.len() implies (#[trigger] rest[k]).outbox is None by {
            assert(rest[k] == tasks[k + 1]);
        }
        lemma_all_waiting(rest);
        assert(seq![tasks[0]] + rest =~= tasks);
        assert(tasks[0].unsent() + Seq::<M>::empty() =~= Seq::<M>::empty());
    } else {
        assert(tasks =~= Seq::<TaskView<M>>::empty());
    }
}

/// Taking out the first task that forwards takes its messages from the front of
/// what is to be drained, and leaves the waiting tasks as they are.
pub proof fn lemma_drained_remove<M>(tasks: Seq<TaskView<M>>, i: int)
    requires
        0 <= i < tasks.len(),
        forall|k: int| 0 <= k < i ==> (#[trigger] tasks[k]).outbox is None,
        tasks[i].outbox is Some,
    ensures
        drained(tasks) == tasks[i].unsent() + drained(tasks.remove(i)),
        waiting(tasks.remove(i)) == waiting(tasks),
    decreases i,
{
    let rest = tasks.drop_first();
    if i == 0 {
        assert(tasks.remove(0) =~= rest);
    } else {
        assert forall|k: int| 0 <= k < i - 1 implies (#[trigger] rest[k]).outbox is None by {
            assert(rest[k] == tasks[k + 1]);
        }
        assert(rest[i - 1] == tasks[i]);
        lemma_drained_remove(rest, i - 1);
        assert(tasks.remove(i).drop_first() =~= rest.remove(i - 1));
        assert(tasks.remove(i)[0] == tasks[0]);
        assert(tasks[0].outbox is None);
        assert(tasks[0].unsent() + drained(rest) =~= drained(rest));
        assert(tasks[0].unsent() + drained(rest.remove(i - 1)) =~= drained(rest.remove(i - 1)));
    }
}

/// Giving the first task that forwards other messages to forward puts those at the
/// front of what is to be drained, and leaves the waiting tasks as they are.
pub proof fn lemma_drained_update<M>(tasks: Seq<TaskView<M>>, i: int, task: TaskView<M>)
    requires
        0 <= i < tasks.len(),
        forall|k: int| 0 <= k < i ==> (#[trigger] tasks[k]).outbox is None,
        tasks[i].outbox is Some,
        task.outbox is Some,
    ensures
        drained(tasks.update(i, task)) == task.unsent() + drained(tasks.remove(i)),
        waiting(tasks.update(i, task)) == waiting(tasks),
    decreases i,
{
    let rest = tasks.drop_first();
    if i == 0 {
        assert(tasks.remove(0) =~= rest);
        assert(tasks.update(0, task).drop_first() =~= rest);
    } else {
        assert forall|k: int| 0 <= k < i - 1 implies (#[trigger] rest[k]).outbox is None by {
            assert(rest[k] == tasks[k + 1]);
        }
        assert(rest[i - 1] == tasks[i]);
        lemma_drained_update(rest, i - 1, task);
        assert(tasks.remove(i).drop_first() =~= rest.remove(i - 1));
        assert(tasks.update(i, task).drop_first() =~= rest.update(i - 1, task));
        assert(tasks.remove(i)[0] == tasks[0]);
        assert(tasks.update(i, task)[0] == tasks[0]);
        assert(tasks[0].outbox is None);
        assert(tasks[0].unsent() + drained(rest.update(i - 1, task)) =~= drained(
            rest.update(i - 1, task),
        ));
        assert(tasks[0].unsent() + drained(rest.remove(i - 1)) =~= drained(rest.remove(i - 1)));
    }
}

/// A run, mathematically.
pub struct RunView<M> {
    /// The most receive tasks alive at once, and the most messages in the channel.
    pub capacity: nat,
    pub mode: AggregationMode,
    pub phase: Phase,
    /// How the run ended, once it has.
    pub outcome: Option<Outcome>,
    /// The rounds to launch: the reported depth, or zero where that was negative.
    pub target: nat,
    /// The rounds launched so far; they are numbered from zero.
    pub launched: nat,
    /// No further round will be launched (a round was refused, or the run cancelled).
    pub stopped: bool,
    pub cancelled: bool,
    /// The live tasks, in launch order.
    pub tasks: Seq<TaskView<M>>,
    /// The messages in the channel, oldest first.
    pub channel: Seq<M>,
    /// The senders of the channel that are still out.
    pub senders: nat,
    /// The messages the aggregator was handed, oldest first.
    pub collected: Seq<M>,
    /// The number of messages in all batches received so far.
    pub received: nat,
    /// The messages of all batches received so far, in the order of their arrival.
    pub arrived: Seq<M>,
    /// The rounds that failed, in the order in which they did.
    pub failures: Seq<RoundFailure>,
    /// How often the collection was handed to the sink.
    pub sink_calls: nat,
}

impl<M> RunView<M> {
    /// A run that has just asked for the depth. The coordinator holds the one sender.
    pub open spec fn init(capacity: nat, mode: AggregationMode) -> Self {
        RunView {
            capacity,
            mode,
            phase: Phase::AwaitingDepth,
            outcome: None,
            target: 0,
            launched: 0,
            stopped: false,
            cancelled: false,
            tasks: Seq::empty(),
            channel: Seq::empty(),
            senders: 1,
            collected: Seq::empty(),
            received: 0,
            arrived: Seq::empty(),
            failures: Seq::empty(),
            sink_calls: 0,
        }
    }

    /// The coordinator still holds its own sender: it may launch another round.
    pub open spec fn coordinator_sends(self) -> bool {
        ||| self.phase is AwaitingDepth
        ||| self.phase is Draining && !self.stopped && self.launched < self.target
    }

    /// The channel is closed: no sender is out.
    pub open spec fn closed(self) -> bool {
        self.senders == 0
    }

    /// A task of this round is alive.
    pub open spec fn has_task(self, round: nat) -> bool {
        exists|i: int| 0 <= i < self.tasks.len() && (#[trigger] self.tasks[i]).round == round
    }

    /// Where the task of this round stands among the live tasks.
    pub open spec fn slot(self, round: nat) -> int {
        choose|i: int| 0 <= i < self.tasks.len() && (#[trigger] self.tasks[i]).round == round
    }

    /// Every message that is somewhere in the pipeline: with the aggregator, in the
    /// channel or with a task; their order set aside.
    pub open spec fn held(self) -> Multiset<M> {
        self.collected.to_multiset().add(self.channel.to_multiset()).add(bag(self.tasks))
    }

    /// The live tasks are numbered below `launched`, in rising order, and one that
    /// forwards has something left to forward.
    pub open spec fn tasks_ordered(self) -> bool {
        &&& forall|i: int|
            0 <= i < self.tasks.len() ==> (#[trigger] self.tasks[i]).round < self.launched
        &&& forall|i: int, j: int|
            0 <= i < j < self.tasks.len() ==> (#[trigger] self.tasks[i]).round < (
            #[trigger] self.tasks[j]).round
        &&& forall|i: int|
            0 <= i < self.tasks.len() ==> ((#[trigger] self.tasks[i]).outbox matches Some(outbox)
                ==> outbox.len() > 0)
    }

    /// What holds of every reachable state.
    pub open spec fn inv(self) -> bool {
        // the bounds
        &&& self.capacity >= 1
        &&& self.target <= MAX_ROUNDS
        &&& self.launched <= self.target
        &&& self.tasks.len() <= self.capacity
        &&& self.channel.len() <= self.capacity
        &&& self.tasks_ordered()
        // every live task holds one sender, and nobody else but the coordinator
        &&& self.senders == self.tasks.len() + if self.coordinator_sends() {
            1nat
        } else {
            0nat
        }
        // every received message is in exactly one place
        &&& self.received == self.collected.len() + self.channel.len() + load(self.tasks, 0)
        &&& self.launched == 0 ==> self.received == 0
        &&& self.received == self.arrived.len()
        &&& self.held() == self.arrived.to_multiset()
        // every failure is of a launched round that is no longer alive
        &&& self.failures.len() + self.tasks.len() <= self.launched
        &&& forall|k: int|
            0 <= k < self.failures.len() ==> (#[trigger] self.failures[k]).round < self.launched
        // the phases
        &&& (self.phase is Finished) == (self.outcome is Some)
        &&& self.phase is AwaitingDepth ==> self.target == 0 && !self.stopped
        &&& !(self.phase is Draining) ==> self.tasks.len() == 0 && self.channel.len() == 0
        &&& self.cancelled ==> self.stopped
        &&& self.stopped ==> self.cancelled || self.failures.len() > 0
        // the draining ends only when every round due was launched, unless stopped
        &&& (self.phase is AwaitingSink || self.phase is Finished) && !self.stopped
            ==> self.launched == self.target
        // the sink is called at most once, and only with the whole of a flawless run
        &&& self.sink_calls <= 1
        &&& self.sink_calls == 1 ==> {
            &&& self.mode is Materialize
            &&& self.failures.len() == 0
            &&& !self.stopped
            &&& self.launched == self.target
            &&& self.phase is AwaitingSink || self.phase is Finished
        }
        &&& self.phase is AwaitingSink ==> self.sink_calls == 1
        &&& match self.outcome {
            None => true,
            Some(Outcome::Completed) => {
                &&& self.failures.len() == 0
                &&& !self.stopped
                &&& self.launched == self.target
                &&& self.mode is Materialize ==> self.sink_calls == 1
            },
            Some(Outcome::DepthFailed(_)) => self.launched == 0 && self.sink_calls == 0,
            Some(Outcome::RoundsFailed) => self.failures.len() > 0 && self.sink_calls == 0,
            Some(Outcome::Cancelled) => self.cancelled && self.sink_calls == 0,
            Some(Outcome::SinkFailed(_)) => self.sink_calls == 1,
        }
    }

    /// A run starts in a state in which the invariant holds.
    pub proof fn lemma_init_inv(capacity: nat, mode: AggregationMode)
        requires
            capacity >= 1,
        ensures
            Self::init(capacity, mode).inv(),
    {
        broadcast use vstd::multiset::group_multiset_axioms;

        let start = Self::init(capacity, mode);
        lemma_nothing_held::<M>();
        assert(start.held() =~= Multiset::<M>::empty());
    }

    /// Among ordered tasks a round is found at one place only.
    pub proof fn lemma_slot(self, round: nat, i: int)
        requires
            self.tasks_ordered(),
            0 <= i < self.tasks.len(),
            self.tasks[i].round == round,
        ensures
            self.has_task(round),
            self.slot(round) == i,
    {
        let j = self.slot(round);
        assert(0 <= j < self.tasks.len() && self.tasks[j].round == round);
        if j < i {
            assert(self.tasks[j].round < self.tasks[i].round);
        } else if i < j {
            assert(self.tasks[i].round < self.tasks[j].round);
        }
    }

    // ------------------------------------------------------------------
    // the depth is known

    pub open spec fn awaits_depth(self) -> bool {
        self.phase is AwaitingDepth
    }

    /// The answer to the depth query has come. A depth sets the number of rounds
    /// (none for a depth of zero or below, and then the coordinator gives its sender
    /// back at once); an error ends the run.
    pub open spec fn after_depth(self, answer: Result<i64, QueueError>) -> Self {
        match answer {
            Ok(depth) => {
                let target: nat = if depth > 0 {
                    depth as nat
                } else {
                    0
                };
                RunView {
                    phase: Phase::Draining,
                    target,
                    senders: if target > 0 {
                        self.senders
                    } else {
                        (self.senders - 1) as nat
                    },
                    ..self
                }
            },
            Err(error) => RunView {
                phase: Phase::Finished,
                outcome: Some(Outcome::DepthFailed(error)),
                senders: (self.senders - 1) as nat,
                ..self
            },
        }
    }

    pub proof fn lemma_after_depth(self, answer: Result<i64, QueueError>)
        requires
            self.inv(),
            self.awaits_depth(),
        ensures
            self.after_depth(answer).inv(),
    {
        assert(self.tasks.len() == 0);
        assert(self.failures.len() == 0);
    }

    // ------------------------------------------------------------------
    // a round is launched

    /// Another round is due and fewer than `capacity` tasks are alive.
    pub open spec fn can_launch(self) -> bool {
        &&& self.phase is Draining
        &&& !self.stopped
        &&& self.launched < self.target
        &&& self.tasks.len() < self.capacity
    }

    /// The coordinator starts the next round: the new task gets a sender of its own,
    /// and with the last round the coordinator gives its own back.
    pub open spec fn after_launch(self) -> Self {
        RunView {
            launched: self.launched + 1,
            tasks: self.tasks.push(TaskView { round: self.launched, outbox: None }),
            senders: if self.launched + 1 == self.target {
                self.senders
            } else {
                self.senders + 1
            },
            ..self
        }
    }

    pub proof fn lemma_after_launch(self)
        requires
            self.inv(),
            self.can_launch(),
        ensures
            self.after_launch().inv(),
    {
        broadcast use vstd::multiset::group_multiset_axioms;

        let next = self.after_launch();
        lemma_load_push(self.tasks, TaskView { round: self.launched, outbox: None }, 0);
        lemma_bag_push(self.tasks, TaskView { round: self.launched, outbox: None });
        assert(next.held() =~= self.held());
        assert(next.tasks_ordered());
        assert(self.sink_calls == 0);
    }

    // ------------------------------------------------------------------
    // a receive call returns

    /// The task of this round is alive and its receive call has not returned.
    pub open spec fn awaits_batch(self, round: nat) -> bool {
        self.has_task(round) && self.tasks[self.slot(round)].outbox is None
    }

    /// The run once no further round will be launched: the coordinator gives its
    /// sender back if it still has it.
    pub open spec fn halted(self) -> Self {
        RunView {
            stopped: true,
            senders: if self.coordinator_sends() {
                (self.senders - 1) as nat
            } else {
                self.senders
            },
            ..self
        }
    }

    /// The task of this round ends, giving its sender back.
    pub open spec fn without_task(self, round: nat) -> Self {
        RunView {
            tasks: self.tasks.remove(self.slot(round)),
            senders: (self.senders - 1) as nat,
            ..self
        }
    }

    /// The receive call of this round has returned. A batch becomes what the task
    /// has to forward; with an empty batch, or an error, the task ends. An error is
    /// recorded, and a refusal of the credentials stops the launching of rounds.
    pub open spec fn after_batch(self, round: nat, answer: Result<Seq<M>, QueueError>) -> Self {
        match answer {
            Ok(batch) => if batch.len() == 0 {
                self.without_task(round)
            } else {
                RunView {
                    tasks: self.tasks.update(
                        self.slot(round),
                        TaskView { round, outbox: Some(batch) },
                    ),
                    received: self.received + batch.len(),
                    arrived: self.arrived + batch,
                    ..self
                }
            },
            Err(error) => {
                let failed = RunView {
                    failures: self.failures.push(RoundFailure { round: round as u64, error }),
                    ..self.without_task(round)
                };
                if error == QueueError::Unauthorized {
                    failed.halted()
                } else {
                    failed
                }
            },
        }
    }

    proof fn lemma_without_task(self, round: nat)
        requires
            self.inv(),
            self.has_task(round),
            self.tasks[self.slot(round)].outbox is None,
        ensures
            self.without_task(round).inv(),
            self.without_task(round).failures.len() + self.without_task(round).tasks.len()
                < self.launched,
    {
        broadcast use vstd::multiset::group_multiset_axioms;

        let i = self.slot(round);
        let next = self.without_task(round);
        lemma_load_remove(self.tasks, i, 0);
        lemma_bag_remove(self.tasks, i);
        assert(next.held() =~= self.held());
        assert forall|k: int| 0 <= k < next.tasks.len() implies #[trigger] next.tasks[k]
            == self.tasks[if k < i {
            k
        } else {
            k + 1
        }] by {}
        assert(next.tasks_ordered());
        assert(self.phase is Draining);
    }

    pub proof fn lemma_after_batch(self, round: nat, answer: Result<Seq<M>, QueueError>)
        requires
            self.inv(),
            self.awaits_batch(round),
        ensures
            self.after_batch(round, answer).inv(),
    {
        let i = self.slot(round);
        let next = self.after_batch(round, answer);
        assert(self.phase is Draining);
        assert(self.sink_calls == 0);
        match answer {
            Ok(batch) => {
                if batch.len() == 0 {
                    self.lemma_without_task(round);
                } else {
                    broadcast use vstd::multiset::group_multiset_axioms;

                    lemma_load_update(self.tasks, i, TaskView { round, outbox: Some(batch) }, 0);
                    lemma_bag_update(self.tasks, i, TaskView { round, outbox: Some(batch) });
                    lemma_bag_remove(self.tasks, i);
                    lemma_multiset_commutative(self.arrived, batch);
                    assert(self.tasks[i].holding() == Multiset::<M>::empty());
                    assert((TaskView { round, outbox: Some(batch) }).holding()
                        == batch.to_multiset());
                    assert(next.held() =~= self.held().add(batch.to_multiset()));
                    assert(next.tasks_ordered());
                }
            },
            Err(error) => {
                self.lemma_without_task(round);
                let gone = self.without_task(round);
                let failed = RunView {
                    failures: self.failures.push(RoundFailure { round: round as u64, error }),
                    ..gone
                };
                assert(failed.tasks_ordered());
                assert(round < self.launched);
                assert(failed.held() == gone.held());
                assert(failed.inv());
                if error == QueueError::Unauthorized {
                    assert(failed.halted().tasks_ordered());
                    assert(failed.halted().held() == gone.held());
                }
            },
        }
    }

    // ------------------------------------------------------------------
    // a task forwards a message

    /// The task of this round has a message to forward and the channel has room.
    pub open spec fn can_forward(self, round: nat) -> bool {
        &&& self.has_task(round)
        &&& self.tasks[self.slot(round)].outbox is Some
        &&& self.channel.len() < self.capacity
    }

    /// The task of this round puts its next message into the channel; with its last
    /// message it ends.
    pub open spec fn after_forward(self, round: nat) -> Self {
        let outbox = self.tasks[self.slot(round)].outbox->0;
        let sent = RunView { channel: self.channel.push(outbox[0]), ..self };
        if outbox.len() == 1 {
            sent.without_task(round)
        } else {
            RunView {
                tasks: self.tasks.update(
                    self.slot(round),
                    TaskView { round, outbox: Some(outbox.drop_first()) },
                ),
                ..sent
            }
        }
    }

    pub proof fn lemma_after_forward(self, round: nat)
        requires
            self.inv(),
            self.can_forward(round),
        ensures
            self.after_forward(round).inv(),
    {
        let i = self.slot(round);
        let outbox = self.tasks[i].outbox->0;
        let next = self.after_forward(round);
        assert(self.phase is Draining);
        assert(self.sink_calls == 0);
        assert(outbox.len() > 0);
        broadcast use vstd::multiset::group_multiset_axioms;

        lemma_front_message(outbox);
        to_multiset_build(self.channel, outbox[0]);
        assert(self.tasks[i].holding() == outbox.to_multiset());
        assert(next.channel.to_multiset() == self.channel.to_multiset().insert(outbox[0]));
        if outbox.len() == 1 {
            lemma_load_remove(self.tasks, i, 0);
            lemma_bag_remove(self.tasks, i);
            assert(outbox.drop_first() =~= Seq::<M>::empty());
            lemma_nothing_held::<M>();
            assert(next.held() =~= self.held());
            assert forall|k: int| 0 <= k < next.tasks.len() implies #[trigger] next.tasks[k]
                == self.tasks[if k < i {
                k
            } else {
                k + 1
            }] by {}
            assert(next.tasks_ordered());
        } else {
            lemma_load_update(
                self.tasks,
                i,
                TaskView { round, outbox: Some(outbox.drop_first()) },
                0,
            );
            lemma_bag_update(self.tasks, i, TaskView { round, outbox: Some(outbox.drop_first()) });
            lemma_bag_remove(self.tasks, i);
            assert((TaskView { round, outbox: Some(outbox.drop_first()) }).holding()
                == outbox.drop_first().to_multiset());
            assert(next.held() =~= self.held());
            assert(next.tasks_ordered());
        }
    }

    // ------------------------------------------------------------------
    // the aggregator takes a message

    pub open spec fn can_collect(self) -> bool {
        self.channel.len() > 0
    }

    /// The aggregator takes the oldest message out of the channel.
    pub open spec fn after_collect(self) -> Self {
        RunView {
            channel: self.channel.drop_first(),
            collected: self.collected.push(self.channel[0]),
            ..self
        }
    }

    pub proof fn lemma_after_collect(self)
        requires
            self.inv(),
            self.can_collect(),
        ensures
            self.after_collect().inv(),
    {
        broadcast use vstd::multiset::group_multiset_axioms;

        assert(self.phase is Draining);
        assert(self.sink_calls == 0);
        assert(self.after_collect().tasks_ordered());
        lemma_front_message(self.channel);
        to_multiset_build(self.collected, self.channel[0]);
        assert(self.after_collect().held() =~= self.held());
    }

    // ------------------------------------------------------------------
    // the aggregator is through

    /// The channel is closed and drained: the aggregator will see nothing more.
    pub open spec fn can_conclude(self) -> bool {
        &&& self.phase is Draining
        &&& self.closed()
        &&& self.channel.len() == 0
    }

    /// The run is over but for the sink. With a failed round, or cancelled, it ends
    /// without the sink being called; in counting mode it ends; in materialising
    /// mode the collection goes to the sink.
    pub open spec fn after_conclude(self) -> Self {
        if self.failures.len() > 0 {
            RunView { phase: Phase::Finished, outcome: Some(Outcome::RoundsFailed), ..self }
        } else if self.cancelled {
            RunView { phase: Phase::Finished, outcome: Some(Outcome::Cancelled), ..self }
        } else if self.mode is Materialize {
            RunView { phase: Phase::AwaitingSink, sink_calls: 1, ..self }
        } else {
            RunView { phase: Phase::Finished, outcome: Some(Outcome::Completed), ..self }
        }
    }

    pub proof fn lemma_after_conclude(self)
        requires
            self.inv(),
            self.can_conclude(),
        ensures
            self.after_conclude().inv(),
    {
        assert(self.tasks.len() == 0);
        assert(self.sink_calls == 0);
        assert(self.after_conclude().tasks_ordered());
    }

    // ------------------------------------------------------------------
    // the sink answers

    pub open spec fn awaits_sink(self) -> bool {
        self.phase is AwaitingSink
    }

    /// The sink has answered: the run ends, completed or failed.
    pub open spec fn after_sink(self, answer: Result<(), IoError>) -> Self {
        RunView {
            phase: Phase::Finished,
            outcome: Some(
                match answer {
                    Ok(_) => Outcome::Completed,
                    Err(error) => Outcome::SinkFailed(error),
                },
            ),
            ..self
        }
    }

    pub proof fn lemma_after_sink(self, answer: Result<(), IoError>)
        requires
            self.inv(),
            self.awaits_sink(),
        ensures
            self.after_sink(answer).inv(),
    {
        assert(self.after_sink(answer).tasks_ordered());
    }

    // ------------------------------------------------------------------
    // the run is cancelled

    pub open spec fn can_cancel(self) -> bool {
        self.phase is AwaitingDepth || self.phase is Draining
    }

    /// The run is cancelled. Before the depth is known it ends at once. Later no
    /// further round is launched; the live tasks go on to their end.
    pub open spec fn after_cancel(self) -> Self {
        if self.phase is AwaitingDepth {
            RunView {
                phase: Phase::Finished,
                outcome: Some(Outcome::Cancelled),
                stopped: true,
                cancelled: true,
                senders: (self.senders - 1) as nat,
                ..self
            }
        } else {
            RunView { cancelled: true, ..self.halted() }
        }
    }

    pub proof fn lemma_after_cancel(self)
        requires
            self.inv(),
            self.can_cancel(),
        ensures
            self.after_cancel().inv(),
    {
        assert(self.sink_calls == 0);
        assert(self.after_cancel().tasks_ordered());
    }

    // ------------------------------------------------------------------
    // the pipeline runs dry

    /// The run after every message that a task or the channel holds has reached the
    /// aggregator: first those in the channel, then those of the tasks, in launch
    /// order. The tasks that had something to forward have ended; those whose
    /// receive call has not returned are left.
    pub open spec fn settled(self) -> Self {
        RunView {
            tasks: waiting(self.tasks),
            channel: Seq::empty(),
            collected: self.collected + self.channel + drained(self.tasks),
            senders: (self.senders - (self.tasks.len() - waiting(self.tasks).len())) as nat,
            ..self
        }
    }

    /// A state in which nothing is held back is its own settled state.
    pub proof fn lemma_settled_is_fixed(self)
        requires
            self.channel.len() == 0,
            forall|k: int| 0 <= k < self.tasks.len() ==> (#[trigger] self.tasks[k]).outbox is None,
        ensures
            self.settled() == self,
    {
        lemma_all_waiting(self.tasks);
        assert(self.collected + self.channel + drained(self.tasks) =~= self.collected);
        assert(self.channel =~= Seq::<M>::empty());
    }

    /// The aggregator taking a message is a step towards the settled state.
    pub proof fn lemma_collect_settles(self)
        requires
            self.inv(),
            self.can_collect(),
        ensures
            self.after_collect().settled() == self.settled(),
    {
        let next = self.after_collect();
        assert(next.collected + next.channel + drained(next.tasks) =~= self.collected
            + self.channel + drained(self.tasks));
    }

    /// With the channel empty, the first task that has a message forwarding it is a
    /// step towards the settled state.
    pub proof fn lemma_forward_settles(self, i: int)
        requires
            self.inv(),
            self.channel.len() == 0,
            0 <= i < self.tasks.len(),
            forall|k: int| 0 <= k < i ==> (#[trigger] self.tasks[k]).outbox is None,
            self.tasks[i].outbox is Some,
        ensures
            self.can_forward(self.tasks[i].round),
            self.slot(self.tasks[i].round) == i,
            self.after_forward(self.tasks[i].round).settled() == self.settled(),
    {
        let round = self.tasks[i].round;
        self.lemma_slot(round, i);
        let outbox = self.tasks[i].outbox->0;
        let next = self.after_forward(round);
        lemma_drained_remove(self.tasks, i);
        lemma_waiting_len(self.tasks);
        assert(outbox.len() > 0);
        if outbox.len() == 1 {
            assert(next.tasks == self.tasks.remove(i));
            assert(seq![outbox[0]] =~= outbox);
            assert(next.collected + next.channel + drained(next.tasks) =~= self.collected
                + self.channel + drained(self.tasks));
        } else {
            let task = TaskView { round, outbox: Some(outbox.drop_first()) };
            lemma_drained_update(self.tasks, i, task);
            assert(next.tasks == self.tasks.update(i, task));
            assert(seq![outbox[0]] + outbox.drop_first() =~= outbox);
            assert(next.collected + next.channel + drained(next.tasks) =~= self.collected
                + self.channel + drained(self.tasks));
        }
    }

    // ------------------------------------------------------------------
    // what to do next

    /// The run after the coordinator has looked for the next thing to do. While
    /// draining, the pipeline runs dry; then the next round is launched if one can
    /// be; if none can and no task is alive, the draining is over.
    pub open spec fn scheduled(self) -> Self {
        if self.phase is Draining {
            let settled = self.settled();
            if settled.can_launch() {
                settled.after_launch()
            } else if settled.tasks.len() > 0 {
                settled
            } else {
                settled.after_conclude()
            }
        } else {
            self
        }
    }

    // ------------------------------------------------------------------
    // runs

    /// Whether the event can happen in this state.
    pub open spec fn enabled(self, event: Event<M>) -> bool {
        match event {
            Event::Depth(_) => self.awaits_depth(),
            Event::Launch => self.can_launch(),
            Event::Batch(round, _) => self.awaits_batch(round),
            Event::Forward(round) => self.can_forward(round),
            Event::Collect => self.can_collect(),
            Event::Conclude => self.can_conclude(),
            Event::Sink(_) => self.awaits_sink(),
            Event::Cancel => self.can_cancel(),
        }
    }

    /// The state after the event; an event that cannot happen changes nothing.
    pub open spec fn step(self, event: Event<M>) -> Self {
        if !self.enabled(event) {
            self
        } else {
            match event {
                Event::Depth(answer) => self.after_depth(answer),
                Event::Launch => self.after_launch(),
                Event::Batch(round, answer) => self.after_batch(round, answer),
                Event::Forward(round) => self.after_forward(round),
                Event::Collect => self.after_collect(),
                Event::Conclude => self.after_conclude(),
                Event::Sink(answer) => self.after_sink(answer),
                Event::Cancel => self.after_cancel(),
            }
        }
    }

    /// The state after the events, the first of them first.
    pub open spec fn run(self, events: Seq<Event<M>>) -> Self
        decreases events.len(),
    {
        if events.len() == 0 {
            self
        } else {
            self.run(events.drop_last()).step(events.last())
        }
    }

    /// Some events lead from this state to the other.
    pub open spec fn reaches(self, other: Self) -> bool {
        exists|events: Seq<Event<M>>| #[trigger] self.run(events) == other
    }

    pub proof fn lemma_run_push(self, events: Seq<Event<M>>, event: Event<M>)
        ensures
            self.run(events.push(event)) == self.run(events).step(event),
    {
        assert(events.push(event).drop_last() =~= events);
    }

    pub proof fn lemma_reaches_itself(self)
        ensures
            self.reaches(self),
    {
        assert(self.run(Seq::empty()) == self);
    }

    pub proof fn lemma_reaches_step(self, middle: Self, event: Event<M>)
        requires
            self.reaches(middle),
        ensures
            self.reaches(middle.step(event)),
    {
        let events = choose|events: Seq<Event<M>>| #[trigger] self.run(events) == middle;
        self.lemma_run_push(events, event);
        assert(self.run(events.push(event)) == middle.step(event));
    }
}

/// One atomic thing that happens in a run.
pub enum Event<M> {
    /// The depth query is answered.
    Depth(Result<i64, QueueError>),
    /// The coordinator launches the next round.
    Launch,
    /// The receive call of a round returns.
    Batch(nat, Result<Seq<M>, QueueError>),
    /// The task of a round puts its next message into the channel.
    Forward(nat),
    /// The aggregator takes a message out of the channel.
    Collect,
    /// The aggregator finds the channel closed and drained.
    Conclude,
    /// The sink answers.
    Sink(Result<(), IoError>),
    /// The run is cancelled.
    Cancel,
}

} // verus!
