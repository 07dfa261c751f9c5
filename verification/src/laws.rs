//! What holds of every run, whatever the queue service answers and in whatever
//! order the tasks, the channel and the aggregator take their steps.

use crate::aggregator::AggregationMode;
use crate::error::QueueError;
use crate::model::{lemma_nothing_held, Event, Outcome, Phase, RunView, TaskView};
use vstd::prelude::*;

verus! {

/// The rounds that a reported depth asks for.
pub open spec fn rounds_for(depth: i64) -> nat {
    if depth > 0 {
        depth as nat
    } else {
        0
    }
}

/// The messages of the batches that the events deliver, in the order of their
/// arrival. A batch counts only where a task was waiting for it.
pub open spec fn delivered_messages<M>(start: RunView<M>, events: Seq<Event<M>>) -> Seq<M>
    decreases events.len(),
{
    if events.len() == 0 {
        Seq::empty()
    } else {
        delivered_messages(start, events.drop_last()) + match events.last() {
            Event::Batch(round, Ok(batch)) => if start.run(events.drop_last()).awaits_batch(
                round,
            ) {
                batch
            } else {
                Seq::empty()
            },
            _ => Seq::empty(),
        }
    }
}

/// The number of messages in the batches that the events deliver.
pub open spec fn delivered<M>(start: RunView<M>, events: Seq<Event<M>>) -> nat {
    delivered_messages(start, events).len()
}

/// A run starts in a state in which the invariant holds.
pub proof fn law_init_inv<M>(capacity: nat, mode: AggregationMode)
    requires
        capacity >= 1,
    ensures
        RunView::<M>::init(capacity, mode).inv(),
{
    RunView::<M>::lemma_init_inv(capacity, mode);
}

/// No event leads out of the states in which the invariant holds.
pub proof fn law_step_inv<M>(state: RunView<M>, event: Event<M>)
    requires
        state.inv(),
    ensures
        state.step(event).inv(),
{
    if state.enabled(event) {
        match event {
            Event::Depth(answer) => state.lemma_after_depth(answer),
            Event::Launch => state.lemma_after_launch(),
            Event::Batch(round, answer) => state.lemma_after_batch(round, answer),
            Event::Forward(round) => state.lemma_after_forward(round),
            Event::Collect => state.lemma_after_collect(),
            Event::Conclude => state.lemma_after_conclude(),
            Event::Sink(answer) => state.lemma_after_sink(answer),
            Event::Cancel => state.lemma_after_cancel(),
        }
    }
}

/// The invariant holds throughout every run.
pub proof fn law_run_inv<M>(state: RunView<M>, events: Seq<Event<M>>)
    requires
        state.inv(),
    ensures
        state.run(events).inv(),
    decreases events.len(),
{
    if events.len() > 0 {
        law_run_inv(state, events.drop_last());
        law_step_inv(state.run(events.drop_last()), events.last());
    }
}

/// Once the depth is known, nothing changes the number of rounds that are due, nor
/// the allowed number of tasks, nor the mode.
pub proof fn law_target_is_fixed<M>(state: RunView<M>, events: Seq<Event<M>>)
    requires
        !(state.phase is AwaitingDepth),
    ensures
        !(state.run(events).phase is AwaitingDepth),
        state.run(events).target == state.target,
        state.run(events).capacity == state.capacity,
        state.run(events).mode == state.mode,
    decreases events.len(),
{
    if events.len() > 0 {
        law_target_is_fixed(state, events.drop_last());
    }
}

/// Bounded fan-out: whatever happens, never more receive tasks are alive than the
/// job allows, never more messages are in the channel than that, and never more
/// rounds are launched than are due.
pub proof fn law_concurrency_is_bounded<M>(
    capacity: nat,
    mode: AggregationMode,
    events: Seq<Event<M>>,
)
    requires
        capacity >= 1,
    ensures
        RunView::<M>::init(capacity, mode).run(events).capacity == capacity,
        RunView::<M>::init(capacity, mode).run(events).tasks.len() <= capacity,
        RunView::<M>::init(capacity, mode).run(events).channel.len() <= capacity,
        RunView::<M>::init(capacity, mode).run(events).launched <= RunView::<M>::init(
            capacity,
            mode,
        ).run(events).target,
{
    let start = RunView::<M>::init(capacity, mode);
    law_init_inv::<M>(capacity, mode);
    law_run_inv(start, events);
    lemma_capacity_is_fixed(start, events);
}

proof fn lemma_capacity_is_fixed<M>(state: RunView<M>, events: Seq<Event<M>>)
    ensures
        state.run(events).capacity == state.capacity,
        state.run(events).mode == state.mode,
    decreases events.len(),
{
    if events.len() > 0 {
        lemma_capacity_is_fixed(state, events.drop_last());
    }
}

/// Exact fan-out: after the service has reported the depth `depth`, exactly
/// `rounds_for(depth)` rounds are due throughout, and a run whose draining has
/// ended without the launching having been stopped (by a refusal of the
/// credentials or by cancellation) has launched exactly that many.
pub proof fn law_every_round_is_launched<M>(
    capacity: nat,
    mode: AggregationMode,
    depth: i64,
    events: Seq<Event<M>>,
)
    requires
        capacity >= 1,
    ensures
        ({
            let end = RunView::<M>::init(capacity, mode).step(Event::Depth(Ok(depth))).run(events);
            &&& end.target == rounds_for(depth)
            &&& end.launched <= rounds_for(depth)
            &&& (end.phase is AwaitingSink || end.phase is Finished) && !end.stopped
                ==> end.launched == rounds_for(depth)
        }),
{
    let start = RunView::<M>::init(capacity, mode);
    law_init_inv::<M>(capacity, mode);
    let known = start.step(Event::Depth(Ok(depth)));
    law_step_inv(start, Event::Depth(Ok(depth)));
    law_run_inv(known, events);
    law_target_is_fixed(known, events);
}

/// The count of received messages is the sum of the sizes of the batches that
/// were delivered.
pub proof fn law_received_is_delivered<M>(start: RunView<M>, events: Seq<Event<M>>)
    ensures
        start.run(events).received == start.received + delivered(start, events),
        start.run(events).arrived == start.arrived + delivered_messages(start, events),
    decreases events.len(),
{
    if events.len() > 0 {
        law_received_is_delivered(start, events.drop_last());
        assert(start.run(events).arrived =~= start.arrived + delivered_messages(start, events));
    } else {
        assert(start.arrived + delivered_messages(start, events) =~= start.arrived);
    }
}

/// Exactly once: whatever the interleaving, the aggregator never holds a message
/// more often than the batches delivered it, and once the draining has ended it
/// holds every delivered message exactly as often as the batches did.
pub proof fn law_every_message_is_collected_once<M>(
    capacity: nat,
    mode: AggregationMode,
    events: Seq<Event<M>>,
)
    requires
        capacity >= 1,
    ensures
        ({
            let start = RunView::<M>::init(capacity, mode);
            let end = start.run(events);
            &&& end.collected.to_multiset().subset_of(
                delivered_messages(start, events).to_multiset(),
            )
            &&& !(end.phase is Draining) ==> end.collected.to_multiset() == delivered_messages(
                start,
                events,
            ).to_multiset()
        }),
{
    broadcast use vstd::multiset::group_multiset_axioms;

    let start = RunView::<M>::init(capacity, mode);
    law_init_inv::<M>(capacity, mode);
    let end = start.run(events);
    law_run_inv(start, events);
    law_received_is_delivered(start, events);
    assert(start.arrived + delivered_messages(start, events) =~= delivered_messages(
        start,
        events,
    ));
    assert(end.held() == delivered_messages(start, events).to_multiset());
    if !(end.phase is Draining) {
        assert(end.channel =~= Seq::<M>::empty());
        assert(end.tasks =~= Seq::<TaskView<M>>::empty());
        lemma_nothing_held::<M>();
        assert(end.held() =~= end.collected.to_multiset());
    }
}

/// Nothing is lost and nothing is made up: at every moment the aggregator has
/// collected no more than was delivered, whatever the interleaving, and once the
/// draining has ended it has collected exactly as many messages as the batches
/// that were delivered held together.
pub proof fn law_collected_is_delivered<M>(
    capacity: nat,
    mode: AggregationMode,
    events: Seq<Event<M>>,
)
    requires
        capacity >= 1,
    ensures
        ({
            let start = RunView::<M>::init(capacity, mode);
            let end = start.run(events);
            &&& end.collected.len() <= delivered(start, events)
            &&& !(end.phase is Draining) ==> end.collected.len() == delivered(start, events)
        }),
{
    let start = RunView::<M>::init(capacity, mode);
    law_init_inv::<M>(capacity, mode);
    law_run_inv(start, events);
    law_received_is_delivered(start, events);
}

/// In a closed channel nothing is enqueued: an event leaves the channel closed,
/// and what the aggregator has together with what the channel holds stays the same
/// sequence of messages.
pub proof fn law_closed_step<M>(state: RunView<M>, event: Event<M>)
    requires
        state.inv(),
        state.closed(),
    ensures
        state.tasks.len() == 0,
        !state.enabled(Event::Launch),
        forall|round: nat| !state.enabled(Event::<M>::Forward(round)),
        state.step(event).closed(),
        state.step(event).collected + state.step(event).channel == state.collected
            + state.channel,
        state.step(event).received == state.received,
{
    assert(state.tasks.len() == 0);
    assert(!state.coordinator_sends());
    assert forall|round: nat| !state.enabled(Event::<M>::Forward(round)) by {
        assert(!state.has_task(round));
    }
    if state.enabled(event) {
        match event {
            Event::Batch(round, _) => {
                assert(!state.has_task(round));
            },
            Event::Forward(round) => {
                assert(!state.has_task(round));
            },
            Event::Collect => {
                assert(state.after_collect().collected + state.after_collect().channel
                    =~= state.collected + state.channel);
            },
            _ => {},
        }
    }
}

/// The channel is closed only after every receive task has ended, it is closed
/// for good, and no message is enqueued after it was closed: whatever happens
/// later, the aggregator ends up with the messages that it and the channel held at
/// that moment, and with no other.
pub proof fn law_no_send_after_close<M>(
    capacity: nat,
    mode: AggregationMode,
    events: Seq<Event<M>>,
    later: Seq<Event<M>>,
)
    requires
        capacity >= 1,
        RunView::<M>::init(capacity, mode).run(events).closed(),
    ensures
        ({
            let closed = RunView::<M>::init(capacity, mode).run(events);
            let end = closed.run(later);
            &&& closed.tasks.len() == 0
            &&& end.closed()
            &&& end.tasks.len() == 0
            &&& end.received == closed.received
            &&& end.collected + end.channel == closed.collected + closed.channel
        }),
{
    let closed = RunView::<M>::init(capacity, mode).run(events);
    law_init_inv::<M>(capacity, mode);
    law_run_inv(RunView::<M>::init(capacity, mode), events);
    lemma_closed_run(closed, later);
}

proof fn lemma_closed_run<M>(state: RunView<M>, events: Seq<Event<M>>)
    requires
        state.inv(),
        state.closed(),
    ensures
        state.tasks.len() == 0,
        state.run(events).inv(),
        state.run(events).closed(),
        state.run(events).tasks.len() == 0,
        state.run(events).received == state.received,
        state.run(events).collected + state.run(events).channel == state.collected
            + state.channel,
    decreases events.len(),
{
    if events.len() > 0 {
        lemma_closed_run(state, events.drop_last());
        let before = state.run(events.drop_last());
        law_step_inv(before, events.last());
        law_closed_step(before, events.last());
        law_closed_step(before.step(events.last()), events.last());
    } else {
        law_closed_step(state, Event::Collect);
    }
}

/// An empty queue: where the reported depth is zero or below, the channel is
/// closed at once, no round is ever launched, no message is ever collected and no
/// failure recorded; the aggregator can conclude at once, and then, in
/// materialising mode, the sink is called once, with the empty collection, and in
/// counting mode the run has completed.
pub proof fn law_empty_queue<M>(
    capacity: nat,
    mode: AggregationMode,
    depth: i64,
    events: Seq<Event<M>>,
)
    requires
        capacity >= 1,
        depth <= 0,
    ensures
        ({
            let known = RunView::<M>::init(capacity, mode).step(Event::Depth(Ok(depth)));
            let end = known.run(events);
            &&& known.closed()
            &&& known.enabled(Event::Conclude)
            &&& known.step(Event::Conclude).collected.len() == 0
            &&& mode is Materialize ==> known.step(Event::Conclude).phase is AwaitingSink
                && known.step(Event::Conclude).sink_calls == 1
            &&& mode is CountOnly ==> known.step(Event::Conclude).outcome == Some(
                Outcome::Completed,
            )
            &&& end.launched == 0
            &&& end.tasks.len() == 0
            &&& end.collected.len() == 0
            &&& end.failures.len() == 0
            &&& end.sink_calls <= 1
        }),
{
    let start = RunView::<M>::init(capacity, mode);
    law_init_inv::<M>(capacity, mode);
    let known = start.step(Event::Depth(Ok(depth)));
    law_step_inv(start, Event::Depth(Ok(depth)));
    law_run_inv(known, events);
    law_target_is_fixed(known, events);
}

/// A failed depth query ends the run at once: no round is ever launched, nothing
/// is collected, and the sink is never called.
pub proof fn law_depth_failure_ends_run<M>(
    capacity: nat,
    mode: AggregationMode,
    error: QueueError,
    events: Seq<Event<M>>,
)
    requires
        capacity >= 1,
    ensures
        ({
            let end = RunView::<M>::init(capacity, mode).step(Event::Depth(Err(error))).run(
                events,
            );
            &&& end.phase is Finished
            &&& end.outcome == Some(Outcome::DepthFailed(error))
            &&& end.launched == 0
            &&& end.collected.len() == 0
            &&& end.sink_calls == 0
        }),
{
    let failed = RunView::<M>::init(capacity, mode).step(Event::Depth(Err(error)));
    law_init_inv::<M>(capacity, mode);
    law_step_inv(RunView::<M>::init(capacity, mode), Event::Depth(Err(error)));
    lemma_finished_is_final(failed, events);
}

/// Nothing happens in a finished run.
pub proof fn lemma_finished_is_final<M>(state: RunView<M>, events: Seq<Event<M>>)
    requires
        state.inv(),
        state.phase is Finished,
    ensures
        state.run(events) == state,
    decreases events.len(),
{
    if events.len() > 0 {
        lemma_finished_is_final(state, events.drop_last());
        let event = events.last();
        match event {
            Event::Batch(round, _) => {
                assert(!state.has_task(round));
            },
            Event::Forward(round) => {
                assert(!state.has_task(round));
            },
            _ => {},
        }
        assert(!state.enabled(event));
    }
}

/// The sink is called at most once, and only with the whole collection of a run
/// in which every round due was launched and none failed.
pub proof fn law_sink_called_once<M>(capacity: nat, mode: AggregationMode, events: Seq<Event<M>>)
    requires
        capacity >= 1,
    ensures
        ({
            let start = RunView::<M>::init(capacity, mode);
            let end = start.run(events);
            &&& end.sink_calls <= 1
            &&& end.sink_calls == 1 ==> {
                &&& mode is Materialize
                &&& end.failures.len() == 0
                &&& end.launched == end.target
                &&& end.collected.len() == delivered(start, events)
            }
            &&& end.outcome == Some(Outcome::Completed) && mode is Materialize ==> end.sink_calls
                == 1
        }),
{
    let start = RunView::<M>::init(capacity, mode);
    law_init_inv::<M>(capacity, mode);
    law_run_inv(start, events);
    law_received_is_delivered(start, events);
    lemma_capacity_is_fixed(start, events);
}

} // verus!
