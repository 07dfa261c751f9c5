use sqs_drain::aggregator::AggregationMode;
use sqs_drain::drain::{Action, CollectOutcome, DrainReport, DrainRun, ForwardOutcome};
use sqs_drain::error::{IoError, QueueError, RoundFailure};
use sqs_drain::model::{Outcome, Phase};
use std::collections::VecDeque;

/// What a whole run did, as seen by the caller.
struct Trace {
    report: DrainReport,
    written: Vec<Vec<u32>>,
    most_in_flight: usize,
    receives: Vec<u64>,
    depth_queries: usize,
}

/// Drives a run to its end. The depth query is answered with `depth`, the receive
/// call of round `r` with `answer(r)`, the sink with `sink`. Outstanding receive calls
/// return oldest first, or newest first with `newest_first`.
fn drive(
    mut run: DrainRun<u32>,
    depth: Result<i64, QueueError>,
    answer: &dyn Fn(u64) -> Result<Vec<u32>, QueueError>,
    sink: Result<(), IoError>,
    newest_first: bool,
) -> Trace {
    let mut outstanding: VecDeque<u64> = VecDeque::new();
    let mut written: Vec<Vec<u32>> = Vec::new();
    let mut most_in_flight = 0;
    let mut receives = Vec::new();
    let mut depth_queries = 0;
    let mut depth = Some(depth);
    let mut sink = Some(sink);
    let mut steps = 0;
    loop {
        steps += 1;
        assert!(steps < 100_000, "the run does not end");
        match run.next_action() {
            Action::QueryDepth => {
                depth_queries += 1;
                assert!(run.on_depth(depth.take().unwrap()));
            }
            Action::Receive(round) => {
                receives.push(round);
                outstanding.push_back(round);
                assert_eq!(run.in_flight(), outstanding.len());
                assert!(run.in_flight() <= run.max_concurrency() as usize);
                most_in_flight = most_in_flight.max(run.in_flight());
            }
            Action::Wait => {
                let round = if newest_first {
                    outstanding.pop_back().unwrap()
                } else {
                    outstanding.pop_front().unwrap()
                };
                assert!(run.on_batch(round, answer(round)));
            }
            Action::Write(messages) => {
                written.push(messages);
                assert_eq!(run.phase(), Phase::AwaitingSink);
                assert!(run.on_sink(sink.take().unwrap()));
            }
            Action::Done => break,
        }
    }
    assert!(outstanding.is_empty());
    assert_eq!(run.phase(), Phase::Finished);
    assert!(run.is_closed());
    assert_eq!(run.in_channel(), 0);
    Trace { report: run.report(), written, most_in_flight, receives, depth_queries }
}

fn ten_messages(round: u64) -> Result<Vec<u32>, QueueError> {
    Ok((0..10).map(|k| (round * 10 + k) as u32).collect())
}

#[test]
fn full_batches_from_every_round() {
    let run = DrainRun::new(5, AggregationMode::Materialize);
    let trace = drive(run, Ok(25), &ten_messages, Ok(()), false);
    assert_eq!(trace.depth_queries, 1);
    assert_eq!(trace.receives, (0..25).collect::<Vec<u64>>());
    assert_eq!(trace.most_in_flight, 5);
    assert_eq!(trace.report.outcome, Some(Outcome::Completed));
    assert!(trace.report.is_success());
    assert_eq!(trace.report.target_rounds, 25);
    assert_eq!(trace.report.rounds_launched, 25);
    assert_eq!(trace.report.messages_collected, 250);
    assert!(trace.report.failures.is_empty());
    assert!(!trace.report.cancelled);
    assert_eq!(trace.written.len(), 1);
    assert_eq!(trace.written[0].len(), 250);
    let mut sorted = trace.written[0].clone();
    sorted.sort();
    assert_eq!(sorted, (0..250).collect::<Vec<u32>>());
}

#[test]
fn answers_in_another_order_give_the_same_messages() {
    let run = DrainRun::new(5, AggregationMode::Materialize);
    let trace = drive(run, Ok(25), &ten_messages, Ok(()), true);
    assert_eq!(trace.most_in_flight, 5);
    assert_eq!(trace.report.rounds_launched, 25);
    assert_eq!(trace.report.messages_collected, 250);
    assert_eq!(trace.written.len(), 1);
    let mut sorted = trace.written[0].clone();
    sorted.sort();
    assert_eq!(sorted, (0..250).collect::<Vec<u32>>());
    // the messages of one batch keep their order
    let of_round_3: Vec<u32> =
        trace.written[0].iter().copied().filter(|m| *m / 10 == 3).collect();
    assert_eq!(of_round_3, (30..40).collect::<Vec<u32>>());
}

#[test]
fn depth_overshoots_and_undershoots_the_messages() {
    // fewer messages than the depth promised: most rounds come back empty
    let sparse = |round: u64| -> Result<Vec<u32>, QueueError> {
        if round % 4 == 0 { Ok(vec![round as u32]) } else { Ok(Vec::new()) }
    };
    let trace = drive(DrainRun::new(3, AggregationMode::Materialize), Ok(8), &sparse, Ok(()), false);
    assert_eq!(trace.report.outcome, Some(Outcome::Completed));
    assert_eq!(trace.report.rounds_launched, 8);
    assert_eq!(trace.report.messages_collected, 2);
    assert_eq!(trace.written, vec![vec![0, 4]]);
    // more messages than the depth promised
    let rich = |round: u64| -> Result<Vec<u32>, QueueError> {
        Ok((0..7).map(|k| (round * 7 + k) as u32).collect())
    };
    let trace = drive(DrainRun::new(3, AggregationMode::Materialize), Ok(2), &rich, Ok(()), false);
    assert_eq!(trace.report.rounds_launched, 2);
    assert_eq!(trace.report.messages_collected, 14);
    assert_eq!(trace.written, vec![(0..14).collect::<Vec<u32>>()]);
}

#[test]
fn one_unavailable_round_among_ten() {
    let answer = |round: u64| -> Result<Vec<u32>, QueueError> {
        if round == 6 { Err(QueueError::Unavailable) } else { ten_messages(round) }
    };
    let run = DrainRun::new(4, AggregationMode::Materialize);
    let trace = drive(run, Ok(10), &answer, Ok(()), false);
    assert_eq!(trace.report.outcome, Some(Outcome::RoundsFailed));
    assert!(!trace.report.is_success());
    assert_eq!(trace.report.rounds_launched, 10);
    assert_eq!(trace.report.messages_collected, 90);
    assert_eq!(
        trace.report.failures,
        vec![RoundFailure { round: 6, error: QueueError::Unavailable }]
    );
    assert!(trace.written.is_empty());
}

#[test]
fn unauthorized_depth_query_ends_the_run() {
    let run = DrainRun::new(5, AggregationMode::Materialize);
    let trace = drive(run, Err(QueueError::Unauthorized), &ten_messages, Ok(()), false);
    assert_eq!(trace.report.outcome, Some(Outcome::DepthFailed(QueueError::Unauthorized)));
    assert_eq!(trace.report.rounds_launched, 0);
    assert_eq!(trace.report.messages_collected, 0);
    assert!(trace.receives.is_empty());
    assert!(trace.written.is_empty());
}

#[test]
fn depth_unavailable_ends_the_run() {
    let run = DrainRun::new(2, AggregationMode::CountOnly);
    let trace = drive(run, Err(QueueError::Unavailable), &ten_messages, Ok(()), false);
    assert_eq!(trace.report.outcome, Some(Outcome::DepthFailed(QueueError::Unavailable)));
    assert!(trace.receives.is_empty());
    assert!(trace.written.is_empty());
}

#[test]
fn depth_zero_writes_the_empty_collection_once() {
    let run = DrainRun::new(5, AggregationMode::Materialize);
    let trace = drive(run, Ok(0), &ten_messages, Ok(()), false);
    assert_eq!(trace.report.outcome, Some(Outcome::Completed));
    assert_eq!(trace.report.target_rounds, 0);
    assert_eq!(trace.report.rounds_launched, 0);
    assert_eq!(trace.report.messages_collected, 0);
    assert!(trace.receives.is_empty());
    assert_eq!(trace.written, vec![Vec::<u32>::new()]);
}

#[test]
fn negative_depth_counts_as_zero() {
    let run = DrainRun::new(5, AggregationMode::Materialize);
    let trace = drive(run, Ok(-7), &ten_messages, Ok(()), false);
    assert_eq!(trace.report.outcome, Some(Outcome::Completed));
    assert_eq!(trace.report.target_rounds, 0);
    assert!(trace.receives.is_empty());
    assert_eq!(trace.written, vec![Vec::<u32>::new()]);
}

#[test]
fn depth_zero_closes_the_channel_at_once() {
    let mut run: DrainRun<u32> = DrainRun::new(3, AggregationMode::CountOnly);
    assert!(!run.is_closed());
    assert!(run.on_depth(Ok(0)));
    assert!(run.is_closed());
    assert_eq!(run.launch(), None);
    assert_eq!(run.collect(), CollectOutcome::Closed);
    assert!(run.conclude().is_none());
    assert_eq!(run.outcome(), Some(Outcome::Completed));
}

#[test]
fn counting_mode_keeps_no_message_and_calls_no_sink() {
    let run = DrainRun::new(2, AggregationMode::CountOnly);
    let trace = drive(run, Ok(6), &ten_messages, Ok(()), false);
    assert_eq!(trace.report.outcome, Some(Outcome::Completed));
    assert_eq!(trace.report.messages_collected, 60);
    assert_eq!(trace.most_in_flight, 2);
    assert!(trace.written.is_empty());
}

#[test]
fn fewer_rounds_than_allowed_tasks() {
    let run = DrainRun::new(8, AggregationMode::Materialize);
    let trace = drive(run, Ok(3), &ten_messages, Ok(()), false);
    assert_eq!(trace.most_in_flight, 3);
    assert_eq!(trace.report.rounds_launched, 3);
    assert_eq!(trace.report.messages_collected, 30);
}

#[test]
fn one_task_at_a_time() {
    let run = DrainRun::new(1, AggregationMode::Materialize);
    let trace = drive(run, Ok(4), &ten_messages, Ok(()), false);
    assert_eq!(trace.most_in_flight, 1);
    assert_eq!(trace.written, vec![(0..40).collect::<Vec<u32>>()]);
}

#[test]
fn unauthorized_round_stops_the_launching() {
    let answer = |round: u64| -> Result<Vec<u32>, QueueError> {
        if round == 1 { Err(QueueError::Unauthorized) } else { ten_messages(round) }
    };
    let run = DrainRun::new(2, AggregationMode::Materialize);
    let trace = drive(run, Ok(10), &answer, Ok(()), false);
    assert_eq!(trace.report.outcome, Some(Outcome::RoundsFailed));
    // rounds 0 and 1 were in flight; round 0 returned and round 2 took its place
    // before round 1 was refused; nothing was launched after that
    assert_eq!(trace.receives, vec![0, 1, 2]);
    assert_eq!(trace.report.rounds_launched, 3);
    assert_eq!(trace.report.target_rounds, 10);
    assert_eq!(trace.report.messages_collected, 20);
    assert_eq!(
        trace.report.failures,
        vec![RoundFailure { round: 1, error: QueueError::Unauthorized }]
    );
    assert!(trace.written.is_empty());
}

#[test]
fn sink_failure_fails_the_run() {
    let run = DrainRun::new(2, AggregationMode::Materialize);
    let broken = IoError { message: String::from("disk full") };
    let trace = drive(run, Ok(2), &ten_messages, Err(broken.clone()), false);
    assert_eq!(trace.report.outcome, Some(Outcome::SinkFailed(broken)));
    assert!(!trace.report.is_success());
    assert_eq!(trace.written.len(), 1);
    assert_eq!(trace.report.messages_collected, 20);
}

#[test]
fn new_run_awaits_the_depth() {
    let mut run: DrainRun<u32> = DrainRun::new(3, AggregationMode::Materialize);
    assert_eq!(run.phase(), Phase::AwaitingDepth);
    assert_eq!(run.outcome(), None);
    assert_eq!(run.max_concurrency(), 3);
    assert_eq!(run.mode(), AggregationMode::Materialize);
    assert_eq!(run.target_rounds(), 0);
    assert_eq!(run.rounds_launched(), 0);
    assert_eq!(run.in_flight(), 0);
    assert_eq!(run.in_channel(), 0);
    assert_eq!(run.messages_collected(), 0);
    assert!(run.failures().is_empty());
    assert!(!run.is_closed());
    // nothing but the depth is accepted
    assert_eq!(run.launch(), None);
    assert!(!run.on_batch(0, Ok(vec![1])));
    assert_eq!(run.forward(0), ForwardOutcome::Idle);
    assert_eq!(run.collect(), CollectOutcome::Empty);
    assert!(run.conclude().is_none());
    assert!(!run.on_sink(Ok(())));
    assert_eq!(run.phase(), Phase::AwaitingDepth);
    assert!(matches!(run.next_action(), Action::QueryDepth));
}

#[test]
fn depth_is_accepted_once() {
    let mut run: DrainRun<u32> = DrainRun::new(3, AggregationMode::Materialize);
    assert!(run.on_depth(Ok(4)));
    assert_eq!(run.phase(), Phase::Draining);
    assert_eq!(run.target_rounds(), 4);
    assert!(!run.on_depth(Ok(9)));
    assert!(!run.on_depth(Err(QueueError::Unavailable)));
    assert_eq!(run.target_rounds(), 4);
    assert_eq!(run.phase(), Phase::Draining);
}

#[test]
fn largest_depth_is_taken_whole() {
    let mut run: DrainRun<u32> = DrainRun::new(1, AggregationMode::CountOnly);
    assert!(run.on_depth(Ok(i64::MAX)));
    assert_eq!(run.target_rounds(), 9_223_372_036_854_775_807);
    let mut other: DrainRun<u32> = DrainRun::new(1, AggregationMode::CountOnly);
    assert!(other.on_depth(Ok(i64::MIN)));
    assert_eq!(other.target_rounds(), 0);
    assert!(other.is_closed());
}

#[test]
fn launch_stops_at_the_allowed_number_of_tasks() {
    let mut run: DrainRun<u32> = DrainRun::new(2, AggregationMode::Materialize);
    assert!(run.on_depth(Ok(5)));
    assert_eq!(run.launch(), Some(0));
    assert_eq!(run.launch(), Some(1));
    assert_eq!(run.launch(), None);
    assert_eq!(run.in_flight(), 2);
    assert_eq!(run.rounds_launched(), 2);
    // an empty batch ends the task and makes room
    assert!(run.on_batch(0, Ok(Vec::new())));
    assert_eq!(run.in_flight(), 1);
    assert_eq!(run.launch(), Some(2));
    assert_eq!(run.launch(), None);
}

#[test]
fn batch_is_accepted_only_from_a_waiting_task() {
    let mut run: DrainRun<u32> = DrainRun::new(2, AggregationMode::Materialize);
    assert!(run.on_depth(Ok(5)));
    assert_eq!(run.launch(), Some(0));
    // round 1 was not launched
    assert!(!run.on_batch(1, Ok(vec![1])));
    assert!(run.on_batch(0, Ok(vec![1, 2])));
    // round 0 has answered already
    assert!(!run.on_batch(0, Ok(vec![3])));
    assert!(!run.on_batch(0, Err(QueueError::Unavailable)));
    assert!(run.failures().is_empty());
    run.settle();
    assert_eq!(run.messages_collected(), 2);
    // round 0 has ended
    assert!(!run.on_batch(0, Ok(vec![3])));
}

#[test]
fn full_channel_blocks_the_producers() {
    let mut run: DrainRun<u32> = DrainRun::new(2, AggregationMode::Materialize);
    assert!(run.on_depth(Ok(2)));
    assert_eq!(run.launch(), Some(0));
    assert_eq!(run.launch(), Some(1));
    assert!(run.on_batch(0, Ok(vec![10, 11, 12])));
    assert_eq!(run.forward(1), ForwardOutcome::Idle);
    assert!(run.on_batch(1, Ok(vec![20])));
    assert_eq!(run.collect(), CollectOutcome::Empty);
    assert_eq!(run.forward(0), ForwardOutcome::Sent);
    assert_eq!(run.forward(1), ForwardOutcome::Sent);
    assert_eq!(run.in_channel(), 2);
    // round 1 has forwarded its only message and ended
    assert_eq!(run.in_flight(), 1);
    assert_eq!(run.forward(1), ForwardOutcome::Idle);
    // the channel holds as many messages as tasks are allowed
    assert_eq!(run.forward(0), ForwardOutcome::Blocked);
    assert_eq!(run.in_channel(), 2);
    assert!(run.conclude().is_none());
    assert_eq!(run.collect(), CollectOutcome::Collected);
    assert_eq!(run.forward(0), ForwardOutcome::Sent);
    assert_eq!(run.forward(0), ForwardOutcome::Blocked);
    assert_eq!(run.collect(), CollectOutcome::Collected);
    assert_eq!(run.forward(0), ForwardOutcome::Sent);
    assert_eq!(run.in_flight(), 0);
    // closed, but not drained
    assert!(run.is_closed());
    assert!(run.conclude().is_none());
    assert_eq!(run.phase(), Phase::Draining);
    assert_eq!(run.collect(), CollectOutcome::Collected);
    assert_eq!(run.collect(), CollectOutcome::Collected);
    assert_eq!(run.collect(), CollectOutcome::Closed);
    assert_eq!(run.messages_collected(), 4);
    // messages arrive in the order in which they were enqueued
    assert_eq!(run.conclude(), Some(vec![10, 20, 11, 12]));
    assert_eq!(run.phase(), Phase::AwaitingSink);
    assert!(run.conclude().is_none());
    assert!(matches!(run.next_action(), Action::Wait));
    assert!(run.on_sink(Ok(())));
    assert!(!run.on_sink(Ok(())));
    assert_eq!(run.outcome(), Some(Outcome::Completed));
    assert!(matches!(run.next_action(), Action::Done));
}

#[test]
fn channel_stays_open_while_a_call_is_outstanding() {
    let mut run: DrainRun<u32> = DrainRun::new(3, AggregationMode::CountOnly);
    assert!(run.on_depth(Ok(1)));
    assert_eq!(run.launch(), Some(0));
    assert!(!run.is_closed());
    assert_eq!(run.collect(), CollectOutcome::Empty);
    assert!(run.conclude().is_none());
    assert!(matches!(run.next_action(), Action::Wait));
    assert!(run.on_batch(0, Err(QueueError::Unavailable)));
    assert!(run.is_closed());
    assert_eq!(run.collect(), CollectOutcome::Closed);
    assert!(matches!(run.next_action(), Action::Done));
    assert_eq!(run.outcome(), Some(Outcome::RoundsFailed));
}

#[test]
fn settle_collects_channel_first_then_tasks_in_launch_order() {
    let mut run: DrainRun<u32> = DrainRun::new(3, AggregationMode::Materialize);
    assert!(run.on_depth(Ok(3)));
    assert_eq!(run.launch(), Some(0));
    assert_eq!(run.launch(), Some(1));
    assert_eq!(run.launch(), Some(2));
    assert!(run.on_batch(2, Ok(vec![30, 31])));
    assert!(run.on_batch(0, Ok(vec![10, 11])));
    assert_eq!(run.forward(2), ForwardOutcome::Sent);
    run.settle();
    assert_eq!(run.in_channel(), 0);
    assert_eq!(run.in_flight(), 1);
    assert_eq!(run.messages_collected(), 4);
    assert!(!run.is_closed());
    assert!(run.on_batch(1, Ok(vec![20])));
    run.settle();
    assert!(run.is_closed());
    assert_eq!(run.conclude(), Some(vec![30, 10, 11, 31, 20]));
}

#[test]
fn cancel_before_the_depth_ends_the_run() {
    let mut run: DrainRun<u32> = DrainRun::new(3, AggregationMode::Materialize);
    assert!(run.cancel());
    assert_eq!(run.phase(), Phase::Finished);
    assert_eq!(run.outcome(), Some(Outcome::Cancelled));
    assert!(run.is_closed());
    assert!(!run.on_depth(Ok(3)));
    assert!(!run.cancel());
    let report = run.report();
    assert!(report.cancelled);
    assert_eq!(report.rounds_launched, 0);
}

#[test]
fn cancel_lets_live_tasks_finish_and_launches_no_more() {
    let mut run: DrainRun<u32> = DrainRun::new(2, AggregationMode::Materialize);
    assert!(run.on_depth(Ok(6)));
    assert!(matches!(run.next_action(), Action::Receive(0)));
    assert!(matches!(run.next_action(), Action::Receive(1)));
    assert!(run.cancel());
    assert!(!run.is_closed());
    assert_eq!(run.launch(), None);
    assert!(matches!(run.next_action(), Action::Wait));
    assert!(run.on_batch(1, Ok(vec![5, 6])));
    assert!(matches!(run.next_action(), Action::Wait));
    assert!(run.on_batch(0, Ok(vec![7])));
    assert!(matches!(run.next_action(), Action::Done));
    let report = run.report();
    assert_eq!(report.outcome, Some(Outcome::Cancelled));
    assert!(report.cancelled);
    assert_eq!(report.rounds_launched, 2);
    assert_eq!(report.target_rounds, 6);
    assert_eq!(report.messages_collected, 3);
    assert!(!run.cancel());
}

#[test]
fn failed_round_outranks_cancellation() {
    let mut run: DrainRun<u32> = DrainRun::new(2, AggregationMode::CountOnly);
    assert!(run.on_depth(Ok(6)));
    assert_eq!(run.launch(), Some(0));
    assert!(run.cancel());
    assert!(run.on_batch(0, Err(QueueError::Unavailable)));
    assert!(matches!(run.next_action(), Action::Done));
    let report = run.report();
    assert_eq!(report.outcome, Some(Outcome::RoundsFailed));
    assert!(report.cancelled);
}

#[test]
fn every_failure_is_reported_in_order() {
    let answer = |round: u64| -> Result<Vec<u32>, QueueError> {
        if round % 2 == 1 { Err(QueueError::Unavailable) } else { Ok(vec![round as u32]) }
    };
    let run = DrainRun::new(1, AggregationMode::CountOnly);
    let trace = drive(run, Ok(5), &answer, Ok(()), false);
    assert_eq!(trace.report.outcome, Some(Outcome::RoundsFailed));
    assert_eq!(trace.report.rounds_launched, 5);
    assert_eq!(trace.report.messages_collected, 3);
    assert_eq!(
        trace.report.failures,
        vec![
            RoundFailure { round: 1, error: QueueError::Unavailable },
            RoundFailure { round: 3, error: QueueError::Unavailable },
        ]
    );
}

#[test]
fn fatal_errors() {
    assert!(QueueError::Unauthorized.is_fatal());
    assert!(!QueueError::Unavailable.is_fatal());
}
