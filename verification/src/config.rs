//! What a drain job is asked to do.

use crate::aggregator::AggregationMode;
use crate::drain::DrainRun;
use crate::model::RunView;
use std::sync::Arc;
use vstd::prelude::*;

verus! {

/// The format in which the sink writes the collection.
#[derive(Clone, Copy, Debug, PartialEq, Eq, Structural)]
pub enum FileTypeOutput {
    Json,
    Csv,
}

/// What a job's settings are, mathematically.
pub struct ConfigView {
    pub queue_url: Seq<char>,
    pub destination_file_path: Seq<char>,
    pub file_type: FileTypeOutput,
    pub max_concurrency: nat,
}

/// The settings of a drain job. They do not change once made.
pub struct Config {
    queue_url: String,
    destination_file_path: String,
    file_type: FileTypeOutput,
    max_concurrency: u16,
}

impl View for Config {
    type V = ConfigView;

    closed spec fn view(&self) -> ConfigView {
        ConfigView {
            queue_url: self.queue_url@,
            destination_file_path: self.destination_file_path@,
            file_type: self.file_type,
            max_concurrency: self.max_concurrency as nat,
        }
    }
}

impl Config {
    /// At least one receive task may run, and their number fits the counter.
    pub open spec fn wf(&self) -> bool {
        1 <= self@.max_concurrency <= u16::MAX
    }

    /// The settings as given. At least one receive task must be allowed.
    pub fn new(
        queue_url: String,
        destination_file_path: String,
        file_type: FileTypeOutput,
        max_concurrency: u16,
    ) -> (config: Self)
        requires
            max_concurrency >= 1,
        ensures
            config.wf(),
            config@ == (ConfigView {
                queue_url: queue_url@,
                destination_file_path: destination_file_path@,
                file_type,
                max_concurrency: max_concurrency as nat,
            }),
    {
        Self { queue_url, destination_file_path, file_type, max_concurrency }
    }

    /// The queue to drain.
    pub fn queue_url(&self) -> (url: &String)
        ensures
            url@ == self@.queue_url,
    {
        &self.queue_url
    }

    /// Where the sink writes.
    pub fn destination_file_path(&self) -> (path: &String)
        ensures
            path@ == self@.destination_file_path,
    {
        &self.destination_file_path
    }

    /// The format in which the sink writes.
    pub fn file_type(&self) -> (file_type: FileTypeOutput)
        ensures
            file_type == self@.file_type,
    {
        self.file_type
    }

    /// The most receive tasks alive at once.
    pub fn max_concurrency(&self) -> (n: u16)
        ensures
            n == self@.max_concurrency,
    {
        self.max_concurrency
    }
}

/// A drain job: settings that every task of its runs may share.
#[derive(Clone)]
pub struct SqsJob {
    config: Arc<Config>,
}

impl SqsJob {
    /// The job's settings.
    pub closed spec fn settings(&self) -> ConfigView {
        (*self.config)@
    }

    /// The settings allow at least one receive task.
    pub closed spec fn wf(&self) -> bool {
        (*self.config).wf()
    }

    /// A job with the given settings; without a number of receive tasks, one at a
    /// time. A number given must be at least one.
    pub fn new(
        queue_url: String,
        destination_file_path: String,
        file_type: FileTypeOutput,
        max_concurrency: Option<u16>,
    ) -> (job: Self)
        requires
            max_concurrency matches Some(n) ==> n >= 1,
        ensures
            job.wf(),
            job.settings() == (ConfigView {
                queue_url: queue_url@,
                destination_file_path: destination_file_path@,
                file_type,
                max_concurrency: match max_concurrency {
                    Some(n) => n as nat,
                    None => 1,
                },
            }),
    {
        let max_concurrency = max_concurrency.unwrap_or(1);
        let config = Arc::new(
            Config::new(queue_url, destination_file_path, file_type, max_concurrency),
        );
        Self { config }
    }

    /// The job's settings.
    pub fn config(&self) -> (config: &Config)
        ensures
            config@ == self.settings(),
            config.wf() == self.wf(),
    {
        &*self.config
    }

    /// Begins a run that collects the messages for the sink: it is about to ask for
    /// the queue's depth.
    pub fn dump_messages<M>(&self) -> (run: DrainRun<M>)
        requires
            self.wf(),
        ensures
            run.wf(),
            run@ == RunView::<M>::init(self.settings().max_concurrency, AggregationMode::Materialize),
    {
        DrainRun::new(self.config.max_concurrency(), AggregationMode::Materialize)
    }

    /// Begins a run that only counts the messages: it is about to ask for the
    /// queue's depth.
    pub fn count_messages<M>(&self) -> (run: DrainRun<M>)
        requires
            self.wf(),
        ensures
            run.wf(),
            run@ == RunView::<M>::init(self.settings().max_concurrency, AggregationMode::CountOnly),
    {
        DrainRun::new(self.config.max_concurrency(), AggregationMode::CountOnly)
    }
}

} // verus!
