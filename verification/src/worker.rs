//! Jobs, their results, and the worker that carries jobs out.
//!
//! A worker takes one job at a time from the job queue. For a map job it has
//! the caller apply the map function to the input and writes each fragment
//! that comes back to the file of its partition; for a reduce job it has the
//! caller apply the reduce function to the files of the partition and writes
//! the one text that comes back to the result file. When the files are written
//! it reports the job done and takes the next one, until the queue is closed.
//!
//! Opening, reading and writing files is the caller's part. The worker says
//! what is to be done next, and is told when it has been done.

use crate::shuffle::{intermediate_file_name, intermediate_name, result_file_name, result_name};
use chan::{Receiver, Sender};
use std::path::PathBuf;
use vstd::prelude::*;

verus! {

/// A unit of work, made by the master and carried out once by one worker.
#[derive(Debug, PartialEq, Eq)]
pub enum Job {
    /// Apply the map function to one input file: the number of the job, from 1
    /// up in the order of the inputs, and the path of its input.
    MapJob((i32, PathBuf)),
    /// Apply the reduce function to the files of one partition: the number of
    /// the partition, and the paths of its files in the order in which they
    /// were found.
    Reduce((i32, Vec<PathBuf>)),
}

/// What a worker reports when a job is done.
#[derive(Debug, PartialEq, Eq, Clone, Copy)]
pub enum JobResult {
    /// The map job of this number is done.
    MapFinished(i32),
    /// The reduce job of this partition is done.
    ReduceFinished(i32),
}

/// A job as contracts see it.
pub ghost enum JobView {
    MapJob(i32, PathBuf),
    Reduce(i32, Seq<PathBuf>),
}

impl View for Job {
    type V = JobView;

    open spec fn view(&self) -> JobView {
        match *self {
            Job::MapJob((job_id, input)) => JobView::MapJob(job_id, input),
            Job::Reduce((partition_id, inputs)) => JobView::Reduce(partition_id, inputs@),
        }
    }
}

/// The jobs of a list, each as contracts see it.
pub open spec fn job_views(jobs: Seq<Job>) -> Seq<JobView> {
    Seq::new(jobs.len(), |k: int| jobs[k]@)
}

/// A file to create in the working directory, or to overwrite if it is there.
#[derive(Debug, PartialEq, Eq)]
pub struct Output {
    /// The name of the file, without the directory.
    pub name: String,
    /// What the file is to hold.
    pub contents: String,
}

/// An output as contracts see it.
pub ghost struct OutputView {
    pub name: Seq<char>,
    pub contents: Seq<char>,
}

impl View for Output {
    type V = OutputView;

    open spec fn view(&self) -> OutputView {
        OutputView { name: self.name@, contents: self.contents@ }
    }
}

/// The outputs of a list, each as contracts see it.
pub open spec fn output_views(outputs: Seq<Output>) -> Seq<OutputView> {
    Seq::new(outputs.len(), |k: int| outputs[k]@)
}

/// The texts of a list of strings.
pub open spec fn string_views(strings: Seq<String>) -> Seq<Seq<char>> {
    Seq::new(strings.len(), |k: int| strings[k]@)
}

/// What a worker is busy with between two calls of [`Worker::run`].
#[derive(Debug, PartialEq, Eq, Clone, Copy)]
pub enum Activity {
    /// Nothing yet: the worker has not asked for a job.
    Idle,
    /// The map function is being applied for the job of this number.
    Mapping(i32),
    /// The reduce function is being applied for this partition.
    Reducing(i32),
    /// The files of a job are being written; this is reported when they are.
    Writing(JobResult),
    /// The job queue is closed, or the worker was told something out of turn.
    Stopped,
}

/// What the caller tells a worker.
#[derive(Debug, PartialEq, Eq)]
pub enum Signal {
    /// The worker may take its first job.
    Ready,
    /// The map function returned these fragments, the first for partition 1.
    Mapped(Vec<String>),
    /// The reduce function returned this text.
    Reduced(String),
    /// The files that the worker asked for are written.
    Written,
}

/// A signal as contracts see it.
pub ghost enum SignalView {
    Ready,
    Mapped(Seq<Seq<char>>),
    Reduced(Seq<char>),
    Written,
}

impl View for Signal {
    type V = SignalView;

    open spec fn view(&self) -> SignalView {
        match *self {
            Signal::Ready => SignalView::Ready,
            Signal::Mapped(fragments) => SignalView::Mapped(string_views(fragments@)),
            Signal::Reduced(text) => SignalView::Reduced(text@),
            Signal::Written => SignalView::Written,
        }
    }
}

/// What a worker asks the caller to do next.
#[derive(Debug, PartialEq, Eq)]
pub enum Task {
    /// Open this input and apply the map function to it, then tell the worker
    /// what it returned.
    RunMap(PathBuf),
    /// Open these inputs, in this order, and apply the reduce function to
    /// them, then tell the worker what it returned.
    RunReduce(Vec<PathBuf>),
    /// Write these files into the working directory, then tell the worker so.
    Write(Vec<Output>),
    /// Nothing more: leave the loop.
    Stop,
}

/// A task as contracts see it.
pub ghost enum TaskView {
    RunMap(PathBuf),
    RunReduce(Seq<PathBuf>),
    Write(Seq<OutputView>),
    Stop,
}

impl View for Task {
    type V = TaskView;

    open spec fn view(&self) -> TaskView {
        match *self {
            Task::RunMap(input) => TaskView::RunMap(input),
            Task::RunReduce(inputs) => TaskView::RunReduce(inputs@),
            Task::Write(outputs) => TaskView::Write(output_views(outputs@)),
            Task::Stop => TaskView::Stop,
        }
    }
}

/// The names of the files that map job `job_id` leaves when the map function
/// returns `length` fragments: one for each partition from 1 to `length`.
pub open spec fn map_names(job_id: i32, length: nat) -> Seq<Seq<char>> {
    Seq::new(length, |k: int| intermediate_name(job_id as int, k + 1))
}

/// Names and contents paired off from the front, as far as both reach.
pub open spec fn paired(names: Seq<Seq<char>>, contents: Seq<Seq<char>>) -> Seq<OutputView> {
    Seq::new(
        if names.len() <= contents.len() {
            names.len()
        } else {
            contents.len()
        },
        |k: int| OutputView { name: names[k], contents: contents[k] },
    )
}

/// The files that map job `job_id` writes for `fragments`: fragment `k`,
/// counted from 1, goes to the file of partition `k`.
pub open spec fn map_outputs(job_id: i32, fragments: Seq<Seq<char>>) -> Seq<OutputView> {
    paired(map_names(job_id, fragments.len()), fragments)
}

/// The one file that the reduce job of `partition_id` writes for `text`.
pub open spec fn reduce_outputs(partition_id: i32, text: Seq<char>) -> Seq<OutputView> {
    seq![OutputView { name: result_name(partition_id as int), contents: text }]
}

/// What the job queue gave, as contracts see it.
pub open spec fn as_seen(received: Option<Job>) -> Option<JobView> {
    match received {
        Some(job) => Some(job@),
        None => None,
    }
}

/// What a worker does with what the job queue gave it: it stops when the
/// queue is closed, and starts on the job otherwise.
pub open spec fn assignment(received: Option<JobView>) -> (Activity, TaskView) {
    match received {
        None => (Activity::Stopped, TaskView::Stop),
        Some(JobView::MapJob(job_id, input)) => (Activity::Mapping(job_id), TaskView::RunMap(input)),
        Some(JobView::Reduce(partition_id, inputs)) => (
            Activity::Reducing(partition_id),
            TaskView::RunReduce(inputs),
        ),
    }
}

/// What a signal leads to.
pub ghost enum Reaction {
    /// Go on to the activity, and ask the caller for what it needs.
    Proceed(Activity, TaskView),
    /// Report this result, if there is one, then take the next job from the
    /// queue and go by its [`assignment`].
    Take(Option<JobResult>),
}

/// What a worker decides on a signal.
#[derive(Debug, PartialEq, Eq)]
pub enum Turn {
    /// Go on to the activity, and ask the caller for what it needs.
    Proceed(Activity, Task),
    /// Report this result, if there is one, then take the next job from the
    /// queue and start on it.
    Take(Option<JobResult>),
}

impl View for Turn {
    type V = Reaction;

    open spec fn view(&self) -> Reaction {
        match *self {
            Turn::Proceed(activity, task) => Reaction::Proceed(activity, task@),
            Turn::Take(report) => Reaction::Take(report),
        }
    }
}

/// How a worker that is busy with `activity` reacts to `signal`. A signal
/// that the activity does not wait for stops the worker.
pub open spec fn reaction(activity: Activity, signal: SignalView) -> Reaction {
    match (activity, signal) {
        (Activity::Idle, SignalView::Ready) => Reaction::Take(None),
        (Activity::Mapping(job_id), SignalView::Mapped(fragments)) => Reaction::Proceed(
            Activity::Writing(JobResult::MapFinished(job_id)),
            TaskView::Write(map_outputs(job_id, fragments)),
        ),
        (Activity::Reducing(partition_id), SignalView::Reduced(text)) => Reaction::Proceed(
            Activity::Writing(JobResult::ReduceFinished(partition_id)),
            TaskView::Write(reduce_outputs(partition_id, text)),
        ),
        (Activity::Writing(result), SignalView::Written) => Reaction::Take(Some(result)),
        _ => Reaction::Proceed(Activity::Stopped, TaskView::Stop),
    }
}

/// No two fragments of one map job go to the same file.
pub proof fn lemma_map_names_are_distinct(job_id: i32, length: nat, j: int, k: int)
    requires
        0 <= j < k < length,
    ensures
        map_names(job_id, length)[j] != map_names(job_id, length)[k],
{
    crate::shuffle::lemma_names_never_collide(job_id as int, j + 1, job_id as int, k + 1);
}

/// Pairs names with contents from the front, as far as both reach.
pub fn write_map_results(names: Vec<String>, results: Vec<String>) -> (outputs: Vec<Output>)
    ensures
        outputs.len() == if names.len() <= results.len() {
            names.len()
        } else {
            results.len()
        },
        output_views(outputs@) == paired(string_views(names@), string_views(results@)),
{
    let ghost contents = string_views(results@);
    let ghost wanted = paired(string_views(names@), contents);
    let mut outputs: Vec<Output> = Vec::new();
    let mut k: usize = 0;
    for result in it: results
        invariant
            it.seq() == results@,
            contents == string_views(results@),
            wanted == paired(string_views(names@), contents),
            k == if it.index() <= names.len() { it.index() } else { names.len() as int },
            outputs.len() == k,
            forall|j: int| 0 <= j < k ==> (#[trigger] outputs[j])@ == wanted[j],
    {
        if k < names.len() {
            outputs.push(Output { name: names[k].clone(), contents: result });
            k = k + 1;
        }
    }
    assert(output_views(outputs@) =~= wanted);
    outputs
}

/// The worker.
pub struct Worker {
    /// The directory that the worker's files go to.
    pub working_directory: PathBuf,
    /// Where the jobs come from.
    pub job_queue: Receiver<Job>,
    /// Where the results go.
    pub results_queue: Sender<JobResult>,
}

impl Worker {
    /// Names the files that map job `job_id` leaves for `length` fragments.
    pub fn map_result_names(&self, job_id: &i32, length: usize) -> (names: Vec<String>)
        ensures
            names.len() == length,
            string_views(names@) == map_names(*job_id, length as nat),
    {
        let mut names: Vec<String> = Vec::new();
        let mut k: usize = 0;
        while k < length
            invariant
                k <= length,
                names.len() == k,
                forall|j: int|
                    0 <= j < k ==> (#[trigger] names[j])@ == intermediate_name(*job_id as int, j + 1),
            decreases length - k,
        {
            names.push(intermediate_file_name(*job_id, k + 1));
            k = k + 1;
        }
        assert(string_views(names@) =~= map_names(*job_id, length as nat));
        names
    }

    /// Names the file that holds the result of partition `job_id`.
    pub fn reduce_result_name(&self, job_id: &i32) -> (name: String)
        ensures
            name@ == result_name(*job_id as int),
    {
        result_file_name(*job_id)
    }

    /// The files to write when the map function returned `results` for map job
    /// `job_id`.
    pub fn map_results(&self, job_id: i32, results: Vec<String>) -> (outputs: Vec<Output>)
        ensures
            outputs.len() == results.len(),
            output_views(outputs@) == map_outputs(job_id, string_views(results@)),
    {
        let names = self.map_result_names(&job_id, results.len());
        write_map_results(names, results)
    }

    /// The file to write when the reduce function returned `result` for
    /// partition `job_id`.
    pub fn reduce_results(&self, job_id: i32, result: String) -> (outputs: Vec<Output>)
        ensures
            output_views(outputs@) == reduce_outputs(job_id, result@),
    {
        let mut outputs: Vec<Output> = Vec::new();
        outputs.push(Output { name: self.reduce_result_name(&job_id), contents: result });
        assert(output_views(outputs@) =~= reduce_outputs(job_id, result@));
        outputs
    }

    /// Decides on one signal. Nothing is sent and nothing awaited here: what
    /// to report and whether to take a job are handed back.
    pub fn step(&self, activity: Activity, signal: Signal) -> (turn: Turn)
        ensures
            turn@ == reaction(activity, signal@),
    {
        match (activity, signal) {
            (Activity::Idle, Signal::Ready) => Turn::Take(None),
            (Activity::Mapping(job_id), Signal::Mapped(fragments)) => Turn::Proceed(
                Activity::Writing(JobResult::MapFinished(job_id)),
                Task::Write(self.map_results(job_id, fragments)),
            ),
            (Activity::Reducing(partition_id), Signal::Reduced(text)) => Turn::Proceed(
                Activity::Writing(JobResult::ReduceFinished(partition_id)),
                Task::Write(self.reduce_results(partition_id, text)),
            ),
            (Activity::Writing(result), Signal::Written) => Turn::Take(Some(result)),
            _ => Turn::Proceed(Activity::Stopped, Task::Stop),
        }
    }

    /// Takes in `signal` and says what is to be done next.
    ///
    /// Where the worker is idle or has just written the files of a job, it
    /// reports the job done, if there was one, and waits for the next job;
    /// what comes back then depends on the queue. Every other step is decided
    /// by `activity` and `signal` alone.
    pub fn run(&self, activity: Activity, signal: Signal) -> (next: (Activity, Task))
        ensures
            match reaction(activity, signal@) {
                Reaction::Proceed(then, task) => next.0 == then && next.1@ == task,
                Reaction::Take(_) => exists|received: Option<JobView>|
                    (next.0, next.1@) == #[trigger] assignment(received),
            },
    {
        match self.step(activity, signal) {
            Turn::Proceed(then, task) => (then, task),
            Turn::Take(report) => {
                match report {
                    Some(result) => {
                        self.results_queue.send(result);
                    },
                    None => {},
                }
                self.take_next()
            },
        }
    }

    /// Waits for the next job and starts on it.
    fn take_next(&self) -> (next: (Activity, Task))
        ensures
            exists|received: Option<JobView>| (next.0, next.1@) == #[trigger] assignment(received),
    {
        let received = self.job_queue.recv();
        let ghost seen = as_seen(received);
        let next = assign(received);
        assert((next.0, next.1@) == assignment(seen));
        next
    }
}

/// Starts on the job that the queue gave, or stops where it gave none.
pub fn assign(received: Option<Job>) -> (next: (Activity, Task))
    ensures
        (next.0, next.1@) == assignment(as_seen(received)),
{
    match received {
        None => (Activity::Stopped, Task::Stop),
        Some(Job::MapJob((job_id, input))) => (Activity::Mapping(job_id), Task::RunMap(input)),
        Some(Job::Reduce((partition_id, inputs))) => (
            Activity::Reducing(partition_id),
            Task::RunReduce(inputs),
        ),
    }
}

} // verus!
