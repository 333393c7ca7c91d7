//! The master: it makes the jobs, keeps the two phases apart and collects the
//! results.
//!
//! A run goes through the phases in one order. The master submits one map job
//! per input and waits until as many results have come back. Then it asks for
//! a listing of the working directory, submits one reduce job per partition
//! found there and waits again. Then it asks for a second listing and returns
//! the result files in it.
//!
//! Listing the directory is the caller's part, and so is starting the threads
//! of the workers. [`Master::run`] goes as far as it can on its own, says what
//! it needs, and is called again with it.

use crate::discovery::{
    find_reduce_jobs, find_result_files, listing_view, reduce_jobs, result_paths, DirectoryEntry,
    EntryView,
};
use crate::worker::{job_views, Job, JobResult, JobView, Worker};
use chan::{Receiver, Sender};
use std::path::PathBuf;
use vstd::prelude::*;

verus! {

/// How far a run has come.
#[derive(Debug, PartialEq, Eq, Clone, Copy)]
pub enum Phase {
    /// Nothing is submitted yet.
    Ready,
    /// The map jobs are submitted, and this many results are still awaited.
    Mapping(usize),
    /// Every map job is done; the listing of the intermediate files is
    /// awaited.
    Discovering,
    /// The reduce jobs are submitted, and this many results are still awaited.
    Reducing(usize),
    /// Every reduce job is done; the listing of the result files is awaited.
    Collecting,
    /// The result files are returned.
    Finished,
    /// The run was given up.
    Failed,
}

/// A phase as contracts see it.
pub ghost enum PhaseView {
    Ready,
    Mapping(nat),
    Discovering,
    Reducing(nat),
    Collecting,
    Finished,
    Failed,
}

impl View for Phase {
    type V = PhaseView;

    open spec fn view(&self) -> PhaseView {
        match *self {
            Phase::Ready => PhaseView::Ready,
            Phase::Mapping(outstanding) => PhaseView::Mapping(outstanding as nat),
            Phase::Discovering => PhaseView::Discovering,
            Phase::Reducing(outstanding) => PhaseView::Reducing(outstanding as nat),
            Phase::Collecting => PhaseView::Collecting,
            Phase::Finished => PhaseView::Finished,
            Phase::Failed => PhaseView::Failed,
        }
    }
}

/// Why a run was given up.
#[derive(Debug, PartialEq, Eq, Clone, Copy)]
pub enum Failure {
    /// The result queue was closed while results were awaited.
    Disconnected,
    /// Something happened that the phase does not wait for.
    OutOfTurn,
}

/// What happens to a master.
#[derive(Debug, PartialEq, Eq)]
pub enum Event {
    /// The workers are running: the run may begin.
    Start,
    /// A worker reported this result. Results are counted; which job a result
    /// names is not looked at.
    Completed(JobResult),
    /// The result queue is closed and empty.
    Disconnected,
    /// The working directory holds these entries, in this order; `None` where
    /// it could not be listed, which counts as an empty directory.
    Listing(Option<Vec<DirectoryEntry>>),
}

/// An event as contracts see it.
pub ghost enum EventView {
    Start,
    Completed(JobResult),
    Disconnected,
    Listing(Seq<EntryView>),
}

impl View for Event {
    type V = EventView;

    open spec fn view(&self) -> EventView {
        match *self {
            Event::Start => EventView::Start,
            Event::Completed(result) => EventView::Completed(result),
            Event::Disconnected => EventView::Disconnected,
            Event::Listing(listing) => EventView::Listing(listing_view(listing)),
        }
    }
}

/// What a master needs next.
#[derive(Debug, PartialEq, Eq)]
pub enum Next {
    /// The next result from the result queue.
    AwaitResult,
    /// A listing of the working directory.
    ListDirectory,
    /// Nothing: the run is over, and these are the paths of the result files.
    Return(Vec<PathBuf>),
    /// Nothing: the run is given up.
    Abort(Failure),
}

/// A need as contracts see it.
pub ghost enum NextView {
    AwaitResult,
    ListDirectory,
    Return(Seq<PathBuf>),
    Abort(Failure),
}

impl View for Next {
    type V = NextView;

    open spec fn view(&self) -> NextView {
        match *self {
            Next::AwaitResult => NextView::AwaitResult,
            Next::ListDirectory => NextView::ListDirectory,
            Next::Return(paths) => NextView::Return(paths@),
            Next::Abort(failure) => NextView::Abort(failure),
        }
    }
}

/// What a master decides on an event: the jobs to put on the job queue, in
/// this order, and what it needs after that.
#[derive(Debug, PartialEq, Eq)]
pub struct Action {
    pub submit: Vec<Job>,
    pub next: Next,
}

/// An action as contracts see it.
pub ghost struct ActionView {
    pub submit: Seq<JobView>,
    pub next: NextView,
}

impl View for Action {
    type V = ActionView;

    open spec fn view(&self) -> ActionView {
        ActionView { submit: job_views(self.submit@), next: self.next@ }
    }
}

/// The map jobs for `inputs`: one per input, numbered from 1 in their order.
pub open spec fn map_jobs(inputs: Seq<PathBuf>) -> Seq<JobView> {
    Seq::new(inputs.len(), |k: int| JobView::MapJob((k + 1) as i32, inputs[k]))
}

/// An action that submits nothing.
pub open spec fn only(next: NextView) -> ActionView {
    ActionView { submit: Seq::empty(), next }
}

/// The step that opens a phase of work: `jobs` are submitted and as many
/// results awaited under `waiting`; without jobs the phase is over at once,
/// and the listing that `done` waits for is asked for.
pub open spec fn open_phase(jobs: Seq<JobView>, waiting: PhaseView, done: PhaseView) -> (
    PhaseView,
    ActionView,
) {
    if jobs.len() == 0 {
        (done, only(NextView::ListDirectory))
    } else {
        (waiting, ActionView { submit: jobs, next: NextView::AwaitResult })
    }
}

/// The step on one more result where `outstanding` were awaited: the last one
/// ends the phase.
pub open spec fn count_down(outstanding: nat, waiting: PhaseView, done: PhaseView) -> (
    PhaseView,
    ActionView,
) {
    if outstanding <= 1 {
        (done, only(NextView::ListDirectory))
    } else {
        (waiting, only(NextView::AwaitResult))
    }
}

/// The step that gives the run up.
pub open spec fn give_up(failure: Failure) -> (PhaseView, ActionView) {
    (PhaseView::Failed, only(NextView::Abort(failure)))
}

/// The master's rule: from a phase and an event to the next phase and what to
/// do. An event that the phase does not wait for ends the run.
pub open spec fn transition(inputs: Seq<PathBuf>, phase: PhaseView, event: EventView) -> (
    PhaseView,
    ActionView,
) {
    match (phase, event) {
        (PhaseView::Ready, EventView::Start) => open_phase(
            map_jobs(inputs),
            PhaseView::Mapping(inputs.len()),
            PhaseView::Discovering,
        ),
        (PhaseView::Mapping(outstanding), EventView::Completed(_)) => count_down(
            outstanding,
            PhaseView::Mapping((outstanding - 1) as nat),
            PhaseView::Discovering,
        ),
        (PhaseView::Mapping(_), EventView::Disconnected) => give_up(Failure::Disconnected),
        (PhaseView::Discovering, EventView::Listing(entries)) => open_phase(
            reduce_jobs(entries),
            PhaseView::Reducing(reduce_jobs(entries).len()),
            PhaseView::Collecting,
        ),
        (PhaseView::Reducing(outstanding), EventView::Completed(_)) => count_down(
            outstanding,
            PhaseView::Reducing((outstanding - 1) as nat),
            PhaseView::Collecting,
        ),
        (PhaseView::Reducing(_), EventView::Disconnected) => give_up(Failure::Disconnected),
        (PhaseView::Collecting, EventView::Listing(entries)) => (
            PhaseView::Finished,
            only(NextView::Return(result_paths(entries))),
        ),
        _ => give_up(Failure::OutOfTurn),
    }
}

/// How a wait for results in `phase` ends: with the phase behind the work
/// when all of them arrive, and given up when the result queue is closed
/// first. A phase that awaits no result takes whatever comes as out of turn.
pub open spec fn awaited(phase: PhaseView, all_arrive: bool) -> (PhaseView, NextView) {
    match phase {
        PhaseView::Mapping(_) => if all_arrive {
            (PhaseView::Discovering, NextView::ListDirectory)
        } else {
            (PhaseView::Failed, NextView::Abort(Failure::Disconnected))
        },
        PhaseView::Reducing(_) => if all_arrive {
            (PhaseView::Collecting, NextView::ListDirectory)
        } else {
            (PhaseView::Failed, NextView::Abort(Failure::Disconnected))
        },
        _ => (PhaseView::Failed, NextView::Abort(Failure::OutOfTurn)),
    }
}

/// Where a step ends up once its jobs are submitted and the results that it
/// awaits are in, or the queue is closed: a step that awaits none stays as it
/// is.
pub open spec fn settled(step: (PhaseView, ActionView), all_arrive: bool) -> (PhaseView, NextView) {
    if step.1.next is AwaitResult {
        awaited(step.0, all_arrive)
    } else {
        (step.0, step.1.next)
    }
}

/// The master.
pub struct Master {
    input_files: Vec<PathBuf>,
    working_directory: PathBuf,
    job_queue: Sender<Job>,
    results_queue: Receiver<JobResult>,
    worker_job_queue: Receiver<Job>,
    worker_results_queue: Sender<JobResult>,
}

impl Master {
    /// A job number is an `i32`, so there are no more inputs than that.
    #[verifier::type_invariant]
    spec fn numbered(self) -> bool {
        self.input_files.len() <= i32::MAX
    }

    /// The input files, in their order.
    pub closed spec fn inputs(&self) -> Seq<PathBuf> {
        self.input_files@
    }

    /// The working directory.
    pub closed spec fn directory(&self) -> PathBuf {
        self.working_directory
    }

    /// The end of the job queue that the master puts jobs on.
    pub closed spec fn jobs_from_master(&self) -> Sender<Job> {
        self.job_queue
    }

    /// The end of the result queue that the master takes results from.
    pub closed spec fn results_for_master(&self) -> Receiver<JobResult> {
        self.results_queue
    }

    /// The end of the job queue that workers take jobs from.
    pub closed spec fn jobs_for_workers(&self) -> Receiver<Job> {
        self.worker_job_queue
    }

    /// The end of the result queue that workers report to.
    pub closed spec fn results_from_workers(&self) -> Sender<JobResult> {
        self.worker_results_queue
    }

    /// A master for `input_files`, with both ends of its job queue and of its
    /// result queue. Both queues are to be without a bound.
    pub fn new(
        working_directory: PathBuf,
        input_files: Vec<PathBuf>,
        jobs: (Sender<Job>, Receiver<Job>),
        results: (Sender<JobResult>, Receiver<JobResult>),
    ) -> (master: Master)
        requires
            input_files.len() <= i32::MAX,
        ensures
            master.inputs() == input_files@,
            master.directory() == working_directory,
            master.jobs_from_master() == jobs.0,
            master.jobs_for_workers() == jobs.1,
            master.results_from_workers() == results.0,
            master.results_for_master() == results.1,
    {
        Master {
            input_files,
            working_directory,
            job_queue: jobs.0,
            results_queue: results.1,
            worker_job_queue: jobs.1,
            worker_results_queue: results.0,
        }
    }

    /// The working directory.
    pub fn working_directory(&self) -> (directory: &PathBuf)
        ensures
            *directory == self.directory(),
    {
        &self.working_directory
    }

    /// The input files, in their order.
    pub fn input_files(&self) -> (inputs: &Vec<PathBuf>)
        ensures
            inputs@ == self.inputs(),
            inputs.len() <= i32::MAX,
    {
        proof {
            use_type_invariant(self);
        }
        &self.input_files
    }

    /// A worker on this master's queues and working directory.
    pub fn worker(&self) -> (worker: Worker)
        ensures
            worker.working_directory == self.directory(),
            worker.job_queue == self.jobs_for_workers(),
            worker.results_queue == self.results_from_workers(),
    {
        Worker {
            working_directory: self.working_directory.clone(),
            job_queue: self.worker_job_queue.clone(),
            results_queue: self.worker_results_queue.clone(),
        }
    }

    /// The pool: `n_workers` workers on this master's queues and working
    /// directory, none where `n_workers` is not positive. Each is to run on a
    /// thread of its own.
    pub fn spawn_workers(&self, n_workers: i32) -> (workers: Vec<Worker>)
        ensures
            workers.len() == if n_workers > 0 {
                n_workers as int
            } else {
                0
            },
            forall|k: int|
                0 <= k < workers.len() ==> {
                    &&& (#[trigger] workers[k]).working_directory == self.directory()
                    &&& workers[k].job_queue == self.jobs_for_workers()
                    &&& workers[k].results_queue == self.results_from_workers()
                },
    {
        let mut workers: Vec<Worker> = Vec::new();
        let mut k: i32 = 0;
        while k < n_workers
            invariant
                0 <= k,
                k == 0 || k <= n_workers,
                workers.len() == k,
                forall|j: int|
                    0 <= j < workers.len() ==> {
                        &&& (#[trigger] workers[j]).working_directory == self.directory()
                        &&& workers[j].job_queue == self.jobs_for_workers()
                        &&& workers[j].results_queue == self.results_from_workers()
                    },
            decreases n_workers - k,
        {
            workers.push(self.worker());
            k = k + 1;
        }
        workers
    }

    /// Makes the map jobs: one per input file, numbered from 1 in their order.
    pub fn do_map(&self) -> (jobs: Vec<Job>)
        ensures
            jobs.len() == self.inputs().len(),
            job_views(jobs@) == map_jobs(self.inputs()),
    {
        proof {
            use_type_invariant(self);
        }
        let mut jobs: Vec<Job> = Vec::new();
        let mut k: usize = 0;
        while k < self.input_files.len()
            invariant
                k <= self.input_files.len(),
                self.input_files.len() <= i32::MAX,
                jobs.len() == k,
                forall|j: int|
                    0 <= j < k ==> (#[trigger] jobs[j])@ == JobView::MapJob(
                        (j + 1) as i32,
                        self.input_files[j],
                    ),
            decreases self.input_files.len() - k,
        {
            jobs.push(Job::MapJob(((k + 1) as i32, self.input_files[k].clone())));
            k = k + 1;
        }
        assert(job_views(jobs@) =~= map_jobs(self.inputs()));
        jobs
    }

    /// Makes the reduce jobs that a listing of the working directory calls
    /// for: one per partition among the intermediate files in it, none where
    /// the directory could not be listed.
    pub fn do_reduce(&self, listing: &Option<Vec<DirectoryEntry>>) -> (jobs: Vec<Job>)
        ensures
            job_views(jobs@) == reduce_jobs(listing_view(*listing)),
    {
        match listing {
            Some(entries) => find_reduce_jobs(entries),
            None => {
                let jobs: Vec<Job> = Vec::new();
                assert(job_views(jobs@) =~= reduce_jobs(Seq::<EntryView>::empty()));
                jobs
            },
        }
    }

    /// Picks the result files out of a listing of the working directory, in
    /// its order: none where the directory could not be listed.
    pub fn aggregate_result_files(&self, listing: &Option<Vec<DirectoryEntry>>) -> (paths: Vec<PathBuf>)
        ensures
            paths@ == result_paths(listing_view(*listing)),
    {
        match listing {
            Some(entries) => find_result_files(entries),
            None => Vec::new(),
        }
    }

    /// Decides on one event. Nothing is sent and nothing awaited here: the
    /// jobs to submit and what to wait for are handed back.
    pub fn step(&self, phase: Phase, event: Event) -> (next: (Phase, Action))
        ensures
            (next.0@, next.1@) == transition(self.inputs(), phase@, event@),
    {
        match (phase, event) {
            (Phase::Ready, Event::Start) => {
                let jobs = self.do_map();
                let waiting = Phase::Mapping(jobs.len());
                open_phase_with(jobs, waiting, Phase::Discovering)
            },
            (Phase::Mapping(outstanding), Event::Completed(_)) => {
                if outstanding <= 1 {
                    (Phase::Discovering, only_next(Next::ListDirectory))
                } else {
                    (Phase::Mapping(outstanding - 1), only_next(Next::AwaitResult))
                }
            },
            (Phase::Mapping(_), Event::Disconnected) => (
                Phase::Failed,
                only_next(Next::Abort(Failure::Disconnected)),
            ),
            (Phase::Discovering, Event::Listing(listing)) => {
                let jobs = self.do_reduce(&listing);
                let waiting = Phase::Reducing(jobs.len());
                open_phase_with(jobs, waiting, Phase::Collecting)
            },
            (Phase::Reducing(outstanding), Event::Completed(_)) => {
                if outstanding <= 1 {
                    (Phase::Collecting, only_next(Next::ListDirectory))
                } else {
                    (Phase::Reducing(outstanding - 1), only_next(Next::AwaitResult))
                }
            },
            (Phase::Reducing(_), Event::Disconnected) => (
                Phase::Failed,
                only_next(Next::Abort(Failure::Disconnected)),
            ),
            (Phase::Collecting, Event::Listing(listing)) => (
                Phase::Finished,
                only_next(Next::Return(self.aggregate_result_files(&listing))),
            ),
            _ => (Phase::Failed, only_next(Next::Abort(Failure::OutOfTurn))),
        }
    }

    /// Puts `jobs` on the job queue, in their order.
    fn submit(&self, jobs: Vec<Job>) {
        for job in jobs {
            self.job_queue.send(job);
        }
    }

    /// The barrier at the end of a phase of work: takes results from the
    /// result queue until as many have come as `phase` awaits, or until the
    /// queue is closed.
    fn wait_for_completion(&self, phase: Phase) -> (next: (Phase, Next))
        ensures
            !(next.1 is AwaitResult),
            (next.0@, next.1@) == awaited(phase@, true) || (next.0@, next.1@) == awaited(phase@, false),
    {
        let mut current = phase;
        loop
            invariant
                current@ == phase@ || (current is Mapping && phase is Mapping) || (current is Reducing
                    && phase is Reducing),
            decreases
                    match current {
                        Phase::Mapping(outstanding) => outstanding as int,
                        Phase::Reducing(outstanding) => outstanding as int,
                        _ => 0int,
                    },
        {
            let event = match self.results_queue.recv() {
                Some(result) => Event::Completed(result),
                None => Event::Disconnected,
            };
            let (then, action) = self.step(current, event);
            assert(action@.submit.len() == 0);
            match action.next {
                Next::AwaitResult => {
                    current = then;
                },
                other => {
                    return (then, other);
                },
            }
        }
    }

    /// Takes in `event` and goes on as far as the queues allow: submits the
    /// jobs that are due, waits for as many results, and comes back when a
    /// listing is needed or the run is over.
    ///
    /// Which of the two ways a wait ends depends on the workers, so the
    /// outcome is one of two: the one where every awaited result arrives, and
    /// the one where the result queue is closed before that. Where nothing is
    /// awaited the outcome is the step's own.
    pub fn run(&self, phase: Phase, event: Event) -> (next: (Phase, Next))
        ensures
            !(next.1 is AwaitResult),
            (next.0@, next.1@) == settled(transition(self.inputs(), phase@, event@), true) || (
                next.0@,
                next.1@,
            ) == settled(transition(self.inputs(), phase@, event@), false),
    {
        let (then, action) = self.step(phase, event);
        let Action { submit, next } = action;
        self.submit(submit);
        match next {
            Next::AwaitResult => self.wait_for_completion(then),
            other => (then, other),
        }
    }
}

/// The action that submits nothing and needs `next`.
fn only_next(next: Next) -> (action: Action)
    ensures
        action@ == only(next@),
{
    let action = Action { submit: Vec::new(), next };
    assert(action@.submit =~= Seq::<JobView>::empty());
    action
}

/// Opens a phase of work on `jobs`, or passes it by where there are none.
fn open_phase_with(jobs: Vec<Job>, waiting: Phase, done: Phase) -> (next: (Phase, Action))
    ensures
        (next.0@, next.1@) == open_phase(job_views(jobs@), waiting@, done@),
{
    if jobs.len() == 0 {
        (done, only_next(Next::ListDirectory))
    } else {
        (waiting, Action { submit: jobs, next: Next::AwaitResult })
    }
}

} // verus!
