use chan::{Receiver, Sender};
use mapreduce::discovery::DirectoryEntry;
use mapreduce::master::{Action, Event, Failure, Master, Next, Phase};
use mapreduce::worker::{Job, JobResult};
use std::path::PathBuf;

fn in_directory(directory: &PathBuf, names: &[&str]) -> Vec<PathBuf> {
    names
        .iter()
        .map(|name| {
            let mut path = directory.clone();
            path.push(name);
            path
        })
        .collect()
}

fn entries(directory: &PathBuf, names: &[String]) -> Vec<DirectoryEntry> {
    names
        .iter()
        .map(|name| {
            let mut path = directory.clone();
            path.push(name);
            DirectoryEntry { name: name.clone(), path }
        })
        .collect()
}

fn four_inputs(directory: &PathBuf) -> Vec<PathBuf> {
    in_directory(directory, &["input_1", "input_2", "input_3", "input_4"])
}

fn intermediate_names() -> Vec<String> {
    let mut names = Vec::new();
    for map_id in 1..(4 + 1) {
        for reduce_id in 1..(4 + 1) {
            names.push(format!("map.{}.reduce.{}", map_id, reduce_id));
        }
    }
    names
}

/// A master on queues that hold up to 64 entries, with the far ends of both.
fn master_on_queues(
    directory: &PathBuf,
    inputs: Vec<PathBuf>,
) -> (Master, Receiver<Job>, Sender<JobResult>) {
    let (job_send, job_recv) = chan::sync(64);
    let (result_send, result_recv) = chan::sync(64);
    let master = Master::new(
        directory.clone(),
        inputs,
        (job_send, job_recv.clone()),
        (result_send.clone(), result_recv),
    );
    (master, job_recv, result_send)
}

fn nothing_but(next: Next) -> Action {
    Action { submit: Vec::new(), next }
}

fn reduce_id(job: &Job) -> i32 {
    match job {
        Job::Reduce((id, _)) => *id,
        Job::MapJob((id, _)) => *id,
    }
}

#[test]
fn master_enqueues_map_jobs() {
    let working_directory = PathBuf::from("./test-data/master_enqueues_map_jobs");
    let input_files = four_inputs(&working_directory);
    let (master, job_recv, result_send) = master_on_queues(&working_directory, input_files.clone());
    for id in 1..(4 + 1) {
        result_send.send(JobResult::MapFinished(id));
    }

    let n_map_jobs = master.do_map().len();
    let (phase, next) = master.run(Phase::Ready, Event::Start);
    drop(master);
    let map_jobs = job_recv.iter().collect::<Vec<Job>>();

    let expected_jobs = input_files
        .iter()
        .enumerate()
        .map(|(i, f)| Job::MapJob(((i + 1) as i32, f.clone())))
        .collect::<Vec<Job>>();
    assert_eq!(n_map_jobs, 4);
    assert_eq!(map_jobs, expected_jobs);
    assert_eq!(phase, Phase::Discovering);
    assert_eq!(next, Next::ListDirectory);
}

#[test]
fn master_enqueues_reduce_jobs() {
    let working_directory = PathBuf::from("./test-data/master_enqueues_reduce_jobs");
    let input_files = four_inputs(&working_directory);
    let (master, job_recv, result_send) = master_on_queues(&working_directory, input_files);
    for id in 1..(4 + 1) {
        result_send.send(JobResult::ReduceFinished(id));
    }
    let mut names = vec![
        "input_1".to_string(),
        "input_2".to_string(),
        "input_3".to_string(),
        "input_4".to_string(),
    ];
    names.extend(intermediate_names());

    let n_reduce_jobs = master.do_reduce(&Some(entries(&working_directory, &names))).len();
    let (phase, next) = master.run(
        Phase::Discovering,
        Event::Listing(Some(entries(&working_directory, &names))),
    );
    drop(master);
    let mut reduce_jobs = job_recv.iter().collect::<Vec<Job>>();
    reduce_jobs.sort_by(|fst, snd| reduce_id(fst).cmp(&reduce_id(snd)));

    let expected_jobs = (1..(4 + 1))
        .map(|reduce_id| {
            let files = (1..(4 + 1))
                .map(|map_id| {
                    let mut path = working_directory.clone();
                    path.push(format!("map.{}.reduce.{}", map_id, reduce_id));
                    path
                })
                .collect::<Vec<PathBuf>>();
            Job::Reduce((reduce_id, files))
        })
        .collect::<Vec<Job>>();
    assert_eq!(n_reduce_jobs, 4);
    assert_eq!(reduce_jobs, expected_jobs);
    assert_eq!(phase, Phase::Collecting);
    assert_eq!(next, Next::ListDirectory);
}

#[test]
fn map_jobs_are_numbered_from_one_in_input_order() {
    let directory = PathBuf::from("work");
    for n in [0usize, 1, 2, 7, 100] {
        let inputs: Vec<PathBuf> = (0..n).map(|k| directory.join(format!("part-{}", k))).collect();
        let (master, _jobs, _results) = master_on_queues(&directory, inputs.clone());
        let jobs = master.do_map();
        assert_eq!(jobs.len(), n);
        for (k, job) in jobs.iter().enumerate() {
            assert_eq!(*job, Job::MapJob(((k + 1) as i32, inputs[k].clone())));
        }
    }
}

#[test]
fn the_first_step_submits_the_map_jobs_and_awaits_a_result() {
    let directory = PathBuf::from("work");
    let inputs = four_inputs(&directory);
    let (master, _jobs, _results) = master_on_queues(&directory, inputs.clone());
    let (phase, action) = master.step(Phase::Ready, Event::Start);
    assert_eq!(phase, Phase::Mapping(4));
    assert_eq!(action.next, Next::AwaitResult);
    assert_eq!(
        action.submit,
        vec![
            Job::MapJob((1, inputs[0].clone())),
            Job::MapJob((2, inputs[1].clone())),
            Job::MapJob((3, inputs[2].clone())),
            Job::MapJob((4, inputs[3].clone())),
        ]
    );
}

#[test]
fn results_are_counted_down_whatever_they_name() {
    let directory = PathBuf::from("work");
    let (master, _jobs, _results) = master_on_queues(&directory, four_inputs(&directory));
    assert_eq!(
        master.step(Phase::Mapping(3), Event::Completed(JobResult::MapFinished(1))),
        (Phase::Mapping(2), nothing_but(Next::AwaitResult))
    );
    assert_eq!(
        master.step(Phase::Mapping(2), Event::Completed(JobResult::ReduceFinished(77))),
        (Phase::Mapping(1), nothing_but(Next::AwaitResult))
    );
    assert_eq!(
        master.step(Phase::Mapping(1), Event::Completed(JobResult::MapFinished(1))),
        (Phase::Discovering, nothing_but(Next::ListDirectory))
    );
    assert_eq!(
        master.step(Phase::Reducing(2), Event::Completed(JobResult::MapFinished(9))),
        (Phase::Reducing(1), nothing_but(Next::AwaitResult))
    );
    assert_eq!(
        master.step(Phase::Reducing(1), Event::Completed(JobResult::ReduceFinished(2))),
        (Phase::Collecting, nothing_but(Next::ListDirectory))
    );
}

#[test]
fn a_count_of_zero_ends_the_phase_on_the_next_result() {
    let directory = PathBuf::from("work");
    let (master, _jobs, _results) = master_on_queues(&directory, four_inputs(&directory));
    assert_eq!(
        master.step(Phase::Mapping(0), Event::Completed(JobResult::MapFinished(1))),
        (Phase::Discovering, nothing_but(Next::ListDirectory))
    );
    assert_eq!(
        master.step(Phase::Reducing(0), Event::Completed(JobResult::ReduceFinished(1))),
        (Phase::Collecting, nothing_but(Next::ListDirectory))
    );
}

#[test]
fn no_reduce_job_before_the_last_map_result() {
    let directory = PathBuf::from("work");
    let inputs = four_inputs(&directory);
    let names = intermediate_names();
    // Results in every order of arrival: the listing comes too early until
    // the fourth one is in.
    for order in [[1, 2, 3, 4], [4, 3, 2, 1], [2, 4, 1, 3], [3, 3, 3, 3]] {
        let (master, _jobs, _results) = master_on_queues(&directory, inputs.clone());
        let (mut phase, first) = master.step(Phase::Ready, Event::Start);
        assert_eq!(first.submit.len(), 4);
        for (seen, id) in order.iter().enumerate() {
            let early = master.step(phase, Event::Listing(Some(entries(&directory, &names))));
            assert_eq!(early, (Phase::Failed, nothing_but(Next::Abort(Failure::OutOfTurn))));
            let (then, action) = master.step(phase, Event::Completed(JobResult::MapFinished(*id)));
            assert!(action.submit.is_empty());
            if seen < 3 {
                assert_eq!(then, Phase::Mapping(3 - seen));
                assert_eq!(action.next, Next::AwaitResult);
            } else {
                assert_eq!(then, Phase::Discovering);
                assert_eq!(action.next, Next::ListDirectory);
            }
            phase = then;
        }
        let (then, action) = master.step(phase, Event::Listing(Some(entries(&directory, &names))));
        assert_eq!(then, Phase::Reducing(4));
        assert_eq!(action.submit.len(), 4);
        assert!(action.submit.iter().all(|job| matches!(job, Job::Reduce(_))));
    }
}

#[test]
fn the_listing_after_the_map_phase_opens_the_reduce_phase() {
    let directory = PathBuf::from("work");
    let (master, _jobs, _results) = master_on_queues(&directory, four_inputs(&directory));
    let names = vec![
        "map.1.reduce.1".to_string(),
        "map.2.reduce.1".to_string(),
        "map.1.reduce.2".to_string(),
    ];
    let (phase, action) = master.step(
        Phase::Discovering,
        Event::Listing(Some(entries(&directory, &names))),
    );
    assert_eq!(phase, Phase::Reducing(2));
    assert_eq!(action.next, Next::AwaitResult);
    assert_eq!(
        action.submit,
        vec![
            Job::Reduce((1, in_directory(&directory, &["map.1.reduce.1", "map.2.reduce.1"]))),
            Job::Reduce((2, in_directory(&directory, &["map.1.reduce.2"]))),
        ]
    );
}

#[test]
fn a_directory_that_cannot_be_listed_counts_as_empty() {
    let directory = PathBuf::from("work");
    let (master, _jobs, _results) = master_on_queues(&directory, four_inputs(&directory));
    assert_eq!(master.do_reduce(&None), Vec::<Job>::new());
    assert_eq!(master.aggregate_result_files(&None), Vec::<PathBuf>::new());
    assert_eq!(
        master.step(Phase::Discovering, Event::Listing(None)),
        (Phase::Collecting, nothing_but(Next::ListDirectory))
    );
    assert_eq!(
        master.step(Phase::Collecting, Event::Listing(None)),
        (Phase::Finished, nothing_but(Next::Return(Vec::new())))
    );
}

#[test]
fn the_listing_after_the_reduce_phase_gives_the_result_files() {
    let directory = PathBuf::from("work");
    let (master, _jobs, _results) = master_on_queues(&directory, four_inputs(&directory));
    let names = vec![
        "reduce.2.result".to_string(),
        "map.1.reduce.1".to_string(),
        "input_1".to_string(),
        "reduce.1.result".to_string(),
    ];
    assert_eq!(
        master.aggregate_result_files(&Some(entries(&directory, &names))),
        in_directory(&directory, &["reduce.2.result", "reduce.1.result"])
    );
    assert_eq!(
        master.step(Phase::Collecting, Event::Listing(Some(entries(&directory, &names)))),
        (
            Phase::Finished,
            nothing_but(Next::Return(in_directory(
                &directory,
                &["reduce.2.result", "reduce.1.result"]
            )))
        )
    );
}

#[test]
fn a_closed_result_queue_ends_the_run() {
    let directory = PathBuf::from("work");
    let (master, _jobs, _results) = master_on_queues(&directory, four_inputs(&directory));
    assert_eq!(
        master.step(Phase::Mapping(2), Event::Disconnected),
        (Phase::Failed, nothing_but(Next::Abort(Failure::Disconnected)))
    );
    assert_eq!(
        master.step(Phase::Reducing(1), Event::Disconnected),
        (Phase::Failed, nothing_but(Next::Abort(Failure::Disconnected)))
    );
}

#[test]
fn an_event_out_of_turn_ends_the_run() {
    let directory = PathBuf::from("work");
    let (master, _jobs, _results) = master_on_queues(&directory, four_inputs(&directory));
    let out_of_turn = (Phase::Failed, nothing_but(Next::Abort(Failure::OutOfTurn)));
    let done = JobResult::MapFinished(1);
    assert_eq!(master.step(Phase::Ready, Event::Completed(done)), out_of_turn);
    assert_eq!(master.step(Phase::Ready, Event::Disconnected), out_of_turn);
    assert_eq!(master.step(Phase::Ready, Event::Listing(None)), out_of_turn);
    assert_eq!(master.step(Phase::Mapping(2), Event::Start), out_of_turn);
    assert_eq!(master.step(Phase::Mapping(2), Event::Listing(None)), out_of_turn);
    assert_eq!(master.step(Phase::Discovering, Event::Start), out_of_turn);
    assert_eq!(master.step(Phase::Discovering, Event::Completed(done)), out_of_turn);
    assert_eq!(master.step(Phase::Discovering, Event::Disconnected), out_of_turn);
    assert_eq!(master.step(Phase::Reducing(1), Event::Start), out_of_turn);
    assert_eq!(master.step(Phase::Reducing(1), Event::Listing(None)), out_of_turn);
    assert_eq!(master.step(Phase::Collecting, Event::Start), out_of_turn);
    assert_eq!(master.step(Phase::Collecting, Event::Completed(done)), out_of_turn);
    assert_eq!(master.step(Phase::Collecting, Event::Disconnected), out_of_turn);
    assert_eq!(master.step(Phase::Finished, Event::Start), out_of_turn);
    assert_eq!(master.step(Phase::Finished, Event::Listing(None)), out_of_turn);
    assert_eq!(master.step(Phase::Failed, Event::Start), out_of_turn);
    assert_eq!(master.step(Phase::Failed, Event::Completed(done)), out_of_turn);
}

#[test]
fn without_inputs_nothing_is_submitted_and_nothing_returned() {
    let directory = PathBuf::from("work");
    let (master, job_recv, _results) = master_on_queues(&directory, Vec::new());
    assert_eq!(master.do_map(), Vec::<Job>::new());
    assert_eq!(
        master.step(Phase::Ready, Event::Start),
        (Phase::Discovering, nothing_but(Next::ListDirectory))
    );

    let (phase, next) = master.run(Phase::Ready, Event::Start);
    assert_eq!((phase, &next), (Phase::Discovering, &Next::ListDirectory));
    let (phase, next) = master.run(phase, Event::Listing(Some(Vec::new())));
    assert_eq!((phase, &next), (Phase::Collecting, &Next::ListDirectory));
    let (phase, next) = master.run(phase, Event::Listing(Some(Vec::new())));
    assert_eq!(phase, Phase::Finished);
    assert_eq!(next, Next::Return(Vec::new()));

    drop(master);
    assert_eq!(job_recv.iter().collect::<Vec<Job>>(), Vec::<Job>::new());
}

#[test]
fn a_run_goes_through_both_phases_on_its_queues() {
    let directory = PathBuf::from("work");
    let inputs = four_inputs(&directory);
    let (master, job_recv, result_send) = master_on_queues(&directory, inputs.clone());

    for id in 1..5 {
        result_send.send(JobResult::MapFinished(id));
    }
    let (phase, next) = master.run(Phase::Ready, Event::Start);
    assert_eq!((phase, &next), (Phase::Discovering, &Next::ListDirectory));
    for id in 1..5 {
        assert_eq!(job_recv.recv(), Some(Job::MapJob((id, inputs[(id - 1) as usize].clone()))));
    }

    let names = vec!["map.1.reduce.1".to_string(), "map.1.reduce.2".to_string()];
    result_send.send(JobResult::ReduceFinished(2));
    result_send.send(JobResult::ReduceFinished(1));
    let (phase, next) = master.run(phase, Event::Listing(Some(entries(&directory, &names))));
    assert_eq!((phase, &next), (Phase::Collecting, &Next::ListDirectory));
    assert_eq!(
        job_recv.recv(),
        Some(Job::Reduce((1, in_directory(&directory, &["map.1.reduce.1"]))))
    );
    assert_eq!(
        job_recv.recv(),
        Some(Job::Reduce((2, in_directory(&directory, &["map.1.reduce.2"]))))
    );

    let names = vec![
        "map.1.reduce.1".to_string(),
        "map.1.reduce.2".to_string(),
        "reduce.1.result".to_string(),
        "reduce.2.result".to_string(),
    ];
    let (phase, next) = master.run(phase, Event::Listing(Some(entries(&directory, &names))));
    assert_eq!(phase, Phase::Finished);
    assert_eq!(
        next,
        Next::Return(in_directory(&directory, &["reduce.1.result", "reduce.2.result"]))
    );
}

#[test]
fn a_run_is_given_up_when_the_result_queue_closes() {
    let directory = PathBuf::from("work");
    let (job_send, job_recv) = chan::sync(64);
    let (lost_send, result_recv) = chan::sync(64);
    let (other_send, _other_recv) = chan::sync::<JobResult>(1);
    lost_send.send(JobResult::MapFinished(1));
    drop(lost_send);
    let master = Master::new(
        directory.clone(),
        four_inputs(&directory),
        (job_send, job_recv.clone()),
        (other_send, result_recv),
    );
    let (phase, next) = master.run(Phase::Ready, Event::Start);
    assert_eq!(phase, Phase::Failed);
    assert_eq!(next, Next::Abort(Failure::Disconnected));
}

#[test]
fn run_passes_an_event_out_of_turn_back_at_once() {
    let directory = PathBuf::from("work");
    let (master, _jobs, _results) = master_on_queues(&directory, four_inputs(&directory));
    let (phase, next) = master.run(Phase::Ready, Event::Listing(None));
    assert_eq!(phase, Phase::Failed);
    assert_eq!(next, Next::Abort(Failure::OutOfTurn));
}

#[test]
fn the_pool_has_as_many_workers_as_asked_for() {
    let directory = PathBuf::from("work");
    let (master, _jobs, _results) = master_on_queues(&directory, four_inputs(&directory));
    for (asked, made) in [(0, 0), (1, 1), (2, 2), (8, 8), (-1, 0), (i32::MIN, 0)] {
        let workers = master.spawn_workers(asked);
        assert_eq!(workers.len(), made);
        for worker in workers.iter() {
            assert_eq!(worker.working_directory, directory);
        }
    }
}

#[test]
fn a_worker_of_the_pool_is_on_the_masters_queues() {
    let directory = PathBuf::from("work");
    let inputs = four_inputs(&directory);
    let (master, job_recv, result_send) = master_on_queues(&directory, inputs.clone());
    let worker = master.worker();
    assert!(worker.job_queue == job_recv);
    assert!(worker.results_queue == result_send);

    result_send.send(JobResult::MapFinished(1));
    result_send.send(JobResult::MapFinished(2));
    result_send.send(JobResult::MapFinished(3));
    result_send.send(JobResult::MapFinished(4));
    master.run(Phase::Ready, Event::Start);
    assert_eq!(worker.job_queue.recv(), Some(Job::MapJob((1, inputs[0].clone()))));
}

#[test]
fn the_master_keeps_its_directory_and_inputs() {
    let directory = PathBuf::from("some/where");
    let inputs = four_inputs(&directory);
    let (master, _jobs, _results) = master_on_queues(&directory, inputs.clone());
    assert_eq!(*master.working_directory(), directory);
    assert_eq!(*master.input_files(), inputs);
}
