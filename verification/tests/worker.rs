use mapreduce::worker::{
    assign, write_map_results, Activity, Job, JobResult, Output, Signal, Task, Turn, Worker,
};
use std::path::PathBuf;

fn map_fn() -> Vec<String> {
    vec!["1", "2", "3", "4"].iter().map(|s| s.to_string()).collect()
}

fn reduce_fn() -> String {
    "1234".to_string()
}

fn output(name: &str, contents: &str) -> Output {
    Output { name: name.to_string(), contents: contents.to_string() }
}

fn idle_worker(directory: &str) -> Worker {
    let (_work_send, work_recv) = chan::sync(1);
    let (results_send, _results_recv) = chan::sync(1);
    Worker {
        working_directory: PathBuf::from(directory),
        job_queue: work_recv,
        results_queue: results_send,
    }
}

#[test]
fn worker_maps_input_to_result_files() {
    let working_directory = PathBuf::from("./test-data/worker_maps_input_to_result_files");
    let mut map_file = working_directory.clone();
    map_file.push("input_file");

    let (work_send, work_recv) = chan::sync(4);
    let (results_send, results_recv) = chan::sync(4);

    let worker = Worker {
        working_directory: working_directory.clone(),
        job_queue: work_recv,
        results_queue: results_send,
    };

    work_send.send(Job::MapJob((1, map_file.clone())));
    drop(work_send);

    let (activity, task) = worker.run(Activity::Idle, Signal::Ready);
    assert_eq!(task, Task::RunMap(map_file));
    let (activity, task) = worker.run(activity, Signal::Mapped(map_fn()));
    let written = match task {
        Task::Write(outputs) => outputs,
        other => panic!("{:?}", other),
    };
    let (activity, task) = worker.run(activity, Signal::Written);
    let done = results_recv.recv();
    drop(results_recv);

    assert_eq!(done, Some(JobResult::MapFinished(1)));
    assert_eq!((activity, task), (Activity::Stopped, Task::Stop));
    let expected_files = vec![
        "map.1.reduce.1",
        "map.1.reduce.2",
        "map.1.reduce.3",
        "map.1.reduce.4",
    ];
    let names = written.iter().map(|o| o.name.as_str()).collect::<Vec<&str>>();
    assert_eq!(names, expected_files);
    let contents = written.iter().map(|o| o.contents.clone()).collect::<Vec<String>>();
    assert_eq!(contents, vec!["1", "2", "3", "4"]);
}

#[test]
fn worker_reduces_input_to_result_file() {
    let working_directory = PathBuf::from("./test-data/worker_reduces_input_to_test_file");
    let reduce_files = (1..5)
        .map(|i| {
            let mut path = working_directory.clone();
            path.push(format!("map.{}.reduce.2", i));
            path
        })
        .collect::<Vec<PathBuf>>();

    let (work_send, work_recv) = chan::sync(4);
    let (results_send, results_recv) = chan::sync(4);

    let worker = Worker {
        working_directory: working_directory.clone(),
        job_queue: work_recv,
        results_queue: results_send,
    };

    work_send.send(Job::Reduce((2, reduce_files.clone())));
    drop(work_send);

    let (activity, task) = worker.run(Activity::Idle, Signal::Ready);
    assert_eq!(task, Task::RunReduce(reduce_files));
    let (activity, task) = worker.run(activity, Signal::Reduced(reduce_fn()));
    assert_eq!(task, Task::Write(vec![output("reduce.2.result", "1234")]));
    let (activity, task) = worker.run(activity, Signal::Written);
    let done = results_recv.recv();
    drop(results_recv);

    assert_eq!(done, Some(JobResult::ReduceFinished(2)));
    assert_eq!((activity, task), (Activity::Stopped, Task::Stop));
}

#[test]
fn a_worker_names_one_file_per_fragment() {
    let worker = idle_worker("work");
    assert_eq!(worker.map_result_names(&3, 0), Vec::<String>::new());
    assert_eq!(worker.map_result_names(&3, 1), vec!["map.3.reduce.1"]);
    assert_eq!(
        worker.map_result_names(&12, 3),
        vec!["map.12.reduce.1", "map.12.reduce.2", "map.12.reduce.3"]
    );
    assert_eq!(worker.map_result_names(&1, 11)[10], "map.1.reduce.11");
}

#[test]
fn a_worker_names_the_result_of_a_partition() {
    let worker = idle_worker("work");
    assert_eq!(worker.reduce_result_name(&1), "reduce.1.result");
    assert_eq!(worker.reduce_result_name(&31), "reduce.31.result");
}

#[test]
fn running_a_map_job_again_names_the_same_files() {
    let worker = idle_worker("work");
    let fragments = || vec!["left".to_string(), "right".to_string()];
    let first = worker.map_results(3, fragments());
    let second = worker.map_results(3, fragments());
    assert_eq!(
        first,
        vec![output("map.3.reduce.1", "left"), output("map.3.reduce.2", "right")]
    );
    assert_eq!(first, second);
}

#[test]
fn fragments_go_to_the_partitions_of_their_positions() {
    let worker = idle_worker("work");
    assert_eq!(worker.map_results(5, Vec::new()), Vec::<Output>::new());
    assert_eq!(
        worker.map_results(5, vec!["a".to_string(), String::new(), "c\nd\n".to_string()]),
        vec![
            output("map.5.reduce.1", "a"),
            output("map.5.reduce.2", ""),
            output("map.5.reduce.3", "c\nd\n"),
        ]
    );
}

#[test]
fn the_result_of_a_partition_is_one_file() {
    let worker = idle_worker("work");
    assert_eq!(
        worker.reduce_results(4, "x=1\ny=2\n".to_string()),
        vec![output("reduce.4.result", "x=1\ny=2\n")]
    );
}

#[test]
fn names_and_contents_are_paired_as_far_as_both_reach() {
    let names = |n: usize| (0..n).map(|k| format!("n{}", k)).collect::<Vec<String>>();
    let texts = |n: usize| (0..n).map(|k| format!("t{}", k)).collect::<Vec<String>>();
    assert_eq!(
        write_map_results(names(2), texts(2)),
        vec![output("n0", "t0"), output("n1", "t1")]
    );
    assert_eq!(write_map_results(names(1), texts(3)), vec![output("n0", "t0")]);
    assert_eq!(write_map_results(names(3), texts(1)), vec![output("n0", "t0")]);
    assert_eq!(write_map_results(names(0), texts(2)), Vec::<Output>::new());
    assert_eq!(write_map_results(names(2), texts(0)), Vec::<Output>::new());
}

#[test]
fn a_worker_starts_on_the_job_it_is_given() {
    let input = PathBuf::from("work/input_1");
    assert_eq!(
        assign(Some(Job::MapJob((7, input.clone())))),
        (Activity::Mapping(7), Task::RunMap(input.clone()))
    );
    assert_eq!(
        assign(Some(Job::Reduce((2, vec![input.clone(), input.clone()])))),
        (Activity::Reducing(2), Task::RunReduce(vec![input.clone(), input]))
    );
    assert_eq!(assign(None), (Activity::Stopped, Task::Stop));
}

#[test]
fn a_worker_decides_on_each_signal() {
    let worker = idle_worker("work");
    assert_eq!(worker.step(Activity::Idle, Signal::Ready), Turn::Take(None));
    assert_eq!(
        worker.step(Activity::Mapping(2), Signal::Mapped(vec!["a".to_string()])),
        Turn::Proceed(
            Activity::Writing(JobResult::MapFinished(2)),
            Task::Write(vec![output("map.2.reduce.1", "a")])
        )
    );
    assert_eq!(
        worker.step(Activity::Reducing(9), Signal::Reduced("sum".to_string())),
        Turn::Proceed(
            Activity::Writing(JobResult::ReduceFinished(9)),
            Task::Write(vec![output("reduce.9.result", "sum")])
        )
    );
    assert_eq!(
        worker.step(Activity::Writing(JobResult::MapFinished(2)), Signal::Written),
        Turn::Take(Some(JobResult::MapFinished(2)))
    );
    assert_eq!(
        worker.step(Activity::Writing(JobResult::ReduceFinished(9)), Signal::Written),
        Turn::Take(Some(JobResult::ReduceFinished(9)))
    );
}

#[test]
fn a_signal_out_of_turn_stops_the_worker() {
    let worker = idle_worker("work");
    let stop = || Turn::Proceed(Activity::Stopped, Task::Stop);
    assert_eq!(worker.step(Activity::Idle, Signal::Written), stop());
    assert_eq!(worker.step(Activity::Idle, Signal::Mapped(Vec::new())), stop());
    assert_eq!(worker.step(Activity::Mapping(1), Signal::Ready), stop());
    assert_eq!(worker.step(Activity::Mapping(1), Signal::Reduced(String::new())), stop());
    assert_eq!(worker.step(Activity::Mapping(1), Signal::Written), stop());
    assert_eq!(worker.step(Activity::Reducing(1), Signal::Mapped(Vec::new())), stop());
    assert_eq!(worker.step(Activity::Reducing(1), Signal::Written), stop());
    assert_eq!(
        worker.step(Activity::Writing(JobResult::MapFinished(1)), Signal::Ready),
        stop()
    );
    assert_eq!(worker.step(Activity::Stopped, Signal::Ready), stop());
    assert_eq!(worker.step(Activity::Stopped, Signal::Written), stop());
}

#[test]
fn a_worker_stops_when_the_job_queue_is_closed() {
    let (work_send, work_recv) = chan::sync::<Job>(1);
    let (results_send, _results_recv) = chan::sync(1);
    let worker = Worker {
        working_directory: PathBuf::from("work"),
        job_queue: work_recv,
        results_queue: results_send,
    };
    drop(work_send);
    assert_eq!(worker.run(Activity::Idle, Signal::Ready), (Activity::Stopped, Task::Stop));
}

#[test]
fn a_worker_takes_one_job_after_the_other() {
    let (work_send, work_recv) = chan::sync(4);
    let (results_send, results_recv) = chan::sync(4);
    let worker = Worker {
        working_directory: PathBuf::from("work"),
        job_queue: work_recv,
        results_queue: results_send,
    };
    work_send.send(Job::MapJob((1, PathBuf::from("work/input_1"))));
    work_send.send(Job::Reduce((1, vec![PathBuf::from("work/map.1.reduce.1")])));
    drop(work_send);

    let (activity, task) = worker.run(Activity::Idle, Signal::Ready);
    assert_eq!((activity, task), (Activity::Mapping(1), Task::RunMap(PathBuf::from("work/input_1"))));
    let (activity, task) = worker.run(activity, Signal::Mapped(vec!["x".to_string()]));
    assert_eq!(activity, Activity::Writing(JobResult::MapFinished(1)));
    assert_eq!(task, Task::Write(vec![output("map.1.reduce.1", "x")]));
    let (activity, task) = worker.run(activity, Signal::Written);
    assert_eq!(
        (activity, task),
        (Activity::Reducing(1), Task::RunReduce(vec![PathBuf::from("work/map.1.reduce.1")]))
    );
    let (activity, task) = worker.run(activity, Signal::Reduced("x".to_string()));
    assert_eq!(activity, Activity::Writing(JobResult::ReduceFinished(1)));
    assert_eq!(task, Task::Write(vec![output("reduce.1.result", "x")]));
    let (activity, task) = worker.run(activity, Signal::Written);
    assert_eq!((activity, task), (Activity::Stopped, Task::Stop));

    assert_eq!(results_recv.recv(), Some(JobResult::MapFinished(1)));
    assert_eq!(results_recv.recv(), Some(JobResult::ReduceFinished(1)));
}
