//! What holds of every run of the master, whatever the workers do.
//!
//! A run is the list of events that reach a master which starts out ready.
//! Results may come in any number and at any moment, the queue may close, and
//! listings may hold anything: the laws below hold of all such lists.

use crate::discovery::{reduce_jobs, result_paths, EntryView};
use crate::master::{map_jobs, transition, ActionView, EventView, NextView, PhaseView};
use crate::shuffle::{intermediate_ids, result_id};
use crate::worker::JobView;
use std::path::PathBuf;
use vstd::prelude::*;

verus! {

/// The phase that a master is in after `events`.
pub open spec fn phase_after(inputs: Seq<PathBuf>, events: Seq<EventView>) -> PhaseView
    decreases events.len(),
{
    if events.len() == 0 {
        PhaseView::Ready
    } else {
        transition(inputs, phase_after(inputs, events.drop_last()), events.last()).0
    }
}

/// What the master does on event `k` of `events`.
pub open spec fn action_at(inputs: Seq<PathBuf>, events: Seq<EventView>, k: int) -> ActionView
    recommends
        0 <= k < events.len(),
{
    transition(inputs, phase_after(inputs, events.take(k)), events[k]).1
}

/// How many results `events` hold.
pub open spec fn completions(events: Seq<EventView>) -> nat
    decreases events.len(),
{
    if events.len() == 0 {
        0
    } else {
        completions(events.drop_last()) + if events.last() is Completed {
            1nat
        } else {
            0nat
        }
    }
}

/// How many jobs the master submits over `events`.
pub open spec fn submissions(inputs: Seq<PathBuf>, events: Seq<EventView>) -> nat
    decreases events.len(),
{
    if events.len() == 0 {
        0
    } else {
        submissions(inputs, events.drop_last()) + transition(
            inputs,
            phase_after(inputs, events.drop_last()),
            events.last(),
        ).1.submit.len()
    }
}

/// What the phase says of the counts: while results are awaited, those that
/// came and those that are awaited make up the jobs submitted; between the
/// phases of work every job submitted has been answered.
pub open spec fn in_step(inputs: Seq<PathBuf>, events: Seq<EventView>) -> bool {
    let done = completions(events);
    let sent = submissions(inputs, events);
    match phase_after(inputs, events) {
        PhaseView::Ready => events.len() == 0,
        PhaseView::Mapping(outstanding) => outstanding >= 1 && sent == inputs.len() && done
            + outstanding == sent,
        PhaseView::Discovering => sent == inputs.len() && done == sent,
        PhaseView::Reducing(outstanding) => outstanding >= 1 && sent >= inputs.len() && done
            + outstanding == sent,
        PhaseView::Collecting => sent >= inputs.len() && done == sent,
        PhaseView::Finished => sent >= inputs.len() && done == sent,
        PhaseView::Failed => true,
    }
}

/// The counts go with the phase after any events.
pub proof fn lemma_in_step(inputs: Seq<PathBuf>, events: Seq<EventView>)
    ensures
        in_step(inputs, events),
    decreases events.len(),
{
    if events.len() > 0 {
        let before = events.drop_last();
        lemma_in_step(inputs, before);
        let step = transition(inputs, phase_after(inputs, before), events.last());
        assert(phase_after(inputs, events) == step.0);
        assert(submissions(inputs, events) == submissions(inputs, before) + step.1.submit.len());
        assert(completions(events) == completions(before) + if events.last() is Completed {
            1nat
        } else {
            0nat
        });
        if phase_after(inputs, before) is Ready {
            assert(completions(before) == 0);
            assert(submissions(inputs, before) == 0);
        }
    }
}

/// The first step of a run submits the map jobs: one for each input, in the
/// order of the inputs, numbered 1, 2, and so on without a gap.
pub proof fn lemma_map_jobs_are_numbered(inputs: Seq<PathBuf>)
    requires
        inputs.len() <= i32::MAX,
    ensures
        transition(inputs, PhaseView::Ready, EventView::Start).1.submit == map_jobs(inputs),
        map_jobs(inputs).len() == inputs.len(),
        forall|k: int|
            0 <= k < inputs.len() ==> ({
                &&& (#[trigger] map_jobs(inputs)[k]) matches JobView::MapJob(job_id, input)
                &&& job_id == k + 1
                &&& input == inputs[k]
            }),
{
    assert(transition(inputs, PhaseView::Ready, EventView::Start).1.submit =~= map_jobs(inputs));
}

/// No reduce job is submitted before as many results have come in as there
/// are inputs, in whatever order and number the events arrive.
pub proof fn lemma_reduce_waits_for_map(inputs: Seq<PathBuf>, events: Seq<EventView>, k: int, j: int)
    requires
        0 <= k < events.len(),
        0 <= j < action_at(inputs, events, k).submit.len(),
        action_at(inputs, events, k).submit[j] is Reduce,
    ensures
        completions(events.take(k)) >= inputs.len(),
{
    lemma_in_step(inputs, events.take(k));
}

/// No result file is returned before every job that was submitted, map and
/// reduce, has been answered by a result.
pub proof fn lemma_results_wait_for_reduce(inputs: Seq<PathBuf>, events: Seq<EventView>, k: int)
    requires
        0 <= k < events.len(),
        action_at(inputs, events, k).next is Return,
    ensures
        completions(events.take(k)) == submissions(inputs, events.take(k)),
        submissions(inputs, events.take(k)) >= inputs.len(),
{
    lemma_in_step(inputs, events.take(k));
}

/// Map jobs are submitted on the first event or never, and only map jobs are
/// submitted then.
pub proof fn lemma_map_jobs_come_first(inputs: Seq<PathBuf>, events: Seq<EventView>, k: int, j: int)
    requires
        0 <= k < events.len(),
        0 <= j < action_at(inputs, events, k).submit.len(),
    ensures
        action_at(inputs, events, k).submit[j] is MapJob <==> k == 0,
{
    lemma_in_step(inputs, events.take(k));
}

/// Whether no name in `listing` is the name of an intermediate file.
pub open spec fn holds_no_intermediate_file(listing: Seq<EntryView>) -> bool {
    forall|k: int| 0 <= k < listing.len() ==> intermediate_ids(#[trigger] listing[k].name) is None
}

/// Whether no name in `listing` is the name of a result file.
pub open spec fn holds_no_result_file(listing: Seq<EntryView>) -> bool {
    forall|k: int| 0 <= k < listing.len() ==> result_id(#[trigger] listing[k].name) is None
}

/// A listing without intermediate files calls for no reduce job.
pub proof fn lemma_no_files_no_jobs(listing: Seq<EntryView>)
    requires
        holds_no_intermediate_file(listing),
    ensures
        reduce_jobs(listing).len() == 0,
    decreases listing.len(),
{
    crate::discovery::lemma_partitions_are_exact(listing);
    if reduce_jobs(listing).len() > 0 {
        let ids = crate::discovery::partitions(listing);
        assert(ids.contains(ids[0]));
    }
}

/// A listing without result files gives no result.
pub proof fn lemma_no_files_no_results(listing: Seq<EntryView>)
    requires
        holds_no_result_file(listing),
    ensures
        result_paths(listing).len() == 0,
    decreases listing.len(),
{
    if listing.len() > 0 {
        assert(listing.last() == listing[listing.len() - 1]);
        assert forall|k: int| 0 <= k < listing.drop_last().len() implies result_id(
            #[trigger] listing.drop_last()[k].name,
        ) is None by {
            assert(listing.drop_last()[k] == listing[k]);
        }
        lemma_no_files_no_results(listing.drop_last());
    }
}

/// Nothing in, nothing out: without inputs no map job is submitted and no
/// result awaited; a working directory without intermediate files then leads
/// to no reduce job, and one without result files to an empty result.
pub proof fn lemma_empty_run(first_listing: Seq<EntryView>, second_listing: Seq<EntryView>)
    requires
        holds_no_intermediate_file(first_listing),
        holds_no_result_file(second_listing),
    ensures
        ({
            let inputs = Seq::<PathBuf>::empty();
            let events = seq![
                EventView::Start,
                EventView::Listing(first_listing),
                EventView::Listing(second_listing),
            ];
            &&& action_at(inputs, events, 0) == ActionView {
                submit: Seq::empty(),
                next: NextView::ListDirectory,
            }
            &&& action_at(inputs, events, 1) == ActionView {
                submit: Seq::empty(),
                next: NextView::ListDirectory,
            }
            &&& action_at(inputs, events, 2) == ActionView {
                submit: Seq::empty(),
                next: NextView::Return(Seq::empty()),
            }
            &&& phase_after(inputs, events) == PhaseView::Finished
        }),
{
    let inputs = Seq::<PathBuf>::empty();
    let events = seq![
        EventView::Start,
        EventView::Listing(first_listing),
        EventView::Listing(second_listing),
    ];
    lemma_no_files_no_jobs(first_listing);
    lemma_no_files_no_results(second_listing);
    assert(result_paths(second_listing) =~= Seq::<PathBuf>::empty());
    assert(map_jobs(inputs).len() == 0);
    let none = Seq::<EventView>::empty();
    let one = seq![EventView::Start];
    let two = seq![EventView::Start, EventView::Listing(first_listing)];
    assert(events.take(0) =~= none);
    assert(events.take(1) =~= one);
    assert(events.take(2) =~= two);
    assert(one.drop_last() =~= none);
    assert(two.drop_last() =~= one);
    assert(events.drop_last() =~= two);
    assert(phase_after(inputs, none) == PhaseView::Ready);
    assert(phase_after(inputs, one) == PhaseView::Discovering);
    assert(phase_after(inputs, two) == PhaseView::Collecting);
    assert(phase_after(inputs, events) == PhaseView::Finished);
}

} // verus!
