//! What a listing of the working directory tells the master.
//!
//! The caller lists the directory and hands over, for each entry, its name and
//! its path. From the names alone the master finds the partitions that the map
//! phase produced, and later the result files.

use crate::shuffle::{intermediate_ids, read_intermediate_name, read_result_name, result_id};
use crate::worker::{job_views, Job, JobView};
use std::path::PathBuf;
use vstd::prelude::*;

verus! {

/// One entry of the working directory.
#[derive(Debug, PartialEq, Eq)]
pub struct DirectoryEntry {
    /// The name of the file, without the directory.
    pub name: String,
    /// The path under which the file is opened.
    pub path: PathBuf,
}

/// An entry as contracts see it.
pub ghost struct EntryView {
    pub name: Seq<char>,
    pub path: PathBuf,
}

impl View for DirectoryEntry {
    type V = EntryView;

    open spec fn view(&self) -> EntryView {
        EntryView { name: self.name@, path: self.path }
    }
}

/// The entries of a listing, each as contracts see it.
pub open spec fn entry_views(listing: Seq<DirectoryEntry>) -> Seq<EntryView> {
    Seq::new(listing.len(), |k: int| listing[k]@)
}

/// What a listing holds, as contracts see it: nothing where the directory
/// could not be listed.
pub open spec fn listing_view(listing: Option<Vec<DirectoryEntry>>) -> Seq<EntryView> {
    match listing {
        Some(entries) => entry_views(entries@),
        None => Seq::empty(),
    }
}

/// The partition that `name` belongs to, if it is the name of an intermediate
/// file.
pub open spec fn partition_of(name: Seq<char>) -> Option<i32> {
    match intermediate_ids(name) {
        Some((_, partition_id)) => Some(partition_id as i32),
        None => None,
    }
}

/// The partitions that occur among the names of `listing`, each once, in the
/// order in which they first occur.
pub open spec fn partitions(listing: Seq<EntryView>) -> Seq<i32>
    decreases listing.len(),
{
    if listing.len() == 0 {
        Seq::empty()
    } else {
        let before = partitions(listing.drop_last());
        match partition_of(listing.last().name) {
            Some(partition_id) => if before.contains(partition_id) {
                before
            } else {
                before.push(partition_id)
            },
            None => before,
        }
    }
}

/// The paths of the intermediate files of `partition_id`, in the order of
/// `listing`.
pub open spec fn contributors(listing: Seq<EntryView>, partition_id: i32) -> Seq<PathBuf>
    decreases listing.len(),
{
    if listing.len() == 0 {
        Seq::empty()
    } else {
        let before = contributors(listing.drop_last(), partition_id);
        if partition_of(listing.last().name) == Some(partition_id) {
            before.push(listing.last().path)
        } else {
            before
        }
    }
}

/// The reduce jobs that `listing` calls for: one for each partition that
/// occurs, with all the files of that partition.
pub open spec fn reduce_jobs(listing: Seq<EntryView>) -> Seq<JobView> {
    let ids = partitions(listing);
    Seq::new(ids.len(), |k: int| JobView::Reduce(ids[k], contributors(listing, ids[k])))
}

/// The paths of the result files in `listing`, in its order.
pub open spec fn result_paths(listing: Seq<EntryView>) -> Seq<PathBuf>
    decreases listing.len(),
{
    if listing.len() == 0 {
        Seq::empty()
    } else {
        let before = result_paths(listing.drop_last());
        if result_id(listing.last().name) is Some {
            before.push(listing.last().path)
        } else {
            before
        }
    }
}

/// Whether some entry of `listing` is an intermediate file of `partition_id`.
pub open spec fn occurs(listing: Seq<EntryView>, partition_id: i32) -> bool {
    exists|k: int| 0 <= k < listing.len() && partition_of(#[trigger] listing[k].name) == Some(partition_id)
}

/// The partitions found are exactly those that occur, none of them twice.
pub proof fn lemma_partitions_are_exact(listing: Seq<EntryView>)
    ensures
        partitions(listing).no_duplicates(),
        forall|partition_id: i32| #[trigger]
            partitions(listing).contains(partition_id) <==> occurs(listing, partition_id),
    decreases listing.len(),
{
    if listing.len() == 0 {
        assert forall|partition_id: i32| #[trigger]
            partitions(listing).contains(partition_id) <==> occurs(listing, partition_id) by {}
    } else {
        let shorter = listing.drop_last();
        let before = partitions(shorter);
        let after = partitions(listing);
        lemma_partitions_are_exact(shorter);
        assert forall|partition_id: i32| #[trigger]
            after.contains(partition_id) <==> occurs(listing, partition_id) by {
            assert(before.contains(partition_id) <==> occurs(shorter, partition_id));
            if occurs(shorter, partition_id) {
                let k = choose|k: int|
                    0 <= k < shorter.len() && partition_of(#[trigger] shorter[k].name) == Some(
                        partition_id,
                    );
                assert(listing[k] == shorter[k]);
            }
            if occurs(listing, partition_id) {
                let k = choose|k: int|
                    0 <= k < listing.len() && partition_of(#[trigger] listing[k].name) == Some(
                        partition_id,
                    );
                if k < shorter.len() {
                    assert(listing[k] == shorter[k]);
                }
            }
            if after.contains(partition_id) && !before.contains(partition_id) {
                assert(after == before.push(partition_id));
                assert(partition_of(listing[listing.len() - 1].name) == Some(partition_id));
            }
            if before.contains(partition_id) {
                let j = choose|j: int| 0 <= j < before.len() && before[j] == partition_id;
                assert(after[j] == partition_id);
            }
            if partition_of(listing.last().name) == Some(partition_id) && !before.contains(partition_id) {
                assert(after[before.len() as int] == partition_id);
            }
        }
    }
}

/// A partition has files exactly when it occurs: no reduce job is made for a
/// partition without files, and none is left out.
pub proof fn lemma_contributors_exist(listing: Seq<EntryView>, partition_id: i32)
    ensures
        contributors(listing, partition_id).len() > 0 <==> occurs(listing, partition_id),
    decreases listing.len(),
{
    if listing.len() > 0 {
        let shorter = listing.drop_last();
        lemma_contributors_exist(shorter, partition_id);
        if occurs(shorter, partition_id) {
            let k = choose|k: int|
                0 <= k < shorter.len() && partition_of(#[trigger] shorter[k].name) == Some(partition_id);
            assert(listing[k] == shorter[k]);
        }
        if occurs(listing, partition_id) {
            let k = choose|k: int|
                0 <= k < listing.len() && partition_of(#[trigger] listing[k].name) == Some(partition_id);
            if k < shorter.len() {
                assert(listing[k] == shorter[k]);
            }
        }
        if partition_of(listing.last().name) == Some(partition_id) {
            assert(partition_of(listing[listing.len() - 1].name) == Some(partition_id));
        }
    }
}

/// Whether `path` is the path of an entry of `listing` that is an
/// intermediate file of `partition_id`.
pub open spec fn is_file_of(listing: Seq<EntryView>, partition_id: i32, path: PathBuf) -> bool {
    exists|k: int|
        0 <= k < listing.len() && partition_of(#[trigger] listing[k].name) == Some(partition_id)
            && listing[k].path == path
}

/// The files of a partition are those of the entries that carry it: each of
/// them is among the files, and nothing else is.
pub proof fn lemma_contributors_are_exact(listing: Seq<EntryView>, partition_id: i32)
    ensures
        forall|path: PathBuf|
            contributors(listing, partition_id).contains(path) <==> #[trigger] is_file_of(
                listing,
                partition_id,
                path,
            ),
    decreases listing.len(),
{
    let files = contributors(listing, partition_id);
    if listing.len() == 0 {
        assert forall|path: PathBuf| files.contains(path) <==> #[trigger] is_file_of(
            listing,
            partition_id,
            path,
        ) by {}
    } else {
        let shorter = listing.drop_last();
        let before = contributors(shorter, partition_id);
        let last = listing.len() - 1;
        lemma_contributors_are_exact(shorter, partition_id);
        assert forall|path: PathBuf| files.contains(path) <==> #[trigger] is_file_of(
            listing,
            partition_id,
            path,
        ) by {
            assert(before.contains(path) <==> is_file_of(shorter, partition_id, path));
            if is_file_of(shorter, partition_id, path) {
                let k = choose|k: int|
                    0 <= k < shorter.len() && partition_of(#[trigger] shorter[k].name) == Some(
                        partition_id,
                    ) && shorter[k].path == path;
                assert(listing[k] == shorter[k]);
                let j = choose|j: int| 0 <= j < before.len() && before[j] == path;
                assert(files[j] == path);
            }
            if is_file_of(listing, partition_id, path) {
                let k = choose|k: int|
                    0 <= k < listing.len() && partition_of(#[trigger] listing[k].name) == Some(
                        partition_id,
                    ) && listing[k].path == path;
                if k < last {
                    assert(listing[k] == shorter[k]);
                } else {
                    assert(files[files.len() - 1] == path);
                }
            }
            if files.contains(path) {
                let j = choose|j: int| 0 <= j < files.len() && files[j] == path;
                if j < before.len() {
                    assert(before[j] == path);
                } else {
                    assert(partition_of(listing[last].name) == Some(partition_id));
                    assert(listing[last].path == path);
                }
            }
        }
    }
}

/// Every reduce job has at least one file to read.
pub proof fn lemma_every_job_has_inputs(listing: Seq<EntryView>, k: int)
    requires
        0 <= k < reduce_jobs(listing).len(),
    ensures
        reduce_jobs(listing)[k] == JobView::Reduce(
            partitions(listing)[k],
            contributors(listing, partitions(listing)[k]),
        ),
        contributors(listing, partitions(listing)[k]).len() > 0,
{
    let ids = partitions(listing);
    lemma_partitions_are_exact(listing);
    assert(ids.contains(ids[k]));
    lemma_contributors_exist(listing, ids[k]);
}

/// Whether `ids` holds `partition_id`.
fn holds(ids: &Vec<i32>, partition_id: i32) -> (found: bool)
    ensures
        found == ids@.contains(partition_id),
{
    let mut k: usize = 0;
    while k < ids.len()
        invariant
            k <= ids.len(),
            forall|j: int| 0 <= j < k ==> ids@[j] != partition_id,
        decreases ids.len() - k,
    {
        if ids[k] == partition_id {
            return true;
        }
        k = k + 1;
    }
    false
}

/// Reads the partition off each name of `listing`.
fn read_partitions(listing: &Vec<DirectoryEntry>) -> (labels: Vec<Option<i32>>)
    ensures
        labels.len() == listing.len(),
        forall|k: int| 0 <= k < listing.len() ==> #[trigger] labels[k] == partition_of(listing[k]@.name),
{
    let mut labels: Vec<Option<i32>> = Vec::new();
    let mut k: usize = 0;
    while k < listing.len()
        invariant
            k <= listing.len(),
            labels.len() == k,
            forall|j: int| 0 <= j < k ==> #[trigger] labels[j] == partition_of(listing[j]@.name),
        decreases listing.len() - k,
    {
        let label = match read_intermediate_name(listing[k].name.as_str()) {
            Some((_, partition_id)) => Some(partition_id),
            None => None,
        };
        labels.push(label);
        k = k + 1;
    }
    labels
}

/// Makes the reduce jobs that `listing` calls for: one for each partition
/// among its intermediate files, in the order in which the partitions first
/// occur, each with the paths of its files in the order of the listing.
pub fn find_reduce_jobs(listing: &Vec<DirectoryEntry>) -> (jobs: Vec<Job>)
    ensures
        jobs.len() == partitions(entry_views(listing@)).len(),
        job_views(jobs@) == reduce_jobs(entry_views(listing@)),
{
    let ghost entries = entry_views(listing@);
    let labels = read_partitions(listing);
    let mut ids: Vec<i32> = Vec::new();
    let mut k: usize = 0;
    assert(entries.take(0) =~= Seq::<EntryView>::empty());
    while k < listing.len()
        invariant
            k <= listing.len(),
            entries == entry_views(listing@),
            labels.len() == listing.len(),
            forall|j: int| 0 <= j < listing.len() ==> #[trigger] labels[j] == partition_of(listing[j]@.name),
            ids@ == partitions(entries.take(k as int)),
        decreases listing.len() - k,
    {
        let ghost seen = entries.take(k as int);
        let ghost next = entries.take(k + 1);
        assert(next.drop_last() =~= seen);
        assert(next.last() == listing[k as int]@);
        match labels[k] {
            Some(partition_id) => {
                if !holds(&ids, partition_id) {
                    ids.push(partition_id);
                }
            },
            None => {},
        }
        k = k + 1;
    }
    assert(entries.take(k as int) =~= entries);
    let mut jobs: Vec<Job> = Vec::new();
    let mut g: usize = 0;
    while g < ids.len()
        invariant
            g <= ids.len(),
            entries == entry_views(listing@),
            labels.len() == listing.len(),
            forall|j: int| 0 <= j < listing.len() ==> #[trigger] labels[j] == partition_of(listing[j]@.name),
            ids@ == partitions(entries),
            jobs.len() == g,
            forall|j: int|
                0 <= j < g ==> (#[trigger] jobs[j])@ == JobView::Reduce(
                    ids[j],
                    contributors(entries, ids[j]),
                ),
        decreases ids.len() - g,
    {
        let partition_id = ids[g];
        let mut inputs: Vec<PathBuf> = Vec::new();
        let mut k: usize = 0;
        assert(entries.take(0) =~= Seq::<EntryView>::empty());
        while k < listing.len()
            invariant
                k <= listing.len(),
                entries == entry_views(listing@),
                labels.len() == listing.len(),
                forall|j: int|
                    0 <= j < listing.len() ==> #[trigger] labels[j] == partition_of(listing[j]@.name),
                inputs@ == contributors(entries.take(k as int), partition_id),
            decreases listing.len() - k,
        {
            let ghost seen = entries.take(k as int);
            let ghost next = entries.take(k + 1);
            assert(next.drop_last() =~= seen);
            assert(next.last() == listing[k as int]@);
            if labels[k] == Some(partition_id) {
                inputs.push(listing[k].path.clone());
            }
            k = k + 1;
        }
        assert(entries.take(k as int) =~= entries);
        jobs.push(Job::Reduce((partition_id, inputs)));
        g = g + 1;
    }
    assert(job_views(jobs@) =~= reduce_jobs(entries));
    jobs
}

/// Picks the result files out of `listing`: the paths of the entries whose
/// names are names of result files, in the order of the listing.
pub fn find_result_files(listing: &Vec<DirectoryEntry>) -> (paths: Vec<PathBuf>)
    ensures
        paths@ == result_paths(entry_views(listing@)),
{
    let ghost entries = entry_views(listing@);
    let mut paths: Vec<PathBuf> = Vec::new();
    let mut k: usize = 0;
    assert(entries.take(0) =~= Seq::<EntryView>::empty());
    while k < listing.len()
        invariant
            k <= listing.len(),
            entries == entry_views(listing@),
            paths@ == result_paths(entries.take(k as int)),
        decreases listing.len() - k,
    {
        let ghost seen = entries.take(k as int);
        let ghost next = entries.take(k + 1);
        assert(next.drop_last() =~= seen);
        assert(next.last() == listing[k as int]@);
        if read_result_name(listing[k].name.as_str()).is_some() {
            paths.push(listing[k].path.clone());
        }
        k = k + 1;
    }
    assert(entries.take(k as int) =~= entries);
    paths
}

} // verus!
