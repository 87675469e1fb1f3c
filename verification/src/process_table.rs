//! The snapshot of the processes that were running when it was taken, and
//! the query that looks a program name up in it.

use crate::check_flags::{CheckRoot, CheckScripts, CheckThreads, CheckWorkers};
use crate::laws::lemma_snapshot_well_formed;
use crate::process::{entry_matches, LinksView, Process, ProcessLinks, ProcessView};
use crate::procfs::{process_entries, read_process_and_tasks, ProcessFiles, ProcessFilesView};
use vstd::prelude::*;

verus! {

/// The identifier of the kernel thread daemon, the parent of the kernel's
/// worker threads.
pub const KTHREADD_PID: i32 = 2;

/// The root listing of processes could not be made. This is the one failure
/// that ends a scan; `reason` says what the operating system reported.
#[derive(Debug, Clone, PartialEq, Eq)]
pub struct ScanError {
    pub reason: String,
}

/// Whether an entry stays in a snapshot: with kernel workers hidden, the
/// kernel thread daemon and its children do not.
pub open spec fn is_visible(hide_kernel: bool, entry: ProcessView) -> bool {
    !hide_kernel || !(entry.parent_id == KTHREADD_PID || entry.id == KTHREADD_PID)
}

/// The snapshot that a root listing gives: what each of its entries
/// contributes, in listing order, without the entries that are hidden.
pub open spec fn snapshot(
    listing: Seq<ProcessFilesView>,
    check_threads: CheckThreads,
    hide_kernel: bool,
) -> Seq<ProcessView> {
    listing.flat_map(|files: ProcessFilesView| process_entries(files, check_threads)).filter(
        |entry: ProcessView| is_visible(hide_kernel, entry),
    )
}

/// The links that belong to the entry at position `i`; past the end of
/// `links` nothing resolved.
pub open spec fn links_at(links: Seq<LinksView>, i: int) -> LinksView {
    if 0 <= i < links.len() {
        links[i]
    } else {
        LinksView::unresolved()
    }
}

/// Whether the table has an entry at position `i` that matches `name`,
/// judged with the links at that position.
pub open spec fn matches_at(
    entries: Seq<ProcessView>,
    links: Seq<LinksView>,
    name: Seq<char>,
    check_root: Option<Seq<char>>,
    check_workers: CheckWorkers,
    check_scripts: CheckScripts,
    i: int,
) -> bool {
    0 <= i < entries.len() && entry_matches(
        entries[i],
        name,
        check_root,
        check_workers,
        check_scripts,
        links_at(links, i),
    )
}

/// Whether `id` is the identifier of an entry of the table that matches
/// `name`.
pub open spec fn is_id_of_match(
    entries: Seq<ProcessView>,
    links: Seq<LinksView>,
    name: Seq<char>,
    check_root: Option<Seq<char>>,
    check_workers: CheckWorkers,
    check_scripts: CheckScripts,
    id: i32,
) -> bool {
    exists|i: int|
        #![trigger entries[i]]
        matches_at(entries, links, name, check_root, check_workers, check_scripts, i)
            && entries[i].id == id
}

/// The identifiers of the entries that match `name`, each judged with the
/// links at its own position, in the order of the entries.
pub open spec fn matching_ids(
    entries: Seq<ProcessView>,
    links: Seq<LinksView>,
    name: Seq<char>,
    check_root: Option<Seq<char>>,
    check_workers: CheckWorkers,
    check_scripts: CheckScripts,
) -> Seq<i32>
    decreases entries.len(),
{
    if entries.len() == 0 {
        Seq::empty()
    } else {
        let before = matching_ids(
            entries.drop_last(),
            links,
            name,
            check_root,
            check_workers,
            check_scripts,
        );
        if matches_at(
            entries,
            links,
            name,
            check_root,
            check_workers,
            check_scripts,
            entries.len() - 1,
        ) {
            before.push(entries.last().id)
        } else {
            before
        }
    }
}

/// Tells whether an entry stays in a snapshot; `hide_kernel` hides the
/// kernel thread daemon and its children.
pub fn hide_kernel_thread(hide_kernel: bool, process_info: &Process) -> (stays: bool)
    ensures
        stays == is_visible(hide_kernel, process_info@),
{
    !hide_kernel || !(process_info.parent_id == KTHREADD_PID || process_info.id == KTHREADD_PID)
}

/// Moves the entries that stay in a snapshot to the end of `snapshot`.
fn keep_visible(entries: Vec<Process>, hide_kernel: bool, snapshot: &mut Vec<Process>)
    ensures
        final(snapshot).deep_view() == old(snapshot).deep_view() + entries.deep_view().filter(
            |entry: ProcessView| is_visible(hide_kernel, entry),
        ),
{
    let ghost start = snapshot.deep_view();
    let ghost all = entries.deep_view();
    let ghost stays = |entry: ProcessView| is_visible(hide_kernel, entry);
    proof {
        reveal(Seq::filter);
        assert(all.take(0).filter(stays) =~= Seq::<ProcessView>::empty());
        assert(start + Seq::<ProcessView>::empty() =~= start);
    }
    for entry in it: entries.into_iter()
        invariant
            it.seq() == entries@,
            all == entries.deep_view(),
            stays == |entry: ProcessView| is_visible(hide_kernel, entry),
            snapshot.deep_view() == start + all.take(it.index()).filter(stays),
    {
        let ghost before = snapshot.deep_view();
        let ghost i = it.index();
        proof {
            assert(all[i] == entry@);
            assert(all.take(i + 1) =~= all.take(i).push(entry@));
            all.take(i).lemma_filter_push(entry@, stays);
        }
        if hide_kernel_thread(hide_kernel, &entry) {
            snapshot.push(entry);
            assert(snapshot.deep_view() =~= before.push(entry@));
            assert(start + all.take(i).filter(stays).push(entry@) =~= before.push(entry@));
        }
    }
    assert(all.take(all.len() as int) =~= all);
}

/// Builds the entries of a snapshot from what was read of the root listing.
///
/// Each entry of the listing is read; one that cannot be read is left out.
/// With `CheckThreads::Yes`, the threads of each process that was read stand
/// in front of it. With `hide_kernel`, the kernel thread daemon and its
/// children are left out.
pub fn read_processes(
    listing: &Vec<ProcessFiles>,
    check_threads: CheckThreads,
    hide_kernel: bool,
) -> (entries: Vec<Process>)
    ensures
        entries.deep_view() == snapshot(listing.deep_view(), check_threads, hide_kernel),
{
    let ghost all = listing.deep_view();
    let ghost read = |files: ProcessFilesView| process_entries(files, check_threads);
    let ghost stays = |entry: ProcessView| is_visible(hide_kernel, entry);
    let mut entries: Vec<Process> = Vec::new();
    let mut i: usize = 0;
    proof {
        reveal(Seq::filter);
        assert(all.take(0).flat_map(read) =~= Seq::<ProcessView>::empty());
        assert(entries.deep_view() =~= Seq::<ProcessView>::empty());
    }
    while i < listing.len()
        invariant
            i <= listing@.len(),
            all == listing.deep_view(),
            read == |files: ProcessFilesView| process_entries(files, check_threads),
            stays == |entry: ProcessView| is_visible(hide_kernel, entry),
            entries.deep_view() == all.take(i as int).flat_map(read).filter(stays),
        decreases listing@.len() - i,
    {
        let found = read_process_and_tasks(&listing[i], check_threads);
        proof {
            all.lemma_flat_map_take_append(read, i as int);
            Seq::filter_distributes_over_add(
                all.take(i as int).flat_map(read),
                found.deep_view(),
                stays,
            );
        }
        keep_visible(found, hide_kernel, &mut entries);
        i += 1;
    }
    assert(all.take(i as int) =~= all);
    entries
}

/// Holds the entries of the processes that were running when it was made,
/// to be matched against program names.
pub struct ProcessTable {
    info: Vec<Process>,
}

impl View for ProcessTable {
    type V = Seq<ProcessView>;

    /// The entries, in the order in which the scan met them.
    closed spec fn view(&self) -> Seq<ProcessView> {
        self.info.deep_view()
    }
}

impl ProcessTable {
    /// Whether every entry has a positive identifier, a short name that is
    /// not empty, and an argument. A table that was populated is well
    /// formed.
    pub open spec fn well_formed(&self) -> bool {
        forall|i: int|
            0 <= i < self@.len() ==> {
                let entry = #[trigger] self@[i];
                entry.well_formed() && entry.arguments.len() > 0
            }
    }

    /// Builds the table from the outcome of listing the processes.
    ///
    /// A listing that could not be made is the one error, handed back as it
    /// came. The table does not refresh: it tells of the processes that were
    /// there when the listing was read.
    pub fn populate(
        listing: Result<Vec<ProcessFiles>, ScanError>,
        check_threads: CheckThreads,
        hide_kernel: bool,
    ) -> (table: Result<Self, ScanError>)
        ensures
            match listing {
                Ok(read) => {
                    &&& table is Ok
                    &&& table->Ok_0@ == snapshot(read.deep_view(), check_threads, hide_kernel)
                    &&& table->Ok_0.well_formed()
                },
                Err(error) => table is Err && table->Err_0 == error,
            },
    {
        match listing {
            Ok(read) => {
                proof {
                    lemma_snapshot_well_formed(read.deep_view(), check_threads, hide_kernel);
                }
                Ok(Self { info: read_processes(&read, check_threads, hide_kernel) })
            },
            Err(error) => Err(error),
        }
    }

    /// The entries of the table.
    pub fn entries(&self) -> (entries: &Vec<Process>)
        ensures
            entries.deep_view() == self@,
    {
        &self.info
    }

    /// The identifiers of the entries, in the order of the table.
    pub fn ids(&self) -> (ids: Vec<i32>)
        ensures
            ids@ == self@.map_values(|entry: ProcessView| entry.id),
    {
        let mut ids: Vec<i32> = Vec::new();
        let mut i: usize = 0;
        while i < self.info.len()
            invariant
                i <= self.info@.len(),
                ids@ == self@.take(i as int).map_values(|entry: ProcessView| entry.id),
            decreases self.info@.len() - i,
        {
            ids.push(self.info[i].id);
            assert(ids@ =~= self@.take(i + 1).map_values(|entry: ProcessView| entry.id));
            i += 1;
        }
        assert(self@.take(i as int) =~= self@);
        ids
    }

    /// Scans the table for the entries that match the program name and
    /// returns their identifiers, in the order of the table.
    ///
    /// `links` holds, for the entry at each position, what its links resolved
    /// to for this query; an entry past the end of `links` is judged as one
    /// whose links did not resolve.
    #[must_use]
    pub fn pid_of(
        &self,
        program_name: &str,
        check_root: &CheckRoot,
        check_workers: CheckWorkers,
        check_scripts: CheckScripts,
        links: &Vec<ProcessLinks>,
    ) -> (ids: Vec<i32>)
        ensures
            ids@ == matching_ids(
                self@,
                links.deep_view(),
                program_name@,
                check_root@,
                check_workers,
                check_scripts,
            ),
    {
        let unresolved = ProcessLinks { root: None, exe: None };
        let mut ids: Vec<i32> = Vec::new();
        let mut i: usize = 0;
        while i < self.info.len()
            invariant
                i <= self.info@.len(),
                unresolved@ == LinksView::unresolved(),
                ids@ == matching_ids(
                    self@.take(i as int),
                    links.deep_view(),
                    program_name@,
                    check_root@,
                    check_workers,
                    check_scripts,
                ),
            decreases self.info@.len() - i,
        {
            let entry_links = if i < links.len() {
                &links[i]
            } else {
                &unresolved
            };
            assert(self@.take(i + 1).drop_last() =~= self@.take(i as int));
            if self.info[i].matches(
                program_name,
                check_root,
                check_workers,
                check_scripts,
                entry_links,
            ) {
                ids.push(self.info[i].id);
            }
            i += 1;
        }
        assert(self@.take(i as int) =~= self@);
        ids
    }
}

} // verus!
