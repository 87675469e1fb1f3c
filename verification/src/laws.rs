//! What holds of the parsers, the matcher and the query on every input.

use crate::check_flags::{CheckScripts, CheckThreads, CheckWorkers};
use crate::process::{
    entry_matches, invoked_arguments, is_login_marked, primary_match, root_gate, LinksView,
    ProcessView,
};
use crate::process_table::{
    is_id_of_match, is_visible, matches_at, matching_ids, snapshot, KTHREADD_PID,
};
use crate::procfs::{
    candidate_id, entry_of, lemma_entry_of_well_formed, process_entries, stat_record,
    thread_entries, EntryFilesView, ProcessFilesView, FIELD_SEPARATOR, PROCESS_NAME_PREFIX,
    PROCESS_NAME_SUFFIX,
};
use crate::text::{
    base_start, lemma_base_start, lemma_decimal_value_injective, parse_i32_spec, split,
};
use crate::utils::final_segment;
use vstd::prelude::*;

verus! {

/// The final segment of a path is the end of the path, holds no `/`, and is
/// the whole path where the path holds none.
pub proof fn lemma_final_segment(path: Seq<char>)
    ensures
        final_segment(path).is_suffix_of(path),
        !final_segment(path).contains('/'),
        !path.contains('/') ==> final_segment(path) == path,
{
    lemma_base_start(path);
    let start = base_start(path) as int;
    assert(path.skip(path.len() - final_segment(path).len()) =~= final_segment(path));
    if !path.contains('/') {
        if start > 0 {
            assert(path[start - 1] == '/');
        }
        assert(path.skip(0) =~= path);
    }
}

/// A status record whose second field lacks the `(` in front or the `)` at
/// its end cannot be read.
pub proof fn lemma_unwrapped_name_unreadable(record: Seq<char>)
    requires
        ({
            let fields = split(record, FIELD_SEPARATOR);
            fields.len() < 2 || fields[1].len() == 0 || fields[1].first() != PROCESS_NAME_PREFIX
                || fields[1].last() != PROCESS_NAME_SUFFIX
        }),
    ensures
        stat_record(record) is Err,
{
}

/// A status record whose fourth field does not write an `i32` cannot be
/// read.
pub proof fn lemma_unwritten_parent_unreadable(record: Seq<char>)
    requires
        ({
            let fields = split(record, FIELD_SEPARATOR);
            fields.len() < 4 || parse_i32_spec(fields[3]) is None
        }),
    ensures
        stat_record(record) is Err,
{
}

/// A status record that can be read holds the short name between `(` and `)`
/// as its second field and writes the parent identifier in its fourth.
pub proof fn lemma_read_record(record: Seq<char>)
    ensures
        stat_record(record) matches Ok((parent_id, short_name)) ==> {
            let fields = split(record, FIELD_SEPARATOR);
            &&& fields.len() >= 4
            &&& fields[1] == seq![PROCESS_NAME_PREFIX] + short_name + seq![PROCESS_NAME_SUFFIX]
            &&& parse_i32_spec(fields[3]) == Some(parent_id)
        },
{
    if let Ok((parent_id, short_name)) = stat_record(record) {
        let fields = split(record, FIELD_SEPARATOR);
        assert(fields[1] =~= seq![PROCESS_NAME_PREFIX] + short_name + seq![PROCESS_NAME_SUFFIX]);
    }
}

/// An entry that passes the root gate matches the first argument that counts
/// and the final segment of it, whatever the other policies are.
pub proof fn lemma_argument_zero_matches(
    entry: ProcessView,
    check_root: Option<Seq<char>>,
    check_workers: CheckWorkers,
    check_scripts: CheckScripts,
    links: LinksView,
)
    requires
        root_gate(check_root, links.root),
        invoked_arguments(entry.arguments).len() > 0,
    ensures
        entry_matches(
            entry,
            invoked_arguments(entry.arguments)[0],
            check_root,
            check_workers,
            check_scripts,
            links,
        ),
        entry_matches(
            entry,
            final_segment(invoked_arguments(entry.arguments)[0]),
            check_root,
            check_workers,
            check_scripts,
            links,
        ),
{
}

/// An entry of which every argument carries the login shell marker matches
/// no name.
pub proof fn lemma_login_shell_only_never_matches(
    entry: ProcessView,
    name: Seq<char>,
    check_root: Option<Seq<char>>,
    check_workers: CheckWorkers,
    check_scripts: CheckScripts,
    links: LinksView,
)
    requires
        forall|i: int| 0 <= i < entry.arguments.len() ==> is_login_marked(entry.arguments[i]),
    ensures
        !entry_matches(entry, name, check_root, check_workers, check_scripts, links),
{
    let keep = |argument: Seq<char>| !is_login_marked(argument);
    let invoked = entry.arguments.filter(keep);
    if invoked.len() > 0 {
        entry.arguments.lemma_filter_pred(keep, 0);
        entry.arguments.lemma_filter_contains_rev(keep, invoked[0]);
        assert(invoked.contains(invoked[0]));
    }
}

/// Without the worker policy the short name takes no part in the primary
/// match: a name that is the short name, but neither argument zero, nor its
/// final segment, nor the executable link or its final segment, and whose own
/// final segment is not argument zero, is no primary match. With the worker
/// policy it is one.
pub proof fn lemma_short_name_needs_worker_policy(
    name: Seq<char>,
    arg0: Seq<char>,
    short_name: Seq<char>,
    exe_link: Option<Seq<char>>,
)
    requires
        name == short_name,
        name != arg0,
        name != final_segment(arg0),
        final_segment(name) != arg0,
        exe_link matches Some(exe) ==> name != exe && name != final_segment(exe),
    ensures
        !primary_match(name, arg0, short_name, CheckWorkers::No, exe_link),
        primary_match(name, arg0, short_name, CheckWorkers::Yes, exe_link),
{
}

/// Without the worker policy the primary match is the same whatever the
/// short name is.
pub proof fn lemma_primary_match_ignores_short_name(
    name: Seq<char>,
    arg0: Seq<char>,
    short_name: Seq<char>,
    other_short_name: Seq<char>,
    exe_link: Option<Seq<char>>,
)
    ensures
        primary_match(name, arg0, short_name, CheckWorkers::No, exe_link) == primary_match(
            name,
            arg0,
            other_short_name,
            CheckWorkers::No,
            exe_link,
        ),
{
}

/// An entry whose root link did not resolve, or resolved to another root
/// than the one that entries are held to, matches no name.
pub proof fn lemma_root_gate_closes(
    entry: ProcessView,
    name: Seq<char>,
    own_root: Seq<char>,
    check_workers: CheckWorkers,
    check_scripts: CheckScripts,
    links: LinksView,
)
    requires
        links.root != Some(own_root),
    ensures
        !entry_matches(entry, name, Some(own_root), check_workers, check_scripts, links),
{
}

/// Every identifier that a query returns is that of an entry of the table
/// that matches.
pub proof fn lemma_query_returns_matching_entries(
    entries: Seq<ProcessView>,
    links: Seq<LinksView>,
    name: Seq<char>,
    check_root: Option<Seq<char>>,
    check_workers: CheckWorkers,
    check_scripts: CheckScripts,
)
    ensures
        forall|k: int|
            0 <= k < matching_ids(
                entries,
                links,
                name,
                check_root,
                check_workers,
                check_scripts,
            ).len() ==> is_id_of_match(
                entries,
                links,
                name,
                check_root,
                check_workers,
                check_scripts,
                #[trigger] matching_ids(
                    entries,
                    links,
                    name,
                    check_root,
                    check_workers,
                    check_scripts,
                )[k],
            ),
    decreases entries.len(),
{
    let ids = matching_ids(entries, links, name, check_root, check_workers, check_scripts);
    if entries.len() > 0 {
        let front = entries.drop_last();
        let before = matching_ids(front, links, name, check_root, check_workers, check_scripts);
        lemma_query_returns_matching_entries(
            front,
            links,
            name,
            check_root,
            check_workers,
            check_scripts,
        );
        assert forall|k: int| 0 <= k < ids.len() implies is_id_of_match(
            entries,
            links,
            name,
            check_root,
            check_workers,
            check_scripts,
            #[trigger] ids[k],
        ) by {
            if k < before.len() {
                assert(ids[k] == before[k]);
                assert(is_id_of_match(
                    front,
                    links,
                    name,
                    check_root,
                    check_workers,
                    check_scripts,
                    before[k],
                ));
                let i = choose|i: int|
                    #![trigger front[i]]
                    matches_at(front, links, name, check_root, check_workers, check_scripts, i)
                        && front[i].id == before[k];
                assert(entries[i] == front[i]);
            } else {
                assert(entries[entries.len() - 1].id == ids[k]);
            }
        }
    }
}

/// Every entry of the table that matches has its identifier among those
/// that the query returns.
pub proof fn lemma_query_returns_every_match(
    entries: Seq<ProcessView>,
    links: Seq<LinksView>,
    name: Seq<char>,
    check_root: Option<Seq<char>>,
    check_workers: CheckWorkers,
    check_scripts: CheckScripts,
    i: int,
)
    requires
        matches_at(entries, links, name, check_root, check_workers, check_scripts, i),
    ensures
        matching_ids(entries, links, name, check_root, check_workers, check_scripts).contains(
            entries[i].id,
        ),
    decreases entries.len(),
{
    let ids = matching_ids(entries, links, name, check_root, check_workers, check_scripts);
    let front = entries.drop_last();
    let before = matching_ids(front, links, name, check_root, check_workers, check_scripts);
    if i == entries.len() - 1 {
        assert(ids == before.push(entries.last().id));
        assert(ids[ids.len() - 1] == entries[i].id);
    } else {
        assert(front[i] == entries[i]);
        lemma_query_returns_every_match(
            front,
            links,
            name,
            check_root,
            check_workers,
            check_scripts,
            i,
        );
        let k = choose|k: int| 0 <= k < before.len() && before[k] == entries[i].id;
        assert(ids[k] == entries[i].id);
    }
}

/// Whether no identifier stands at two places of a snapshot.
pub open spec fn has_distinct_ids(entries: Seq<ProcessView>) -> bool {
    forall|i: int, j: int|
        0 <= i < j < entries.len() ==> (#[trigger] entries[i]).id != (#[trigger] entries[j]).id
}

/// On a snapshot in which no identifier stands twice, a query returns no
/// identifier twice.
pub proof fn lemma_query_returns_no_duplicate(
    entries: Seq<ProcessView>,
    links: Seq<LinksView>,
    name: Seq<char>,
    check_root: Option<Seq<char>>,
    check_workers: CheckWorkers,
    check_scripts: CheckScripts,
)
    requires
        has_distinct_ids(entries),
    ensures
        matching_ids(entries, links, name, check_root, check_workers, check_scripts).no_duplicates(),
    decreases entries.len(),
{
    let ids = matching_ids(entries, links, name, check_root, check_workers, check_scripts);
    if entries.len() > 0 {
        let front = entries.drop_last();
        let before = matching_ids(front, links, name, check_root, check_workers, check_scripts);
        assert forall|i: int, j: int| 0 <= i < j < front.len() implies (#[trigger] front[i]).id != (
        #[trigger] front[j]).id by {
            assert(front[i] == entries[i] && front[j] == entries[j]);
        }
        lemma_query_returns_no_duplicate(
            front,
            links,
            name,
            check_root,
            check_workers,
            check_scripts,
        );
        lemma_query_returns_matching_entries(
            front,
            links,
            name,
            check_root,
            check_workers,
            check_scripts,
        );
        assert forall|a: int, b: int| 0 <= a < ids.len() && 0 <= b < ids.len() && a != b implies ids[a]
            != ids[b] by {
            let (low, high) = if a < b {
                (a, b)
            } else {
                (b, a)
            };
            if high < before.len() {
                assert(ids[low] == before[low] && ids[high] == before[high]);
            } else {
                assert(ids[low] == before[low]);
                assert(is_id_of_match(
                    front,
                    links,
                    name,
                    check_root,
                    check_workers,
                    check_scripts,
                    before[low],
                ));
                let i = choose|i: int|
                    #![trigger front[i]]
                    matches_at(front, links, name, check_root, check_workers, check_scripts, i)
                        && front[i].id == before[low];
                assert(front[i] == entries[i]);
                assert(entries[entries.len() - 1] == entries.last());
            }
        }
    }
}

/// A snapshot made with kernel workers hidden holds neither the kernel
/// thread daemon nor any of its children, so no query on it returns one.
pub proof fn lemma_hidden_kernel_workers_absent(
    listing: Seq<ProcessFilesView>,
    check_threads: CheckThreads,
)
    ensures
        forall|i: int|
            0 <= i < snapshot(listing, check_threads, true).len() ==> {
                let entry = #[trigger] snapshot(listing, check_threads, true)[i];
                entry.parent_id != KTHREADD_PID && entry.id != KTHREADD_PID
            },
{
    let read = |files: ProcessFilesView| process_entries(files, check_threads);
    let stays = |entry: ProcessView| is_visible(true, entry);
    let all = listing.flat_map(read);
    assert forall|i: int| 0 <= i < all.filter(stays).len() implies {
        let entry = #[trigger] all.filter(stays)[i];
        entry.parent_id != KTHREADD_PID && entry.id != KTHREADD_PID
    } by {
        all.lemma_filter_pred(stays, i);
    }
}

/// A snapshot made without hiding kernel workers holds every entry that was
/// read, and the one made with hiding them holds of these the ones that
/// stay, in the same order.
pub proof fn lemma_visible_kernel_workers_present(
    listing: Seq<ProcessFilesView>,
    check_threads: CheckThreads,
)
    ensures
        snapshot(listing, check_threads, false) == listing.flat_map(
            |files: ProcessFilesView| process_entries(files, check_threads),
        ),
        snapshot(listing, check_threads, true) == snapshot(listing, check_threads, false).filter(
            |entry: ProcessView| is_visible(true, entry),
        ),
{
    let read = |files: ProcessFilesView| process_entries(files, check_threads);
    let all = listing.flat_map(read);
    lemma_filter_all(all, |entry: ProcessView| is_visible(false, entry));
}

/// Filtering by what holds of every element changes nothing.
proof fn lemma_filter_all<A>(s: Seq<A>, keep: spec_fn(A) -> bool)
    requires
        forall|i: int| 0 <= i < s.len() ==> keep(#[trigger] s[i]),
    ensures
        s.filter(keep) == s,
    decreases s.len(),
{
    reveal(Seq::filter);
    if s.len() > 0 {
        let front = s.drop_last();
        assert forall|i: int| 0 <= i < front.len() implies keep(#[trigger] front[i]) by {
            assert(front[i] == s[i]);
        }
        lemma_filter_all(front, keep);
        assert(keep(s[s.len() - 1]));
        assert(front.push(s.last()) =~= s);
    }
}

/// What a snapshot is after one more entry of the listing: the snapshot of
/// the entries before it, then what the last one contributes and is not
/// hidden.
pub proof fn lemma_snapshot_push(
    listing: Seq<ProcessFilesView>,
    last: ProcessFilesView,
    check_threads: CheckThreads,
    hide_kernel: bool,
)
    ensures
        snapshot(listing.push(last), check_threads, hide_kernel) == snapshot(
            listing,
            check_threads,
            hide_kernel,
        ) + process_entries(last, check_threads).filter(
            |entry: ProcessView| is_visible(hide_kernel, entry),
        ),
{
    let read = |files: ProcessFilesView| process_entries(files, check_threads);
    let stays = |entry: ProcessView| is_visible(hide_kernel, entry);
    listing.lemma_flat_map_push(read, last);
    Seq::filter_distributes_over_add(listing.flat_map(read), read(last), stays);
}

/// Every entry of a snapshot is well formed and has an argument.
pub proof fn lemma_snapshot_well_formed(
    listing: Seq<ProcessFilesView>,
    check_threads: CheckThreads,
    hide_kernel: bool,
)
    ensures
        forall|i: int|
            0 <= i < snapshot(listing, check_threads, hide_kernel).len() ==> {
                let entry = #[trigger] snapshot(listing, check_threads, hide_kernel)[i];
                entry.well_formed() && entry.arguments.len() > 0
            },
    decreases listing.len(),
{
    let stays = |entry: ProcessView| is_visible(hide_kernel, entry);
    let all = snapshot(listing, check_threads, hide_kernel);
    if listing.len() == 0 {
        reveal(Seq::filter);
        assert(listing.flat_map(|files: ProcessFilesView| process_entries(files, check_threads))
            =~= Seq::<ProcessView>::empty());
    } else {
        let front = listing.drop_last();
        let last = listing.last();
        let found = process_entries(last, check_threads);
        assert(front.push(last) =~= listing);
        lemma_snapshot_push(front, last, check_threads, hide_kernel);
        lemma_snapshot_well_formed(front, check_threads, hide_kernel);
        let before = snapshot(front, check_threads, hide_kernel);
        assert forall|i: int| 0 <= i < all.len() implies {
            let entry = #[trigger] all[i];
            entry.well_formed() && entry.arguments.len() > 0
        } by {
            if i < before.len() {
                assert(all[i] == before[i]);
            } else {
                let entry = all[i];
                assert(found.filter(stays)[i - before.len()] == entry);
                assert(found.filter(stays).contains(entry));
                found.lemma_filter_contains_rev(stays, entry);
                lemma_process_entries_well_formed(last, check_threads, entry);
            }
        }
    }
}

/// Every entry that one entry of the listing contributes is well formed and
/// has an argument.
proof fn lemma_process_entries_well_formed(
    files: ProcessFilesView,
    check_threads: CheckThreads,
    entry: ProcessView,
)
    requires
        process_entries(files, check_threads).contains(entry),
    ensures
        entry.well_formed(),
        entry.arguments.len() > 0,
{
    let process = entry_of(files.entry, None)->0;
    lemma_entry_of_well_formed(files.entry, None);
    if entry != process {
        let listed = files.tasks->0;
        let read = |thread: EntryFilesView| entry_of(thread, Some(process.id));
        let threads = thread_entries(files.tasks, process.id);
        let found = process_entries(files, check_threads);
        let i = choose|i: int| 0 <= i < found.len() && found[i] == entry;
        assert(threads[i] == entry);
        assert(threads.contains(entry));
        listed.lemma_filter_map_contains(read, entry);
        let thread = choose|thread: EntryFilesView| #[trigger]
            listed.contains(thread) && read(thread) == Some(entry);
        lemma_entry_of_well_formed(thread, Some(process.id));
    }
}

/// Every thread entry belongs to the group of the process that owns it,
/// and a process is its own group.
pub proof fn lemma_groups(files: ProcessFilesView)
    ensures
        entry_of(files.entry, None) matches Some(process) ==> process.group_id == process.id && (
        forall|i: int|
            0 <= i < thread_entries(files.tasks, process.id).len() ==> (#[trigger] thread_entries(
                files.tasks,
                process.id,
            )[i]).group_id == process.id),
{
    if let Some(process) = entry_of(files.entry, None) {
        let threads = thread_entries(files.tasks, process.id);
        let read = |thread: EntryFilesView| entry_of(thread, Some(process.id));
        assert forall|i: int| 0 <= i < threads.len() implies (#[trigger] threads[i]).group_id
            == process.id by {
            let listed = files.tasks->0;
            assert(threads.contains(threads[i]));
            listed.lemma_filter_map_contains(read, threads[i]);
        }
    }
}

/// Two directory names that stand for the same identifier are the same
/// name.
pub proof fn lemma_candidate_id_injective(a: Seq<char>, b: Seq<char>)
    requires
        candidate_id(a) is Some,
        candidate_id(a) == candidate_id(b),
    ensures
        a == b,
{
    lemma_decimal_value_injective(a, b);
}

/// Whether no name stands at two places of a root listing, as in the
/// listing of a directory.
pub open spec fn has_distinct_names(listing: Seq<ProcessFilesView>) -> bool {
    forall|i: int, j: int|
        0 <= i < j < listing.len() ==> (#[trigger] listing[i]).entry.name != (
        #[trigger] listing[j]).entry.name
}

/// Whether `id` is the identifier that some name of the root listing stands
/// for.
pub open spec fn is_listed(listing: Seq<ProcessFilesView>, id: i32) -> bool {
    exists|k: int|
        0 <= k < listing.len() && candidate_id((#[trigger] listing[k]).entry.name) == Some(id)
}

/// A snapshot made without threads, from a listing in which no name stands
/// twice, holds no identifier twice, and each identifier in it is one that a
/// name of the listing stands for.
pub proof fn lemma_snapshot_has_distinct_ids(listing: Seq<ProcessFilesView>, hide_kernel: bool)
    requires
        has_distinct_names(listing),
    ensures
        has_distinct_ids(snapshot(listing, CheckThreads::No, hide_kernel)),
        forall|i: int|
            0 <= i < snapshot(listing, CheckThreads::No, hide_kernel).len() ==> is_listed(
                listing,
                (#[trigger] snapshot(listing, CheckThreads::No, hide_kernel)[i]).id,
            ),
    decreases listing.len(),
{
    let stays = |entry: ProcessView| is_visible(hide_kernel, entry);
    let all = snapshot(listing, CheckThreads::No, hide_kernel);
    if listing.len() == 0 {
        reveal(Seq::filter);
        assert(listing.flat_map(
            |files: ProcessFilesView| process_entries(files, CheckThreads::No),
        ) =~= Seq::<ProcessView>::empty());
    } else {
        let front = listing.drop_last();
        let last = listing.last();
        let found = process_entries(last, CheckThreads::No);
        assert(front.push(last) =~= listing);
        assert forall|i: int, j: int| 0 <= i < j < front.len() implies (#[trigger] front[i]).entry.name
            != (#[trigger] front[j]).entry.name by {
            assert(front[i] == listing[i] && front[j] == listing[j]);
        }
        lemma_snapshot_push(front, last, CheckThreads::No, hide_kernel);
        lemma_snapshot_has_distinct_ids(front, hide_kernel);
        let before = snapshot(front, CheckThreads::No, hide_kernel);
        found.lemma_filter_len(stays);
        assert forall|i: int| 0 <= i < all.len() implies is_listed(listing, (#[trigger] all[i]).id) by {
            if i < before.len() {
                assert(all[i] == before[i]);
                let k = choose|k: int|
                    0 <= k < front.len() && candidate_id((#[trigger] front[k]).entry.name) == Some(
                        before[i].id,
                    );
                assert(listing[k] == front[k]);
            } else {
                let entry = all[i];
                assert(found.filter(stays)[i - before.len()] == entry);
                assert(found.filter(stays).contains(entry));
                found.lemma_filter_contains_rev(stays, entry);
                assert(found[0] == entry);
                assert(listing[listing.len() - 1] == last);
            }
        }
        assert forall|i: int, j: int| 0 <= i < j < all.len() implies (#[trigger] all[i]).id != (
        #[trigger] all[j]).id by {
            if j < before.len() {
                assert(all[i] == before[i] && all[j] == before[j]);
            } else {
                assert(i < before.len());
                assert(all[i] == before[i]);
                assert(is_listed(front, before[i].id));
                let k = choose|k: int|
                    0 <= k < front.len() && candidate_id((#[trigger] front[k]).entry.name) == Some(
                        before[i].id,
                    );
                assert(listing[k] == front[k]);
                assert(listing[listing.len() - 1] == last);
                let entry = all[j];
                assert(found.filter(stays)[j - before.len()] == entry);
                assert(found.filter(stays).contains(entry));
                found.lemma_filter_contains_rev(stays, entry);
                assert(found[0] == entry);
                if all[i].id == all[j].id {
                    lemma_candidate_id_injective(front[k].entry.name, last.entry.name);
                }
            }
        }
    }
}

} // verus!
