//! The entry reader's parsers: the text records that the kernel keeps for one
//! process, and the name of the directory that holds them.

use crate::check_flags::CheckThreads;
use crate::process::{Process, ProcessView};
use crate::text::{
    chars_of, field_bounds, find_from, lemma_leading_digit_counts, lemma_split_from, parse_i32,
    parse_i32_spec, split,
};
use vstd::prelude::*;
use vstd::string::StrSliceExecFns;

verus! {

/// Separates the fields of a status record.
pub const FIELD_SEPARATOR: char = ' ';

/// Opens the short name in a status record.
pub const PROCESS_NAME_PREFIX: char = '(';

/// Closes the short name in a status record.
pub const PROCESS_NAME_SUFFIX: char = ')';

/// Ends each argument in an argument record.
pub const ARGUMENT_TERMINATOR: char = '\0';

/// The field of a status record at which reading it stopped.
#[derive(Debug, Clone, Copy, PartialEq, Eq)]
pub enum ParseError {
    /// The record has no second field.
    MissingName,
    /// The second field does not begin with `(`.
    MissingPrefix,
    /// The second field, behind its `(`, does not end with `)`.
    MissingSuffix,
    /// The record has no fourth field.
    MissingParent,
    /// The fourth field does not write an `i32`.
    InvalidParent,
}

/// What a status record says: the parent identifier and the short name, or
/// the first field that is missing or malformed.
///
/// The record is one line of fields separated by single spaces. The second
/// field is the short name between `(` and `)`; the fourth is the parent
/// identifier, a decimal `i32`.
pub open spec fn stat_record(s: Seq<char>) -> Result<(i32, Seq<char>), ParseError> {
    let fields = split(s, FIELD_SEPARATOR);
    if fields.len() < 2 {
        Err(ParseError::MissingName)
    } else if !(fields[1].len() >= 1 && fields[1].first() == PROCESS_NAME_PREFIX) {
        Err(ParseError::MissingPrefix)
    } else if !(fields[1].len() >= 2 && fields[1].last() == PROCESS_NAME_SUFFIX) {
        Err(ParseError::MissingSuffix)
    } else if fields.len() < 4 {
        Err(ParseError::MissingParent)
    } else {
        match parse_i32_spec(fields[3]) {
            None => Err(ParseError::InvalidParent),
            Some(parent) => Ok((parent, fields[1].subrange(1, fields[1].len() - 1))),
        }
    }
}

/// The arguments that an argument record holds: its pieces between NUL
/// characters, without the empty piece behind the last NUL. An empty record
/// holds no argument.
pub open spec fn arguments_of(s: Seq<char>) -> Seq<Seq<char>> {
    let pieces = split(s, ARGUMENT_TERMINATOR);
    if pieces.last().len() == 0 {
        pieces.drop_last()
    } else {
        pieces
    }
}

/// The identifier that a directory name stands for: the name begins with a
/// digit other than `0` and writes an `i32` in decimal.
pub open spec fn candidate_id(name: Seq<char>) -> Option<i32> {
    if name.len() > 0 && '1' <= name[0] && name[0] <= '9' {
        parse_i32_spec(name)
    } else {
        None
    }
}

/// Reads a status record field by field and names the field at which it
/// fails.
pub fn parse_stat_record(content: &str) -> (r: Result<(i32, String), ParseError>)
    ensures
        match r {
            Ok((parent, name)) => stat_record(content@) == Ok::<_, ParseError>((parent, name@)),
            Err(e) => stat_record(content@) == Err::<(i32, Seq<char>), _>(e),
        },
{
    let v = chars_of(content);
    let (a, b) = match field_bounds(v.as_slice(), FIELD_SEPARATOR, 1) {
        Some(bounds) => bounds,
        None => {
            return Err(ParseError::MissingName);
        },
    };
    if !(a < b && v[a] == PROCESS_NAME_PREFIX) {
        return Err(ParseError::MissingPrefix);
    }
    if !(a + 1 < b && v[b - 1] == PROCESS_NAME_SUFFIX) {
        return Err(ParseError::MissingSuffix);
    }
    let (c, d) = match field_bounds(v.as_slice(), FIELD_SEPARATOR, 3) {
        Some(bounds) => bounds,
        None => {
            return Err(ParseError::MissingParent);
        },
    };
    let parent = match parse_i32(v.as_slice(), c, d) {
        Some(parent) => parent,
        None => {
            return Err(ParseError::InvalidParent);
        },
    };
    let name = content.substring_char(a + 1, b - 1).to_owned();
    assert(name@ =~= v@.subrange(a as int, b as int).subrange(1, b - a - 1));
    Ok((parent, name))
}

/// Reads the parent identifier and the short name from a status record;
/// `None` when the record cannot be read.
pub fn parse_stat_file(content: &str) -> (r: Option<(i32, String)>)
    ensures
        match r {
            Some((parent, name)) => stat_record(content@) == Ok::<_, ParseError>((parent, name@)),
            None => stat_record(content@) is Err,
        },
{
    match parse_stat_record(content) {
        Ok(record) => Some(record),
        Err(_) => None,
    }
}

/// Cuts an argument record into its arguments.
pub fn parse_cmdline(content: &str) -> (args: Vec<String>)
    ensures
        args.deep_view() == arguments_of(content@),
{
    let v = chars_of(content);
    let len = v.len();
    let mut args: Vec<String> = Vec::new();
    let mut start: usize = 0;
    assert(v@.skip(0) =~= v@);
    assert(args.deep_view() + split(v@, ARGUMENT_TERMINATOR) =~= split(v@, ARGUMENT_TERMINATOR));
    loop
        invariant
            v@ == content@,
            start <= v@.len() == len,
            split(v@, ARGUMENT_TERMINATOR) == args.deep_view() + split(
                v@.skip(start as int),
                ARGUMENT_TERMINATOR,
            ),
        decreases v@.len() - start,
    {
        let end = find_from(v.as_slice(), ARGUMENT_TERMINATOR, start);
        let ghost piece = v@.subrange(start as int, end as int);
        let ghost before = args.deep_view();
        proof {
            lemma_split_from(v@, ARGUMENT_TERMINATOR, start as int);
        }
        if end == len && start == end {
            assert(split(v@, ARGUMENT_TERMINATOR).drop_last() =~= before);
            return args;
        }
        args.push(content.substring_char(start, end).to_owned());
        assert(args.deep_view() =~= before.push(piece));
        if end == len {
            assert(split(v@, ARGUMENT_TERMINATOR) =~= before.push(piece));
            return args;
        }
        assert(before + (seq![piece] + split(v@.skip(end + 1), ARGUMENT_TERMINATOR))
            =~= before.push(piece) + split(v@.skip(end + 1), ARGUMENT_TERMINATOR));
        start = end + 1;
    }
}

/// Whether a directory name begins with a digit other than `0`, as the names
/// of process directories do.
pub fn directory_name_first_letter_nonzero_number(name: &[char]) -> (r: bool)
    ensures
        r == (name@.len() > 0 && '1' <= name@[0] && name@[0] <= '9'),
{
    name.len() > 0 && name[0] >= '1' && name[0] <= '9'
}

/// Reads a directory name as the identifier of a process or thread; `None`
/// for the other entries of a process listing.
pub fn parse_id(name: &str) -> (r: Option<i32>)
    ensures
        r == candidate_id(name@),
        r matches Some(id) ==> id > 0,
{
    let v = chars_of(name);
    if directory_name_first_letter_nonzero_number(v.as_slice()) {
        assert(v@.subrange(0, v@.len() as int) =~= v@);
        proof {
            lemma_candidate_id_positive(v@);
        }
        parse_i32(v.as_slice(), 0, v.len())
    } else {
        None
    }
}

/// An identifier read from a directory name is positive.
pub proof fn lemma_candidate_id_positive(name: Seq<char>)
    ensures
        candidate_id(name) matches Some(id) ==> id > 0,
{
    if candidate_id(name) is Some {
        lemma_leading_digit_counts(name);
    }
}

/// What was read from the directory of one process or thread: its name and
/// the text of its two records, `None` for a record that could not be read.
#[derive(Debug, Clone, PartialEq, Eq)]
pub struct EntryFiles {
    /// The name of the directory.
    pub name: String,
    /// The first line of the status record.
    pub stat: Option<String>,
    /// The argument record.
    pub cmdline: Option<String>,
}

/// An `EntryFiles` as plain values.
pub struct EntryFilesView {
    pub name: Seq<char>,
    pub stat: Option<Seq<char>>,
    pub cmdline: Option<Seq<char>>,
}

impl View for EntryFiles {
    type V = EntryFilesView;

    open spec fn view(&self) -> EntryFilesView {
        EntryFilesView {
            name: self.name@,
            stat: self.stat.deep_view(),
            cmdline: self.cmdline.deep_view(),
        }
    }
}

impl DeepView for EntryFiles {
    type V = EntryFilesView;

    open spec fn deep_view(&self) -> EntryFilesView {
        self@
    }
}

/// What was read for one entry of the root listing: the directory itself
/// and, where threads are wanted, the directories of its threads. `tasks` is
/// `None` where the thread directory was not or could not be listed.
#[derive(Debug, Clone, PartialEq, Eq)]
pub struct ProcessFiles {
    pub entry: EntryFiles,
    pub tasks: Option<Vec<EntryFiles>>,
}

/// A `ProcessFiles` as plain values.
pub struct ProcessFilesView {
    pub entry: EntryFilesView,
    pub tasks: Option<Seq<EntryFilesView>>,
}

impl View for ProcessFiles {
    type V = ProcessFilesView;

    open spec fn view(&self) -> ProcessFilesView {
        ProcessFilesView { entry: self.entry@, tasks: self.tasks.deep_view() }
    }
}

impl DeepView for ProcessFiles {
    type V = ProcessFilesView;

    open spec fn deep_view(&self) -> ProcessFilesView {
        self@
    }
}

/// The entry that a directory gives. There is one exactly if the name is
/// that of a process directory, both records were read, the status record
/// parses to a short name that is not empty, and the argument record holds
/// an argument. `owner` is the process that a thread belongs to; a process
/// is its own group.
pub open spec fn entry_of(files: EntryFilesView, owner: Option<i32>) -> Option<ProcessView> {
    match (candidate_id(files.name), files.stat, files.cmdline) {
        (Some(id), Some(stat), Some(cmdline)) => match stat_record(stat) {
            Ok((parent_id, short_name)) => if short_name.len() > 0 && arguments_of(cmdline).len()
                > 0 {
                Some(
                    ProcessView {
                        id,
                        parent_id,
                        group_id: match owner {
                            Some(group_id) => group_id,
                            None => id,
                        },
                        short_name,
                        arguments: arguments_of(cmdline),
                    },
                )
            } else {
                None
            },
            Err(_) => None,
        },
        _ => None,
    }
}

/// The entries of the threads of the process `owner`, in listing order; none
/// where the thread directory was not listed.
pub open spec fn thread_entries(tasks: Option<Seq<EntryFilesView>>, owner: i32) -> Seq<
    ProcessView,
> {
    match tasks {
        Some(listed) => listed.filter_map(|files: EntryFilesView| entry_of(files, Some(owner))),
        None => Seq::empty(),
    }
}

/// The entries that one entry of the root listing contributes: nothing if
/// the process cannot be read; else the process, and in front of it its
/// threads where they are wanted.
pub open spec fn process_entries(files: ProcessFilesView, check_threads: CheckThreads) -> Seq<
    ProcessView,
> {
    match entry_of(files.entry, None) {
        Some(process) => if check_threads == CheckThreads::Yes {
            thread_entries(files.tasks, process.id).push(process)
        } else {
            seq![process]
        },
        None => Seq::empty(),
    }
}

/// Every entry that is read is well formed.
pub proof fn lemma_entry_of_well_formed(files: EntryFilesView, owner: Option<i32>)
    ensures
        entry_of(files, owner) matches Some(entry) ==> entry.well_formed() && entry.arguments.len()
            > 0,
{
    lemma_candidate_id_positive(files.name);
}

/// Reads one directory as an entry that belongs to the group `owner`, or to
/// its own.
fn read_entry(files: &EntryFiles, owner: Option<i32>) -> (r: Option<Process>)
    ensures
        r.deep_view() == entry_of(files@, owner),
{
    let id = match parse_id(files.name.as_str()) {
        Some(id) => id,
        None => {
            return None;
        },
    };
    let (parent_id, short_name) = match &files.stat {
        Some(stat) => match parse_stat_file(stat.as_str()) {
            Some(record) => record,
            None => {
                return None;
            },
        },
        None => {
            return None;
        },
    };
    let arguments = match &files.cmdline {
        Some(cmdline) => parse_cmdline(cmdline.as_str()),
        None => {
            return None;
        },
    };
    if short_name.as_str().is_empty() || arguments.len() == 0 {
        return None;
    }
    let group_id = match owner {
        Some(group_id) => group_id,
        None => id,
    };
    Some(Process { id, parent_id, group_id, short_name, arguments })
}

/// Reads the directory of a process as its entry; `None` where the directory
/// is no process or cannot be read in full.
pub fn read_process(files: &EntryFiles) -> (r: Option<Process>)
    ensures
        r.deep_view() == entry_of(files@, None),
{
    read_entry(files, None)
}

/// Reads the directory of a thread of the process `owner` as its entry;
/// `None` where it cannot be read in full.
pub fn read_thread(files: &EntryFiles, owner: i32) -> (r: Option<Process>)
    ensures
        r.deep_view() == entry_of(files@, Some(owner)),
{
    read_entry(files, Some(owner))
}

/// Reads the threads of `process` from the listing of its thread directory
/// and puts the process behind them.
pub fn read_tasks(process: Process, tasks: &Option<Vec<EntryFiles>>) -> (entries: Vec<Process>)
    ensures
        entries.deep_view() == thread_entries(tasks.deep_view(), process.id).push(process@),
{
    let mut entries: Vec<Process> = Vec::new();
    let owner = process.id;
    match tasks {
        Some(listed) => {
            let ghost all = listed.deep_view();
            let ghost read = |files: EntryFilesView| entry_of(files, Some(owner));
            let mut i: usize = 0;
            assert(all.take(0).filter_map(read) =~= Seq::<ProcessView>::empty());
            while i < listed.len()
                invariant
                    i <= listed@.len(),
                    all == listed.deep_view(),
                    read == |files: EntryFilesView| entry_of(files, Some(owner)),
                    entries.deep_view() == all.take(i as int).filter_map(read),
                decreases listed@.len() - i,
            {
                let ghost before = entries.deep_view();
                proof {
                    all.lemma_filter_map_take_succ(read, i as int);
                }
                match read_thread(&listed[i], owner) {
                    Some(entry) => {
                        entries.push(entry);
                        assert(entries.deep_view() =~= before + seq![entry@]);
                    },
                    None => {
                        assert(before + Seq::<ProcessView>::empty() =~= before);
                    },
                }
                i += 1;
            }
            assert(all.take(i as int) =~= all);
            assert(tasks.deep_view() == Some(all));
        },
        None => {
            assert(entries.deep_view() =~= Seq::<ProcessView>::empty());
        },
    }
    let ghost threads = entries.deep_view();
    entries.push(process);
    assert(entries.deep_view() =~= threads.push(process@));
    entries
}

/// Reads what one entry of the root listing contributes to a snapshot.
pub fn read_process_and_tasks(files: &ProcessFiles, check_threads: CheckThreads) -> (entries: Vec<
    Process,
>)
    ensures
        entries.deep_view() == process_entries(files@, check_threads),
{
    match read_process(&files.entry) {
        Some(process) => {
            if check_threads == CheckThreads::Yes {
                read_tasks(process, &files.tasks)
            } else {
                let mut entries: Vec<Process> = Vec::new();
                entries.push(process);
                assert(entries.deep_view() =~= seq![process@]);
                entries
            }
        },
        None => {
            let entries: Vec<Process> = Vec::new();
            assert(entries.deep_view() =~= Seq::<ProcessView>::empty());
            entries
        },
    }
}

} // verus!
