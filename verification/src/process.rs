//! One entry of a snapshot, and the rule that decides whether it runs a
//! given program.

use crate::check_flags::{CheckRoot, CheckScripts, CheckWorkers};
use crate::text::{base_start_of, chars_of, find_from, lemma_first_index, same_chars, tail_is};
use crate::utils::final_segment;
use vstd::prelude::*;
use vstd::string::StrSliceExecFns;

verus! {

/// Shells started as login shells put this in front of their argument zero.
pub const LOGIN_SHELL_PREFIX: char = '-';

/// One process, or one thread, as the kernel described it when the snapshot
/// was taken.
#[derive(Debug, Clone, PartialEq, Eq)]
pub struct Process {
    /// The identifier of the process or thread.
    pub id: i32,
    /// The identifier of the parent process.
    pub parent_id: i32,
    /// The identifier of the process that owns the thread; `id` for a
    /// process.
    pub group_id: i32,
    /// The kernel's own, possibly truncated, name of the executable.
    pub short_name: String,
    /// The argument vector, argument zero first.
    pub arguments: Vec<String>,
}

/// A `Process` as plain values.
pub struct ProcessView {
    pub id: i32,
    pub parent_id: i32,
    pub group_id: i32,
    pub short_name: Seq<char>,
    pub arguments: Seq<Seq<char>>,
}

impl View for Process {
    type V = ProcessView;

    open spec fn view(&self) -> ProcessView {
        ProcessView {
            id: self.id,
            parent_id: self.parent_id,
            group_id: self.group_id,
            short_name: self.short_name@,
            arguments: self.arguments.deep_view(),
        }
    }
}

impl DeepView for Process {
    type V = ProcessView;

    open spec fn deep_view(&self) -> ProcessView {
        self@
    }
}

impl ProcessView {
    /// What holds of every entry that was read from a process listing: the
    /// identifier is positive and the short name is not empty.
    pub open spec fn well_formed(self) -> bool {
        self.id > 0 && self.short_name.len() > 0
    }
}

/// The symbolic links of one entry as they resolved when a query was made;
/// `None` for a link that did not resolve.
#[derive(Debug, Clone, PartialEq, Eq)]
pub struct ProcessLinks {
    /// The target of the entry's root directory link.
    pub root: Option<String>,
    /// The target of the entry's executable link.
    pub exe: Option<String>,
}

/// A `ProcessLinks` as plain values.
pub struct LinksView {
    pub root: Option<Seq<char>>,
    pub exe: Option<Seq<char>>,
}

impl View for ProcessLinks {
    type V = LinksView;

    open spec fn view(&self) -> LinksView {
        LinksView { root: self.root.deep_view(), exe: self.exe.deep_view() }
    }
}

impl DeepView for ProcessLinks {
    type V = LinksView;

    open spec fn deep_view(&self) -> LinksView {
        self@
    }
}

impl LinksView {
    /// The links of an entry of which none resolved.
    pub open spec fn unresolved() -> LinksView {
        LinksView { root: None, exe: None }
    }
}

/// Whether an argument carries the login shell marker.
pub open spec fn is_login_marked(argument: Seq<char>) -> bool {
    argument.len() > 0 && argument[0] == LOGIN_SHELL_PREFIX
}

/// The arguments that count for matching: those without the login shell
/// marker, in their order.
pub open spec fn invoked_arguments(arguments: Seq<Seq<char>>) -> Seq<Seq<char>> {
    arguments.filter(|argument: Seq<char>| !is_login_marked(argument))
}

/// The root isolation gate: with a root to hold entries to, the entry's root
/// link must have resolved to that very root.
pub open spec fn root_gate(check_root: Option<Seq<char>>, root_link: Option<Seq<char>>) -> bool {
    match check_root {
        Some(own_root) => root_link == Some(own_root),
        None => true,
    }
}

/// The primary match of a program name against argument zero, the short name
/// and the executable link. An executable link that did not resolve takes
/// part in nothing.
pub open spec fn primary_match(
    name: Seq<char>,
    arg0: Seq<char>,
    short_name: Seq<char>,
    check_workers: CheckWorkers,
    exe_link: Option<Seq<char>>,
) -> bool {
    ||| name == arg0
    ||| name == final_segment(arg0)
    ||| (check_workers == CheckWorkers::Yes && name == short_name)
    ||| final_segment(name) == arg0
    ||| match exe_link {
        Some(exe) => name == exe || name == final_segment(exe),
        None => false,
    }
}

/// The script match of a program name against the first argument behind
/// argument zero, where an interpreter holds the path of its script.
pub open spec fn script_match(name: Seq<char>, arg1: Seq<char>, short_name: Seq<char>) -> bool {
    ||| short_name == final_segment(arg1)
    ||| name == final_segment(arg1)
    ||| final_segment(name) == arg1
    ||| name == arg1
}

/// The match that recovers a truncated name: argument zero holds an
/// underscore and the program name is the short name.
pub open spec fn truncated_name_match(
    name: Seq<char>,
    arg0: Seq<char>,
    short_name: Seq<char>,
) -> bool {
    arg0.contains('_') && name == short_name
}

/// Whether an entry is reported as an instance of the program `name`: it
/// passes the root gate, an argument is left without the login shell marker,
/// and the primary match, the script match (where scripts are checked and a
/// second such argument exists) or the truncated-name match holds.
pub open spec fn entry_matches(
    entry: ProcessView,
    name: Seq<char>,
    check_root: Option<Seq<char>>,
    check_workers: CheckWorkers,
    check_scripts: CheckScripts,
    links: LinksView,
) -> bool {
    let invoked = invoked_arguments(entry.arguments);
    &&& root_gate(check_root, links.root)
    &&& invoked.len() > 0
    &&& {
        ||| primary_match(name, invoked[0], entry.short_name, check_workers, links.exe)
        ||| (check_scripts == CheckScripts::Yes && invoked.len() > 1 && script_match(
            name,
            invoked[1],
            entry.short_name,
        ))
        ||| truncated_name_match(name, invoked[0], entry.short_name)
    }
}

/// No argument counts where there is none.
pub proof fn lemma_invoked_empty()
    ensures
        invoked_arguments(Seq::empty()) == Seq::<Seq<char>>::empty(),
{
    reveal(Seq::filter);
}

/// One more argument at the end counts, behind the others that do, unless it
/// carries the login shell marker.
pub proof fn lemma_invoked_push(arguments: Seq<Seq<char>>, last: Seq<char>)
    ensures
        invoked_arguments(arguments.push(last)) == if is_login_marked(last) {
            invoked_arguments(arguments)
        } else {
            invoked_arguments(arguments).push(last)
        },
{
    arguments.lemma_filter_push(last, |argument: Seq<char>| !is_login_marked(argument));
}

/// Whether an optional link resolved to the text of `target`.
fn link_is(link: &Option<String>, target: &[char]) -> (same: bool)
    ensures
        same == (link.deep_view() == Some(target@)),
{
    match link {
        Some(path) => {
            let path_chars = chars_of(path.as_str());
            same_chars(path_chars.as_slice(), target)
        },
        None => false,
    }
}

/// Whether `text` holds the character `c`.
fn holds_char(text: &[char], c: char) -> (found: bool)
    ensures
        found == text@.contains(c),
{
    let k = find_from(text, c, 0);
    proof {
        assert(text@.skip(0) =~= text@);
        lemma_first_index(text@, c);
    }
    k < text.len()
}

/// Whether the final path segment of `path` is the text of `name`.
fn final_segment_is(path: &[char], name: &[char]) -> (same: bool)
    ensures
        same == (final_segment(path@) == name@),
{
    let start = base_start_of(path);
    tail_is(path, start, name)
}

impl Process {
    /// The positions in `arguments` of those without the login shell marker.
    fn invoked_positions(&self) -> (kept: Vec<usize>)
        ensures
            kept@.len() == invoked_arguments(self@.arguments).len(),
            forall|i: int|
                0 <= i < kept@.len() ==> (#[trigger] kept@[i]) < self.arguments@.len()
                    && self.arguments@[kept@[i] as int]@ == invoked_arguments(
                    self@.arguments,
                )[i],
    {
        let ghost all = self@.arguments;
        let mut kept: Vec<usize> = Vec::new();
        let mut i: usize = 0;
        proof {
            lemma_invoked_empty();
            assert(all.take(0) =~= Seq::<Seq<char>>::empty());
        }
        while i < self.arguments.len()
            invariant
                i <= self.arguments@.len(),
                all == self@.arguments,
                all.len() == self.arguments@.len(),
                kept@.len() == invoked_arguments(all.take(i as int)).len(),
                forall|j: int|
                    0 <= j < kept@.len() ==> (#[trigger] kept@[j]) < i
                        && self.arguments@[kept@[j] as int]@ == invoked_arguments(
                        all.take(i as int),
                    )[j],
            decreases self.arguments@.len() - i,
        {
            let argument = self.arguments[i].as_str();
            let marked = !argument.is_empty() && argument.get_char(0) == LOGIN_SHELL_PREFIX;
            proof {
                assert(all[i as int] == argument@);
                assert(all.take(i + 1) =~= all.take(i as int).push(all[i as int]));
                lemma_invoked_push(all.take(i as int), all[i as int]);
            }
            if !marked {
                kept.push(i);
            }
            i += 1;
        }
        assert(all.take(i as int) =~= all);
        kept
    }

    /// Decides whether this entry runs the program `program_name`.
    ///
    /// `links` holds what the entry's root and executable links resolved to
    /// for this query. With `CheckRoot::Yes` an entry whose root link did not
    /// resolve, or resolved to another root than the caller's, never matches.
    #[must_use]
    pub fn matches(
        &self,
        program_name: &str,
        check_root: &CheckRoot,
        check_workers: CheckWorkers,
        check_scripts: CheckScripts,
        links: &ProcessLinks,
    ) -> (matched: bool)
        ensures
            matched == entry_matches(
                self@,
                program_name@,
                check_root@,
                check_workers,
                check_scripts,
                links@,
            ),
    {
        if let CheckRoot::Yes(own_root) = check_root {
            let own = chars_of(own_root.as_str());
            if !link_is(&links.root, own.as_slice()) {
                return false;
            }
        }
        let kept = self.invoked_positions();
        if kept.len() == 0 {
            return false;
        }
        let name = chars_of(program_name);
        let short_name = chars_of(self.short_name.as_str());
        let arg0 = chars_of(self.arguments[kept[0]].as_str());

        let condition1 = same_chars(name.as_slice(), arg0.as_slice())
            || final_segment_is(arg0.as_slice(), name.as_slice())
            || (check_workers == CheckWorkers::Yes && same_chars(
            name.as_slice(),
            short_name.as_slice(),
        )) || final_segment_is(name.as_slice(), arg0.as_slice())
            || match &links.exe {
            Some(exe) => {
                let exe_link = chars_of(exe.as_str());
                same_chars(name.as_slice(), exe_link.as_slice()) || final_segment_is(
                    exe_link.as_slice(),
                    name.as_slice(),
                )
            },
            None => false,
        };

        let condition2 = if check_scripts == CheckScripts::Yes && kept.len() > 1 {
            let arg1 = chars_of(self.arguments[kept[1]].as_str());
            final_segment_is(arg1.as_slice(), short_name.as_slice()) || final_segment_is(
                arg1.as_slice(),
                name.as_slice(),
            ) || final_segment_is(name.as_slice(), arg1.as_slice()) || same_chars(
                name.as_slice(),
                arg1.as_slice(),
            )
        } else {
            false
        };

        let condition3 = holds_char(arg0.as_slice(), '_') && same_chars(
            name.as_slice(),
            short_name.as_slice(),
        );

        condition1 || condition2 || condition3
    }
}

} // verus!
