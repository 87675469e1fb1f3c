//! The policies that a caller chooses for building and querying a table.

use crate::utils::is_root;
use vstd::prelude::*;
use vstd::std_specs::convert::FromSpecImpl;

verus! {

/// Discards processes whose root directory differs from the caller's own,
/// which `Yes` carries as it was resolved when the policy was made.
#[derive(Clone, Debug, PartialEq, Eq)]
pub enum CheckRoot {
    Yes(String),
    No,
}

impl View for CheckRoot {
    type V = Option<Seq<char>>;

    /// The root that entries are held to, if any.
    open spec fn view(&self) -> Option<Seq<char>> {
        match self {
            CheckRoot::Yes(root) => Some(root@),
            CheckRoot::No => None,
        }
    }
}

impl CheckRoot {
    /// The root that entries are held to after a request: the caller's own,
    /// if the check was asked for by a privileged caller whose root link
    /// resolved; otherwise none.
    pub open spec fn decided(
        requested: bool,
        privileged: bool,
        own_root: Option<Seq<char>>,
    ) -> Option<Seq<char>> {
        if requested && privileged {
            own_root
        } else {
            None
        }
    }

    /// Makes the policy from a request, the caller's privilege and the
    /// target of the caller's own root link, `None` if it did not resolve.
    pub fn decide(requested: bool, privileged: bool, own_root: Option<String>) -> (policy: Self)
        ensures
            policy@ == Self::decided(requested, privileged, own_root.deep_view()),
    {
        if requested && privileged {
            match own_root {
                Some(root) => CheckRoot::Yes(root),
                None => CheckRoot::No,
            }
        } else {
            CheckRoot::No
        }
    }

    /// Whether entries are held to a root, so that their root links have to
    /// be resolved for a query.
    pub fn is_enabled(&self) -> (enabled: bool)
        ensures
            enabled == (self@ is Some),
    {
        match self {
            CheckRoot::Yes(_) => true,
            CheckRoot::No => false,
        }
    }

    /// Makes the policy for the calling process: as `decide` does, with the
    /// privilege that the operating system reports for it.
    pub fn for_caller(requested: bool, own_root: Option<String>) -> (policy: Self)
        ensures
            policy@ == Self::decided(requested, true, own_root.deep_view()) || policy@
                == Self::decided(requested, false, own_root.deep_view()),
    {
        Self::decide(requested, is_root(), own_root)
    }
}

/// Also matches the names of scripts that an interpreter runs.
#[derive(Copy, Clone, Eq, PartialEq, Structural, Debug)]
pub enum CheckScripts {
    Yes,
    No,
}

impl From<bool> for CheckScripts {
    fn from(value: bool) -> (flag: Self) {
        if value {
            Self::Yes
        } else {
            Self::No
        }
    }
}

impl FromSpecImpl<bool> for CheckScripts {
    open spec fn obeys_from_spec() -> bool {
        true
    }

    open spec fn from_spec(value: bool) -> Self {
        if value {
            Self::Yes
        } else {
            Self::No
        }
    }
}

/// Also lists the threads of each process.
#[derive(Copy, Clone, Eq, PartialEq, Structural, Debug)]
pub enum CheckThreads {
    Yes,
    No,
}

impl From<bool> for CheckThreads {
    fn from(value: bool) -> (flag: Self) {
        if value {
            Self::Yes
        } else {
            Self::No
        }
    }
}

impl FromSpecImpl<bool> for CheckThreads {
    open spec fn obeys_from_spec() -> bool {
        true
    }

    open spec fn from_spec(value: bool) -> Self {
        if value {
            Self::Yes
        } else {
            Self::No
        }
    }
}

/// Also matches kernel workers by their short name.
#[derive(Copy, Clone, Eq, PartialEq, Structural, Debug)]
pub enum CheckWorkers {
    Yes,
    No,
}

impl From<bool> for CheckWorkers {
    fn from(value: bool) -> (flag: Self) {
        if value {
            Self::Yes
        } else {
            Self::No
        }
    }
}

impl FromSpecImpl<bool> for CheckWorkers {
    open spec fn obeys_from_spec() -> bool {
        true
    }

    open spec fn from_spec(value: bool) -> Self {
        if value {
            Self::Yes
        } else {
            Self::No
        }
    }
}

} // verus!
