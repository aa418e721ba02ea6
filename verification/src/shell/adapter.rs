//! A shell in one run of the set-up: whether it is there, which files it has,
//! and how far it has come.

use vstd::prelude::*;
use vstd::string::StringExecFns;

verus! {

/// What looking for a shell's executable came to.
#[derive(Debug, PartialEq, Eq)]
pub enum Lookup {
    /// The executable, at this path.
    Found(String),
    /// There is no such executable.
    Missing,
    /// The search itself failed, for this reason.
    Failed(String),
}

/// A file that holds a shell's block.
#[derive(Debug, PartialEq, Eq)]
pub enum ProfileLocation {
    /// The path of the file. A leading `~` stands for the home directory.
    Path(String),
    /// The file of the second name, in the directory of the first.
    InDirectory(String, String),
}

/// A profile location as plain text.
pub enum ProfileLocationView {
    Path(Seq<char>),
    InDirectory(Seq<char>, Seq<char>),
}

impl View for ProfileLocation {
    type V = ProfileLocationView;

    open spec fn view(&self) -> ProfileLocationView {
        match self {
            ProfileLocation::Path(path) => ProfileLocationView::Path(path@),
            ProfileLocation::InDirectory(directory, name) => ProfileLocationView::InDirectory(
                directory@,
                name@,
            ),
        }
    }
}

impl DeepView for ProfileLocation {
    type V = ProfileLocationView;

    open spec fn deep_view(&self) -> ProfileLocationView {
        self@
    }
}

impl Lookup {
    /// What the search means for the shell's state: a search that failed has
    /// not found the shell.
    pub fn event(&self) -> (r: AdapterEvent)
        ensures
            r == if *self is Found {
                AdapterEvent::Found
            } else {
                AdapterEvent::NotFound
            },
    {
        match self {
            Lookup::Found(_) => AdapterEvent::Found,
            _ => AdapterEvent::NotFound,
        }
    }
}

/// The error for a search that failed.
pub open spec fn detection_error(name: Seq<char>, reason: Seq<char>) -> Seq<char> {
    "Error finding "@ + name + ": "@ + reason
}

/// Whether the shell `name` is there, going by the search for its executable.
/// That there is no executable is no error; that the search failed is one.
pub fn detect(name: &str, lookup: &Lookup) -> (r: Result<bool, String>)
    ensures
        match *lookup {
            Lookup::Found(_) => r == Ok::<bool, String>(true),
            Lookup::Missing => r == Ok::<bool, String>(false),
            Lookup::Failed(reason) => r matches Err(message) && message@ == detection_error(
                name@,
                reason@,
            ),
        },
{
    match lookup {
        Lookup::Found(_) => Ok(true),
        Lookup::Missing => Ok(false),
        Lookup::Failed(msg) => Err(
            String::from_str("Error finding ").concat(name).concat(": ").concat(msg.as_str()),
        ),
    }
}

/// How far a shell has come in one run of the set-up.
#[derive(Clone, Copy, Debug, PartialEq, Eq, Structural)]
pub enum AdapterState {
    /// Nobody has looked for the shell yet.
    Unprobed,
    /// The shell is not there: nothing to do.
    Unavailable,
    /// The shell is there, and its profiles are still to be brought up to date.
    Available,
    /// Its profiles are up to date.
    Applied,
    /// It was left out, with a warning: it has no place to write to.
    AppliedWithWarning,
    /// Bringing its profiles up to date failed.
    Failed,
}

/// What happened to a shell during the set-up.
#[derive(Clone, Copy, Debug, PartialEq, Eq, Structural)]
pub enum AdapterEvent {
    /// Its executable was found.
    Found,
    /// Its executable was not found, or could not be looked for.
    NotFound,
    /// Its profiles were written.
    Written,
    /// It has no place to write to.
    Skipped,
    /// Reading or writing one of its profiles failed.
    Error,
}

impl AdapterState {
    /// The state that follows `self` on `event`. A shell is looked for once,
    /// and only one that was found is set up; every other state is final.
    pub open spec fn next(self, event: AdapterEvent) -> AdapterState {
        match (self, event) {
            (AdapterState::Unprobed, AdapterEvent::Found) => AdapterState::Available,
            (AdapterState::Unprobed, AdapterEvent::NotFound) => AdapterState::Unavailable,
            (AdapterState::Available, AdapterEvent::Written) => AdapterState::Applied,
            (AdapterState::Available, AdapterEvent::Skipped) => AdapterState::AppliedWithWarning,
            (AdapterState::Available, AdapterEvent::Error) => AdapterState::Failed,
            _ => self,
        }
    }

    /// Whether nothing more happens to a shell in this state.
    pub open spec fn is_final(self) -> bool {
        !(self is Unprobed) && !(self is Available)
    }

    /// Whether a run that ends in this state went well. Only `Failed` did
    /// not.
    pub open spec fn is_success(self) -> bool {
        self.is_final() && !(self is Failed)
    }

    /// The state after `event`.
    pub fn step(self, event: AdapterEvent) -> (r: AdapterState)
        ensures
            r == self.next(event),
    {
        match self {
            AdapterState::Unprobed => match event {
                AdapterEvent::Found => AdapterState::Available,
                AdapterEvent::NotFound => AdapterState::Unavailable,
                _ => self,
            },
            AdapterState::Available => match event {
                AdapterEvent::Written => AdapterState::Applied,
                AdapterEvent::Skipped => AdapterState::AppliedWithWarning,
                AdapterEvent::Error => AdapterState::Failed,
                _ => self,
            },
            _ => self,
        }
    }

    /// Whether nothing more happens to a shell in this state.
    pub fn finished(self) -> (r: bool)
        ensures
            r == self.is_final(),
    {
        match self {
            AdapterState::Unprobed => false,
            AdapterState::Available => false,
            _ => true,
        }
    }
}

/// A final state stays what it is, whatever happens; and a shell is set up
/// only after it was found.
pub proof fn lemma_adapter_states(state: AdapterState, event: AdapterEvent)
    ensures
        state.is_final() ==> state.next(event) == state,
        state.next(event) is Available ==> state is Unprobed || state is Available,
        (state.next(event) is Applied || state.next(event) is AppliedWithWarning || state.next(
            event,
        ) is Failed) ==> state is Available || state == state.next(event),
{
}

} // verus!
