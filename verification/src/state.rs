//! The persisted state and the file that holds it.

use crate::principals::PrincipalMap;
use vstd::prelude::*;

verus! {

/// The name of the state file inside the sandbox directory.
pub const DENY_READ_ACL_STATE_FILE: &'static str = "deny_read_acl_state.json";

/// The name of the mutex that serializes all updates of the state file.
pub const DENY_READ_ACL_STATE_MUTEX_NAME: &'static str = "Local\\CodexSandboxDenyReadAclState";

/// The deny-read paths recorded for every principal.
#[derive(Debug, PartialEq, Eq)]
pub struct PersistentDenyReadAclState {
    pub principals: PrincipalMap,
}

/// What a state records: for each principal SID its paths, in order.
pub type Recorded = Map<Seq<char>, Seq<Seq<u16>>>;

impl View for PersistentDenyReadAclState {
    type V = Recorded;

    open spec fn view(&self) -> Recorded {
        self.principals@
    }
}

impl Default for PersistentDenyReadAclState {
    /// The state that records no principal.
    fn default() -> (state: PersistentDenyReadAclState)
        ensures
            state@ == Map::<Seq<char>, Seq<Seq<u16>>>::empty(),
    {
        PersistentDenyReadAclState { principals: PrincipalMap::new() }
    }
}

/// What the logic reads of the path of the state file.
#[derive(Debug, PartialEq, Eq)]
pub struct StatePath {
    /// The path as it is shown in messages.
    pub display: String,
    /// The parent directory as it is shown in messages, if the path has a parent.
    pub parent: Option<String>,
    /// The file name, if the path has one that is valid Unicode.
    pub file_name: Option<String>,
}

/// The text of a string that may be missing.
pub open spec fn optional_text(text: Option<String>) -> Option<Seq<char>> {
    match text {
        Some(s) => Some(s@),
        None => None,
    }
}

/// The parts of a state path as texts.
pub struct StatePathView {
    pub display: Seq<char>,
    pub parent: Option<Seq<char>>,
    pub file_name: Option<Seq<char>>,
}

impl View for StatePath {
    type V = StatePathView;

    open spec fn view(&self) -> StatePathView {
        StatePathView {
            display: self.display@,
            parent: optional_text(self.parent),
            file_name: optional_text(self.file_name),
        }
    }
}

/// A state is seen as what its map of principals records, and a path as its texts.
pub proof fn law_states_and_paths_are_seen_as_they_are(
    state: PersistentDenyReadAclState,
    path: StatePath,
)
    ensures
        state@ == state.principals@,
        path@.display == path.display@,
        path.parent is Some == path@.parent is Some,
        path.parent matches Some(parent) ==> path@.parent->0 == parent@,
        path.file_name is Some == path@.file_name is Some,
        path.file_name matches Some(name) ==> path@.file_name->0 == name@,
{
}

/// A text that may be missing is missing exactly where there is none, and is else the
/// text itself.
pub proof fn law_optional_text_is_the_text(text: Option<String>)
    ensures
        optional_text(text) is Some == text is Some,
        text matches Some(there) ==> optional_text(text)->0 == there@,
{
}

} // verus!
