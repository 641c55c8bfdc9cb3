//! The ways in which an access to the state can fail, and the messages they carry.

use crate::text::append_decimal;
use crate::text::decimal;
use vstd::prelude::*;
use vstd::string::*;

verus! {

/// Why the mutex could not be acquired.
#[derive(Clone, Copy, Debug, PartialEq, Eq, Structural)]
pub enum MutexError {
    /// The mutex could not be created; holds the error code.
    Create(u32),
    /// Waiting for the mutex failed; holds the error code.
    WaitFailed(u32),
    /// Waiting for the mutex ended in this unexpected status.
    WaitUnexpected(u32),
}

/// Why the state could not be loaded or stored. Texts are those of the
/// underlying errors.
#[derive(Debug, PartialEq, Eq)]
pub enum StateError {
    Mutex(MutexError),
    Read(String),
    Serialize(String),
    NoParent,
    CreateTemporary { parent: String, cause: String },
    WriteTemporary(String),
    FlushTemporary(String),
    SyncTemporary(String),
    /// Replacing the state file failed with this error code.
    ReplaceFile(u32),
    /// Moving the temporary file into place failed with this error code.
    MoveFile(u32),
}

/// A state error with its texts.
pub enum StateErrorView {
    Mutex(MutexError),
    Read(Seq<char>),
    Serialize(Seq<char>),
    NoParent,
    CreateTemporary { parent: Seq<char>, cause: Seq<char> },
    WriteTemporary(Seq<char>),
    FlushTemporary(Seq<char>),
    SyncTemporary(Seq<char>),
    ReplaceFile(u32),
    MoveFile(u32),
}

impl View for StateError {
    type V = StateErrorView;

    open spec fn view(&self) -> StateErrorView {
        match *self {
            StateError::Mutex(error) => StateErrorView::Mutex(error),
            StateError::Read(cause) => StateErrorView::Read(cause@),
            StateError::Serialize(cause) => StateErrorView::Serialize(cause@),
            StateError::NoParent => StateErrorView::NoParent,
            StateError::CreateTemporary { parent, cause } => StateErrorView::CreateTemporary {
                parent: parent@,
                cause: cause@,
            },
            StateError::WriteTemporary(cause) => StateErrorView::WriteTemporary(cause@),
            StateError::FlushTemporary(cause) => StateErrorView::FlushTemporary(cause@),
            StateError::SyncTemporary(cause) => StateErrorView::SyncTemporary(cause@),
            StateError::ReplaceFile(code) => StateErrorView::ReplaceFile(code),
            StateError::MoveFile(code) => StateErrorView::MoveFile(code),
        }
    }
}

/// The message of a mutex error.
pub open spec fn mutex_message(error: MutexError) -> Seq<char> {
    match error {
        MutexError::Create(code) => "CreateMutexW failed: "@ + decimal(code as nat),
        MutexError::WaitFailed(code) => "WaitForSingleObject failed: "@ + decimal(code as nat),
        MutexError::WaitUnexpected(status) => "WaitForSingleObject returned unexpected status: "@
            + decimal(status as nat),
    }
}

/// The messages of an error about the state file at `path`, outermost first.
pub open spec fn error_messages(error: StateErrorView, path: Seq<char>) -> Seq<Seq<char>> {
    match error {
        StateErrorView::Mutex(cause) => seq![
            "acquire deny-read ACL state mutex"@,
            mutex_message(cause),
        ],
        StateErrorView::Read(cause) => seq!["read deny-read ACL state "@ + path, cause],
        StateErrorView::Serialize(cause) => seq!["serialize deny-read ACL state"@, cause],
        StateErrorView::NoParent => seq!["deny-read ACL state path has no parent: "@ + path],
        StateErrorView::CreateTemporary { parent, cause } => seq![
            "create temporary deny-read ACL state in "@ + parent,
            cause,
        ],
        StateErrorView::WriteTemporary(cause) => seq![
            "write temporary deny-read ACL state for "@ + path,
            cause,
        ],
        StateErrorView::FlushTemporary(cause) => seq![
            "flush temporary deny-read ACL state for "@ + path,
            cause,
        ],
        StateErrorView::SyncTemporary(cause) => seq![
            "sync temporary deny-read ACL state for "@ + path,
            cause,
        ],
        StateErrorView::ReplaceFile(code) => seq![
            "ReplaceFileW failed for "@ + path + ": "@ + decimal(code as nat),
        ],
        StateErrorView::MoveFile(code) => seq![
            "MoveFileExW failed for "@ + path + ": "@ + decimal(code as nat),
        ],
    }
}

/// The texts of a list of strings.
pub open spec fn texts(strings: Seq<String>) -> Seq<Seq<char>> {
    strings.map_values(|s: String| s@)
}

/// Two texts joined.
fn joined(first: &str, second: &str) -> (text: String)
    ensures
        text@ == first@ + second@,
{
    first.to_owned().concat(second)
}

/// A text followed by a number.
fn numbered(text: String, number: u32) -> (message: String)
    ensures
        message@ == text@ + decimal(number as nat),
{
    let mut message = text;
    append_decimal(&mut message, number as u128);
    message
}

/// A list of one or two messages.
fn message_list(first: String, second: Option<String>) -> (list: Vec<String>)
    ensures
        texts(list@) == match second {
            Some(cause) => seq![first@, cause@],
            None => seq![first@],
        },
{
    let mut list: Vec<String> = Vec::new();
    list.push(first);
    match second {
        Some(cause) => {
            list.push(cause);
            assert(texts(list@) =~= seq![first@, cause@]);
        },
        None => {
            assert(texts(list@) =~= seq![first@]);
        },
    }
    list
}

impl MutexError {
    /// The message of this error.
    pub fn message(&self) -> (message: String)
        ensures
            message@ == mutex_message(*self),
    {
        match *self {
            MutexError::Create(code) => numbered("CreateMutexW failed: ".to_owned(), code),
            MutexError::WaitFailed(code) => numbered(
                "WaitForSingleObject failed: ".to_owned(),
                code,
            ),
            MutexError::WaitUnexpected(status) => numbered(
                "WaitForSingleObject returned unexpected status: ".to_owned(),
                status,
            ),
        }
    }
}

impl StateError {
    /// The messages of this error about the state file shown as `path`: the
    /// outermost first, each following one the cause of the one before it.
    pub fn messages(&self, path: &str) -> (list: Vec<String>)
        ensures
            texts(list@) == error_messages(self@, path@),
    {
        match self {
            StateError::Mutex(error) => message_list(
                "acquire deny-read ACL state mutex".to_owned(),
                Some(error.message()),
            ),
            StateError::Read(cause) => message_list(
                joined("read deny-read ACL state ", path),
                Some(cause.clone()),
            ),
            StateError::Serialize(cause) => message_list(
                "serialize deny-read ACL state".to_owned(),
                Some(cause.clone()),
            ),
            StateError::NoParent => message_list(
                joined("deny-read ACL state path has no parent: ", path),
                None,
            ),
            StateError::CreateTemporary { parent, cause } => message_list(
                joined("create temporary deny-read ACL state in ", parent),
                Some(cause.clone()),
            ),
            StateError::WriteTemporary(cause) => message_list(
                joined("write temporary deny-read ACL state for ", path),
                Some(cause.clone()),
            ),
            StateError::FlushTemporary(cause) => message_list(
                joined("flush temporary deny-read ACL state for ", path),
                Some(cause.clone()),
            ),
            StateError::SyncTemporary(cause) => message_list(
                joined("sync temporary deny-read ACL state for ", path),
                Some(cause.clone()),
            ),
            StateError::ReplaceFile(code) => message_list(
                numbered(joined("ReplaceFileW failed for ", path).concat(": "), *code),
                None,
            ),
            StateError::MoveFile(code) => message_list(
                numbered(joined("MoveFileExW failed for ", path).concat(": "), *code),
                None,
            ),
        }
    }
}

/// A list of strings is seen string by string, in order.
pub proof fn law_texts_are_those_of_the_strings(strings: Seq<String>)
    ensures
        texts(strings).len() == strings.len(),
        forall|i: int| 0 <= i < strings.len() ==> #[trigger] texts(strings)[i] == strings[i]@,
{
}

/// An error is seen with its codes and texts as they are.
pub proof fn law_errors_are_seen_as_they_are(
    mutex: MutexError,
    cause: String,
    parent: String,
    code: u32,
)
    ensures
        StateError::Mutex(mutex)@ == StateErrorView::Mutex(mutex),
        StateError::Read(cause)@ == StateErrorView::Read(cause@),
        StateError::Serialize(cause)@ == StateErrorView::Serialize(cause@),
        StateError::NoParent@ == StateErrorView::NoParent,
        (StateError::CreateTemporary { parent, cause })@ == (StateErrorView::CreateTemporary {
            parent: parent@,
            cause: cause@,
        }),
        StateError::WriteTemporary(cause)@ == StateErrorView::WriteTemporary(cause@),
        StateError::FlushTemporary(cause)@ == StateErrorView::FlushTemporary(cause@),
        StateError::SyncTemporary(cause)@ == StateErrorView::SyncTemporary(cause@),
        StateError::ReplaceFile(code)@ == StateErrorView::ReplaceFile(code),
        StateError::MoveFile(code)@ == StateErrorView::MoveFile(code),
{
}

/// The messages of an error name the call that failed, the file or directory it was
/// about, and the code or the cause.
pub proof fn law_messages_say_what_failed(
    path: Seq<char>,
    parent: Seq<char>,
    cause: Seq<char>,
    code: u32,
)
    ensures
        mutex_message(MutexError::Create(code)) == "CreateMutexW failed: "@ + decimal(code as nat),
        mutex_message(MutexError::WaitFailed(code)) == "WaitForSingleObject failed: "@ + decimal(
            code as nat,
        ),
        mutex_message(MutexError::WaitUnexpected(code))
            == "WaitForSingleObject returned unexpected status: "@ + decimal(code as nat),
        forall|error: MutexError| #[trigger]
            error_messages(StateErrorView::Mutex(error), path) == seq![
                "acquire deny-read ACL state mutex"@,
                mutex_message(error),
            ],
        error_messages(StateErrorView::Read(cause), path) == seq![
            "read deny-read ACL state "@ + path,
            cause,
        ],
        error_messages(StateErrorView::Serialize(cause), path) == seq![
            "serialize deny-read ACL state"@,
            cause,
        ],
        error_messages(StateErrorView::NoParent, path) == seq![
            "deny-read ACL state path has no parent: "@ + path,
        ],
        error_messages(StateErrorView::CreateTemporary { parent, cause }, path) == seq![
            "create temporary deny-read ACL state in "@ + parent,
            cause,
        ],
        error_messages(StateErrorView::WriteTemporary(cause), path) == seq![
            "write temporary deny-read ACL state for "@ + path,
            cause,
        ],
        error_messages(StateErrorView::FlushTemporary(cause), path) == seq![
            "flush temporary deny-read ACL state for "@ + path,
            cause,
        ],
        error_messages(StateErrorView::SyncTemporary(cause), path) == seq![
            "sync temporary deny-read ACL state for "@ + path,
            cause,
        ],
        error_messages(StateErrorView::ReplaceFile(code), path) == seq![
            "ReplaceFileW failed for "@ + path + ": "@ + decimal(code as nat),
        ],
        error_messages(StateErrorView::MoveFile(code), path) == seq![
            "MoveFileExW failed for "@ + path + ": "@ + decimal(code as nat),
        ],
{
}

} // verus!
