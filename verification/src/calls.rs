//! The outside calls that the logic asks for, and the replies it is resumed with.

use crate::state::PersistentDenyReadAclState;
use crate::state::Recorded;
use crate::text::append_decimal;
use crate::text::decimal;
use vstd::prelude::*;
use vstd::string::*;

verus! {

/// How other handles may use a file while it is open.
#[derive(Clone, Copy, Debug, PartialEq, Eq, Structural)]
pub struct ShareMode {
    pub read: bool,
    pub write: bool,
    pub delete: bool,
}

/// How a file is moved.
#[derive(Clone, Copy, Debug, PartialEq, Eq, Structural)]
pub struct MoveMode {
    /// An existing destination is replaced.
    pub replace_existing: bool,
    /// The move returns only when it has reached the disk.
    pub write_through: bool,
}

/// What is logged about an invalid state file.
#[derive(Debug, PartialEq, Eq)]
pub enum Note {
    /// The file was moved aside after it could not be parsed.
    Quarantined { backup_name: String, parse_error: String },
    /// The file could not be moved aside; a backup was written, or failed to be
    /// written with the given error.
    MoveFailed { backup_name: String, move_error: u32, backup_error: Option<String> },
}

/// A note with its texts.
pub enum NoteView {
    Quarantined { backup_name: Seq<char>, parse_error: Seq<char> },
    MoveFailed { backup_name: Seq<char>, move_error: u32, backup_error: Option<Seq<char>> },
}

impl View for Note {
    type V = NoteView;

    open spec fn view(&self) -> NoteView {
        match *self {
            Note::Quarantined { backup_name, parse_error } => NoteView::Quarantined {
                backup_name: backup_name@,
                parse_error: parse_error@,
            },
            Note::MoveFailed { backup_name, move_error, backup_error } => NoteView::MoveFailed {
                backup_name: backup_name@,
                move_error,
                backup_error: crate::state::optional_text(backup_error),
            },
        }
    }
}

/// The text of a note about the state file shown as `path` and its backup shown
/// as `backup`.
pub open spec fn note_text(note: NoteView, path: Seq<char>, backup: Seq<char>) -> Seq<char> {
    match note {
        NoteView::Quarantined { backup_name, parse_error } =>
            "quarantined invalid deny-read ACL state "@ + path + " to "@ + backup
                + " after parse failure: "@ + parse_error,
        NoteView::MoveFailed { backup_name, move_error, backup_error } =>
            "failed to move invalid deny-read ACL state "@ + path + " aside ("@ + decimal(
                move_error as nat,
            ) + "); backup "@ + backup + ": "@ + match backup_error {
                None => "written"@,
                Some(cause) => "failed: "@ + cause,
            },
    }
}

impl Note {
    /// The line that is logged.
    pub fn text(&self, path: &str, backup: &str) -> (text: String)
        ensures
            text@ == note_text(self@, path@, backup@),
    {
        match self {
            Note::Quarantined { backup_name, parse_error } => {
                let mut text = "quarantined invalid deny-read ACL state ".to_owned();
                text.append(path);
                text.append(" to ");
                text.append(backup);
                text.append(" after parse failure: ");
                text.append(parse_error);
                text
            },
            Note::MoveFailed { backup_name, move_error, backup_error } => {
                let mut text = "failed to move invalid deny-read ACL state ".to_owned();
                text.append(path);
                text.append(" aside (");
                append_decimal(&mut text, *move_error as u128);
                text.append("); backup ");
                text.append(backup);
                text.append(": ");
                let mut outcome = "written".to_owned();
                if let Some(cause) = backup_error {
                    outcome = "failed: ".to_owned();
                    outcome.append(cause);
                }
                text.append(outcome.as_str());
                text
            },
        }
    }
}

/// One outside call. The state file, the temporary file and the file the state
/// is read from are those of the access under way.
#[derive(Debug, PartialEq, Eq)]
pub enum Call {
    /// Create or open the named mutex.
    CreateMutex(String),
    /// Wait without a time limit for the mutex behind the handle.
    WaitForMutex(isize),
    /// Release the mutex behind the handle.
    ReleaseMutex(isize),
    /// Close the handle.
    CloseHandle(isize),
    /// Ask for the error code of the call before.
    LastError,
    /// Open the state file for reading.
    OpenState(ShareMode),
    /// Read the opened file to its end and close it.
    ReadToEnd,
    /// Parse bytes as a state.
    ParseState(Vec<u8>),
    /// Ask for the process id and the time since the Unix epoch.
    ReadClock,
    /// Move the state file to the given name in the same directory.
    MoveToBackup(String, MoveMode),
    /// Write bytes to the given name in the same directory.
    WriteBackup(String, Vec<u8>),
    /// Log a note into the directory of the state file.
    LogNote(Note),
    /// Serialize a state.
    SerializeState(PersistentDenyReadAclState),
    /// Create a temporary file in the directory of the state file.
    CreateTemporary,
    /// Write bytes to the temporary file.
    WriteTemporary(Vec<u8>),
    /// Flush the temporary file.
    FlushTemporary,
    /// Make the content of the temporary file reach the disk.
    SyncTemporary,
    /// Close the temporary file and keep its path.
    CloseTemporary,
    /// Replace the state file by the temporary file.
    ReplaceState,
    /// Move the temporary file to the path of the state file.
    MoveIntoPlace(MoveMode),
    /// Let go of the temporary file: close it, and remove it where it still has its
    /// own name.
    DropTemporary,
}

/// An outside call with its values.
pub enum CallView {
    CreateMutex(Seq<char>),
    WaitForMutex(isize),
    ReleaseMutex(isize),
    CloseHandle(isize),
    LastError,
    OpenState(ShareMode),
    ReadToEnd,
    ParseState(Seq<u8>),
    ReadClock,
    MoveToBackup(Seq<char>, MoveMode),
    WriteBackup(Seq<char>, Seq<u8>),
    LogNote(NoteView),
    SerializeState(Recorded),
    CreateTemporary,
    WriteTemporary(Seq<u8>),
    FlushTemporary,
    SyncTemporary,
    CloseTemporary,
    ReplaceState,
    MoveIntoPlace(MoveMode),
    DropTemporary,
}

impl View for Call {
    type V = CallView;

    open spec fn view(&self) -> CallView {
        match *self {
            Call::CreateMutex(name) => CallView::CreateMutex(name@),
            Call::WaitForMutex(handle) => CallView::WaitForMutex(handle),
            Call::ReleaseMutex(handle) => CallView::ReleaseMutex(handle),
            Call::CloseHandle(handle) => CallView::CloseHandle(handle),
            Call::LastError => CallView::LastError,
            Call::OpenState(share) => CallView::OpenState(share),
            Call::ReadToEnd => CallView::ReadToEnd,
            Call::ParseState(bytes) => CallView::ParseState(bytes@),
            Call::ReadClock => CallView::ReadClock,
            Call::MoveToBackup(name, mode) => CallView::MoveToBackup(name@, mode),
            Call::WriteBackup(name, bytes) => CallView::WriteBackup(name@, bytes@),
            Call::LogNote(note) => CallView::LogNote(note@),
            Call::SerializeState(state) => CallView::SerializeState(state@),
            Call::CreateTemporary => CallView::CreateTemporary,
            Call::WriteTemporary(bytes) => CallView::WriteTemporary(bytes@),
            Call::FlushTemporary => CallView::FlushTemporary,
            Call::SyncTemporary => CallView::SyncTemporary,
            Call::CloseTemporary => CallView::CloseTemporary,
            Call::ReplaceState => CallView::ReplaceState,
            Call::MoveIntoPlace(mode) => CallView::MoveIntoPlace(mode),
            Call::DropTemporary => CallView::DropTemporary,
        }
    }
}

/// Why an outside call failed.
#[derive(Debug, PartialEq, Eq)]
pub struct Failure {
    /// The failure says that a file does not exist.
    pub not_found: bool,
    /// The text of the failure.
    pub text: String,
}

/// A failure with its text.
pub struct FailureView {
    pub not_found: bool,
    pub text: Seq<char>,
}

impl View for Failure {
    type V = FailureView;

    open spec fn view(&self) -> FailureView {
        FailureView { not_found: self.not_found, text: self.text@ }
    }
}

/// What an outside call came back with.
#[derive(Debug, PartialEq, Eq)]
pub enum Reply {
    /// The call is over; there is nothing to report.
    Done,
    /// The call failed.
    Failed(Failure),
    /// A handle; zero where none could be had.
    Handle(isize),
    /// A wait status or an error code.
    Code(u32),
    /// Zero where the call failed.
    Flag(i32),
    /// The bytes that were read, or that a state was serialized to.
    Bytes(Vec<u8>),
    /// The state that was parsed.
    Parsed(PersistentDenyReadAclState),
    /// The process id, and the nanoseconds since the Unix epoch unless the clock
    /// stands before it.
    Clock { process_id: u32, since_epoch: Option<u128> },
}

/// A reply with its values.
pub enum ReplyView {
    Done,
    Failed(FailureView),
    Handle(isize),
    Code(u32),
    Flag(i32),
    Bytes(Seq<u8>),
    Parsed(Recorded),
    Clock { process_id: u32, since_epoch: Option<u128> },
}

impl View for Reply {
    type V = ReplyView;

    open spec fn view(&self) -> ReplyView {
        match *self {
            Reply::Done => ReplyView::Done,
            Reply::Failed(failure) => ReplyView::Failed(failure@),
            Reply::Handle(handle) => ReplyView::Handle(handle),
            Reply::Code(code) => ReplyView::Code(code),
            Reply::Flag(flag) => ReplyView::Flag(flag),
            Reply::Bytes(bytes) => ReplyView::Bytes(bytes@),
            Reply::Parsed(state) => ReplyView::Parsed(state@),
            Reply::Clock { process_id, since_epoch } => ReplyView::Clock {
                process_id,
                since_epoch,
            },
        }
    }
}

/// The replies that answer a call.
#[derive(Clone, Copy, Debug, PartialEq, Eq, Structural)]
pub enum Expected {
    /// `Done`.
    Done,
    /// `Done` or `Failed`.
    Outcome,
    /// `Handle`.
    Handle,
    /// `Code`.
    Code,
    /// `Flag`.
    Flag,
    /// `Bytes` or `Failed`.
    Bytes,
    /// `Parsed` or `Failed`.
    Parsed,
    /// `Clock`.
    Clock,
}

/// The reply is one of those expected.
pub open spec fn reply_fits(expected: Expected, reply: ReplyView) -> bool {
    match expected {
        Expected::Done => reply is Done,
        Expected::Outcome => reply is Done || reply is Failed,
        Expected::Handle => reply is Handle,
        Expected::Code => reply is Code,
        Expected::Flag => reply is Flag,
        Expected::Bytes => reply is Bytes || reply is Failed,
        Expected::Parsed => reply is Parsed || reply is Failed,
        Expected::Clock => reply is Clock,
    }
}

impl Reply {
    /// Whether this reply is one of those expected.
    pub fn fits(&self, expected: Expected) -> (fits: bool)
        ensures
            fits == reply_fits(expected, self@),
    {
        match (expected, self) {
            (Expected::Done, Reply::Done) => true,
            (Expected::Outcome, Reply::Done) => true,
            (Expected::Outcome, Reply::Failed(_)) => true,
            (Expected::Handle, Reply::Handle(_)) => true,
            (Expected::Code, Reply::Code(_)) => true,
            (Expected::Flag, Reply::Flag(_)) => true,
            (Expected::Bytes, Reply::Bytes(_)) => true,
            (Expected::Bytes, Reply::Failed(_)) => true,
            (Expected::Parsed, Reply::Parsed(_)) => true,
            (Expected::Parsed, Reply::Failed(_)) => true,
            (Expected::Clock, Reply::Clock { .. }) => true,
            _ => false,
        }
    }
}

/// What comes next: an outside call to perform, after which the logic is resumed
/// with its reply, or the result.
pub enum Step<C, S, R> {
    Perform(C, S),
    Return(R),
}

/// Which replies answer a call depends on their kind alone, never on what they hold:
/// whatever handle, code, flag, bytes, state or clock a call comes back with is accepted
/// where one is waited for, and a failure wherever the call can fail.
pub proof fn law_replies_are_accepted_whatever_they_hold(expected: Expected, reply: ReplyView)
    ensures
        reply_fits(expected, reply) <==> match reply {
            ReplyView::Done => expected == Expected::Done || expected == Expected::Outcome,
            ReplyView::Failed(_) => expected == Expected::Outcome || expected == Expected::Bytes
                || expected == Expected::Parsed,
            ReplyView::Handle(_) => expected == Expected::Handle,
            ReplyView::Code(_) => expected == Expected::Code,
            ReplyView::Flag(_) => expected == Expected::Flag,
            ReplyView::Bytes(_) => expected == Expected::Bytes,
            ReplyView::Parsed(_) => expected == Expected::Parsed,
            ReplyView::Clock { .. } => expected == Expected::Clock,
        },
{
}

/// A call is seen with exactly the values that it hands to the outside.
pub proof fn law_calls_are_seen_as_they_are(
    name: String,
    handle: isize,
    share: ShareMode,
    bytes: Vec<u8>,
    mode: MoveMode,
    note: Note,
    state: PersistentDenyReadAclState,
)
    ensures
        Call::CreateMutex(name)@ == CallView::CreateMutex(name@),
        Call::WaitForMutex(handle)@ == CallView::WaitForMutex(handle),
        Call::ReleaseMutex(handle)@ == CallView::ReleaseMutex(handle),
        Call::CloseHandle(handle)@ == CallView::CloseHandle(handle),
        Call::LastError@ == CallView::LastError,
        Call::OpenState(share)@ == CallView::OpenState(share),
        Call::ReadToEnd@ == CallView::ReadToEnd,
        Call::ParseState(bytes)@ == CallView::ParseState(bytes@),
        Call::ReadClock@ == CallView::ReadClock,
        Call::MoveToBackup(name, mode)@ == CallView::MoveToBackup(name@, mode),
        Call::WriteBackup(name, bytes)@ == CallView::WriteBackup(name@, bytes@),
        Call::LogNote(note)@ == CallView::LogNote(note@),
        Call::SerializeState(state)@ == CallView::SerializeState(state.principals@),
        Call::CreateTemporary@ == CallView::CreateTemporary,
        Call::WriteTemporary(bytes)@ == CallView::WriteTemporary(bytes@),
        Call::FlushTemporary@ == CallView::FlushTemporary,
        Call::SyncTemporary@ == CallView::SyncTemporary,
        Call::CloseTemporary@ == CallView::CloseTemporary,
        Call::ReplaceState@ == CallView::ReplaceState,
        Call::MoveIntoPlace(mode)@ == CallView::MoveIntoPlace(mode),
        Call::DropTemporary@ == CallView::DropTemporary,
{
}

/// A reply is seen with exactly the values that it brings from the outside.
pub proof fn law_replies_are_seen_as_they_are(
    failure: Failure,
    handle: isize,
    code: u32,
    flag: i32,
    bytes: Vec<u8>,
    state: PersistentDenyReadAclState,
    process_id: u32,
    since_epoch: Option<u128>,
)
    ensures
        Reply::Done@ == ReplyView::Done,
        Reply::Failed(failure)@ == ReplyView::Failed(failure@),
        failure@.not_found == failure.not_found,
        failure@.text == failure.text@,
        Reply::Handle(handle)@ == ReplyView::Handle(handle),
        Reply::Code(code)@ == ReplyView::Code(code),
        Reply::Flag(flag)@ == ReplyView::Flag(flag),
        Reply::Bytes(bytes)@ == ReplyView::Bytes(bytes@),
        Reply::Parsed(state)@ == ReplyView::Parsed(state.principals@),
        ({
            let clock = Reply::Clock { process_id, since_epoch };
            clock@ == (ReplyView::Clock { process_id, since_epoch })
        }),
{
}

/// What is logged names the state file and the backup, and says why: the parse failure,
/// or the error of the move and what became of the backup.
pub proof fn law_notes_say_what_happened(note: Note, path: Seq<char>, backup: Seq<char>)
    ensures
        match note {
            Note::Quarantined { backup_name, parse_error } => {
                &&& note@ == (NoteView::Quarantined {
                    backup_name: backup_name@,
                    parse_error: parse_error@,
                })
                &&& note_text(note@, path, backup) == "quarantined invalid deny-read ACL state "@
                    + path + " to "@ + backup + " after parse failure: "@ + parse_error@
            },
            Note::MoveFailed { backup_name, move_error, backup_error: None } => {
                &&& note@ == (NoteView::MoveFailed {
                    backup_name: backup_name@,
                    move_error,
                    backup_error: None,
                })
                &&& note_text(note@, path, backup)
                    == "failed to move invalid deny-read ACL state "@ + path + " aside ("@
                    + decimal(move_error as nat) + "); backup "@ + backup + ": written"@
            },
            Note::MoveFailed { backup_name, move_error, backup_error: Some(cause) } => {
                &&& note@ == (NoteView::MoveFailed {
                    backup_name: backup_name@,
                    move_error,
                    backup_error: Some(cause@),
                })
                &&& note_text(note@, path, backup)
                    == "failed to move invalid deny-read ACL state "@ + path + " aside ("@
                    + decimal(move_error as nat) + "); backup "@ + backup + ": failed: "@ + cause@
            },
        },
{
    reveal_strlit(": ");
    reveal_strlit("written");
    reveal_strlit("failed: ");
    reveal_strlit(": written");
    reveal_strlit(": failed: ");
    assert(": "@ + "written"@ =~= ": written"@);
    assert(": "@ + "failed: "@ =~= ": failed: "@);
    if let Note::MoveFailed { move_error, backup_error, .. } = note {
        let start = "failed to move invalid deny-read ACL state "@ + path + " aside ("@ + decimal(
            move_error as nat,
        ) + "); backup "@ + backup;
        assert(start + ": "@ + "written"@ =~= start + (": "@ + "written"@));
        if let Some(cause) = backup_error {
            assert(start + ": "@ + ("failed: "@ + cause@) =~= start + (": "@ + "failed: "@)
                + cause@);
        }
    }
}

} // verus!
