//! Putting aside a state file that cannot be parsed.

use crate::calls::reply_fits;
use crate::calls::Call;
use crate::calls::CallView;
use crate::calls::Expected;
use crate::calls::FailureView;
use crate::calls::MoveMode;
use crate::calls::Note;
use crate::calls::NoteView;
use crate::calls::Reply;
use crate::calls::ReplyView;
use crate::calls::Step;
use crate::run::leads_to;
use crate::run::Logic;
use crate::state::DENY_READ_ACL_STATE_FILE;
use crate::state::StatePath;
use crate::state::StatePathView;
use crate::text::append_decimal;
use crate::text::decimal;
use crate::text::numbered_texts_differ;
use vstd::prelude::*;
use vstd::string::*;

verus! {

/// The mode in which an invalid state file is moved aside: an existing file is
/// not overwritten, and the move reaches the disk.
pub open spec fn move_aside() -> MoveMode {
    MoveMode { replace_existing: false, write_through: true }
}

/// The name that an invalid state file is kept under: its own name, or that of the
/// state file where it has none that is valid Unicode, marked with the process id
/// and the nanoseconds since the Unix epoch, which count as zero before it.
pub open spec fn backup_name(
    file_name: Option<Seq<char>>,
    process_id: u32,
    since_epoch: Option<u128>,
) -> Seq<char> {
    let name = match file_name {
        Some(name) => name,
        None => DENY_READ_ACL_STATE_FILE@,
    };
    name + ".corrupt-"@ + decimal(process_id as nat) + "-"@ + decimal(shown_nanos(since_epoch))
}

/// The nanoseconds that a backup name shows.
pub open spec fn shown_nanos(since_epoch: Option<u128>) -> nat {
    match since_epoch {
        Some(nanos) => nanos as nat,
        None => 0,
    }
}

/// The file name that an invalid state file is kept under.
pub fn invalid_state_backup_name(
    file_name: &Option<String>,
    process_id: u32,
    since_epoch: Option<u128>,
) -> (name: String)
    ensures
        name@ == backup_name(crate::state::optional_text(*file_name), process_id, since_epoch),
        name@ == match file_name {
            Some(own) => own@,
            None => "deny_read_acl_state.json"@,
        } + ".corrupt-"@ + decimal(process_id as nat) + "-"@ + decimal(
            match since_epoch {
                Some(nanos) => nanos as nat,
                None => 0,
            },
        ),
{
    let timestamp: u128 = match since_epoch {
        Some(nanos) => nanos,
        None => 0,
    };
    let mut name: String = match file_name {
        Some(own) => own.clone(),
        None => DENY_READ_ACL_STATE_FILE.to_owned(),
    };
    name.append(".corrupt-");
    append_decimal(&mut name, process_id as u128);
    name.append("-");
    append_decimal(&mut name, timestamp);
    name
}

/// Two backup names of one file are equal exactly where they were made by the same
/// process at the same time; a clock before the Unix epoch counts as the epoch.
pub proof fn law_backup_names_differ(
    file_name: Option<Seq<char>>,
    process_id: u32,
    since_epoch: Option<u128>,
    other_process_id: u32,
    other_since_epoch: Option<u128>,
)
    ensures
        backup_name(file_name, process_id, since_epoch) == backup_name(
            file_name,
            other_process_id,
            other_since_epoch,
        ) <==> process_id == other_process_id && shown_nanos(since_epoch) == shown_nanos(
            other_since_epoch,
        ),
{
    let name = match file_name {
        Some(name) => name,
        None => DENY_READ_ACL_STATE_FILE@,
    };
    reveal_strlit("-");
    numbered_texts_differ(
        name + ".corrupt-"@,
        process_id as nat,
        "-"@,
        shown_nanos(since_epoch),
        other_process_id as nat,
        shown_nanos(other_since_epoch),
    );
}

/// Where the quarantine of an invalid state file stands.
#[derive(Debug, PartialEq, Eq)]
pub enum QuarantineState {
    /// The name of the backup is being determined.
    Naming { bytes: Vec<u8>, parse_error: String },
    /// The state file is being moved to the backup.
    Moving { backup_name: String, bytes: Vec<u8>, parse_error: String },
    /// The move failed; its error code is asked for.
    MoveFailed { backup_name: String, bytes: Vec<u8> },
    /// The bytes are being written to the backup.
    Writing { backup_name: String, move_error: u32 },
    /// The outcome is being logged.
    Logging,
}

/// The state of a quarantine with its values.
pub enum QuarantineView {
    Naming { bytes: Seq<u8>, parse_error: Seq<char> },
    Moving { backup_name: Seq<char>, bytes: Seq<u8>, parse_error: Seq<char> },
    MoveFailed { backup_name: Seq<char>, bytes: Seq<u8> },
    Writing { backup_name: Seq<char>, move_error: u32 },
    Logging,
}

impl View for QuarantineState {
    type V = QuarantineView;

    open spec fn view(&self) -> QuarantineView {
        match *self {
            QuarantineState::Naming { bytes, parse_error } => QuarantineView::Naming {
                bytes: bytes@,
                parse_error: parse_error@,
            },
            QuarantineState::Moving { backup_name, bytes, parse_error } => QuarantineView::Moving {
                backup_name: backup_name@,
                bytes: bytes@,
                parse_error: parse_error@,
            },
            QuarantineState::MoveFailed { backup_name, bytes } => QuarantineView::MoveFailed {
                backup_name: backup_name@,
                bytes: bytes@,
            },
            QuarantineState::Writing { backup_name, move_error } => QuarantineView::Writing {
                backup_name: backup_name@,
                move_error,
            },
            QuarantineState::Logging => QuarantineView::Logging,
        }
    }
}

pub type QuarantineStep = Step<Call, QuarantineState, ()>;

pub type QuarantineStepView = Step<CallView, QuarantineView, ()>;

/// A step of the quarantine with its values.
pub open spec fn quarantine_view(step: QuarantineStep) -> QuarantineStepView {
    match step {
        Step::Perform(call, at) => Step::Perform(call@, at@),
        Step::Return(result) => Step::Return(result),
    }
}

/// The reply that the quarantine waits for.
pub open spec fn quarantine_expects(at: QuarantineView) -> Expected {
    match at {
        QuarantineView::Naming { .. } => Expected::Clock,
        QuarantineView::Moving { .. } => Expected::Flag,
        QuarantineView::MoveFailed { .. } => Expected::Code,
        QuarantineView::Writing { .. } => Expected::Outcome,
        QuarantineView::Logging => Expected::Done,
    }
}

/// The first step of the quarantine. Without a parent directory nothing is done.
pub open spec fn quarantine_start(
    path: StatePathView,
    bytes: Seq<u8>,
    parse_error: Seq<char>,
) -> QuarantineStepView {
    if path.parent is None {
        Step::Return(())
    } else {
        Step::Perform(CallView::ReadClock, QuarantineView::Naming { bytes, parse_error })
    }
}

/// How the quarantine goes on after a reply: the file is moved aside; where that
/// fails its bytes are written to the backup; either outcome is logged.
pub open spec fn quarantine_next(
    path: StatePathView,
    at: QuarantineView,
    reply: ReplyView,
) -> QuarantineStepView {
    match (at, reply) {
        (
            QuarantineView::Naming { bytes, parse_error },
            ReplyView::Clock { process_id, since_epoch },
        ) => {
            let name = backup_name(path.file_name, process_id, since_epoch);
            Step::Perform(
                CallView::MoveToBackup(name, move_aside()),
                QuarantineView::Moving { backup_name: name, bytes, parse_error },
            )
        },
        (QuarantineView::Moving { backup_name, bytes, parse_error }, ReplyView::Flag(moved)) =>
            if moved != 0 {
                Step::Perform(
                    CallView::LogNote(NoteView::Quarantined { backup_name, parse_error }),
                    QuarantineView::Logging,
                )
            } else {
                Step::Perform(
                    CallView::LastError,
                    QuarantineView::MoveFailed { backup_name, bytes },
                )
            },
        (QuarantineView::MoveFailed { backup_name, bytes }, ReplyView::Code(move_error)) =>
            Step::Perform(
                CallView::WriteBackup(backup_name, bytes),
                QuarantineView::Writing { backup_name, move_error },
            ),
        (QuarantineView::Writing { backup_name, move_error }, ReplyView::Done) => Step::Perform(
            CallView::LogNote(
                NoteView::MoveFailed { backup_name, move_error, backup_error: None },
            ),
            QuarantineView::Logging,
        ),
        (QuarantineView::Writing { backup_name, move_error }, ReplyView::Failed(failure)) =>
            Step::Perform(
                CallView::LogNote(
                    NoteView::MoveFailed {
                        backup_name,
                        move_error,
                        backup_error: Some(failure.text),
                    },
                ),
                QuarantineView::Logging,
            ),
        (QuarantineView::Logging, ReplyView::Done) => Step::Return(()),
        _ => arbitrary(),
    }
}

/// Begins to quarantine the state file whose bytes could not be parsed.
pub fn quarantine_invalid_state(
    path: &StatePath,
    bytes: Vec<u8>,
    parse_error: String,
) -> (step: QuarantineStep)
    ensures
        quarantine_view(step) == quarantine_start(path@, bytes@, parse_error@),
{
    match &path.parent {
        None => Step::Return(()),
        Some(_) => Step::Perform(Call::ReadClock, QuarantineState::Naming { bytes, parse_error }),
    }
}

impl QuarantineState {
    /// The reply that is waited for.
    pub fn expects(&self) -> (expected: Expected)
        ensures
            expected == quarantine_expects(self@),
    {
        match self {
            QuarantineState::Naming { .. } => Expected::Clock,
            QuarantineState::Moving { .. } => Expected::Flag,
            QuarantineState::MoveFailed { .. } => Expected::Code,
            QuarantineState::Writing { .. } => Expected::Outcome,
            QuarantineState::Logging => Expected::Done,
        }
    }

    /// Goes on with the quarantine after a reply.
    pub fn resume(self, path: &StatePath, reply: Reply) -> (step: QuarantineStep)
        requires
            reply_fits(quarantine_expects(self@), reply@),
        ensures
            quarantine_view(step) == quarantine_next(path@, self@, reply@),
    {
        match (self, reply) {
            (
                QuarantineState::Naming { bytes, parse_error },
                Reply::Clock { process_id, since_epoch },
            ) => {
                let backup_name = invalid_state_backup_name(
                    &path.file_name,
                    process_id,
                    since_epoch,
                );
                let mode = MoveMode { replace_existing: false, write_through: true };
                Step::Perform(
                    Call::MoveToBackup(backup_name.clone(), mode),
                    QuarantineState::Moving { backup_name, bytes, parse_error },
                )
            },
            (QuarantineState::Moving { backup_name, bytes, parse_error }, Reply::Flag(moved)) => {
                if moved != 0 {
                    Step::Perform(
                        Call::LogNote(Note::Quarantined { backup_name, parse_error }),
                        QuarantineState::Logging,
                    )
                } else {
                    Step::Perform(
                        Call::LastError,
                        QuarantineState::MoveFailed { backup_name, bytes },
                    )
                }
            },
            (QuarantineState::MoveFailed { backup_name, bytes }, Reply::Code(move_error)) =>
                Step::Perform(
                    Call::WriteBackup(backup_name.clone(), bytes),
                    QuarantineState::Writing { backup_name, move_error },
                ),
            (QuarantineState::Writing { backup_name, move_error }, Reply::Done) => Step::Perform(
                Call::LogNote(
                    Note::MoveFailed { backup_name, move_error, backup_error: None },
                ),
                QuarantineState::Logging,
            ),
            (QuarantineState::Writing { backup_name, move_error }, Reply::Failed(failure)) =>
                Step::Perform(
                    Call::LogNote(
                        Note::MoveFailed {
                            backup_name,
                            move_error,
                            backup_error: Some(failure.text),
                        },
                    ),
                    QuarantineState::Logging,
                ),
            (QuarantineState::Logging, Reply::Done) => Step::Return(()),
            _ => vstd::pervasive::unreached(),
        }
    }
}

/// The quarantine as a piece of logic.
pub open spec fn quarantine_logic(path: StatePathView) -> Logic<
    CallView,
    ReplyView,
    QuarantineView,
    (),
> {
    Logic {
        next: |at: QuarantineView, reply: ReplyView| quarantine_next(path, at, reply),
        fits: |at: QuarantineView, reply: ReplyView| reply_fits(quarantine_expects(at), reply),
    }
}

/// Where the state file has a parent directory, its quarantine tries to move it to
/// a fresh name without overwriting anything; where the move fails, it tries to
/// write the very bytes that could not be parsed to that name; and it ends with
/// one note that says what happened.
pub proof fn law_quarantine_keeps_the_bytes(
    path: StatePathView,
    bytes: Seq<u8>,
    parse_error: Seq<char>,
    history: Seq<(CallView, ReplyView)>,
)
    requires
        path.parent is Some,
        leads_to(
            quarantine_logic(path),
            quarantine_start(path, bytes, parse_error),
            history,
            Step::Return(()),
        ),
    ensures
        history.len() >= 3,
        history[0].0 == CallView::ReadClock,
        history[0].1 is Clock,
        ({
            let name = backup_name(
                path.file_name,
                history[0].1->process_id,
                history[0].1->since_epoch,
            );
            &&& history[1].0 == CallView::MoveToBackup(name, move_aside())
            &&& history[1].1 is Flag
            &&& if history[1].1->Flag_0 != 0 {
                &&& history.len() == 3
                &&& history[2].0 == CallView::LogNote(
                    NoteView::Quarantined { backup_name: name, parse_error },
                )
            } else {
                &&& history.len() == 5
                &&& history[2].0 == CallView::LastError
                &&& history[2].1 is Code
                &&& history[3].0 == CallView::WriteBackup(name, bytes)
                &&& history[4].0 == CallView::LogNote(
                    NoteView::MoveFailed {
                        backup_name: name,
                        move_error: history[2].1->Code_0,
                        backup_error: match history[3].1 {
                            ReplyView::Failed(failure) => Some(failure.text),
                            _ => None,
                        },
                    },
                )
            }
        }),
{
    reveal_with_fuel(leads_to, 7);
}

/// A backup name begins with the name of the state file, and with that of the usual
/// state file where it has none, followed by `.corrupt-`. After that mark stand the
/// process id, a dash, and the nanoseconds since the Unix epoch, zero before it.
pub proof fn law_backup_names_are_marked(name: Seq<char>, process_id: u32, nanos: u128)
    ensures
        backup_name(Some(name), process_id, Some(nanos)) == name + ".corrupt-"@ + decimal(
            process_id as nat,
        ) + "-"@ + decimal(nanos as nat),
        backup_name(None, process_id, Some(nanos)) == "deny_read_acl_state.json"@ + ".corrupt-"@
            + decimal(process_id as nat) + "-"@ + decimal(nanos as nat),
        backup_name(Some(name), process_id, None) == name + ".corrupt-"@ + decimal(
            process_id as nat,
        ) + "-"@ + decimal(0),
        backup_name(None, process_id, None) == "deny_read_acl_state.json"@ + ".corrupt-"@ + decimal(
            process_id as nat,
        ) + "-"@ + decimal(0),
        (name + ".corrupt-"@).is_prefix_of(backup_name(Some(name), process_id, Some(nanos))),
        shown_nanos(Some(nanos)) == nanos,
        shown_nanos(None) == 0,
{
    let start = name + ".corrupt-"@;
    assert(backup_name(Some(name), process_id, Some(nanos)).take(start.len() as int) =~= start);
}

/// The quarantine as a piece of logic goes on as it does when it is resumed, accepts the
/// replies that it waits for, and its steps are seen with their calls as they are.
pub proof fn law_quarantine_logic_is_what_is_resumed(
    path: StatePathView,
    at: QuarantineView,
    reply: ReplyView,
    call: Call,
    state: QuarantineState,
)
    ensures
        (quarantine_logic(path).next)(at, reply) == quarantine_next(path, at, reply),
        (quarantine_logic(path).fits)(at, reply) == reply_fits(quarantine_expects(at), reply),
        quarantine_view(Step::Perform(call, state)) == Step::<CallView, QuarantineView, ()>::Perform(
            call@,
            state@,
        ),
        quarantine_view(Step::Return(())) == Step::<CallView, QuarantineView, ()>::Return(()),
{
}

/// Every quarantine comes to its end, whatever the outside replies. Without a parent
/// directory nothing is done. Else the file is moved under the marked name, without
/// overwriting anything; where that fails, the very bytes are written to that name; and
/// what happened is logged.
pub proof fn law_every_quarantine_ends(
    path: StatePathView,
    bytes: Seq<u8>,
    parse_error: Seq<char>,
    process_id: u32,
    since_epoch: Option<u128>,
    moved: i32,
    code: u32,
    failure: FailureView,
)
    ensures
        ({
            let logic = quarantine_logic(path);
            let start = quarantine_start(path, bytes, parse_error);
            let end = Step::<CallView, QuarantineView, ()>::Return(());
            let name = match path.file_name {
                Some(name) => name,
                None => "deny_read_acl_state.json"@,
            } + ".corrupt-"@ + decimal(process_id as nat) + "-"@ + decimal(
                match since_epoch {
                    Some(nanos) => nanos as nat,
                    None => 0,
                },
            );
            let mode = MoveMode { replace_existing: false, write_through: true };
            let clock = (CallView::ReadClock, ReplyView::Clock { process_id, since_epoch });
            let moving = (CallView::MoveToBackup(name, mode), ReplyView::Flag(moved));
            let asking = (CallView::LastError, ReplyView::Code(code));
            let moved_note = NoteView::Quarantined { backup_name: name, parse_error };
            let written_note = NoteView::MoveFailed {
                backup_name: name,
                move_error: code,
                backup_error: None,
            };
            let failed_note = NoteView::MoveFailed {
                backup_name: name,
                move_error: code,
                backup_error: Some(failure.text),
            };
            &&& path.parent is None ==> leads_to(logic, start, Seq::empty(), end)
            &&& path.parent is Some && moved != 0 ==> leads_to(
                logic,
                start,
                seq![clock, moving, (CallView::LogNote(moved_note), ReplyView::Done)],
                end,
            )
            &&& path.parent is Some && moved == 0 ==> leads_to(
                logic,
                start,
                seq![
                    clock,
                    moving,
                    asking,
                    (CallView::WriteBackup(name, bytes), ReplyView::Done),
                    (CallView::LogNote(written_note), ReplyView::Done),
                ],
                end,
            )
            &&& path.parent is Some && moved == 0 ==> leads_to(
                logic,
                start,
                seq![
                    clock,
                    moving,
                    asking,
                    (CallView::WriteBackup(name, bytes), ReplyView::Failed(failure)),
                    (CallView::LogNote(failed_note), ReplyView::Done),
                ],
                end,
            )
        }),
{
    reveal_with_fuel(leads_to, 6);
}

} // verus!
