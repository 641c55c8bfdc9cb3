//! Writing the state file.

use crate::calls::reply_fits;
use crate::calls::Call;
use crate::calls::CallView;
use crate::calls::Expected;
use crate::calls::FailureView;
use crate::calls::MoveMode;
use crate::calls::Reply;
use crate::calls::ReplyView;
use crate::calls::Step;
use crate::error::StateError;
use crate::error::StateErrorView;
use crate::run::leads_through;
use crate::run::leads_to;
use crate::run::outer_history;
use crate::run::outer_part;
use crate::run::outer_step;
use crate::run::Inside;
use crate::run::Logic;
use crate::state::PersistentDenyReadAclState;
use crate::state::Recorded;
use crate::state::StatePath;
use crate::state::StatePathView;
use vstd::prelude::*;

verus! {

/// The error code that says that a file does not exist.
pub const ERROR_FILE_NOT_FOUND: u32 = 2;

/// The mode in which the first state file is moved into place.
pub open spec fn move_into_place() -> MoveMode {
    MoveMode { replace_existing: true, write_through: true }
}

/// Where installing the temporary file as the state file stands.
#[derive(Clone, Copy, Debug, PartialEq, Eq, Structural)]
pub enum InstallState {
    /// The state file is being replaced.
    Replacing,
    /// The replacement failed; its error code is asked for.
    ReplaceFailed,
    /// There is no state file yet; the temporary file is being moved into place.
    Moving,
    /// The move failed; its error code is asked for.
    MoveFailed,
}

/// A step with the values of its call and of its error.
pub open spec fn with_error_view<S, T>(
    step: Step<Call, S, Result<T, StateError>>,
) -> Step<CallView, S, Result<T, StateErrorView>> {
    match step {
        Step::Perform(call, at) => Step::Perform(call@, at),
        Step::Return(Ok(value)) => Step::Return(Ok(value)),
        Step::Return(Err(error)) => Step::Return(Err(error@)),
    }
}

pub type InstallStep = Step<Call, InstallState, Result<(), StateError>>;

pub type InstallStepView = Step<CallView, InstallState, Result<(), StateErrorView>>;

/// The first step of installing the temporary file.
pub open spec fn install_start() -> InstallStepView {
    Step::Perform(CallView::ReplaceState, InstallState::Replacing)
}

/// The reply that the installation waits for.
pub open spec fn install_expects(at: InstallState) -> Expected {
    match at {
        InstallState::Replacing => Expected::Flag,
        InstallState::ReplaceFailed => Expected::Code,
        InstallState::Moving => Expected::Flag,
        InstallState::MoveFailed => Expected::Code,
    }
}

/// How the installation goes on after a reply: only where the replacement failed
/// because there is no state file is the temporary file moved into place.
pub open spec fn install_next(at: InstallState, reply: ReplyView) -> InstallStepView {
    match (at, reply) {
        (InstallState::Replacing, ReplyView::Flag(replaced)) => if replaced != 0 {
            Step::Return(Ok(()))
        } else {
            Step::Perform(CallView::LastError, InstallState::ReplaceFailed)
        },
        (InstallState::ReplaceFailed, ReplyView::Code(code)) => if code != ERROR_FILE_NOT_FOUND {
            Step::Return(Err(StateErrorView::ReplaceFile(code)))
        } else {
            Step::Perform(CallView::MoveIntoPlace(move_into_place()), InstallState::Moving)
        },
        (InstallState::Moving, ReplyView::Flag(moved)) => if moved != 0 {
            Step::Return(Ok(()))
        } else {
            Step::Perform(CallView::LastError, InstallState::MoveFailed)
        },
        (InstallState::MoveFailed, ReplyView::Code(code)) => Step::Return(
            Err(StateErrorView::MoveFile(code)),
        ),
        _ => arbitrary(),
    }
}

/// Begins to install the temporary file as the state file.
pub fn install_state_file() -> (step: InstallStep)
    ensures
        with_error_view(step) == install_start(),
{
    Step::Perform(Call::ReplaceState, InstallState::Replacing)
}

impl InstallState {
    /// The reply that is waited for.
    pub fn expects(&self) -> (expected: Expected)
        ensures
            expected == install_expects(*self),
    {
        match self {
            InstallState::Replacing => Expected::Flag,
            InstallState::ReplaceFailed => Expected::Code,
            InstallState::Moving => Expected::Flag,
            InstallState::MoveFailed => Expected::Code,
        }
    }

    /// Goes on with the installation after a reply.
    pub fn resume(self, reply: Reply) -> (step: InstallStep)
        requires
            reply_fits(install_expects(self), reply@),
        ensures
            with_error_view(step) == install_next(self, reply@),
    {
        match (self, reply) {
            (InstallState::Replacing, Reply::Flag(replaced)) => {
                if replaced != 0 {
                    Step::Return(Ok(()))
                } else {
                    Step::Perform(Call::LastError, InstallState::ReplaceFailed)
                }
            },
            (InstallState::ReplaceFailed, Reply::Code(code)) => {
                if code != ERROR_FILE_NOT_FOUND {
                    Step::Return(Err(StateError::ReplaceFile(code)))
                } else {
                    let mode = MoveMode { replace_existing: true, write_through: true };
                    Step::Perform(Call::MoveIntoPlace(mode), InstallState::Moving)
                }
            },
            (InstallState::Moving, Reply::Flag(moved)) => {
                if moved != 0 {
                    Step::Return(Ok(()))
                } else {
                    Step::Perform(Call::LastError, InstallState::MoveFailed)
                }
            },
            (InstallState::MoveFailed, Reply::Code(code)) => Step::Return(
                Err(StateError::MoveFile(code)),
            ),
            _ => vstd::pervasive::unreached(),
        }
    }
}

/// The installation as a piece of logic.
pub open spec fn install_logic() -> Logic<
    CallView,
    ReplyView,
    InstallState,
    Result<(), StateErrorView>,
> {
    Logic {
        next: |at: InstallState, reply: ReplyView| install_next(at, reply),
        fits: |at: InstallState, reply: ReplyView| reply_fits(install_expects(at), reply),
    }
}

/// A call put the temporary file in the place of the state file.
pub open spec fn installs(exchange: (CallView, ReplyView)) -> bool {
    &&& exchange.0 is ReplaceState || exchange.0 is MoveIntoPlace
    &&& exchange.1 is Flag
    &&& exchange.1->Flag_0 != 0
}

/// What an installation comes to. It succeeds exactly where its last call put the
/// file in place, and no earlier call did; the file is moved only where there was
/// none to replace; and an error holds the code of the call that failed.
pub proof fn law_install_outcomes(
    history: Seq<(CallView, ReplyView)>,
    result: Result<(), StateErrorView>,
)
    requires
        leads_to(install_logic(), install_start(), history, Step::Return(result)),
    ensures
        1 <= history.len() <= 4,
        history[0].0 == CallView::ReplaceState,
        result is Ok <==> installs(history.last()),
        forall|i: int| 0 <= i < history.len() - 1 ==> !#[trigger] installs(history[i]),
        history.len() >= 2 ==> history[1].0 == CallView::LastError,
        history.len() >= 3 ==> {
            &&& history[1].1 == ReplyView::Code(ERROR_FILE_NOT_FOUND)
            &&& history[2].0 == CallView::MoveIntoPlace(move_into_place())
        },
        history.len() == 4 ==> history[3].0 == CallView::LastError,
        match result {
            Ok(_) => history.len() == 1 || history.len() == 3,
            Err(StateErrorView::ReplaceFile(code)) => {
                &&& code != ERROR_FILE_NOT_FOUND
                &&& history.len() == 2
                &&& history[1].1 == ReplyView::Code(code)
            },
            Err(StateErrorView::MoveFile(code)) => {
                &&& history.len() == 4
                &&& history[3].1 == ReplyView::Code(code)
            },
            Err(_) => false,
        },
{
    reveal_with_fuel(leads_to, 6);
}

/// Where storing the state stands.
#[derive(Debug, PartialEq, Eq)]
pub enum StoreState {
    /// The state is being serialized.
    Serializing,
    /// The temporary file for these bytes is being created in the parent directory.
    Creating { parent: String, bytes: Vec<u8> },
    /// The bytes are being written.
    Writing,
    /// The temporary file is being flushed.
    Flushing,
    /// The temporary file is being synced.
    Syncing,
    /// The temporary file is being closed.
    Closing,
    /// The temporary file is being installed.
    Installing(InstallState),
    /// The temporary file is being let go; this is the result of the store.
    Dropping(Result<(), StateError>),
}

/// The state of a store with its values.
pub enum StoreView {
    Serializing,
    Creating { parent: Seq<char>, bytes: Seq<u8> },
    Writing,
    Flushing,
    Syncing,
    Closing,
    Installing(InstallState),
    Dropping(Result<(), StateErrorView>),
}

impl View for StoreState {
    type V = StoreView;

    open spec fn view(&self) -> StoreView {
        match *self {
            StoreState::Serializing => StoreView::Serializing,
            StoreState::Creating { parent, bytes } => StoreView::Creating {
                parent: parent@,
                bytes: bytes@,
            },
            StoreState::Writing => StoreView::Writing,
            StoreState::Flushing => StoreView::Flushing,
            StoreState::Syncing => StoreView::Syncing,
            StoreState::Closing => StoreView::Closing,
            StoreState::Installing(at) => StoreView::Installing(at),
            StoreState::Dropping(Ok(unit)) => StoreView::Dropping(Ok(unit)),
            StoreState::Dropping(Err(error)) => StoreView::Dropping(Err(error@)),
        }
    }
}

pub type StoreStep = Step<Call, StoreState, Result<(), StateError>>;

pub type StoreStepView = Step<CallView, StoreView, Result<(), StateErrorView>>;

/// A step of the store with its values.
pub open spec fn store_view(step: StoreStep) -> StoreStepView {
    match step {
        Step::Perform(call, at) => Step::Perform(call@, at@),
        Step::Return(Ok(value)) => Step::Return(Ok(value)),
        Step::Return(Err(error)) => Step::Return(Err(error@)),
    }
}

/// The first step of storing a state.
pub open spec fn store_start(state: Recorded) -> StoreStepView {
    Step::Perform(CallView::SerializeState(state), StoreView::Serializing)
}

/// The store once its result is known: the temporary file is let go.
pub open spec fn store_drop(result: Result<(), StateErrorView>) -> StoreStepView {
    Step::Perform(CallView::DropTemporary, StoreView::Dropping(result))
}

/// The store while the temporary file is installed.
pub open spec fn store_from_install(step: InstallStepView) -> StoreStepView {
    match step {
        Step::Perform(call, at) => Step::Perform(call, StoreView::Installing(at)),
        Step::Return(result) => store_drop(result),
    }
}

/// The reply that the store waits for.
pub open spec fn store_expects(at: StoreView) -> Expected {
    match at {
        StoreView::Serializing => Expected::Bytes,
        StoreView::Creating { .. } => Expected::Outcome,
        StoreView::Writing => Expected::Outcome,
        StoreView::Flushing => Expected::Outcome,
        StoreView::Syncing => Expected::Outcome,
        StoreView::Closing => Expected::Done,
        StoreView::Installing(at) => install_expects(at),
        StoreView::Dropping(_) => Expected::Done,
    }
}

/// How the store goes on after a reply: the bytes are written to a temporary file
/// beside the state file, which is flushed, synced and closed before it is
/// installed; the first failure ends the store; and a temporary file that was
/// created is let go in the end.
pub open spec fn store_next(path: StatePathView, at: StoreView, reply: ReplyView) -> StoreStepView {
    match (at, reply) {
        (StoreView::Serializing, ReplyView::Bytes(bytes)) => match path.parent {
            None => Step::Return(Err(StateErrorView::NoParent)),
            Some(parent) => Step::Perform(
                CallView::CreateTemporary,
                StoreView::Creating { parent, bytes },
            ),
        },
        (StoreView::Serializing, ReplyView::Failed(failure)) => Step::Return(
            Err(StateErrorView::Serialize(failure.text)),
        ),
        (StoreView::Creating { bytes, .. }, ReplyView::Done) => Step::Perform(
            CallView::WriteTemporary(bytes),
            StoreView::Writing,
        ),
        (StoreView::Creating { parent, .. }, ReplyView::Failed(failure)) => Step::Return(
            Err(StateErrorView::CreateTemporary { parent, cause: failure.text }),
        ),
        (StoreView::Writing, ReplyView::Done) => Step::Perform(
            CallView::FlushTemporary,
            StoreView::Flushing,
        ),
        (StoreView::Writing, ReplyView::Failed(failure)) => store_drop(
            Err(StateErrorView::WriteTemporary(failure.text)),
        ),
        (StoreView::Flushing, ReplyView::Done) => Step::Perform(
            CallView::SyncTemporary,
            StoreView::Syncing,
        ),
        (StoreView::Flushing, ReplyView::Failed(failure)) => store_drop(
            Err(StateErrorView::FlushTemporary(failure.text)),
        ),
        (StoreView::Syncing, ReplyView::Done) => Step::Perform(
            CallView::CloseTemporary,
            StoreView::Closing,
        ),
        (StoreView::Syncing, ReplyView::Failed(failure)) => store_drop(
            Err(StateErrorView::SyncTemporary(failure.text)),
        ),
        (StoreView::Closing, ReplyView::Done) => store_from_install(install_start()),
        (StoreView::Installing(at), _) => store_from_install(install_next(at, reply)),
        (StoreView::Dropping(result), ReplyView::Done) => Step::Return(result),
        _ => arbitrary(),
    }
}

/// Lets the temporary file go, once the result of the store is known.
fn drop_temporary(result: Result<(), StateError>) -> (next: StoreStep)
    ensures
        store_view(next) == store_drop(
            match result {
                Ok(unit) => Ok(unit),
                Err(error) => Err(error@),
            },
        ),
{
    Step::Perform(Call::DropTemporary, StoreState::Dropping(result))
}

/// Ends the store with the outcome of the installation.
fn after_install(step: InstallStep) -> (next: StoreStep)
    ensures
        store_view(next) == store_from_install(with_error_view(step)),
{
    match step {
        Step::Perform(call, at) => Step::Perform(call, StoreState::Installing(at)),
        Step::Return(result) => drop_temporary(result),
    }
}

/// Begins to store a state.
pub fn store_state(state: PersistentDenyReadAclState) -> (step: StoreStep)
    ensures
        store_view(step) == store_start(state@),
{
    Step::Perform(Call::SerializeState(state), StoreState::Serializing)
}

impl StoreState {
    /// The reply that is waited for.
    pub fn expects(&self) -> (expected: Expected)
        ensures
            expected == store_expects(self@),
    {
        match self {
            StoreState::Serializing => Expected::Bytes,
            StoreState::Creating { .. } => Expected::Outcome,
            StoreState::Writing => Expected::Outcome,
            StoreState::Flushing => Expected::Outcome,
            StoreState::Syncing => Expected::Outcome,
            StoreState::Closing => Expected::Done,
            StoreState::Installing(at) => at.expects(),
            StoreState::Dropping(_) => Expected::Done,
        }
    }

    /// Goes on with the store after a reply.
    pub fn resume(self, path: &StatePath, reply: Reply) -> (step: StoreStep)
        requires
            reply_fits(store_expects(self@), reply@),
        ensures
            store_view(step) == store_next(path@, self@, reply@),
    {
        match (self, reply) {
            (StoreState::Serializing, Reply::Bytes(bytes)) => match &path.parent {
                None => Step::Return(Err(StateError::NoParent)),
                Some(parent) => Step::Perform(
                    Call::CreateTemporary,
                    StoreState::Creating { parent: parent.clone(), bytes },
                ),
            },
            (StoreState::Serializing, Reply::Failed(failure)) => Step::Return(
                Err(StateError::Serialize(failure.text)),
            ),
            (StoreState::Creating { bytes, .. }, Reply::Done) => Step::Perform(
                Call::WriteTemporary(bytes),
                StoreState::Writing,
            ),
            (StoreState::Creating { parent, .. }, Reply::Failed(failure)) => Step::Return(
                Err(StateError::CreateTemporary { parent, cause: failure.text }),
            ),
            (StoreState::Writing, Reply::Done) => Step::Perform(
                Call::FlushTemporary,
                StoreState::Flushing,
            ),
            (StoreState::Writing, Reply::Failed(failure)) => drop_temporary(
                Err(StateError::WriteTemporary(failure.text)),
            ),
            (StoreState::Flushing, Reply::Done) => Step::Perform(
                Call::SyncTemporary,
                StoreState::Syncing,
            ),
            (StoreState::Flushing, Reply::Failed(failure)) => drop_temporary(
                Err(StateError::FlushTemporary(failure.text)),
            ),
            (StoreState::Syncing, Reply::Done) => Step::Perform(
                Call::CloseTemporary,
                StoreState::Closing,
            ),
            (StoreState::Syncing, Reply::Failed(failure)) => drop_temporary(
                Err(StateError::SyncTemporary(failure.text)),
            ),
            (StoreState::Closing, Reply::Done) => after_install(install_state_file()),
            (StoreState::Installing(at), reply) => after_install(at.resume(reply)),
            (StoreState::Dropping(result), Reply::Done) => Step::Return(result),
            _ => vstd::pervasive::unreached(),
        }
    }
}

/// The store as a piece of logic.
pub open spec fn store_logic(path: StatePathView) -> Logic<
    CallView,
    ReplyView,
    StoreView,
    Result<(), StateErrorView>,
> {
    Logic {
        next: |at: StoreView, reply: ReplyView| store_next(path, at, reply),
        fits: |at: StoreView, reply: ReplyView| reply_fits(store_expects(at), reply),
    }
}

/// The calls that prepare the temporary file, each with the reply on which the next
/// one follows.
pub open spec fn preparation(state: Recorded, bytes: Seq<u8>) -> Seq<(CallView, ReplyView)> {
    seq![
        (CallView::SerializeState(state), ReplyView::Bytes(bytes)),
        (CallView::CreateTemporary, ReplyView::Done),
        (CallView::WriteTemporary(bytes), ReplyView::Done),
        (CallView::FlushTemporary, ReplyView::Done),
        (CallView::SyncTemporary, ReplyView::Done),
        (CallView::CloseTemporary, ReplyView::Done),
    ]
}

/// The first calls of a store got through: the state was serialized to these bytes,
/// which were written to a temporary file that was flushed, synced and closed.
pub open spec fn prepared(
    state: Recorded,
    bytes: Seq<u8>,
    history: Seq<(CallView, ReplyView)>,
) -> bool {
    &&& history.len() >= 6
    &&& forall|i: int| 0 <= i < 6 ==> #[trigger] history[i] == preparation(state, bytes)[i]
}

/// While a store installs the temporary file, its calls are those of the
/// installation, but for the last, which lets the file go.
proof fn install_within_store(
    path: StatePathView,
    step: InstallStepView,
    history: Seq<(CallView, ReplyView)>,
    result: Result<(), StateErrorView>,
)
    requires
        leads_to(store_logic(path), store_from_install(step), history, Step::Return(result)),
    ensures
        history.len() >= 1,
        history.last() == (CallView::DropTemporary, ReplyView::Done),
        leads_to(install_logic(), step, history.drop_last(), Step::Return(result)),
    decreases history.len(),
{
    match step {
        Step::Perform(call, at) => {
            if history.len() > 0 {
                let reply = history[0].1;
                let next = install_next(at, reply);
                let rest = history.drop_first();
                assert((store_logic(path).next)(StoreView::Installing(at), reply)
                    == store_from_install(next));
                install_within_store(path, next, rest, result);
                assert((install_logic().next)(at, reply) == next);
                assert((install_logic().fits)(at, reply));
                assert(history.drop_last().drop_first() =~= rest.drop_last());
                assert(history.last() == rest.last());
            }
        },
        Step::Return(_) => {
            reveal_with_fuel(leads_to, 2);
        },
    }
}

/// What a store comes to. Either the bytes of the serialized state are complete on
/// disk in a temporary file, and the rest is its installation, which decides the
/// result; or an earlier call failed, all calls before it are the first of those that
/// prepare the file, and no call touched the state file. The temporary file is created
/// and written at most once, and the last call lets it go, exactly where it was
/// created.
pub proof fn law_store_outcomes(
    path: StatePathView,
    state: Recorded,
    history: Seq<(CallView, ReplyView)>,
    result: Result<(), StateErrorView>,
)
    requires
        leads_to(store_logic(path), store_start(state), history, Step::Return(result)),
    ensures
        history.len() >= 1,
        history[0].0 == CallView::SerializeState(state),
        ({
            let created = history.len() >= 2 && history[1] == (
                CallView::CreateTemporary,
                ReplyView::Done,
            );
            let last = if created {
                history.len() - 2
            } else {
                history.len() - 1
            };
            &&& created ==> history.len() >= 4 && history.last() == (
                CallView::DropTemporary,
                ReplyView::Done,
            )
            &&& forall|i: int| 0 <= i <= last ==> !((#[trigger] history[i]).0 is DropTemporary)
            &&& forall|i: int|
                0 <= i < history.len() ==> ((#[trigger] history[i]).0 is CreateTemporary ==> i == 1)
                    && (history[i].0 is WriteTemporary ==> i == 2)
            &&& {
                ||| {
                    &&& path.parent is Some
                    &&& history[0].1 is Bytes
                    &&& prepared(state, history[0].1->Bytes_0, history)
                    &&& leads_to(
                        install_logic(),
                        install_start(),
                        history.subrange(6, last + 1),
                        Step::Return(result),
                    )
                }
                ||| {
                    &&& last <= 4
                    &&& ({
                        let calls = preparation(state, history[0].1->Bytes_0);
                        &&& forall|i: int| 0 <= i < last ==> #[trigger] history[i] == calls[i]
                        &&& history[last].0 == calls[last].0
                    })
                    &&& forall|i: int|
                        0 <= i < history.len() ==> !((#[trigger] history[i]).0 is ReplaceState)
                            && !(history[i].0 is MoveIntoPlace)
                    &&& match result {
                        Ok(_) => false,
                        Err(StateErrorView::NoParent) => path.parent is None && last == 0,
                        Err(error) => {
                            &&& history[last].1 is Failed
                            &&& error == {
                                let cause = history[last].1->Failed_0.text;
                                if last == 0 {
                                    StateErrorView::Serialize(cause)
                                } else if last == 1 {
                                    StateErrorView::CreateTemporary {
                                        parent: path.parent->0,
                                        cause,
                                    }
                                } else if last == 2 {
                                    StateErrorView::WriteTemporary(cause)
                                } else if last == 3 {
                                    StateErrorView::FlushTemporary(cause)
                                } else {
                                    StateErrorView::SyncTemporary(cause)
                                }
                            }
                        },
                    }
                }
            }
        }),
{
    reveal_with_fuel(leads_to, 7);
    if history.len() >= 6 && history[4].1 is Done {
        let rest =
            history.drop_first().drop_first().drop_first().drop_first().drop_first().drop_first();
        assert(rest =~= history.skip(6));
        assert(leads_to(
            store_logic(path),
            store_from_install(install_start()),
            rest,
            Step::Return(result),
        ));
        install_within_store(path, install_start(), rest, result);
        law_install_outcomes(rest.drop_last(), result);
        assert(rest.drop_last() =~= history.subrange(6, history.len() - 1));
        assert(history.last() == rest.last());
        assert forall|i: int| 6 <= i < history.len() - 1 implies #[trigger] history[i]
            == rest.drop_last()[i - 6] by {}
    }
}

/// A store succeeds exactly where one of its calls, the last but one, put the
/// temporary file in the place of the state file; that file then holds exactly the
/// bytes that the state was serialized to.
pub proof fn law_store_installs_what_it_serialized(
    path: StatePathView,
    state: Recorded,
    history: Seq<(CallView, ReplyView)>,
    result: Result<(), StateErrorView>,
)
    requires
        leads_to(store_logic(path), store_start(state), history, Step::Return(result)),
    ensures
        result is Ok <==> exists|i: int| 0 <= i < history.len() && #[trigger] installs(history[i]),
        result is Ok ==> installs(history[history.len() - 2]),
        result is Ok ==> history[0].1 is Bytes && prepared(state, history[0].1->Bytes_0, history),
{
    law_store_outcomes(path, state, history, result);
    let rest = history.subrange(6, history.len() - 1);
    if prepared(state, history[0].1->Bytes_0, history) && leads_to(
        install_logic(),
        install_start(),
        rest,
        Step::Return(result),
    ) {
        law_install_outcomes(rest, result);
        assert forall|i: int| 0 <= i < history.len() - 2 implies !#[trigger] installs(
            history[i],
        ) by {
            if i >= 6 {
                assert(history[i] == rest[i - 6]);
            }
        }
        assert(history[history.len() - 2] == rest.last());
    }
}

/// Installation and store as pieces of logic go on as they do when they are resumed, and
/// accept the replies that they wait for.
pub proof fn law_store_logic_is_what_is_resumed(
    path: StatePathView,
    installing: InstallState,
    storing: StoreView,
    reply: ReplyView,
)
    ensures
        (install_logic().next)(installing, reply) == install_next(installing, reply),
        (install_logic().fits)(installing, reply) == reply_fits(install_expects(installing), reply),
        (store_logic(path).next)(storing, reply) == store_next(path, storing, reply),
        (store_logic(path).fits)(storing, reply) == reply_fits(store_expects(storing), reply),
{
}

/// The steps of installation and store are seen with their calls and errors as they are.
pub proof fn law_store_steps_are_seen_as_they_are(
    call: Call,
    installing: InstallState,
    storing: StoreState,
    error: StateError,
)
    ensures
        with_error_view(InstallStep::Perform(call, installing)) == InstallStepView::Perform(
            call@,
            installing,
        ),
        with_error_view(InstallStep::Return(Ok(()))) == InstallStepView::Return(Ok(())),
        with_error_view(InstallStep::Return(Err(error))) == InstallStepView::Return(Err(error@)),
        store_view(StoreStep::Perform(call, storing)) == StoreStepView::Perform(call@, storing@),
        store_view(StoreStep::Return(Ok(()))) == StoreStepView::Return(Ok(())),
        store_view(StoreStep::Return(Err(error))) == StoreStepView::Return(Err(error@)),
{
}

/// Every installation comes to its end, whatever the outside replies. A replacement that
/// works ends it. One that fails with another code than 2 ends it with that code; with
/// the code 2 there is no state file, and the temporary file is moved into its place,
/// which works or fails with its own code.
pub proof fn law_every_installation_ends(replaced: i32, code: u32, moved: i32, move_code: u32)
    ensures
        ({
            let logic = install_logic();
            let mode = MoveMode { replace_existing: true, write_through: true };
            let replacing = (CallView::ReplaceState, ReplyView::Flag(replaced));
            let asking = (CallView::LastError, ReplyView::Code(code));
            let moving = (CallView::MoveIntoPlace(mode), ReplyView::Flag(moved));
            &&& replaced != 0 ==> leads_to(
                logic,
                install_start(),
                seq![replacing],
                Step::Return(Ok(())),
            )
            &&& replaced == 0 && code != 2 ==> leads_to(
                logic,
                install_start(),
                seq![replacing, asking],
                Step::Return(Err(StateErrorView::ReplaceFile(code))),
            )
            &&& replaced == 0 && code == 2 && moved != 0 ==> leads_to(
                logic,
                install_start(),
                seq![replacing, asking, moving],
                Step::Return(Ok(())),
            )
            &&& replaced == 0 && code == 2 && moved == 0 ==> leads_to(
                logic,
                install_start(),
                seq![
                    replacing,
                    asking,
                    moving,
                    (CallView::LastError, ReplyView::Code(move_code)),
                ],
                Step::Return(Err(StateErrorView::MoveFile(move_code))),
            )
        }),
{
    reveal_with_fuel(leads_to, 5);
}

/// Every store whose temporary file cannot be made complete comes to its end: the first
/// call that fails, be it the serialization, the creation, the write, the flush or the
/// sync, decides the error, and a file that was created is let go. Nor is anything
/// written where the path has no parent.
pub proof fn law_every_store_that_fails_early_ends(
    path: StatePathView,
    state: Recorded,
    bytes: Seq<u8>,
    failure: FailureView,
)
    ensures
        ({
            let logic = store_logic(path);
            let start = store_start(state);
            let cause = failure.text;
            let failed = ReplyView::Failed(failure);
            let serialized = (CallView::SerializeState(state), ReplyView::Bytes(bytes));
            let created = (CallView::CreateTemporary, ReplyView::Done);
            let written = (CallView::WriteTemporary(bytes), ReplyView::Done);
            let flushed = (CallView::FlushTemporary, ReplyView::Done);
            let dropped = (CallView::DropTemporary, ReplyView::Done);
            &&& leads_to(
                logic,
                start,
                seq![(CallView::SerializeState(state), failed)],
                Step::Return(Err(StateErrorView::Serialize(cause))),
            )
            &&& path.parent is None ==> leads_to(
                logic,
                start,
                seq![serialized],
                Step::Return(Err(StateErrorView::NoParent)),
            )
            &&& path.parent matches Some(parent) ==> {
                &&& leads_to(
                    logic,
                    start,
                    seq![serialized, (CallView::CreateTemporary, failed)],
                    Step::Return(Err(StateErrorView::CreateTemporary { parent, cause })),
                )
                &&& leads_to(
                    logic,
                    start,
                    seq![serialized, created, (CallView::WriteTemporary(bytes), failed), dropped],
                    Step::Return(Err(StateErrorView::WriteTemporary(cause))),
                )
                &&& leads_to(
                    logic,
                    start,
                    seq![serialized, created, written, (CallView::FlushTemporary, failed), dropped],
                    Step::Return(Err(StateErrorView::FlushTemporary(cause))),
                )
                &&& leads_to(
                    logic,
                    start,
                    seq![
                        serialized,
                        created,
                        written,
                        flushed,
                        (CallView::SyncTemporary, failed),
                        dropped,
                    ],
                    Step::Return(Err(StateErrorView::SyncTemporary(cause))),
                )
            }
        }),
{
    reveal_with_fuel(leads_to, 7);
}

/// Every store whose temporary file is complete comes to its end. Whatever the state and
/// the bytes that it was serialized to, these bytes are written to a temporary file,
/// which is flushed, synced and closed; then it is installed, and let go; and the store
/// ends as the installation does.
pub proof fn law_every_store_ends(
    path: StatePathView,
    state: Recorded,
    bytes: Seq<u8>,
    installation: Seq<(CallView, ReplyView)>,
    result: Result<(), StateErrorView>,
)
    requires
        path.parent is Some,
        leads_to(install_logic(), install_start(), installation, Step::Return(result)),
    ensures
        leads_to(
            store_logic(path),
            store_start(state),
            seq![
                (CallView::SerializeState(state), ReplyView::Bytes(bytes)),
                (CallView::CreateTemporary, ReplyView::Done),
                (CallView::WriteTemporary(bytes), ReplyView::Done),
                (CallView::FlushTemporary, ReplyView::Done),
                (CallView::SyncTemporary, ReplyView::Done),
                (CallView::CloseTemporary, ReplyView::Done),
            ] + installation + seq![(CallView::DropTemporary, ReplyView::Done)],
            Step::Return(result),
        ),
{
    let logic = store_logic(path);
    let first = seq![
        (CallView::SerializeState(state), ReplyView::Bytes(bytes)),
        (CallView::CreateTemporary, ReplyView::Done),
        (CallView::WriteTemporary(bytes), ReplyView::Done),
        (CallView::FlushTemporary, ReplyView::Done),
        (CallView::SyncTemporary, ReplyView::Done),
        (CallView::CloseTemporary, ReplyView::Done),
    ];
    let last = seq![(CallView::DropTemporary, ReplyView::Done)];
    let inside = Inside {
        call: |call: CallView| call,
        inner_call: |call: CallView| call,
        reply: |reply: ReplyView| reply,
        inner_reply: |reply: ReplyView| reply,
        state: |at: InstallState| StoreView::Installing(at),
        after: |installed: Result<(), StateErrorView>| store_from_install(Step::Return(installed)),
    };
    assert forall|step: InstallStepView| #[trigger]
        outer_step(inside, step) == store_from_install(step) by {}
    let end: StoreStepView = Step::Return(result);
    assert(leads_to(logic, store_from_install(Step::Return(result)), last, end)) by {
        reveal_with_fuel(leads_to, 2);
    }
    outer_part(install_logic(), logic, inside, install_start(), installation, result, last, end);
    assert(outer_history(inside, installation) + last =~= installation + last);
    assert(leads_to(logic, store_start(state), first, store_from_install(install_start()))) by {
        reveal_with_fuel(leads_to, 7);
    }
    leads_through(
        logic,
        store_start(state),
        first,
        store_from_install(install_start()),
        installation + last,
        end,
    );
    assert(first + (installation + last) =~= first + installation + last);
}

/// A store of any state, serialized to any bytes, succeeds where every call does: the
/// file that takes the place of the state file holds exactly these bytes.
pub proof fn law_store_succeeds_where_every_call_does(
    path: StatePathView,
    state: Recorded,
    bytes: Seq<u8>,
)
    requires
        path.parent is Some,
    ensures
        leads_to(
            store_logic(path),
            store_start(state),
            seq![
                (CallView::SerializeState(state), ReplyView::Bytes(bytes)),
                (CallView::CreateTemporary, ReplyView::Done),
                (CallView::WriteTemporary(bytes), ReplyView::Done),
                (CallView::FlushTemporary, ReplyView::Done),
                (CallView::SyncTemporary, ReplyView::Done),
                (CallView::CloseTemporary, ReplyView::Done),
                (CallView::ReplaceState, ReplyView::Flag(1)),
                (CallView::DropTemporary, ReplyView::Done),
            ],
            Step::Return(Ok(())),
        ),
{
    reveal_with_fuel(leads_to, 9);
}

} // verus!
