//! Acquiring and releasing the mutex that guards the state.

use crate::calls::reply_fits;
use crate::calls::Call;
use crate::calls::CallView;
use crate::calls::Expected;
use crate::calls::Reply;
use crate::calls::ReplyView;
use crate::calls::Step;
use crate::error::MutexError;
use crate::run::leads_to;
use crate::run::Logic;
use crate::text::append_decimal;
use crate::text::decimal;
use crate::text::numbered_texts_differ;
use vstd::prelude::*;
use vstd::string::*;

verus! {

/// Wait status: the mutex was signaled and is now held.
pub const WAIT_OBJECT_0: u32 = 0;

/// Wait status: the previous owner ended without releasing the mutex, which is now held.
pub const WAIT_ABANDONED: u32 = 0x0000_0080;

/// Wait status: the wait itself failed.
pub const WAIT_FAILED: u32 = 0xffff_ffff;

/// A held mutex.
#[derive(Debug, PartialEq, Eq, Structural)]
pub struct DenyReadAclStateMutexGuard {
    pub handle: isize,
}

/// Where the acquisition of the mutex stands.
#[derive(Clone, Copy, Debug, PartialEq, Eq, Structural)]
pub enum AcquireState {
    /// The mutex is being created.
    Creating,
    /// The mutex could not be created; its error code is asked for.
    CreateFailed,
    /// The mutex is being waited for.
    Waiting(isize),
    /// The wait failed; its error code is asked for.
    WaitFailed(isize),
    /// The handle is being closed because of this error.
    Closing(MutexError),
}

/// Where the release of the mutex stands.
#[derive(Clone, Copy, Debug, PartialEq, Eq, Structural)]
pub enum ReleaseState {
    /// The mutex is being released.
    Releasing(isize),
    /// The handle is being closed.
    Closing,
}

pub type AcquireStep = Step<Call, AcquireState, Result<DenyReadAclStateMutexGuard, MutexError>>;

pub type AcquireStepView = Step<
    CallView,
    AcquireState,
    Result<DenyReadAclStateMutexGuard, MutexError>,
>;

pub type ReleaseStep = Step<Call, ReleaseState, ()>;

pub type ReleaseStepView = Step<CallView, ReleaseState, ()>;

/// A step with the values of its call.
pub open spec fn with_call_view<S, R>(step: Step<Call, S, R>) -> Step<CallView, S, R> {
    match step {
        Step::Perform(call, at) => Step::Perform(call@, at),
        Step::Return(result) => Step::Return(result),
    }
}

/// The wait ended with the mutex held.
pub open spec fn wait_acquired(status: u32) -> bool {
    status == WAIT_OBJECT_0 || status == WAIT_ABANDONED
}

/// The reply that the acquisition waits for.
pub open spec fn acquire_expects(at: AcquireState) -> Expected {
    match at {
        AcquireState::Creating => Expected::Handle,
        AcquireState::CreateFailed => Expected::Code,
        AcquireState::Waiting(_) => Expected::Code,
        AcquireState::WaitFailed(_) => Expected::Code,
        AcquireState::Closing(_) => Expected::Done,
    }
}

/// How the acquisition goes on after a reply. A handle that was obtained is
/// closed again wherever the mutex is not.
pub open spec fn acquire_next(at: AcquireState, reply: ReplyView) -> AcquireStepView {
    match (at, reply) {
        (AcquireState::Creating, ReplyView::Handle(handle)) => if handle == 0 {
            Step::Perform(CallView::LastError, AcquireState::CreateFailed)
        } else {
            Step::Perform(CallView::WaitForMutex(handle), AcquireState::Waiting(handle))
        },
        (AcquireState::CreateFailed, ReplyView::Code(code)) => Step::Return(
            Err(MutexError::Create(code)),
        ),
        (AcquireState::Waiting(handle), ReplyView::Code(status)) => if wait_acquired(status) {
            Step::Return(Ok(DenyReadAclStateMutexGuard { handle }))
        } else if status == WAIT_FAILED {
            Step::Perform(CallView::LastError, AcquireState::WaitFailed(handle))
        } else {
            Step::Perform(
                CallView::CloseHandle(handle),
                AcquireState::Closing(MutexError::WaitUnexpected(status)),
            )
        },
        (AcquireState::WaitFailed(handle), ReplyView::Code(code)) => Step::Perform(
            CallView::CloseHandle(handle),
            AcquireState::Closing(MutexError::WaitFailed(code)),
        ),
        (AcquireState::Closing(error), ReplyView::Done) => Step::Return(Err(error)),
        _ => arbitrary(),
    }
}

/// The reply that the release waits for.
pub open spec fn release_expects(at: ReleaseState) -> Expected {
    Expected::Done
}

/// How the release goes on: the mutex is released, then its handle is closed.
pub open spec fn release_next(at: ReleaseState, reply: ReplyView) -> ReleaseStepView {
    match at {
        ReleaseState::Releasing(handle) => Step::Perform(
            CallView::CloseHandle(handle),
            ReleaseState::Closing,
        ),
        ReleaseState::Closing => Step::Return(()),
    }
}

impl AcquireState {
    /// The reply that is waited for.
    pub fn expects(&self) -> (expected: Expected)
        ensures
            expected == acquire_expects(*self),
    {
        match self {
            AcquireState::Creating => Expected::Handle,
            AcquireState::CreateFailed => Expected::Code,
            AcquireState::Waiting(_) => Expected::Code,
            AcquireState::WaitFailed(_) => Expected::Code,
            AcquireState::Closing(_) => Expected::Done,
        }
    }

    /// Goes on with the acquisition after a reply.
    pub fn resume(self, reply: Reply) -> (step: AcquireStep)
        requires
            reply_fits(acquire_expects(self), reply@),
        ensures
            with_call_view(step) == acquire_next(self, reply@),
    {
        match (self, reply) {
            (AcquireState::Creating, Reply::Handle(handle)) => {
                if handle == 0 {
                    Step::Perform(Call::LastError, AcquireState::CreateFailed)
                } else {
                    Step::Perform(Call::WaitForMutex(handle), AcquireState::Waiting(handle))
                }
            },
            (AcquireState::CreateFailed, Reply::Code(code)) => Step::Return(
                Err(MutexError::Create(code)),
            ),
            (AcquireState::Waiting(handle), Reply::Code(status)) => {
                if status == WAIT_OBJECT_0 || status == WAIT_ABANDONED {
                    Step::Return(Ok(DenyReadAclStateMutexGuard { handle }))
                } else if status == WAIT_FAILED {
                    Step::Perform(Call::LastError, AcquireState::WaitFailed(handle))
                } else {
                    Step::Perform(
                        Call::CloseHandle(handle),
                        AcquireState::Closing(MutexError::WaitUnexpected(status)),
                    )
                }
            },
            (AcquireState::WaitFailed(handle), Reply::Code(code)) => Step::Perform(
                Call::CloseHandle(handle),
                AcquireState::Closing(MutexError::WaitFailed(code)),
            ),
            (AcquireState::Closing(error), Reply::Done) => Step::Return(Err(error)),
            _ => vstd::pervasive::unreached(),
        }
    }
}

impl ReleaseState {
    /// The reply that is waited for.
    pub fn expects(&self) -> (expected: Expected)
        ensures
            expected == release_expects(*self),
    {
        Expected::Done
    }

    /// Goes on with the release after a reply.
    pub fn resume(self, reply: Reply) -> (step: ReleaseStep)
        requires
            reply_fits(release_expects(self), reply@),
        ensures
            with_call_view(step) == release_next(self, reply@),
    {
        match self {
            ReleaseState::Releasing(handle) => Step::Perform(
                Call::CloseHandle(handle),
                ReleaseState::Closing,
            ),
            ReleaseState::Closing => Step::Return(()),
        }
    }
}

/// The first step of acquiring the mutex of that name.
pub open spec fn acquire_start(name: Seq<char>) -> AcquireStepView {
    Step::Perform(CallView::CreateMutex(name), AcquireState::Creating)
}

/// The first step of releasing the mutex behind the handle.
pub open spec fn release_start(handle: isize) -> ReleaseStepView {
    Step::Perform(CallView::ReleaseMutex(handle), ReleaseState::Releasing(handle))
}

impl DenyReadAclStateMutexGuard {
    /// Begins to acquire the mutex of that name.
    pub fn acquire(name: &str) -> (step: AcquireStep)
        ensures
            with_call_view(step) == acquire_start(name@),
    {
        Step::Perform(Call::CreateMutex(name.to_owned()), AcquireState::Creating)
    }

    /// Begins to release the mutex.
    pub fn release(self) -> (step: ReleaseStep)
        ensures
            with_call_view(step) == release_start(self.handle),
    {
        Step::Perform(
            Call::ReleaseMutex(self.handle),
            ReleaseState::Releasing(self.handle),
        )
    }
}

/// The text of a mutex name that no other process uses, and this one not at another time.
pub open spec fn unique_name(process_id: u32, label: Seq<char>, nanos: u128) -> Seq<char> {
    "Local\\CodexSandboxDenyReadAclStateTest-"@ + decimal(process_id as nat) + ("-"@ + label
        + "-"@) + decimal(nanos as nat)
}

/// A mutex name for a trial of transactions apart from those on the real state, made from
/// the process id and the nanoseconds since the Unix epoch.
pub fn unique_mutex_name(process_id: u32, label: &str, nanos: u128) -> (name: String)
    ensures
        name@ == unique_name(process_id, label@, nanos),
        name@ == "Local\\CodexSandboxDenyReadAclStateTest-"@ + decimal(process_id as nat) + "-"@
            + label@ + "-"@ + decimal(nanos as nat),
{
    let mut name = "Local\\CodexSandboxDenyReadAclStateTest-".to_owned();
    append_decimal(&mut name, process_id as u128);
    name.append("-");
    name.append(label);
    name.append("-");
    append_decimal(&mut name, nanos);
    assert(name@ =~= unique_name(process_id, label@, nanos));
    name
}

/// Two such names with one label are equal exactly where they were made by the same
/// process at the same time.
pub proof fn law_unique_mutex_names_differ(
    label: Seq<char>,
    process_id: u32,
    nanos: u128,
    other_process_id: u32,
    other_nanos: u128,
)
    ensures
        unique_name(process_id, label, nanos) == unique_name(other_process_id, label, other_nanos)
            <==> process_id == other_process_id && nanos == other_nanos,
{
    let between = "-"@ + label + "-"@;
    reveal_strlit("-");
    assert(between[0] == '-');
    numbered_texts_differ(
        "Local\\CodexSandboxDenyReadAclStateTest-"@,
        process_id as nat,
        between,
        nanos as nat,
        other_process_id as nat,
        other_nanos as nat,
    );
}

/// The acquisition as a piece of logic.
pub open spec fn acquire_logic() -> Logic<
    CallView,
    ReplyView,
    AcquireState,
    Result<DenyReadAclStateMutexGuard, MutexError>,
> {
    Logic {
        next: |at: AcquireState, reply: ReplyView| acquire_next(at, reply),
        fits: |at: AcquireState, reply: ReplyView| reply_fits(acquire_expects(at), reply),
    }
}

/// What the acquisition of a mutex comes to: it is held only where the wait ended
/// signaled or abandoned, and then by a handle that is not zero; on every failure
/// after the mutex was created, its handle is closed, and the error code of a
/// failed wait is read before that.
pub proof fn law_acquire_outcomes(
    name: Seq<char>,
    history: Seq<(CallView, ReplyView)>,
    result: Result<DenyReadAclStateMutexGuard, MutexError>,
)
    requires
        leads_to(acquire_logic(), acquire_start(name), history, Step::Return(result)),
    ensures
        history.len() >= 2,
        history[0].0 == CallView::CreateMutex(name),
        history[0].1 is Handle,
        ({
            let handle = history[0].1->Handle_0;
            match result {
                Ok(guard) => {
                    &&& guard.handle == handle
                    &&& handle != 0
                    &&& history.len() == 2
                    &&& history[1].0 == CallView::WaitForMutex(handle)
                    &&& history[1].1 is Code
                    &&& wait_acquired(history[1].1->Code_0)
                },
                Err(MutexError::Create(code)) => {
                    &&& handle == 0
                    &&& history.len() == 2
                    &&& history[1] == (CallView::LastError, ReplyView::Code(code))
                },
                Err(MutexError::WaitFailed(code)) => {
                    &&& handle != 0
                    &&& history.len() == 4
                    &&& history[1] == (
                        CallView::WaitForMutex(handle),
                        ReplyView::Code(WAIT_FAILED),
                    )
                    &&& history[2] == (CallView::LastError, ReplyView::Code(code))
                    &&& history[3] == (CallView::CloseHandle(handle), ReplyView::Done)
                },
                Err(MutexError::WaitUnexpected(status)) => {
                    &&& handle != 0
                    &&& history.len() == 3
                    &&& !wait_acquired(status)
                    &&& status != WAIT_FAILED
                    &&& history[1] == (CallView::WaitForMutex(handle), ReplyView::Code(status))
                    &&& history[2] == (CallView::CloseHandle(handle), ReplyView::Done)
                },
            }
        }),
{
    reveal_with_fuel(leads_to, 6);
}

/// The release as a piece of logic.
pub open spec fn release_logic() -> Logic<CallView, ReplyView, ReleaseState, ()> {
    Logic {
        next: |at: ReleaseState, reply: ReplyView| release_next(at, reply),
        fits: |at: ReleaseState, reply: ReplyView| reply_fits(release_expects(at), reply),
    }
}

/// Acquisition and release as pieces of logic go on as they do when they are resumed,
/// and accept the replies that they wait for.
pub proof fn law_mutex_logic_is_what_is_resumed(
    acquiring: AcquireState,
    releasing: ReleaseState,
    reply: ReplyView,
)
    ensures
        (acquire_logic().next)(acquiring, reply) == acquire_next(acquiring, reply),
        (acquire_logic().fits)(acquiring, reply) == reply_fits(acquire_expects(acquiring), reply),
        (release_logic().next)(releasing, reply) == release_next(releasing, reply),
        (release_logic().fits)(releasing, reply) == reply_fits(release_expects(releasing), reply),
{
}

/// A step is seen with its call as it is, and with its result.
pub proof fn law_mutex_steps_are_seen_as_they_are<S, R>(call: Call, at: S, result: R)
    ensures
        with_call_view(Step::<Call, S, R>::Perform(call, at)) == Step::<CallView, S, R>::Perform(
            call@,
            at,
        ),
        with_call_view(Step::<Call, S, R>::Return(result)) == Step::<CallView, S, R>::Return(
            result,
        ),
{
}

/// Every acquisition comes to its end, whatever the outside replies. Without a handle the
/// error code is the result. With one the mutex is waited for by it: it is held where the
/// wait ends with the status 0 or 0x80; a failed wait gives its error code, any other
/// status is itself the error, and in both cases the handle is closed.
pub proof fn law_every_acquisition_ends(name: Seq<char>, handle: isize, status: u32, code: u32)
    ensures
        handle == 0 ==> leads_to(
            acquire_logic(),
            acquire_start(name),
            seq![
                (CallView::CreateMutex(name), ReplyView::Handle(handle)),
                (CallView::LastError, ReplyView::Code(code)),
            ],
            Step::Return(Err(MutexError::Create(code))),
        ),
        handle != 0 && (status == 0 || status == 0x80) ==> leads_to(
            acquire_logic(),
            acquire_start(name),
            seq![
                (CallView::CreateMutex(name), ReplyView::Handle(handle)),
                (CallView::WaitForMutex(handle), ReplyView::Code(status)),
            ],
            Step::Return(Ok(DenyReadAclStateMutexGuard { handle })),
        ),
        handle != 0 && status == 0xffff_ffff ==> leads_to(
            acquire_logic(),
            acquire_start(name),
            seq![
                (CallView::CreateMutex(name), ReplyView::Handle(handle)),
                (CallView::WaitForMutex(handle), ReplyView::Code(status)),
                (CallView::LastError, ReplyView::Code(code)),
                (CallView::CloseHandle(handle), ReplyView::Done),
            ],
            Step::Return(Err(MutexError::WaitFailed(code))),
        ),
        handle != 0 && status != 0 && status != 0x80 && status != 0xffff_ffff ==> leads_to(
            acquire_logic(),
            acquire_start(name),
            seq![
                (CallView::CreateMutex(name), ReplyView::Handle(handle)),
                (CallView::WaitForMutex(handle), ReplyView::Code(status)),
                (CallView::CloseHandle(handle), ReplyView::Done),
            ],
            Step::Return(Err(MutexError::WaitUnexpected(status))),
        ),
        wait_acquired(status) <==> status == 0 || status == 0x80,
{
    reveal_with_fuel(leads_to, 5);
}

/// Every release comes to its end: the mutex is released and its handle closed.
pub proof fn law_every_release_ends(handle: isize)
    ensures
        leads_to(
            release_logic(),
            release_start(handle),
            seq![
                (CallView::ReleaseMutex(handle), ReplyView::Done),
                (CallView::CloseHandle(handle), ReplyView::Done),
            ],
            Step::Return(()),
        ),
{
    reveal_with_fuel(leads_to, 3);
}

} // verus!
