//! The synchronization of the ACEs of one principal: a reconciliation inside one
//! transaction on the state.

use crate::calls::reply_fits;
use crate::calls::Call;
use crate::calls::CallView;
use crate::calls::Reply;
use crate::calls::ReplyView;
use crate::calls::Step;
use crate::error::StateError;
use crate::error::StateErrorView;
use crate::mutex::DenyReadAclStateMutexGuard;
use crate::principals::paths_view;
use crate::principals::WidePath;
use crate::reconcile::reconcile;
use crate::reconcile::reconcile_fits;
use crate::reconcile::reconcile_next;
use crate::reconcile::reconcile_start;
use crate::reconcile::reconcile_view;
use crate::reconcile::AclCall;
use crate::reconcile::AclCallView;
use crate::reconcile::AclReply;
use crate::reconcile::AclReplyView;
use crate::reconcile::ReconcileState;
use crate::reconcile::ReconcileStep;
use crate::reconcile::ReconcileStepView;
use crate::reconcile::ReconcileView;
use crate::state::DENY_READ_ACL_STATE_MUTEX_NAME;
use crate::state::StatePath;
use crate::state::StatePathView;
use crate::transaction::closing_expects;
use crate::transaction::closing_next;
use crate::transaction::closing_start;
use crate::transaction::closing_view;
use crate::transaction::opening_expects;
use crate::transaction::opening_next;
use crate::transaction::opening_start;
use crate::transaction::opening_view;
use crate::transaction::result_view;
use crate::transaction::update_outcome;
use crate::transaction::ClosingState;
use crate::transaction::ClosingStep;
use crate::transaction::ClosingStepView;
use crate::transaction::ClosingView;
use crate::transaction::Opened;
use crate::transaction::OpenedView;
use crate::transaction::OpeningState;
use crate::transaction::OpeningStep;
use crate::transaction::OpeningStepView;
use crate::transaction::OpeningView;
use crate::transaction::UpdateError;
use crate::transaction::UpdateErrorView;
use vstd::prelude::*;

verus! {

/// A call of a synchronization.
#[derive(Debug, PartialEq, Eq)]
pub enum SyncCall {
    System(Call),
    Acl(AclCall),
}

/// A call of a synchronization with its values.
pub enum SyncCallView {
    System(CallView),
    Acl(AclCallView),
}

impl View for SyncCall {
    type V = SyncCallView;

    open spec fn view(&self) -> SyncCallView {
        match *self {
            SyncCall::System(call) => SyncCallView::System(call@),
            SyncCall::Acl(call) => SyncCallView::Acl(call@),
        }
    }
}

/// The reply to a call of a synchronization.
#[derive(Debug, PartialEq, Eq)]
pub enum SyncReply<E> {
    System(Reply),
    Acl(AclReply<E>),
}

/// The reply to a call of a synchronization with its values.
pub enum SyncReplyView<E> {
    System(ReplyView),
    Acl(AclReplyView<E>),
}

impl<E> View for SyncReply<E> {
    type V = SyncReplyView<E>;

    open spec fn view(&self) -> SyncReplyView<E> {
        match *self {
            SyncReply::System(reply) => SyncReplyView::System(reply@),
            SyncReply::Acl(reply) => SyncReplyView::Acl(reply@),
        }
    }
}

/// A result with the paths it holds.
pub open spec fn result_paths<E>(result: Result<Vec<WidePath>, UpdateErrorView<E>>) -> Result<
    Seq<Seq<u16>>,
    UpdateErrorView<E>,
> {
    match result {
        Ok(paths) => Ok(paths_view(paths@)),
        Err(error) => Err(error),
    }
}

/// A closing with the paths it holds.
pub open spec fn closing_paths<E>(at: ClosingView<Vec<WidePath>, E>) -> ClosingView<
    Seq<Seq<u16>>,
    E,
> {
    match at {
        ClosingView::Storing(guard, at, paths) => ClosingView::Storing(
            guard,
            at,
            paths_view(paths@),
        ),
        ClosingView::Releasing(at, result) => ClosingView::Releasing(at, result_paths(result)),
    }
}

/// A step of a closing with the paths it holds.
pub open spec fn closing_step_paths<E>(
    step: ClosingStepView<Vec<WidePath>, E>,
) -> ClosingStepView<Seq<Seq<u16>>, E> {
    match step {
        Step::Perform(call, at) => Step::Perform(call, closing_paths(at)),
        Step::Return(result) => Step::Return(result_paths(result)),
    }
}

/// Where a synchronization stands.
#[derive(Debug, PartialEq, Eq)]
pub enum SyncState<E> {
    /// The mutex is being acquired or the state is being loaded.
    Opening { sid: String, desired: Vec<WidePath>, opening: OpeningState },
    /// The ACEs are being reconciled.
    Reconciling { guard: DenyReadAclStateMutexGuard, reconciliation: ReconcileState },
    /// The state is being stored or the mutex is being released.
    Closing(ClosingState<Vec<WidePath>, E>),
}

/// The state of a synchronization with its values.
pub enum SyncView<E> {
    Opening { sid: Seq<char>, desired: Seq<Seq<u16>>, opening: OpeningView },
    Reconciling { guard: DenyReadAclStateMutexGuard, reconciliation: ReconcileView },
    Closing(ClosingView<Seq<Seq<u16>>, E>),
}

impl<E> View for SyncState<E> {
    type V = SyncView<E>;

    open spec fn view(&self) -> SyncView<E> {
        match *self {
            SyncState::Opening { sid, desired, opening } => SyncView::Opening {
                sid: sid@,
                desired: paths_view(desired@),
                opening: opening@,
            },
            SyncState::Reconciling { guard, reconciliation } => SyncView::Reconciling {
                guard,
                reconciliation: reconciliation@,
            },
            SyncState::Closing(at) => SyncView::Closing(closing_paths(at@)),
        }
    }
}

pub type SyncStep<E> = Step<SyncCall, SyncState<E>, Result<Vec<WidePath>, UpdateError<E>>>;

pub type SyncStepView<E> = Step<
    SyncCallView,
    SyncView<E>,
    Result<Seq<Seq<u16>>, UpdateErrorView<E>>,
>;

/// A step of a synchronization with its values.
pub open spec fn sync_view<E>(step: SyncStep<E>) -> SyncStepView<E> {
    match step {
        Step::Perform(call, at) => Step::Perform(call@, at@),
        Step::Return(result) => Step::Return(result_paths(result_view(result))),
    }
}

/// The synchronization while it closes.
pub open spec fn sync_from_closing<E>(step: ClosingStepView<Seq<Seq<u16>>, E>) -> SyncStepView<E> {
    match step {
        Step::Perform(call, at) => Step::Perform(
            SyncCallView::System(call),
            SyncView::Closing(at),
        ),
        Step::Return(result) => Step::Return(result),
    }
}

/// The synchronization while the ACEs are reconciled: then the transaction closes.
pub open spec fn sync_from_reconcile<E>(
    guard: DenyReadAclStateMutexGuard,
    step: ReconcileStepView<E>,
) -> SyncStepView<E> {
    match step {
        Step::Perform(call, at) => Step::Perform(
            SyncCallView::Acl(call),
            SyncView::Reconciling { guard, reconciliation: at },
        ),
        Step::Return(result) => sync_from_closing(closing_start(guard, update_outcome(result))),
    }
}

/// The synchronization while the transaction opens: with the state loaded the ACEs
/// are reconciled.
pub open spec fn sync_from_opening<E>(
    sid: Seq<char>,
    desired: Seq<Seq<u16>>,
    step: OpeningStepView,
) -> SyncStepView<E> {
    match step {
        Step::Perform(call, at) => Step::Perform(
            SyncCallView::System(call),
            SyncView::Opening { sid, desired, opening: at },
        ),
        Step::Return(OpenedView::Loaded(guard, state)) => sync_from_reconcile(
            guard,
            reconcile_start(state, sid, desired),
        ),
        Step::Return(OpenedView::NotLoaded(guard, error)) => sync_from_closing(
            closing_start(guard, Err(UpdateErrorView::State(error))),
        ),
        Step::Return(OpenedView::NotAcquired(error)) => Step::Return(
            Err(UpdateErrorView::State(StateErrorView::Mutex(error))),
        ),
    }
}

/// The first step of a synchronization.
pub open spec fn sync_start<E>(sid: Seq<char>, desired: Seq<Seq<u16>>) -> SyncStepView<E> {
    sync_from_opening(sid, desired, opening_start(DENY_READ_ACL_STATE_MUTEX_NAME@))
}

/// The reply answers the call that the synchronization waits for.
pub open spec fn sync_fits<E>(at: SyncView<E>, reply: SyncReplyView<E>) -> bool {
    match (at, reply) {
        (SyncView::Opening { opening: at, .. }, SyncReplyView::System(reply)) => reply_fits(
            opening_expects(at),
            reply,
        ),
        (SyncView::Reconciling { reconciliation: at, .. }, SyncReplyView::Acl(reply)) =>
            reconcile_fits(at, reply),
        (SyncView::Closing(at), SyncReplyView::System(reply)) => reply_fits(
            closing_expects(at),
            reply,
        ),
        _ => false,
    }
}

/// How a synchronization goes on after a reply.
pub open spec fn sync_next<E>(
    path: StatePathView,
    at: SyncView<E>,
    reply: SyncReplyView<E>,
) -> SyncStepView<E> {
    match (at, reply) {
        (SyncView::Opening { sid, desired, opening: at }, SyncReplyView::System(reply)) =>
            sync_from_opening(sid, desired, opening_next(path, at, reply)),
        (SyncView::Reconciling { guard, reconciliation: at }, SyncReplyView::Acl(reply)) =>
            sync_from_reconcile(guard, reconcile_next(at, reply)),
        (SyncView::Closing(at), SyncReplyView::System(reply)) => sync_from_closing(
            closing_next(path, at, reply),
        ),
        _ => arbitrary(),
    }
}

/// Goes on with the synchronization while it closes.
fn after_closing<E>(step: ClosingStep<Vec<WidePath>, E>) -> (next: SyncStep<E>)
    ensures
        sync_view(next) == sync_from_closing(closing_step_paths(closing_view(step))),
{
    match step {
        Step::Perform(call, at) => Step::Perform(SyncCall::System(call), SyncState::Closing(at)),
        Step::Return(result) => Step::Return(result),
    }
}

/// Goes on with the synchronization while the ACEs are reconciled.
fn after_reconcile<E>(
    guard: DenyReadAclStateMutexGuard,
    step: ReconcileStep<E>,
) -> (next: SyncStep<E>)
    ensures
        sync_view(next) == sync_from_reconcile(guard, reconcile_view(step)),
{
    match step {
        Step::Perform(call, at) => Step::Perform(
            SyncCall::Acl(call),
            SyncState::Reconciling { guard, reconciliation: at },
        ),
        Step::Return(result) => after_closing(ClosingState::start(guard, result)),
    }
}

/// Goes on with the synchronization while the transaction opens.
fn after_opening<E>(sid: String, desired: Vec<WidePath>, step: OpeningStep) -> (next: SyncStep<E>)
    ensures
        sync_view(next) == sync_from_opening::<E>(
            sid@,
            paths_view(desired@),
            opening_view(step),
        ),
{
    match step {
        Step::Perform(call, at) => Step::Perform(
            SyncCall::System(call),
            SyncState::Opening { sid, desired, opening: at },
        ),
        Step::Return(Opened::Loaded(guard, state)) => after_reconcile(
            guard,
            reconcile(state, sid, desired),
        ),
        Step::Return(Opened::NotLoaded(guard, error)) => after_closing(
            ClosingState::start_failed(guard, error),
        ),
        Step::Return(Opened::NotAcquired(error)) => Step::Return(
            Err(UpdateError::State(StateError::Mutex(error))),
        ),
    }
}

/// Begins to synchronize the persistent deny-read ACEs of one sandbox principal
/// with the paths it should be denied.
///
/// ACEs stay in place after the command that needed them, so which ones there are
/// is remembered across runs: the paths applied for each SID are recorded, the
/// desired paths are applied first, and only then are the stale paths of the same
/// SID revoked. All of it happens in one transaction on the recorded state. The
/// result is the list of paths that were applied.
pub fn sync_persistent_deny_read_acls<E>(
    principal_sid: &str,
    desired_paths: Vec<WidePath>,
) -> (step: SyncStep<E>)
    ensures
        sync_view(step) == sync_start::<E>(principal_sid@, paths_view(desired_paths@)),
{
    after_opening(
        principal_sid.to_owned(),
        desired_paths,
        OpeningState::start(DENY_READ_ACL_STATE_MUTEX_NAME),
    )
}

impl<E> SyncState<E> {
    /// Whether the reply answers the call that is waited for.
    pub fn accepts(&self, reply: &SyncReply<E>) -> (accepts: bool)
        ensures
            accepts == sync_fits(self@, reply@),
    {
        match (self, reply) {
            (SyncState::Opening { opening, .. }, SyncReply::System(reply)) => reply.fits(
                opening.expects(),
            ),
            (SyncState::Reconciling { reconciliation, .. }, SyncReply::Acl(reply)) =>
                reconciliation.accepts(reply),
            (SyncState::Closing(at), SyncReply::System(reply)) => reply.fits(at.expects()),
            _ => false,
        }
    }

    /// Goes on with the synchronization after a reply.
    pub fn resume(self, path: &StatePath, reply: SyncReply<E>) -> (step: SyncStep<E>)
        requires
            sync_fits(self@, reply@),
        ensures
            sync_view(step) == sync_next(path@, self@, reply@),
    {
        match (self, reply) {
            (SyncState::Opening { sid, desired, opening }, SyncReply::System(reply)) =>
                after_opening(sid, desired, opening.resume(path, reply)),
            (SyncState::Reconciling { guard, reconciliation }, SyncReply::Acl(reply)) =>
                after_reconcile(guard, reconciliation.resume(reply)),
            (SyncState::Closing(at), SyncReply::System(reply)) => after_closing(
                at.resume(path, reply),
            ),
            _ => vstd::pervasive::unreached(),
        }
    }
}

/// Calls, replies, steps and results of a synchronization are seen with exactly the
/// calls, replies, paths and errors that they hold.
pub proof fn law_sync_steps_are_seen_as_they_are<E>(
    call: Call,
    acl_call: AclCall,
    reply: Reply,
    acl_reply: AclReply<E>,
    asked: SyncCall,
    at: SyncState<E>,
    paths: Vec<WidePath>,
    cause: StateError,
    error: E,
)
    ensures
        SyncCall::System(call)@ == SyncCallView::System(call@),
        SyncCall::Acl(acl_call)@ == SyncCallView::Acl(acl_call@),
        SyncReply::<E>::System(reply)@ == SyncReplyView::<E>::System(reply@),
        SyncReply::<E>::Acl(acl_reply)@ == SyncReplyView::<E>::Acl(acl_reply@),
        sync_view(SyncStep::<E>::Perform(asked, at)) == SyncStepView::<E>::Perform(asked@, at@),
        sync_view(SyncStep::<E>::Return(Ok(paths))) == SyncStepView::<E>::Return(
            Ok(paths_view(paths@)),
        ),
        sync_view(SyncStep::<E>::Return(Err(UpdateError::State(cause)))) == SyncStepView::<
            E,
        >::Return(Err(UpdateErrorView::State(cause@))),
        sync_view(SyncStep::<E>::Return(Err(UpdateError::Update(error)))) == SyncStepView::<
            E,
        >::Return(Err(UpdateErrorView::Update(error))),
{
}

} // verus!
