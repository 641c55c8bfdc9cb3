//! One update of the state as a transaction across processes: the mutex is held
//! from before the state is loaded until after it is stored.

use crate::calls::reply_fits;
use crate::calls::Call;
use crate::calls::CallView;
use crate::calls::Expected;
use crate::calls::Reply;
use crate::calls::ReplyView;
use crate::calls::Step;
use crate::error::MutexError;
use crate::error::StateError;
use crate::error::StateErrorView;
use crate::load::load_expects;
use crate::load::load_next;
use crate::load::load_start;
use crate::load::load_state;
use crate::load::load_view;
use crate::load::LoadState;
use crate::load::LoadStep;
use crate::load::LoadStepView;
use crate::load::LoadView;
use crate::mutex::acquire_expects;
use crate::mutex::acquire_next;
use crate::mutex::acquire_start;
use crate::mutex::release_expects;
use crate::mutex::release_next;
use crate::mutex::release_start;
use crate::mutex::with_call_view;
use crate::mutex::AcquireState;
use crate::mutex::AcquireStep;
use crate::mutex::AcquireStepView;
use crate::mutex::DenyReadAclStateMutexGuard;
use crate::mutex::ReleaseState;
use crate::mutex::ReleaseStep;
use crate::mutex::ReleaseStepView;
use crate::state::DENY_READ_ACL_STATE_MUTEX_NAME;
use crate::state::PersistentDenyReadAclState;
use crate::state::Recorded;
use crate::state::StatePath;
use crate::state::StatePathView;
use crate::store::store_expects;
use crate::store::store_next;
use crate::store::store_start;
use crate::store::store_state;
use crate::store::store_view;
use crate::store::StoreState;
use crate::store::StoreStep;
use crate::store::StoreStepView;
use crate::store::StoreView;
use vstd::prelude::*;

verus! {

/// Why an update failed: an access to the state failed, or the update itself did.
#[derive(Debug, PartialEq, Eq)]
pub enum UpdateError<E> {
    State(StateError),
    Update(E),
}

/// An update error with its texts.
pub enum UpdateErrorView<E> {
    State(StateErrorView),
    Update(E),
}

impl<E> View for UpdateError<E> {
    type V = UpdateErrorView<E>;

    open spec fn view(&self) -> UpdateErrorView<E> {
        match *self {
            UpdateError::State(error) => UpdateErrorView::State(error@),
            UpdateError::Update(error) => UpdateErrorView::Update(error),
        }
    }
}

/// The result of an update with its texts.
pub open spec fn result_view<T, E>(result: Result<T, UpdateError<E>>) -> Result<
    T,
    UpdateErrorView<E>,
> {
    match result {
        Ok(output) => Ok(output),
        Err(error) => Err(error@),
    }
}

// Opening: acquire the mutex, then load the state.

/// Where the opening of a transaction stands.
#[derive(Debug, PartialEq, Eq)]
pub enum OpeningState {
    /// The mutex is being acquired.
    Acquiring(AcquireState),
    /// The mutex is held and the state is being loaded.
    Loading(DenyReadAclStateMutexGuard, LoadState),
}

/// The state of an opening with its values.
pub enum OpeningView {
    Acquiring(AcquireState),
    Loading(DenyReadAclStateMutexGuard, LoadView),
}

impl View for OpeningState {
    type V = OpeningView;

    open spec fn view(&self) -> OpeningView {
        match *self {
            OpeningState::Acquiring(at) => OpeningView::Acquiring(at),
            OpeningState::Loading(guard, at) => OpeningView::Loading(guard, at@),
        }
    }
}

/// What the opening of a transaction came to.
#[derive(Debug, PartialEq, Eq)]
pub enum Opened {
    /// The mutex is held and the state is loaded.
    Loaded(DenyReadAclStateMutexGuard, PersistentDenyReadAclState),
    /// The mutex is held, but the state could not be loaded.
    NotLoaded(DenyReadAclStateMutexGuard, StateError),
    /// The mutex is not held.
    NotAcquired(MutexError),
}

/// The outcome of an opening with its values.
pub enum OpenedView {
    Loaded(DenyReadAclStateMutexGuard, Recorded),
    NotLoaded(DenyReadAclStateMutexGuard, StateErrorView),
    NotAcquired(MutexError),
}

impl View for Opened {
    type V = OpenedView;

    open spec fn view(&self) -> OpenedView {
        match *self {
            Opened::Loaded(guard, state) => OpenedView::Loaded(guard, state@),
            Opened::NotLoaded(guard, error) => OpenedView::NotLoaded(guard, error@),
            Opened::NotAcquired(error) => OpenedView::NotAcquired(error),
        }
    }
}

pub type OpeningStep = Step<Call, OpeningState, Opened>;

pub type OpeningStepView = Step<CallView, OpeningView, OpenedView>;

/// A step of the opening with its values.
pub open spec fn opening_view(step: OpeningStep) -> OpeningStepView {
    match step {
        Step::Perform(call, at) => Step::Perform(call@, at@),
        Step::Return(opened) => Step::Return(opened@),
    }
}

/// The opening while the state is loaded.
pub open spec fn opening_from_load(
    guard: DenyReadAclStateMutexGuard,
    step: LoadStepView,
) -> OpeningStepView {
    match step {
        Step::Perform(call, at) => Step::Perform(call, OpeningView::Loading(guard, at)),
        Step::Return(Ok(state)) => Step::Return(OpenedView::Loaded(guard, state)),
        Step::Return(Err(error)) => Step::Return(OpenedView::NotLoaded(guard, error)),
    }
}

/// The opening while the mutex is acquired: once it is held, the state is loaded.
pub open spec fn opening_from_acquire(step: AcquireStepView) -> OpeningStepView {
    match step {
        Step::Perform(call, at) => Step::Perform(call, OpeningView::Acquiring(at)),
        Step::Return(Ok(guard)) => opening_from_load(guard, load_start()),
        Step::Return(Err(error)) => Step::Return(OpenedView::NotAcquired(error)),
    }
}

/// The first step of opening a transaction.
pub open spec fn opening_start(mutex_name: Seq<char>) -> OpeningStepView {
    opening_from_acquire(acquire_start(mutex_name))
}

/// The reply that the opening waits for.
pub open spec fn opening_expects(at: OpeningView) -> Expected {
    match at {
        OpeningView::Acquiring(at) => acquire_expects(at),
        OpeningView::Loading(_, at) => load_expects(at),
    }
}

/// How the opening goes on after a reply.
pub open spec fn opening_next(
    path: StatePathView,
    at: OpeningView,
    reply: ReplyView,
) -> OpeningStepView {
    match at {
        OpeningView::Acquiring(at) => opening_from_acquire(acquire_next(at, reply)),
        OpeningView::Loading(guard, at) => opening_from_load(guard, load_next(path, at, reply)),
    }
}

/// Goes on with the opening while the state is loaded.
fn after_load(guard: DenyReadAclStateMutexGuard, step: LoadStep) -> (next: OpeningStep)
    ensures
        opening_view(next) == opening_from_load(guard, load_view(step)),
{
    match step {
        Step::Perform(call, at) => Step::Perform(call, OpeningState::Loading(guard, at)),
        Step::Return(Ok(state)) => Step::Return(Opened::Loaded(guard, state)),
        Step::Return(Err(error)) => Step::Return(Opened::NotLoaded(guard, error)),
    }
}

/// Goes on with the opening while the mutex is acquired.
fn after_acquire(step: AcquireStep) -> (next: OpeningStep)
    ensures
        opening_view(next) == opening_from_acquire(with_call_view(step)),
{
    match step {
        Step::Perform(call, at) => Step::Perform(call, OpeningState::Acquiring(at)),
        Step::Return(Ok(guard)) => after_load(guard, load_state()),
        Step::Return(Err(error)) => Step::Return(Opened::NotAcquired(error)),
    }
}

impl OpeningState {
    /// Begins a transaction under the mutex of that name.
    pub fn start(mutex_name: &str) -> (step: OpeningStep)
        ensures
            opening_view(step) == opening_start(mutex_name@),
    {
        after_acquire(DenyReadAclStateMutexGuard::acquire(mutex_name))
    }

    /// The reply that is waited for.
    pub fn expects(&self) -> (expected: Expected)
        ensures
            expected == opening_expects(self@),
    {
        match self {
            OpeningState::Acquiring(at) => at.expects(),
            OpeningState::Loading(_, at) => at.expects(),
        }
    }

    /// Goes on with the opening after a reply.
    pub fn resume(self, path: &StatePath, reply: Reply) -> (step: OpeningStep)
        requires
            reply_fits(opening_expects(self@), reply@),
        ensures
            opening_view(step) == opening_next(path@, self@, reply@),
    {
        match self {
            OpeningState::Acquiring(at) => after_acquire(at.resume(reply)),
            OpeningState::Loading(guard, at) => after_load(guard, at.resume(path, reply)),
        }
    }
}

// Closing: store the state, if the update got through, and release the mutex.

/// Where the closing of a transaction stands.
#[derive(Debug, PartialEq, Eq)]
pub enum ClosingState<T, E> {
    /// The updated state is being stored.
    Storing(DenyReadAclStateMutexGuard, StoreState, T),
    /// The mutex is being released; this is the result of the update.
    Releasing(ReleaseState, Result<T, UpdateError<E>>),
}

/// The state of a closing with its values.
pub enum ClosingView<T, E> {
    Storing(DenyReadAclStateMutexGuard, StoreView, T),
    Releasing(ReleaseState, Result<T, UpdateErrorView<E>>),
}

impl<T, E> View for ClosingState<T, E> {
    type V = ClosingView<T, E>;

    open spec fn view(&self) -> ClosingView<T, E> {
        match *self {
            ClosingState::Storing(guard, at, output) => ClosingView::Storing(guard, at@, output),
            ClosingState::Releasing(at, result) => ClosingView::Releasing(at, result_view(result)),
        }
    }
}

pub type ClosingStep<T, E> = Step<Call, ClosingState<T, E>, Result<T, UpdateError<E>>>;

pub type ClosingStepView<T, E> = Step<
    CallView,
    ClosingView<T, E>,
    Result<T, UpdateErrorView<E>>,
>;

/// A step of the closing with its values.
pub open spec fn closing_view<T, E>(step: ClosingStep<T, E>) -> ClosingStepView<T, E> {
    match step {
        Step::Perform(call, at) => Step::Perform(call@, at@),
        Step::Return(result) => Step::Return(result_view(result)),
    }
}

/// The closing while the mutex is released: it ends with the result.
pub open spec fn closing_from_release<T, E>(
    result: Result<T, UpdateErrorView<E>>,
    step: ReleaseStepView,
) -> ClosingStepView<T, E> {
    match step {
        Step::Perform(call, at) => Step::Perform(call, ClosingView::Releasing(at, result)),
        Step::Return(_) => Step::Return(result),
    }
}

/// The closing while the state is stored: then the mutex is released, whatever the
/// store came to.
pub open spec fn closing_from_store<T, E>(
    guard: DenyReadAclStateMutexGuard,
    output: T,
    step: StoreStepView,
) -> ClosingStepView<T, E> {
    match step {
        Step::Perform(call, at) => Step::Perform(call, ClosingView::Storing(guard, at, output)),
        Step::Return(Ok(_)) => closing_from_release(Ok(output), release_start(guard.handle)),
        Step::Return(Err(error)) => closing_from_release(
            Err(UpdateErrorView::State(error)),
            release_start(guard.handle),
        ),
    }
}

/// The first step after the update: an updated state is stored, a failed update
/// only lets go of the mutex.
pub open spec fn closing_start<T, E>(
    guard: DenyReadAclStateMutexGuard,
    updated: Result<(Recorded, T), UpdateErrorView<E>>,
) -> ClosingStepView<T, E> {
    match updated {
        Ok((state, output)) => closing_from_store(guard, output, store_start(state)),
        Err(error) => closing_from_release(Err(error), release_start(guard.handle)),
    }
}

/// The reply that the closing waits for.
pub open spec fn closing_expects<T, E>(at: ClosingView<T, E>) -> Expected {
    match at {
        ClosingView::Storing(_, at, _) => store_expects(at),
        ClosingView::Releasing(at, _) => release_expects(at),
    }
}

/// How the closing goes on after a reply.
pub open spec fn closing_next<T, E>(
    path: StatePathView,
    at: ClosingView<T, E>,
    reply: ReplyView,
) -> ClosingStepView<T, E> {
    match at {
        ClosingView::Storing(guard, at, output) => closing_from_store(
            guard,
            output,
            store_next(path, at, reply),
        ),
        ClosingView::Releasing(at, result) => closing_from_release(
            result,
            release_next(at, reply),
        ),
    }
}

/// Goes on with the closing while the mutex is released.
fn after_release<T, E>(
    result: Result<T, UpdateError<E>>,
    step: ReleaseStep,
) -> (next: ClosingStep<T, E>)
    ensures
        closing_view(next) == closing_from_release(result_view(result), with_call_view(step)),
{
    match step {
        Step::Perform(call, at) => Step::Perform(call, ClosingState::Releasing(at, result)),
        Step::Return(_) => Step::Return(result),
    }
}

/// Goes on with the closing while the state is stored.
fn after_store<T, E>(
    guard: DenyReadAclStateMutexGuard,
    output: T,
    step: StoreStep,
) -> (next: ClosingStep<T, E>)
    ensures
        closing_view(next) == closing_from_store::<T, E>(guard, output, store_view(step)),
{
    match step {
        Step::Perform(call, at) => Step::Perform(call, ClosingState::Storing(guard, at, output)),
        Step::Return(Ok(_)) => after_release(Ok(output), guard.release()),
        Step::Return(Err(error)) => after_release(
            Err(UpdateError::State(error)),
            guard.release(),
        ),
    }
}

/// What an update came to, with its values.
pub open spec fn updated_view<T, E>(
    updated: Result<(PersistentDenyReadAclState, T), E>,
) -> Result<(Recorded, T), E> {
    match updated {
        Ok((state, output)) => Ok((state@, output)),
        Err(error) => Err(error),
    }
}

/// What an update came to, as a transaction ends with it.
pub open spec fn update_outcome<T, E>(updated: Result<(Recorded, T), E>) -> Result<
    (Recorded, T),
    UpdateErrorView<E>,
> {
    match updated {
        Ok((state, output)) => Ok((state, output)),
        Err(error) => Err(UpdateErrorView::Update(error)),
    }
}

impl<T, E> ClosingState<T, E> {
    /// Begins to close a transaction after its update.
    pub fn start(
        guard: DenyReadAclStateMutexGuard,
        updated: Result<(PersistentDenyReadAclState, T), E>,
    ) -> (step: ClosingStep<T, E>)
        ensures
            closing_view(step) == closing_start(guard, update_outcome(updated_view(updated))),
    {
        match updated {
            Ok((state, output)) => after_store(guard, output, store_state(state)),
            Err(error) => after_release(Err(UpdateError::Update(error)), guard.release()),
        }
    }

    /// Begins to close a transaction whose state could not be loaded.
    pub fn start_failed(guard: DenyReadAclStateMutexGuard, error: StateError) -> (step: ClosingStep<
        T,
        E,
    >)
        ensures
            closing_view(step) == closing_start::<T, E>(
                guard,
                Err(UpdateErrorView::State(error@)),
            ),
    {
        after_release(Err(UpdateError::State(error)), guard.release())
    }

    /// The reply that is waited for.
    pub fn expects(&self) -> (expected: Expected)
        ensures
            expected == closing_expects(self@),
    {
        match self {
            ClosingState::Storing(_, at, _) => at.expects(),
            ClosingState::Releasing(at, _) => at.expects(),
        }
    }

    /// Goes on with the closing after a reply.
    pub fn resume(self, path: &StatePath, reply: Reply) -> (step: ClosingStep<T, E>)
        requires
            reply_fits(closing_expects(self@), reply@),
        ensures
            closing_view(step) == closing_next(path@, self@, reply@),
    {
        match self {
            ClosingState::Storing(guard, at, output) => after_store(
                guard,
                output,
                at.resume(path, reply),
            ),
            ClosingState::Releasing(at, result) => after_release(result, at.resume(reply)),
        }
    }
}

// The whole transaction.

/// A call of a transaction: an outside call, or the update of the loaded state.
#[derive(Debug, PartialEq, Eq)]
pub enum UpdateCall {
    System(Call),
    Update(PersistentDenyReadAclState),
}

/// A call of a transaction with its values.
pub enum UpdateCallView {
    System(CallView),
    Update(Recorded),
}

impl View for UpdateCall {
    type V = UpdateCallView;

    open spec fn view(&self) -> UpdateCallView {
        match *self {
            UpdateCall::System(call) => UpdateCallView::System(call@),
            UpdateCall::Update(state) => UpdateCallView::Update(state@),
        }
    }
}

/// The reply to a call of a transaction. An update replies with the updated state
/// and its output, or with its error.
#[derive(Debug, PartialEq, Eq)]
pub enum UpdateReply<T, E> {
    System(Reply),
    Updated(Result<(PersistentDenyReadAclState, T), E>),
}

/// A reply to a call of a transaction with its values.
pub enum UpdateReplyView<T, E> {
    System(ReplyView),
    Updated(Result<(Recorded, T), E>),
}

impl<T, E> View for UpdateReply<T, E> {
    type V = UpdateReplyView<T, E>;

    open spec fn view(&self) -> UpdateReplyView<T, E> {
        match *self {
            UpdateReply::System(reply) => UpdateReplyView::System(reply@),
            UpdateReply::Updated(updated) => UpdateReplyView::Updated(updated_view(updated)),
        }
    }
}

/// Where a transaction stands.
#[derive(Debug, PartialEq, Eq)]
pub enum UpdateState<T, E> {
    /// The mutex is being acquired or the state is being loaded.
    Opening(OpeningState),
    /// The state is being updated.
    Updating(DenyReadAclStateMutexGuard),
    /// The state is being stored or the mutex is being released.
    Closing(ClosingState<T, E>),
}

/// The state of a transaction with its values.
pub enum UpdateStateView<T, E> {
    Opening(OpeningView),
    Updating(DenyReadAclStateMutexGuard),
    Closing(ClosingView<T, E>),
}

impl<T, E> View for UpdateState<T, E> {
    type V = UpdateStateView<T, E>;

    open spec fn view(&self) -> UpdateStateView<T, E> {
        match *self {
            UpdateState::Opening(at) => UpdateStateView::Opening(at@),
            UpdateState::Updating(guard) => UpdateStateView::Updating(guard),
            UpdateState::Closing(at) => UpdateStateView::Closing(at@),
        }
    }
}

pub type UpdateStep<T, E> = Step<UpdateCall, UpdateState<T, E>, Result<T, UpdateError<E>>>;

pub type UpdateStepView<T, E> = Step<
    UpdateCallView,
    UpdateStateView<T, E>,
    Result<T, UpdateErrorView<E>>,
>;

/// A step of a transaction with its values.
pub open spec fn update_view<T, E>(step: UpdateStep<T, E>) -> UpdateStepView<T, E> {
    match step {
        Step::Perform(call, at) => Step::Perform(call@, at@),
        Step::Return(result) => Step::Return(result_view(result)),
    }
}

/// The transaction while it closes.
pub open spec fn update_from_closing<T, E>(step: ClosingStepView<T, E>) -> UpdateStepView<T, E> {
    match step {
        Step::Perform(call, at) => Step::Perform(
            UpdateCallView::System(call),
            UpdateStateView::Closing(at),
        ),
        Step::Return(result) => Step::Return(result),
    }
}

/// The transaction while it opens: a loaded state is updated, a load that failed
/// lets go of the mutex, and without the mutex nothing more happens.
pub open spec fn update_from_opening<T, E>(step: OpeningStepView) -> UpdateStepView<T, E> {
    match step {
        Step::Perform(call, at) => Step::Perform(
            UpdateCallView::System(call),
            UpdateStateView::Opening(at),
        ),
        Step::Return(OpenedView::Loaded(guard, state)) => Step::Perform(
            UpdateCallView::Update(state),
            UpdateStateView::Updating(guard),
        ),
        Step::Return(OpenedView::NotLoaded(guard, error)) => update_from_closing(
            closing_start(guard, Err(UpdateErrorView::State(error))),
        ),
        Step::Return(OpenedView::NotAcquired(error)) => Step::Return(
            Err(UpdateErrorView::State(StateErrorView::Mutex(error))),
        ),
    }
}

/// The first step of a transaction.
pub open spec fn update_start<T, E>(mutex_name: Seq<char>) -> UpdateStepView<T, E> {
    update_from_opening(opening_start(mutex_name))
}

/// The reply answers the call that the transaction waits for.
pub open spec fn update_fits<T, E>(
    at: UpdateStateView<T, E>,
    reply: UpdateReplyView<T, E>,
) -> bool {
    match (at, reply) {
        (UpdateStateView::Opening(at), UpdateReplyView::System(reply)) => reply_fits(
            opening_expects(at),
            reply,
        ),
        (UpdateStateView::Updating(_), UpdateReplyView::Updated(_)) => true,
        (UpdateStateView::Closing(at), UpdateReplyView::System(reply)) => reply_fits(
            closing_expects(at),
            reply,
        ),
        _ => false,
    }
}

/// How a transaction goes on after a reply.
pub open spec fn update_next<T, E>(
    path: StatePathView,
    at: UpdateStateView<T, E>,
    reply: UpdateReplyView<T, E>,
) -> UpdateStepView<T, E> {
    match (at, reply) {
        (UpdateStateView::Opening(at), UpdateReplyView::System(reply)) => update_from_opening(
            opening_next(path, at, reply),
        ),
        (UpdateStateView::Updating(guard), UpdateReplyView::Updated(updated)) =>
            update_from_closing(closing_start(guard, update_outcome(updated))),
        (UpdateStateView::Closing(at), UpdateReplyView::System(reply)) => update_from_closing(
            closing_next(path, at, reply),
        ),
        _ => arbitrary(),
    }
}

/// Goes on with the transaction while it closes.
fn after_closing<T, E>(step: ClosingStep<T, E>) -> (next: UpdateStep<T, E>)
    ensures
        update_view(next) == update_from_closing(closing_view(step)),
{
    match step {
        Step::Perform(call, at) => Step::Perform(
            UpdateCall::System(call),
            UpdateState::Closing(at),
        ),
        Step::Return(result) => Step::Return(result),
    }
}

/// Goes on with the transaction while it opens.
fn after_opening<T, E>(step: OpeningStep) -> (next: UpdateStep<T, E>)
    ensures
        update_view(next) == update_from_opening::<T, E>(opening_view(step)),
{
    match step {
        Step::Perform(call, at) => Step::Perform(
            UpdateCall::System(call),
            UpdateState::Opening(at),
        ),
        Step::Return(Opened::Loaded(guard, state)) => Step::Perform(
            UpdateCall::Update(state),
            UpdateState::Updating(guard),
        ),
        Step::Return(Opened::NotLoaded(guard, error)) => after_closing(
            ClosingState::start_failed(guard, error),
        ),
        Step::Return(Opened::NotAcquired(error)) => Step::Return(
            Err(UpdateError::State(StateError::Mutex(error))),
        ),
    }
}

/// Begins an update of the state under the mutex that guards it.
pub fn update_state<T, E>() -> (step: UpdateStep<T, E>)
    ensures
        update_view(step) == update_start::<T, E>(DENY_READ_ACL_STATE_MUTEX_NAME@),
{
    update_state_with_mutex_name(DENY_READ_ACL_STATE_MUTEX_NAME)
}

/// Begins an update of the state under the mutex of that name.
pub fn update_state_with_mutex_name<T, E>(mutex_name: &str) -> (step: UpdateStep<T, E>)
    ensures
        update_view(step) == update_start::<T, E>(mutex_name@),
{
    after_opening(OpeningState::start(mutex_name))
}

impl<T, E> UpdateState<T, E> {
    /// Whether the reply answers the call that is waited for.
    pub fn accepts(&self, reply: &UpdateReply<T, E>) -> (accepts: bool)
        ensures
            accepts == update_fits(self@, reply@),
    {
        match (self, reply) {
            (UpdateState::Opening(at), UpdateReply::System(reply)) => reply.fits(at.expects()),
            (UpdateState::Updating(_), UpdateReply::Updated(_)) => true,
            (UpdateState::Closing(at), UpdateReply::System(reply)) => reply.fits(at.expects()),
            _ => false,
        }
    }

    /// Goes on with the transaction after a reply.
    pub fn resume(self, path: &StatePath, reply: UpdateReply<T, E>) -> (step: UpdateStep<T, E>)
        requires
            update_fits(self@, reply@),
        ensures
            update_view(step) == update_next(path@, self@, reply@),
    {
        match (self, reply) {
            (UpdateState::Opening(at), UpdateReply::System(reply)) => after_opening(
                at.resume(path, reply),
            ),
            (UpdateState::Updating(guard), UpdateReply::Updated(updated)) => after_closing(
                ClosingState::start(guard, updated),
            ),
            (UpdateState::Closing(at), UpdateReply::System(reply)) => after_closing(
                at.resume(path, reply),
            ),
            _ => vstd::pervasive::unreached(),
        }
    }
}

/// Calls, replies, steps and results of a transaction are seen with exactly the calls,
/// replies, states, outputs and errors that they hold.
pub proof fn law_update_steps_are_seen_as_they_are<T, E>(
    call: Call,
    reply: Reply,
    state: PersistentDenyReadAclState,
    output: T,
    error: E,
    cause: StateError,
    asked: UpdateCall,
    at: UpdateState<T, E>,
)
    ensures
        UpdateCall::System(call)@ == UpdateCallView::System(call@),
        UpdateCall::Update(state)@ == UpdateCallView::Update(state.principals@),
        UpdateReply::<T, E>::System(reply)@ == UpdateReplyView::<T, E>::System(reply@),
        UpdateReply::<T, E>::Updated(Ok((state, output)))@ == UpdateReplyView::<T, E>::Updated(
            Ok((state.principals@, output)),
        ),
        UpdateReply::<T, E>::Updated(Err(error))@ == UpdateReplyView::<T, E>::Updated(Err(error)),
        UpdateError::<E>::State(cause)@ == UpdateErrorView::<E>::State(cause@),
        UpdateError::<E>::Update(error)@ == UpdateErrorView::<E>::Update(error),
        update_view(UpdateStep::<T, E>::Perform(asked, at)) == UpdateStepView::<T, E>::Perform(
            asked@,
            at@,
        ),
        update_view(UpdateStep::<T, E>::Return(Ok(output))) == UpdateStepView::<T, E>::Return(
            Ok(output),
        ),
        update_view(UpdateStep::<T, E>::Return(Err(UpdateError::State(cause)))) == UpdateStepView::<
            T,
            E,
        >::Return(Err(UpdateErrorView::State(cause@))),
        update_view(UpdateStep::<T, E>::Return(Err(UpdateError::Update(error))))
            == UpdateStepView::<T, E>::Return(Err(UpdateErrorView::Update(error))),
{
}

/// The steps of opening and closing are seen with their calls and outcomes as they are.
pub proof fn law_opening_and_closing_are_seen_as_they_are<T, E>(
    call: Call,
    opening: OpeningState,
    closing: ClosingState<T, E>,
    guard: DenyReadAclStateMutexGuard,
    state: PersistentDenyReadAclState,
    cause: StateError,
    mutex: MutexError,
    output: T,
    error: E,
)
    ensures
        opening_view(OpeningStep::Perform(call, opening)) == OpeningStepView::Perform(
            call@,
            opening@,
        ),
        opening_view(OpeningStep::Return(Opened::Loaded(guard, state))) == OpeningStepView::Return(
            OpenedView::Loaded(guard, state.principals@),
        ),
        opening_view(OpeningStep::Return(Opened::NotLoaded(guard, cause)))
            == OpeningStepView::Return(OpenedView::NotLoaded(guard, cause@)),
        opening_view(OpeningStep::Return(Opened::NotAcquired(mutex))) == OpeningStepView::Return(
            OpenedView::NotAcquired(mutex),
        ),
        closing_view(ClosingStep::<T, E>::Perform(call, closing)) == ClosingStepView::<
            T,
            E,
        >::Perform(call@, closing@),
        closing_view(ClosingStep::<T, E>::Return(Ok(output))) == ClosingStepView::<T, E>::Return(
            Ok(output),
        ),
        closing_view(ClosingStep::<T, E>::Return(Err(UpdateError::State(cause))))
            == ClosingStepView::<T, E>::Return(Err(UpdateErrorView::State(cause@))),
        closing_view(ClosingStep::<T, E>::Return(Err(UpdateError::Update(error))))
            == ClosingStepView::<T, E>::Return(Err(UpdateErrorView::Update(error))),
        updated_view(Ok::<(PersistentDenyReadAclState, T), E>((state, output))) == Ok::<
            (Recorded, T),
            E,
        >((state.principals@, output)),
        updated_view(Err::<(PersistentDenyReadAclState, T), E>(error)) == Err::<(Recorded, T), E>(
            error,
        ),
        update_outcome(Ok::<(Recorded, T), E>((state.principals@, output))) == Ok::<
            (Recorded, T),
            UpdateErrorView<E>,
        >((state.principals@, output)),
        update_outcome(Err::<(Recorded, T), E>(error)) == Err::<(Recorded, T), UpdateErrorView<E>>(
            UpdateErrorView::Update(error),
        ),
{
}

} // verus!
