//! What holds of every finished synchronization.

use crate::calls::CallView;
use crate::calls::ReplyView;
use crate::calls::Step;
use crate::error::MutexError;
use crate::error::StateErrorView;
use crate::load::load_logic;
use crate::load::load_start;
use crate::mutex::acquire_logic;
use crate::mutex::acquire_start;
use crate::mutex::DenyReadAclStateMutexGuard;
use crate::reconcile::aces_after;
use crate::reconcile::key_set;
use crate::reconcile::keys_are_faithful;
use crate::reconcile::law_no_stale_ace_is_left;
use crate::reconcile::law_reconcile_outcomes;
use crate::reconcile::law_second_reconciliation_changes_nothing;
use crate::reconcile::reconcile_logic;
use crate::reconcile::reconcile_start;
use crate::reconcile::recorded_paths;
use crate::reconcile::with_recorded;
use crate::reconcile::AclCallView;
use crate::reconcile::AclReplyView;
use crate::reconcile::ReconcileStepView;
use crate::reconcile::ReconcileView;
use crate::run::inner_history;
use crate::run::inner_part;
use crate::run::leads_to;
use crate::run::leads_to_one;
use crate::run::outer_history;
use crate::run::outer_part;
use crate::run::outer_step;
use crate::run::runs_inside;
use crate::run::same_next_call;
use crate::run::Inside;
use crate::run::Logic;
use crate::state::DENY_READ_ACL_STATE_MUTEX_NAME;
use crate::state::Recorded;
use crate::state::StatePathView;
use crate::store::installs;
use crate::store::store_logic;
use crate::store::store_start;
use crate::sync::sync_fits;
use crate::sync::sync_from_closing;
use crate::sync::sync_from_opening;
use crate::sync::sync_from_reconcile;
use crate::sync::sync_next;
use crate::sync::sync_start;
use crate::sync::SyncCallView;
use crate::sync::SyncReplyView;
use crate::sync::SyncView;
use crate::transaction::closing_next;
use crate::transaction::closing_start;
use crate::transaction::opening_next;
use crate::transaction::opening_start;
use crate::transaction::update_from_closing;
use crate::transaction::update_from_opening;
use crate::transaction::update_outcome;
use crate::transaction::update_start;
use crate::transaction::ClosingStepView;
use crate::transaction::ClosingView;
use crate::transaction::OpenedView;
use crate::transaction::OpeningStepView;
use crate::transaction::OpeningView;
use crate::transaction::UpdateCallView;
use crate::transaction::UpdateErrorView;
use crate::transaction::UpdateReplyView;
use crate::transaction::UpdateStateView;
use crate::transaction_laws::closing_logic;
use crate::transaction_laws::held_between;
use crate::transaction_laws::law_every_closing_ends;
use crate::transaction_laws::law_every_opening_ends;
use crate::transaction_laws::law_failed_update_stores_nothing;
use crate::transaction_laws::law_state_file_is_replaced_only_on_success;
use crate::transaction_laws::law_update_is_one_critical_section;
use crate::transaction_laws::law_update_parts;
use crate::transaction_laws::on_mutex;
use crate::transaction_laws::opening_logic;
use crate::transaction_laws::update_installs;
use crate::transaction_laws::update_logic;
use crate::transaction_laws::update_on_mutex;
use crate::transaction_laws::wrote_update;
use vstd::prelude::*;

verus! {

/// The history of a synchronization.
pub type SyncHistory<E> = Seq<(SyncCallView, SyncReplyView<E>)>;

/// The history of a transaction that ends with a list of applied paths.
pub type UpdateHistory<E> = Seq<(UpdateCallView, UpdateReplyView<Seq<Seq<u16>>, E>)>;

/// A synchronization as a piece of logic.
pub open spec fn sync_logic<E>(path: StatePathView) -> Logic<
    SyncCallView,
    SyncReplyView<E>,
    SyncView<E>,
    Result<Seq<Seq<u16>>, UpdateErrorView<E>>,
> {
    Logic {
        next: |at: SyncView<E>, reply: SyncReplyView<E>| sync_next(path, at, reply),
        fits: |at: SyncView<E>, reply: SyncReplyView<E>| sync_fits(at, reply),
    }
}

/// All calls are outside calls on the state.
pub open spec fn all_on_state<E>(history: SyncHistory<E>) -> bool {
    forall|i: int|
        0 <= i < history.len() ==> (#[trigger] history[i]).0 is System && history[i].1 is System
}

/// All calls are on ACEs.
pub open spec fn all_on_aces<E>(history: SyncHistory<E>) -> bool {
    forall|i: int|
        0 <= i < history.len() ==> (#[trigger] history[i]).0 is Acl && history[i].1 is Acl
}

/// Calls on the state as calls of a transaction.
pub open spec fn as_update_calls<E>(history: SyncHistory<E>) -> UpdateHistory<E> {
    history.map_values(
        |exchange: (SyncCallView, SyncReplyView<E>)|
            (
                UpdateCallView::System(exchange.0->System_0),
                UpdateReplyView::<Seq<Seq<u16>>, E>::System(exchange.1->System_0),
            ),
    )
}

/// Calls on ACEs as calls of a reconciliation.
pub open spec fn as_acl_calls<E>(history: SyncHistory<E>) -> Seq<
    (AclCallView, AclReplyView<E>),
> {
    history.map_values(
        |exchange: (SyncCallView, SyncReplyView<E>)| (exchange.0->Acl_0, exchange.1->Acl_0),
    )
}

/// Where the reconciliation stands in the history of a synchronization.
pub enum Reconciliation<E> {
    /// The state was not loaded, and nothing was reconciled.
    Missing,
    /// The loaded state was reconciled with `count` calls, beginning with call `first`.
    At {
        first: int,
        count: int,
        state: Recorded,
        result: Result<(Recorded, Seq<Seq<u16>>), E>,
    },
}

/// The synchronization as a transaction whose update is the reconciliation.
pub open spec fn as_update<E>(
    history: SyncHistory<E>,
    reconciliation: Reconciliation<E>,
) -> UpdateHistory<E> {
    match reconciliation {
        Reconciliation::Missing => as_update_calls(history),
        Reconciliation::At { first, count, state, result } => as_update_calls(history.take(first))
            + seq![
            (
                UpdateCallView::Update(state),
                UpdateReplyView::<Seq<Seq<u16>>, E>::Updated(result),
            ),
        ] + as_update_calls(history.skip(first + count)),
    }
}

/// The reconciliation stands where it is said to: its calls are all the calls on
/// ACEs, and they are those of a reconciliation of the loaded state.
pub open spec fn reconciled_at<E>(
    sid: Seq<char>,
    desired: Seq<Seq<u16>>,
    history: SyncHistory<E>,
    reconciliation: Reconciliation<E>,
) -> bool {
    match reconciliation {
        Reconciliation::Missing => all_on_state(history),
        Reconciliation::At { first, count, state, result } => {
            &&& 0 <= first
            &&& 0 <= count
            &&& first + count <= history.len()
            &&& all_on_state(history.take(first))
            &&& all_on_aces(history.subrange(first, first + count))
            &&& all_on_state(history.skip(first + count))
            &&& leads_to(
                reconcile_logic::<E>(),
                reconcile_start(state, sid, desired),
                as_acl_calls(history.subrange(first, first + count)),
                Step::Return(result),
            )
        },
    }
}

/// The synchronization is a transaction under the mutex of the state, whose update is
/// this reconciliation; so the state that was reconciled is the one that was loaded.
pub open spec fn is_transaction<E>(
    path: StatePathView,
    sid: Seq<char>,
    desired: Seq<Seq<u16>>,
    history: SyncHistory<E>,
    result: Result<Seq<Seq<u16>>, UpdateErrorView<E>>,
    reconciliation: Reconciliation<E>,
) -> bool {
    &&& reconciled_at(sid, desired, history, reconciliation)
    &&& leads_to(
        update_logic::<Seq<Seq<u16>>, E>(path),
        update_start(DENY_READ_ACL_STATE_MUTEX_NAME@),
        as_update(history, reconciliation),
        Step::Return(result),
    )
}

impl<E> Reconciliation<E> {
    /// The state that was loaded and reconciled.
    pub open spec fn loaded(self) -> Option<Recorded> {
        match self {
            Reconciliation::Missing => None,
            Reconciliation::At { state, .. } => Some(state),
        }
    }

    /// The state that the reconciliation ended with.
    pub open spec fn reconciled(self) -> Option<Recorded> {
        match self {
            Reconciliation::At { result: Ok((state, _)), .. } => Some(state),
            _ => None,
        }
    }

    /// The calls on ACEs.
    pub open spec fn acl_calls(self, history: SyncHistory<E>) -> Seq<
        (AclCallView, AclReplyView<E>),
    > {
        match self {
            Reconciliation::Missing => Seq::empty(),
            Reconciliation::At { first, count, .. } => as_acl_calls(
                history.subrange(first, first + count),
            ),
        }
    }
}

/// While a synchronization closes, it does what a transaction does.
proof fn closing_as_update<E>(
    path: StatePathView,
    step: ClosingStepView<Seq<Seq<u16>>, E>,
    history: SyncHistory<E>,
    result: Result<Seq<Seq<u16>>, UpdateErrorView<E>>,
)
    requires
        leads_to(sync_logic::<E>(path), sync_from_closing(step), history, Step::Return(result)),
    ensures
        all_on_state(history),
        leads_to(
            update_logic::<Seq<Seq<u16>>, E>(path),
            update_from_closing(step),
            as_update_calls(history),
            Step::Return(result),
        ),
    decreases history.len(),
{
    let lifted = as_update_calls(history);
    match step {
        Step::Return(_) => {
            assert(history.len() == 0);
        },
        Step::Perform(call, at) => {
            let reply = history[0].1;
            assert((sync_logic::<E>(path).fits)(SyncView::Closing(at), reply));
            let next = closing_next(path, at, reply->System_0);
            let rest = history.drop_first();
            assert((sync_logic::<E>(path).next)(SyncView::Closing(at), reply)
                == sync_from_closing(next));
            closing_as_update(path, next, rest, result);
            let closing = UpdateStateView::<Seq<Seq<u16>>, E>::Closing(at);
            let logic = update_logic::<Seq<Seq<u16>>, E>(path);
            assert((logic.fits)(closing, lifted[0].1));
            assert((logic.next)(closing, lifted[0].1) == update_from_closing(next));
            assert(lifted.drop_first() =~= as_update_calls(rest));
            assert forall|i: int| 0 <= i < history.len() implies (#[trigger]
            history[i]).0 is System && history[i].1 is System by {
                if i > 0 {
                    assert(history[i] == rest[i - 1]);
                }
            }
        },
    }
}

/// While a synchronization reconciles, its calls are those of the reconciliation;
/// then it closes.
proof fn reconciliation_part<E>(
    path: StatePathView,
    guard: DenyReadAclStateMutexGuard,
    step: ReconcileStepView<E>,
    history: SyncHistory<E>,
    result: Result<Seq<Seq<u16>>, UpdateErrorView<E>>,
) -> (part: (int, Result<(Recorded, Seq<Seq<u16>>), E>))
    requires
        leads_to(
            sync_logic::<E>(path),
            sync_from_reconcile(guard, step),
            history,
            Step::Return(result),
        ),
    ensures
        0 <= part.0 <= history.len(),
        all_on_aces(history.take(part.0)),
        leads_to(
            reconcile_logic::<E>(),
            step,
            as_acl_calls(history.take(part.0)),
            Step::Return(part.1),
        ),
        leads_to(
            sync_logic::<E>(path),
            sync_from_closing(closing_start(guard, update_outcome(part.1))),
            history.skip(part.0),
            Step::Return(result),
        ),
{
    let inside = Inside {
        call: |call: AclCallView| SyncCallView::Acl(call),
        inner_call: |call: SyncCallView| call->Acl_0,
        reply: |reply: AclReplyView<E>| SyncReplyView::<E>::Acl(reply),
        inner_reply: |reply: SyncReplyView<E>| reply->Acl_0,
        state: |at: ReconcileView| SyncView::<E>::Reconciling { guard, reconciliation: at },
        after: |outcome: Result<(Recorded, Seq<Seq<u16>>), E>|
            sync_from_reconcile(guard, Step::Return(outcome)),
    };
    assert forall|step: ReconcileStepView<E>| #[trigger]
        outer_step(inside, step) == sync_from_reconcile(guard, step) by {}
    assert(runs_inside(reconcile_logic::<E>(), sync_logic::<E>(path), inside));
    let (count, outcome) = inner_part(
        reconcile_logic::<E>(),
        sync_logic::<E>(path),
        inside,
        step,
        history,
        result,
    );
    let part = history.take(count);
    assert(inner_history(inside, part) =~= as_acl_calls(part));
    assert forall|i: int| 0 <= i < part.len() implies (#[trigger] part[i]).0 is Acl
        && part[i].1 is Acl by {
        assert(history[i] == part[i]);
    }
    (count, outcome)
}

/// While a synchronization opens, it does what a transaction does, and then the
/// reconciliation takes the place of the update.
proof fn opening_as_update<E>(
    path: StatePathView,
    sid: Seq<char>,
    desired: Seq<Seq<u16>>,
    step: OpeningStepView,
    history: SyncHistory<E>,
    result: Result<Seq<Seq<u16>>, UpdateErrorView<E>>,
) -> (reconciliation: Reconciliation<E>)
    requires
        leads_to(
            sync_logic::<E>(path),
            sync_from_opening(sid, desired, step),
            history,
            Step::Return(result),
        ),
    ensures
        reconciled_at(sid, desired, history, reconciliation),
        leads_to(
            update_logic::<Seq<Seq<u16>>, E>(path),
            update_from_opening(step),
            as_update(history, reconciliation),
            Step::Return(result),
        ),
    decreases history.len(),
{
    let logic = update_logic::<Seq<Seq<u16>>, E>(path);
    match step {
        Step::Return(OpenedView::NotAcquired(error)) => {
            assert(history.len() == 0);
            Reconciliation::Missing
        },
        Step::Return(OpenedView::NotLoaded(guard, error)) => {
            closing_as_update(
                path,
                closing_start(guard, Err(UpdateErrorView::State(error))),
                history,
                result,
            );
            Reconciliation::Missing
        },
        Step::Return(OpenedView::Loaded(guard, state)) => {
            let (count, outcome) = reconciliation_part(
                path,
                guard,
                reconcile_start(state, sid, desired),
                history,
                result,
            );
            let rest = history.skip(count);
            let closing = closing_start(guard, update_outcome(outcome));
            closing_as_update(path, closing, rest, result);
            let found = Reconciliation::At { first: 0, count, state, result: outcome };
            let lifted = as_update(history, found);
            let updating = UpdateStateView::<Seq<Seq<u16>>, E>::Updating(guard);
            assert(history.subrange(0, count) =~= history.take(count));
            assert(lifted[0] == (
                UpdateCallView::Update(state),
                UpdateReplyView::<Seq<Seq<u16>>, E>::Updated(outcome),
            ));
            assert(lifted.drop_first() =~= as_update_calls(rest));
            assert((logic.fits)(updating, lifted[0].1));
            assert((logic.next)(updating, lifted[0].1) == update_from_closing(closing));
            found
        },
        Step::Perform(call, at) => {
            let reply = history[0].1;
            let here = SyncView::<E>::Opening { sid, desired, opening: at };
            assert((sync_logic::<E>(path).fits)(here, reply));
            let next = opening_next(path, at, reply->System_0);
            let rest = history.drop_first();
            assert((sync_logic::<E>(path).next)(here, reply) == sync_from_opening::<E>(
                sid,
                desired,
                next,
            ));
            let later = opening_as_update(path, sid, desired, next, rest, result);
            let found = match later {
                Reconciliation::Missing => Reconciliation::Missing,
                Reconciliation::At { first, count, state, result: outcome } =>
                    Reconciliation::At { first: first + 1, count, state, result: outcome },
            };
            let lifted = as_update(history, found);
            let opening = UpdateStateView::<Seq<Seq<u16>>, E>::Opening(at);
            match later {
                Reconciliation::Missing => {
                    assert forall|i: int| 0 <= i < history.len() implies (#[trigger]
                    history[i]).0 is System && history[i].1 is System by {
                        if i > 0 {
                            assert(history[i] == rest[i - 1]);
                        }
                    }
                },
                Reconciliation::At { first, count, .. } => {
                    let before = history.take(first + 1);
                    assert(history.subrange(first + 1, first + 1 + count) =~= rest.subrange(
                        first,
                        first + count,
                    ));
                    assert(history.skip(first + 1 + count) =~= rest.skip(first + count));
                    assert forall|i: int| 0 <= i < before.len() implies (#[trigger]
                    before[i]).0 is System && before[i].1 is System by {
                        if i > 0 {
                            assert(before[i] == rest.take(first)[i - 1]);
                        }
                    }
                    assert(as_update_calls(before).drop_first() =~= as_update_calls(
                        rest.take(first),
                    ));
                },
            }
            assert(lifted[0] == (
                UpdateCallView::System(call),
                UpdateReplyView::<Seq<Seq<u16>>, E>::System(reply->System_0),
            ));
            assert(lifted.drop_first() =~= as_update(rest, later));
            assert((logic.fits)(opening, lifted[0].1));
            assert((logic.next)(opening, lifted[0].1) == update_from_opening::<
                Seq<Seq<u16>>,
                E,
            >(next));
            found
        },
    }
}

/// A synchronization is one transaction under the mutex of the state, whose update
/// is the reconciliation of the loaded state: what holds of every transaction holds
/// of it, and all its calls on ACEs stand where the update stands.
pub proof fn law_sync_is_one_transaction<E>(
    path: StatePathView,
    sid: Seq<char>,
    desired: Seq<Seq<u16>>,
    history: SyncHistory<E>,
    result: Result<Seq<Seq<u16>>, UpdateErrorView<E>>,
) -> (reconciliation: Reconciliation<E>)
    requires
        leads_to(sync_logic::<E>(path), sync_start(sid, desired), history, Step::Return(result)),
    ensures
        is_transaction(path, sid, desired, history, result, reconciliation),
{
    opening_as_update(
        path,
        sid,
        desired,
        opening_start(DENY_READ_ACL_STATE_MUTEX_NAME@),
        history,
        result,
    )
}

/// A synchronization is a transaction in one way only: its history fixes where the
/// reconciliation stands, which state was loaded, and what it was reconciled to.
pub proof fn law_transaction_is_unique<E>(
    path: StatePathView,
    sid: Seq<char>,
    desired: Seq<Seq<u16>>,
    history: SyncHistory<E>,
    result: Result<Seq<Seq<u16>>, UpdateErrorView<E>>,
    one: Reconciliation<E>,
    other: Reconciliation<E>,
)
    requires
        is_transaction(path, sid, desired, history, result, one),
        is_transaction(path, sid, desired, history, result, other),
    ensures
        one == other,
{
    match (one, other) {
        (Reconciliation::Missing, Reconciliation::Missing) => {},
        (Reconciliation::Missing, Reconciliation::At { first, .. }) => {
            first_call_on_aces(sid, desired, history, other);
            assert(history[first].0 is System);
        },
        (Reconciliation::At { first, .. }, Reconciliation::Missing) => {
            first_call_on_aces(sid, desired, history, one);
            assert(history[first].0 is System);
        },
        (
            Reconciliation::At { first, count, state, result: outcome },
            Reconciliation::At {
                first: other_first,
                count: other_count,
                state: other_state,
                result: other_outcome,
            },
        ) => {
            first_call_on_aces(sid, desired, history, one);
            first_call_on_aces(sid, desired, history, other);
            if first < other_first {
                assert(history.take(other_first)[first] == history[first]);
            } else if other_first < first {
                assert(history.take(first)[other_first] == history[other_first]);
            }
            assert(first == other_first);
            if count < other_count {
                assert(history.skip(first + count)[0] == history[first + count]);
                assert(history.subrange(first, first + other_count)[count] == history[first
                    + count]);
            } else if other_count < count {
                assert(history.skip(first + other_count)[0] == history[first + other_count]);
                assert(history.subrange(first, first + count)[other_count] == history[first
                    + other_count]);
            }
            assert(count == other_count);
            let update = as_update(history, one);
            let other_update = as_update(history, other);
            assert(update.take(first) =~= as_update_calls(history.take(first)));
            assert(other_update.take(first) =~= as_update_calls(history.take(first)));
            same_next_call(
                update_logic::<Seq<Seq<u16>>, E>(path),
                update_start(DENY_READ_ACL_STATE_MUTEX_NAME@),
                update,
                Step::Return(result),
                other_update,
                Step::Return(result),
                first,
            );
            assert(update[first].0 == UpdateCallView::Update(state));
            assert(other_update[first].0 == UpdateCallView::Update(other_state));
            leads_to_one(
                reconcile_logic::<E>(),
                reconcile_start(state, sid, desired),
                as_acl_calls(history.subrange(first, first + count)),
                Step::Return(outcome),
                Step::Return(other_outcome),
            );
        },
    }
}

/// A reconciliation begins with a call on ACEs.
proof fn first_call_on_aces<E>(
    sid: Seq<char>,
    desired: Seq<Seq<u16>>,
    history: SyncHistory<E>,
    reconciliation: Reconciliation<E>,
)
    requires
        reconciled_at(sid, desired, history, reconciliation),
        reconciliation is At,
    ensures
        reconciliation->first < history.len(),
        reconciliation->count >= 1,
        history[reconciliation->first].0 is Acl,
{
    if let Reconciliation::At { first, count, state, result } = reconciliation {
        let part = history.subrange(first, first + count);
        law_reconcile_outcomes(state, sid, desired, as_acl_calls(part), result);
        assert(part[0] == history[first]);
    }
}

/// The call is an outside call that is on the mutex.
pub open spec fn sync_on_mutex(call: SyncCallView) -> bool {
    call is System && on_mutex(call->System_0)
}

/// The call put a temporary file in the place of the state file.
pub open spec fn sync_installs<E>(exchange: (SyncCallView, SyncReplyView<E>)) -> bool {
    &&& exchange.0 is System
    &&& exchange.1 is System
    &&& installs((exchange.0->System_0, exchange.1->System_0))
}

/// The mutex behind the handle is waited for, and later released and closed.
pub open spec fn sync_held_between(
    wait: SyncCallView,
    release: SyncCallView,
    close: SyncCallView,
    handle: isize,
) -> bool {
    &&& wait == SyncCallView::System(CallView::WaitForMutex(handle))
    &&& release == SyncCallView::System(CallView::ReleaseMutex(handle))
    &&& close == SyncCallView::System(CallView::CloseHandle(handle))
}

/// Where a call on the state stands in the transaction.
spec fn place_in_update<E>(reconciliation: Reconciliation<E>, i: int) -> int {
    match reconciliation {
        Reconciliation::Missing => i,
        Reconciliation::At { first, count, .. } => if i < first {
            i
        } else {
            i - count + 1
        },
    }
}

/// A call on the state is the same call in the transaction.
proof fn same_call_in_update<E>(
    sid: Seq<char>,
    desired: Seq<Seq<u16>>,
    history: SyncHistory<E>,
    reconciliation: Reconciliation<E>,
    i: int,
)
    requires
        reconciled_at(sid, desired, history, reconciliation),
        0 <= i < history.len(),
        history[i].0 is System,
    ensures
        ({
            let k = place_in_update(reconciliation, i);
            let update = as_update(history, reconciliation);
            &&& 0 <= k < update.len()
            &&& history[i].1 is System
            &&& update[k] == (
                UpdateCallView::System(history[i].0->System_0),
                UpdateReplyView::<Seq<Seq<u16>>, E>::System(history[i].1->System_0),
            )
        }),
{
    match reconciliation {
        Reconciliation::Missing => {},
        Reconciliation::At { first, count, .. } => {
            if i < first {
                assert(history.take(first)[i] == history[i]);
            } else if i < first + count {
                assert(history.subrange(first, first + count)[i - first] == history[i]);
            } else {
                assert(history.skip(first + count)[i - first - count] == history[i]);
            }
        },
    }
}

/// A synchronization holds the mutex of the state while it works. Without the mutex
/// it makes no call but those that try to get it. Else its first two calls acquire
/// the mutex, its last two release it and close its handle, and every call between
/// them leaves the mutex alone; so every call on an ACE is made while it is held.
pub proof fn law_sync_holds_the_mutex<E>(
    path: StatePathView,
    sid: Seq<char>,
    desired: Seq<Seq<u16>>,
    history: SyncHistory<E>,
    result: Result<Seq<Seq<u16>>, UpdateErrorView<E>>,
)
    requires
        leads_to(sync_logic::<E>(path), sync_start(sid, desired), history, Step::Return(result)),
    ensures
        match result {
            Err(UpdateErrorView::State(StateErrorView::Mutex(_))) => forall|i: int|
                0 <= i < history.len() ==> sync_on_mutex((#[trigger] history[i]).0)
                    || history[i].0 == SyncCallView::System(CallView::LastError),
            _ => {
                let last = history.len() - 1;
                &&& last >= 3
                &&& history[0].0 == SyncCallView::System(
                    CallView::CreateMutex(DENY_READ_ACL_STATE_MUTEX_NAME@),
                )
                &&& exists|handle: isize| #[trigger]
                    sync_held_between(history[1].0, history[last - 1].0, history[last].0, handle)
                &&& forall|i: int| 2 <= i < last - 1 ==> !sync_on_mutex((#[trigger] history[i]).0)
            },
        },
{
    let name = DENY_READ_ACL_STATE_MUTEX_NAME@;
    let reconciliation = law_sync_is_one_transaction(path, sid, desired, history, result);
    let update = as_update(history, reconciliation);
    law_update_is_one_critical_section(path, name, update, result);
    let (opening, opened) = law_update_parts(path, name, update, result);
    let last = history.len() - 1;
    match result {
        Err(UpdateErrorView::State(StateErrorView::Mutex(_))) => {
            if let Reconciliation::At { first, .. } = reconciliation {
                assert(update[first].0 is Update);
            }
            assert forall|i: int| 0 <= i < history.len() implies sync_on_mutex(
                (#[trigger] history[i]).0,
            ) || history[i].0 == SyncCallView::System(CallView::LastError) by {
                same_call_in_update(sid, desired, history, reconciliation, i);
                assert(update_on_mutex(update[place_in_update(reconciliation, i)].0)
                    || update[place_in_update(reconciliation, i)].0 == UpdateCallView::System(
                    CallView::LastError,
                ));
            }
        },
        _ => {
            let end = update.len() - 1;
            let handle = choose|handle: isize| #[trigger]
                held_between(update[1].0, update[end - 1].0, update[end].0, handle);
            if let Reconciliation::At { first, count, state, result: outcome } = reconciliation {
                law_reconcile_outcomes(
                    state,
                    sid,
                    desired,
                    as_acl_calls(history.subrange(first, first + count)),
                    outcome,
                );
                assert(update[first].0 is Update);
                assert(2 <= first && first < end - 1);
                assert(history.take(first)[0] == history[0]);
                assert(history.take(first)[1] == history[1]);
                let rest = history.skip(first + count);
                assert(rest[rest.len() - 1] == history[last]);
                assert(rest[rest.len() - 2] == history[last - 1]);
            }
            same_call_in_update(sid, desired, history, reconciliation, 0);
            same_call_in_update(sid, desired, history, reconciliation, 1);
            same_call_in_update(sid, desired, history, reconciliation, last - 1);
            same_call_in_update(sid, desired, history, reconciliation, last);
            assert(sync_held_between(history[1].0, history[last - 1].0, history[last].0, handle));
            assert forall|i: int| 2 <= i < last - 1 implies !sync_on_mutex(
                (#[trigger] history[i]).0,
            ) by {
                if history[i].0 is System {
                    same_call_in_update(sid, desired, history, reconciliation, i);
                    let k = place_in_update(reconciliation, i);
                    if let Reconciliation::At { first, count, .. } = reconciliation {
                        if first <= i < first + count {
                            assert(history.subrange(first, first + count)[i - first]
                                == history[i]);
                        }
                    }
                    assert(!update_on_mutex(update[k].0));
                }
            }
        },
    }
}

/// The transaction stored the loaded state with the applied paths recorded for the
/// principal, and these paths are what it hands out.
pub open spec fn records_applied<E>(
    sid: Seq<char>,
    desired: Seq<Seq<u16>>,
    history: SyncHistory<E>,
    applied: Seq<Seq<u16>>,
    reconciliation: Reconciliation<E>,
) -> bool {
    match reconciliation {
        Reconciliation::Missing => false,
        Reconciliation::At { first, count, state, result } => {
            let recorded = with_recorded(state, sid, applied);
            &&& count >= 1
            &&& history[first] == (
                SyncCallView::Acl(AclCallView::Apply(desired)),
                SyncReplyView::<E>::Acl(AclReplyView::Applied(applied)),
            )
            &&& result == Ok::<(Recorded, Seq<Seq<u16>>), E>((recorded, applied))
            &&& exists|bytes: Seq<u8>| #[trigger]
                wrote_update(
                    as_update(history, reconciliation),
                    first,
                    recorded,
                    applied,
                    bytes,
                )
        },
    }
}

/// A transaction that succeeds records what was applied, and installs it.
proof fn transaction_records_applied<E>(
    path: StatePathView,
    sid: Seq<char>,
    desired: Seq<Seq<u16>>,
    history: SyncHistory<E>,
    applied: Seq<Seq<u16>>,
    reconciliation: Reconciliation<E>,
)
    requires
        is_transaction(path, sid, desired, history, Ok(applied), reconciliation),
    ensures
        records_applied(sid, desired, history, applied, reconciliation),
        exists|i: int| 0 <= i < history.len() && sync_installs(#[trigger] history[i]),
{
    let name = DENY_READ_ACL_STATE_MUTEX_NAME@;
    let update = as_update(history, reconciliation);
    law_state_file_is_replaced_only_on_success(path, name, update, Ok(applied));
    let (at, recorded, bytes) = choose|at: int, recorded: Recorded, bytes: Seq<u8>| #[trigger]
        wrote_update(update, at, recorded, applied, bytes);
    match reconciliation {
        Reconciliation::Missing => {},
        Reconciliation::At { first, count, state, result } => {
            let calls = history.subrange(first, first + count);
            assert(at == first);
            law_reconcile_outcomes(state, sid, desired, as_acl_calls(calls), result);
            assert(calls[0] == history[first]);
            assert(as_acl_calls(calls)[0] == (calls[0].0->Acl_0, calls[0].1->Acl_0));
            let k = choose|k: int| 0 <= k < update.len() && update_installs(#[trigger] update[k]);
            assert(k != first);
            let i = if k < first {
                k
            } else {
                k - 1 + count
            };
            if k < first {
                assert(history.take(first)[k] == history[i]);
            } else {
                assert(history.skip(first + count)[k - 1 - first] == history[i]);
            }
            same_call_in_update(sid, desired, history, reconciliation, i);
            assert(sync_installs(history[i]));
        },
    }
}

/// A synchronization that succeeds hands out the paths that were applied, after it
/// stored the loaded state with exactly these paths recorded for the principal.
pub proof fn law_sync_records_what_it_applied<E>(
    path: StatePathView,
    sid: Seq<char>,
    desired: Seq<Seq<u16>>,
    history: SyncHistory<E>,
    applied: Seq<Seq<u16>>,
) -> (reconciliation: Reconciliation<E>)
    requires
        leads_to(
            sync_logic::<E>(path),
            sync_start(sid, desired),
            history,
            Step::Return(Ok(applied)),
        ),
    ensures
        is_transaction(path, sid, desired, history, Ok(applied), reconciliation),
        records_applied(sid, desired, history, applied, reconciliation),
        exists|i: int| 0 <= i < history.len() && sync_installs(#[trigger] history[i]),
{
    let reconciliation = law_sync_is_one_transaction(path, sid, desired, history, Ok(applied));
    transaction_records_applied(path, sid, desired, history, applied, reconciliation);
    reconciliation
}

/// A synchronization that succeeds leaves no old ACE behind. Whatever ACEs the
/// principal had before, also after a run whose store failed, it has one afterwards
/// exactly where it was applied, or where it was there before and the loaded state
/// did not record its path. Where no ACE was unrecorded, those that are left are
/// exactly the applied ones.
pub proof fn law_sync_leaves_no_stale_ace<E>(
    path: StatePathView,
    sid: Seq<char>,
    desired: Seq<Seq<u16>>,
    history: SyncHistory<E>,
    applied: Seq<Seq<u16>>,
    key: spec_fn(Seq<u16>) -> Seq<char>,
    aces: Set<Seq<char>>,
) -> (reconciliation: Reconciliation<E>)
    requires
        leads_to(
            sync_logic::<E>(path),
            sync_start(sid, desired),
            history,
            Step::Return(Ok(applied)),
        ),
    ensures
        is_transaction(path, sid, desired, history, Ok(applied), reconciliation),
        match reconciliation.loaded() {
            None => false,
            Some(state) => {
                let calls = reconciliation.acl_calls(history);
                let recorded = key_set(key, recorded_paths(state, sid));
                keys_are_faithful(key, calls) ==> {
                    &&& aces_after(key, aces, calls) == key_set(key, applied).union(
                        aces.difference(recorded),
                    )
                    &&& aces.subset_of(recorded) ==> aces_after(key, aces, calls) == key_set(
                        key,
                        applied,
                    )
                }
            },
        },
{
    let reconciliation = law_sync_records_what_it_applied(path, sid, desired, history, applied);
    if let Reconciliation::At { state, result, .. } = reconciliation {
        let calls = reconciliation.acl_calls(history);
        if keys_are_faithful(key, calls) {
            law_no_stale_ace_is_left(
                key,
                aces,
                state,
                sid,
                desired,
                calls,
                result->Ok_0.0,
                applied,
            );
        }
    }
    reconciliation
}

/// A second synchronization that applies the same paths, and loads the state that the
/// first one stored, revokes nothing and stores that state again.
pub proof fn law_second_sync_changes_nothing<E>(
    path: StatePathView,
    sid: Seq<char>,
    desired: Seq<Seq<u16>>,
    history: SyncHistory<E>,
    first: Reconciliation<E>,
    second_desired: Seq<Seq<u16>>,
    second_history: SyncHistory<E>,
    second: Reconciliation<E>,
    applied: Seq<Seq<u16>>,
    key: spec_fn(Seq<u16>) -> Seq<char>,
)
    requires
        leads_to(
            sync_logic::<E>(path),
            sync_start(sid, desired),
            history,
            Step::Return(Ok(applied)),
        ),
        is_transaction(path, sid, desired, history, Ok(applied), first),
        leads_to(
            sync_logic::<E>(path),
            sync_start(sid, second_desired),
            second_history,
            Step::Return(Ok(applied)),
        ),
        is_transaction(path, sid, second_desired, second_history, Ok(applied), second),
        second.loaded() == first.reconciled(),
        keys_are_faithful(key, second.acl_calls(second_history)),
    ensures
        second.reconciled() is Some,
        second.reconciled() == first.reconciled(),
        records_applied(sid, second_desired, second_history, applied, second),
        forall|i: int|
            0 <= i < second_history.len() ==> !((#[trigger] second_history[i]).0 is Acl
                && second_history[i].0->Acl_0 is Revoke),
{
    transaction_records_applied(path, sid, desired, history, applied, first);
    transaction_records_applied(path, sid, second_desired, second_history, applied, second);
    if let Reconciliation::At { first: start, count, state, result } = second {
        let part = second_history.subrange(start, start + count);
        let calls = as_acl_calls(part);
        law_second_reconciliation_changes_nothing(
            key,
            first.loaded()->0,
            sid,
            second_desired,
            calls,
            result->Ok_0.0,
            applied,
        );
        assert forall|i: int| 0 <= i < second_history.len() implies !((#[trigger]
        second_history[i]).0 is Acl && second_history[i].0->Acl_0 is Revoke) by {
            if i < start {
                assert(second_history.take(start)[i] == second_history[i]);
            } else if i < start + count {
                assert(part[i - start] == second_history[i]);
                assert(!(calls[i - start].0 is Revoke));
            } else {
                assert(second_history.skip(start + count)[i - start - count] == second_history[i]);
            }
        }
    }
}

/// Where the desired paths cannot be applied, the error is the result, nothing is
/// revoked and the state file is not replaced.
pub proof fn law_failed_apply_changes_nothing<E>(
    path: StatePathView,
    sid: Seq<char>,
    desired: Seq<Seq<u16>>,
    history: SyncHistory<E>,
    result: Result<Seq<Seq<u16>>, UpdateErrorView<E>>,
    error: E,
)
    requires
        leads_to(sync_logic::<E>(path), sync_start(sid, desired), history, Step::Return(result)),
    ensures
        result == Err::<Seq<Seq<u16>>, UpdateErrorView<E>>(UpdateErrorView::Update(error))
            <==> history.contains(
            (
                SyncCallView::Acl(AclCallView::Apply(desired)),
                SyncReplyView::<E>::Acl(AclReplyView::ApplyFailed(error)),
            ),
        ),
        result is Err && result->Err_0 is Update ==> forall|i: int|
            0 <= i < history.len() ==> {
                &&& !sync_installs(#[trigger] history[i])
                &&& history[i].0 is Acl ==> history[i].0 == SyncCallView::Acl(
                    AclCallView::Apply(desired),
                )
            },
{
    let name = DENY_READ_ACL_STATE_MUTEX_NAME@;
    let reconciliation = law_sync_is_one_transaction(path, sid, desired, history, result);
    let update = as_update(history, reconciliation);
    let failed = (
        SyncCallView::Acl(AclCallView::Apply(desired)),
        SyncReplyView::<E>::Acl(AclReplyView::ApplyFailed(error)),
    );
    law_failed_update_stores_nothing(path, name, update, result, error);
    law_state_file_is_replaced_only_on_success(path, name, update, result);
    match reconciliation {
        Reconciliation::Missing => {
            assert forall|i: int| 0 <= i < update.len() implies !((#[trigger]
            update[i]).1 is Updated) by {}
        },
        Reconciliation::At { first, count, state, result: outcome } => {
            let calls = history.subrange(first, first + count);
            let acl_calls = as_acl_calls(calls);
            law_reconcile_outcomes(state, sid, desired, acl_calls, outcome);
            assert(update[first].1 == UpdateReplyView::<Seq<Seq<u16>>, E>::Updated(outcome));
            assert(calls[0] == history[first]);
            assert(acl_calls[0] == (calls[0].0->Acl_0, calls[0].1->Acl_0));
            if result == Err::<Seq<Seq<u16>>, UpdateErrorView<E>>(UpdateErrorView::Update(error)) {
                let at = choose|at: int|
                    0 <= at < update.len() && (#[trigger] update[at]).1 == UpdateReplyView::<
                        Seq<Seq<u16>>,
                        E,
                    >::Updated(Err(error));
                assert(at == first);
                assert(history[first] == failed);
            }
            if history.contains(failed) {
                let i = choose|i: int| 0 <= i < history.len() && history[i] == failed;
                if i < first {
                    assert(history.take(first)[i] == history[i]);
                } else if i >= first + count {
                    assert(history.skip(first + count)[i - first - count] == history[i]);
                }
                assert(calls[i - first] == history[i]);
                assert(acl_calls[i - first].0 is Apply);
                if outcome is Ok && i > first + 1 {
                    assert(acl_calls[2 + (i - first - 2)].0 is Revoke);
                }
                assert(i == first);
            }
        },
    }
    if result is Err && result->Err_0 is Update {
        let cause = result->Err_0->Update_0;
        law_failed_update_stores_nothing(path, name, update, result, cause);
        assert forall|i: int| 0 <= i < history.len() implies {
            &&& !sync_installs(#[trigger] history[i])
            &&& history[i].0 is Acl ==> history[i].0 == SyncCallView::Acl(
                AclCallView::Apply(desired),
            )
        } by {
            if history[i].0 is System {
                same_call_in_update(sid, desired, history, reconciliation, i);
                assert(!update_installs(update[place_in_update(reconciliation, i)]));
            } else if let Reconciliation::At { first, count, state, result: outcome } =
                reconciliation {
                let calls = history.subrange(first, first + count);
                let at = choose|at: int|
                    0 <= at < update.len() && (#[trigger] update[at]).1 == UpdateReplyView::<
                        Seq<Seq<u16>>,
                        E,
                    >::Updated(Err(cause));
                assert(at == first);
                law_reconcile_outcomes(state, sid, desired, as_acl_calls(calls), outcome);
                assert(count == 1);
                if i < first {
                    assert(history.take(first)[i] == history[i]);
                } else if i > first {
                    assert(history.skip(first + count)[i - first - count] == history[i]);
                }
                assert(calls[0] == history[first]);
            }
        }
    }
}

/// The synchronization as a piece of logic goes on as it does when it is resumed, and
/// accepts the replies that it waits for.
pub proof fn law_sync_logic_is_what_is_resumed<E>(
    path: StatePathView,
    at: SyncView<E>,
    reply: SyncReplyView<E>,
)
    ensures
        (sync_logic::<E>(path).next)(at, reply) == sync_next(path, at, reply),
        (sync_logic::<E>(path).fits)(at, reply) == sync_fits(at, reply),
{
}

/// Outside calls as calls of a synchronization.
pub open spec fn as_sync_calls<E>(history: Seq<(CallView, ReplyView)>) -> SyncHistory<E> {
    history.map_values(
        |exchange: (CallView, ReplyView)|
            (SyncCallView::System(exchange.0), SyncReplyView::<E>::System(exchange.1)),
    )
}

/// Calls on ACEs as calls of a synchronization.
pub open spec fn as_sync_acl_calls<E>(
    history: Seq<(AclCallView, AclReplyView<E>)>,
) -> SyncHistory<E> {
    history.map_values(
        |exchange: (AclCallView, AclReplyView<E>)|
            (SyncCallView::Acl(exchange.0), SyncReplyView::<E>::Acl(exchange.1)),
    )
}

/// Calls are the same calls with the same replies in a synchronization.
pub proof fn law_sync_calls_are_the_calls<E>(
    history: Seq<(CallView, ReplyView)>,
    acl_history: Seq<(AclCallView, AclReplyView<E>)>,
)
    ensures
        as_sync_calls::<E>(history).len() == history.len(),
        forall|i: int|
            0 <= i < history.len() ==> #[trigger] as_sync_calls::<E>(history)[i] == (
                SyncCallView::System(history[i].0),
                SyncReplyView::<E>::System(history[i].1),
            ),
        as_sync_acl_calls(acl_history).len() == acl_history.len(),
        forall|i: int|
            0 <= i < acl_history.len() ==> #[trigger] as_sync_acl_calls(acl_history)[i] == (
                SyncCallView::Acl(acl_history[i].0),
                SyncReplyView::<E>::Acl(acl_history[i].1),
            ),
{
}

/// While a synchronization closes it does what the closing does.
proof fn closing_in_sync<E>(
    path: StatePathView,
    step: ClosingStepView<Seq<Seq<u16>>, E>,
    history: Seq<(CallView, ReplyView)>,
    result: Result<Seq<Seq<u16>>, UpdateErrorView<E>>,
)
    requires
        leads_to(closing_logic::<Seq<Seq<u16>>, E>(path), step, history, Step::Return(result)),
    ensures
        leads_to(
            sync_logic::<E>(path),
            sync_from_closing(step),
            as_sync_calls(history),
            Step::Return(result),
        ),
{
    let inside = Inside {
        call: |call: CallView| SyncCallView::System(call),
        inner_call: |call: SyncCallView| call->System_0,
        reply: |reply: ReplyView| SyncReplyView::<E>::System(reply),
        inner_reply: |reply: SyncReplyView<E>| reply->System_0,
        state: |at: ClosingView<Seq<Seq<u16>>, E>| SyncView::<E>::Closing(at),
        after: |outcome: Result<Seq<Seq<u16>>, UpdateErrorView<E>>|
            sync_from_closing(Step::Return(outcome)),
    };
    assert forall|step: ClosingStepView<Seq<Seq<u16>>, E>| #[trigger]
        outer_step(inside, step) == sync_from_closing(step) by {}
    outer_part(
        closing_logic::<Seq<Seq<u16>>, E>(path),
        sync_logic::<E>(path),
        inside,
        step,
        history,
        result,
        Seq::empty(),
        Step::Return(result),
    );
    assert(outer_history(inside, history) + Seq::empty() =~= as_sync_calls::<E>(history));
}

/// While a synchronization reconciles it does what the reconciliation does, and closes.
proof fn reconciliation_in_sync<E>(
    path: StatePathView,
    guard: DenyReadAclStateMutexGuard,
    step: ReconcileStepView<E>,
    history: Seq<(AclCallView, AclReplyView<E>)>,
    reconciled: Result<(Recorded, Seq<Seq<u16>>), E>,
    closing: Seq<(CallView, ReplyView)>,
    result: Result<Seq<Seq<u16>>, UpdateErrorView<E>>,
)
    requires
        leads_to(reconcile_logic::<E>(), step, history, Step::Return(reconciled)),
        leads_to(
            closing_logic::<Seq<Seq<u16>>, E>(path),
            closing_start(guard, update_outcome(reconciled)),
            closing,
            Step::Return(result),
        ),
    ensures
        leads_to(
            sync_logic::<E>(path),
            sync_from_reconcile(guard, step),
            as_sync_acl_calls(history) + as_sync_calls(closing),
            Step::Return(result),
        ),
{
    let inside = Inside {
        call: |call: AclCallView| SyncCallView::Acl(call),
        inner_call: |call: SyncCallView| call->Acl_0,
        reply: |reply: AclReplyView<E>| SyncReplyView::<E>::Acl(reply),
        inner_reply: |reply: SyncReplyView<E>| reply->Acl_0,
        state: |at: ReconcileView| SyncView::<E>::Reconciling { guard, reconciliation: at },
        after: |outcome: Result<(Recorded, Seq<Seq<u16>>), E>|
            sync_from_reconcile(guard, Step::Return(outcome)),
    };
    assert forall|step: ReconcileStepView<E>| #[trigger]
        outer_step(inside, step) == sync_from_reconcile(guard, step) by {}
    closing_in_sync(path, closing_start(guard, update_outcome(reconciled)), closing, result);
    outer_part(
        reconcile_logic::<E>(),
        sync_logic::<E>(path),
        inside,
        step,
        history,
        reconciled,
        as_sync_calls(closing),
        Step::Return(result),
    );
    assert(outer_history(inside, history) =~= as_sync_acl_calls(history));
}

/// While a synchronization opens it does what the opening does, and then goes on.
proof fn opening_in_sync<E>(
    path: StatePathView,
    sid: Seq<char>,
    desired: Seq<Seq<u16>>,
    step: OpeningStepView,
    history: Seq<(CallView, ReplyView)>,
    opened: OpenedView,
    rest: SyncHistory<E>,
    result: Result<Seq<Seq<u16>>, UpdateErrorView<E>>,
)
    requires
        leads_to(opening_logic(path), step, history, Step::Return(opened)),
        leads_to(
            sync_logic::<E>(path),
            sync_from_opening(sid, desired, Step::Return(opened)),
            rest,
            Step::Return(result),
        ),
    ensures
        leads_to(
            sync_logic::<E>(path),
            sync_from_opening(sid, desired, step),
            as_sync_calls(history) + rest,
            Step::Return(result),
        ),
{
    let inside = Inside {
        call: |call: CallView| SyncCallView::System(call),
        inner_call: |call: SyncCallView| call->System_0,
        reply: |reply: ReplyView| SyncReplyView::<E>::System(reply),
        inner_reply: |reply: SyncReplyView<E>| reply->System_0,
        state: |at: OpeningView| SyncView::<E>::Opening { sid, desired, opening: at },
        after: |opened: OpenedView| sync_from_opening::<E>(sid, desired, Step::Return(opened)),
    };
    assert forall|step: OpeningStepView| #[trigger]
        outer_step(inside, step) == sync_from_opening::<E>(sid, desired, step) by {}
    outer_part(
        opening_logic(path),
        sync_logic::<E>(path),
        inside,
        step,
        history,
        opened,
        rest,
        Step::Return(result),
    );
    assert(outer_history(inside, history) =~= as_sync_calls::<E>(history));
}

/// Every synchronization comes to its end, whatever its parts come to. Without the mutex
/// of the state, its error is the result. Else the state is loaded. Where that fails, its
/// error is the result; where it does not, exactly the loaded state is reconciled for the
/// principal with the desired paths. Where that fails, its error is the result; where it
/// does not, exactly the state that it ended with is stored, and the result is the applied
/// paths, or the error of the store. Once acquired, the mutex is released and its handle
/// closed in the end.
pub proof fn law_every_sync_ends<E>(
    path: StatePathView,
    sid: Seq<char>,
    desired: Seq<Seq<u16>>,
    acquiring: Seq<(CallView, ReplyView)>,
    acquired: Result<DenyReadAclStateMutexGuard, MutexError>,
    loading: Seq<(CallView, ReplyView)>,
    loaded: Result<Recorded, StateErrorView>,
    reconciling: Seq<(AclCallView, AclReplyView<E>)>,
    reconciled: Result<(Recorded, Seq<Seq<u16>>), E>,
    storing: Seq<(CallView, ReplyView)>,
    stored: Result<(), StateErrorView>,
)
    requires
        leads_to(
            acquire_logic(),
            acquire_start("Local\\CodexSandboxDenyReadAclState"@),
            acquiring,
            Step::Return(acquired),
        ),
        leads_to(load_logic(path), load_start(), loading, Step::Return(loaded)),
        loaded matches Ok(state) ==> leads_to(
            reconcile_logic::<E>(),
            reconcile_start(state, sid, desired),
            reconciling,
            Step::Return(reconciled),
        ),
        reconciled matches Ok((state, _)) ==> leads_to(
            store_logic(path),
            store_start(state),
            storing,
            Step::Return(stored),
        ),
    ensures
        match acquired {
            Err(cause) => leads_to(
                sync_logic::<E>(path),
                sync_start(sid, desired),
                as_sync_calls(acquiring),
                Step::Return(Err(UpdateErrorView::State(StateErrorView::Mutex(cause)))),
            ),
            Ok(guard) => {
                let release = seq![
                    (CallView::ReleaseMutex(guard.handle), ReplyView::Done),
                    (CallView::CloseHandle(guard.handle), ReplyView::Done),
                ];
                let opening = as_sync_calls::<E>(acquiring + loading);
                match (loaded, reconciled, stored) {
                    (Err(cause), _, _) => leads_to(
                        sync_logic::<E>(path),
                        sync_start(sid, desired),
                        opening + as_sync_calls(release),
                        Step::Return(Err(UpdateErrorView::State(cause))),
                    ),
                    (Ok(_), Err(error), _) => leads_to(
                        sync_logic::<E>(path),
                        sync_start(sid, desired),
                        opening + (as_sync_acl_calls(reconciling) + as_sync_calls(release)),
                        Step::Return(Err(UpdateErrorView::Update(error))),
                    ),
                    (Ok(_), Ok((_, applied)), Ok(_)) => leads_to(
                        sync_logic::<E>(path),
                        sync_start(sid, desired),
                        opening + (as_sync_acl_calls(reconciling) + as_sync_calls(
                            storing + release,
                        )),
                        Step::Return(Ok(applied)),
                    ),
                    (Ok(_), Ok(_), Err(cause)) => leads_to(
                        sync_logic::<E>(path),
                        sync_start(sid, desired),
                        opening + (as_sync_acl_calls(reconciling) + as_sync_calls(
                            storing + release,
                        )),
                        Step::Return(Err(UpdateErrorView::State(cause))),
                    ),
                }
            },
        },
{
    let name = DENY_READ_ACL_STATE_MUTEX_NAME@;
    let start = opening_start(name);
    law_every_opening_ends(path, name, acquiring, acquired, loading, loaded);
    match acquired {
        Err(cause) => {
            opening_in_sync::<E>(
                path,
                sid,
                desired,
                start,
                acquiring,
                OpenedView::NotAcquired(cause),
                Seq::empty(),
                Err(UpdateErrorView::State(StateErrorView::Mutex(cause))),
            );
            assert(as_sync_calls::<E>(acquiring) + Seq::empty() =~= as_sync_calls::<E>(acquiring));
        },
        Ok(guard) => {
            let release = seq![
                (CallView::ReleaseMutex(guard.handle), ReplyView::Done),
                (CallView::CloseHandle(guard.handle), ReplyView::Done),
            ];
            let opening = acquiring + loading;
            match loaded {
                Err(cause) => {
                    let failed = UpdateErrorView::<E>::State(cause);
                    closing_without_store(path, guard, failed);
                    closing_in_sync(path, closing_start(guard, Err(failed)), release, Err(failed));
                    opening_in_sync::<E>(
                        path,
                        sid,
                        desired,
                        start,
                        opening,
                        OpenedView::NotLoaded(guard, cause),
                        as_sync_calls(release),
                        Err(failed),
                    );
                },
                Ok(state) => {
                    let closing = match reconciled {
                        Ok(_) => storing + release,
                        Err(_) => release,
                    };
                    let result: Result<Seq<Seq<u16>>, UpdateErrorView<E>> = match reconciled {
                        Err(error) => Err(UpdateErrorView::Update(error)),
                        Ok((_, applied)) => match stored {
                            Ok(_) => Ok(applied),
                            Err(cause) => Err(UpdateErrorView::State(cause)),
                        },
                    };
                    match reconciled {
                        Err(error) => {
                            closing_without_store(path, guard, UpdateErrorView::Update(error));
                        },
                        Ok((recorded, applied)) => {
                            law_every_closing_ends::<Seq<Seq<u16>>, E>(
                                path,
                                guard,
                                UpdateErrorView::State(StateErrorView::NoParent),
                                recorded,
                                applied,
                                storing,
                                stored,
                            );
                        },
                    }
                    let step = reconcile_start::<E>(state, sid, desired);
                    reconciliation_in_sync(
                        path,
                        guard,
                        step,
                        reconciling,
                        reconciled,
                        closing,
                        result,
                    );
                    opening_in_sync::<E>(
                        path,
                        sid,
                        desired,
                        start,
                        opening,
                        OpenedView::Loaded(guard, state),
                        as_sync_acl_calls(reconciling) + as_sync_calls(closing),
                        result,
                    );
                },
            }
        },
    }
}

/// A closing with nothing to store comes to its end.
proof fn closing_without_store<E>(
    path: StatePathView,
    guard: DenyReadAclStateMutexGuard,
    error: UpdateErrorView<E>,
)
    ensures
        leads_to(
            closing_logic::<Seq<Seq<u16>>, E>(path),
            closing_start(guard, Err(error)),
            seq![
                (CallView::ReleaseMutex(guard.handle), ReplyView::Done),
                (CallView::CloseHandle(guard.handle), ReplyView::Done),
            ],
            Step::Return(Err(error)),
        ),
{
    reveal_with_fuel(leads_to, 3);
}

} // verus!
