//! What holds of every finished transaction on the state.

use crate::calls::reply_fits;
use crate::calls::CallView;
use crate::calls::FailureView;
use crate::calls::ReplyView;
use crate::calls::Step;
use crate::error::MutexError;
use crate::error::StateErrorView;
use crate::load::law_load_outcomes;
use crate::load::load_logic;
use crate::load::load_start;
use crate::load::read_outcome;
use crate::load::LoadStepView;
use crate::load::LoadView;
use crate::mutex::acquire_logic;
use crate::mutex::acquire_start;
use crate::mutex::law_acquire_outcomes;
use crate::mutex::release_start;
use crate::mutex::AcquireState;
use crate::mutex::AcquireStepView;
use crate::mutex::DenyReadAclStateMutexGuard;
use crate::quarantine::quarantine_logic;
use crate::quarantine::quarantine_start;
use crate::run::every_call;
use crate::run::inner_history;
use crate::run::inner_part;
use crate::run::leads_to;
use crate::run::outer_history;
use crate::run::outer_part;
use crate::run::outer_step;
use crate::run::runs_inside;
use crate::run::Inside;
use crate::run::Logic;
use crate::state::Recorded;
use crate::state::StatePathView;
use crate::store::install_logic;
use crate::store::install_start;
use crate::store::installs;
use crate::store::law_install_outcomes;
use crate::store::law_store_installs_what_it_serialized;
use crate::store::law_store_outcomes;
use crate::store::preparation;
use crate::store::prepared;
use crate::store::store_logic;
use crate::store::store_start;
use crate::store::StoreStepView;
use crate::store::StoreView;
use crate::transaction::closing_expects;
use crate::transaction::closing_from_release;
use crate::transaction::closing_from_store;
use crate::transaction::closing_next;
use crate::transaction::closing_start;
use crate::transaction::opening_expects;
use crate::transaction::opening_from_acquire;
use crate::transaction::opening_from_load;
use crate::transaction::opening_next;
use crate::transaction::opening_start;
use crate::transaction::update_fits;
use crate::transaction::update_from_closing;
use crate::transaction::update_from_opening;
use crate::transaction::update_next;
use crate::transaction::update_outcome;
use crate::transaction::update_start;
use crate::transaction::ClosingStepView;
use crate::transaction::ClosingView;
use crate::transaction::OpenedView;
use crate::transaction::OpeningStepView;
use crate::transaction::OpeningView;
use crate::transaction::UpdateCallView;
use crate::transaction::UpdateErrorView;
use crate::transaction::UpdateReplyView;
use crate::transaction::UpdateStateView;
use vstd::prelude::*;

verus! {

/// The opening of a transaction as a piece of logic.
pub open spec fn opening_logic(path: StatePathView) -> Logic<
    CallView,
    ReplyView,
    OpeningView,
    OpenedView,
> {
    Logic {
        next: |at: OpeningView, reply: ReplyView| opening_next(path, at, reply),
        fits: |at: OpeningView, reply: ReplyView| reply_fits(opening_expects(at), reply),
    }
}

/// The closing of a transaction as a piece of logic.
pub open spec fn closing_logic<T, E>(path: StatePathView) -> Logic<
    CallView,
    ReplyView,
    ClosingView<T, E>,
    Result<T, UpdateErrorView<E>>,
> {
    Logic {
        next: |at: ClosingView<T, E>, reply: ReplyView| closing_next(path, at, reply),
        fits: |at: ClosingView<T, E>, reply: ReplyView| reply_fits(closing_expects(at), reply),
    }
}

/// A transaction as a piece of logic.
pub open spec fn update_logic<T, E>(path: StatePathView) -> Logic<
    UpdateCallView,
    UpdateReplyView<T, E>,
    UpdateStateView<T, E>,
    Result<T, UpdateErrorView<E>>,
> {
    Logic {
        next: |at: UpdateStateView<T, E>, reply: UpdateReplyView<T, E>|
            update_next(path, at, reply),
        fits: |at: UpdateStateView<T, E>, reply: UpdateReplyView<T, E>| update_fits(at, reply),
    }
}

/// The call acquires, releases or closes the mutex.
pub open spec fn on_mutex(call: CallView) -> bool {
    call is CreateMutex || call is WaitForMutex || call is ReleaseMutex || call is CloseHandle
}

/// The call may put a temporary file in the place of the state file.
pub open spec fn may_install(call: CallView) -> bool {
    call is ReplaceState || call is MoveIntoPlace
}

/// What the opening of a transaction comes to: the mutex is acquired with the first
/// two calls, and only while it is held is the state loaded, by all the other calls.
pub proof fn law_opening_outcomes(
    path: StatePathView,
    mutex_name: Seq<char>,
    history: Seq<(CallView, ReplyView)>,
    opened: OpenedView,
)
    requires
        leads_to(opening_logic(path), opening_start(mutex_name), history, Step::Return(opened)),
    ensures
        match opened {
            OpenedView::NotAcquired(error) => leads_to(
                acquire_logic(),
                acquire_start(mutex_name),
                history,
                Step::Return(Err(error)),
            ),
            OpenedView::Loaded(guard, state) => {
                &&& history.len() >= 2
                &&& leads_to(
                    acquire_logic(),
                    acquire_start(mutex_name),
                    history.take(2),
                    Step::Return(Ok(guard)),
                )
                &&& leads_to(
                    load_logic(path),
                    load_start(),
                    history.skip(2),
                    Step::Return(Ok(state)),
                )
            },
            OpenedView::NotLoaded(guard, error) => {
                &&& history.len() >= 2
                &&& leads_to(
                    acquire_logic(),
                    acquire_start(mutex_name),
                    history.take(2),
                    Step::Return(Ok(guard)),
                )
                &&& leads_to(
                    load_logic(path),
                    load_start(),
                    history.skip(2),
                    Step::Return(Err(error)),
                )
            },
        },
{
    let inside = Inside {
        call: |call: CallView| call,
        inner_call: |call: CallView| call,
        reply: |reply: ReplyView| reply,
        inner_reply: |reply: ReplyView| reply,
        state: |at: AcquireState| OpeningView::Acquiring(at),
        after: |result: Result<DenyReadAclStateMutexGuard, MutexError>|
            opening_from_acquire(Step::Return(result)),
    };
    assert forall|step: AcquireStepView| #[trigger]
        outer_step(inside, step) == opening_from_acquire(step) by {}
    assert(runs_inside(acquire_logic(), opening_logic(path), inside));
    let (count, acquired) = inner_part(
        acquire_logic(),
        opening_logic(path),
        inside,
        acquire_start(mutex_name),
        history,
        opened,
    );
    assert(inner_history(inside, history.take(count)) =~= history.take(count));
    let rest = history.skip(count);
    match acquired {
        Err(error) => {
            assert(rest.len() == 0);
            assert(history.take(count) =~= history);
        },
        Ok(guard) => {
            law_acquire_outcomes(mutex_name, history.take(count), acquired);
            assert(count == 2);
            let loading = Inside {
                call: |call: CallView| call,
                inner_call: |call: CallView| call,
                reply: |reply: ReplyView| reply,
                inner_reply: |reply: ReplyView| reply,
                state: |at: LoadView| OpeningView::Loading(guard, at),
                after: |result: Result<Recorded, StateErrorView>|
                    opening_from_load(guard, Step::Return(result)),
            };
            assert forall|step: LoadStepView| #[trigger]
                outer_step(loading, step) == opening_from_load(guard, step) by {}
            assert(runs_inside(load_logic(path), opening_logic(path), loading));
            let (loads, loaded) = inner_part(
                load_logic(path),
                opening_logic(path),
                loading,
                load_start(),
                rest,
                opened,
            );
            assert(rest.skip(loads).len() == 0);
            assert(rest.take(loads) =~= rest);
            assert(inner_history(loading, rest) =~= rest);
        },
    }
}

/// What the closing of a transaction comes to: its last two calls release the mutex
/// and close its handle. Before them, an updated state is stored, and nothing else
/// happens after a failed update.
pub proof fn law_closing_outcomes<T, E>(
    path: StatePathView,
    guard: DenyReadAclStateMutexGuard,
    updated: Result<(Recorded, T), UpdateErrorView<E>>,
    history: Seq<(CallView, ReplyView)>,
    result: Result<T, UpdateErrorView<E>>,
)
    requires
        leads_to(
            closing_logic::<T, E>(path),
            closing_start(guard, updated),
            history,
            Step::Return(result),
        ),
    ensures
        history.len() >= 2,
        history[history.len() - 2] == (CallView::ReleaseMutex(guard.handle), ReplyView::Done),
        history[history.len() - 1] == (CallView::CloseHandle(guard.handle), ReplyView::Done),
        match updated {
            Err(error) => history.len() == 2 && result == Err::<T, UpdateErrorView<E>>(error),
            Ok((state, output)) => {
                let storing = history.take(history.len() - 2);
                match result {
                    Ok(value) => {
                        &&& value == output
                        &&& leads_to(
                            store_logic(path),
                            store_start(state),
                            storing,
                            Step::Return(Ok(())),
                        )
                    },
                    Err(UpdateErrorView::State(error)) => leads_to(
                        store_logic(path),
                        store_start(state),
                        storing,
                        Step::Return(Err(error)),
                    ),
                    Err(UpdateErrorView::Update(_)) => false,
                }
            },
        },
{
    match updated {
        Err(error) => {
            released(path, guard, Err(error), history, result);
        },
        Ok((state, output)) => {
            let inside = Inside {
                call: |call: CallView| call,
                inner_call: |call: CallView| call,
                reply: |reply: ReplyView| reply,
                inner_reply: |reply: ReplyView| reply,
                state: |at: StoreView| ClosingView::<T, E>::Storing(guard, at, output),
                after: |stored: Result<(), StateErrorView>|
                    closing_from_store::<T, E>(guard, output, Step::Return(stored)),
            };
            assert forall|step: StoreStepView| #[trigger]
                outer_step(inside, step) == closing_from_store::<T, E>(guard, output, step) by {}
            assert(runs_inside(store_logic(path), closing_logic::<T, E>(path), inside));
            let (count, stored) = inner_part(
                store_logic(path),
                closing_logic::<T, E>(path),
                inside,
                store_start(state),
                history,
                result,
            );
            assert(inner_history(inside, history.take(count)) =~= history.take(count));
            let rest = history.skip(count);
            match stored {
                Ok(unit) => {
                    assert(unit == ());
                    released(path, guard, Ok(output), rest, result);
                },
                Err(error) => {
                    released(path, guard, Err(UpdateErrorView::State(error)), rest, result);
                },
            }
            assert(rest[0] == history[count]);
            assert(rest[1] == history[count + 1]);
        },
    }
}

/// The mutex is released and its handle closed; the result stands.
proof fn released<T, E>(
    path: StatePathView,
    guard: DenyReadAclStateMutexGuard,
    outcome: Result<T, UpdateErrorView<E>>,
    history: Seq<(CallView, ReplyView)>,
    result: Result<T, UpdateErrorView<E>>,
)
    requires
        leads_to(
            closing_logic::<T, E>(path),
            closing_from_release(outcome, release_start(guard.handle)),
            history,
            Step::Return(result),
        ),
    ensures
        history.len() == 2,
        history[0] == (CallView::ReleaseMutex(guard.handle), ReplyView::Done),
        history[1] == (CallView::CloseHandle(guard.handle), ReplyView::Done),
        result == outcome,
{
    reveal_with_fuel(leads_to, 4);
}

/// The outside calls of a transaction.
pub open spec fn system_history<T, E>(
    history: Seq<(UpdateCallView, UpdateReplyView<T, E>)>,
) -> Seq<(CallView, ReplyView)> {
    history.map_values(
        |exchange: (UpdateCallView, UpdateReplyView<T, E>)|
            (exchange.0->System_0, exchange.1->System_0),
    )
}

/// All calls are outside calls.
pub open spec fn all_system<T, E>(
    history: Seq<(UpdateCallView, UpdateReplyView<T, E>)>,
) -> bool {
    forall|i: int|
        0 <= i < history.len() ==> (#[trigger] history[i]).0 is System && history[i].1 is System
}

/// The transaction has these parts: the first `count` calls open it, with the given
/// outcome; a loaded state is updated by the one call after them; the remaining
/// calls close it.
pub open spec fn update_parts<T, E>(
    path: StatePathView,
    mutex_name: Seq<char>,
    history: Seq<(UpdateCallView, UpdateReplyView<T, E>)>,
    result: Result<T, UpdateErrorView<E>>,
    count: int,
    opened: OpenedView,
) -> bool {
    &&& 0 <= count <= history.len()
    &&& all_system(history.take(count))
    &&& leads_to(
        opening_logic(path),
        opening_start(mutex_name),
        system_history(history.take(count)),
        Step::Return(opened),
    )
    &&& match opened {
        OpenedView::NotAcquired(error) => {
            &&& count == history.len()
            &&& result == Err::<T, UpdateErrorView<E>>(
                UpdateErrorView::State(StateErrorView::Mutex(error)),
            )
        },
        OpenedView::NotLoaded(guard, error) => {
            &&& all_system(history.skip(count))
            &&& leads_to(
                closing_logic::<T, E>(path),
                closing_start(guard, Err(UpdateErrorView::State(error))),
                system_history(history.skip(count)),
                Step::Return(result),
            )
        },
        OpenedView::Loaded(guard, state) => {
            &&& count < history.len()
            &&& history[count].0 == UpdateCallView::Update(state)
            &&& history[count].1 is Updated
            &&& all_system(history.skip(count + 1))
            &&& leads_to(
                closing_logic::<T, E>(path),
                closing_start(guard, update_outcome(history[count].1->Updated_0)),
                system_history(history.skip(count + 1)),
                Step::Return(result),
            )
        },
    }
}

/// While a transaction closes, its calls are those of the closing.
proof fn closing_within_update<T, E>(
    path: StatePathView,
    step: ClosingStepView<T, E>,
    history: Seq<(UpdateCallView, UpdateReplyView<T, E>)>,
    result: Result<T, UpdateErrorView<E>>,
)
    requires
        leads_to(
            update_logic::<T, E>(path),
            update_from_closing(step),
            history,
            Step::Return(result),
        ),
    ensures
        all_system(history),
        leads_to(
            closing_logic::<T, E>(path),
            step,
            system_history(history),
            Step::Return(result),
        ),
{
    let inside = Inside {
        call: |call: CallView| UpdateCallView::System(call),
        inner_call: |call: UpdateCallView| call->System_0,
        reply: |reply: ReplyView| UpdateReplyView::<T, E>::System(reply),
        inner_reply: |reply: UpdateReplyView<T, E>| reply->System_0,
        state: |at: ClosingView<T, E>| UpdateStateView::Closing(at),
        after: |outcome: Result<T, UpdateErrorView<E>>|
            update_from_closing(Step::Return(outcome)),
    };
    assert forall|step: ClosingStepView<T, E>| #[trigger]
        outer_step(inside, step) == update_from_closing(step) by {}
    assert(runs_inside(closing_logic::<T, E>(path), update_logic::<T, E>(path), inside));
    let (count, outcome) = inner_part(
        closing_logic::<T, E>(path),
        update_logic::<T, E>(path),
        inside,
        step,
        history,
        result,
    );
    assert(history.skip(count).len() == 0);
    assert(history.take(count) =~= history);
    assert(inner_history(inside, history) =~= system_history(history));
}

/// Every finished transaction has its parts in this order: it opens, updates a
/// loaded state once, and closes.
pub proof fn law_update_parts<T, E>(
    path: StatePathView,
    mutex_name: Seq<char>,
    history: Seq<(UpdateCallView, UpdateReplyView<T, E>)>,
    result: Result<T, UpdateErrorView<E>>,
) -> (parts: (int, OpenedView))
    requires
        leads_to(
            update_logic::<T, E>(path),
            update_start(mutex_name),
            history,
            Step::Return(result),
        ),
    ensures
        update_parts(path, mutex_name, history, result, parts.0, parts.1),
{
    let logic = update_logic::<T, E>(path);
    let inside = Inside {
        call: |call: CallView| UpdateCallView::System(call),
        inner_call: |call: UpdateCallView| call->System_0,
        reply: |reply: ReplyView| UpdateReplyView::<T, E>::System(reply),
        inner_reply: |reply: UpdateReplyView<T, E>| reply->System_0,
        state: |at: OpeningView| UpdateStateView::<T, E>::Opening(at),
        after: |opened: OpenedView| update_from_opening::<T, E>(Step::Return(opened)),
    };
    assert forall|step: OpeningStepView| #[trigger]
        outer_step(inside, step) == update_from_opening::<T, E>(step) by {}
    assert(runs_inside(opening_logic(path), logic, inside));
    let (count, opened) = inner_part(
        opening_logic(path),
        logic,
        inside,
        opening_start(mutex_name),
        history,
        result,
    );
    let first = history.take(count);
    let rest = history.skip(count);
    assert(inner_history(inside, first) =~= system_history(first));
    assert forall|i: int| 0 <= i < first.len() implies (#[trigger] first[i]).0 is System
        && first[i].1 is System by {
        assert(history[i] == first[i]);
    }
    match opened {
        OpenedView::NotAcquired(error) => {
            assert(rest.len() == 0);
        },
        OpenedView::NotLoaded(guard, error) => {
            closing_within_update(
                path,
                closing_start(guard, Err(UpdateErrorView::State(error))),
                rest,
                result,
            );
        },
        OpenedView::Loaded(guard, state) => {
            assert(rest.len() > 0);
            assert(rest[0] == history[count]);
            let reply = rest[0].1;
            let at = UpdateStateView::<T, E>::Updating(guard);
            assert((logic.fits)(at, reply));
            assert((logic.next)(at, reply) == update_from_closing(
                closing_start(guard, update_outcome(reply->Updated_0)),
            ));
            assert(rest.drop_first() =~= history.skip(count + 1));
            closing_within_update(
                path,
                closing_start(guard, update_outcome(reply->Updated_0)),
                rest.drop_first(),
                result,
            );
        },
    }
    (count, opened)
}

/// The call is an outside call that is on the mutex.
pub open spec fn update_on_mutex(call: UpdateCallView) -> bool {
    call is System && on_mutex(call->System_0)
}

/// The call put a temporary file in the place of the state file.
pub open spec fn update_installs<T, E>(exchange: (UpdateCallView, UpdateReplyView<T, E>)) -> bool {
    &&& exchange.0 is System
    &&& exchange.1 is System
    &&& installs((exchange.0->System_0, exchange.1->System_0))
}

/// A part of a transaction that starts at `from` and consists of outside calls.
proof fn system_part<T, E>(
    history: Seq<(UpdateCallView, UpdateReplyView<T, E>)>,
    from: int,
    part: Seq<(UpdateCallView, UpdateReplyView<T, E>)>,
    i: int,
)
    requires
        0 <= from,
        from + part.len() <= history.len(),
        part == history.subrange(from, from + part.len()),
        all_system(part),
        0 <= i < part.len(),
    ensures
        history[from + i].0 == UpdateCallView::System(system_history(part)[i].0),
        update_on_mutex(history[from + i].0) == on_mutex(system_history(part)[i].0),
        update_installs(history[from + i]) == installs(system_history(part)[i]),
{
    assert(part[i] == history[from + i]);
}

/// A whole transaction is one critical section. Without the mutex it makes no call
/// but those that try to get it. Else its first two calls acquire the mutex, its
/// last two release it and close its handle, and every call between them, the
/// update among them, leaves the mutex alone.
pub proof fn law_update_is_one_critical_section<T, E>(
    path: StatePathView,
    mutex_name: Seq<char>,
    history: Seq<(UpdateCallView, UpdateReplyView<T, E>)>,
    result: Result<T, UpdateErrorView<E>>,
)
    requires
        leads_to(
            update_logic::<T, E>(path),
            update_start(mutex_name),
            history,
            Step::Return(result),
        ),
    ensures
        match result {
            Err(UpdateErrorView::State(StateErrorView::Mutex(_))) => forall|i: int|
                0 <= i < history.len() ==> update_on_mutex((#[trigger] history[i]).0)
                    || history[i].0 == UpdateCallView::System(CallView::LastError),
            _ => {
                let last = history.len() - 1;
                &&& last >= 3
                &&& history[0].0 == UpdateCallView::System(CallView::CreateMutex(mutex_name))
                &&& exists|handle: isize| #[trigger]
                    held_between(history[1].0, history[last - 1].0, history[last].0, handle)
                &&& forall|i: int|
                    2 <= i < last - 1 ==> !update_on_mutex((#[trigger] history[i]).0)
            },
        },
{
    let (count, opened) = law_update_parts(path, mutex_name, history, result);
    let opening = history.take(count);
    let opening_calls = system_history(opening);
    let last = history.len() - 1;
    law_opening_outcomes(path, mutex_name, opening_calls, opened);
    assert(opening == history.subrange(0, opening.len() as int));
    match opened {
        OpenedView::NotAcquired(error) => {
            law_acquire_outcomes(mutex_name, opening_calls, Err(error));
            assert forall|i: int| 0 <= i < history.len() implies update_on_mutex(
                (#[trigger] history[i]).0,
            ) || history[i].0 == UpdateCallView::System(CallView::LastError) by {
                system_part(history, 0, opening, i);
            }
        },
        OpenedView::NotLoaded(guard, error) => {
            law_acquire_outcomes(mutex_name, opening_calls.take(2), Ok(guard));
            law_load_outcomes(path, opening_calls.skip(2), Err(error));
            every_call(
                load_logic(path),
                |call: CallView| !on_mutex(call),
                load_start(),
                opening_calls.skip(2),
                Err(error),
            );
            let rest = history.skip(count);
            assert(rest == history.subrange(count, count + rest.len()));
            law_closing_outcomes::<T, E>(
                path,
                guard,
                Err(UpdateErrorView::State(error)),
                system_history(rest),
                result,
            );
            system_part(history, 0, opening, 0);
            system_part(history, 0, opening, 1);
            system_part(history, count, rest, 0);
            system_part(history, count, rest, 1);
            assert(held_between(
                history[1].0,
                history[last - 1].0,
                history[last].0,
                guard.handle,
            ));
            assert forall|i: int| 2 <= i < last - 1 implies !update_on_mutex(
                (#[trigger] history[i]).0,
            ) by {
                system_part(history, 0, opening, i);
                assert(opening_calls[i] == opening_calls.skip(2)[i - 2]);
            }
        },
        OpenedView::Loaded(guard, state) => {
            law_acquire_outcomes(mutex_name, opening_calls.take(2), Ok(guard));
            every_call(
                load_logic(path),
                |call: CallView| !on_mutex(call),
                load_start(),
                opening_calls.skip(2),
                Ok(state),
            );
            let rest = history.skip(count + 1);
            let closing = system_history(rest);
            let updated = update_outcome(history[count].1->Updated_0);
            assert(rest == history.subrange(count + 1, count + 1 + rest.len()));
            law_closing_outcomes::<T, E>(path, guard, updated, closing, result);
            let size = closing.len() as int;
            system_part(history, 0, opening, 0);
            system_part(history, 0, opening, 1);
            system_part(history, count + 1, rest, size - 2);
            system_part(history, count + 1, rest, size - 1);
            assert(held_between(
                history[1].0,
                history[last - 1].0,
                history[last].0,
                guard.handle,
            ));
            let storing = closing.take(size - 2);
            if updated is Ok {
                let stored: Result<(), StateErrorView> = match result {
                    Err(UpdateErrorView::State(error)) => Err(error),
                    _ => Ok(()),
                };
                every_call(
                    store_logic(path),
                    |call: CallView| !on_mutex(call),
                    store_start(updated->Ok_0.0),
                    storing,
                    stored,
                );
                law_store_outcomes(path, updated->Ok_0.0, storing, stored);
                let installing = storing.subrange(6, storing.len() - 1);
                if leads_to(install_logic(), install_start(), installing, Step::Return(stored)) {
                    law_install_outcomes(installing, stored);
                }
            }
            assert forall|i: int| 2 <= i < last - 1 implies !update_on_mutex(
                (#[trigger] history[i]).0,
            ) by {
                if i < count {
                    system_part(history, 0, opening, i);
                    assert(opening_calls[i] == opening_calls.skip(2)[i - 2]);
                } else if i > count {
                    system_part(history, count + 1, rest, i - count - 1);
                    assert(closing[i - count - 1] == storing[i - count - 1]);
                }
            }
        },
    }
}

/// The mutex behind the handle is waited for, and later released and closed.
pub open spec fn held_between(
    wait: UpdateCallView,
    release: UpdateCallView,
    close: UpdateCallView,
    handle: isize,
) -> bool {
    &&& wait == UpdateCallView::System(CallView::WaitForMutex(handle))
    &&& release == UpdateCallView::System(CallView::ReleaseMutex(handle))
    &&& close == UpdateCallView::System(CallView::CloseHandle(handle))
}

/// The transaction updated its state at call `at` to the given one with the given
/// output, and then wrote the bytes of exactly that state to a temporary file.
pub open spec fn wrote_update<T, E>(
    history: Seq<(UpdateCallView, UpdateReplyView<T, E>)>,
    at: int,
    state: Recorded,
    output: T,
    bytes: Seq<u8>,
) -> bool {
    &&& 0 <= at < history.len()
    &&& history[at].0 is Update
    &&& history[at].1 == UpdateReplyView::<T, E>::Updated(Ok((state, output)))
    &&& prepared(state, bytes, system_history(history.skip(at + 1)))
}

/// The state file is replaced exactly where the transaction succeeds; its output is
/// then that of the update, and the file holds the bytes of the updated state.
pub proof fn law_state_file_is_replaced_only_on_success<T, E>(
    path: StatePathView,
    mutex_name: Seq<char>,
    history: Seq<(UpdateCallView, UpdateReplyView<T, E>)>,
    result: Result<T, UpdateErrorView<E>>,
)
    requires
        leads_to(
            update_logic::<T, E>(path),
            update_start(mutex_name),
            history,
            Step::Return(result),
        ),
    ensures
        result is Ok <==> exists|i: int|
            0 <= i < history.len() && update_installs(#[trigger] history[i]),
        result matches Ok(output) ==> exists|at: int, state: Recorded, bytes: Seq<u8>| #[trigger]
            wrote_update(history, at, state, output, bytes),
{
    let (count, opened) = law_update_parts(path, mutex_name, history, result);
    let opening = history.take(count);
    let opening_calls = system_history(opening);
    law_opening_outcomes(path, mutex_name, opening_calls, opened);
    assert(opening == history.subrange(0, opening.len() as int));
    assert forall|i: int| 0 <= i < count implies !update_installs(#[trigger] history[i]) by {
        system_part(history, 0, opening, i);
        match opened {
            OpenedView::NotAcquired(error) => {
                law_acquire_outcomes(mutex_name, opening_calls, Err(error));
            },
            OpenedView::NotLoaded(guard, error) => {
                law_acquire_outcomes(mutex_name, opening_calls.take(2), Ok(guard));
                every_call(
                    load_logic(path),
                    |call: CallView| !may_install(call),
                    load_start(),
                    opening_calls.skip(2),
                    Err(error),
                );
            },
            OpenedView::Loaded(guard, state) => {
                law_acquire_outcomes(mutex_name, opening_calls.take(2), Ok(guard));
                every_call(
                    load_logic(path),
                    |call: CallView| !may_install(call),
                    load_start(),
                    opening_calls.skip(2),
                    Ok(state),
                );
            },
        }
        if !(opened is NotAcquired) {
            if i < 2 {
                assert(opening_calls[i] == opening_calls.take(2)[i]);
            } else {
                assert(opening_calls[i] == opening_calls.skip(2)[i - 2]);
            }
        }
    }
    match opened {
        OpenedView::NotAcquired(_) => {},
        OpenedView::NotLoaded(guard, error) => {
            let rest = history.skip(count);
            assert(rest == history.subrange(count, count + rest.len()));
            law_closing_outcomes::<T, E>(
                path,
                guard,
                Err(UpdateErrorView::State(error)),
                system_history(rest),
                result,
            );
            assert forall|i: int| count <= i < history.len() implies !update_installs(
                #[trigger] history[i],
            ) by {
                system_part(history, count, rest, i - count);
            }
        },
        OpenedView::Loaded(guard, state) => {
            let rest = history.skip(count + 1);
            let closing = system_history(rest);
            let updated = update_outcome(history[count].1->Updated_0);
            let size = closing.len() as int;
            let storing = closing.take(size - 2);
            assert(rest == history.subrange(count + 1, count + 1 + rest.len()));
            law_closing_outcomes::<T, E>(path, guard, updated, closing, result);
            if updated is Ok {
                let stored: Result<(), StateErrorView> = match result {
                    Err(UpdateErrorView::State(error)) => Err(error),
                    _ => Ok(()),
                };
                let new_state = updated->Ok_0.0;
                law_store_installs_what_it_serialized(path, new_state, storing, stored);
                if result is Ok {
                    let bytes = storing[0].1->Bytes_0;
                    assert forall|i: int| 0 <= i < 6 implies #[trigger] closing[i] == preparation(
                        new_state,
                        bytes,
                    )[i] by {
                        assert(storing[i] == closing[i]);
                    }
                    assert(wrote_update(history, count, new_state, result->Ok_0, bytes));
                    let k = storing.len() - 2;
                    system_part(history, count + 1, rest, k);
                    assert(closing[k] == storing[k]);
                    assert(update_installs(history[count + 1 + k]));
                }
            }
            assert forall|i: int| count < i < history.len() && result is Err implies
                !update_installs(#[trigger] history[i]) by {
                let k = i - count - 1;
                system_part(history, count + 1, rest, k);
                if k < size - 2 {
                    assert(closing[k] == storing[k]);
                }
            }
        },
    }
}

/// A failed update stores nothing. Its error is the result, and exactly its error
/// is; after it the transaction only releases the mutex and closes its handle.
pub proof fn law_failed_update_stores_nothing<T, E>(
    path: StatePathView,
    mutex_name: Seq<char>,
    history: Seq<(UpdateCallView, UpdateReplyView<T, E>)>,
    result: Result<T, UpdateErrorView<E>>,
    error: E,
)
    requires
        leads_to(
            update_logic::<T, E>(path),
            update_start(mutex_name),
            history,
            Step::Return(result),
        ),
    ensures
        result == Err::<T, UpdateErrorView<E>>(UpdateErrorView::Update(error)) <==> exists|at: int|
            0 <= at < history.len() && (#[trigger] history[at]).1 == UpdateReplyView::<
                T,
                E,
            >::Updated(Err(error)),
        forall|at: int|
            0 <= at < history.len() && (#[trigger] history[at]).1 == UpdateReplyView::<
                T,
                E,
            >::Updated(Err(error)) ==> at == history.len() - 3,
{
    let (count, opened) = law_update_parts(path, mutex_name, history, result);
    let opening = history.take(count);
    assert forall|at: int| 0 <= at < count implies !((#[trigger] history[at]).1 is Updated) by {
        assert(opening[at] == history[at]);
    }
    match opened {
        OpenedView::NotAcquired(_) => {},
        OpenedView::NotLoaded(guard, cause) => {
            let rest = history.skip(count);
            law_closing_outcomes::<T, E>(
                path,
                guard,
                Err(UpdateErrorView::State(cause)),
                system_history(rest),
                result,
            );
            assert forall|at: int| count <= at < history.len() implies !((#[trigger]
            history[at]).1 is Updated) by {
                assert(rest[at - count] == history[at]);
            }
        },
        OpenedView::Loaded(guard, state) => {
            let rest = history.skip(count + 1);
            law_closing_outcomes::<T, E>(
                path,
                guard,
                update_outcome(history[count].1->Updated_0),
                system_history(rest),
                result,
            );
            assert forall|at: int| count < at < history.len() implies !((#[trigger]
            history[at]).1 is Updated) by {
                assert(rest[at - count - 1] == history[at]);
            }
            if history[count].1 == UpdateReplyView::<T, E>::Updated(Err(error)) {
                assert(history.len() == count + 3);
            }
        },
    }
}

/// An invalid state file never stops a transaction. Where the bytes that it read
/// cannot be parsed, it puts them aside, and then goes on with an update that is
/// given the empty state. Its error, if any, is that of the update or of the store.
pub proof fn law_invalid_state_is_put_aside_and_replaced<T, E>(
    path: StatePathView,
    mutex_name: Seq<char>,
    history: Seq<(UpdateCallView, UpdateReplyView<T, E>)>,
    result: Result<T, UpdateErrorView<E>>,
    bytes: Seq<u8>,
    failure: FailureView,
) -> (at: int)
    requires
        leads_to(
            update_logic::<T, E>(path),
            update_start(mutex_name),
            history,
            Step::Return(result),
        ),
        history.contains(
            (
                UpdateCallView::System(CallView::ParseState(bytes)),
                UpdateReplyView::<T, E>::System(ReplyView::Failed(failure)),
            ),
        ),
    ensures
        5 <= at < history.len(),
        history[at].0 == UpdateCallView::Update(Map::empty()),
        all_system(history.subrange(5, at)),
        leads_to(
            quarantine_logic(path),
            quarantine_start(path, bytes, failure.text),
            system_history(history.subrange(5, at)),
            Step::Return(()),
        ),
        result matches Err(UpdateErrorView::State(error)) ==> !(error is Mutex) && !(error is Read),
{
    let (count, opened) = law_update_parts(path, mutex_name, history, result);
    let opening = history.take(count);
    let calls = system_history(opening);
    let failed = (
        UpdateCallView::System(CallView::ParseState(bytes)),
        UpdateReplyView::<T, E>::System(ReplyView::Failed(failure)),
    );
    let i = choose|i: int| 0 <= i < history.len() && history[i] == failed;
    law_opening_outcomes(path, mutex_name, calls, opened);
    match opened {
        OpenedView::NotAcquired(error) => {
            law_acquire_outcomes(mutex_name, calls, Err(error));
            assert(opening[i] == history[i]);
            assert(calls[i] == (CallView::ParseState(bytes), ReplyView::Failed(failure)));
        },
        OpenedView::NotLoaded(guard, error) => {
            let rest = history.skip(count);
            let loading = calls.skip(2);
            law_acquire_outcomes(mutex_name, calls.take(2), Ok(guard));
            law_load_outcomes(path, loading, Err(error));
            law_closing_outcomes::<T, E>(
                path,
                guard,
                Err(UpdateErrorView::State(error)),
                system_history(rest),
                result,
            );
            if i < count {
                assert(opening[i] == history[i]);
                if i < 2 {
                    assert(calls.take(2)[i] == calls[i]);
                } else {
                    assert(loading[i - 2] == calls[i]);
                }
            } else {
                assert(rest[i - count] == history[i]);
                assert(system_history(rest)[i - count] == (
                    CallView::ParseState(bytes),
                    ReplyView::Failed(failure),
                ));
            }
        },
        OpenedView::Loaded(guard, state) => {
            let rest = history.skip(count + 1);
            let closing = system_history(rest);
            let loading = calls.skip(2);
            let updated = update_outcome(history[count].1->Updated_0);
            law_acquire_outcomes(mutex_name, calls.take(2), Ok(guard));
            law_load_outcomes(path, loading, Ok(state));
            law_closing_outcomes::<T, E>(path, guard, updated, closing, result);
            if updated is Ok {
                let storing = closing.take(closing.len() - 2);
                let stored: Result<(), StateErrorView> = match result {
                    Err(UpdateErrorView::State(error)) => Err(error),
                    _ => Ok(()),
                };
                every_call(
                    store_logic(path),
                    |call: CallView| !(call is ParseState),
                    store_start(updated->Ok_0.0),
                    storing,
                    stored,
                );
                law_store_outcomes(path, updated->Ok_0.0, storing, stored);
                let installing = storing.subrange(6, storing.len() - 1);
                if leads_to(install_logic(), install_start(), installing, Step::Return(stored)) {
                    law_install_outcomes(installing, stored);
                }
            }
            if i > count {
                let k = i - count - 1;
                assert(rest[k] == history[i]);
                assert(closing[k] == (CallView::ParseState(bytes), ReplyView::Failed(failure)));
                if k < closing.len() - 2 {
                    assert(closing.take(closing.len() - 2)[k] == closing[k]);
                }
            }
            assert(opening[i] == history[i]);
            assert(calls[i] == (CallView::ParseState(bytes), ReplyView::Failed(failure)));
            if i < 2 {
                assert(calls.take(2)[i] == calls[i]);
            }
            assert(2 <= i < count);
            assert(loading[i - 2] == calls[i]);
            assert(read_outcome(loading).0 is Ok);
            let quarantine = loading.skip(3);
            if i > 4 {
                assert(loading[2].1 is Failed);
                assert(quarantine[i - 5] == calls[i]);
                every_call(
                    quarantine_logic(path),
                    |call: CallView| !(call is ParseState),
                    quarantine_start(path, loading[2].0->ParseState_0, loading[2].1->Failed_0.text),
                    quarantine,
                    (),
                );
            }
            assert(i == 4);
            assert(system_history(history.subrange(5, count)) =~= quarantine);
            assert forall|k: int| 0 <= k < history.subrange(5, count).len() implies (#[trigger]
            history.subrange(5, count)[k]).0 is System && history.subrange(
                5,
                count,
            )[k].1 is System by {
                assert(history.subrange(5, count)[k] == opening[k + 5]);
            }
        },
    }
    count
}

/// What was stored is what is loaded. Where parsing inverts serialization, and the
/// file that is read holds the bytes that a successful store put into it, the load
/// gives back exactly the stored state.
pub proof fn law_load_gives_back_what_was_stored(
    path: StatePathView,
    parse: spec_fn(Seq<u8>) -> Option<Recorded>,
    state: Recorded,
    storing: Seq<(CallView, ReplyView)>,
    loading: Seq<(CallView, ReplyView)>,
    loaded: Result<Recorded, StateErrorView>,
)
    requires
        leads_to(store_logic(path), store_start(state), storing, Step::Return(Ok(()))),
        leads_to(load_logic(path), load_start(), loading, Step::Return(loaded)),
        storing[0].1 matches ReplyView::Bytes(bytes) ==> parse(bytes) == Some(state),
        storing[2].0 matches CallView::WriteTemporary(bytes) ==> read_outcome(loading).0 == Ok::<
            Seq<u8>,
            FailureView,
        >(bytes),
        loading[2].0 matches CallView::ParseState(bytes) ==> match parse(bytes) {
            Some(parsed) => loading[2].1 == ReplyView::Parsed(parsed),
            None => loading[2].1 is Failed,
        },
    ensures
        loaded == Ok::<Recorded, StateErrorView>(state),
{
    law_store_installs_what_it_serialized(path, state, storing, Ok(()));
    law_load_outcomes(path, loading, loaded);
}

/// Opening, closing and the whole transaction as pieces of logic go on as they do when
/// they are resumed, and accept the replies that they wait for.
pub proof fn law_transaction_logic_is_what_is_resumed<T, E>(
    path: StatePathView,
    opening: OpeningView,
    closing: ClosingView<T, E>,
    at: UpdateStateView<T, E>,
    reply: ReplyView,
    answer: UpdateReplyView<T, E>,
)
    ensures
        (opening_logic(path).next)(opening, reply) == opening_next(path, opening, reply),
        (opening_logic(path).fits)(opening, reply) == reply_fits(opening_expects(opening), reply),
        (closing_logic::<T, E>(path).next)(closing, reply) == closing_next(path, closing, reply),
        (closing_logic::<T, E>(path).fits)(closing, reply) == reply_fits(
            closing_expects(closing),
            reply,
        ),
        (update_logic::<T, E>(path).next)(at, answer) == update_next(path, at, answer),
        (update_logic::<T, E>(path).fits)(at, answer) == update_fits(at, answer),
{
}

/// Every opening comes to its end: where the mutex is not acquired, that is the outcome;
/// else the state is loaded, and the outcome is what the load comes to.
pub proof fn law_every_opening_ends(
    path: StatePathView,
    mutex_name: Seq<char>,
    acquiring: Seq<(CallView, ReplyView)>,
    acquired: Result<DenyReadAclStateMutexGuard, MutexError>,
    loading: Seq<(CallView, ReplyView)>,
    loaded: Result<Recorded, StateErrorView>,
)
    requires
        leads_to(acquire_logic(), acquire_start(mutex_name), acquiring, Step::Return(acquired)),
        leads_to(load_logic(path), load_start(), loading, Step::Return(loaded)),
    ensures
        match acquired {
            Err(error) => leads_to(
                opening_logic(path),
                opening_start(mutex_name),
                acquiring,
                Step::Return(OpenedView::NotAcquired(error)),
            ),
            Ok(guard) => leads_to(
                opening_logic(path),
                opening_start(mutex_name),
                acquiring + loading,
                Step::Return(
                    match loaded {
                        Ok(state) => OpenedView::Loaded(guard, state),
                        Err(error) => OpenedView::NotLoaded(guard, error),
                    },
                ),
            ),
        },
{
    let logic = opening_logic(path);
    let inside = Inside {
        call: |call: CallView| call,
        inner_call: |call: CallView| call,
        reply: |reply: ReplyView| reply,
        inner_reply: |reply: ReplyView| reply,
        state: |at: AcquireState| OpeningView::Acquiring(at),
        after: |result: Result<DenyReadAclStateMutexGuard, MutexError>|
            opening_from_acquire(Step::Return(result)),
    };
    assert forall|step: AcquireStepView| #[trigger]
        outer_step(inside, step) == opening_from_acquire(step) by {}
    let start = acquire_start(mutex_name);
    match acquired {
        Err(error) => {
            let end: OpeningStepView = Step::Return(OpenedView::NotAcquired(error));
            outer_part(
                acquire_logic(),
                logic,
                inside,
                start,
                acquiring,
                acquired,
                Seq::empty(),
                end,
            );
            assert(outer_history(inside, acquiring) + Seq::empty() =~= acquiring);
        },
        Ok(guard) => {
            let reading = Inside {
                call: |call: CallView| call,
                inner_call: |call: CallView| call,
                reply: |reply: ReplyView| reply,
                inner_reply: |reply: ReplyView| reply,
                state: |at: LoadView| OpeningView::Loading(guard, at),
                after: |result: Result<Recorded, StateErrorView>|
                    opening_from_load(guard, Step::Return(result)),
            };
            assert forall|step: LoadStepView| #[trigger]
                outer_step(reading, step) == opening_from_load(guard, step) by {}
            let end = opening_from_load(guard, Step::Return(loaded));
            outer_part(
                load_logic(path),
                logic,
                reading,
                load_start(),
                loading,
                loaded,
                Seq::empty(),
                end,
            );
            assert(outer_history(reading, loading) + Seq::empty() =~= loading);
            outer_part(acquire_logic(), logic, inside, start, acquiring, acquired, loading, end);
            assert(outer_history(inside, acquiring) + loading =~= acquiring + loading);
        },
    }
}

/// Every closing comes to its end. An updated state is stored first, and the store
/// decides between the output and its error; a failed update is itself the result. Either
/// way the mutex is released and its handle closed.
pub proof fn law_every_closing_ends<T, E>(
    path: StatePathView,
    guard: DenyReadAclStateMutexGuard,
    error: UpdateErrorView<E>,
    state: Recorded,
    output: T,
    storing: Seq<(CallView, ReplyView)>,
    stored: Result<(), StateErrorView>,
)
    requires
        leads_to(store_logic(path), store_start(state), storing, Step::Return(stored)),
    ensures
        ({
            let release = seq![
                (CallView::ReleaseMutex(guard.handle), ReplyView::Done),
                (CallView::CloseHandle(guard.handle), ReplyView::Done),
            ];
            let result: Result<T, UpdateErrorView<E>> = match stored {
                Ok(_) => Ok(output),
                Err(cause) => Err(UpdateErrorView::State(cause)),
            };
            &&& leads_to(
                closing_logic::<T, E>(path),
                closing_start(guard, Err(error)),
                release,
                Step::Return(Err(error)),
            )
            &&& leads_to(
                closing_logic::<T, E>(path),
                closing_start(guard, Ok((state, output))),
                storing + release,
                Step::Return(result),
            )
        }),
{
    let logic = closing_logic::<T, E>(path);
    let release = seq![
        (CallView::ReleaseMutex(guard.handle), ReplyView::Done),
        (CallView::CloseHandle(guard.handle), ReplyView::Done),
    ];
    let result: Result<T, UpdateErrorView<E>> = match stored {
        Ok(_) => Ok(output),
        Err(cause) => Err(UpdateErrorView::State(cause)),
    };
    let inside = Inside {
        call: |call: CallView| call,
        inner_call: |call: CallView| call,
        reply: |reply: ReplyView| reply,
        inner_reply: |reply: ReplyView| reply,
        state: |at: StoreView| ClosingView::<T, E>::Storing(guard, at, output),
        after: |stored: Result<(), StateErrorView>|
            closing_from_store::<T, E>(guard, output, Step::Return(stored)),
    };
    assert forall|step: StoreStepView| #[trigger]
        outer_step(inside, step) == closing_from_store::<T, E>(guard, output, step) by {}
    release_ends::<T, E>(path, guard, Err(error));
    release_ends::<T, E>(path, guard, result);
    outer_part(
        store_logic(path),
        logic,
        inside,
        store_start(state),
        storing,
        stored,
        release,
        Step::Return(result),
    );
    assert(outer_history(inside, storing) + release =~= storing + release);
}

/// While a closing releases the mutex it comes to its end.
proof fn release_ends<T, E>(
    path: StatePathView,
    guard: DenyReadAclStateMutexGuard,
    result: Result<T, UpdateErrorView<E>>,
)
    ensures
        leads_to(
            closing_logic::<T, E>(path),
            closing_from_release(result, release_start(guard.handle)),
            seq![
                (CallView::ReleaseMutex(guard.handle), ReplyView::Done),
                (CallView::CloseHandle(guard.handle), ReplyView::Done),
            ],
            Step::Return(result),
        ),
{
    reveal_with_fuel(leads_to, 3);
}

/// Outside calls as calls of a transaction.
pub open spec fn as_transaction_calls<T, E>(history: Seq<(CallView, ReplyView)>) -> Seq<
    (UpdateCallView, UpdateReplyView<T, E>),
> {
    history.map_values(
        |exchange: (CallView, ReplyView)|
            (
                UpdateCallView::System(exchange.0),
                UpdateReplyView::<T, E>::System(exchange.1),
            ),
    )
}

/// Outside calls are the same calls with the same replies in a transaction.
pub proof fn law_transaction_calls_are_the_outside_calls<T, E>(
    history: Seq<(CallView, ReplyView)>,
)
    ensures
        as_transaction_calls::<T, E>(history).len() == history.len(),
        forall|i: int|
            0 <= i < history.len() ==> #[trigger] as_transaction_calls::<T, E>(history)[i] == (
                UpdateCallView::System(history[i].0),
                UpdateReplyView::<T, E>::System(history[i].1),
            ),
{
}

/// While a transaction closes it does what the closing does.
proof fn closing_in_update<T, E>(
    path: StatePathView,
    step: ClosingStepView<T, E>,
    history: Seq<(CallView, ReplyView)>,
    result: Result<T, UpdateErrorView<E>>,
)
    requires
        leads_to(closing_logic::<T, E>(path), step, history, Step::Return(result)),
    ensures
        leads_to(
            update_logic::<T, E>(path),
            update_from_closing(step),
            as_transaction_calls(history),
            Step::Return(result),
        ),
{
    let inside = Inside {
        call: |call: CallView| UpdateCallView::System(call),
        inner_call: |call: UpdateCallView| call->System_0,
        reply: |reply: ReplyView| UpdateReplyView::<T, E>::System(reply),
        inner_reply: |reply: UpdateReplyView<T, E>| reply->System_0,
        state: |at: ClosingView<T, E>| UpdateStateView::Closing(at),
        after: |outcome: Result<T, UpdateErrorView<E>>|
            update_from_closing(Step::Return(outcome)),
    };
    assert forall|step: ClosingStepView<T, E>| #[trigger]
        outer_step(inside, step) == update_from_closing(step) by {}
    outer_part(
        closing_logic::<T, E>(path),
        update_logic::<T, E>(path),
        inside,
        step,
        history,
        result,
        Seq::empty(),
        Step::Return(result),
    );
    assert(outer_history(inside, history) + Seq::empty() =~= as_transaction_calls::<T, E>(history));
}

/// Every transaction comes to its end, whatever its parts come to. Without the mutex, its
/// error is the result. Else the state is loaded. Where that fails, its error is the
/// result; where it does not, the update is given exactly the loaded state. Where the
/// update fails, its error is the result; where it does not, exactly the state that it
/// returned is stored, and the result is its output, or the error of the store. Once
/// acquired, the mutex is released and its handle closed in the end.
pub proof fn law_every_transaction_ends<T, E>(
    path: StatePathView,
    mutex_name: Seq<char>,
    acquiring: Seq<(CallView, ReplyView)>,
    acquired: Result<DenyReadAclStateMutexGuard, MutexError>,
    loading: Seq<(CallView, ReplyView)>,
    loaded: Result<Recorded, StateErrorView>,
    error: E,
    state: Recorded,
    output: T,
    storing: Seq<(CallView, ReplyView)>,
    stored: Result<(), StateErrorView>,
)
    requires
        leads_to(acquire_logic(), acquire_start(mutex_name), acquiring, Step::Return(acquired)),
        leads_to(load_logic(path), load_start(), loading, Step::Return(loaded)),
        leads_to(store_logic(path), store_start(state), storing, Step::Return(stored)),
    ensures
        match acquired {
            Err(cause) => leads_to(
                update_logic::<T, E>(path),
                update_start(mutex_name),
                as_transaction_calls(acquiring),
                Step::Return(Err(UpdateErrorView::State(StateErrorView::Mutex(cause)))),
            ),
            Ok(guard) => {
                let release = seq![
                    (CallView::ReleaseMutex(guard.handle), ReplyView::Done),
                    (CallView::CloseHandle(guard.handle), ReplyView::Done),
                ];
                match loaded {
                    Err(cause) => leads_to(
                        update_logic::<T, E>(path),
                        update_start(mutex_name),
                        as_transaction_calls(acquiring + loading) + as_transaction_calls(release),
                        Step::Return(Err(UpdateErrorView::State(cause))),
                    ),
                    Ok(given) => {
                        let failing = (
                            UpdateCallView::Update(given),
                            UpdateReplyView::<T, E>::Updated(Err(error)),
                        );
                        let updating = (
                            UpdateCallView::Update(given),
                            UpdateReplyView::<T, E>::Updated(Ok((state, output))),
                        );
                        let result: Result<T, UpdateErrorView<E>> = match stored {
                            Ok(_) => Ok(output),
                            Err(cause) => Err(UpdateErrorView::State(cause)),
                        };
                        &&& leads_to(
                            update_logic::<T, E>(path),
                            update_start(mutex_name),
                            as_transaction_calls(acquiring + loading) + seq![failing]
                                + as_transaction_calls(release),
                            Step::Return(Err(UpdateErrorView::Update(error))),
                        )
                        &&& leads_to(
                            update_logic::<T, E>(path),
                            update_start(mutex_name),
                            as_transaction_calls(acquiring + loading) + seq![updating]
                                + as_transaction_calls(storing + release),
                            Step::Return(result),
                        )
                    },
                }
            },
        },
{
    let logic = update_logic::<T, E>(path);
    law_every_opening_ends(path, mutex_name, acquiring, acquired, loading, loaded);
    let start = opening_start(mutex_name);
    match acquired {
        Err(cause) => {
            opening_in_update::<T, E>(
                path,
                start,
                acquiring,
                OpenedView::NotAcquired(cause),
                Seq::empty(),
                Err(UpdateErrorView::State(StateErrorView::Mutex(cause))),
            );
            assert(as_transaction_calls::<T, E>(acquiring) + Seq::empty()
                =~= as_transaction_calls::<T, E>(acquiring));
        },
        Ok(guard) => {
            let release = seq![
                (CallView::ReleaseMutex(guard.handle), ReplyView::Done),
                (CallView::CloseHandle(guard.handle), ReplyView::Done),
            ];
            match loaded {
                Err(cause) => {
                    let failed: Result<T, UpdateErrorView<E>> = Err(UpdateErrorView::State(cause));
                    law_every_closing_ends::<T, E>(
                        path,
                        guard,
                        UpdateErrorView::State(cause),
                        state,
                        output,
                        storing,
                        stored,
                    );
                    closing_in_update(
                        path,
                        closing_start::<T, E>(guard, Err(UpdateErrorView::State(cause))),
                        release,
                        failed,
                    );
                    opening_in_update::<T, E>(
                        path,
                        start,
                        acquiring + loading,
                        OpenedView::NotLoaded(guard, cause),
                        as_transaction_calls(release),
                        failed,
                    );
                },
                Ok(given) => {
                    let result: Result<T, UpdateErrorView<E>> = match stored {
                        Ok(_) => Ok(output),
                        Err(cause) => Err(UpdateErrorView::State(cause)),
                    };
                    law_every_closing_ends::<T, E>(
                        path,
                        guard,
                        UpdateErrorView::Update(error),
                        state,
                        output,
                        storing,
                        stored,
                    );
                    updating_in_update::<T, E>(
                        path,
                        start,
                        acquiring + loading,
                        guard,
                        given,
                        Err(error),
                        release,
                        Err(UpdateErrorView::Update(error)),
                    );
                    updating_in_update::<T, E>(
                        path,
                        start,
                        acquiring + loading,
                        guard,
                        given,
                        Ok((state, output)),
                        storing + release,
                        result,
                    );
                },
            }
        },
    }
}

/// While a transaction opens it does what the opening does, and then goes on.
proof fn opening_in_update<T, E>(
    path: StatePathView,
    step: OpeningStepView,
    history: Seq<(CallView, ReplyView)>,
    opened: OpenedView,
    rest: Seq<(UpdateCallView, UpdateReplyView<T, E>)>,
    result: Result<T, UpdateErrorView<E>>,
)
    requires
        leads_to(opening_logic(path), step, history, Step::Return(opened)),
        leads_to(
            update_logic::<T, E>(path),
            update_from_opening(Step::Return(opened)),
            rest,
            Step::Return(result),
        ),
    ensures
        leads_to(
            update_logic::<T, E>(path),
            update_from_opening(step),
            as_transaction_calls(history) + rest,
            Step::Return(result),
        ),
{
    let inside = Inside {
        call: |call: CallView| UpdateCallView::System(call),
        inner_call: |call: UpdateCallView| call->System_0,
        reply: |reply: ReplyView| UpdateReplyView::<T, E>::System(reply),
        inner_reply: |reply: UpdateReplyView<T, E>| reply->System_0,
        state: |at: OpeningView| UpdateStateView::<T, E>::Opening(at),
        after: |opened: OpenedView| update_from_opening::<T, E>(Step::Return(opened)),
    };
    assert forall|step: OpeningStepView| #[trigger]
        outer_step(inside, step) == update_from_opening::<T, E>(step) by {}
    outer_part(
        opening_logic(path),
        update_logic::<T, E>(path),
        inside,
        step,
        history,
        opened,
        rest,
        Step::Return(result),
    );
    assert(outer_history(inside, history) =~= as_transaction_calls::<T, E>(history));
}

/// A transaction that opened with a state updates it and closes.
proof fn updating_in_update<T, E>(
    path: StatePathView,
    step: OpeningStepView,
    history: Seq<(CallView, ReplyView)>,
    guard: DenyReadAclStateMutexGuard,
    given: Recorded,
    updated: Result<(Recorded, T), E>,
    closing: Seq<(CallView, ReplyView)>,
    result: Result<T, UpdateErrorView<E>>,
)
    requires
        leads_to(
            opening_logic(path),
            step,
            history,
            Step::Return(OpenedView::Loaded(guard, given)),
        ),
        leads_to(
            closing_logic::<T, E>(path),
            closing_start(guard, update_outcome(updated)),
            closing,
            Step::Return(result),
        ),
    ensures
        leads_to(
            update_logic::<T, E>(path),
            update_from_opening(step),
            as_transaction_calls(history) + seq![
                (UpdateCallView::Update(given), UpdateReplyView::<T, E>::Updated(updated)),
            ] + as_transaction_calls(closing),
            Step::Return(result),
        ),
{
    let logic = update_logic::<T, E>(path);
    let one = seq![(UpdateCallView::Update(given), UpdateReplyView::<T, E>::Updated(updated))];
    let rest = one + as_transaction_calls::<T, E>(closing);
    let at = UpdateStateView::<T, E>::Updating(guard);
    let answer = UpdateReplyView::<T, E>::Updated(updated);
    closing_in_update(path, closing_start(guard, update_outcome(updated)), closing, result);
    assert((logic.fits)(at, answer));
    assert((logic.next)(at, answer) == update_from_closing(
        closing_start(guard, update_outcome(updated)),
    ));
    assert(rest[0] == (UpdateCallView::Update(given), answer));
    assert(rest.drop_first() =~= as_transaction_calls::<T, E>(closing));
    opening_in_update(path, step, history, OpenedView::Loaded(guard, given), rest, result);
    assert(as_transaction_calls::<T, E>(history) + rest =~= as_transaction_calls::<T, E>(history)
        + one + as_transaction_calls::<T, E>(closing));
}

} // verus!
