//! Histories: the calls a piece of logic makes, each with the reply it is resumed with.

use crate::calls::Step;
use vstd::prelude::*;

verus! {

/// A piece of logic that asks for calls: how it goes on after a reply, and which
/// replies answer the call it waits for.
#[verifier::reject_recursive_types(S)]
#[verifier::reject_recursive_types(P)]
pub struct Logic<C, P, S, R> {
    pub next: spec_fn(S, P) -> Step<C, S, R>,
    pub fits: spec_fn(S, P) -> bool,
}

/// The history leads from one step to another: every call in it is the one that
/// was asked for, and every reply answers it.
pub open spec fn leads_to<C, P, S, R>(
    logic: Logic<C, P, S, R>,
    from: Step<C, S, R>,
    history: Seq<(C, P)>,
    to: Step<C, S, R>,
) -> bool
    decreases history.len(),
{
    if history.len() == 0 {
        from == to
    } else {
        match from {
            Step::Perform(call, at) => {
                let (called, reply) = history[0];
                &&& called == call
                &&& (logic.fits)(at, reply)
                &&& leads_to(logic, (logic.next)(at, reply), history.drop_first(), to)
            },
            Step::Return(_) => false,
        }
    }
}

/// What a history is, exchange by exchange. An empty one leads from a step to itself
/// and nowhere else. One that begins with an exchange begins with the call that was
/// asked for and a reply that answers it, and goes on from there; nothing follows a
/// result.
pub proof fn law_history_goes_call_by_call<C, P, S, R>(
    logic: Logic<C, P, S, R>,
    from: Step<C, S, R>,
    call: C,
    reply: P,
    rest: Seq<(C, P)>,
    to: Step<C, S, R>,
)
    ensures
        leads_to(logic, from, Seq::empty(), to) <==> from == to,
        leads_to(logic, from, seq![(call, reply)] + rest, to) <==> match from {
            Step::Perform(asked, at) => asked == call && (logic.fits)(at, reply) && leads_to(
                logic,
                (logic.next)(at, reply),
                rest,
                to,
            ),
            Step::Return(_) => false,
        },
{
    let history = seq![(call, reply)] + rest;
    assert(history[0] == (call, reply));
    assert(history.drop_first() =~= rest);
}

/// A history leads through any step that its first part leads to.
pub proof fn leads_through<C, P, S, R>(
    logic: Logic<C, P, S, R>,
    from: Step<C, S, R>,
    history: Seq<(C, P)>,
    through: Step<C, S, R>,
    rest: Seq<(C, P)>,
    to: Step<C, S, R>,
)
    requires
        leads_to(logic, from, history, through),
        leads_to(logic, through, rest, to),
    ensures
        leads_to(logic, from, history + rest, to),
    decreases history.len(),
{
    if history.len() == 0 {
        assert(history + rest =~= rest);
    } else {
        let next = (logic.next)(from->Perform_1, history[0].1);
        leads_through(logic, next, history.drop_first(), through, rest, to);
        assert((history + rest).drop_first() =~= history.drop_first() + rest);
    }
}

/// One more exchange leads on from where a history led to.
pub proof fn leads_on<C, P, S, R>(
    logic: Logic<C, P, S, R>,
    from: Step<C, S, R>,
    history: Seq<(C, P)>,
    call: C,
    at: S,
    reply: P,
)
    requires
        leads_to(logic, from, history, Step::Perform(call, at)),
        (logic.fits)(at, reply),
    ensures
        leads_to(logic, from, history.push((call, reply)), (logic.next)(at, reply)),
    decreases history.len(),
{
    let longer = history.push((call, reply));
    if history.len() == 0 {
        assert(longer.drop_first() =~= Seq::empty());
        reveal_with_fuel(leads_to, 2);
    } else {
        let next = (logic.next)(from->Perform_1, history[0].1);
        leads_on(logic, next, history.drop_first(), call, at, reply);
        assert(longer.drop_first() =~= history.drop_first().push((call, reply)));
    }
}

/// A history leads to one step only.
pub proof fn leads_to_one<C, P, S, R>(
    logic: Logic<C, P, S, R>,
    from: Step<C, S, R>,
    history: Seq<(C, P)>,
    to: Step<C, S, R>,
    other: Step<C, S, R>,
)
    requires
        leads_to(logic, from, history, to),
        leads_to(logic, from, history, other),
    ensures
        to == other,
    decreases history.len(),
{
    if history.len() > 0 {
        let next = (logic.next)(from->Perform_1, history[0].1);
        leads_to_one(logic, next, history.drop_first(), to, other);
    }
}

/// Two histories that agree up to some exchange go on with the same call.
pub proof fn same_next_call<C, P, S, R>(
    logic: Logic<C, P, S, R>,
    from: Step<C, S, R>,
    history: Seq<(C, P)>,
    to: Step<C, S, R>,
    other_history: Seq<(C, P)>,
    other_to: Step<C, S, R>,
    count: int,
)
    requires
        leads_to(logic, from, history, to),
        leads_to(logic, from, other_history, other_to),
        0 <= count < history.len(),
        count < other_history.len(),
        history.take(count) == other_history.take(count),
    ensures
        history[count].0 == other_history[count].0,
    decreases count,
{
    if count > 0 {
        assert(history.take(count)[0] == history[0]);
        assert(other_history.take(count)[0] == other_history[0]);
        let next = (logic.next)(from->Perform_1, history[0].1);
        let rest = history.drop_first();
        let other_rest = other_history.drop_first();
        assert(rest.take(count - 1) =~= history.take(count).drop_first());
        assert(other_rest.take(count - 1) =~= other_history.take(count).drop_first());
        same_next_call(logic, next, rest, to, other_rest, other_to, count - 1);
    }
}

/// A property of the first call that every next call has too holds of every call in
/// the history.
pub proof fn every_call<C, P, S, R>(
    logic: Logic<C, P, S, R>,
    property: spec_fn(C) -> bool,
    step: Step<C, S, R>,
    history: Seq<(C, P)>,
    end: R,
)
    requires
        leads_to(logic, step, history, Step::Return(end)),
        step matches Step::Perform(call, _) ==> property(call),
        forall|at: S, reply: P|
            (logic.fits)(at, reply) ==> (#[trigger] (logic.next)(at, reply) matches Step::Perform(
                call,
                _,
            ) ==> property(call)),
    ensures
        forall|i: int| 0 <= i < history.len() ==> property((#[trigger] history[i]).0),
    decreases history.len(),
{
    if history.len() > 0 {
        let next = (logic.next)(step->Perform_1, history[0].1);
        every_call(logic, property, next, history.drop_first(), end);
        assert forall|i: int| 0 <= i < history.len() implies property(
            (#[trigger] history[i]).0,
        ) by {
            if i > 0 {
                assert(history[i] == history.drop_first()[i - 1]);
            }
        }
    }
}

/// How one piece of logic runs inside another: what its calls, replies and states
/// are there, and how the outer logic goes on after its result.
#[verifier::reject_recursive_types(C)]
#[verifier::reject_recursive_types(P)]
#[verifier::reject_recursive_types(S)]
#[verifier::reject_recursive_types(R)]
#[verifier::reject_recursive_types(C2)]
#[verifier::reject_recursive_types(P2)]
pub struct Inside<C, P, S, R, C2, P2, S2, R2> {
    pub call: spec_fn(C) -> C2,
    pub inner_call: spec_fn(C2) -> C,
    pub reply: spec_fn(P) -> P2,
    pub inner_reply: spec_fn(P2) -> P,
    pub state: spec_fn(S) -> S2,
    pub after: spec_fn(R) -> Step<C2, S2, R2>,
}

/// A step of the inner logic as a step of the outer one.
pub open spec fn outer_step<C, P, S, R, C2, P2, S2, R2>(
    inside: Inside<C, P, S, R, C2, P2, S2, R2>,
    step: Step<C, S, R>,
) -> Step<C2, S2, R2> {
    match step {
        Step::Perform(call, at) => Step::Perform((inside.call)(call), (inside.state)(at)),
        Step::Return(result) => (inside.after)(result),
    }
}

/// An outer history as the history of the inner logic.
pub open spec fn inner_history<C, P, S, R, C2, P2, S2, R2>(
    inside: Inside<C, P, S, R, C2, P2, S2, R2>,
    history: Seq<(C2, P2)>,
) -> Seq<(C, P)> {
    history.map_values(
        |exchange: (C2, P2)| ((inside.inner_call)(exchange.0), (inside.inner_reply)(exchange.1)),
    )
}

/// The inner logic decides how the outer one goes on while it runs.
pub open spec fn runs_inside<C, P, S, R, C2, P2, S2, R2>(
    inner: Logic<C, P, S, R>,
    outer: Logic<C2, P2, S2, R2>,
    inside: Inside<C, P, S, R, C2, P2, S2, R2>,
) -> bool {
    &&& forall|call: C| (inside.inner_call)(#[trigger] (inside.call)(call)) == call
    &&& forall|at: S, reply: P2| #[trigger]
        (outer.fits)((inside.state)(at), reply) ==> (inner.fits)(at, (inside.inner_reply)(reply))
            && reply == (inside.reply)((inside.inner_reply)(reply))
    &&& forall|at: S, reply: P2|
        (outer.fits)((inside.state)(at), reply) ==> #[trigger] (outer.next)(
            (inside.state)(at),
            reply,
        ) == outer_step(inside, (inner.next)(at, (inside.inner_reply)(reply)))
}

/// A finished outer history begins with a finished history of the inner logic.
pub proof fn inner_part<C, P, S, R, C2, P2, S2, R2>(
    inner: Logic<C, P, S, R>,
    outer: Logic<C2, P2, S2, R2>,
    inside: Inside<C, P, S, R, C2, P2, S2, R2>,
    step: Step<C, S, R>,
    history: Seq<(C2, P2)>,
    end: R2,
) -> (part: (int, R))
    requires
        runs_inside(inner, outer, inside),
        leads_to(outer, outer_step(inside, step), history, Step::Return(end)),
    ensures
        0 <= part.0 <= history.len(),
        leads_to(
            inner,
            step,
            inner_history(inside, history.take(part.0)),
            Step::Return(part.1),
        ),
        forall|i: int|
            0 <= i < part.0 ==> #[trigger] history[i] == (
                (inside.call)(inner_history(inside, history.take(part.0))[i].0),
                (inside.reply)(inner_history(inside, history.take(part.0))[i].1),
            ),
        leads_to(outer, (inside.after)(part.1), history.skip(part.0), Step::Return(end)),
    decreases history.len(),
{
    match step {
        Step::Perform(call, at) => {
            let reply = history[0].1;
            let inner_reply = (inside.inner_reply)(reply);
            let next = (inner.next)(at, inner_reply);
            let rest = history.drop_first();
            assert((outer.fits)((inside.state)(at), reply));
            assert((outer.next)((inside.state)(at), reply) == outer_step(inside, next));
            let (count, result) = inner_part(inner, outer, inside, next, rest, end);
            let part = history.take(count + 1);
            let mapped = inner_history(inside, part);
            assert(mapped[0] == (call, inner_reply));
            assert(mapped.drop_first() =~= inner_history(inside, rest.take(count)));
            assert(history.skip(count + 1) =~= rest.skip(count));
            assert forall|i: int| 0 <= i < count + 1 implies #[trigger] history[i] == (
                (inside.call)(mapped[i].0),
                (inside.reply)(mapped[i].1),
            ) by {
                if i > 0 {
                    assert(history[i] == rest[i - 1]);
                    assert(mapped[i] == mapped.drop_first()[i - 1]);
                }
            }
            (count + 1, result)
        },
        Step::Return(result) => {
            assert(history.skip(0) =~= history);
            (0, result)
        },
    }
}

/// A history of the inner logic as a part of an outer history.
pub open spec fn outer_history<C, P, S, R, C2, P2, S2, R2>(
    inside: Inside<C, P, S, R, C2, P2, S2, R2>,
    history: Seq<(C, P)>,
) -> Seq<(C2, P2)> {
    history.map_values(
        |exchange: (C, P)| ((inside.call)(exchange.0), (inside.reply)(exchange.1)),
    )
}

/// A finished history of the inner logic is a part of an outer history, which goes on
/// after its result.
pub proof fn outer_part<C, P, S, R, C2, P2, S2, R2>(
    inner: Logic<C, P, S, R>,
    outer: Logic<C2, P2, S2, R2>,
    inside: Inside<C, P, S, R, C2, P2, S2, R2>,
    step: Step<C, S, R>,
    history: Seq<(C, P)>,
    result: R,
    rest: Seq<(C2, P2)>,
    to: Step<C2, S2, R2>,
)
    requires
        forall|at: S, reply: P| #[trigger]
            (inner.fits)(at, reply) ==> (outer.fits)((inside.state)(at), (inside.reply)(reply)) && (
            outer.next)((inside.state)(at), (inside.reply)(reply)) == outer_step(
                inside,
                (inner.next)(at, reply),
            ),
        leads_to(inner, step, history, Step::Return(result)),
        leads_to(outer, (inside.after)(result), rest, to),
    ensures
        leads_to(outer, outer_step(inside, step), outer_history(inside, history) + rest, to),
    decreases history.len(),
{
    let whole = outer_history(inside, history) + rest;
    if history.len() == 0 {
        assert(whole =~= rest);
    } else {
        let (call, reply) = history[0];
        let at = step->Perform_1;
        let next = (inner.next)(at, reply);
        assert((inner.fits)(at, reply));
        outer_part(inner, outer, inside, next, history.drop_first(), result, rest, to);
        assert(whole[0] == ((inside.call)(call), (inside.reply)(reply)));
        assert(whole.drop_first() =~= outer_history(inside, history.drop_first()) + rest);
    }
}

} // verus!
