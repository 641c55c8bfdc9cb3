//! What holds where many agents synchronize the ACEs of their principals at once.

use crate::calls::Step;
use crate::interleaving::after_commits;
use crate::interleaving::agent_ok;
use crate::interleaving::chained;
use crate::interleaving::committed;
use crate::interleaving::content;
use crate::interleaving::dies;
use crate::interleaving::move_keeps_the_world;
use crate::interleaving::moves;
use crate::interleaving::performs;
use crate::interleaving::possible;
use crate::interleaving::world_after;
use crate::interleaving::world_ok;
use crate::interleaving::Agent;
use crate::interleaving::Commit;
use crate::interleaving::Surroundings;
use crate::interleaving::UpdateWorld;
use crate::interleaving::World;
use crate::reconcile::aces_after;
use crate::reconcile::aces_after_call;
use crate::reconcile::all_have_paths;
use crate::reconcile::key_set;
use crate::reconcile::keys_are_faithful;
use crate::reconcile::law_applied_paths_are_recorded;
use crate::reconcile::law_no_principal_is_kept_without_paths;
use crate::reconcile::law_no_stale_ace_is_left;
use crate::reconcile::law_other_principals_are_kept;
use crate::reconcile::law_reconcile_outcomes;
use crate::reconcile::reconcile_logic;
use crate::reconcile::reconcile_next;
use crate::reconcile::reconcile_start;
use crate::reconcile::recorded_paths;
use crate::reconcile::with_recorded;
use crate::reconcile::AclCallView;
use crate::reconcile::AclReplyView;
use crate::reconcile::ReconcileView;
use crate::run::leads_on;
use crate::run::leads_to;
use crate::state::Recorded;
use crate::state::StatePathView;
use crate::sync::sync_fits;
use crate::sync::sync_next;
use crate::sync::sync_start;
use crate::sync::SyncCallView;
use crate::sync::SyncReplyView;
use crate::sync::SyncStepView;
use crate::sync::SyncView;
use crate::transaction::ClosingView;
use crate::transaction::UpdateCallView;
use crate::transaction::UpdateErrorView;
use crate::transaction::UpdateReplyView;
use crate::transaction::UpdateStateView;
use crate::transaction::UpdateStepView;
use vstd::prelude::*;

verus! {

/// One call on an ACE, with the agent that made it.
pub struct AclEvent<E> {
    pub agent: int,
    pub call: AclCallView,
    pub reply: AclReplyView<E>,
}

/// All agents in the middle of their synchronizations, and all calls on ACEs so far.
pub struct SyncWorld<E> {
    pub world: World<SyncStepView<E>>,
    pub log: Seq<AclEvent<E>>,
}

/// What the agents work on: how bytes are parsed, what the key of a path is, where the
/// state file is, and for each agent its principal and the paths it desires.
pub struct Setting {
    pub parse: spec_fn(Seq<u8>) -> Option<Recorded>,
    pub key: spec_fn(Seq<u16>) -> Seq<char>,
    pub path: StatePathView,
    pub sids: Seq<Seq<char>>,
    pub desired: Seq<Seq<Seq<u16>>>,
}

/// The surroundings in which each agent records some paths for its own principal.
pub open spec fn surroundings(setting: Setting) -> Surroundings {
    Surroundings {
        parse: setting.parse,
        change: |who: int, state: Recorded, updated: Recorded|
            exists|applied: Seq<Seq<u16>>|
                updated == #[trigger] with_recorded(state, setting.sids[who], applied),
        path: setting.path,
    }
}

/// The state that a reconciliation was given.
pub open spec fn reconciled_state(at: ReconcileView) -> Recorded {
    match at {
        ReconcileView::Applying { state, .. } => state,
        ReconcileView::Keying { state, .. } => state,
        ReconcileView::Revoking { state, .. } => state,
    }
}

/// The principal of a reconciliation.
pub open spec fn reconciled_sid(at: ReconcileView) -> Seq<char> {
    match at {
        ReconcileView::Applying { sid, .. } => sid,
        ReconcileView::Keying { sid, .. } => sid,
        ReconcileView::Revoking { sid, .. } => sid,
    }
}

/// The replies that an agent can get to a call. To calls on the state they are those
/// that any transaction can get; the keys of paths are what they are; and paths may be
/// applied or refused.
pub open spec fn sync_possible<E>(
    setting: Setting,
    world: World<SyncStepView<E>>,
    who: int,
    call: SyncCallView,
    reply: SyncReplyView<E>,
) -> bool {
    match (call, reply) {
        (SyncCallView::System(call), SyncReplyView::System(reply)) => possible(
            surroundings(setting),
            world,
            who,
            UpdateCallView::System(call),
            UpdateReplyView::<Seq<Seq<u16>>, E>::System(reply),
        ),
        (SyncCallView::Acl(call), SyncReplyView::Acl(reply)) => keys_are_faithful(
            setting.key,
            seq![(call, reply)],
        ),
        _ => true,
    }
}

/// The world after one call of an agent. A call on the state does what it does in any
/// transaction. A call on an ACE is added to the log; the one that ends the
/// reconciliation ends the update.
pub open spec fn sync_world_after<E>(
    before: SyncWorld<E>,
    who: int,
    call: SyncCallView,
    at: SyncView<E>,
    reply: SyncReplyView<E>,
    step: SyncStepView<E>,
) -> SyncWorld<E> {
    match (call, at, reply) {
        (SyncCallView::System(call), _, SyncReplyView::System(reply)) => SyncWorld {
            world: world_after(
                before.world,
                who,
                UpdateCallView::System(call),
                UpdateReplyView::<Seq<Seq<u16>>, E>::System(reply),
                step,
            ),
            log: before.log,
        },
        (
            SyncCallView::Acl(call),
            SyncView::Reconciling { reconciliation, .. },
            SyncReplyView::Acl(reply),
        ) => SyncWorld {
            world: match reconcile_next(reconciliation, reply) {
                Step::Perform(_, _) => World {
                    agents: before.world.agents.insert(
                        who,
                        Agent { step, ..before.world.agents[who] },
                    ),
                    ..before.world
                },
                Step::Return(outcome) => world_after(
                    before.world,
                    who,
                    UpdateCallView::Update(reconciled_state(reconciliation)),
                    UpdateReplyView::<Seq<Seq<u16>>, E>::Updated(outcome),
                    step,
                ),
            },
            log: before.log.push(AclEvent { agent: who, call, reply }),
        },
        _ => before,
    }
}

/// An agent performs the call that its synchronization asks for, gets this reply, and
/// its synchronization goes on.
pub open spec fn sync_performs<E>(
    setting: Setting,
    before: SyncWorld<E>,
    after: SyncWorld<E>,
    who: int,
    reply: SyncReplyView<E>,
) -> bool {
    &&& before.world.agents.dom().contains(who)
    &&& match before.world.agents[who].step {
        Step::Perform(call, at) => {
            &&& sync_fits(at, reply)
            &&& sync_possible(setting, before.world, who, call, reply)
            &&& after == sync_world_after(
                before,
                who,
                call,
                at,
                reply,
                sync_next(setting.path, at, reply),
            )
        },
        Step::Return(_) => false,
    }
}

/// An agent ends in the middle of its synchronization.
pub open spec fn sync_dies<E>(before: SyncWorld<E>, after: SyncWorld<E>, who: int) -> bool {
    &&& dies(before.world, after.world, who)
    &&& after.log == before.log
}

/// One agent makes one move.
pub open spec fn sync_moves<E>(
    setting: Setting,
    before: SyncWorld<E>,
    after: SyncWorld<E>,
) -> bool {
    ||| exists|who: int, reply: SyncReplyView<E>| #[trigger]
        sync_performs(setting, before, after, who, reply)
    ||| exists|who: int| #[trigger] sync_dies(before, after, who)
}

/// Every agent is about to start its synchronization.
pub open spec fn sync_starts<E>(setting: Setting, start: SyncWorld<E>) -> bool {
    &&& setting.desired.len() == setting.sids.len()
    &&& start.world.owner is None
    &&& start.world.commits.len() == 0
    &&& start.log.len() == 0
    &&& forall|who: int| #[trigger]
        start.world.agents.dom().contains(who) <==> 0 <= who < setting.sids.len()
    &&& forall|who: int| #[trigger]
        start.world.agents.dom().contains(who) ==> start.world.agents[who].step == sync_start::<E>(
            setting.sids[who],
            setting.desired[who],
        )
}

/// A run of all agents, one move after the other, in any order.
pub open spec fn sync_runs<E>(setting: Setting, worlds: Seq<SyncWorld<E>>) -> bool {
    &&& worlds.len() >= 1
    &&& sync_starts(setting, worlds[0])
    &&& forall|i: int|
        0 <= i < worlds.len() - 1 ==> sync_moves(setting, #[trigger] worlds[i], worlds[i + 1])
}

/// The calls that one agent made on ACEs.
pub open spec fn calls_of<E>(log: Seq<AclEvent<E>>, who: int) -> Seq<
    (AclCallView, AclReplyView<E>),
>
    decreases log.len(),
{
    if log.len() == 0 {
        Seq::empty()
    } else {
        let rest = calls_of(log.drop_last(), who);
        let event = log.last();
        if event.agent == who {
            rest.push((event.call, event.reply))
        } else {
            rest
        }
    }
}

/// The ACEs of a principal after all calls on ACEs, each known by the key of its path.
pub open spec fn aces_of<E>(
    setting: Setting,
    aces: Set<Seq<char>>,
    log: Seq<AclEvent<E>>,
    sid: Seq<char>,
) -> Set<Seq<char>>
    decreases log.len(),
{
    if log.len() == 0 {
        aces
    } else {
        let rest = aces_of(setting, aces, log.drop_last(), sid);
        let event = log.last();
        if setting.sids[event.agent] == sid {
            aces_after_call(setting.key, rest, (event.call, event.reply))
        } else {
            rest
        }
    }
}

/// The calls of each agent stand together: between two of them there is none of
/// another agent.
pub open spec fn together<E>(log: Seq<AclEvent<E>>) -> bool {
    forall|i: int, j: int, k: int|
        #![trigger log[i], log[j], log[k]]
        0 <= i < j < k < log.len() && log[i].agent == log[k].agent ==> log[j].agent
            == log[i].agent
}

/// The agents that replaced the state file made their calls on ACEs in the order of
/// the replacements.
pub open spec fn in_order<E>(commits: Seq<Commit>, log: Seq<AclEvent<E>>) -> bool {
    forall|k: int, j: int, i: int, h: int|
        #![trigger commits[k], commits[j], log[i], log[h]]
        0 <= k < j < commits.len() && 0 <= i < log.len() && 0 <= h < log.len() && log[i].agent
            == commits[k].agent && log[h].agent == commits[j].agent ==> i < h
}

/// All calls of agents that replaced the state file come before those of this agent.
spec fn comes_last<E>(commits: Seq<Commit>, log: Seq<AclEvent<E>>, who: int) -> bool {
    forall|k: int, i: int, h: int|
        #![trigger commits[k], log[i], log[h]]
        0 <= k < commits.len() && 0 <= i < log.len() && 0 <= h < log.len() && log[i].agent
            == commits[k].agent && log[h].agent == who ==> i < h
}

/// What holds of the order of calls and replacements: an agent that owns the mutex and
/// has not replaced the file comes after all that have.
spec fn order_ok<E>(current: SyncWorld<E>) -> bool {
    let commits = current.world.commits;
    &&& in_order(commits, current.log)
    &&& current.world.owner matches Some(who) ==> committed(commits, who) || comes_last(
        commits,
        current.log,
        who,
    )
}

/// A synchronization as the transaction that it is: while it reconciles, its update is
/// under way.
spec fn transaction_step<E>(step: SyncStepView<E>) -> UpdateStepView<Seq<Seq<u16>>, E> {
    match step {
        Step::Return(result) => Step::Return(result),
        Step::Perform(call, SyncView::Opening { opening, .. }) => Step::Perform(
            UpdateCallView::System(call->System_0),
            UpdateStateView::Opening(opening),
        ),
        Step::Perform(_, SyncView::Reconciling { guard, reconciliation }) => Step::Perform(
            UpdateCallView::Update(reconciled_state(reconciliation)),
            UpdateStateView::Updating(guard),
        ),
        Step::Perform(call, SyncView::Closing(at)) => Step::Perform(
            UpdateCallView::System(call->System_0),
            UpdateStateView::Closing(at),
        ),
    }
}

/// An agent with its synchronization as a transaction.
spec fn transaction_agent<E>(agent: Agent<SyncStepView<E>>) -> Agent<
    UpdateStepView<Seq<Seq<u16>>, E>,
> {
    Agent {
        step: transaction_step(agent.step),
        opened: agent.opened,
        temporary: agent.temporary,
        loaded: agent.loaded,
        updated: agent.updated,
    }
}

/// A world of synchronizations as a world of transactions.
spec fn transactions<E>(world: World<SyncStepView<E>>) -> UpdateWorld<Seq<Seq<u16>>, E> {
    World {
        agents: Map::new(
            |who: int| world.agents.dom().contains(who),
            |who: int| transaction_agent(world.agents[who]),
        ),
        owner: world.owner,
        file: world.file,
        commits: world.commits,
    }
}

/// The agent has reconciled: its calls led from the loaded state to the updated one,
/// with this output.
spec fn has_reconciled<E>(
    setting: Setting,
    current: SyncWorld<E>,
    who: int,
    output: Seq<Seq<u16>>,
) -> bool {
    let agent = current.world.agents[who];
    &&& agent.loaded is Some
    &&& agent.updated is Some
    &&& leads_to(
        reconcile_logic::<E>(),
        reconcile_start(agent.loaded->0, setting.sids[who], setting.desired[who]),
        calls_of(current.log, who),
        Step::Return(Ok((agent.updated->0, output))),
    )
}

/// What is known of where a synchronization stands.
spec fn sync_step_ok<E>(setting: Setting, current: SyncWorld<E>, who: int) -> bool {
    let calls = calls_of(current.log, who);
    match current.world.agents[who].step {
        Step::Return(Ok(output)) => has_reconciled(setting, current, who, output),
        Step::Return(Err(_)) => true,
        Step::Perform(call, SyncView::Opening { sid, desired, .. }) => {
            &&& call is System
            &&& sid == setting.sids[who]
            &&& desired == setting.desired[who]
            &&& calls.len() == 0
        },
        Step::Perform(call, SyncView::Reconciling { reconciliation, .. }) => {
            &&& call is Acl
            &&& reconciled_sid(reconciliation) == setting.sids[who]
            &&& leads_to(
                reconcile_logic::<E>(),
                reconcile_start(
                    reconciled_state(reconciliation),
                    setting.sids[who],
                    setting.desired[who],
                ),
                calls,
                Step::Perform(call->Acl_0, reconciliation),
            )
            &&& calls.len() > 0 ==> current.log.last().agent == who
        },
        Step::Perform(call, SyncView::Closing(ClosingView::Storing(_, _, output))) => {
            &&& call is System
            &&& has_reconciled(setting, current, who, output)
        },
        Step::Perform(call, SyncView::Closing(ClosingView::Releasing(_, result))) => {
            &&& call is System
            &&& result matches Ok(output) ==> has_reconciled(setting, current, who, output)
        },
    }
}

/// What is known of an agent: where it stands, and what it committed.
spec fn sync_agent_ok<E>(setting: Setting, current: SyncWorld<E>, who: int) -> bool {
    let agent = current.world.agents[who];
    &&& sync_step_ok(setting, current, who)
    &&& forall|k: int|
        0 <= k < current.world.commits.len() && (#[trigger] current.world.commits[k]).agent == who
            ==> agent.loaded == Some(current.world.commits[k].loaded) && agent.updated == Some(
            current.world.commits[k].updated,
        )
}

/// What holds of the calls on ACEs.
spec fn log_ok<E>(setting: Setting, log: Seq<AclEvent<E>>) -> bool {
    &&& together(log)
    &&& forall|i: int| 0 <= i < log.len() ==> 0 <= (#[trigger] log[i]).agent < setting.sids.len()
    &&& forall|who: int| keys_are_faithful(setting.key, #[trigger] calls_of(log, who))
}

/// What holds of a world of synchronizations at any time.
spec fn sync_world_ok<E>(setting: Setting, base: Recorded, current: SyncWorld<E>) -> bool {
    &&& world_ok(
        surroundings(setting),
        vstd::set_lib::set_int_range(0, setting.sids.len() as int),
        base,
        transactions(current.world),
    )
    &&& log_ok(setting, current.log)
    &&& order_ok(current)
    &&& forall|who: int| #[trigger]
        current.world.agents.dom().contains(who) ==> sync_agent_ok(setting, current, who)
}

/// A call by one agent is one call more for it, and none for any other.
proof fn calls_after_event<E>(log: Seq<AclEvent<E>>, event: AclEvent<E>, who: int)
    ensures
        calls_of(log.push(event), who) == if event.agent == who {
            calls_of(log, who).push((event.call, event.reply))
        } else {
            calls_of(log, who)
        },
{
    assert(log.push(event).drop_last() =~= log);
}

/// An agent with a call in the log has calls.
proof fn logged_agent_has_calls<E>(log: Seq<AclEvent<E>>, i: int)
    requires
        0 <= i < log.len(),
    ensures
        calls_of(log, log[i].agent).len() > 0,
    decreases log.len(),
{
    if i < log.len() - 1 {
        logged_agent_has_calls(log.drop_last(), i);
        assert(log.drop_last()[i] == log[i]);
    }
}

/// The transaction of the agent makes the same move, or none while the reconciliation
/// goes on.
proof fn transaction_moves<E>(
    setting: Setting,
    base: Recorded,
    before: SyncWorld<E>,
    after: SyncWorld<E>,
    who: int,
    reply: SyncReplyView<E>,
)
    requires
        sync_world_ok(setting, base, before),
        sync_performs(setting, before, after, who, reply),
    ensures
        transactions(after.world) == transactions(before.world) || moves(
            surroundings(setting),
            transactions(before.world),
            transactions(after.world),
        ),
{
    let around = surroundings(setting);
    let from = transactions(before.world);
    let to = transactions(after.world);
    let agent = before.world.agents[who];
    assert(sync_agent_ok(setting, before, who));
    assert(agent_ok(around, from, who)) by {
        assert(from.agents.dom().contains(who));
    }
    match agent.step {
        Step::Perform(call, SyncView::Reconciling { guard, reconciliation }) => {
            let acl_reply = reply->Acl_0;
            match reconcile_next(reconciliation, acl_reply) {
                Step::Perform(_, _) => {
                    assert(to.agents =~= from.agents);
                },
                Step::Return(outcome) => {
                    let answer = UpdateReplyView::<Seq<Seq<u16>>, E>::Updated(outcome);
                    let state = reconciled_state(reconciliation);
                    if outcome is Ok {
                        let (recorded, applied) = outcome->Ok_0;
                        assert(recorded == with_recorded(state, setting.sids[who], applied));
                    }
                    assert(to.agents =~= world_after(
                        from,
                        who,
                        UpdateCallView::Update(state),
                        answer,
                        transaction_step(after.world.agents[who].step),
                    ).agents);
                    assert(performs(around, from, to, who, answer));
                },
            }
        },
        Step::Perform(call, at) => {
            let answer = UpdateReplyView::<Seq<Seq<u16>>, E>::System(reply->System_0);
            assert(to.agents =~= world_after(
                from,
                who,
                UpdateCallView::System(call->System_0),
                answer,
                transaction_step(after.world.agents[who].step),
            ).agents);
            assert(performs(around, from, to, who, answer));
        },
        Step::Return(_) => {},
    }
}

/// A call keeps what is known of the agent that made it.
proof fn call_keeps_the_agent<E>(
    setting: Setting,
    base: Recorded,
    before: SyncWorld<E>,
    after: SyncWorld<E>,
    who: int,
    reply: SyncReplyView<E>,
)
    requires
        sync_world_ok(setting, base, before),
        sync_performs(setting, before, after, who, reply),
    ensures
        sync_agent_ok(setting, after, who),
        after.log == before.log || (before.world.owner == Some(who) && after.log.drop_last()
            == before.log && after.log.len() == before.log.len() + 1 && after.log.last().agent
            == who),
{
    let around = surroundings(setting);
    let from = transactions(before.world);
    let agent = before.world.agents[who];
    let logic = reconcile_logic::<E>();
    assert(sync_agent_ok(setting, before, who));
    assert(agent_ok(around, from, who)) by {
        assert(from.agents.dom().contains(who));
    }
    match agent.step {
        Step::Perform(call, SyncView::Reconciling { guard, reconciliation }) => {
            let acl_reply = reply->Acl_0;
            let event = AclEvent { agent: who, call: call->Acl_0, reply: acl_reply };
            calls_after_event(before.log, event, who);
            assert((logic.fits)(reconciliation, acl_reply));
            assert((logic.next)(reconciliation, acl_reply) == reconcile_next(
                reconciliation,
                acl_reply,
            ));
            leads_on(
                logic,
                reconcile_start(
                    reconciled_state(reconciliation),
                    setting.sids[who],
                    setting.desired[who],
                ),
                calls_of(before.log, who),
                call->Acl_0,
                reconciliation,
                acl_reply,
            );
            assert(after.log.drop_last() =~= before.log);
        },
        Step::Perform(call, SyncView::Opening { .. }) => {
            assert(calls_of(before.log, who) =~= Seq::empty());
        },
        _ => {},
    }
}

/// A call keeps what holds of the log.
proof fn call_keeps_the_log<E>(
    setting: Setting,
    base: Recorded,
    before: SyncWorld<E>,
    after: SyncWorld<E>,
    who: int,
    reply: SyncReplyView<E>,
)
    requires
        sync_world_ok(setting, base, before),
        sync_performs(setting, before, after, who, reply),
    ensures
        log_ok(setting, after.log),
{
    assert(sync_agent_ok(setting, before, who));
    assert(transactions(before.world).agents.dom().contains(who));
    let log = before.log;
    if let Step::Perform(call, SyncView::Reconciling { reconciliation, .. }) =
        before.world.agents[who].step {
        let event = AclEvent { agent: who, call: call->Acl_0, reply: reply->Acl_0 };
        let last = log.len() as int;
        assert(after.log == log.push(event));
        assert forall|i: int, j: int, k: int|
            #![trigger after.log[i], after.log[j], after.log[k]]
            0 <= i < j < k < after.log.len() && after.log[i].agent
                == after.log[k].agent implies after.log[j].agent == after.log[i].agent by {
            assert(log[i] == after.log[i] && log[j] == after.log[j]);
            if k == last {
                logged_agent_has_calls(log, i);
                assert(log[last - 1].agent == who);
            } else {
                assert(log[k] == after.log[k]);
            }
        }
        assert forall|other: int| keys_are_faithful(
            setting.key,
            #[trigger] calls_of(after.log, other),
        ) by {
            calls_after_event(log, event, other);
            assert(keys_are_faithful(setting.key, calls_of(log, other)));
            let one = seq![(event.call, event.reply)];
            assert(one[0] == (event.call, event.reply));
        }
    }
}

/// A call keeps the order of calls and replacements.
proof fn call_keeps_the_order<E>(
    setting: Setting,
    base: Recorded,
    before: SyncWorld<E>,
    after: SyncWorld<E>,
    who: int,
    reply: SyncReplyView<E>,
)
    requires
        sync_world_ok(setting, base, before),
        sync_performs(setting, before, after, who, reply),
    ensures
        order_ok(after),
{
    let around = surroundings(setting);
    let from = transactions(before.world);
    let agent = before.world.agents[who];
    let commits = before.world.commits;
    let log = before.log;
    assert(sync_agent_ok(setting, before, who));
    assert(agent_ok(around, from, who)) by {
        assert(from.agents.dom().contains(who));
    }
    match agent.step {
        Step::Perform(call, SyncView::Opening { .. }) => {
            assert forall|h: int| 0 <= h < log.len() implies (#[trigger] log[h]).agent != who by {
                logged_agent_has_calls(log, h);
            }
        },
        Step::Perform(call, SyncView::Reconciling { .. }) => {
            let event = AclEvent { agent: who, call: call->Acl_0, reply: reply->Acl_0 };
            assert(after.log == log.push(event));
            assert(after.world.commits == commits);
            assert forall|k: int| 0 <= k < commits.len() implies (#[trigger] commits[k]).agent
                != who by {}
        },
        Step::Perform(call, SyncView::Closing(_)) => {
            assert(after.log == log);
            if after.world.commits != commits {
                let last = commits.len() as int;
                assert(after.world.commits == commits.push(after.world.commits[last]));
                assert(after.world.commits[last].agent == who);
                assert(!committed(commits, who));
                assert(comes_last(commits, log, who));
                assert(committed(after.world.commits, who));
                assert forall|k: int, j: int, i: int, h: int|
                    #![trigger after.world.commits[k], after.world.commits[j], log[i], log[h]]
                    0 <= k < j < after.world.commits.len() && 0 <= i < log.len() && 0 <= h
                        < log.len() && log[i].agent == after.world.commits[k].agent && log[h].agent
                        == after.world.commits[j].agent implies i < h by {
                    assert(after.world.commits[k] == commits[k]);
                    if j < last {
                        assert(after.world.commits[j] == commits[j]);
                    }
                }
            }
        },
        _ => {},
    }
}

/// One move keeps what holds of the world.
proof fn sync_move_keeps_the_world<E>(
    setting: Setting,
    base: Recorded,
    before: SyncWorld<E>,
    after: SyncWorld<E>,
)
    requires
        sync_world_ok(setting, base, before),
        sync_moves(setting, before, after),
    ensures
        sync_world_ok(setting, base, after),
{
    let around = surroundings(setting);
    let all = vstd::set_lib::set_int_range(0, setting.sids.len() as int);
    let from = transactions(before.world);
    let to = transactions(after.world);
    if exists|who: int, reply: SyncReplyView<E>| #[trigger]
        sync_performs(setting, before, after, who, reply) {
        let (who, reply) = choose|who: int, reply: SyncReplyView<E>| #[trigger]
            sync_performs(setting, before, after, who, reply);
        transaction_moves(setting, base, before, after, who, reply);
        if to != from {
            move_keeps_the_world(around, all, base, from, to);
        }
        call_keeps_the_agent(setting, base, before, after, who, reply);
        call_keeps_the_log(setting, base, before, after, who, reply);
        call_keeps_the_order(setting, base, before, after, who, reply);
        assert forall|other: int| #[trigger]
            after.world.agents.dom().contains(other) implies sync_agent_ok(
            setting,
            after,
            other,
        ) by {
            if other != who {
                assert(sync_agent_ok(setting, before, other));
                assert(from.agents.dom().contains(other));
                assert(agent_ok(around, from, other));
                assert(after.world.agents[other] == before.world.agents[other]);
                if after.log != before.log {
                    assert(after.log =~= before.log.push(after.log.last()));
                    calls_after_event(before.log, after.log.last(), other);
                }
            }
        }
    } else {
        let who = choose|who: int| #[trigger] sync_dies(before, after, who);
        assert(to.agents =~= from.agents.remove(who));
        assert(dies(from, to, who));
        move_keeps_the_world(around, all, base, from, to);
        assert forall|other: int| #[trigger]
            after.world.agents.dom().contains(other) implies sync_agent_ok(
            setting,
            after,
            other,
        ) by {
            assert(sync_agent_ok(setting, before, other));
        }
    }
}

/// What holds of the world holds in the whole run.
proof fn sync_run_keeps_the_world<E>(setting: Setting, worlds: Seq<SyncWorld<E>>, i: int)
    requires
        sync_runs(setting, worlds),
        0 <= i < worlds.len(),
    ensures
        sync_world_ok(
            setting,
            content(surroundings(setting), worlds[0].world.file),
            worlds[i],
        ),
    decreases i,
{
    let base = content(surroundings(setting), worlds[0].world.file);
    if i == 0 {
        let around = surroundings(setting);
        let start = transactions(worlds[0].world);
        assert forall|who: int| #[trigger] start.agents.dom().contains(who) implies agent_ok(
            around,
            start,
            who,
        ) by {
            assert(worlds[0].world.agents.dom().contains(who));
        }
        assert forall|who: int| keys_are_faithful(
            setting.key,
            #[trigger] calls_of(worlds[0].log, who),
        ) by {}
        assert forall|who: int| #[trigger]
            worlds[0].world.agents.dom().contains(who) implies sync_agent_ok(
            setting,
            worlds[0],
            who,
        ) by {}
        assert(start.agents.dom().subset_of(
            vstd::set_lib::set_int_range(0, setting.sids.len() as int),
        )) by {
            assert forall|who: int| #[trigger] start.agents.dom().contains(who) implies 0 <= who
                < setting.sids.len() by {
                assert(worlds[0].world.agents.dom().contains(who));
            }
        }
    } else {
        sync_run_keeps_the_world(setting, worlds, i - 1);
        assert(sync_moves(setting, worlds[i - 1], worlds[i - 1 + 1]));
        sync_move_keeps_the_world(setting, base, worlds[i - 1], worlds[i]);
    }
}

/// Synchronizations never interleave on the ACEs. However the agents take turns, every
/// call on an ACE is made by the agent that owns the mutex, the calls of each agent
/// stand together in the log of all calls, and agents that replace the state file do so
/// in the order of their calls.
pub proof fn law_syncs_never_interleave<E>(setting: Setting, worlds: Seq<SyncWorld<E>>)
    requires
        sync_runs(setting, worlds),
    ensures
        together(worlds.last().log),
        in_order(worlds.last().world.commits, worlds.last().log),
        forall|i: int|
            0 <= i < worlds.len() - 1 ==> {
                ||| (#[trigger] worlds[i + 1]).log == worlds[i].log
                ||| worlds[i + 1].log.len() == worlds[i].log.len() + 1 && worlds[i
                    + 1].log.drop_last() == worlds[i].log && worlds[i].world.owner == Some(
                    worlds[i + 1].log.last().agent,
                )
            },
{
    let base = content(surroundings(setting), worlds[0].world.file);
    sync_run_keeps_the_world(setting, worlds, worlds.len() - 1);
    assert forall|i: int| 0 <= i < worlds.len() - 1 implies {
        ||| (#[trigger] worlds[i + 1]).log == worlds[i].log
        ||| worlds[i + 1].log.len() == worlds[i].log.len() + 1 && worlds[i + 1].log.drop_last()
            == worlds[i].log && worlds[i].world.owner == Some(worlds[i + 1].log.last().agent)
    } by {
        sync_run_keeps_the_world(setting, worlds, i);
        let before = worlds[i];
        let after = worlds[i + 1];
        assert(sync_moves(setting, before, after));
        if exists|who: int, reply: SyncReplyView<E>| #[trigger]
            sync_performs(setting, before, after, who, reply) {
            let (who, reply) = choose|who: int, reply: SyncReplyView<E>| #[trigger]
                sync_performs(setting, before, after, who, reply);
            call_keeps_the_agent(setting, base, before, after, who, reply);
        }
    }
}

/// No synchronization is lost. The replacements of the state file form one chain, in
/// which each agent was given what the one before it returned; the file always stands
/// for what the last of them returned; and an agent that returned has made its
/// replacement exactly where it succeeded, with the paths that it hands out recorded
/// for its principal.
pub proof fn law_no_sync_is_lost<E>(setting: Setting, worlds: Seq<SyncWorld<E>>)
    requires
        sync_runs(setting, worlds),
    ensures
        ({
            let around = surroundings(setting);
            let base = content(around, worlds[0].world.file);
            let world = worlds.last().world;
            &&& chained(around, base, world.commits)
            &&& content(around, world.file) == after_commits(base, world.commits)
            &&& forall|who: int| #[trigger]
                world.agents.dom().contains(who) ==> match world.agents[who].step {
                    Step::Return(Ok(applied)) => exists|k: int|
                        0 <= k < world.commits.len() && recorded_by(
                            setting,
                            #[trigger] world.commits[k],
                            who,
                            applied,
                        ),
                    Step::Return(Err(_)) => !committed(world.commits, who),
                    Step::Perform(_, _) => true,
                }
        }),
{
    let around = surroundings(setting);
    let last = worlds.len() - 1;
    let world = worlds[last].world;
    sync_run_keeps_the_world(setting, worlds, last);
    assert forall|who: int| #[trigger] world.agents.dom().contains(who) implies match
        world.agents[who].step {
        Step::Return(Ok(applied)) => exists|k: int|
            0 <= k < world.commits.len() && recorded_by(
                setting,
                #[trigger] world.commits[k],
                who,
                applied,
            ),
        Step::Return(Err(_)) => !committed(world.commits, who),
        Step::Perform(_, _) => true,
    } by {
        assert(sync_agent_ok(setting, worlds[last], who));
        assert(transactions(world).agents.dom().contains(who));
        assert(agent_ok(around, transactions(world), who));
        if let Step::Return(Ok(applied)) = world.agents[who].step {
            let agent = world.agents[who];
            let k = choose|k: int|
                0 <= k < world.commits.len() && (#[trigger] world.commits[k]).agent == who;
            law_reconcile_outcomes(
                agent.loaded->0,
                setting.sids[who],
                setting.desired[who],
                calls_of(worlds[last].log, who),
                Ok((agent.updated->0, applied)),
            );
            assert(recorded_by(setting, world.commits[k], who, applied));
        }
    }
}

/// The replacement is that of the agent, and records these paths for its principal.
pub open spec fn recorded_by(
    setting: Setting,
    commit: Commit,
    who: int,
    applied: Seq<Seq<u16>>,
) -> bool {
    &&& commit.agent == who
    &&& commit.updated == with_recorded(commit.loaded, setting.sids[who], applied)
}

/// Replacements for other principals leave a principal as it was.
proof fn others_leave_it_alone(
    setting: Setting,
    base: Recorded,
    commits: Seq<Commit>,
    sid: Seq<char>,
    from: int,
    to: int,
)
    requires
        chained(surroundings(setting), base, commits),
        0 <= from <= to <= commits.len(),
        forall|k: int| from <= k < to ==> setting.sids[(#[trigger] commits[k]).agent] != sid,
    ensures
        recorded_paths(after_commits(base, commits.take(to)), sid) == recorded_paths(
            after_commits(base, commits.take(from)),
            sid,
        ),
        after_commits(base, commits.take(to)).dom().contains(sid) == after_commits(
            base,
            commits.take(from),
        ).dom().contains(sid),
    decreases to - from,
{
    if from < to {
        others_leave_it_alone(setting, base, commits, sid, from, to - 1);
        let commit = commits[to - 1];
        let around = surroundings(setting);
        assert((around.change)(commit.agent, commit.loaded, commit.updated));
        let applied = choose|applied: Seq<Seq<u16>>|
            commit.updated == #[trigger] with_recorded(
                commit.loaded,
                setting.sids[commit.agent],
                applied,
            );
        law_other_principals_are_kept(commit.loaded, setting.sids[commit.agent], applied, sid);
        assert(commits.take(to).last() == commit);
    }
}

/// A chain of replacements keeps no principal without paths.
proof fn chain_keeps_paths(setting: Setting, base: Recorded, commits: Seq<Commit>, count: int)
    requires
        chained(surroundings(setting), base, commits),
        all_have_paths(base),
        0 <= count <= commits.len(),
    ensures
        all_have_paths(after_commits(base, commits.take(count))),
    decreases count,
{
    if count > 0 {
        chain_keeps_paths(setting, base, commits, count - 1);
        let commit = commits[count - 1];
        let around = surroundings(setting);
        assert((around.change)(commit.agent, commit.loaded, commit.updated));
        let applied = choose|applied: Seq<Seq<u16>>|
            commit.updated == #[trigger] with_recorded(
                commit.loaded,
                setting.sids[commit.agent],
                applied,
            );
        law_no_principal_is_kept_without_paths(
            commit.loaded,
            setting.sids[commit.agent],
            applied,
        );
        assert(commits.take(count).last() == commit);
    }
}

/// One call more after a history.
proof fn aces_after_one_more<E>(
    key: spec_fn(Seq<u16>) -> Seq<char>,
    aces: Set<Seq<char>>,
    history: Seq<(AclCallView, AclReplyView<E>)>,
    exchange: (AclCallView, AclReplyView<E>),
)
    ensures
        aces_after(key, aces, history.push(exchange)) == aces_after_call(
            key,
            aces_after(key, aces, history),
            exchange,
        ),
    decreases history.len(),
{
    let longer = history.push(exchange);
    if history.len() == 0 {
        assert(longer.drop_first() =~= Seq::empty());
        reveal_with_fuel(aces_after, 2);
    } else {
        aces_after_one_more(
            key,
            aces_after_call(key, aces, history[0]),
            history.drop_first(),
            exchange,
        );
        assert(longer.drop_first() =~= history.drop_first().push(exchange));
    }
}

/// Where no two agents have the same principal, only the agent of a principal touches
/// its ACEs.
proof fn aces_are_those_of_the_agent<E>(
    setting: Setting,
    aces: Set<Seq<char>>,
    log: Seq<AclEvent<E>>,
    who: int,
)
    requires
        setting.sids.no_duplicates(),
        0 <= who < setting.sids.len(),
        forall|i: int|
            0 <= i < log.len() ==> 0 <= (#[trigger] log[i]).agent < setting.sids.len(),
    ensures
        aces_of(setting, aces, log, setting.sids[who]) == aces_after(
            setting.key,
            aces,
            calls_of(log, who),
        ),
    decreases log.len(),
{
    if log.len() > 0 {
        let rest = log.drop_last();
        let event = log[log.len() - 1];
        assert forall|i: int| 0 <= i < rest.len() implies 0 <= (#[trigger] rest[i]).agent
            < setting.sids.len() by {
            assert(rest[i] == log[i]);
        }
        aces_are_those_of_the_agent(setting, aces, rest, who);
        if event.agent == who {
            aces_after_one_more(
                setting.key,
                aces,
                calls_of(rest, who),
                (event.call, event.reply),
            );
        }
    }
}

/// Concurrent synchronizations of different principals do not disturb one another,
/// whatever becomes of the others. At any time, an agent that has succeeded has its
/// paths recorded for its principal, and the ACEs of the principal are the applied ones
/// and those that were never recorded; an agent that has failed left the record of its
/// principal as it was; so is the record of every principal that no agent has; and no
/// principal is kept without paths.
pub proof fn law_concurrent_syncs_preserve_every_principal<E>(
    setting: Setting,
    worlds: Seq<SyncWorld<E>>,
    aces: Map<Seq<char>, Set<Seq<char>>>,
)
    requires
        setting.sids.no_duplicates(),
        sync_runs(setting, worlds),
    ensures
        ({
            let around = surroundings(setting);
            let base = content(around, worlds[0].world.file);
            let world = worlds.last().world;
            let state = content(around, world.file);
            &&& forall|who: int| #[trigger]
                world.agents.dom().contains(who) ==> {
                    let sid = setting.sids[who];
                    match world.agents[who].step {
                        Step::Return(Ok(applied)) => {
                            &&& recorded_paths(state, sid) == applied
                            &&& state.dom().contains(sid) <==> applied.len() > 0
                            &&& aces_of(setting, aces[sid], worlds.last().log, sid) == key_set(
                                setting.key,
                                applied,
                            ).union(
                                aces[sid].difference(
                                    key_set(setting.key, recorded_paths(base, sid)),
                                ),
                            )
                        },
                        Step::Return(Err(_)) => {
                            &&& recorded_paths(state, sid) == recorded_paths(base, sid)
                            &&& state.dom().contains(sid) == base.dom().contains(sid)
                        },
                        Step::Perform(_, _) => true,
                    }
                }
            &&& forall|sid: Seq<char>|
                !setting.sids.contains(sid) ==> #[trigger] recorded_paths(state, sid)
                    == recorded_paths(base, sid) && state.dom().contains(sid)
                    == base.dom().contains(sid)
            &&& all_have_paths(base) ==> all_have_paths(state)
        }),
{
    let around = surroundings(setting);
    let base = content(around, worlds[0].world.file);
    let last = worlds.len() - 1;
    let current = worlds[last];
    let world = current.world;
    let commits = world.commits;
    let count = commits.len() as int;
    let state = content(around, world.file);
    law_no_sync_is_lost(setting, worlds);
    sync_run_keeps_the_world(setting, worlds, last);
    assert(commits.take(count) =~= commits);
    assert(commits.take(0) =~= Seq::empty());
    assert forall|k: int| 0 <= k < count implies 0 <= (#[trigger] commits[k]).agent
        < setting.sids.len() by {
        assert(transactions(world).commits[k] == commits[k]);
    }
    assert forall|who: int| #[trigger] world.agents.dom().contains(who) implies {
        let sid = setting.sids[who];
        match world.agents[who].step {
            Step::Return(Ok(applied)) => {
                &&& recorded_paths(state, sid) == applied
                &&& state.dom().contains(sid) <==> applied.len() > 0
                &&& aces_of(setting, aces[sid], current.log, sid) == key_set(
                    setting.key,
                    applied,
                ).union(aces[sid].difference(key_set(setting.key, recorded_paths(base, sid))))
            },
            Step::Return(Err(_)) => {
                &&& recorded_paths(state, sid) == recorded_paths(base, sid)
                &&& state.dom().contains(sid) == base.dom().contains(sid)
            },
            Step::Perform(_, _) => true,
        }
    } by {
        let sid = setting.sids[who];
        assert(sync_agent_ok(setting, current, who));
        assert(transactions(world).agents.dom().contains(who));
        assert forall|k: int| 0 <= k < count && commits[k].agent != who implies setting.sids[(
        #[trigger] commits[k]).agent] != sid by {}
        match world.agents[who].step {
            Step::Return(Ok(applied)) => {
                let k = choose|k: int|
                    0 <= k < count && recorded_by(setting, #[trigger] commits[k], who, applied);
                let commit = commits[k];
                assert forall|j: int| 0 <= j < count && j != k implies (#[trigger]
                commits[j]).agent != who by {
                    if j < k {
                        assert(commits[j].agent != commits[k].agent);
                    } else {
                        assert(commits[k].agent != commits[j].agent);
                    }
                }
                others_leave_it_alone(setting, base, commits, sid, 0, k);
                others_leave_it_alone(setting, base, commits, sid, k + 1, count);
                assert(commits.take(k + 1).last() == commit);
                law_applied_paths_are_recorded(commit.loaded, sid, applied);
                law_no_stale_ace_is_left(
                    setting.key,
                    aces[sid],
                    commit.loaded,
                    sid,
                    setting.desired[who],
                    calls_of(current.log, who),
                    commit.updated,
                    applied,
                );
                aces_are_those_of_the_agent(setting, aces[sid], current.log, who);
            },
            Step::Return(Err(_)) => {
                assert forall|k: int| 0 <= k < count implies setting.sids[(
                #[trigger] commits[k]).agent] != sid by {
                    assert(commits[k].agent != who);
                }
                others_leave_it_alone(setting, base, commits, sid, 0, count);
            },
            Step::Perform(_, _) => {},
        }
    }
    assert forall|sid: Seq<char>| !setting.sids.contains(sid) implies #[trigger] recorded_paths(
        state,
        sid,
    ) == recorded_paths(base, sid) && state.dom().contains(sid) == base.dom().contains(sid) by {
        assert forall|k: int| 0 <= k < count implies setting.sids[(#[trigger] commits[k]).agent]
            != sid by {
            assert(setting.sids.contains(setting.sids[commits[k].agent]));
        }
        others_leave_it_alone(setting, base, commits, sid, 0, count);
    }
    if all_have_paths(base) {
        chain_keeps_paths(setting, base, commits, count);
    }
}

/// An agent that makes no call from some event on has all its calls before it.
proof fn calls_before<E>(log: Seq<AclEvent<E>>, count: int, who: int)
    requires
        0 <= count <= log.len(),
        forall|i: int| count <= i < log.len() ==> (#[trigger] log[i]).agent != who,
    ensures
        calls_of(log, who) == calls_of(log.take(count), who),
    decreases log.len(),
{
    if count < log.len() {
        let rest = log.drop_last();
        assert(log[log.len() - 1].agent != who);
        assert(rest.take(count) =~= log.take(count));
        calls_before(rest, count, who);
    } else {
        assert(log.take(count) =~= log);
    }
}

/// Where from some event on only one agent touches the ACEs of a principal, and it made
/// no call before, the ACEs are what its calls make of those before.
proof fn aces_from_one_agent<E>(
    setting: Setting,
    aces: Set<Seq<char>>,
    log: Seq<AclEvent<E>>,
    count: int,
    who: int,
)
    requires
        0 <= count <= log.len(),
        forall|i: int| 0 <= i < count ==> (#[trigger] log[i]).agent != who,
        forall|i: int|
            count <= i < log.len() && setting.sids[log[i].agent] == setting.sids[who] ==> (
            #[trigger] log[i]).agent == who,
    ensures
        aces_of(setting, aces, log, setting.sids[who]) == aces_after(
            setting.key,
            aces_of(setting, aces, log.take(count), setting.sids[who]),
            calls_of(log, who),
        ),
    decreases log.len(),
{
    let sid = setting.sids[who];
    let start = aces_of(setting, aces, log.take(count), sid);
    if count < log.len() {
        let rest = log.drop_last();
        let event = log[log.len() - 1];
        assert(rest.take(count) =~= log.take(count));
        aces_from_one_agent(setting, aces, rest, count, who);
        if event.agent == who {
            aces_after_one_more(
                setting.key,
                start,
                calls_of(rest, who),
                (event.call, event.reply),
            );
        }
    } else {
        assert(log.take(count) =~= log);
        no_call_no_calls(log, who);
    }
}

/// An agent without an event has no calls.
proof fn no_call_no_calls<E>(log: Seq<AclEvent<E>>, who: int)
    requires
        forall|i: int| 0 <= i < log.len() ==> (#[trigger] log[i]).agent != who,
    ensures
        calls_of(log, who) == Seq::<(AclCallView, AclReplyView<E>)>::empty(),
    decreases log.len(),
{
    if log.len() > 0 {
        assert(log[log.len() - 1].agent != who);
        no_call_no_calls(log.drop_last(), who);
    }
}

/// Where no agent of a principal made a call, its ACEs are as they were.
proof fn untouched_aces<E>(
    setting: Setting,
    aces: Set<Seq<char>>,
    log: Seq<AclEvent<E>>,
    sid: Seq<char>,
)
    requires
        forall|i: int| 0 <= i < log.len() ==> setting.sids[(#[trigger] log[i]).agent] != sid,
    ensures
        aces_of(setting, aces, log, sid) == aces,
    decreases log.len(),
{
    if log.len() > 0 {
        assert(setting.sids[log[log.len() - 1].agent] != sid);
        untouched_aces(setting, aces, log.drop_last(), sid);
    }
}

/// The calls of the agent led from the state that its replacement was made from to the
/// one that it stored, with this output.
spec fn calls_of_commit<E>(
    setting: Setting,
    commit: Commit,
    log: Seq<AclEvent<E>>,
    applied: Seq<Seq<u16>>,
) -> bool {
    &&& leads_to(
        reconcile_logic::<E>(),
        reconcile_start(commit.loaded, setting.sids[commit.agent], setting.desired[commit.agent]),
        calls_of(log, commit.agent),
        Step::Return(Ok((commit.updated, applied))),
    )
    &&& keys_are_faithful(setting.key, calls_of(log, commit.agent))
}

/// One of the first replacements is for the principal.
spec fn replaced_for(
    setting: Setting,
    commits: Seq<Commit>,
    count: int,
    sid: Seq<char>,
    k: int,
) -> bool {
    0 <= k < count && setting.sids[commits[k].agent] == sid
}

/// What the ACEs of a principal are after some replacements of the state file, where
/// all that touched them are among these: no ACE is left that was recorded and is not
/// recorded any more, and every recorded path has one.
proof fn aces_follow_the_record<E>(
    setting: Setting,
    base: Recorded,
    commits: Seq<Commit>,
    count: int,
    log: Seq<AclEvent<E>>,
    sid: Seq<char>,
    aces: Set<Seq<char>>,
)
    requires
        chained(surroundings(setting), base, commits),
        0 <= count <= commits.len(),
        forall|k: int, j: int, i: int, h: int|
            #![trigger commits[k], commits[j], log[i], log[h]]
            0 <= k < j < count && 0 <= i < log.len() && 0 <= h < log.len() && log[i].agent
                == commits[k].agent && log[h].agent == commits[j].agent ==> i < h,
        forall|i: int|
            0 <= i < log.len() && setting.sids[(#[trigger] log[i]).agent] == sid ==> committed(
                commits.take(count),
                log[i].agent,
            ),
        forall|k: int|
            0 <= k < count && setting.sids[(#[trigger] commits[k]).agent] == sid ==> exists|
                applied: Seq<Seq<u16>>,
            | #[trigger]
                calls_of_commit(setting, commits[k], log, applied),
    ensures
        ({
            let state = after_commits(base, commits.take(count));
            let recorded = key_set(setting.key, recorded_paths(state, sid));
            let unrecorded = aces.difference(key_set(setting.key, recorded_paths(base, sid)));
            let left = aces_of(setting, aces, log, sid);
            if exists|k: int| replaced_for(setting, commits, count, sid, k) {
                &&& recorded.subset_of(left)
                &&& left.subset_of(recorded.union(unrecorded))
                &&& exists|k: int| #[trigger]
                    replaced_for(setting, commits, count, sid, k) && recorded_paths(state, sid)
                        == recorded_paths(commits[k].updated, sid)
            } else {
                &&& left == aces
                &&& recorded_paths(state, sid) == recorded_paths(base, sid)
            }
        }),
    decreases count,
{
    let state = after_commits(base, commits.take(count));
    if count == 0 {
        assert forall|i: int| 0 <= i < log.len() implies setting.sids[(#[trigger] log[i]).agent]
            != sid by {}
        untouched_aces(setting, aces, log, sid);
        assert(commits.take(0) =~= Seq::empty());
        assert forall|k: int| !replaced_for(setting, commits, 0, sid, k) by {}
    } else {
        let last = count - 1;
        let commit = commits[last];
        let earlier = after_commits(base, commits.take(last));
        assert(commits.take(count).last() == commit);
        if setting.sids[commit.agent] != sid {
            assert forall|i: int|
                0 <= i < log.len() && setting.sids[(#[trigger] log[i]).agent]
                    == sid implies committed(commits.take(last), log[i].agent) by {
                let k = choose|k: int|
                    0 <= k < commits.take(count).len() && (#[trigger] commits.take(count)[k]).agent
                        == log[i].agent;
                assert(commits.take(last)[k].agent == log[i].agent);
            }
            aces_follow_the_record(setting, base, commits, last, log, sid, aces);
            others_leave_it_alone(setting, base, commits, sid, last, count);
            assert forall|k: int| replaced_for(setting, commits, count, sid, k)
                == replaced_for(setting, commits, last, sid, k) by {}
        } else {
            let who = commit.agent;
            let applied = choose|applied: Seq<Seq<u16>>| #[trigger]
                calls_of_commit(setting, commit, log, applied);
            law_reconcile_outcomes(
                commit.loaded,
                sid,
                setting.desired[who],
                calls_of(log, who),
                Ok((commit.updated, applied)),
            );
            let start = first_event(log, who);
            let before = log.take(start);
            assert forall|i: int|
                start <= i < log.len() && setting.sids[log[i].agent] == sid implies (#[trigger]
            log[i]).agent == who by {
                assert(committed(commits.take(count), log[i].agent));
                let k = choose|k: int|
                    0 <= k < commits.take(count).len() && (#[trigger] commits.take(count)[k]).agent
                        == log[i].agent;
                assert(commits[k].agent == log[i].agent);
                if k < last {
                    assert(commits[k].agent == log[i].agent && commits[last].agent
                        == log[start].agent);
                }
            }
            aces_from_one_agent(setting, aces, log, start, who);
            assert forall|i: int|
                0 <= i < before.len() && setting.sids[(#[trigger] before[i]).agent]
                    == sid implies committed(commits.take(last), before[i].agent) by {
                assert(before[i] == log[i]);
                let k = choose|k: int|
                    0 <= k < commits.take(count).len() && (#[trigger] commits.take(count)[k]).agent
                        == log[i].agent;
                assert(k < last);
                assert(commits.take(last)[k].agent == log[i].agent);
            }
            assert forall|k: int, j: int, i: int, h: int|
                #![trigger commits[k], commits[j], before[i], before[h]]
                0 <= k < j < last && 0 <= i < before.len() && 0 <= h < before.len()
                    && before[i].agent == commits[k].agent && before[h].agent
                    == commits[j].agent implies i < h by {
                assert(before[i] == log[i] && before[h] == log[h]);
            }
            assert forall|k: int|
                0 <= k < last && setting.sids[(#[trigger] commits[k]).agent] == sid implies exists|
                output: Seq<Seq<u16>>,
            | #[trigger]
                calls_of_commit(setting, commits[k], before, output) by {
                let output = choose|output: Seq<Seq<u16>>| #[trigger]
                    calls_of_commit(setting, commits[k], log, output);
                assert forall|i: int| start <= i < log.len() implies (#[trigger] log[i]).agent
                    != commits[k].agent by {
                    if log[i].agent == commits[k].agent {
                        assert(commits[last].agent == log[start].agent);
                    }
                }
                calls_before(log, start, commits[k].agent);
                assert(calls_of_commit(setting, commits[k], before, output));
            }
            aces_follow_the_record(setting, base, commits, last, before, sid, aces);
            let earlier_aces = aces_of(setting, aces, before, sid);
            assert(commit.loaded == earlier);
            law_no_stale_ace_is_left(
                setting.key,
                earlier_aces,
                commit.loaded,
                sid,
                setting.desired[who],
                calls_of(log, who),
                commit.updated,
                applied,
            );
            law_applied_paths_are_recorded(commit.loaded, sid, applied);
            assert(replaced_for(setting, commits, count, sid, last));
        }
    }
}

/// The first call of an agent.
proof fn first_event<E>(log: Seq<AclEvent<E>>, who: int) -> (start: int)
    requires
        calls_of(log, who).len() > 0,
    ensures
        0 <= start < log.len(),
        log[start].agent == who,
        forall|i: int| 0 <= i < start ==> (#[trigger] log[i]).agent != who,
    decreases log.len(),
{
    let rest = log.drop_last();
    if calls_of(rest, who).len() > 0 {
        let start = first_event(rest, who);
        assert(rest[start] == log[start]);
        assert forall|i: int| 0 <= i < start implies (#[trigger] log[i]).agent != who by {
            assert(rest[i] == log[i]);
        }
        start
    } else {
        assert forall|i: int| 0 <= i < rest.len() implies (#[trigger] log[i]).agent != who by {
            if log[i].agent == who {
                logged_agent_has_calls(rest, i);
                assert(rest[i] == log[i]);
            }
        }
        log.len() - 1
    }
}

/// Concurrent synchronizations of one principal leave no stale ACE behind. Where every
/// agent of the principal has succeeded, and there is one, the record of the principal
/// is what one of them applied, every recorded path has its ACE, and there is no other
/// ACE but those that were there before and were not recorded. So where no ACE was
/// unrecorded, the ACEs of the principal are exactly the recorded ones.
pub proof fn law_concurrent_syncs_of_one_principal<E>(
    setting: Setting,
    worlds: Seq<SyncWorld<E>>,
    sid: Seq<char>,
    aces: Set<Seq<char>>,
)
    requires
        sync_runs(setting, worlds),
        forall|who: int|
            0 <= who < setting.sids.len() && #[trigger] setting.sids[who] == sid ==> {
                &&& worlds.last().world.agents.dom().contains(who)
                &&& worlds.last().world.agents[who].step matches Step::Return(result)
                    && result is Ok
            },
    ensures
        ({
            let around = surroundings(setting);
            let world = worlds.last().world;
            let paths = recorded_paths(content(around, world.file), sid);
            let recorded_before = key_set(
                setting.key,
                recorded_paths(content(around, worlds[0].world.file), sid),
            );
            let recorded = key_set(setting.key, paths);
            let left = aces_of(setting, aces, worlds.last().log, sid);
            &&& setting.sids.contains(sid) ==> {
                &&& exists|who: int|
                    0 <= who < setting.sids.len() && #[trigger] setting.sids[who] == sid
                        && world.agents[who].step == Step::<
                        SyncCallView,
                        SyncView<E>,
                        Result<Seq<Seq<u16>>, UpdateErrorView<E>>,
                    >::Return(Ok(paths))
                &&& recorded.subset_of(left)
                &&& left.subset_of(recorded.union(aces.difference(recorded_before)))
                &&& aces.subset_of(recorded_before) ==> left == recorded
            }
            &&& !setting.sids.contains(sid) ==> left == aces
            &&& aces == recorded_before ==> left == recorded
        }),
{
    let around = surroundings(setting);
    let base = content(around, worlds[0].world.file);
    let last = worlds.len() - 1;
    let current = worlds[last];
    let world = current.world;
    let log = current.log;
    let commits = world.commits;
    let count = commits.len() as int;
    sync_run_keeps_the_world(setting, worlds, last);
    law_no_sync_is_lost(setting, worlds);
    assert(commits.take(count) =~= commits);
    assert forall|k: int| 0 <= k < count implies 0 <= (#[trigger] commits[k]).agent
        < setting.sids.len() by {
        assert(transactions(world).commits[k] == commits[k]);
    }
    assert forall|i: int| 0 <= i < log.len() && setting.sids[(#[trigger] log[i]).agent]
        == sid implies committed(commits.take(count), log[i].agent) by {
        let who = log[i].agent;
        assert(setting.sids[who] == sid);
        assert(world.agents.dom().contains(who));
    }
    assert forall|k: int| 0 <= k < count && setting.sids[(#[trigger] commits[k]).agent]
        == sid implies exists|applied: Seq<Seq<u16>>| #[trigger]
        calls_of_commit(setting, commits[k], log, applied) by {
        let who = commits[k].agent;
        assert(setting.sids[who] == sid);
        assert(sync_agent_ok(setting, current, who));
        let applied = world.agents[who].step->Return_0->Ok_0;
        assert(has_reconciled(setting, current, who, applied));
        assert(keys_are_faithful(setting.key, calls_of(log, who)));
        assert(calls_of_commit(setting, commits[k], log, applied));
    }
    aces_follow_the_record(setting, base, commits, count, log, sid, aces);
    let state = content(around, world.file);
    let recorded = key_set(setting.key, recorded_paths(state, sid));
    let left = aces_of(setting, aces, log, sid);
    if setting.sids.contains(sid) {
        let who = choose|who: int|
            0 <= who < setting.sids.len() && #[trigger] setting.sids[who] == sid;
        assert(world.agents.dom().contains(who));
        assert(committed(commits, who));
        let own = choose|k: int| 0 <= k < count && (#[trigger] commits[k]).agent == who;
        assert(replaced_for(setting, commits, count, sid, own));
        let k = choose|k: int| #[trigger]
            replaced_for(setting, commits, count, sid, k) && recorded_paths(state, sid)
                == recorded_paths(commits[k].updated, sid);
        let writer = commits[k].agent;
        assert(setting.sids[writer] == sid);
        assert(sync_agent_ok(setting, current, writer));
        let applied = world.agents[writer].step->Return_0->Ok_0;
        assert(has_reconciled(setting, current, writer, applied));
        law_reconcile_outcomes(
            commits[k].loaded,
            sid,
            setting.desired[writer],
            calls_of(log, writer),
            Ok((commits[k].updated, applied)),
        );
        law_applied_paths_are_recorded(commits[k].loaded, sid, applied);
        if aces.subset_of(key_set(setting.key, recorded_paths(base, sid))) {
            assert(left =~= recorded);
        }
    } else {
        assert forall|k: int| !replaced_for(setting, commits, count, sid, k) by {
            if 0 <= k < count {
                assert(setting.sids.contains(setting.sids[commits[k].agent]));
            }
        }
    }
}

} // verus!
