//! What holds where many agents, threads or processes, update the state at once.

use crate::calls::CallView;
use crate::calls::ReplyView;
use crate::calls::Step;
use crate::load::LoadView;
use crate::load::ReadState;
use crate::mutex::wait_acquired;
use crate::mutex::AcquireState;
use crate::mutex::ReleaseState;
use crate::reconcile::after_updates;
use crate::reconcile::law_updates_preserve_every_principal;
use crate::reconcile::recorded_paths;
use crate::reconcile::with_recorded;
use crate::state::Recorded;
use crate::state::StatePathView;
use crate::store::InstallState;
use crate::store::StoreView;
use crate::transaction::update_fits;
use crate::transaction::update_next;
use crate::transaction::update_start;
use crate::transaction::ClosingView;
use crate::transaction::OpeningView;
use crate::transaction::UpdateCallView;
use crate::transaction::UpdateReplyView;
use crate::transaction::UpdateStateView;
use crate::transaction::UpdateStepView;
use crate::transaction_laws::update_installs;
use vstd::prelude::*;

verus! {

/// One agent in the middle of its transaction.
pub struct Agent<S> {
    /// Where it stands.
    pub step: S,
    /// What the file holds that it opened last.
    pub opened: Option<Seq<u8>>,
    /// What its temporary file holds, where that is known.
    pub temporary: Option<Seq<u8>>,
    /// The state that its update was given.
    pub loaded: Option<Recorded>,
    /// The state that its update returned.
    pub updated: Option<Recorded>,
}

/// One replacement of the state file.
pub struct Commit {
    /// The agent whose temporary file took its place.
    pub agent: int,
    /// The state that the update of the agent was given.
    pub loaded: Recorded,
    /// The state that the update of the agent returned.
    pub updated: Recorded,
}

/// All agents, and what they share.
pub struct World<S> {
    pub agents: Map<int, Agent<S>>,
    /// The agent that owns the mutex.
    pub owner: Option<int>,
    /// What the state file holds, where there is one.
    pub file: Option<Seq<u8>>,
    /// The replacements of the state file so far.
    pub commits: Seq<Commit>,
}

/// A world of transactions.
pub type UpdateWorld<T, E> = World<UpdateStepView<T, E>>;

/// What surrounds the agents: how bytes are parsed, and which updates an agent makes.
pub struct Surroundings {
    pub parse: spec_fn(Seq<u8>) -> Option<Recorded>,
    pub change: spec_fn(int, Recorded, Recorded) -> bool,
    pub path: StatePathView,
}

/// The state that a file stands for: a missing or invalid one stands for the empty
/// state.
pub open spec fn content(around: Surroundings, file: Option<Seq<u8>>) -> Recorded {
    match file {
        Some(bytes) => match (around.parse)(bytes) {
            Some(state) => state,
            None => Map::empty(),
        },
        None => Map::empty(),
    }
}

/// The replies that an agent can get to a call. The mutex is had only where nobody
/// owns it; a file that is opened is there, and one that is not found is not; what
/// is read is what the opened file holds, and a read that fails never says that the
/// opened file is not found, for then the load would take an existing file for the
/// empty state; parsing inverts serialization; and an update is one that the agent
/// makes.
pub open spec fn possible<S, T, E>(
    around: Surroundings,
    world: World<S>,
    who: int,
    call: UpdateCallView,
    reply: UpdateReplyView<T, E>,
) -> bool {
    match (call, reply) {
        (UpdateCallView::Update(state), UpdateReplyView::Updated(Ok((updated, _)))) => (
        around.change)(who, state, updated),
        (UpdateCallView::System(call), UpdateReplyView::System(reply)) => match (call, reply) {
            (CallView::WaitForMutex(_), ReplyView::Code(status)) => wait_acquired(status)
                ==> world.owner is None,
            (CallView::OpenState(_), ReplyView::Done) => world.file is Some,
            (CallView::OpenState(_), ReplyView::Failed(failure)) => failure.not_found
                ==> world.file is None,
            (CallView::ReadToEnd, ReplyView::Bytes(bytes)) => world.agents[who].opened == Some(
                bytes,
            ),
            (CallView::ReadToEnd, ReplyView::Failed(failure)) => !failure.not_found,
            (CallView::ParseState(bytes), ReplyView::Parsed(state)) => (around.parse)(bytes)
                == Some(state),
            (CallView::ParseState(bytes), ReplyView::Failed(_)) => (around.parse)(bytes) is None,
            (CallView::SerializeState(state), ReplyView::Bytes(bytes)) => (around.parse)(bytes)
                == Some(state),
            _ => true,
        },
        _ => true,
    }
}

/// The call moved the state file aside.
pub open spec fn moves_aside<T, E>(call: UpdateCallView, reply: UpdateReplyView<T, E>) -> bool {
    &&& call is System
    &&& call->System_0 is MoveToBackup
    &&& reply is System
    &&& reply->System_0 is Flag
    &&& reply->System_0->Flag_0 != 0
}

/// The call acquired the mutex.
pub open spec fn acquires<T, E>(call: UpdateCallView, reply: UpdateReplyView<T, E>) -> bool {
    &&& call is System
    &&& call->System_0 is WaitForMutex
    &&& reply is System
    &&& reply->System_0 is Code
    &&& wait_acquired(reply->System_0->Code_0)
}

/// An agent after one of its calls.
pub open spec fn agent_after<S, T, E>(
    world: World<S>,
    agent: Agent<S>,
    call: UpdateCallView,
    reply: UpdateReplyView<T, E>,
    step: S,
) -> Agent<S> {
    match (call, reply) {
        (UpdateCallView::Update(state), UpdateReplyView::Updated(Ok((updated, _)))) => Agent {
            step,
            loaded: Some(state),
            updated: Some(updated),
            ..agent
        },
        (UpdateCallView::System(call), UpdateReplyView::System(reply)) => match (call, reply) {
            (CallView::OpenState(_), ReplyView::Done) => Agent {
                step,
                opened: world.file,
                ..agent
            },
            (CallView::CreateTemporary, ReplyView::Done) => Agent {
                step,
                temporary: Some(Seq::empty()),
                ..agent
            },
            (CallView::WriteTemporary(bytes), ReplyView::Done) => Agent {
                step,
                temporary: Some(bytes),
                ..agent
            },
            (CallView::WriteTemporary(_), _) => Agent { step, temporary: None, ..agent },
            (CallView::DropTemporary, _) => Agent { step, temporary: None, ..agent },
            _ => Agent { step, ..agent },
        },
        _ => Agent { step, ..agent },
    }
}

/// The world after one call of an agent: a wait that ends well gives it the mutex
/// and a release takes it away; its temporary file takes the place of the state file
/// where it is installed; and a file that is moved aside is gone. A call that fails
/// leaves the state file as it is.
pub open spec fn world_after<S, T, E>(
    world: World<S>,
    who: int,
    call: UpdateCallView,
    reply: UpdateReplyView<T, E>,
    step: S,
) -> World<S> {
    let agent = world.agents[who];
    World {
        agents: world.agents.insert(who, agent_after(world, agent, call, reply, step)),
        owner: if acquires(call, reply) {
            Some(who)
        } else if call is System && call->System_0 is ReleaseMutex && world.owner == Some(who) {
            None
        } else {
            world.owner
        },
        file: if update_installs((call, reply)) {
            agent.temporary
        } else if moves_aside(call, reply) {
            None
        } else {
            world.file
        },
        commits: if update_installs((call, reply)) {
            world.commits.push(
                Commit { agent: who, loaded: agent.loaded->0, updated: agent.updated->0 },
            )
        } else {
            world.commits
        },
    }
}

/// An agent performs the call that its transaction asks for, gets this reply, and
/// its transaction goes on.
pub open spec fn performs<T, E>(
    around: Surroundings,
    before: UpdateWorld<T, E>,
    after: UpdateWorld<T, E>,
    who: int,
    reply: UpdateReplyView<T, E>,
) -> bool {
    &&& before.agents.dom().contains(who)
    &&& match before.agents[who].step {
        Step::Perform(call, at) => {
            &&& update_fits(at, reply)
            &&& possible(around, before, who, call, reply)
            &&& after == world_after(
                before,
                who,
                call,
                reply,
                update_next(around.path, at, reply),
            )
        },
        Step::Return(_) => false,
    }
}

/// An agent ends in the middle of its transaction, and the mutex with it.
pub open spec fn dies<S>(before: World<S>, after: World<S>, who: int) -> bool {
    &&& before.agents.dom().contains(who)
    &&& after == World {
        agents: before.agents.remove(who),
        owner: if before.owner == Some(who) {
            None
        } else {
            before.owner
        },
        ..before
    }
}

/// One agent makes one move.
pub open spec fn moves<T, E>(
    around: Surroundings,
    before: UpdateWorld<T, E>,
    after: UpdateWorld<T, E>,
) -> bool {
    ||| exists|who: int, reply: UpdateReplyView<T, E>| #[trigger]
        performs(around, before, after, who, reply)
    ||| exists|who: int| #[trigger] dies(before, after, who)
}

/// Every agent is about to start its transaction under the same mutex.
pub open spec fn starts<T, E>(mutex_name: Seq<char>, world: UpdateWorld<T, E>) -> bool {
    &&& world.owner is None
    &&& world.commits.len() == 0
    &&& forall|who: int| #[trigger]
        world.agents.dom().contains(who) ==> world.agents[who].step == update_start::<T, E>(
            mutex_name,
        )
}

/// A run of all agents, one move after the other, in any order.
pub open spec fn runs<T, E>(
    around: Surroundings,
    mutex_name: Seq<char>,
    worlds: Seq<UpdateWorld<T, E>>,
) -> bool {
    &&& worlds.len() >= 1
    &&& starts(mutex_name, worlds[0])
    &&& forall|i: int|
        0 <= i < worlds.len() - 1 ==> moves(around, #[trigger] worlds[i], worlds[i + 1])
}

/// The state after the first replacements.
pub open spec fn after_commits(base: Recorded, commits: Seq<Commit>) -> Recorded {
    if commits.len() == 0 {
        base
    } else {
        commits.last().updated
    }
}

/// The replacements form a chain: each update was given the state that the one
/// before it returned, the first one the state at the beginning; each is an update
/// that its agent makes; and no agent makes two.
pub open spec fn chained(around: Surroundings, base: Recorded, commits: Seq<Commit>) -> bool {
    &&& forall|k: int|
        0 <= k < commits.len() ==> (#[trigger] commits[k]).loaded == after_commits(
            base,
            commits.take(k),
        )
    &&& forall|k: int|
        0 <= k < commits.len() ==> (around.change)(
            (#[trigger] commits[k]).agent,
            commits[k].loaded,
            commits[k].updated,
        )
    &&& forall|k: int, j: int|
        0 <= k < j < commits.len() ==> (#[trigger] commits[k]).agent != (
        #[trigger] commits[j]).agent
}

/// The agent replaced the state file.
pub open spec fn committed(commits: Seq<Commit>, who: int) -> bool {
    exists|k: int| 0 <= k < commits.len() && (#[trigger] commits[k]).agent == who
}

/// What is known of an agent that loads the state, and of the call it waits for.
pub open spec fn loading_ok(
    around: Surroundings,
    file: Option<Seq<u8>>,
    opened: Option<Seq<u8>>,
    call: CallView,
    at: LoadView,
) -> bool {
    match at {
        LoadView::Reading(ReadState::Opening) => call is OpenState,
        LoadView::Reading(ReadState::Reading) => {
            &&& call is ReadToEnd
            &&& file is Some
            &&& opened == file
        },
        LoadView::Parsing(bytes) => call == CallView::ParseState(bytes) && file == Some(bytes),
        LoadView::Quarantining(_) => {
            &&& content(around, file) == Map::<Seq<char>, Seq<Seq<u16>>>::empty()
            &&& !(call is ReplaceState)
            &&& !(call is MoveIntoPlace)
            &&& !(call is WaitForMutex)
            &&& !(call is ReleaseMutex)
        },
    }
}

/// What is known of an agent that stores a state, and of the call it waits for.
pub open spec fn storing_ok(
    around: Surroundings,
    temporary: Option<Seq<u8>>,
    updated: Recorded,
    call: CallView,
    at: StoreView,
) -> bool {
    let ready = temporary is Some && (around.parse)(temporary->0) == Some(updated);
    match at {
        StoreView::Serializing => call == CallView::SerializeState(updated),
        StoreView::Creating { bytes, .. } => {
            &&& call is CreateTemporary
            &&& (around.parse)(bytes) == Some(updated)
        },
        StoreView::Writing => {
            &&& call is WriteTemporary
            &&& (around.parse)(call->WriteTemporary_0) == Some(updated)
        },
        StoreView::Flushing => call is FlushTemporary && ready,
        StoreView::Syncing => call is SyncTemporary && ready,
        StoreView::Closing => call is CloseTemporary && ready,
        StoreView::Installing(InstallState::Replacing) => call is ReplaceState && ready,
        StoreView::Installing(InstallState::ReplaceFailed) => call is LastError && ready,
        StoreView::Installing(InstallState::Moving) => call is MoveIntoPlace && ready,
        StoreView::Installing(InstallState::MoveFailed) => call is LastError && ready,
        StoreView::Dropping(_) => call is DropTemporary,
    }
}

/// What is known of an agent at any time: while it is between its wait and its
/// release it owns the mutex, what it loaded is still what the file stands for until
/// it replaces the file, and it has replaced the file exactly where it is going to
/// succeed.
pub open spec fn agent_ok<T, E>(around: Surroundings, world: UpdateWorld<T, E>, who: int) -> bool {
    let agent = world.agents[who];
    let owns = world.owner == Some(who);
    let done = committed(world.commits, who);
    match agent.step {
        Step::Return(result) => done == result is Ok && !owns,
        Step::Perform(call, UpdateStateView::Opening(OpeningView::Acquiring(at))) => {
            &&& !done
            &&& !owns
            &&& call is System
            &&& match at {
                AcquireState::Creating => call->System_0 is CreateMutex,
                AcquireState::CreateFailed => call->System_0 is LastError,
                AcquireState::Waiting(_) => call->System_0 is WaitForMutex,
                AcquireState::WaitFailed(_) => call->System_0 is LastError,
                AcquireState::Closing(_) => call->System_0 is CloseHandle,
            }
        },
        Step::Perform(call, UpdateStateView::Opening(OpeningView::Loading(_, at))) => {
            &&& !done
            &&& owns
            &&& call is System
            &&& loading_ok(around, world.file, agent.opened, call->System_0, at)
        },
        Step::Perform(call, UpdateStateView::Updating(_)) => {
            &&& !done
            &&& owns
            &&& call == UpdateCallView::Update(content(around, world.file))
        },
        Step::Perform(call, UpdateStateView::Closing(ClosingView::Storing(_, at, _))) => {
            &&& owns
            &&& call is System
            &&& agent.loaded is Some
            &&& agent.updated is Some
            &&& storing_ok(around, agent.temporary, agent.updated->0, call->System_0, at)
            &&& (around.change)(who, agent.loaded->0, agent.updated->0)
            &&& done == (at matches StoreView::Dropping(result) && result is Ok)
            &&& !done ==> agent.loaded->0 == content(around, world.file)
        },
        Step::Perform(call, UpdateStateView::Closing(ClosingView::Releasing(at, result))) => {
            &&& done == result is Ok
            &&& call is System
            &&& match at {
                ReleaseState::Releasing(_) => call->System_0 is ReleaseMutex && owns,
                ReleaseState::Closing => call->System_0 is CloseHandle && !owns,
            }
        },
    }
}

/// What holds of the world at any time.
pub open spec fn world_ok<T, E>(
    around: Surroundings,
    all: Set<int>,
    base: Recorded,
    world: UpdateWorld<T, E>,
) -> bool {
    &&& chained(around, base, world.commits)
    &&& content(around, world.file) == after_commits(base, world.commits)
    &&& forall|k: int|
        0 <= k < world.commits.len() ==> all.contains((#[trigger] world.commits[k]).agent)
    &&& world.agents.dom().subset_of(all)
    &&& world.owner matches Some(who) ==> world.agents.dom().contains(who)
    &&& forall|who: int| #[trigger]
        world.agents.dom().contains(who) ==> agent_ok(around, world, who)
}

/// A call of one agent keeps what is known of it, of the file and of the chain.
proof fn step_keeps_the_agent<T, E>(
    around: Surroundings,
    all: Set<int>,
    base: Recorded,
    before: UpdateWorld<T, E>,
    after: UpdateWorld<T, E>,
    who: int,
    reply: UpdateReplyView<T, E>,
)
    requires
        world_ok(around, all, base, before),
        performs(around, before, after, who, reply),
    ensures
        agent_ok(around, after, who),
        chained(around, base, after.commits),
        content(around, after.file) == after_commits(base, after.commits),
        forall|k: int|
            0 <= k < after.commits.len() ==> all.contains((#[trigger] after.commits[k]).agent),
        before.owner != Some(who) ==> after.file == before.file && after.commits == before.commits,
        forall|other: int|
            other != who ==> committed(after.commits, other) == committed(before.commits, other),
        after.owner == before.owner || (before.owner is None && after.owner == Some(who)) || (
        before.owner == Some(who) && after.owner is None),
{
    let agent = before.agents[who];
    assert(agent_ok(around, before, who));
    let call = agent.step->Perform_0;
    if update_installs((call, reply)) {
        let new = after.commits.last();
        let last = before.commits.len() as int;
        assert(after.commits.take(last) =~= before.commits);
        assert(after.commits[last].agent == who);
        assert forall|k: int| 0 <= k < after.commits.len() implies (#[trigger]
        after.commits[k]).loaded == after_commits(base, after.commits.take(k)) by {
            if k < last {
                assert(after.commits.take(k) =~= before.commits.take(k));
            }
        }
        assert forall|other: int| other != who implies committed(after.commits, other)
            == committed(before.commits, other) by {
            if committed(before.commits, other) {
                let k = choose|k: int|
                    0 <= k < before.commits.len() && (#[trigger] before.commits[k]).agent == other;
                assert(after.commits[k].agent == other);
            }
            if committed(after.commits, other) {
                let k = choose|k: int|
                    0 <= k < after.commits.len() && (#[trigger] after.commits[k]).agent == other;
                assert(before.commits[k].agent == other);
            }
        }
        assert(committed(after.commits, who));
    }
}

/// One move keeps what holds of the world.
pub proof fn move_keeps_the_world<T, E>(
    around: Surroundings,
    all: Set<int>,
    base: Recorded,
    before: UpdateWorld<T, E>,
    after: UpdateWorld<T, E>,
)
    requires
        world_ok(around, all, base, before),
        moves(around, before, after),
    ensures
        world_ok(around, all, base, after),
{
    if exists|who: int, reply: UpdateReplyView<T, E>| #[trigger]
        performs(around, before, after, who, reply) {
        let (who, reply) = choose|who: int, reply: UpdateReplyView<T, E>| #[trigger]
            performs(around, before, after, who, reply);
        step_keeps_the_agent(around, all, base, before, after, who, reply);
        assert forall|other: int| #[trigger] after.agents.dom().contains(other) implies agent_ok(
            around,
            after,
            other,
        ) by {
            if other != who {
                assert(before.agents.dom().contains(other));
                assert(agent_ok(around, before, other));
                assert(after.agents[other] == before.agents[other]);
            }
        }
    } else {
        let who = choose|who: int| #[trigger] dies(before, after, who);
        assert forall|other: int| #[trigger] after.agents.dom().contains(other) implies agent_ok(
            around,
            after,
            other,
        ) by {
            assert(before.agents.dom().contains(other));
            assert(agent_ok(around, before, other));
        }
    }
}

/// What holds of the world holds in the whole run.
proof fn run_keeps_the_world<T, E>(
    around: Surroundings,
    mutex_name: Seq<char>,
    worlds: Seq<UpdateWorld<T, E>>,
    i: int,
)
    requires
        runs(around, mutex_name, worlds),
        0 <= i < worlds.len(),
    ensures
        world_ok(
            around,
            worlds[0].agents.dom(),
            content(around, worlds[0].file),
            worlds[i],
        ),
    decreases i,
{
    let all = worlds[0].agents.dom();
    let base = content(around, worlds[0].file);
    if i == 0 {
        assert forall|who: int| #[trigger] worlds[0].agents.dom().contains(who) implies agent_ok(
            around,
            worlds[0],
            who,
        ) by {}
    } else {
        run_keeps_the_world(around, mutex_name, worlds, i - 1);
        assert(moves(around, worlds[i - 1], worlds[i - 1 + 1]));
        move_keeps_the_world(around, all, base, worlds[i - 1], worlds[i]);
    }
}

/// No update is lost. However the transactions of many agents interleave, and even
/// where agents end in the middle of theirs, the replacements of the state file form
/// one chain in which each update was given what the one before it returned; the
/// file always stands for what the last of them returned; and an agent that returned
/// has made its replacement, one, exactly where it succeeded.
pub proof fn law_no_update_is_lost<T, E>(
    around: Surroundings,
    mutex_name: Seq<char>,
    worlds: Seq<UpdateWorld<T, E>>,
)
    requires
        runs(around, mutex_name, worlds),
    ensures
        ({
            let base = content(around, worlds[0].file);
            let world = worlds.last();
            &&& chained(around, base, world.commits)
            &&& content(around, world.file) == after_commits(base, world.commits)
            &&& forall|who: int| #[trigger]
                world.agents.dom().contains(who) ==> (world.agents[who].step matches Step::Return(
                    result,
                ) ==> committed(world.commits, who) == result is Ok)
        }),
{
    let last = worlds.len() - 1;
    run_keeps_the_world(around, mutex_name, worlds, last);
    assert forall|who: int| #[trigger] worlds[last].agents.dom().contains(who) implies agent_ok(
        around,
        worlds[last],
        who,
    ) by {}
}

/// The surroundings in which each agent records paths of its own for a principal of
/// its own.
pub open spec fn recording(
    parse: spec_fn(Seq<u8>) -> Option<Recorded>,
    path: StatePathView,
    sids: Seq<Seq<char>>,
    applied: Seq<Seq<Seq<u16>>>,
) -> Surroundings {
    Surroundings {
        parse,
        change: |who: int, state: Recorded, updated: Recorded|
            updated == with_recorded(state, sids[who], applied[who]),
        path,
    }
}

/// The updates of the agents in the order of their replacements.
spec fn recorded_updates(
    sids: Seq<Seq<char>>,
    applied: Seq<Seq<Seq<u16>>>,
    commits: Seq<Commit>,
) -> Seq<(Seq<char>, Seq<Seq<u16>>)> {
    commits.map_values(|commit: Commit| (sids[commit.agent], applied[commit.agent]))
}

/// A chain of replacements amounts to the updates one after the other.
proof fn chain_is_sequential(
    parse: spec_fn(Seq<u8>) -> Option<Recorded>,
    path: StatePathView,
    sids: Seq<Seq<char>>,
    applied: Seq<Seq<Seq<u16>>>,
    base: Recorded,
    commits: Seq<Commit>,
)
    requires
        chained(recording(parse, path, sids, applied), base, commits),
    ensures
        after_commits(base, commits) == after_updates(
            base,
            recorded_updates(sids, applied, commits),
        ),
    decreases commits.len(),
{
    let around = recording(parse, path, sids, applied);
    if commits.len() > 0 {
        let last = commits.len() - 1;
        let before = commits.drop_last();
        assert(commits.take(last) =~= before);
        assert forall|k: int| 0 <= k < before.len() implies (#[trigger] before[k]).loaded
            == after_commits(base, before.take(k)) by {
            assert(before[k] == commits[k]);
            assert(before.take(k) =~= commits.take(k));
        }
        assert forall|k: int| 0 <= k < before.len() implies (around.change)(
            (#[trigger] before[k]).agent,
            before[k].loaded,
            before[k].updated,
        ) by {
            assert(before[k] == commits[k]);
        }
        assert forall|k: int, j: int| 0 <= k < j < before.len() implies (#[trigger]
        before[k]).agent != (#[trigger] before[j]).agent by {
            assert(before[k] == commits[k] && before[j] == commits[j]);
        }
        chain_is_sequential(parse, path, sids, applied, base, before);
        let updates = recorded_updates(sids, applied, commits);
        assert(updates.drop_last() =~= recorded_updates(sids, applied, before));
        assert((around.change)(commits[last].agent, commits[last].loaded, commits[last].updated));
    }
}

/// The agents of a chain are as many as its replacements; where every agent made
/// one, these are all of them.
proof fn every_agent_once(around: Surroundings, base: Recorded, commits: Seq<Commit>, count: nat)
    requires
        chained(around, base, commits),
        forall|k: int| 0 <= k < commits.len() ==> 0 <= (#[trigger] commits[k]).agent < count,
        forall|who: int| 0 <= who < count ==> #[trigger] committed(commits, who),
    ensures
        commits.len() == count,
{
    let agents = commits.map_values(|commit: Commit| commit.agent);
    assert(agents.no_duplicates());
    agents.unique_seq_to_set();
    vstd::set_lib::lemma_int_range(0, count as int);
    let range = vstd::set_lib::set_int_range(0, count as int);
    assert forall|who: int| #[trigger] range.contains(who) implies agents.to_set().contains(
        who,
    ) by {
        assert(committed(commits, who));
        let k = choose|k: int| 0 <= k < commits.len() && (#[trigger] commits[k]).agent == who;
        assert(agents[k] == who);
    }
    assert(agents.to_set() =~= range);
}

/// Concurrent updates preserve every principal. Where agents record paths of
/// different principals, all at once and in any interleaving, and each of them
/// succeeds, the state file ends up with the paths of every one of them and with
/// nothing else.
pub proof fn law_concurrent_updates_preserve_every_principal<T, E>(
    parse: spec_fn(Seq<u8>) -> Option<Recorded>,
    path: StatePathView,
    mutex_name: Seq<char>,
    sids: Seq<Seq<char>>,
    applied: Seq<Seq<Seq<u16>>>,
    worlds: Seq<UpdateWorld<T, E>>,
)
    requires
        sids.no_duplicates(),
        applied.len() == sids.len(),
        forall|who: int| 0 <= who < applied.len() ==> (#[trigger] applied[who]).len() > 0,
        runs(recording(parse, path, sids, applied), mutex_name, worlds),
        content(recording(parse, path, sids, applied), worlds[0].file) == Map::<
            Seq<char>,
            Seq<Seq<u16>>,
        >::empty(),
        forall|who: int| #[trigger]
            worlds[0].agents.dom().contains(who) <==> 0 <= who < sids.len(),
        forall|who: int|
            0 <= who < sids.len() ==> {
                &&& #[trigger] worlds.last().agents.dom().contains(who)
                &&& worlds.last().agents[who].step matches Step::Return(result) && result is Ok
            },
    ensures
        ({
            let state = content(recording(parse, path, sids, applied), worlds.last().file);
            &&& state.dom().finite()
            &&& state.len() == sids.len()
            &&& forall|who: int|
                0 <= who < sids.len() ==> state.dom().contains(#[trigger] sids[who])
                    && recorded_paths(state, sids[who]) == applied[who]
        }),
{
    let around = recording(parse, path, sids, applied);
    let base = content(around, worlds[0].file);
    let last = worlds.len() - 1;
    let world = worlds[last];
    let commits = world.commits;
    law_no_update_is_lost(around, mutex_name, worlds);
    run_keeps_the_world(around, mutex_name, worlds, last);
    assert forall|k: int| 0 <= k < commits.len() implies 0 <= (#[trigger] commits[k]).agent
        < sids.len() by {
        assert(worlds[0].agents.dom().contains(commits[k].agent));
    }
    assert forall|who: int| 0 <= who < sids.len() implies #[trigger] committed(commits, who) by {
        assert(world.agents.dom().contains(who));
    }
    every_agent_once(around, base, commits, sids.len());
    chain_is_sequential(parse, path, sids, applied, base, commits);
    let updates = recorded_updates(sids, applied, commits);
    assert forall|i: int, j: int| 0 <= i < j < updates.len() implies (#[trigger] updates[i]).0 != (
    #[trigger] updates[j]).0 by {
        assert(commits[i].agent != commits[j].agent);
    }
    assert forall|i: int| 0 <= i < updates.len() implies (#[trigger] updates[i]).1.len() > 0 by {
        assert(applied[commits[i].agent].len() > 0);
    }
    law_updates_preserve_every_principal(updates);
    let state = after_updates(base, updates);
    assert forall|who: int| 0 <= who < sids.len() implies state.dom().contains(
        #[trigger] sids[who],
    ) && recorded_paths(state, sids[who]) == applied[who] by {
        assert(committed(commits, who));
        let k = choose|k: int| 0 <= k < commits.len() && (#[trigger] commits[k]).agent == who;
        assert(updates[k] == (sids[who], applied[who]));
        assert(updates[k].0 == sids[who]);
    }
}

} // verus!
