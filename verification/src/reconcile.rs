//! Bringing the deny-read ACEs of one principal in line with the paths it should
//! be denied.

use crate::calls::Step;
use crate::error::texts;
use crate::principals::clone_paths;
use crate::principals::paths_view;
use crate::principals::WidePath;
use crate::run::leads_through;
use crate::run::leads_to;
use crate::run::Logic;
use crate::state::PersistentDenyReadAclState;
use crate::state::Recorded;
use vstd::prelude::*;

verus! {

/// A call that reads or changes ACEs.
#[derive(Debug, PartialEq, Eq)]
pub enum AclCall {
    /// Deny the principal to read these paths.
    Apply(Vec<WidePath>),
    /// Ask for the lexical keys of two lists of paths.
    LexicalKeys { applied: Vec<WidePath>, previous: Vec<WidePath> },
    /// Revoke the ACE of the principal on this path.
    Revoke(WidePath),
}

/// A call that reads or changes ACEs, with its values.
pub enum AclCallView {
    Apply(Seq<Seq<u16>>),
    LexicalKeys { applied: Seq<Seq<u16>>, previous: Seq<Seq<u16>> },
    Revoke(Seq<u16>),
}

impl View for AclCall {
    type V = AclCallView;

    open spec fn view(&self) -> AclCallView {
        match *self {
            AclCall::Apply(paths) => AclCallView::Apply(paths_view(paths@)),
            AclCall::LexicalKeys { applied, previous } => AclCallView::LexicalKeys {
                applied: paths_view(applied@),
                previous: paths_view(previous@),
            },
            AclCall::Revoke(path) => AclCallView::Revoke(path@),
        }
    }
}

/// What a call on ACEs came back with.
#[derive(Debug, PartialEq, Eq)]
pub enum AclReply<E> {
    /// These paths are now denied.
    Applied(Vec<WidePath>),
    /// The paths could not all be denied.
    ApplyFailed(E),
    /// The lexical key of each path of the two lists.
    Keys { applied: Vec<String>, previous: Vec<String> },
    /// The call is over.
    Done,
}

/// A reply to a call on ACEs, with its values.
pub enum AclReplyView<E> {
    Applied(Seq<Seq<u16>>),
    ApplyFailed(E),
    Keys { applied: Seq<Seq<char>>, previous: Seq<Seq<char>> },
    Done,
}

impl<E> View for AclReply<E> {
    type V = AclReplyView<E>;

    open spec fn view(&self) -> AclReplyView<E> {
        match *self {
            AclReply::Applied(paths) => AclReplyView::Applied(paths_view(paths@)),
            AclReply::ApplyFailed(error) => AclReplyView::ApplyFailed(error),
            AclReply::Keys { applied, previous } => AclReplyView::Keys {
                applied: texts(applied@),
                previous: texts(previous@),
            },
            AclReply::Done => AclReplyView::Done,
        }
    }
}

/// The paths that are stale: those recorded before whose key is not among the keys
/// of the applied paths, in their order. `keys[i]` is the key of `previous[i]`.
pub open spec fn stale(
    previous: Seq<Seq<u16>>,
    keys: Seq<Seq<char>>,
    applied_keys: Seq<Seq<char>>,
) -> Seq<Seq<u16>>
    decreases previous.len(),
{
    if previous.len() == 0 {
        Seq::empty()
    } else {
        let rest = stale(previous.drop_last(), keys.drop_last(), applied_keys);
        if applied_keys.contains(keys.last()) {
            rest
        } else {
            rest.push(previous.last())
        }
    }
}

/// The paths recorded for a principal; none where it is not recorded.
pub open spec fn recorded_paths(state: Recorded, sid: Seq<char>) -> Seq<Seq<u16>> {
    if state.dom().contains(sid) {
        state[sid]
    } else {
        Seq::empty()
    }
}

/// The state after paths were applied for a principal: they are what is recorded
/// for it, and a principal without paths is not recorded.
pub open spec fn with_recorded(
    state: Recorded,
    sid: Seq<char>,
    applied: Seq<Seq<u16>>,
) -> Recorded {
    if applied.len() == 0 {
        state.remove(sid)
    } else {
        state.insert(sid, applied)
    }
}

/// Whether a key is among a list of keys.
fn contains_key(keys: &Vec<String>, key: &String) -> (found: bool)
    ensures
        found == texts(keys@).contains(key@),
{
    let mut i: usize = 0;
    while i < keys.len()
        invariant
            i <= keys@.len(),
            forall|k: int| 0 <= k < i ==> (#[trigger] keys@[k])@ != key@,
        decreases keys@.len() - i,
    {
        if keys[i] == *key {
            assert(texts(keys@)[i as int] == key@);
            return true;
        }
        i = i + 1;
    }
    assert forall|k: int| 0 <= k < texts(keys@).len() implies texts(keys@)[k] != key@ by {
        assert(keys@[k]@ != key@);
    }
    false
}

/// The previous paths that are stale, in their order.
pub fn stale_paths(
    previous: &Vec<WidePath>,
    keys: &Vec<String>,
    applied_keys: &Vec<String>,
) -> (list: Vec<WidePath>)
    requires
        keys@.len() == previous@.len(),
    ensures
        paths_view(list@) == stale(paths_view(previous@), texts(keys@), texts(applied_keys@)),
{
    let mut list: Vec<WidePath> = Vec::new();
    let mut i: usize = 0;
    let ghost all = paths_view(previous@);
    let ghost all_keys = texts(keys@);
    assert(paths_view(list@) =~= stale(all.take(0), all_keys.take(0), texts(applied_keys@)));
    while i < previous.len()
        invariant
            i <= previous@.len(),
            keys@.len() == previous@.len(),
            all == paths_view(previous@),
            all_keys == texts(keys@),
            paths_view(list@) == stale(
                all.take(i as int),
                all_keys.take(i as int),
                texts(applied_keys@),
            ),
        decreases previous@.len() - i,
    {
        let ghost before = list@;
        if !contains_key(applied_keys, &keys[i]) {
            let path = previous[i].clone();
            assert(path@ =~= previous@[i as int]@);
            list.push(path);
            assert(paths_view(list@) =~= paths_view(before).push(all[i as int]));
        }
        assert(all.take(i + 1).drop_last() =~= all.take(i as int));
        assert(all_keys.take(i + 1).drop_last() =~= all_keys.take(i as int));
        i = i + 1;
    }
    assert(all.take(i as int) =~= all);
    assert(all_keys.take(i as int) =~= all_keys);
    list
}

/// Records the applied paths for a principal.
pub fn record_applied(
    state: &mut PersistentDenyReadAclState,
    sid: String,
    applied: &Vec<WidePath>,
)
    ensures
        final(state)@ == with_recorded(old(state)@, sid@, paths_view(applied@)),
        applied@.len() > 0 ==> final(state)@ == old(state)@.insert(sid@, paths_view(applied@)),
        applied@.len() == 0 ==> final(state)@ == old(state)@.remove(sid@),
{
    if applied.is_empty() {
        let _ = state.principals.remove(&sid);
    } else {
        let _ = state.principals.insert(sid, clone_paths(applied));
    }
}

/// Where the reconciliation of one principal stands.
#[derive(Debug, PartialEq, Eq)]
pub enum ReconcileState {
    /// The desired paths are being applied.
    Applying { state: PersistentDenyReadAclState, sid: String },
    /// The keys of the applied and of the previous paths are being determined.
    Keying {
        state: PersistentDenyReadAclState,
        sid: String,
        applied: Vec<WidePath>,
        previous: Vec<WidePath>,
    },
    /// A stale path is being revoked; these remain.
    Revoking {
        state: PersistentDenyReadAclState,
        sid: String,
        applied: Vec<WidePath>,
        remaining: Vec<WidePath>,
    },
}

/// The state of a reconciliation with its values.
pub enum ReconcileView {
    Applying { state: Recorded, sid: Seq<char> },
    Keying {
        state: Recorded,
        sid: Seq<char>,
        applied: Seq<Seq<u16>>,
        previous: Seq<Seq<u16>>,
    },
    Revoking {
        state: Recorded,
        sid: Seq<char>,
        applied: Seq<Seq<u16>>,
        remaining: Seq<Seq<u16>>,
    },
}

impl View for ReconcileState {
    type V = ReconcileView;

    open spec fn view(&self) -> ReconcileView {
        match *self {
            ReconcileState::Applying { state, sid } => ReconcileView::Applying {
                state: state@,
                sid: sid@,
            },
            ReconcileState::Keying { state, sid, applied, previous } => ReconcileView::Keying {
                state: state@,
                sid: sid@,
                applied: paths_view(applied@),
                previous: paths_view(previous@),
            },
            ReconcileState::Revoking { state, sid, applied, remaining } =>
                ReconcileView::Revoking {
                    state: state@,
                    sid: sid@,
                    applied: paths_view(applied@),
                    remaining: paths_view(remaining@),
                },
        }
    }
}

pub type ReconcileStep<E> = Step<
    AclCall,
    ReconcileState,
    Result<(PersistentDenyReadAclState, Vec<WidePath>), E>,
>;

pub type ReconcileStepView<E> = Step<
    AclCallView,
    ReconcileView,
    Result<(Recorded, Seq<Seq<u16>>), E>,
>;

/// A step of a reconciliation with its values.
pub open spec fn reconcile_view<E>(step: ReconcileStep<E>) -> ReconcileStepView<E> {
    match step {
        Step::Perform(call, at) => Step::Perform(call@, at@),
        Step::Return(Ok((state, applied))) => Step::Return(
            Ok((state@, paths_view(applied@))),
        ),
        Step::Return(Err(error)) => Step::Return(Err(error)),
    }
}

/// The first step of a reconciliation: the desired paths are applied before
/// anything is revoked.
pub open spec fn reconcile_start<E>(
    state: Recorded,
    sid: Seq<char>,
    desired: Seq<Seq<u16>>,
) -> ReconcileStepView<E> {
    Step::Perform(AclCallView::Apply(desired), ReconcileView::Applying { state, sid })
}

/// The stale paths are revoked one after the other; then the applied paths are
/// recorded and handed out.
pub open spec fn revoke_or_record<E>(
    state: Recorded,
    sid: Seq<char>,
    applied: Seq<Seq<u16>>,
    remaining: Seq<Seq<u16>>,
) -> ReconcileStepView<E> {
    if remaining.len() == 0 {
        Step::Return(Ok((with_recorded(state, sid, applied), applied)))
    } else {
        Step::Perform(
            AclCallView::Revoke(remaining[0]),
            ReconcileView::Revoking { state, sid, applied, remaining: remaining.drop_first() },
        )
    }
}

/// The reply answers the call that the reconciliation waits for.
pub open spec fn reconcile_fits<E>(at: ReconcileView, reply: AclReplyView<E>) -> bool {
    match (at, reply) {
        (ReconcileView::Applying { .. }, AclReplyView::Applied(_)) => true,
        (ReconcileView::Applying { .. }, AclReplyView::ApplyFailed(_)) => true,
        (
            ReconcileView::Keying { previous, applied, .. },
            AclReplyView::Keys { applied: applied_keys, previous: previous_keys },
        ) => applied_keys.len() == applied.len() && previous_keys.len() == previous.len(),
        (ReconcileView::Revoking { .. }, AclReplyView::Done) => true,
        _ => false,
    }
}

/// How a reconciliation goes on after a reply. Where the desired paths could not be
/// applied it ends with that error.
pub open spec fn reconcile_next<E>(
    at: ReconcileView,
    reply: AclReplyView<E>,
) -> ReconcileStepView<E> {
    match (at, reply) {
        (ReconcileView::Applying { state, sid }, AclReplyView::Applied(applied)) => {
            let previous = recorded_paths(state, sid);
            Step::Perform(
                AclCallView::LexicalKeys { applied, previous },
                ReconcileView::Keying { state, sid, applied, previous },
            )
        },
        (ReconcileView::Applying { .. }, AclReplyView::ApplyFailed(error)) => Step::Return(
            Err(error),
        ),
        (
            ReconcileView::Keying { state, sid, applied, previous },
            AclReplyView::Keys { applied: applied_keys, previous: previous_keys },
        ) => revoke_or_record(state, sid, applied, stale(previous, previous_keys, applied_keys)),
        (ReconcileView::Revoking { state, sid, applied, remaining }, AclReplyView::Done) =>
            revoke_or_record(state, sid, applied, remaining),
        _ => arbitrary(),
    }
}

/// Begins to bring the ACEs of a principal in line with its desired paths.
pub fn reconcile<E>(
    state: PersistentDenyReadAclState,
    sid: String,
    desired: Vec<WidePath>,
) -> (step: ReconcileStep<E>)
    ensures
        reconcile_view(step) == reconcile_start::<E>(state@, sid@, paths_view(desired@)),
{
    Step::Perform(AclCall::Apply(desired), ReconcileState::Applying { state, sid })
}

/// Revokes the next stale path, or records the applied paths once none is left.
fn go_on<E>(
    state: PersistentDenyReadAclState,
    sid: String,
    applied: Vec<WidePath>,
    remaining: Vec<WidePath>,
) -> (step: ReconcileStep<E>)
    ensures
        reconcile_view(step) == revoke_or_record::<E>(
            state@,
            sid@,
            paths_view(applied@),
            paths_view(remaining@),
        ),
{
    let mut remaining = remaining;
    if remaining.is_empty() {
        let mut state = state;
        record_applied(&mut state, sid, &applied);
        Step::Return(Ok((state, applied)))
    } else {
        let ghost all = remaining@;
        let path = remaining.remove(0);
        assert(paths_view(remaining@) =~= paths_view(all).drop_first());
        Step::Perform(
            AclCall::Revoke(path),
            ReconcileState::Revoking { state, sid, applied, remaining },
        )
    }
}

impl ReconcileState {
    /// Whether the reply answers the call that is waited for.
    pub fn accepts<E>(&self, reply: &AclReply<E>) -> (accepts: bool)
        ensures
            accepts == reconcile_fits(self@, reply@),
    {
        match (self, reply) {
            (ReconcileState::Applying { .. }, AclReply::Applied(_)) => true,
            (ReconcileState::Applying { .. }, AclReply::ApplyFailed(_)) => true,
            (
                ReconcileState::Keying { applied, previous, .. },
                AclReply::Keys { applied: applied_keys, previous: previous_keys },
            ) => applied_keys.len() == applied.len() && previous_keys.len() == previous.len(),
            (ReconcileState::Revoking { .. }, AclReply::Done) => true,
            _ => false,
        }
    }

    /// Goes on with the reconciliation after a reply.
    pub fn resume<E>(self, reply: AclReply<E>) -> (step: ReconcileStep<E>)
        requires
            reconcile_fits(self@, reply@),
        ensures
            reconcile_view(step) == reconcile_next(self@, reply@),
    {
        match (self, reply) {
            (ReconcileState::Applying { state, sid }, AclReply::Applied(applied)) => {
                let previous = match state.principals.get(&sid) {
                    Some(paths) => clone_paths(paths),
                    None => Vec::new(),
                };
                assert(paths_view(previous@) =~= recorded_paths(state@, sid@));
                Step::Perform(
                    AclCall::LexicalKeys {
                        applied: clone_paths(&applied),
                        previous: clone_paths(&previous),
                    },
                    ReconcileState::Keying { state, sid, applied, previous },
                )
            },
            (ReconcileState::Applying { .. }, AclReply::ApplyFailed(error)) => Step::Return(
                Err(error),
            ),
            (
                ReconcileState::Keying { state, sid, applied, previous },
                AclReply::Keys { applied: applied_keys, previous: previous_keys },
            ) => {
                let list = stale_paths(&previous, &previous_keys, &applied_keys);
                go_on(state, sid, applied, list)
            },
            (ReconcileState::Revoking { state, sid, applied, remaining }, AclReply::Done) => go_on(
                state,
                sid,
                applied,
                remaining,
            ),
            _ => vstd::pervasive::unreached(),
        }
    }
}

/// The reconciliation as a piece of logic.
pub open spec fn reconcile_logic<E>() -> Logic<
    AclCallView,
    AclReplyView<E>,
    ReconcileView,
    Result<(Recorded, Seq<Seq<u16>>), E>,
> {
    Logic {
        next: |at: ReconcileView, reply: AclReplyView<E>| reconcile_next(at, reply),
        fits: |at: ReconcileView, reply: AclReplyView<E>| reconcile_fits(at, reply),
    }
}

/// While stale paths are revoked, each of them is revoked once and in order, and
/// nothing else happens before the applied paths are recorded.
proof fn revocations<E>(
    state: Recorded,
    sid: Seq<char>,
    applied: Seq<Seq<u16>>,
    remaining: Seq<Seq<u16>>,
    history: Seq<(AclCallView, AclReplyView<E>)>,
    result: Result<(Recorded, Seq<Seq<u16>>), E>,
)
    requires
        leads_to(
            reconcile_logic::<E>(),
            revoke_or_record(state, sid, applied, remaining),
            history,
            Step::Return(result),
        ),
    ensures
        history.len() == remaining.len(),
        forall|i: int|
            0 <= i < history.len() ==> #[trigger] history[i] == (
                AclCallView::Revoke(remaining[i]),
                AclReplyView::<E>::Done,
            ),
        result == Ok::<(Recorded, Seq<Seq<u16>>), E>(
            (with_recorded(state, sid, applied), applied),
        ),
    decreases remaining.len(),
{
    if remaining.len() > 0 {
        let rest = remaining.drop_first();
        let at = ReconcileView::Revoking { state, sid, applied, remaining: rest };
        let reply = history[0].1;
        assert((reconcile_logic::<E>().fits)(at, reply));
        assert((reconcile_logic::<E>().next)(at, reply) == revoke_or_record::<E>(
            state,
            sid,
            applied,
            rest,
        ));
        revocations(state, sid, applied, rest, history.drop_first(), result);
        assert forall|i: int| 0 <= i < history.len() implies #[trigger] history[i] == (
            AclCallView::Revoke(remaining[i]),
            AclReplyView::<E>::Done,
        ) by {
            if i > 0 {
                assert(history[i] == history.drop_first()[i - 1]);
                assert(remaining[i] == rest[i - 1]);
            }
        }
    }
}

/// What a reconciliation comes to. The desired paths are applied first. Where that
/// fails, its error is the result and nothing is revoked. Else the previously
/// recorded paths that are stale are revoked, each once and in order, and the
/// result is the state with the applied paths recorded, together with these paths.
pub proof fn law_reconcile_outcomes<E>(
    state: Recorded,
    sid: Seq<char>,
    desired: Seq<Seq<u16>>,
    history: Seq<(AclCallView, AclReplyView<E>)>,
    result: Result<(Recorded, Seq<Seq<u16>>), E>,
)
    requires
        leads_to(
            reconcile_logic::<E>(),
            reconcile_start(state, sid, desired),
            history,
            Step::Return(result),
        ),
    ensures
        history.len() >= 1,
        history[0].0 == AclCallView::Apply(desired),
        match result {
            Err(error) => {
                &&& history.len() == 1
                &&& history[0].1 == AclReplyView::<E>::ApplyFailed(error)
            },
            Ok((recorded, applied)) => {
                let previous = recorded_paths(state, sid);
                &&& history[0].1 == AclReplyView::<E>::Applied(applied)
                &&& recorded == with_recorded(state, sid, applied)
                &&& history.len() >= 2
                &&& history[1].0 == AclCallView::LexicalKeys { applied, previous }
                &&& history[1].1 is Keys
                &&& ({
                    let revoked = stale(
                        previous,
                        history[1].1->Keys_previous,
                        history[1].1->Keys_applied,
                    );
                    &&& history.len() == 2 + revoked.len()
                    &&& forall|i: int|
                        0 <= i < revoked.len() ==> #[trigger] history[2 + i].0
                            == AclCallView::Revoke(revoked[i])
                })
            },
        },
{
    reveal_with_fuel(leads_to, 3);
    if history[0].1 is Applied {
        let applied = history[0].1->Applied_0;
        let previous = recorded_paths(state, sid);
        let rest = history.drop_first().drop_first();
        let revoked = stale(previous, history[1].1->Keys_previous, history[1].1->Keys_applied);
        revocations(state, sid, applied, revoked, rest, result);
        assert forall|i: int| 0 <= i < revoked.len() implies #[trigger] history[2 + i].0
            == AclCallView::Revoke(revoked[i]) by {
            assert(history[2 + i] == rest[i]);
        }
    }
}

/// A path is stale exactly where it was recorded before under a key that is not
/// among the keys of the applied paths.
pub proof fn law_stale_paths(
    previous: Seq<Seq<u16>>,
    keys: Seq<Seq<char>>,
    applied_keys: Seq<Seq<char>>,
    path: Seq<u16>,
)
    requires
        keys.len() == previous.len(),
    ensures
        stale(previous, keys, applied_keys).contains(path) <==> exists|i: int|
            0 <= i < previous.len() && #[trigger] previous[i] == path && !applied_keys.contains(
                keys[i],
            ),
    decreases previous.len(),
{
    let list = stale(previous, keys, applied_keys);
    if previous.len() > 0 {
        let last = previous.len() - 1;
        let rest = stale(previous.drop_last(), keys.drop_last(), applied_keys);
        law_stale_paths(previous.drop_last(), keys.drop_last(), applied_keys, path);
        if list.contains(path) {
            if rest.contains(path) {
                let i = choose|i: int|
                    0 <= i < last && #[trigger] previous.drop_last()[i] == path
                        && !applied_keys.contains(keys.drop_last()[i]);
                assert(previous[i] == path && keys[i] == keys.drop_last()[i]);
            } else {
                let k = choose|k: int| 0 <= k < list.len() && list[k] == path;
                assert(k == rest.len());
                assert(previous[last] == path);
            }
        }
        if exists|i: int|
            0 <= i < previous.len() && #[trigger] previous[i] == path && !applied_keys.contains(
                keys[i],
            ) {
            let i = choose|i: int|
                0 <= i < previous.len() && #[trigger] previous[i] == path
                    && !applied_keys.contains(keys[i]);
            if i < last {
                assert(previous.drop_last()[i] == path && keys.drop_last()[i] == keys[i]);
                assert(rest.contains(path));
                let k = choose|k: int| 0 <= k < rest.len() && rest[k] == path;
                assert(list[k] == path);
            } else {
                assert(list[rest.len() as int] == path);
            }
        }
    }
}

/// The keys of a list of paths.
pub open spec fn key_set(
    key: spec_fn(Seq<u16>) -> Seq<char>,
    paths: Seq<Seq<u16>>,
) -> Set<Seq<char>> {
    paths.map_values(key).to_set()
}

/// What one call does to the ACEs of the principal, each known by the key of its
/// path: applied paths get one, a revoked path loses its own.
pub open spec fn aces_after_call<E>(
    key: spec_fn(Seq<u16>) -> Seq<char>,
    aces: Set<Seq<char>>,
    exchange: (AclCallView, AclReplyView<E>),
) -> Set<Seq<char>> {
    match exchange {
        (AclCallView::Apply(_), AclReplyView::Applied(applied)) => aces.union(
            key_set(key, applied),
        ),
        (AclCallView::Revoke(path), _) => aces.remove(key(path)),
        _ => aces,
    }
}

/// The ACEs of the principal after a history of calls.
pub open spec fn aces_after<E>(
    key: spec_fn(Seq<u16>) -> Seq<char>,
    aces: Set<Seq<char>>,
    history: Seq<(AclCallView, AclReplyView<E>)>,
) -> Set<Seq<char>>
    decreases history.len(),
{
    if history.len() == 0 {
        aces
    } else {
        aces_after(key, aces_after_call(key, aces, history[0]), history.drop_first())
    }
}

/// All keys that were reported are those of the paths they were asked for.
pub open spec fn keys_are_faithful<E>(
    key: spec_fn(Seq<u16>) -> Seq<char>,
    history: Seq<(AclCallView, AclReplyView<E>)>,
) -> bool {
    forall|i: int|
        0 <= i < history.len() ==> match #[trigger] history[i] {
            (
                AclCallView::LexicalKeys { applied, previous },
                AclReplyView::Keys { applied: applied_keys, previous: previous_keys },
            ) => applied_keys == applied.map_values(key) && previous_keys == previous.map_values(
                key,
            ),
            _ => true,
        }
}

/// A run of revocations takes away exactly the keys of the revoked paths.
proof fn revocations_take_away<E>(
    key: spec_fn(Seq<u16>) -> Seq<char>,
    aces: Set<Seq<char>>,
    revoked: Seq<Seq<u16>>,
    history: Seq<(AclCallView, AclReplyView<E>)>,
    ace: Seq<char>,
)
    requires
        history.len() == revoked.len(),
        forall|i: int|
            0 <= i < history.len() ==> (#[trigger] history[i]).0 == AclCallView::Revoke(revoked[i]),
    ensures
        aces_after(key, aces, history).contains(ace) <==> aces.contains(ace) && !(exists|i: int|
            0 <= i < revoked.len() && key(#[trigger] revoked[i]) == ace),
    decreases history.len(),
{
    if history.len() > 0 {
        let rest = revoked.drop_first();
        let next = aces_after_call(key, aces, history[0]);
        assert(history[0].0 == AclCallView::Revoke(revoked[0]));
        assert forall|i: int| 0 <= i < rest.len() implies (#[trigger] history.drop_first()[i]).0
            == AclCallView::Revoke(rest[i]) by {
            assert(history.drop_first()[i] == history[i + 1]);
            assert(rest[i] == revoked[i + 1]);
        }
        revocations_take_away(key, next, rest, history.drop_first(), ace);
        if exists|i: int| 0 <= i < revoked.len() && key(#[trigger] revoked[i]) == ace {
            let i = choose|i: int| 0 <= i < revoked.len() && key(#[trigger] revoked[i]) == ace;
            if i > 0 {
                assert(rest[i - 1] == revoked[i]);
            }
        }
        if exists|i: int| 0 <= i < rest.len() && key(#[trigger] rest[i]) == ace {
            let i = choose|i: int| 0 <= i < rest.len() && key(#[trigger] rest[i]) == ace;
            assert(revoked[i + 1] == rest[i]);
        }
    }
}

/// A reconciliation that succeeds leaves no old ACE behind and takes none away that
/// is wanted. Whatever ACEs the principal had before, it has one afterwards exactly
/// where it was applied, or where it was there before and its path was not recorded.
/// So where no ACE was unrecorded, those that are left are exactly the applied ones,
/// and the new state records exactly these.
pub proof fn law_no_stale_ace_is_left<E>(
    key: spec_fn(Seq<u16>) -> Seq<char>,
    aces: Set<Seq<char>>,
    state: Recorded,
    sid: Seq<char>,
    desired: Seq<Seq<u16>>,
    history: Seq<(AclCallView, AclReplyView<E>)>,
    recorded: Recorded,
    applied: Seq<Seq<u16>>,
)
    requires
        leads_to(
            reconcile_logic::<E>(),
            reconcile_start(state, sid, desired),
            history,
            Step::Return(Ok((recorded, applied))),
        ),
        keys_are_faithful(key, history),
    ensures
        aces_after(key, aces, history) == key_set(key, applied).union(
            aces.difference(key_set(key, recorded_paths(state, sid))),
        ),
        aces.subset_of(key_set(key, recorded_paths(state, sid))) ==> aces_after(key, aces, history)
            == key_set(key, applied),
        key_set(key, recorded_paths(recorded, sid)) == key_set(key, applied),
{
    law_reconcile_outcomes(state, sid, desired, history, Ok((recorded, applied)));
    let previous = recorded_paths(state, sid);
    let keys = history[1].1->Keys_previous;
    let applied_keys = history[1].1->Keys_applied;
    let revoked = stale(previous, keys, applied_keys);
    let first = aces_after_call(key, aces, history[0]);
    let rest = history.drop_first().drop_first();
    assert(history[1] == (
        AclCallView::LexicalKeys { applied, previous },
        AclReplyView::<E>::Keys { applied: applied_keys, previous: keys },
    ));
    assert(keys == previous.map_values(key));
    assert(applied_keys == applied.map_values(key));
    assert(history[0] == (AclCallView::Apply(desired), AclReplyView::<E>::Applied(applied)));
    assert(first == aces.union(key_set(key, applied)));
    assert(history.drop_first()[0] == history[1]);
    assert(aces_after(key, aces, history) == aces_after(key, first, history.drop_first()));
    assert(aces_after(key, first, history.drop_first()) == aces_after(key, first, rest));
    assert forall|i: int| 0 <= i < rest.len() implies (#[trigger] rest[i]).0
        == AclCallView::Revoke(revoked[i]) by {
        assert(rest[i] == history[2 + i]);
    }
    let after = aces_after(key, first, rest);
    let kept = aces.difference(key_set(key, previous));
    let expected = key_set(key, applied).union(kept);
    assert forall|ace: Seq<char>| after.contains(ace) == expected.contains(ace) by {
        revocations_take_away(key, first, revoked, rest, ace);
        if exists|i: int| 0 <= i < revoked.len() && key(#[trigger] revoked[i]) == ace {
            let i = choose|i: int| 0 <= i < revoked.len() && key(#[trigger] revoked[i]) == ace;
            law_stale_paths(previous, keys, applied_keys, revoked[i]);
            assert(revoked.contains(revoked[i]));
            let k = choose|k: int|
                0 <= k < previous.len() && #[trigger] previous[k] == revoked[i]
                    && !applied_keys.contains(keys[k]);
            assert(keys[k] == ace);
            assert(previous.map_values(key)[k] == ace);
            assert(key_set(key, previous).contains(ace));
            assert(!key_set(key, applied).contains(ace));
        } else if key_set(key, previous).contains(ace) && !key_set(key, applied).contains(ace) {
            let k = choose|k: int|
                0 <= k < previous.map_values(key).len() && previous.map_values(key)[k] == ace;
            assert(previous[k] == previous[k] && keys[k] == ace);
            assert(!applied_keys.contains(ace));
            law_stale_paths(previous, keys, applied_keys, previous[k]);
            assert(revoked.contains(previous[k]));
            let i = choose|i: int| 0 <= i < revoked.len() && revoked[i] == previous[k];
            assert(key(revoked[i]) == ace);
        }
    }
    assert(after =~= expected);
    if aces.subset_of(key_set(key, previous)) {
        assert(expected =~= key_set(key, applied));
    }
    assert(applied.len() == 0 ==> applied =~= Seq::<Seq<u16>>::empty());
}

/// Recording paths for one principal leaves every other principal as it was.
pub proof fn law_other_principals_are_kept(
    state: Recorded,
    sid: Seq<char>,
    applied: Seq<Seq<u16>>,
    other: Seq<char>,
)
    requires
        other != sid,
    ensures
        with_recorded(state, sid, applied).dom().contains(other) == state.dom().contains(other),
        recorded_paths(with_recorded(state, sid, applied), other) == recorded_paths(state, other),
{
}

/// What is recorded for a principal afterwards is exactly what was applied for it;
/// where nothing was applied it is not recorded at all.
pub proof fn law_applied_paths_are_recorded(
    state: Recorded,
    sid: Seq<char>,
    applied: Seq<Seq<u16>>,
)
    ensures
        recorded_paths(with_recorded(state, sid, applied), sid) == applied,
        with_recorded(state, sid, applied).dom().contains(sid) <==> applied.len() > 0,
{
    assert(applied.len() == 0 ==> applied =~= Seq::<Seq<u16>>::empty());
}

/// Every principal in the state has paths.
pub open spec fn all_have_paths(state: Recorded) -> bool {
    forall|sid: Seq<char>| #[trigger] state.dom().contains(sid) ==> state[sid].len() > 0
}

/// No principal is ever kept with an empty list: none is in the empty state, and
/// recording paths, be they none, leaves it so.
pub proof fn law_no_principal_is_kept_without_paths(
    state: Recorded,
    sid: Seq<char>,
    applied: Seq<Seq<u16>>,
)
    ensures
        all_have_paths(Map::empty()),
        all_have_paths(state) ==> all_have_paths(with_recorded(state, sid, applied)),
{
}

/// A second reconciliation that applies the same paths changes nothing: it revokes
/// none of them, and the state that it ends with is the one it was given.
pub proof fn law_second_reconciliation_changes_nothing<E>(
    key: spec_fn(Seq<u16>) -> Seq<char>,
    state: Recorded,
    sid: Seq<char>,
    desired: Seq<Seq<u16>>,
    history: Seq<(AclCallView, AclReplyView<E>)>,
    recorded: Recorded,
    applied: Seq<Seq<u16>>,
)
    requires
        leads_to(
            reconcile_logic::<E>(),
            reconcile_start(with_recorded(state, sid, applied), sid, desired),
            history,
            Step::Return(Ok((recorded, applied))),
        ),
        keys_are_faithful(key, history),
    ensures
        recorded == with_recorded(state, sid, applied),
        history.len() == 2,
        forall|i: int| 0 <= i < history.len() ==> !((#[trigger] history[i]).0 is Revoke),
{
    let given = with_recorded(state, sid, applied);
    law_reconcile_outcomes(given, sid, desired, history, Ok((recorded, applied)));
    law_applied_paths_are_recorded(state, sid, applied);
    let keys = history[1].1->Keys_previous;
    let applied_keys = history[1].1->Keys_applied;
    assert(history[1] == (
        AclCallView::LexicalKeys { applied, previous: applied },
        AclReplyView::<E>::Keys { applied: applied_keys, previous: keys },
    ));
    let revoked = stale(applied, keys, applied_keys);
    if revoked.len() > 0 {
        law_stale_paths(applied, keys, applied_keys, revoked[0]);
        assert(revoked.contains(revoked[0]));
        let i = choose|i: int|
            0 <= i < applied.len() && #[trigger] applied[i] == revoked[0] && !applied_keys.contains(
                keys[i],
            );
        assert(applied_keys[i] == keys[i]);
    }
    assert(recorded =~= given);
}

/// The state after one principal after the other had paths recorded for it.
pub open spec fn after_updates(
    state: Recorded,
    updates: Seq<(Seq<char>, Seq<Seq<u16>>)>,
) -> Recorded
    decreases updates.len(),
{
    if updates.len() == 0 {
        state
    } else {
        let (sid, applied) = updates.last();
        with_recorded(after_updates(state, updates.drop_last()), sid, applied)
    }
}

/// Updates of different principals, one after the other, preserve every principal:
/// each of them ends up with its own paths, and none is lost or added.
pub proof fn law_updates_preserve_every_principal(updates: Seq<(Seq<char>, Seq<Seq<u16>>)>)
    requires
        forall|i: int, j: int|
            0 <= i < j < updates.len() ==> (#[trigger] updates[i]).0 != (#[trigger] updates[j]).0,
        forall|i: int| 0 <= i < updates.len() ==> (#[trigger] updates[i]).1.len() > 0,
    ensures
        ({
            let state = after_updates(Map::empty(), updates);
            &&& forall|i: int|
                0 <= i < updates.len() ==> recorded_paths(state, (#[trigger] updates[i]).0)
                    == updates[i].1
            &&& forall|sid: Seq<char>| #[trigger]
                state.dom().contains(sid) <==> exists|i: int|
                    0 <= i < updates.len() && (#[trigger] updates[i]).0 == sid
            &&& state.dom().finite()
            &&& state.len() == updates.len()
        }),
    decreases updates.len(),
{
    let state = after_updates(Map::empty(), updates);
    if updates.len() > 0 {
        let before = updates.drop_last();
        let last = updates.len() - 1;
        let earlier = after_updates(Map::empty(), before);
        law_updates_preserve_every_principal(before);
        let (sid, applied) = updates.last();
        assert(updates[last].1.len() > 0);
        assert(state == earlier.insert(sid, applied));
        if earlier.dom().contains(sid) {
            let i = choose|i: int| 0 <= i < before.len() && (#[trigger] before[i]).0 == sid;
            assert(updates[i].0 != updates[last].0);
        }
        assert forall|i: int| 0 <= i < updates.len() implies recorded_paths(
            state,
            (#[trigger] updates[i]).0,
        ) == updates[i].1 by {
            if i < last {
                assert(before[i] == updates[i]);
                assert(updates[i].0 != updates[last].0);
                assert(earlier.dom().contains(updates[i].0));
            }
        }
        assert forall|s: Seq<char>| #[trigger] state.dom().contains(s) <==> exists|i: int|
            0 <= i < updates.len() && (#[trigger] updates[i]).0 == s by {
            if s == sid {
                assert(updates[last].0 == s);
            } else if earlier.dom().contains(s) {
                let i = choose|i: int| 0 <= i < before.len() && (#[trigger] before[i]).0 == s;
                assert(updates[i].0 == s);
            } else if exists|i: int| 0 <= i < updates.len() && (#[trigger] updates[i]).0 == s {
                let i = choose|i: int| 0 <= i < updates.len() && (#[trigger] updates[i]).0 == s;
                assert(before[i].0 == s);
            }
        }
    }
}

/// What is recorded is what the map holds. The paths recorded for a principal are all
/// that the map has for its SID, and none where it has no such SID. Paths that were
/// applied are put into the map as they are; where none were, the SID is taken out.
pub proof fn law_the_record_is_the_map(state: Recorded, sid: Seq<char>, applied: Seq<Seq<u16>>)
    ensures
        state.dom().contains(sid) ==> recorded_paths(state, sid) == state[sid],
        !state.dom().contains(sid) ==> recorded_paths(state, sid) == Seq::<Seq<u16>>::empty(),
        applied.len() > 0 ==> with_recorded(state, sid, applied) == state.insert(sid, applied),
        applied.len() == 0 ==> with_recorded(state, sid, applied) == state.remove(sid),
{
}

/// The stale paths are found one by one, in order: of no paths none is stale, and one more
/// path is one more stale path exactly where its key is not among the applied keys.
pub proof fn law_stale_paths_are_found_one_by_one(
    previous: Seq<Seq<u16>>,
    keys: Seq<Seq<char>>,
    applied_keys: Seq<Seq<char>>,
    path: Seq<u16>,
    key: Seq<char>,
)
    requires
        keys.len() == previous.len(),
    ensures
        stale(Seq::empty(), Seq::empty(), applied_keys) == Seq::<Seq<u16>>::empty(),
        applied_keys.contains(key) ==> stale(previous.push(path), keys.push(key), applied_keys)
            == stale(previous, keys, applied_keys),
        !applied_keys.contains(key) ==> stale(previous.push(path), keys.push(key), applied_keys)
            == stale(previous, keys, applied_keys).push(path),
{
    assert(previous.push(path).drop_last() =~= previous);
    assert(keys.push(key).drop_last() =~= keys);
}

/// The reconciliation as a piece of logic goes on as it does when it is resumed, and
/// accepts the replies that it waits for.
pub proof fn law_reconcile_logic_is_what_is_resumed<E>(at: ReconcileView, reply: AclReplyView<E>)
    ensures
        (reconcile_logic::<E>().next)(at, reply) == reconcile_next(at, reply),
        (reconcile_logic::<E>().fits)(at, reply) == reconcile_fits(at, reply),
{
}

/// Calls on ACEs, their replies and the steps of a reconciliation are seen with exactly
/// the paths, keys, errors and states that they hold.
pub proof fn law_reconcile_steps_are_seen_as_they_are<E>(
    paths: Vec<WidePath>,
    others: Vec<WidePath>,
    path: WidePath,
    keys: Vec<String>,
    other_keys: Vec<String>,
    error: E,
    call: AclCall,
    at: ReconcileState,
    state: PersistentDenyReadAclState,
)
    ensures
        AclCall::Apply(paths)@ == AclCallView::Apply(paths_view(paths@)),
        ({
            let asking = AclCall::LexicalKeys { applied: paths, previous: others };
            asking@ == (AclCallView::LexicalKeys {
                applied: paths_view(paths@),
                previous: paths_view(others@),
            })
        }),
        AclCall::Revoke(path)@ == AclCallView::Revoke(path@),
        AclReply::<E>::Applied(paths)@ == AclReplyView::<E>::Applied(paths_view(paths@)),
        AclReply::<E>::ApplyFailed(error)@ == AclReplyView::<E>::ApplyFailed(error),
        ({
            let answer = AclReply::<E>::Keys { applied: keys, previous: other_keys };
            answer@ == (AclReplyView::<E>::Keys {
                applied: texts(keys@),
                previous: texts(other_keys@),
            })
        }),
        AclReply::<E>::Done@ == AclReplyView::<E>::Done,
        reconcile_view(ReconcileStep::<E>::Perform(call, at)) == ReconcileStepView::<E>::Perform(
            call@,
            at@,
        ),
        reconcile_view(ReconcileStep::<E>::Return(Ok((state, paths)))) == ReconcileStepView::<
            E,
        >::Return(Ok((state.principals@, paths_view(paths@)))),
        reconcile_view(ReconcileStep::<E>::Return(Err(error))) == ReconcileStepView::<E>::Return(
            Err(error),
        ),
{
}

/// The revocations of these paths, one after the other.
pub open spec fn revocations_of<E>(paths: Seq<Seq<u16>>) -> Seq<(AclCallView, AclReplyView<E>)> {
    Seq::new(paths.len(), |i: int| (AclCallView::Revoke(paths[i]), AclReplyView::<E>::Done))
}

/// A row of revocations is the revocation of each path in its place.
pub proof fn law_each_path_is_revoked_in_its_place<E>(paths: Seq<Seq<u16>>)
    ensures
        revocations_of::<E>(paths).len() == paths.len(),
        forall|i: int|
            0 <= i < paths.len() ==> #[trigger] revocations_of::<E>(paths)[i] == (
                AclCallView::Revoke(paths[i]),
                AclReplyView::<E>::Done,
            ),
{
}

/// Revoking the paths that remain ends with the applied paths in the map.
proof fn revocations_end<E>(
    state: Recorded,
    sid: Seq<char>,
    applied: Seq<Seq<u16>>,
    remaining: Seq<Seq<u16>>,
)
    ensures
        leads_to(
            reconcile_logic::<E>(),
            revoke_or_record(state, sid, applied, remaining),
            revocations_of(remaining),
            Step::Return(Ok((with_recorded(state, sid, applied), applied))),
        ),
    decreases remaining.len(),
{
    if remaining.len() > 0 {
        let rest = remaining.drop_first();
        revocations_end::<E>(state, sid, applied, rest);
        assert(revocations_of::<E>(remaining).drop_first() =~= revocations_of::<E>(rest));
        let at = ReconcileView::Revoking { state, sid, applied, remaining: rest };
        assert((reconcile_logic::<E>().fits)(at, AclReplyView::Done));
        assert((reconcile_logic::<E>().next)(at, AclReplyView::Done) == revoke_or_record::<E>(
            state,
            sid,
            applied,
            rest,
        ));
    }
}

/// Every reconciliation comes to its end, whatever paths are recorded, desired and
/// applied. Where the desired paths are refused, that error is the result. Else the keys
/// of the applied paths and of all paths that the map has for the SID are asked for, the
/// stale ones are revoked in order, and the result is the applied paths, with the map in
/// which they are put in for the SID, or the SID taken out where there are none.
pub proof fn law_every_reconciliation_ends<E>(
    state: Recorded,
    sid: Seq<char>,
    desired: Seq<Seq<u16>>,
    applied: Seq<Seq<u16>>,
    applied_keys: Seq<Seq<char>>,
    previous_keys: Seq<Seq<char>>,
    error: E,
)
    requires
        applied_keys.len() == applied.len(),
        state.dom().contains(sid) ==> previous_keys.len() == state[sid].len(),
        !state.dom().contains(sid) ==> previous_keys.len() == 0,
    ensures
        leads_to(
            reconcile_logic::<E>(),
            reconcile_start(state, sid, desired),
            seq![(AclCallView::Apply(desired), AclReplyView::ApplyFailed(error))],
            Step::Return(Err(error)),
        ),
        ({
            let previous = if state.dom().contains(sid) {
                state[sid]
            } else {
                Seq::empty()
            };
            let recorded = if applied.len() > 0 {
                state.insert(sid, applied)
            } else {
                state.remove(sid)
            };
            let applying = (AclCallView::Apply(desired), AclReplyView::<E>::Applied(applied));
            let keying = (
                AclCallView::LexicalKeys { applied, previous },
                AclReplyView::<E>::Keys { applied: applied_keys, previous: previous_keys },
            );
            leads_to(
                reconcile_logic::<E>(),
                reconcile_start(state, sid, desired),
                seq![applying, keying] + revocations_of(
                    stale(previous, previous_keys, applied_keys),
                ),
                Step::Return(Ok((recorded, applied))),
            )
        }),
{
    let logic = reconcile_logic::<E>();
    let start = reconcile_start::<E>(state, sid, desired);
    let previous = recorded_paths(state, sid);
    let revoked = stale(previous, previous_keys, applied_keys);
    let first = seq![
        (AclCallView::Apply(desired), AclReplyView::<E>::Applied(applied)),
        (
            AclCallView::LexicalKeys { applied, previous },
            AclReplyView::<E>::Keys { applied: applied_keys, previous: previous_keys },
        ),
    ];
    let through = revoke_or_record::<E>(state, sid, applied, revoked);
    assert(leads_to(logic, start, first, through)) by {
        reveal_with_fuel(leads_to, 3);
    }
    revocations_end::<E>(state, sid, applied, revoked);
    leads_through(
        logic,
        start,
        first,
        through,
        revocations_of(revoked),
        Step::Return(Ok((with_recorded(state, sid, applied), applied))),
    );
    assert(leads_to(
        logic,
        start,
        seq![(AclCallView::Apply(desired), AclReplyView::ApplyFailed(error))],
        Step::Return(Err(error)),
    )) by {
        reveal_with_fuel(leads_to, 2);
    }
}

/// Every path of the map that is not applied is revoked, and no other. A reconciliation
/// that succeeds asks for the keys of exactly the paths that the map has for the SID.
/// Each of them whose key is not among the applied keys is revoked, and whatever is
/// revoked is one of them. The state that it ends with is the map with the applied paths
/// put in for the SID, or with the SID taken out where none were applied.
pub proof fn law_every_path_of_the_map_that_is_not_applied_is_revoked<E>(
    state: Recorded,
    sid: Seq<char>,
    desired: Seq<Seq<u16>>,
    history: Seq<(AclCallView, AclReplyView<E>)>,
    recorded: Recorded,
    applied: Seq<Seq<u16>>,
)
    requires
        leads_to(
            reconcile_logic::<E>(),
            reconcile_start(state, sid, desired),
            history,
            Step::Return(Ok((recorded, applied))),
        ),
    ensures
        history.len() >= 2,
        history[0] == (AclCallView::Apply(desired), AclReplyView::<E>::Applied(applied)),
        history[1].1 is Keys,
        applied.len() > 0 ==> recorded == state.insert(sid, applied),
        applied.len() == 0 ==> recorded == state.remove(sid),
        state.dom().contains(sid) ==> {
            let keys = history[1].1->Keys_previous;
            let applied_keys = history[1].1->Keys_applied;
            &&& history[1].0 == (AclCallView::LexicalKeys { applied, previous: state[sid] })
            &&& keys.len() == state[sid].len()
            &&& applied_keys.len() == applied.len()
            &&& forall|i: int|
                0 <= i < state[sid].len() && !applied_keys.contains(#[trigger] keys[i])
                    ==> exists|j: int|
                    2 <= j < history.len() && (#[trigger] history[j]).0 == AclCallView::Revoke(
                        state[sid][i],
                    )
            &&& forall|j: int|
                2 <= j < history.len() ==> exists|i: int|
                    0 <= i < state[sid].len() && (#[trigger] history[j]).0 == AclCallView::Revoke(
                        state[sid][i],
                    ) && !applied_keys.contains(#[trigger] keys[i])
        },
        !state.dom().contains(sid) ==> {
            &&& history[1].0 == (AclCallView::LexicalKeys { applied, previous: Seq::empty() })
            &&& history.len() == 2
        },
{
    law_reconcile_outcomes(state, sid, desired, history, Ok((recorded, applied)));
    let previous = recorded_paths(state, sid);
    let keys = history[1].1->Keys_previous;
    let applied_keys = history[1].1->Keys_applied;
    let revoked = stale(previous, keys, applied_keys);
    assert(keys.len() == previous.len() && applied_keys.len() == applied.len()) by {
        reveal_with_fuel(leads_to, 3);
    }
    if state.dom().contains(sid) {
        assert forall|i: int|
            0 <= i < state[sid].len() && !applied_keys.contains(#[trigger] keys[i]) implies exists|
            j: int,
        |
            2 <= j < history.len() && (#[trigger] history[j]).0 == AclCallView::Revoke(
                state[sid][i],
            ) by {
            law_stale_paths(previous, keys, applied_keys, previous[i]);
            assert(revoked.contains(previous[i]));
            let k = choose|k: int| 0 <= k < revoked.len() && revoked[k] == previous[i];
            assert(history[2 + k].0 == AclCallView::Revoke(revoked[k]));
        }
        assert forall|j: int| 2 <= j < history.len() implies exists|i: int|
            0 <= i < state[sid].len() && (#[trigger] history[j]).0 == AclCallView::Revoke(
                state[sid][i],
            ) && !applied_keys.contains(#[trigger] keys[i]) by {
            assert(history[2 + (j - 2)].0 == AclCallView::Revoke(revoked[j - 2]));
            law_stale_paths(previous, keys, applied_keys, revoked[j - 2]);
            assert(revoked.contains(revoked[j - 2]));
            let i = choose|i: int|
                0 <= i < previous.len() && #[trigger] previous[i] == revoked[j - 2]
                    && !applied_keys.contains(keys[i]);
            assert(!applied_keys.contains(keys[i]));
        }
    } else {
        assert(revoked.len() == 0);
    }
}

} // verus!
