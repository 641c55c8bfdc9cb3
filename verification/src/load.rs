//! Reading the state file.

use crate::calls::reply_fits;
use crate::calls::Call;
use crate::calls::CallView;
use crate::calls::Expected;
use crate::calls::Failure;
use crate::calls::FailureView;
use crate::calls::Reply;
use crate::calls::ReplyView;
use crate::calls::ShareMode;
use crate::calls::Step;
use crate::error::StateError;
use crate::error::StateErrorView;
use crate::quarantine::quarantine_expects;
use crate::quarantine::quarantine_invalid_state;
use crate::quarantine::quarantine_logic;
use crate::quarantine::quarantine_next;
use crate::quarantine::quarantine_start;
use crate::quarantine::quarantine_view;
use crate::quarantine::QuarantineState;
use crate::quarantine::QuarantineStep;
use crate::quarantine::QuarantineStepView;
use crate::quarantine::QuarantineView;
use crate::run::leads_through;
use crate::run::leads_to;
use crate::run::outer_history;
use crate::run::outer_part;
use crate::run::outer_step;
use crate::run::Inside;
use crate::run::Logic;
use crate::state::PersistentDenyReadAclState;
use crate::state::Recorded;
use crate::state::StatePath;
use crate::state::StatePathView;
use vstd::prelude::*;

verus! {

/// Where reading the bytes of the state file stands.
#[derive(Clone, Copy, Debug, PartialEq, Eq, Structural)]
pub enum ReadState {
    /// The file is being opened.
    Opening,
    /// The file is being read.
    Reading,
}

pub type ReadStep = Step<Call, ReadState, Result<Vec<u8>, Failure>>;

pub type ReadStepView = Step<CallView, ReadState, Result<Seq<u8>, FailureView>>;

/// A step of the reading with its values.
pub open spec fn read_view(step: ReadStep) -> ReadStepView {
    match step {
        Step::Perform(call, at) => Step::Perform(call@, at),
        Step::Return(Ok(bytes)) => Step::Return(Ok(bytes@)),
        Step::Return(Err(failure)) => Step::Return(Err(failure@)),
    }
}

/// A reader lets others read, write and delete the file, so that it does not stand
/// in the way of a replacement.
pub open spec fn reader_share_mode() -> ShareMode {
    ShareMode { read: true, write: true, delete: true }
}

/// The first step of reading the state file.
pub open spec fn read_start() -> ReadStepView {
    Step::Perform(CallView::OpenState(reader_share_mode()), ReadState::Opening)
}

/// The reply that the reading waits for.
pub open spec fn read_expects(at: ReadState) -> Expected {
    match at {
        ReadState::Opening => Expected::Outcome,
        ReadState::Reading => Expected::Bytes,
    }
}

/// How the reading goes on after a reply: the file that was opened is read to its
/// end, and the first failure ends the reading.
pub open spec fn read_next(at: ReadState, reply: ReplyView) -> ReadStepView {
    match (at, reply) {
        (_, ReplyView::Failed(failure)) => Step::Return(Err(failure)),
        (ReadState::Opening, ReplyView::Done) => Step::Perform(
            CallView::ReadToEnd,
            ReadState::Reading,
        ),
        (ReadState::Reading, ReplyView::Bytes(bytes)) => Step::Return(Ok(bytes)),
        _ => arbitrary(),
    }
}

/// The call that opens the state file for reading.
pub fn open_state_for_read() -> (call: Call)
    ensures
        call@ == CallView::OpenState(reader_share_mode()),
{
    Call::OpenState(ShareMode { read: true, write: true, delete: true })
}

/// Begins to read the bytes of the state file.
pub fn read_state_bytes() -> (step: ReadStep)
    ensures
        read_view(step) == read_start(),
{
    Step::Perform(open_state_for_read(), ReadState::Opening)
}

impl ReadState {
    /// The reply that is waited for.
    pub fn expects(&self) -> (expected: Expected)
        ensures
            expected == read_expects(*self),
    {
        match self {
            ReadState::Opening => Expected::Outcome,
            ReadState::Reading => Expected::Bytes,
        }
    }

    /// Goes on with the reading after a reply.
    pub fn resume(self, reply: Reply) -> (step: ReadStep)
        requires
            reply_fits(read_expects(self), reply@),
        ensures
            read_view(step) == read_next(self, reply@),
    {
        match (self, reply) {
            (_, Reply::Failed(failure)) => Step::Return(Err(failure)),
            (ReadState::Opening, Reply::Done) => Step::Perform(
                Call::ReadToEnd,
                ReadState::Reading,
            ),
            (ReadState::Reading, Reply::Bytes(bytes)) => Step::Return(Ok(bytes)),
            _ => vstd::pervasive::unreached(),
        }
    }
}

/// Where loading the state stands.
#[derive(Debug, PartialEq, Eq)]
pub enum LoadState {
    /// The file is being read.
    Reading(ReadState),
    /// These bytes are being parsed.
    Parsing(Vec<u8>),
    /// The file is being put aside.
    Quarantining(QuarantineState),
}

/// The state of a load with its values.
pub enum LoadView {
    Reading(ReadState),
    Parsing(Seq<u8>),
    Quarantining(QuarantineView),
}

impl View for LoadState {
    type V = LoadView;

    open spec fn view(&self) -> LoadView {
        match *self {
            LoadState::Reading(at) => LoadView::Reading(at),
            LoadState::Parsing(bytes) => LoadView::Parsing(bytes@),
            LoadState::Quarantining(at) => LoadView::Quarantining(at@),
        }
    }
}

pub type LoadStep = Step<Call, LoadState, Result<PersistentDenyReadAclState, StateError>>;

pub type LoadStepView = Step<CallView, LoadView, Result<Recorded, StateErrorView>>;

/// A step of the load with its values.
pub open spec fn load_view(step: LoadStep) -> LoadStepView {
    match step {
        Step::Perform(call, at) => Step::Perform(call@, at@),
        Step::Return(Ok(state)) => Step::Return(Ok(state@)),
        Step::Return(Err(error)) => Step::Return(Err(error@)),
    }
}

/// The load while the file is read: bytes are parsed, a missing file counts as the
/// empty state, and any other failure is an error.
pub open spec fn load_from_read(step: ReadStepView) -> LoadStepView {
    match step {
        Step::Perform(call, at) => Step::Perform(call, LoadView::Reading(at)),
        Step::Return(Ok(bytes)) => Step::Perform(
            CallView::ParseState(bytes),
            LoadView::Parsing(bytes),
        ),
        Step::Return(Err(failure)) => if failure.not_found {
            Step::Return(Ok(Map::empty()))
        } else {
            Step::Return(Err(StateErrorView::Read(failure.text)))
        },
    }
}

/// The load while the file is put aside: it ends with the empty state.
pub open spec fn load_from_quarantine(step: QuarantineStepView) -> LoadStepView {
    match step {
        Step::Perform(call, at) => Step::Perform(call, LoadView::Quarantining(at)),
        Step::Return(_) => Step::Return(Ok(Map::empty())),
    }
}

/// The first step of loading the state.
pub open spec fn load_start() -> LoadStepView {
    load_from_read(read_start())
}

/// The reply that the load waits for.
pub open spec fn load_expects(at: LoadView) -> Expected {
    match at {
        LoadView::Reading(at) => read_expects(at),
        LoadView::Parsing(_) => Expected::Parsed,
        LoadView::Quarantining(at) => quarantine_expects(at),
    }
}

/// How the load goes on after a reply.
pub open spec fn load_next(path: StatePathView, at: LoadView, reply: ReplyView) -> LoadStepView {
    match (at, reply) {
        (LoadView::Reading(at), _) => load_from_read(read_next(at, reply)),
        (LoadView::Parsing(_), ReplyView::Parsed(state)) => Step::Return(Ok(state)),
        (LoadView::Parsing(bytes), ReplyView::Failed(failure)) => load_from_quarantine(
            quarantine_start(path, bytes, failure.text),
        ),
        (LoadView::Quarantining(at), _) => load_from_quarantine(quarantine_next(path, at, reply)),
        _ => arbitrary(),
    }
}

/// Goes from reading over to parsing, once the reading is over.
fn after_read(step: ReadStep) -> (next: LoadStep)
    ensures
        load_view(next) == load_from_read(read_view(step)),
{
    match step {
        Step::Perform(call, at) => Step::Perform(call, LoadState::Reading(at)),
        Step::Return(Ok(bytes)) => {
            let copy = bytes.clone();
            assert(copy@ =~= bytes@);
            Step::Perform(Call::ParseState(copy), LoadState::Parsing(bytes))
        },
        Step::Return(Err(failure)) => {
            if failure.not_found {
                Step::Return(Ok(PersistentDenyReadAclState::default()))
            } else {
                Step::Return(Err(StateError::Read(failure.text)))
            }
        },
    }
}

/// Ends the load with the empty state, once the file is put aside.
fn after_quarantine(step: QuarantineStep) -> (next: LoadStep)
    ensures
        load_view(next) == load_from_quarantine(quarantine_view(step)),
{
    match step {
        Step::Perform(call, at) => Step::Perform(call, LoadState::Quarantining(at)),
        Step::Return(_) => Step::Return(Ok(PersistentDenyReadAclState::default())),
    }
}

/// Begins to load the state.
pub fn load_state() -> (step: LoadStep)
    ensures
        load_view(step) == load_start(),
{
    after_read(read_state_bytes())
}

impl LoadState {
    /// The reply that is waited for.
    pub fn expects(&self) -> (expected: Expected)
        ensures
            expected == load_expects(self@),
    {
        match self {
            LoadState::Reading(at) => at.expects(),
            LoadState::Parsing(_) => Expected::Parsed,
            LoadState::Quarantining(at) => at.expects(),
        }
    }

    /// Goes on with the load after a reply.
    pub fn resume(self, path: &StatePath, reply: Reply) -> (step: LoadStep)
        requires
            reply_fits(load_expects(self@), reply@),
        ensures
            load_view(step) == load_next(path@, self@, reply@),
    {
        match self {
            LoadState::Reading(at) => after_read(at.resume(reply)),
            LoadState::Parsing(bytes) => match reply {
                Reply::Parsed(state) => Step::Return(Ok(state)),
                Reply::Failed(failure) => after_quarantine(
                    quarantine_invalid_state(path, bytes, failure.text),
                ),
                _ => vstd::pervasive::unreached(),
            },
            LoadState::Quarantining(at) => after_quarantine(at.resume(path, reply)),
        }
    }
}

/// The load as a piece of logic.
pub open spec fn load_logic(path: StatePathView) -> Logic<
    CallView,
    ReplyView,
    LoadView,
    Result<Recorded, StateErrorView>,
> {
    Logic {
        next: |at: LoadView, reply: ReplyView| load_next(path, at, reply),
        fits: |at: LoadView, reply: ReplyView| reply_fits(load_expects(at), reply),
    }
}

/// What reading the file came to, as the first calls of a load show it: the bytes
/// or the failure, and the number of calls it took.
pub open spec fn read_outcome(history: Seq<(CallView, ReplyView)>) -> (
    Result<Seq<u8>, FailureView>,
    int,
) {
    match history[0].1 {
        ReplyView::Failed(failure) => (Err(failure), 1),
        _ => match history[1].1 {
            ReplyView::Failed(failure) => (Err(failure), 2),
            ReplyView::Bytes(bytes) => (Ok(bytes), 2),
            _ => arbitrary(),
        },
    }
}

/// While a load puts the file aside, its calls are those of the quarantine.
proof fn quarantine_within_load(
    path: StatePathView,
    step: QuarantineStepView,
    history: Seq<(CallView, ReplyView)>,
    result: Result<Recorded, StateErrorView>,
)
    requires
        leads_to(load_logic(path), load_from_quarantine(step), history, Step::Return(result)),
    ensures
        leads_to(quarantine_logic(path), step, history, Step::Return(())),
        result == Ok::<Recorded, StateErrorView>(Map::empty()),
    decreases history.len(),
{
    match step {
        Step::Perform(call, at) => {
            if history.len() > 0 {
                let reply = history[0].1;
                let next = quarantine_next(path, at, reply);
                assert((load_logic(path).next)(LoadView::Quarantining(at), reply)
                    == load_from_quarantine(next));
                quarantine_within_load(path, next, history.drop_first(), result);
                assert((quarantine_logic(path).next)(at, reply) == next);
                assert((quarantine_logic(path).fits)(at, reply));
            }
        },
        Step::Return(unit) => {
            assert(unit == ());
        },
    }
}

/// What a load comes to. A missing file is the empty state, any other read failure
/// is an error, and neither touches the file. Bytes that were read are parsed as
/// they are: the state they hold is the result, and bytes that hold none are put
/// aside, after which the result is the empty state.
pub proof fn law_load_outcomes(
    path: StatePathView,
    history: Seq<(CallView, ReplyView)>,
    result: Result<Recorded, StateErrorView>,
)
    requires
        leads_to(load_logic(path), load_start(), history, Step::Return(result)),
    ensures
        history.len() >= 1,
        history[0].0 == CallView::OpenState(reader_share_mode()),
        ({
            let (outcome, calls) = read_outcome(history);
            &&& 1 <= calls <= 2
            &&& calls <= history.len()
            &&& outcome is Ok ==> calls == 2
            &&& history[0].1 is Done || history[0].1 is Failed
            &&& history[0].1 is Done <==> calls == 2
            &&& history.len() >= 2 ==> {
                &&& calls == 2
                &&& history[0].1 is Done
                &&& history[1].0 == CallView::ReadToEnd
                &&& history[1].1 is Bytes || history[1].1 is Failed
            }
            &&& match outcome {
                Err(failure) => {
                    &&& history.len() == calls
                    &&& result == if failure.not_found {
                        Ok::<Recorded, StateErrorView>(Map::empty())
                    } else {
                        Err(StateErrorView::Read(failure.text))
                    }
                },
                Ok(bytes) => {
                    &&& history.len() >= 3
                    &&& history[2].0 == CallView::ParseState(bytes)
                    &&& match history[2].1 {
                        ReplyView::Parsed(state) => {
                            &&& history.len() == 3
                            &&& result == Ok::<Recorded, StateErrorView>(state)
                        },
                        ReplyView::Failed(failure) => {
                            &&& result == Ok::<Recorded, StateErrorView>(Map::empty())
                            &&& leads_to(
                                quarantine_logic(path),
                                quarantine_start(path, bytes, failure.text),
                                history.skip(3),
                                Step::Return(()),
                            )
                        },
                        _ => false,
                    }
                },
            }
        }),
{
    reveal_with_fuel(leads_to, 4);
    let (outcome, calls) = read_outcome(history);
    if outcome is Ok {
        let rest = history.drop_first().drop_first().drop_first();
        assert(rest =~= history.skip(3));
        if history[2].1 is Failed {
            quarantine_within_load(
                path,
                quarantine_start(path, outcome->Ok_0, history[2].1->Failed_0.text),
                rest,
                result,
            );
        }
    }
}

/// Reading the bytes as a piece of logic.
pub open spec fn read_logic() -> Logic<
    CallView,
    ReplyView,
    ReadState,
    Result<Seq<u8>, FailureView>,
> {
    Logic {
        next: |at: ReadState, reply: ReplyView| read_next(at, reply),
        fits: |at: ReadState, reply: ReplyView| reply_fits(read_expects(at), reply),
    }
}

/// Reading and loading as pieces of logic go on as they do when they are resumed, and
/// accept the replies that they wait for.
pub proof fn law_load_logic_is_what_is_resumed(
    path: StatePathView,
    reading: ReadState,
    loading: LoadView,
    reply: ReplyView,
)
    ensures
        (read_logic().next)(reading, reply) == read_next(reading, reply),
        (read_logic().fits)(reading, reply) == reply_fits(read_expects(reading), reply),
        (load_logic(path).next)(loading, reply) == load_next(path, loading, reply),
        (load_logic(path).fits)(loading, reply) == reply_fits(load_expects(loading), reply),
{
}

/// The steps of reading and loading are seen with their calls and results as they are.
pub proof fn law_load_steps_are_seen_as_they_are(
    call: Call,
    reading: ReadState,
    loading: LoadState,
    bytes: Vec<u8>,
    failure: Failure,
    state: PersistentDenyReadAclState,
    error: StateError,
)
    ensures
        read_view(Step::Perform(call, reading)) == ReadStepView::Perform(call@, reading),
        read_view(Step::Return(Ok(bytes))) == ReadStepView::Return(Ok(bytes@)),
        read_view(Step::Return(Err(failure))) == ReadStepView::Return(Err(failure@)),
        load_view(Step::Perform(call, loading)) == LoadStepView::Perform(call@, loading@),
        load_view(Step::Return(Ok(state))) == LoadStepView::Return(Ok(state.principals@)),
        load_view(Step::Return(Err(error))) == LoadStepView::Return(Err(error@)),
{
}

/// Every reading comes to its end, whatever the outside replies: the file is opened so
/// that others may read, write and delete it, and read to its end; the bytes are the
/// result, or the first failure is.
pub proof fn law_every_reading_ends(bytes: Seq<u8>, failure: FailureView)
    ensures
        ({
            let logic = read_logic();
            let open = CallView::OpenState(ShareMode { read: true, write: true, delete: true });
            let opened = (open, ReplyView::Done);
            &&& leads_to(
                logic,
                read_start(),
                seq![(open, ReplyView::Failed(failure))],
                Step::Return(Err(failure)),
            )
            &&& leads_to(
                logic,
                read_start(),
                seq![opened, (CallView::ReadToEnd, ReplyView::Failed(failure))],
                Step::Return(Err(failure)),
            )
            &&& leads_to(
                logic,
                read_start(),
                seq![opened, (CallView::ReadToEnd, ReplyView::Bytes(bytes))],
                Step::Return(Ok(bytes)),
            )
        }),
{
    reveal_with_fuel(leads_to, 3);
}

/// Every load of a readable or missing file comes to its end, whatever it holds. A file
/// that is not found is the empty state, another failure to open or read it is the
/// error, and bytes that can be parsed are the state that they hold, whatever it is.
pub proof fn law_every_load_ends(
    path: StatePathView,
    bytes: Seq<u8>,
    state: Recorded,
    failure: FailureView,
)
    ensures
        ({
            let logic = load_logic(path);
            let open = CallView::OpenState(ShareMode { read: true, write: true, delete: true });
            let opened = (open, ReplyView::Done);
            let failed: Result<Recorded, StateErrorView> = if failure.not_found {
                Ok(Map::empty())
            } else {
                Err(StateErrorView::Read(failure.text))
            };
            &&& leads_to(
                logic,
                load_start(),
                seq![(open, ReplyView::Failed(failure))],
                Step::Return(failed),
            )
            &&& leads_to(
                logic,
                load_start(),
                seq![opened, (CallView::ReadToEnd, ReplyView::Failed(failure))],
                Step::Return(failed),
            )
            &&& leads_to(
                logic,
                load_start(),
                seq![
                    opened,
                    (CallView::ReadToEnd, ReplyView::Bytes(bytes)),
                    (CallView::ParseState(bytes), ReplyView::Parsed(state)),
                ],
                Step::Return(Ok(state)),
            )
        }),
{
    reveal_with_fuel(leads_to, 4);
}

/// Every load of an invalid file comes to its end: after the bytes could not be parsed
/// they are quarantined with the parse failure, whatever comes of that, and the empty
/// state is the result.
pub proof fn law_every_load_of_an_invalid_file_ends(
    path: StatePathView,
    bytes: Seq<u8>,
    failure: FailureView,
    quarantine: Seq<(CallView, ReplyView)>,
)
    requires
        leads_to(
            quarantine_logic(path),
            quarantine_start(path, bytes, failure.text),
            quarantine,
            Step::Return(()),
        ),
    ensures
        leads_to(
            load_logic(path),
            load_start(),
            seq![
                (
                    CallView::OpenState(ShareMode { read: true, write: true, delete: true }),
                    ReplyView::Done,
                ),
                (CallView::ReadToEnd, ReplyView::Bytes(bytes)),
                (CallView::ParseState(bytes), ReplyView::Failed(failure)),
            ] + quarantine,
            Step::Return(Ok(Map::empty())),
        ),
{
    let logic = load_logic(path);
    let first = seq![
        (
            CallView::OpenState(ShareMode { read: true, write: true, delete: true }),
            ReplyView::Done,
        ),
        (CallView::ReadToEnd, ReplyView::Bytes(bytes)),
        (CallView::ParseState(bytes), ReplyView::Failed(failure)),
    ];
    let step = quarantine_start(path, bytes, failure.text);
    let inside = Inside {
        call: |call: CallView| call,
        inner_call: |call: CallView| call,
        reply: |reply: ReplyView| reply,
        inner_reply: |reply: ReplyView| reply,
        state: |at: QuarantineView| LoadView::Quarantining(at),
        after: |unit: ()| load_from_quarantine(Step::Return(unit)),
    };
    assert forall|step: QuarantineStepView| #[trigger]
        outer_step(inside, step) == load_from_quarantine(step) by {}
    let end: LoadStepView = Step::Return(Ok(Map::empty()));
    outer_part(quarantine_logic(path), logic, inside, step, quarantine, (), Seq::empty(), end);
    assert(outer_history(inside, quarantine) + Seq::empty() =~= quarantine);
    assert(leads_to(logic, load_start(), first, load_from_quarantine(step))) by {
        reveal_with_fuel(leads_to, 4);
    }
    leads_through(logic, load_start(), first, load_from_quarantine(step), quarantine, end);
}

} // verus!
