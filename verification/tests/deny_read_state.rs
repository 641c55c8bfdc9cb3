//! The state and its transactions, run against a disk in memory.

use codex_rs::calls::Call;
use codex_rs::calls::Failure;
use codex_rs::calls::MoveMode;
use codex_rs::calls::Note;
use codex_rs::calls::Reply;
use codex_rs::calls::ShareMode;
use codex_rs::calls::Step;
use codex_rs::error::MutexError;
use codex_rs::error::StateError;
use codex_rs::load::load_state;
use codex_rs::load::open_state_for_read;
use codex_rs::mutex::unique_mutex_name;
use codex_rs::mutex::WAIT_ABANDONED;
use codex_rs::mutex::WAIT_FAILED;
use codex_rs::mutex::WAIT_OBJECT_0;
use codex_rs::principals::WidePath;
use codex_rs::quarantine::invalid_state_backup_name;
use codex_rs::reconcile::AclCall;
use codex_rs::reconcile::AclReply;
use codex_rs::state::PersistentDenyReadAclState;
use codex_rs::state::StatePath;
use codex_rs::state::DENY_READ_ACL_STATE_FILE;
use codex_rs::state::DENY_READ_ACL_STATE_MUTEX_NAME;
use codex_rs::store::store_state;
use codex_rs::store::ERROR_FILE_NOT_FOUND;
use codex_rs::sync::sync_persistent_deny_read_acls;
use codex_rs::sync::SyncCall;
use codex_rs::sync::SyncReply;
use codex_rs::sync::SyncStep;
use codex_rs::transaction::update_state;
use codex_rs::transaction::update_state_with_mutex_name;
use codex_rs::transaction::UpdateCall;
use codex_rs::transaction::UpdateError;
use codex_rs::transaction::UpdateReply;
use codex_rs::transaction::UpdateStep;
use std::collections::BTreeMap;
use std::time::SystemTime;
use std::time::UNIX_EPOCH;

const ERROR_SHARING_VIOLATION: u32 = 32;
const ERROR_ALREADY_EXISTS: u32 = 183;

/// What is written to the state file.
type Document = BTreeMap<String, BTreeMap<String, Vec<String>>>;

fn wide(path: &str) -> WidePath {
    path.encode_utf16().collect()
}

fn narrow(path: &WidePath) -> Option<String> {
    String::from_utf16(path).ok()
}

fn failure(not_found: bool, text: &str) -> Reply {
    Reply::Failed(Failure { not_found, text: text.to_string() })
}

fn serialize(state: &PersistentDenyReadAclState) -> Reply {
    let mut principals: BTreeMap<String, Vec<String>> = BTreeMap::new();
    for entry in state.principals.entries() {
        let mut paths = Vec::new();
        for path in &entry.paths {
            match narrow(path) {
                Some(path) => paths.push(path),
                None => return failure(false, "path contains invalid UTF-8 characters"),
            }
        }
        principals.insert(entry.principal_sid.clone(), paths);
    }
    let mut document: Document = BTreeMap::new();
    document.insert("principals".to_string(), principals);
    match serde_json::to_vec_pretty(&document) {
        Ok(bytes) => Reply::Bytes(bytes),
        Err(err) => failure(false, &err.to_string()),
    }
}

fn parse(bytes: &[u8]) -> Reply {
    let document: Document = match serde_json::from_slice(bytes) {
        Ok(document) => document,
        Err(err) => return failure(false, &err.to_string()),
    };
    let Some(principals) = document.get("principals") else {
        return failure(false, "missing field `principals`");
    };
    let mut state = PersistentDenyReadAclState::default();
    for (sid, paths) in principals {
        state.principals.insert(sid.clone(), paths.iter().map(|path| wide(path)).collect());
    }
    Reply::Parsed(state)
}

/// The disk, the mutex and the clock that all agents share.
struct Machine {
    path: StatePath,
    files: BTreeMap<String, Vec<u8>>,
    /// The share modes of the readers that keep the state file open.
    readers: Vec<ShareMode>,
    mutexes: Vec<String>,
    owner: Option<usize>,
    notes: Vec<Note>,
    since_epoch: Option<u128>,
    /// Replies that take the place of the usual ones, for the calls that they name.
    faults: Vec<(Call, Reply)>,
    /// The calls so far, with the agents that made them.
    calls: Vec<(usize, String)>,
}

/// What one agent holds in the middle of an access.
struct Session {
    id: usize,
    opened: Option<Vec<u8>>,
    temporary: Option<Vec<u8>>,
    last_error: u32,
}

impl Session {
    fn new(id: usize) -> Session {
        Session { id, opened: None, temporary: None, last_error: 0 }
    }
}

impl Machine {
    fn new() -> Machine {
        Machine {
            path: StatePath {
                display: r"C:\sandbox\deny_read_acl_state.json".to_string(),
                parent: Some(r"C:\sandbox".to_string()),
                file_name: Some(DENY_READ_ACL_STATE_FILE.to_string()),
            },
            files: BTreeMap::new(),
            readers: Vec::new(),
            mutexes: Vec::new(),
            owner: None,
            notes: Vec::new(),
            since_epoch: Some(1_700_000_000_000_000_000),
            faults: Vec::new(),
            calls: Vec::new(),
        }
    }

    fn with_file(bytes: &[u8]) -> Machine {
        let mut machine = Machine::new();
        machine.files.insert(DENY_READ_ACL_STATE_FILE.to_string(), bytes.to_vec());
        machine
    }

    fn state_file(&self) -> Option<&Vec<u8>> {
        self.files.get(DENY_READ_ACL_STATE_FILE)
    }

    fn backups(&self) -> Vec<(&String, &Vec<u8>)> {
        self.files
            .iter()
            .filter(|(name, _)| name.starts_with("deny_read_acl_state.json.corrupt-"))
            .collect()
    }

    fn calls_of(&self, id: usize) -> Vec<String> {
        self.calls.iter().filter(|(who, _)| *who == id).map(|(_, call)| call.clone()).collect()
    }

    fn flag(&mut self, session: &mut Session, outcome: Result<(), u32>) -> Reply {
        match outcome {
            Ok(()) => Reply::Flag(1),
            Err(code) => {
                session.last_error = code;
                Reply::Flag(0)
            }
        }
    }

    fn shared_for_delete(&self) -> Result<(), u32> {
        if self.readers.iter().all(|share| share.delete) {
            Ok(())
        } else {
            Err(ERROR_SHARING_VIOLATION)
        }
    }

    fn replace(&mut self, session: &mut Session) -> Result<(), u32> {
        if self.state_file().is_none() {
            return Err(ERROR_FILE_NOT_FOUND);
        }
        self.shared_for_delete()?;
        let bytes = session.temporary.take().expect("temporary file");
        self.files.insert(DENY_READ_ACL_STATE_FILE.to_string(), bytes);
        Ok(())
    }

    fn move_into_place(&mut self, session: &mut Session, mode: MoveMode) -> Result<(), u32> {
        assert!(mode.replace_existing && mode.write_through);
        self.shared_for_delete()?;
        let bytes = session.temporary.take().expect("temporary file");
        self.files.insert(DENY_READ_ACL_STATE_FILE.to_string(), bytes);
        Ok(())
    }

    fn move_to_backup(&mut self, name: String, mode: MoveMode) -> Result<(), u32> {
        assert!(!mode.replace_existing && mode.write_through);
        if self.files.contains_key(&name) {
            return Err(ERROR_ALREADY_EXISTS);
        }
        let bytes = self.files.remove(DENY_READ_ACL_STATE_FILE).ok_or(ERROR_FILE_NOT_FOUND)?;
        self.files.insert(name, bytes);
        Ok(())
    }

    /// Whether the call would block.
    fn blocks(&self, session: &Session, call: &Call) -> bool {
        matches!(call, Call::WaitForMutex(_)) && self.owner.is_some_and(|id| id != session.id)
    }

    fn perform(&mut self, session: &mut Session, call: Call) -> Reply {
        let shown = format!("{call:?}");
        let name = shown.split(['(', ' ', '{']).next().unwrap_or("").to_string();
        self.calls.push((session.id, name));
        if let Some(at) = self.faults.iter().position(|(faulty, _)| *faulty == call) {
            return self.faults.remove(at).1;
        }
        match call {
            Call::CreateMutex(name) => {
                if !self.mutexes.contains(&name) {
                    self.mutexes.push(name);
                }
                Reply::Handle(session.id as isize + 1)
            }
            Call::WaitForMutex(handle) => {
                assert_eq!(handle, session.id as isize + 1);
                assert_eq!(self.owner, None);
                self.owner = Some(session.id);
                Reply::Code(WAIT_OBJECT_0)
            }
            Call::ReleaseMutex(handle) => {
                assert_eq!(handle, session.id as isize + 1);
                assert_eq!(self.owner, Some(session.id));
                self.owner = None;
                Reply::Done
            }
            Call::CloseHandle(handle) => {
                assert_eq!(handle, session.id as isize + 1);
                Reply::Done
            }
            Call::LastError => Reply::Code(session.last_error),
            Call::OpenState(share) => match self.state_file() {
                Some(bytes) => {
                    assert!(share.read && share.write && share.delete);
                    session.opened = Some(bytes.clone());
                    Reply::Done
                }
                None => failure(true, "file not found"),
            },
            Call::ReadToEnd => Reply::Bytes(session.opened.take().expect("opened file")),
            Call::ParseState(bytes) => parse(&bytes),
            Call::ReadClock => Reply::Clock { process_id: 4242, since_epoch: self.since_epoch },
            Call::MoveToBackup(name, mode) => {
                let outcome = self.move_to_backup(name, mode);
                self.flag(session, outcome)
            }
            Call::WriteBackup(name, bytes) => {
                self.files.insert(name, bytes);
                Reply::Done
            }
            Call::LogNote(note) => {
                self.notes.push(note);
                Reply::Done
            }
            Call::SerializeState(state) => serialize(&state),
            Call::CreateTemporary => {
                session.temporary = Some(Vec::new());
                Reply::Done
            }
            Call::WriteTemporary(bytes) => {
                session.temporary = Some(bytes);
                Reply::Done
            }
            Call::FlushTemporary | Call::SyncTemporary | Call::CloseTemporary => {
                assert!(session.temporary.is_some());
                Reply::Done
            }
            Call::ReplaceState => {
                let outcome = self.replace(session);
                self.flag(session, outcome)
            }
            Call::MoveIntoPlace(mode) => {
                let outcome = self.move_into_place(session, mode);
                self.flag(session, outcome)
            }
            Call::DropTemporary => {
                session.temporary = None;
                Reply::Done
            }
        }
    }
}

fn load(machine: &mut Machine) -> Result<PersistentDenyReadAclState, StateError> {
    let mut session = Session::new(0);
    let mut step = load_state();
    loop {
        match step {
            Step::Perform(call, at) => {
                let reply = machine.perform(&mut session, call);
                assert!(reply.fits(at.expects()));
                step = at.resume(&machine.path, reply);
            }
            Step::Return(result) => return result,
        }
    }
}

fn store(machine: &mut Machine, state: PersistentDenyReadAclState) -> Result<(), StateError> {
    let mut session = Session::new(0);
    let mut step = store_state(state);
    loop {
        match step {
            Step::Perform(call, at) => {
                let reply = machine.perform(&mut session, call);
                assert!(reply.fits(at.expects()));
                step = at.resume(&machine.path, reply);
            }
            Step::Return(result) => return result,
        }
    }
}

fn update<T>(
    machine: &mut Machine,
    first: UpdateStep<T, String>,
    update: impl Fn(&mut PersistentDenyReadAclState) -> Result<T, String>,
) -> Result<T, UpdateError<String>> {
    let mut session = Session::new(0);
    let mut step = first;
    loop {
        match step {
            Step::Perform(UpdateCall::System(call), at) => {
                let reply = UpdateReply::System(machine.perform(&mut session, call));
                assert!(at.accepts(&reply));
                step = at.resume(&machine.path, reply);
            }
            Step::Perform(UpdateCall::Update(mut state), at) => {
                let updated = update(&mut state).map(|output| (state, output));
                let reply = UpdateReply::Updated(updated);
                assert!(at.accepts(&reply));
                step = at.resume(&machine.path, reply);
            }
            Step::Return(result) => return result,
        }
    }
}

/// Runs one transaction per principal, all at once. `schedule` picks who goes on.
fn update_all(
    machine: &mut Machine,
    mutex_name: &str,
    records: Vec<(String, WidePath)>,
    mut schedule: impl FnMut(usize) -> usize,
) {
    let mut sessions: Vec<Session> = Vec::new();
    let mut steps: Vec<Option<UpdateStep<(), String>>> = Vec::new();
    for id in 0..records.len() {
        sessions.push(Session::new(id));
        steps.push(Some(update_state_with_mutex_name(mutex_name)));
    }
    let mut running = records.len();
    while running > 0 {
        let who = schedule(records.len());
        let Some(step) = steps[who].take() else {
            continue;
        };
        steps[who] = match step {
            Step::Perform(UpdateCall::System(call), at) => {
                if machine.blocks(&sessions[who], &call) {
                    Some(Step::Perform(UpdateCall::System(call), at))
                } else {
                    let reply = machine.perform(&mut sessions[who], call);
                    Some(at.resume(&machine.path, UpdateReply::System(reply)))
                }
            }
            Step::Perform(UpdateCall::Update(mut state), at) => {
                let (sid, path) = records[who].clone();
                state.principals.insert(sid, vec![path]);
                Some(at.resume(&machine.path, UpdateReply::Updated(Ok((state, ())))))
            }
            Step::Return(result) => {
                assert_eq!(result, Ok(()));
                running -= 1;
                None
            }
        };
    }
}

/// A schedule that looks random, the same for the same seed.
fn shuffled(seed: u64) -> impl FnMut(usize) -> usize {
    let mut state = seed;
    move |count: usize| {
        state = state.wrapping_mul(6364136223846793005).wrapping_add(1442695040888963407);
        ((state >> 33) as usize) % count
    }
}

fn in_turns() -> impl FnMut(usize) -> usize {
    let mut next = 0;
    move |count: usize| {
        next += 1;
        next % count
    }
}

fn state_of(records: &[(&str, &[&str])]) -> PersistentDenyReadAclState {
    let mut state = PersistentDenyReadAclState::default();
    for (sid, paths) in records {
        state.principals.insert(sid.to_string(), paths.iter().map(|path| wide(path)).collect());
    }
    state
}

fn trial_mutex_name(label: &str) -> String {
    let timestamp =
        SystemTime::now().duration_since(UNIX_EPOCH).expect("system time").as_nanos();
    unique_mutex_name(4242, label, timestamp)
}

#[test]
fn nul_filled_state_is_quarantined_and_recreated() {
    let corrupt_bytes = vec![0_u8; 22];
    let mut machine = Machine::with_file(&corrupt_bytes);

    update(&mut machine, update_state_with_mutex_name(&trial_mutex_name("recovery")), |_| Ok(()))
        .expect("recover state");

    assert_eq!(
        load(&mut machine).expect("load recovered state"),
        PersistentDenyReadAclState::default()
    );
    let backups = machine.backups();
    assert_eq!(backups.len(), 1);
    assert_eq!(backups[0].0, "deny_read_acl_state.json.corrupt-4242-1700000000000000000");
    assert_eq!(*backups[0].1, corrupt_bytes);
}

#[test]
fn replacement_succeeds_while_reader_holds_delete_shared_handle() {
    let mut machine = Machine::new();
    let mut initial = PersistentDenyReadAclState::default();
    initial.principals.insert("initial".to_string(), vec![wide(r"C:\initial")]);
    store(&mut machine, initial).expect("store initial state");
    let Call::OpenState(share) = open_state_for_read() else {
        panic!("open shared reader");
    };
    machine.readers.push(share);

    let replacement = || {
        let mut replacement = PersistentDenyReadAclState::default();
        replacement.principals.insert("replacement".to_string(), vec![wide(r"C:\replacement")]);
        replacement
    };
    store(&mut machine, replacement()).expect("replace state");

    assert_eq!(load(&mut machine).expect("load replacement"), replacement());
}

#[test]
fn replacement_fails_while_reader_holds_unshared_handle() {
    let mut machine = Machine::new();
    store(&mut machine, state_of(&[("initial", &[r"C:\initial"])])).expect("store initial state");
    machine.readers.push(ShareMode { read: true, write: true, delete: false });
    assert_eq!(
        store(&mut machine, state_of(&[])),
        Err(StateError::ReplaceFile(ERROR_SHARING_VIOLATION))
    );
    assert_eq!(load(&mut machine), Ok(state_of(&[("initial", &[r"C:\initial"])])));
}

#[test]
fn concurrent_thread_updates_preserve_every_principal() {
    const WRITER_COUNT: usize = 8;

    for seed in 0..20 {
        let mut machine = Machine::new();
        let mutex_name = trial_mutex_name("threads");
        let mut writers = Vec::new();
        for index in 0..WRITER_COUNT {
            writers.push((
                format!("S-1-5-21-thread-{index}"),
                wide(&format!(r"C:\thread-{index}")),
            ));
        }
        update_all(&mut machine, &mutex_name, writers, shuffled(seed));

        let state = load(&mut machine).expect("load final state");
        assert_eq!(state.principals.len(), WRITER_COUNT);
        for index in 0..WRITER_COUNT {
            assert_eq!(
                state.principals.get(&format!("S-1-5-21-thread-{index}")),
                Some(&vec![wide(&format!(r"C:\thread-{index}"))])
            );
        }
    }
}

#[test]
fn concurrent_process_updates_preserve_every_principal() {
    const WRITER_COUNT: usize = 6;

    let mut machine = Machine::new();
    let mutex_name = trial_mutex_name("processes");
    let mut writers = Vec::new();
    for index in 0..WRITER_COUNT {
        writers.push((format!("S-1-5-21-process-{index}"), wide(r"C:\process-deny")));
    }
    update_all(&mut machine, &mutex_name, writers, in_turns());

    let state = load(&mut machine).expect("load final state");
    assert_eq!(state.principals.len(), WRITER_COUNT);
    assert_eq!(machine.mutexes, vec![mutex_name]);
    assert_eq!(machine.owner, None);
}

#[test]
fn agent_that_ends_midway_loses_only_its_own_update() {
    let mut machine = Machine::new();
    store(&mut machine, state_of(&[("S-first", &[r"C:\first"])])).expect("store state");
    let mut session = Session::new(9);
    let mut step: UpdateStep<(), String> = update_state_with_mutex_name("m");
    loop {
        step = match step {
            Step::Perform(UpdateCall::System(Call::ReplaceState), _) => break,
            Step::Perform(UpdateCall::System(call), at) => {
                let reply = machine.perform(&mut session, call);
                at.resume(&machine.path, UpdateReply::System(reply))
            }
            Step::Perform(UpdateCall::Update(mut state), at) => {
                state.principals.insert("S-lost".to_string(), vec![wide(r"C:\lost")]);
                at.resume(&machine.path, UpdateReply::Updated(Ok((state, ()))))
            }
            Step::Return(_) => panic!("the transaction is not over"),
        };
    }
    assert_eq!(machine.owner, Some(9));
    machine.owner = None;

    let records = vec![
        ("S-second".to_string(), wide(r"C:\second")),
        ("S-third".to_string(), wide(r"C:\third")),
    ];
    update_all(&mut machine, "m", records, in_turns());
    assert_eq!(
        load(&mut machine),
        Ok(state_of(&[
            ("S-first", &[r"C:\first"]),
            ("S-second", &[r"C:\second"]),
            ("S-third", &[r"C:\third"]),
        ]))
    );
}

#[test]
fn error_code_of_a_missing_file_is_that_of_windows() {
    assert_eq!(ERROR_FILE_NOT_FOUND, windows_sys::Win32::Foundation::ERROR_FILE_NOT_FOUND);
}

#[test]
fn update_state_uses_the_mutex_of_the_state() {
    let mut machine = Machine::new();
    assert_eq!(update(&mut machine, update_state(), |_| Ok(7)), Ok(7));
    assert_eq!(machine.mutexes, vec![DENY_READ_ACL_STATE_MUTEX_NAME.to_string()]);
    assert_eq!(DENY_READ_ACL_STATE_MUTEX_NAME, "Local\\CodexSandboxDenyReadAclState");
}

#[test]
fn transaction_is_one_critical_section() {
    let mut machine = Machine::new();
    let result = update(&mut machine, update_state(), |state| {
        state.principals.insert("S-1".to_string(), vec![wide(r"C:\a")]);
        Ok(())
    });
    assert_eq!(result, Ok(()));
    assert_eq!(
        machine.calls_of(0),
        vec![
            "CreateMutex",
            "WaitForMutex",
            "OpenState",
            "SerializeState",
            "CreateTemporary",
            "WriteTemporary",
            "FlushTemporary",
            "SyncTemporary",
            "CloseTemporary",
            "ReplaceState",
            "LastError",
            "MoveIntoPlace",
            "DropTemporary",
            "ReleaseMutex",
            "CloseHandle",
        ]
    );
}

#[test]
fn stored_state_is_a_pretty_document_in_the_order_of_the_sids() {
    let mut machine = Machine::new();
    store(&mut machine, state_of(&[("S-2", &[r"C:\b", r"C:\c"]), ("S-1", &[r"C:\a"])]))
        .expect("store state");
    let expected = r#"{
  "principals": {
    "S-1": [
      "C:\\a"
    ],
    "S-2": [
      "C:\\b",
      "C:\\c"
    ]
  }
}"#;
    assert_eq!(machine.state_file(), Some(&expected.as_bytes().to_vec()));
    assert_eq!(
        load(&mut machine),
        Ok(state_of(&[("S-1", &[r"C:\a"]), ("S-2", &[r"C:\b", r"C:\c"])]))
    );
}

#[test]
fn missing_file_is_the_empty_state() {
    let mut machine = Machine::new();
    assert_eq!(load(&mut machine), Ok(PersistentDenyReadAclState::default()));
    assert_eq!(machine.calls_of(0), vec!["OpenState"]);
}

#[test]
fn unreadable_file_is_an_error_and_is_left_alone() {
    let share = ShareMode { read: true, write: true, delete: true };
    let mut machine = Machine::with_file(b"{}");
    machine.faults.push((Call::OpenState(share), failure(false, "access is denied")));
    assert_eq!(load(&mut machine), Err(StateError::Read("access is denied".to_string())));
    machine.faults.push((Call::ReadToEnd, failure(false, "device error")));
    assert_eq!(load(&mut machine), Err(StateError::Read("device error".to_string())));
    machine.faults.push((Call::ReadToEnd, failure(true, "gone")));
    assert_eq!(load(&mut machine), Ok(PersistentDenyReadAclState::default()));
    assert_eq!(machine.state_file(), Some(&b"{}".to_vec()));
    assert!(machine.notes.is_empty());
}

#[test]
fn load_failure_releases_the_mutex_without_an_update() {
    let mut machine = Machine::with_file(b"{}");
    machine.faults.push((Call::ReadToEnd, failure(false, "device error")));
    let result: Result<(), UpdateError<String>> =
        update(&mut machine, update_state(), |_| panic!("no state to update"));
    assert_eq!(result, Err(UpdateError::State(StateError::Read("device error".to_string()))));
    assert_eq!(
        machine.calls_of(0),
        vec!["CreateMutex", "WaitForMutex", "OpenState", "ReadToEnd", "ReleaseMutex", "CloseHandle"]
    );
    assert_eq!(machine.owner, None);
}

#[test]
fn failed_update_stores_nothing() {
    let mut machine = Machine::new();
    store(&mut machine, state_of(&[("S-1", &[r"C:\a"])])).expect("store state");
    let before = machine.state_file().cloned();
    let result: Result<(), UpdateError<String>> = update(&mut machine, update_state(), |state| {
        state.principals.insert("S-2".to_string(), vec![wide(r"C:\b")]);
        Err("no".to_string())
    });
    assert_eq!(result, Err(UpdateError::Update("no".to_string())));
    assert_eq!(machine.state_file().cloned(), before);
    assert_eq!(machine.owner, None);
}

#[test]
fn quarantine_logs_what_happened() {
    let mut machine = Machine::with_file(b"nonsense");
    assert_eq!(load(&mut machine), Ok(PersistentDenyReadAclState::default()));
    assert_eq!(machine.state_file(), None);
    assert_eq!(machine.notes.len(), 1);
    let backup = r"C:\sandbox\deny_read_acl_state.json.corrupt-4242-1700000000000000000";
    assert_eq!(
        machine.notes[0].text(&machine.path.display, backup),
        "quarantined invalid deny-read ACL state C:\\sandbox\\deny_read_acl_state.json to \
         C:\\sandbox\\deny_read_acl_state.json.corrupt-4242-1700000000000000000 after parse \
         failure: expected ident at line 1 column 2"
    );
}

#[test]
fn quarantine_writes_a_backup_where_the_file_cannot_be_moved() {
    let name = "deny_read_acl_state.json.corrupt-4242-0";
    let mode = MoveMode { replace_existing: false, write_through: true };
    let mut machine = Machine::with_file(b"nonsense");
    machine.since_epoch = None;
    machine.faults.push((Call::MoveToBackup(name.to_string(), mode), Reply::Flag(0)));
    machine.faults.push((Call::LastError, Reply::Code(5)));
    assert_eq!(load(&mut machine), Ok(PersistentDenyReadAclState::default()));
    assert_eq!(machine.files.get(name), Some(&b"nonsense".to_vec()));
    assert_eq!(machine.state_file(), Some(&b"nonsense".to_vec()));
    assert_eq!(
        machine.notes[0].text("state", "backup"),
        "failed to move invalid deny-read ACL state state aside (5); backup backup: written"
    );

    let mut machine = Machine::with_file(b"nonsense");
    machine.since_epoch = None;
    machine.faults.push((Call::MoveToBackup(name.to_string(), mode), Reply::Flag(0)));
    machine.faults.push((Call::LastError, Reply::Code(5)));
    machine.faults.push((
        Call::WriteBackup(name.to_string(), b"nonsense".to_vec()),
        failure(false, "disk full"),
    ));
    assert_eq!(load(&mut machine), Ok(PersistentDenyReadAclState::default()));
    assert_eq!(
        machine.notes[0].text("state", "backup"),
        "failed to move invalid deny-read ACL state state aside (5); backup backup: failed: disk full"
    );
}

#[test]
fn nothing_is_quarantined_without_a_parent() {
    let mut machine = Machine::with_file(b"nonsense");
    machine.path.parent = None;
    assert_eq!(load(&mut machine), Ok(PersistentDenyReadAclState::default()));
    assert_eq!(machine.calls_of(0), vec!["OpenState", "ReadToEnd", "ParseState"]);
}

#[test]
fn backup_name_falls_back_to_the_name_of_the_state_file() {
    assert_eq!(
        invalid_state_backup_name(&None, 17, Some(u128::MAX)),
        "deny_read_acl_state.json.corrupt-17-340282366920938463463374607431768211455"
    );
    assert_eq!(
        invalid_state_backup_name(&Some("other.json".to_string()), u32::MAX, None),
        "other.json.corrupt-4294967295-0"
    );
}

#[test]
fn every_store_failure_has_its_error() {
    let mut machine = Machine::new();
    machine.faults.push((Call::SerializeState(state_of(&[])), failure(false, "no json")));
    assert_eq!(
        store(&mut machine, state_of(&[])),
        Err(StateError::Serialize("no json".to_string()))
    );

    let mut machine = Machine::new();
    machine.path.parent = None;
    assert_eq!(store(&mut machine, state_of(&[])), Err(StateError::NoParent));

    let bytes = {
        let mut machine = Machine::new();
        store(&mut machine, state_of(&[])).expect("store empty state");
        machine.state_file().cloned().expect("state file")
    };
    let cause = "because".to_string();
    let cases = [
        (
            Call::CreateTemporary,
            StateError::CreateTemporary {
                parent: r"C:\sandbox".to_string(),
                cause: cause.clone(),
            },
        ),
        (Call::WriteTemporary(bytes), StateError::WriteTemporary(cause.clone())),
        (Call::FlushTemporary, StateError::FlushTemporary(cause.clone())),
        (Call::SyncTemporary, StateError::SyncTemporary(cause.clone())),
    ];
    for (call, error) in cases {
        let created = call != Call::CreateTemporary;
        let mut machine = Machine::new();
        machine.faults.push((call, failure(false, &cause)));
        assert_eq!(store(&mut machine, state_of(&[])), Err(error));
        assert_eq!(machine.state_file(), None);
        let dropped = machine.calls_of(0).last().map(String::as_str) == Some("DropTemporary");
        assert_eq!(dropped, created);
    }

    let mut machine = Machine::new();
    let mode = MoveMode { replace_existing: true, write_through: true };
    machine.faults.push((Call::LastError, Reply::Code(ERROR_FILE_NOT_FOUND)));
    machine.faults.push((Call::MoveIntoPlace(mode), Reply::Flag(0)));
    machine.faults.push((Call::LastError, Reply::Code(5)));
    assert_eq!(store(&mut machine, state_of(&[])), Err(StateError::MoveFile(5)));
}

#[test]
fn paths_that_are_not_unicode_cannot_be_serialized() {
    let mut machine = Machine::new();
    let mut state = PersistentDenyReadAclState::default();
    state.principals.insert("S-1".to_string(), vec![vec![0xd800]]);
    assert_eq!(
        store(&mut machine, state),
        Err(StateError::Serialize("path contains invalid UTF-8 characters".to_string()))
    );
}

#[test]
fn every_mutex_failure_has_its_error() {
    let cases = [
        (
            vec![
                (Call::CreateMutex("m".to_string()), Reply::Handle(0)),
                (Call::LastError, Reply::Code(5)),
            ],
            MutexError::Create(5),
            vec!["CreateMutex", "LastError"],
        ),
        (
            vec![
                (Call::WaitForMutex(1), Reply::Code(WAIT_FAILED)),
                (Call::LastError, Reply::Code(6)),
            ],
            MutexError::WaitFailed(6),
            vec!["CreateMutex", "WaitForMutex", "LastError", "CloseHandle"],
        ),
        (
            vec![(Call::WaitForMutex(1), Reply::Code(258))],
            MutexError::WaitUnexpected(258),
            vec!["CreateMutex", "WaitForMutex", "CloseHandle"],
        ),
    ];
    for (faults, error, calls) in cases {
        let mut machine = Machine::new();
        machine.faults = faults;
        let result: Result<(), UpdateError<String>> =
            update(&mut machine, update_state_with_mutex_name("m"), |_| Ok(()));
        assert_eq!(result, Err(UpdateError::State(StateError::Mutex(error))));
        assert_eq!(machine.calls_of(0), calls);
    }
}

#[test]
fn abandoned_mutex_is_acquired() {
    let mut machine = Machine::new();
    machine.owner = Some(0);
    machine.faults.push((Call::WaitForMutex(1), Reply::Code(WAIT_ABANDONED)));
    assert_eq!(update(&mut machine, update_state(), |_| Ok(1)), Ok(1));
    assert_eq!(machine.owner, None);
}

#[test]
fn every_error_has_its_messages() {
    let cause = || "because".to_string();
    let cases = [
        (
            StateError::Mutex(MutexError::Create(5)),
            vec!["acquire deny-read ACL state mutex", "CreateMutexW failed: 5"],
        ),
        (
            StateError::Mutex(MutexError::WaitFailed(6)),
            vec!["acquire deny-read ACL state mutex", "WaitForSingleObject failed: 6"],
        ),
        (
            StateError::Mutex(MutexError::WaitUnexpected(258)),
            vec![
                "acquire deny-read ACL state mutex",
                "WaitForSingleObject returned unexpected status: 258",
            ],
        ),
        (StateError::Read(cause()), vec!["read deny-read ACL state file.json", "because"]),
        (StateError::Serialize(cause()), vec!["serialize deny-read ACL state", "because"]),
        (StateError::NoParent, vec!["deny-read ACL state path has no parent: file.json"]),
        (
            StateError::CreateTemporary { parent: "dir".to_string(), cause: cause() },
            vec!["create temporary deny-read ACL state in dir", "because"],
        ),
        (
            StateError::WriteTemporary(cause()),
            vec!["write temporary deny-read ACL state for file.json", "because"],
        ),
        (
            StateError::FlushTemporary(cause()),
            vec!["flush temporary deny-read ACL state for file.json", "because"],
        ),
        (
            StateError::SyncTemporary(cause()),
            vec!["sync temporary deny-read ACL state for file.json", "because"],
        ),
        (StateError::ReplaceFile(32), vec!["ReplaceFileW failed for file.json: 32"]),
        (StateError::MoveFile(4294967295), vec!["MoveFileExW failed for file.json: 4294967295"]),
    ];
    for (error, messages) in cases {
        assert_eq!(error.messages("file.json"), messages);
    }
}

#[test]
fn principals_are_kept_in_the_order_of_their_sids() {
    let mut state = PersistentDenyReadAclState::default();
    for sid in ["b", "a", "ab", "", "\u{e9}", "z"] {
        assert_eq!(state.principals.insert(sid.to_string(), vec![wide(sid)]), None);
    }
    let sids: Vec<&str> =
        state.principals.entries().iter().map(|entry| entry.principal_sid.as_str()).collect();
    assert_eq!(sids, vec!["", "a", "ab", "b", "z", "\u{e9}"]);
    assert_eq!(state.principals.insert("a".to_string(), vec![]), Some(vec![wide("a")]));
    assert_eq!(state.principals.len(), 6);
    assert_eq!(state.principals.remove(&"a".to_string()), Some(vec![]));
    assert_eq!(state.principals.remove(&"a".to_string()), None);
    assert_eq!(state.principals.get(&"a".to_string()), None);
    assert_eq!(state.principals.get(&"z".to_string()), Some(&vec![wide("z")]));
}

/// The ACEs of one principal, by the lexical keys of their paths.
struct Aces {
    keys: Vec<String>,
    revoked: Vec<String>,
    refuse: bool,
}

/// Upper and lower case, and both separators, name the same path.
fn lexical_key(path: &WidePath) -> String {
    narrow(path).expect("unicode path").replace('/', "\\").to_lowercase()
}

fn perform_on_aces(aces: &mut Aces, call: AclCall) -> AclReply<String> {
    match call {
        AclCall::Apply(paths) => {
            if aces.refuse {
                AclReply::ApplyFailed("refused".to_string())
            } else {
                for path in &paths {
                    let key = lexical_key(path);
                    if !aces.keys.contains(&key) {
                        aces.keys.push(key);
                    }
                }
                AclReply::Applied(paths)
            }
        }
        AclCall::LexicalKeys { applied, previous } => AclReply::Keys {
            applied: applied.iter().map(lexical_key).collect(),
            previous: previous.iter().map(lexical_key).collect(),
        },
        AclCall::Revoke(path) => {
            let key = lexical_key(&path);
            aces.keys.retain(|other| *other != key);
            aces.revoked.push(narrow(&path).expect("unicode path"));
            AclReply::Done
        }
    }
}

/// Runs one synchronization per principal, all at once. Returns the agents in the order
/// of their calls on ACEs.
fn synchronize_all(
    machine: &mut Machine,
    aces: &mut [Aces],
    desired: &[(String, Vec<WidePath>)],
    mut schedule: impl FnMut(usize) -> usize,
) -> Vec<usize> {
    let mut sessions: Vec<Session> = Vec::new();
    let mut steps: Vec<Option<SyncStep<String>>> = Vec::new();
    let mut log = Vec::new();
    for (id, (sid, paths)) in desired.iter().enumerate() {
        sessions.push(Session::new(id));
        steps.push(Some(sync_persistent_deny_read_acls(sid, paths.clone())));
    }
    let mut running = desired.len();
    while running > 0 {
        let who = schedule(desired.len());
        let Some(step) = steps[who].take() else {
            continue;
        };
        steps[who] = match step {
            Step::Perform(SyncCall::System(call), at) => {
                if machine.blocks(&sessions[who], &call) {
                    Some(Step::Perform(SyncCall::System(call), at))
                } else {
                    let reply = machine.perform(&mut sessions[who], call);
                    Some(at.resume(&machine.path, SyncReply::System(reply)))
                }
            }
            Step::Perform(SyncCall::Acl(call), at) => {
                assert_eq!(machine.owner, Some(who));
                log.push(who);
                let reply = perform_on_aces(&mut aces[who], call);
                Some(at.resume(&machine.path, SyncReply::Acl(reply)))
            }
            Step::Return(result) => {
                assert_eq!(result, Ok(desired[who].1.clone()));
                running -= 1;
                None
            }
        };
    }
    log
}

fn synchronize(
    machine: &mut Machine,
    aces: &mut Aces,
    sid: &str,
    desired: &[&str],
) -> Result<Vec<WidePath>, UpdateError<String>> {
    let mut session = Session::new(0);
    let mut step = sync_persistent_deny_read_acls(sid, desired.iter().map(|p| wide(p)).collect());
    loop {
        match step {
            Step::Perform(SyncCall::System(call), at) => {
                let reply = SyncReply::System(machine.perform(&mut session, call));
                assert!(at.accepts(&reply));
                step = at.resume(&machine.path, reply);
            }
            Step::Perform(SyncCall::Acl(call), at) => {
                assert_eq!(machine.owner, Some(0));
                let reply = perform_on_aces(aces, call);
                let reply = SyncReply::Acl(reply);
                assert!(at.accepts(&reply));
                step = at.resume(&machine.path, reply);
            }
            Step::Return(result) => return result,
        }
    }
}

#[test]
fn synchronization_leaves_no_stale_ace_behind() {
    let mut machine = Machine::new();
    let mut aces = Aces { keys: Vec::new(), revoked: Vec::new(), refuse: false };
    store(&mut machine, state_of(&[("S-other", &[r"C:\kept"])])).expect("store state");

    let applied = synchronize(&mut machine, &mut aces, "S-1", &[r"C:\A", r"C:\b", r"C:\c"]);
    assert_eq!(applied, Ok(vec![wide(r"C:\A"), wide(r"C:\b"), wide(r"C:\c")]));
    assert!(aces.revoked.is_empty());

    let applied = synchronize(&mut machine, &mut aces, "S-1", &["c:/a", r"C:\d"]);
    assert_eq!(applied, Ok(vec![wide("c:/a"), wide(r"C:\d")]));
    assert_eq!(aces.revoked, vec![r"C:\b", r"C:\c"]);
    assert_eq!(aces.keys, vec![r"c:\a", r"c:\d"]);
    assert_eq!(
        load(&mut machine),
        Ok(state_of(&[("S-1", &["c:/a", r"C:\d"]), ("S-other", &[r"C:\kept"])]))
    );
}

#[test]
fn principal_without_paths_is_not_recorded() {
    let mut machine = Machine::new();
    let mut aces = Aces { keys: Vec::new(), revoked: Vec::new(), refuse: false };
    synchronize(&mut machine, &mut aces, "S-1", &[r"C:\a"]).expect("synchronize");
    assert_eq!(synchronize(&mut machine, &mut aces, "S-1", &[]), Ok(vec![]));
    assert_eq!(aces.revoked, vec![r"C:\a"]);
    assert!(aces.keys.is_empty());
    assert_eq!(load(&mut machine), Ok(PersistentDenyReadAclState::default()));
}

#[test]
fn failed_apply_revokes_nothing_and_keeps_the_record() {
    let mut machine = Machine::new();
    let mut aces = Aces { keys: Vec::new(), revoked: Vec::new(), refuse: false };
    synchronize(&mut machine, &mut aces, "S-1", &[r"C:\a"]).expect("synchronize");
    aces.refuse = true;
    assert_eq!(
        synchronize(&mut machine, &mut aces, "S-1", &[r"C:\b"]),
        Err(UpdateError::Update("refused".to_string()))
    );
    assert!(aces.revoked.is_empty());
    assert_eq!(machine.owner, None);
    assert_eq!(load(&mut machine), Ok(state_of(&[("S-1", &[r"C:\a"])])));
}

#[test]
fn failed_store_is_reported_after_the_aces_changed() {
    let mut machine = Machine::new();
    let mut aces = Aces { keys: Vec::new(), revoked: Vec::new(), refuse: false };
    machine.faults.push((Call::SyncTemporary, failure(false, "disk error")));
    assert_eq!(
        synchronize(&mut machine, &mut aces, "S-1", &[r"C:\a"]),
        Err(UpdateError::State(StateError::SyncTemporary("disk error".to_string())))
    );
    assert_eq!(aces.keys, vec![r"c:\a"]);
    assert_eq!(machine.state_file(), None);
    assert_eq!(machine.owner, None);
}

#[test]
fn synchronization_after_a_failed_store_keeps_only_what_was_never_recorded() {
    let mut machine = Machine::new();
    let mut aces = Aces { keys: Vec::new(), revoked: Vec::new(), refuse: false };
    synchronize(&mut machine, &mut aces, "S-1", &[r"C:\a"]).expect("synchronize");
    machine.faults.push((Call::FlushTemporary, failure(false, "disk error")));
    synchronize(&mut machine, &mut aces, "S-1", &[r"C:\b"]).expect_err("store fails");
    assert_eq!(aces.keys, vec![r"c:\b"]);
    synchronize(&mut machine, &mut aces, "S-1", &[r"C:\c"]).expect("synchronize");
    assert_eq!(aces.revoked, vec![r"C:\a", r"C:\a"]);
    assert_eq!(aces.keys, vec![r"c:\b", r"c:\c"]);
    assert_eq!(load(&mut machine), Ok(state_of(&[("S-1", &[r"C:\c"])])));
}

#[test]
fn second_synchronization_changes_nothing() {
    let mut machine = Machine::new();
    let mut aces = Aces { keys: Vec::new(), revoked: Vec::new(), refuse: false };
    synchronize(&mut machine, &mut aces, "S-1", &[r"C:\a", r"C:\b"]).expect("synchronize");
    let stored = machine.state_file().cloned();
    let keys = aces.keys.clone();
    synchronize(&mut machine, &mut aces, "S-1", &[r"C:\a", r"C:\b"]).expect("synchronize");
    assert_eq!(machine.state_file().cloned(), stored);
    assert_eq!(aces.keys, keys);
    assert!(aces.revoked.is_empty());
}

#[test]
fn concurrent_synchronizations_do_not_disturb_one_another() {
    const AGENT_COUNT: usize = 5;

    for seed in 0..20 {
        let mut machine = Machine::new();
        let mut state = state_of(&[("S-other", &[r"C:\kept"])]);
        let mut aces = Vec::new();
        let mut desired = Vec::new();
        for index in 0..AGENT_COUNT {
            let old = format!(r"C:\old-{index}");
            state.principals.insert(format!("S-{index}"), vec![wide(&old)]);
            aces.push(Aces {
                keys: vec![lexical_key(&wide(&old))],
                revoked: Vec::new(),
                refuse: false,
            });
            desired.push((format!("S-{index}"), vec![wide(&format!(r"C:\new-{index}"))]));
        }
        store(&mut machine, state).expect("store state");

        let log = synchronize_all(&mut machine, &mut aces, &desired, shuffled(seed));

        let mut turns = log.clone();
        turns.dedup();
        assert_eq!(turns.len(), AGENT_COUNT);
        assert_eq!(log.len(), 3 * AGENT_COUNT);
        let state = load(&mut machine).expect("load final state");
        assert_eq!(state.principals.len(), AGENT_COUNT + 1);
        assert_eq!(state.principals.get(&"S-other".to_string()), Some(&vec![wide(r"C:\kept")]));
        for index in 0..AGENT_COUNT {
            assert_eq!(
                state.principals.get(&format!("S-{index}")),
                Some(&vec![wide(&format!(r"C:\new-{index}"))])
            );
            assert_eq!(aces[index].keys, vec![format!(r"c:\new-{index}")]);
        }
    }
}

#[test]
fn backup_names_of_different_processes_or_times_differ() {
    let name = |process_id, nanos| invalid_state_backup_name(&None, process_id, nanos);
    assert_ne!(name(1, Some(11)), name(11, Some(1)));
    assert_ne!(name(1, Some(1)), name(1, Some(10)));
    assert_eq!(name(7, Some(0)), name(7, None));
}

#[test]
fn concurrent_synchronizations_of_one_principal_leave_no_stale_ace_behind() {
    const AGENT_COUNT: usize = 4;

    for seed in 0..20 {
        let mut machine = Machine::new();
        store(&mut machine, state_of(&[("S-1", &[r"C:\old"])])).expect("store state");
        let mut aces = Aces {
            keys: vec![r"c:\old".to_string(), r"c:\unrecorded".to_string()],
            revoked: Vec::new(),
            refuse: false,
        };
        let mut schedule = shuffled(seed);
        let mut sessions: Vec<Session> = (0..AGENT_COUNT).map(Session::new).collect();
        let mut steps: Vec<Option<SyncStep<String>>> = (0..AGENT_COUNT)
            .map(|who| vec![wide(&format!(r"C:\new-{who}")), wide(r"C:\shared")])
            .map(|paths| Some(sync_persistent_deny_read_acls("S-1", paths)))
            .collect();
        while steps.iter().any(|step| step.is_some()) {
            let who = schedule(AGENT_COUNT);
            steps[who] = match steps[who].take() {
                Some(Step::Perform(SyncCall::System(call), at)) => {
                    if machine.blocks(&sessions[who], &call) {
                        Some(Step::Perform(SyncCall::System(call), at))
                    } else {
                        let reply = machine.perform(&mut sessions[who], call);
                        Some(at.resume(&machine.path, SyncReply::System(reply)))
                    }
                }
                Some(Step::Perform(SyncCall::Acl(call), at)) => {
                    let reply = perform_on_aces(&mut aces, call);
                    Some(at.resume(&machine.path, SyncReply::Acl(reply)))
                }
                Some(Step::Return(result)) => {
                    assert!(result.is_ok());
                    None
                }
                None => None,
            };
        }
        let state = load(&mut machine).expect("load final state");
        let recorded = state.principals.get(&"S-1".to_string()).expect("recorded paths");
        let mut expected: Vec<String> = recorded.iter().map(lexical_key).collect();
        expected.push(r"c:\unrecorded".to_string());
        expected.sort();
        aces.keys.sort();
        assert_eq!(aces.keys, expected);
    }
}

#[test]
fn unique_mutex_names_hold_process_label_and_time() {
    assert_eq!(
        unique_mutex_name(17, "recovery", 42),
        "Local\\CodexSandboxDenyReadAclStateTest-17-recovery-42"
    );
    assert_ne!(unique_mutex_name(1, "a", 11), unique_mutex_name(11, "a", 1));
}
