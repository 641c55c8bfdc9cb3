//! How much history a spawned agent inherits.

use codex_rs::spawn::args;
use codex_rs::spawn::InvalidForkTurns;
use codex_rs::spawn::SpawnAgentArgs;
use codex_rs::spawn::SpawnAgentForkMode;

#[test]
fn fork_mode_requires_explicit_history_inheritance() {
    let cases = [
        (None, None),
        (Some("none"), None),
        (Some("all"), Some(SpawnAgentForkMode::FullHistory)),
        (Some("3"), Some(SpawnAgentForkMode::LastNTurns(3))),
    ];

    for (fork_turns, expected) in cases {
        assert_eq!(args(fork_turns).fork_mode().unwrap(), expected);
    }
}

#[test]
fn args_are_those_of_a_worker_with_a_bounded_task() {
    assert_eq!(
        args(Some("7")),
        SpawnAgentArgs {
            message: "bounded task".to_string(),
            task_name: "worker".to_string(),
            agent_type: None,
            model: None,
            reasoning_effort: None,
            fork_turns: Some("7".to_string()),
            fork_context: None,
        }
    );
    assert_eq!(args(None).fork_turns, None);
}

#[test]
fn number_of_turns_is_read_back() {
    for n in [1_usize, 9, 10, 42, 1_000_000, usize::MAX] {
        assert_eq!(
            args(Some(&n.to_string())).fork_mode(),
            Ok(Some(SpawnAgentForkMode::LastNTurns(n)))
        );
    }
}

#[test]
fn other_fork_turns_are_rejected() {
    let too_large = format!("{}0", usize::MAX);
    for text in ["", "0", "000", "-1", "+1", "1.5", " 3", "NONE", "every", too_large.as_str()] {
        assert_eq!(
            args(Some(text)).fork_mode(),
            Err(InvalidForkTurns { fork_turns: text.to_string() })
        );
    }
}
