# codex_rs

Persistent bookkeeping of the deny-read ACEs that a sandbox leaves on disk, and the
arguments of a spawned agent.

The ACEs of a sandbox principal outlive the command that needed them. Which paths
carry one is recorded in a state file, for each principal, and every change of the
record is one transaction under a named mutex: load the state, apply the desired
paths, revoke the stale ones, store the state.

`src/` holds the logic, verified with Verus. It makes no outside call itself. A
function such as `sync_persistent_deny_read_acls` returns a `Step`: a call to perform,
together with the state from which the logic is resumed with the reply, or the result.
Contracts say for every step exactly which call comes next; the laws (`law_*`) speak
of whole histories of calls and replies.

| modules | what they hold |
| --- | --- |
| `text`, `principals`, `state` | decimal notation, the order of SIDs, the recorded state |
| `calls`, `run`, `error` | the outside calls, histories of calls, errors and their messages |
| `mutex`, `load`, `quarantine`, `store` | one access each: acquire, read, put aside, write |
| `transaction`, `transaction_laws` | an update under the mutex, and what holds of it |
| `reconcile`, `sync`, `sync_laws` | the ACEs of one principal, and the whole synchronization |
| `interleaving`, `sync_interleaving` | many updates and synchronizations at once: none is lost |
| `spawn` | how much history a spawned agent inherits |

`app/` performs the calls on Windows. `tests/` runs the logic against a disk in memory.
