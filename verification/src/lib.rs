//! Persistent bookkeeping of the deny-read ACEs that a sandbox leaves on disk,
//! and the arguments of a spawned agent.

pub mod calls;
pub mod error;
pub mod interleaving;
pub mod load;
pub mod mutex;
pub mod principals;
pub mod quarantine;
pub mod reconcile;
pub mod run;
pub mod spawn;
pub mod state;
pub mod store;
pub mod sync;
pub mod sync_interleaving;
pub mod sync_laws;
pub mod text;
pub mod transaction;
pub mod transaction_laws;
