//! A per-session directory stack for the shell (pushd/popd across separate
//! invocations), with its stored record, lock protocol, output commands and
//! settings.

pub mod cli;
pub mod config;
pub mod lock;
pub mod operation;
pub mod record;
pub mod session;
pub mod stack;
