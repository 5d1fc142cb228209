//! A minimal process supervisor library: a persistent registry of launched
//! processes together with the pure logic of the four lifecycle operations
//! (start, list, kill, reload) that read and rewrite that registry.
//!
//! Everything here is deterministic computation over plain values.  The
//! operating-system work — spawning detached children, probing a PID for
//! liveness, sending termination requests, reading and rewriting the backing
//! file — is done by the caller, which feeds the observed outcomes back into
//! these functions as arguments.

pub mod commands;
pub mod digits;
pub mod errors;
pub mod export;
pub mod ident;
pub mod laws;
pub mod lifecycle;
pub mod record;
pub mod store;

pub use commands::CommandRegistry;
pub use commands::Dispatch;
pub use digits::parse_u64;
pub use digits::u64_to_string;
pub use errors::SupervisorError;
pub use ident::Ident;
pub use ident::parse_identifier;
pub use lifecycle::KillOutcome;
pub use lifecycle::ListOutcome;
pub use lifecycle::ReloadOutcome;
pub use record::Entry;
pub use record::ProcessRecord;
