//! Device-side agent core for the Spotflow IoT platform.
//!
//! The crate holds the verified middleware between the public device API and
//! the MQTT transport: the canonical JSON model with its diff and merge
//! algorithms, the twin reconciler, the durable outbox and inbox models, the
//! credential-lifecycle decisions, the configuration migrations, and the
//! outbound message formatting rules.  The I/O around it — HTTP, SQLite and
//! the MQTT event loop — lives outside the library and feeds plain values in
//! and out.

pub mod bytes;
pub mod channel;
pub mod config;
pub mod credentials;
pub mod duration;
pub mod facade;
pub mod json;
pub mod json_diff;
pub mod jsonio;
pub mod messages;
pub mod outbox;
pub mod query;
pub mod sender;
pub mod session;
pub mod topics;
pub mod twin;
pub mod twinmw;
pub mod url;
