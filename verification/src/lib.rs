//! The logic of `omarchy-yapperd`, a per-user daemon that owns a Matrix session
//! and serves a chat client over a local socket.
//!
//! Everything here is a function from values to values with a proved contract:
//! what a request asks for and why it is refused, how a page of history is put
//! together, which rooms are searched and for how long, what is kept of an
//! attachment, when a session is restored, retried or forgotten. Sockets, disk,
//! the keyring and the homeserver are the program's own affair: it gathers
//! plain facts, hands them over, and does what comes back.

pub mod bridge;
pub mod case;
pub mod community;
pub mod conn;
pub mod discovery;
pub mod dispatch;
pub mod events;
pub mod ids;
pub mod json;
pub mod media;
pub mod message;
pub mod order;
pub mod protocol;
pub mod refusal;
pub mod relations;
pub mod rooms;
pub mod search;
pub mod secrets;
pub mod session;
pub mod text;
pub mod timeline;
pub mod verify;
