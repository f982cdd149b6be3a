//! A small line-oriented chat service and the pure logic around it.
//!
//! The crate holds the verified core of a byte-line protocol suite: the chat
//! room's name validation, participant registry and per-connection session
//! state machine; the relay's payment-token rewriter; a primality check; a
//! tiny key/value request interpreter; and a timestamped price store with
//! range averages. All I/O, task scheduling and socket plumbing live outside
//! the library, which works on plain byte lines and returns the effects
//! (lines to send, messages to publish) as data.

pub mod kvstore;
pub mod lines;
pub mod prices;
pub mod primes;
pub mod registry;
pub mod rewrite;
pub mod session;
pub mod validate;

pub use validate::name_is_valid;
