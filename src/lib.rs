//! Decoding of MySQL binary-log (binlog) replication events.
//!
//! Every decoder is a pure function from a byte slice to a decoded value
//! and the unconsumed remainder, or to the first error met. Its result is
//! stated exactly over the input bytes by a spec relation (`xid_decoded`,
//! `query_decoded`, ...), and `events::event_decoded` states the result of
//! decoding a whole record.
//!
//! Policies worth knowing:
//! - Every body that carries a checksum is taken to end with exactly four
//!   checksum bytes; the checksum algorithm announced by the
//!   format-description event is not consulted.
//! - All text fields are decoded as UTF-8 leniently, invalid sequences
//!   becoming U+FFFD; decoding never fails on text.
//! - Lengths derived from the declared event size are computed without
//!   underflow; a negative one is `MalformedLength`.

pub mod error;
pub mod events;
pub mod utils;
