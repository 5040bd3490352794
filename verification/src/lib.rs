//! A transactional field-patch engine for workflow messages.
//!
//! A [`message::Message`] carries two document trees, `data` and `metadata`,
//! that workflow tasks mutate through dot-separated field paths. Writes made
//! between `transaction_begin` and `transaction_commit` / `transaction_rollback`
//! are recorded in an undo log, so a whole batch of field writes can be applied
//! atomically or rolled back exactly, in reverse order.

pub mod audit;
pub mod casing;
pub mod clock;
pub mod doc;
pub mod errors;
pub mod idgen;
pub mod laws;
pub mod message;
pub mod path;
pub mod progress;
