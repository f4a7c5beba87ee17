//! A verified procurement ledger: tenders that accept bids until they are
//! awarded or cancelled, and a per-owner journal of soft-deletable notes.
//!
//! All records live in a keyed durable store modelled by [`store::Store`];
//! every public operation of [`hub::SecureTenderHub`] validates its
//! preconditions, then reads and writes records through composite keys, and
//! its contract states exactly which records change and which error each
//! rejected input produces.

pub mod hub;
pub mod records;
pub mod store;
