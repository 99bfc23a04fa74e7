//! Selector-routed dispatch tables for contract interfaces.
//!
//! A contract declares callable definitions of three kinds — calls, errors
//! and events — each identified by a fixed-width binary selector. This
//! library aggregates the definitions of one kind into an *interface group*:
//! a tagged union over the members together with a canonical, ascending
//! selector table and a dispatch contract that routes raw selectors to the
//! matching member, decodes and re-encodes payloads, and rejects unknown
//! selectors.
//!
//! Parsing the definition syntax, hashing signatures into selectors,
//! resolving unique member names and the per-parameter binary codec are all
//! upstream collaborators: this crate receives their results as plain
//! [`member::MemberDescriptor`] values and owns only the aggregation,
//! ordering, validation and dispatch logic.

pub mod codec;
pub mod contract;
pub mod errors;
pub mod group;
pub mod member;
pub mod selector;
pub mod table;
pub mod value;
