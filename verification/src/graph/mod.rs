//! Typed, domain-neutral authored graph documents and atomic transactions.

pub mod document;
pub mod domain;
pub mod ids;
pub mod keys;
pub mod presentation;
pub mod protocol;
pub mod transaction;
pub mod traversal;
