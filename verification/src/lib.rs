//! Golden: revisioned entity model, endpoint recovery and ingress, authored
//! graph documents with atomic transactions, binary value frames, context lane
//! layouts, persistence planning, code generation paths and script templates.

pub mod model;
pub mod endpoint;
pub mod graph;
pub mod protocol;
pub mod lanes;
pub mod persistence;
pub mod text;
pub mod script;
pub mod codegen;
pub mod condition;
pub mod alchemist;
pub mod processor;
pub mod host;
pub mod values;
pub mod parameters;
