//! Generating connector actions: input and output schemas, and executor code.
pub mod error;
pub mod template_manager;
pub mod deep_bound;
pub mod resolution_bound;
pub mod schema_generator;
pub mod executor_generator;
