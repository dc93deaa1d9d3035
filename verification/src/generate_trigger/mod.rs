//! Generating connector triggers: input and output schemas, and event-fetching code.
pub mod error;
pub mod template_manager;
pub mod utils;
pub mod executor_generator;
pub mod schema_generator;
