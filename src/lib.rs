//! Workflow definition and execution core: a tolerant parser for
//! JavaScript-shaped workflow sources, `{{path}}` template substitution,
//! run-context construction, and the sequential and parallel step engines.
pub mod definition;
pub mod helpers;
pub mod js_source;
pub mod json;
pub mod parallel;
pub mod records;
pub mod sequence;
pub mod template;
pub mod text;
pub mod workflow;
