//! Coordination core for subagents: definition parsing and validation, the two-tier
//! definition registry, routing of requests to subagents, the decisions of an orchestrated
//! run, the file-conflict tracker, the typed task context, and the pipeline artifacts that
//! stages hand to one another.

pub mod text;
pub mod pipeline;
pub mod router;
pub mod spec;
pub mod conflict;
pub mod context;
pub mod orchestrator;
pub mod registry;
pub mod validation;
pub mod transform;
pub mod prompts;
pub mod parser;
pub mod agent;
pub mod requirements;
pub mod stages;
