//! Subagent definitions: the frontmatter document format, discovery across
//! prioritized search roots, sandbox policy derivation and the invocation
//! lifecycle of a delegated run.
pub mod definition;
pub mod discovery;
pub mod frontmatter;
pub mod invocation;
pub mod policy;
pub mod sorting;
pub mod text;
