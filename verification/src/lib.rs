//! Shell-style wildcard expansion of path expressions and the decisions of a
//! copy run over the paths they match.
//!
//! The library touches no file system. A caller walks the directories the
//! [`expander::Expander`] asks about and reports what it saw; it performs the
//! steps that the [`orchestrator::CopyRun`] and, for a directory tree, the
//! [`tree::TreeCopy`] hand out, and reports how they went.

pub mod arguments;
pub mod expander;
pub mod expression;
pub mod filesystem;
pub mod laws;
pub mod matcher;
pub mod orchestrator;
pub mod paths;
pub mod tree;
pub mod tree_laws;
