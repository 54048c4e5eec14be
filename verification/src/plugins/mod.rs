//! Detection plugins of the agent.

pub mod reverse_shell;
