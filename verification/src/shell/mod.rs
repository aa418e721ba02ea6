//! The shells that can use the shortcuts, and how their profiles are kept up to date.

pub mod adapter;
pub mod bash;
pub mod command_prompt;
pub mod common;
pub mod power_shell;

pub use adapter::{AdapterEvent, AdapterState, Lookup, ProfileLocation};
pub use bash::Bash;
pub use command_prompt::CommandPrompt;
pub use common::{replace_file_content, synchronize, Shell};
pub use power_shell::PowerShell;
