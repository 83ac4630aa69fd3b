//! The kernel's own modules.

pub mod help_data;
pub mod help_mod;
pub mod cmd_mod;
pub mod ld_mod;
pub mod config_mod;
pub mod async_mod;
