//! An application kernel: a registry of modules, notify and hook handlers,
//! the dispatch of events to them, and the configuration logic of the
//! kernel's own modules.

pub mod app;
pub mod app_config;
pub mod app_hook;
pub mod app_module;
pub mod app_module_meta;
pub mod dispatch;
pub mod event;
pub mod handlers;
pub mod main_mod;
pub mod modules;
pub mod pid_file;
pub mod ping_mods;
pub mod text;
