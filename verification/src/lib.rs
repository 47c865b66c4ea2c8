//! A configuration model for invoking project commands (run, test, build,
//! bench, script) under named variants. Each variant carries a command
//! line, parameters, environment, working directory and an optional
//! reference to another variant that must run first. The model keeps the
//! structure valid under every mutation; reading and writing the persisted
//! text form is left to the surrounding application.

pub mod config;
pub mod errors;
pub mod helper;
