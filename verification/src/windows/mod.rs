//! Rules for the Windows host, free of any call into it.
pub mod capture;
pub mod command_line;
pub mod create;
pub mod environment;
pub mod executable;
pub mod files;
pub mod ipc;
pub mod path_laws;
pub mod paths;
pub mod private_dir;
pub mod process;
pub mod replacement;
pub mod resources;
pub mod security;
pub mod spawn;
pub mod watch;
pub mod wide;
