//! Process inspection core: the decisions that sit between the operating
//! system's raw answers and the typed values a debugger works with.
pub mod cstr;
pub mod device_path;
pub mod exception;
pub mod launch;
pub mod maps;
pub mod memory;
pub mod module;
pub mod pe;
pub mod peb;
pub mod process_info;
pub mod procfs;
pub mod symbol;
pub mod wait_status;
