//! Tool invocation core of a coding agent: the tool catalog, argument
//! validation, the text-editing and directory-listing algorithms, and the
//! uniform result and error model shared by all tools.

pub mod execute_cmd;
pub mod fs_write;
pub mod glob;
pub mod image_read;
pub mod ls;
pub mod text;
pub mod tools;
pub mod util;
