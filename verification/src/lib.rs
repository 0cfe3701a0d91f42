//! The bookkeeping and the decisions of a Lua embedding, verified.

pub mod asynchronous;
pub mod callback;
pub mod chunk;
pub mod construct;
pub mod create;
pub mod driver;
pub mod ending;
pub mod error;
pub mod frame;
pub mod gc;
pub mod invocation;
pub mod lua;
pub mod machine;
pub mod memory;
pub mod metatable;
pub mod number;
pub mod options;
pub mod refs;
pub mod registry;
pub mod results;
pub mod script;
pub mod stack;
pub mod startup;
pub mod stdlib;
pub mod text;
pub mod userdata;
pub mod value;
pub mod version;
