pub mod char_cursor;
pub mod compiler;
pub mod spring;
