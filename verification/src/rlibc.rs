//! The parts of the small C library that decide things: how `printf` and
//! `scanf` conversion specifications are read, the system call numbers, and
//! the byte and string functions.
pub mod specifier_parsing;
pub mod file;
pub mod sys;
pub mod format;
pub mod mem;
pub mod cstr;
