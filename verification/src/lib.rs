//! A streaming "head" for JSON documents: walk a dotted key path to a target
//! array and copy a contiguous window of its elements to the output, token by
//! token, optionally with or without the enclosing structural context.

pub mod copy_loop;
pub mod copy_selector;
pub mod error;
pub mod key_path;
pub mod laws;
