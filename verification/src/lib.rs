//! Decoding of compiled-class descriptors: a byte cursor, the symbol table,
//! the structural body, and the extraction of the parent type name and of the
//! type names that a descriptor refers to.
//!
//! `decode::decode` and `extract::extract` work on the bytes themselves.
//! `parsed::read_file` has the class file parsed by the `classfile_parser`
//! crate and resolves the names through the constant pool that comes back.

pub mod error;
pub mod cursor;
pub mod symbols;
pub mod body;
pub mod decode;
pub mod pool;
pub mod names;
pub mod extract;
pub mod parsed;
pub mod prefix;
pub mod wire;
