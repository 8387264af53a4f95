//! Reads JVM class files and turns method bytecode into basic blocks and
//! per-block expression trees.
pub mod ast;
pub mod bytes;
pub mod cfg;
pub mod classfile;
pub mod constant_pool;
pub mod decompiler;
pub mod descriptors;
pub mod disassembler;
pub mod method;
pub mod mutf8;
pub mod paths;
