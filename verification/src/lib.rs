//! A decoder for the JVM class-file format.
//!
//! A class file is decoded in one forward pass over a byte buffer into a
//! [`class::Class`]: its constant pool, access flags, interfaces, fields,
//! methods and attributes. Every decoder comes with a mathematical
//! description of the layout it accepts, and is proved to agree with it.

pub mod atom;
pub mod attribute;
pub mod class;
pub mod constant_pool;
pub mod error;
pub mod field;
pub mod interface;
pub mod member;
pub mod method;
pub mod text;
