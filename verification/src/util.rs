//! Building blocks shared by every stage: text handling and the indenting
//! output buffer.

pub mod codegen_buf;
pub mod text;
