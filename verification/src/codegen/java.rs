//! The renderer for Java. There is none yet.

use vstd::prelude::*;
use crate::codegen::error::{CodegenError, Failure};
use crate::codegen::schemas::SchemaMap;
use crate::util::codegen_buf::CodegenBuf;

verus! {

/// Renders a collection of schemas as a Java file. Not implemented: fails
/// on every collection.
pub fn render(_schemas: SchemaMap) -> (r: Result<CodegenBuf, CodegenError>)
    ensures
        r matches Err(e) && e@ == Failure::Unimplemented,
{
    Err(CodegenError::Unimplemented)
}

} // verus!
