//! The declarations of the runtime library that every module starts with.

use crate::lower::runtime_declarations;
use vstd::prelude::*;

verus! {

/// The lines that declare the runtime library, in order.
pub fn generate_lib() -> (lines: Vec<String>)
    ensures
        crate::codegen::strings_view(lines@) == runtime_declarations(),
{
    let mut lines: Vec<String> = Vec::new();
    lines.push(String::from_str("declare i32 @echo(i8*, i32) nounwind\n"));
    lines.push(String::from_str("declare i8* @string(i32*) nounwind\n"));
    lines.push(String::from_str("declare i32 @len(i8*) nounwind\n"));
    lines.push(String::from_str("declare i32 @write(i32, i8*, i32) nounwind\n"));
    lines.push(String::from_str("@int_to_string.result =  external global [12 x i8] \n"));
    assert(crate::codegen::strings_view(lines@) =~= runtime_declarations());
    lines
}

} // verus!
