use vstd::prelude::*;

use crate::text::{chars_of, push_signed_decimal, signed_decimal, string_of, trim, trim_exec};

verus! {

/// The code reported for a process that a signal ended.
pub const UNKNOWN_EXIT_CODE: i32 = -1;

/// The exit code of a finished process, given the code it reported, if any.
pub fn exit_code_of(code: Option<i32>) -> (r: i32)
    ensures
        r == match code {
            Some(c) => c,
            None => UNKNOWN_EXIT_CODE,
        },
{
    match code {
        Some(c) => c,
        None => UNKNOWN_EXIT_CODE,
    }
}

/// Why a helper program refused: what it wrote on its error stream, or its
/// exit status when it wrote nothing but white space.
pub open spec fn refusal_text(stderr: Seq<char>, code: i32) -> Seq<char> {
    if trim(stderr).len() == 0 {
        "exited with status "@ + signed_decimal(code as int)
    } else {
        trim(stderr)
    }
}

/// The reason a helper program refused, from its error output and exit code.
pub fn describe_refusal(stderr: &str, code: i32) -> (r: String)
    ensures
        r@ == refusal_text(stderr@, code),
{
    let raw = chars_of(stderr);
    let trimmed = trim_exec(&raw);
    if trimmed.len() == 0 {
        let mut out = chars_of("exited with status ");
        push_signed_decimal(&mut out, code as i64);
        return string_of(&out);
    }
    string_of(&trimmed)
}

} // verus!
