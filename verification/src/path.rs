use vstd::prelude::*;

use crate::text::{chars_of, push_all, slice_of, string_of};

verus! {

/// Whether a path is absolute on a unix host: it starts with `/`.
pub open spec fn is_absolute(p: Seq<char>) -> bool {
    p.len() > 0 && p[0] == '/'
}

/// `base` with `part` pushed onto it, as `Path::join` does on a unix host:
/// an absolute `part` replaces `base`; otherwise a `/` separates them unless
/// `base` is empty or already ends with one.
pub open spec fn join_path(base: Seq<char>, part: Seq<char>) -> Seq<char> {
    if is_absolute(part) {
        part
    } else if base.len() == 0 {
        part
    } else if base.last() == '/' {
        base + part
    } else {
        base + seq!['/'] + part
    }
}

/// `base` joined with `part`.
pub fn join_chars(base: &[char], part: &[char]) -> (r: Vec<char>)
    ensures
        r@ == join_path(base@, part@),
{
    if part.len() > 0 && part[0] == '/' {
        return slice_of(part, 0, part.len());
    }
    let mut out = slice_of(base, 0, base.len());
    if base.len() > 0 && base[base.len() - 1] != '/' {
        out.push('/');
    }
    push_all(&mut out, part);
    proof {
        assert(base@.subrange(0, base@.len() as int) == base@);
        assert(part@.subrange(0, part@.len() as int) == part@);
    }
    out
}

/// `base` joined with `part`, as a string.
pub fn join(base: &str, part: &str) -> (r: String)
    ensures
        r@ == join_path(base@, part@),
{
    let b = chars_of(base);
    let p = chars_of(part);
    let joined = join_chars(&b, &p);
    string_of(&joined)
}

} // verus!
