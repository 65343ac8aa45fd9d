use vstd::prelude::*;

use crate::env_file::opt_view;
use crate::path::{join_chars, join_path};
use crate::text::{
    chars_of, ends_with, ends_with_exec, lemma_find_from_bounds, push_all, slice_of, split_char,
    split_char_exec, split_once, split_once_exec, starts_with, starts_with_exec, string_of, views,
};

verus! {

/// The separator of the directories in `PATH` on a unix host.
pub const PATH_SEPARATOR: char = ':';

/// The placeholder that stands for the user's home directory.
pub const HOME_PLACEHOLDER: &'static str = "${HOME}";

/// The variable that names a service's working directory.
pub const SERVICE_CWD_NAME: &'static str = "PM3_SERVICE_CWD";

/// The placeholder that stands for a service's working directory.
pub const SERVICE_CWD_PLACEHOLDER: &'static str = "${PM3_SERVICE_CWD}";

pub open spec fn home_placeholder() -> Seq<char> {
    seq!['$', '{', 'H', 'O', 'M', 'E', '}']
}

pub open spec fn service_cwd_name() -> Seq<char> {
    seq!['P', 'M', '3', '_', 'S', 'E', 'R', 'V', 'I', 'C', 'E', '_', 'C', 'W', 'D']
}

pub open spec fn service_cwd_placeholder() -> Seq<char> {
    seq!['$', '{'] + service_cwd_name() + seq!['}']
}

/// `value` with a leading `home` written as `${HOME}`: the whole of `home`,
/// followed by the end of the value or by a separator.
pub open spec fn fold_home_spec(value: Seq<char>, home: Option<Seq<char>>) -> Seq<char> {
    match home {
        None => value,
        Some(h) => if h.len() == 0 || !starts_with(value, h) {
            value
        } else {
            let suffix = value.skip(h.len() as int);
            if suffix.len() == 0 {
                home_placeholder()
            } else if suffix[0] == '/' || suffix[0] == '\\' {
                home_placeholder() + seq!['/'] + suffix.skip(1)
            } else {
                value
            }
        },
    }
}

/// `value` with each bare `PM3_SERVICE_CWD` written as `${PM3_SERVICE_CWD}`;
/// one already inside `${...}` stays as it is.
pub open spec fn fold_service_cwd_spec(value: Seq<char>) -> Seq<char>
    decreases value.len(),
{
    match split_once(value, service_cwd_name()) {
        Some((head, tail)) => {
            proof {
                lemma_find_from_bounds(value, service_cwd_name(), 0);
            }
            head + (if ends_with(head, seq!['$', '{']) && starts_with(tail, seq!['}']) {
                service_cwd_name()
            } else {
                service_cwd_placeholder()
            }) + fold_service_cwd_spec(tail)
        },
        None => value,
    }
}

/// Writes a value under the home directory relative to `${HOME}`.
pub fn fold_home(value: &str, home: Option<&str>) -> (r: String)
    ensures
        r@ == fold_home_spec(value@, opt_view(home)),
{
    let v = chars_of(value);
    let folded = fold_home_chars(&v, home);
    string_of(&folded)
}

pub fn fold_home_chars(v: &Vec<char>, home: Option<&str>) -> (r: Vec<char>)
    ensures
        r@ == fold_home_spec(v@, opt_view(home)),
{
    let whole = slice_of(v, 0, v.len());
    assert(whole@ == v@);
    let Some(home) = home else {
        return whole;
    };
    let h = chars_of(home);
    if h.len() == 0 || !starts_with_exec(v, &h) {
        return whole;
    }
    let suffix = slice_of(v, h.len(), v.len());
    assert(suffix@ == v@.skip(h@.len() as int));
    let mut out: Vec<char> = Vec::new();
    out.push('$');
    out.push('{');
    out.push('H');
    out.push('O');
    out.push('M');
    out.push('E');
    out.push('}');
    assert(out@ == home_placeholder());
    if suffix.len() == 0 {
        return out;
    }
    if suffix[0] == '/' || suffix[0] == '\\' {
        out.push('/');
        let relative = slice_of(&suffix, 1, suffix.len());
        push_all(&mut out, &relative);
        assert(relative@ == suffix@.skip(1));
        return out;
    }
    whole
}

/// Writes each bare mention of the service directory variable as a placeholder.
pub fn fold_service_cwd(value: &str) -> (r: String)
    ensures
        r@ == fold_service_cwd_spec(value@),
{
    let v = chars_of(value);
    let folded = fold_service_cwd_chars(&v);
    string_of(&folded)
}

pub fn fold_service_cwd_chars(value: &Vec<char>) -> (r: Vec<char>)
    ensures
        r@ == fold_service_cwd_spec(value@),
{
    let name = chars_of(SERVICE_CWD_NAME);
    proof {
        reveal_strlit("PM3_SERVICE_CWD");
    }
    assert(name@ == service_cwd_name());
    let opener = ['$', '{'];
    let closer = ['}'];
    assert(opener@ == seq!['$', '{']);
    assert(closer@ == seq!['}']);
    let mut out: Vec<char> = Vec::new();
    let mut rest = slice_of(value, 0, value.len());
    assert(rest@ == value@);
    loop
        invariant
            name@ == service_cwd_name(),
            opener@ == seq!['$', '{'],
            closer@ == seq!['}'],
            fold_service_cwd_spec(value@) == out@ + fold_service_cwd_spec(rest@),
        decreases rest@.len(),
    {
        match split_once_exec(&rest, &name) {
            Some((head, tail)) => {
                proof {
                    lemma_find_from_bounds(rest@, name@, 0);
                }
                let ghost start = out@;
                let wrapped = ends_with_exec(&head, &opener) && starts_with_exec(&tail, &closer);
                push_all(&mut out, &head);
                if wrapped {
                    push_all(&mut out, &name);
                } else {
                    out.push('$');
                    out.push('{');
                    push_all(&mut out, &name);
                    out.push('}');
                }
                assert(start + (head@ + (if wrapped {
                    service_cwd_name()
                } else {
                    service_cwd_placeholder()
                }) + fold_service_cwd_spec(tail@)) =~= out@ + fold_service_cwd_spec(tail@));
                rest = tail;
            },
            None => {
                push_all(&mut out, &rest);
                return out;
            },
        }
    }
}

/// The places where `program` is looked for: itself when it is absolute,
/// else each directory of `path_env` joined with it.
pub open spec fn program_candidates(program: Seq<char>, path_env: Option<Seq<char>>) -> Seq<
    Seq<char>,
> {
    if starts_with(program, seq!['/']) {
        seq![program]
    } else {
        match path_env {
            None => Seq::empty(),
            Some(dirs) => split_char(dirs, PATH_SEPARATOR).map_values(
                |d: Seq<char>| join_path(d, program),
            ),
        }
    }
}

/// Calls `std::path::Path::is_file`: whether a regular file stands at `path`.
/// What is on disk decides it, so no clause is claimed of the answer.
#[verifier::external_body]
fn is_regular_file(path: &str) -> bool {
    std::path::Path::new(path).is_file()
}

/// Whether `accepts` answered `answer` when asked about `candidate`.
pub open spec fn answered<F: Fn(&str) -> bool>(accepts: F, candidate: Seq<char>, answer: bool) -> bool {
    exists|p: &str| p@ == candidate && #[trigger] accepts.ensures((p,), answer)
}

/// Looks for `program` among its candidates, in order, and gives the first
/// one that `accepts` takes. An absolute program is taken or refused as it
/// stands; a relative one needs `path_env`.
pub fn resolve_with<F: Fn(&str) -> bool>(program: &str, path_env: Option<&str>, accepts: F) -> (r:
    Option<String>)
    requires
        forall|p: &str| #[trigger] accepts.requires((p,)),
    ensures
        ({
            let cands = program_candidates(program@, opt_view(path_env));
            match r {
                Some(found) => exists|k: int|
                    0 <= k < cands.len() && cands[k] == found@ && answered(accepts, cands[k], true)
                        && forall|j: int| 0 <= j < k ==> answered(accepts, #[trigger] cands[j], false),
                None => forall|j: int|
                    0 <= j < cands.len() ==> answered(accepts, #[trigger] cands[j], false),
            }
        }),
{
    let prog = chars_of(program);
    let slash = ['/'];
    assert(slash@ == seq!['/']);
    let ghost cands = program_candidates(program@, opt_view(path_env));
    if starts_with_exec(&prog, &slash) {
        let ok = accepts(program);
        assert(cands =~= seq![program@]);
        assert(answered(accepts, cands[0], ok));
        if ok {
            let found = string_of(&prog);
            return Some(found);
        }
        return None;
    }
    let Some(dirs) = path_env else {
        assert(cands.len() == 0);
        return None;
    };
    let dv = chars_of(dirs);
    let parts = split_char_exec(&dv, PATH_SEPARATOR);
    assert(cands == views(parts@).map_values(|d: Seq<char>| join_path(d, program@)));
    let mut i: usize = 0;
    while i < parts.len()
        invariant
            i <= parts.len(),
            forall|p: &str| #[trigger] accepts.requires((p,)),
            cands == views(parts@).map_values(|d: Seq<char>| join_path(d, program@)),
            cands == program_candidates(program@, opt_view(path_env)),
            cands.len() == parts.len(),
            prog@ == program@,
            forall|j: int| 0 <= j < i ==> answered(accepts, #[trigger] cands[j], false),
        decreases parts.len() - i,
    {
        let candidate = join_chars(&parts[i], &prog);
        let text = string_of(&candidate);
        let shown: &str = text.as_str();
        let ok = accepts(shown);
        proof {
            assert(views(parts@)[i as int] == parts@[i as int]@);
            assert(cands[i as int] == text@);
            assert(shown@ == text@);
            assert(answered(accepts, cands[i as int], ok));
        }
        if ok {
            return Some(text);
        }
        i = i + 1;
    }
    None
}

/// Whether the check for a regular file at `candidate` answered `answer`:
/// a record of what the file system said when it was asked, not a claim of
/// what stands on disk.
pub closed spec fn file_check_answered(candidate: Seq<char>, answer: bool) -> bool {
    answered(is_regular_file, candidate, answer)
}

/// `found` is the first of `cands` at which the check found a regular file,
/// the check having found none at each earlier candidate.
pub open spec fn first_file_found(cands: Seq<Seq<char>>, found: Seq<char>) -> bool {
    exists|k: int|
        0 <= k < cands.len() && cands[k] == found && file_check_answered(cands[k], true) && forall|
            j: int,
        |
            0 <= j < k ==> file_check_answered(#[trigger] cands[j], false)
}

/// Finds the file that running `program` would start, through `path_env`:
/// the first of its candidates at which a regular file stands.
pub fn resolve_program(program: &str, path_env: Option<&str>) -> (r: Option<String>)
    ensures
        ({
            let cands = program_candidates(program@, opt_view(path_env));
            match r {
                Some(found) => exists|k: int|
                    0 <= k < cands.len() && cands[k] == found@ && file_check_answered(cands[k], true)
                        && forall|j: int|
                        0 <= j < k ==> file_check_answered(#[trigger] cands[j], false),
                None => forall|j: int|
                    0 <= j < cands.len() ==> file_check_answered(#[trigger] cands[j], false),
            }
        }),
        r matches Some(found) ==> program_candidates(program@, opt_view(path_env)).contains(found@),
        program_candidates(program@, opt_view(path_env)).len() == 0 ==> r is None,
{
    let r = resolve_with(program, path_env, is_regular_file);
    proof {
        let cands = program_candidates(program@, opt_view(path_env));
        if r is Some {
            let found = r->0;
            let k = choose|k: int|
                0 <= k < cands.len() && cands[k] == found@ && answered(is_regular_file, cands[k], true)
                    && forall|j: int| 0 <= j < k ==> answered(is_regular_file, #[trigger] cands[j], false);
            assert(cands.contains(found@));
            assert(file_check_answered(cands[k], true));
            assert forall|j: int| 0 <= j < k implies file_check_answered(#[trigger] cands[j], false) by {
                assert(answered(is_regular_file, cands[j], false));
            }
        } else {
            assert forall|j: int| 0 <= j < cands.len() implies file_check_answered(#[trigger] cands[j], false) by {
                assert(answered(is_regular_file, cands[j], false));
            }
        }
    }
    r
}

/// Whether `program` can be found through `path_env`: whether a regular
/// file stands at one of its candidates.
pub fn program_available(program: &str, path_env: Option<&str>) -> (r: bool)
    ensures
        ({
            let cands = program_candidates(program@, opt_view(path_env));
            &&& r ==> exists|k: int| 0 <= k < cands.len() && #[trigger] file_check_answered(cands[k], true)
            &&& !r ==> forall|j: int| 0 <= j < cands.len() ==> file_check_answered(#[trigger] cands[j], false)
        }),
        program_candidates(program@, opt_view(path_env)).len() == 0 ==> !r,
{
    resolve_program(program, path_env).is_some()
}

} // verus!
