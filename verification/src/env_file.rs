use vstd::prelude::*;

use crate::text::{
    chars_of, is_ascii_alnum, is_ascii_alnum_exec, is_ascii_alpha, is_ascii_digit, lemma_find_from_bounds,
    lemma_lex_irreflexive, lemma_lex_total, lemma_lex_transitive, lex_lt, lines, lines_exec, precedes,
    push_all, replace_all, replace_all_exec, same_chars, slice_of, split_once, split_once_exec,
    string_of, trim, trim_exec, views,
};

verus! {

/// The extension of the file that holds the environment values of an app.
pub const ENV_FILE_SUFFIX: &'static str = "env";

/// Why an environment file was refused.
#[derive(Debug)]
pub enum EnvFileError {
    Read { path: String, reason: String },
    Malformed { path: String, line: usize },
    UnsafeKey { path: String, key: String, line: usize },
    DuplicateKey { path: String, key: String, line: usize },
}

/// What an environment file's text is refused for, apart from its path.
pub enum EnvFault {
    Read { reason: Seq<char> },
    Malformed { line: nat },
    UnsafeKey { key: Seq<char>, line: nat },
    DuplicateKey { key: Seq<char>, line: nat },
}

impl EnvFileError {
    pub open spec fn fault(self) -> EnvFault {
        match self {
            EnvFileError::Read { reason, .. } => EnvFault::Read { reason: reason@ },
            EnvFileError::Malformed { line, .. } => EnvFault::Malformed { line: line as nat },
            EnvFileError::UnsafeKey { key, line, .. } => EnvFault::UnsafeKey {
                key: key@,
                line: line as nat,
            },
            EnvFileError::DuplicateKey { key, line, .. } => EnvFault::DuplicateKey {
                key: key@,
                line: line as nat,
            },
        }
    }

    pub open spec fn path_view(self) -> Seq<char> {
        match self {
            EnvFileError::Read { path, .. } => path@,
            EnvFileError::Malformed { path, .. } => path@,
            EnvFileError::UnsafeKey { path, .. } => path@,
            EnvFileError::DuplicateKey { path, .. } => path@,
        }
    }
}

// ---------------------------------------------------------------------------
// What a line of an environment file means.
// ---------------------------------------------------------------------------

/// A key the shell accepts: letters, digits and `_`, not starting with a digit.
pub open spec fn is_env_key(k: Seq<char>) -> bool {
    &&& k.len() > 0
    &&& is_ascii_alpha(k[0]) || k[0] == '_'
    &&& forall|i: int| 1 <= i < k.len() ==> is_ascii_alnum(#[trigger] k[i]) || k[i] == '_'
}

/// The text between a fence character at each end, if `raw` is so fenced.
pub open spec fn fenced(raw: Seq<char>, fence: char) -> Option<Seq<char>> {
    if raw.len() >= 2 && raw[0] == fence && raw.last() == fence {
        Some(raw.subrange(1, raw.len() - 1))
    } else {
        None
    }
}

pub open spec fn is_hex_digit(c: char) -> bool {
    is_ascii_digit(c) || ('a' <= c <= 'f') || ('A' <= c <= 'F')
}

pub open spec fn hex_value(c: char) -> nat {
    if is_ascii_digit(c) {
        (c as u32 - '0' as u32) as nat
    } else if 'a' <= c <= 'f' {
        (c as u32 - 'a' as u32 + 10) as nat
    } else {
        (c as u32 - 'A' as u32 + 10) as nat
    }
}

/// The character that two hexadecimal digits after `\x` name, as
/// `u32::from_str_radix` reads them (it takes a leading `+`).
pub open spec fn decode_hex(d: Seq<char>) -> Option<char> {
    if d.len() == 2 && is_hex_digit(d[0]) && is_hex_digit(d[1]) {
        Some(((hex_value(d[0]) * 16 + hex_value(d[1])) as u8) as char)
    } else if d.len() == 2 && d[0] == '+' && is_hex_digit(d[1]) {
        Some((hex_value(d[1]) as u8) as char)
    } else {
        None
    }
}

/// The text of a double-quoted value with its escapes resolved.
pub open spec fn unescape(s: Seq<char>) -> Seq<char>
    decreases s.len(),
{
    if s.len() == 0 {
        Seq::empty()
    } else if s[0] != '\\' {
        seq![s[0]] + unescape(s.skip(1))
    } else if s.len() == 1 {
        seq!['\\']
    } else {
        let rest = s.skip(2);
        if s[1] == 'n' {
            seq!['\n'] + unescape(rest)
        } else if s[1] == 'r' {
            seq!['\r'] + unescape(rest)
        } else if s[1] == 't' {
            seq!['\t'] + unescape(rest)
        } else if s[1] == 'x' {
            let d = if rest.len() >= 2 {
                rest.take(2)
            } else {
                rest
            };
            let shown = match decode_hex(d) {
                Some(c) => seq![c],
                None => seq!['\\', 'x'] + d,
            };
            shown + unescape(rest.skip(d.len() as int))
        } else {
            seq![s[1]] + unescape(rest)
        }
    }
}

/// Whether the text after `$HOME` goes on with a name, so that `$HOME` is
/// the start of another variable.
pub open spec fn continues_a_name(rest: Seq<char>) -> bool {
    rest.len() > 0 && (is_ascii_alnum(rest[0]) || rest[0] == '_')
}

pub open spec fn bare_home() -> Seq<char> {
    seq!['$', 'H', 'O', 'M', 'E']
}

pub open spec fn braced_home() -> Seq<char> {
    seq!['$', '{', 'H', 'O', 'M', 'E', '}']
}

/// `text` with each `$HOME` that does not start a longer name replaced by `home`.
pub open spec fn expand_bare_home(home: Seq<char>, text: Seq<char>) -> Seq<char>
    decreases text.len(),
{
    match split_once(text, bare_home()) {
        Some((before, after)) => {
            proof {
                lemma_find_from_bounds(text, bare_home(), 0);
            }
            before + (if continues_a_name(after) {
                bare_home()
            } else {
                home
            }) + expand_bare_home(home, after)
        },
        None => text,
    }
}

/// The value a right-hand side stands for.
pub open spec fn unquote(home: Option<Seq<char>>, raw: Seq<char>) -> Seq<char> {
    match fenced(raw, '\'') {
        Some(inner) => inner,
        None => {
            let plain = match fenced(raw, '"') {
                Some(inner) => unescape(inner),
                None => raw,
            };
            match home {
                None => plain,
                Some(h) => expand_bare_home(h, replace_all(plain, braced_home(), h)),
            }
        },
    }
}

/// The key and value of a non-blank, non-comment line.
pub open spec fn pair_of(home: Option<Seq<char>>, line: nat, text: Seq<char>) -> Result<
    (Seq<char>, Seq<char>),
    EnvFault,
> {
    match split_once(text, seq!['=']) {
        None => Err(EnvFault::Malformed { line }),
        Some((raw_key, raw_value)) => {
            let key = trim(raw_key);
            if !is_env_key(key) {
                Err(EnvFault::UnsafeKey { key, line })
            } else {
                Ok((key, unquote(home, trim(raw_value))))
            }
        },
    }
}

/// Whether a trimmed line carries no pair.
pub open spec fn is_blank_or_comment(t: Seq<char>) -> bool {
    t.len() == 0 || t[0] == '#'
}

/// The values the first `ls.len()` lines of an environment file declare.
pub open spec fn env_lines(home: Option<Seq<char>>, ls: Seq<Seq<char>>) -> Result<
    Map<Seq<char>, Seq<char>>,
    EnvFault,
>
    decreases ls.len(),
{
    if ls.len() == 0 {
        Ok(Map::empty())
    } else {
        match env_lines(home, ls.drop_last()) {
            Err(e) => Err(e),
            Ok(m) => {
                let line = ls.len();
                let t = trim(ls.last());
                if is_blank_or_comment(t) {
                    Ok(m)
                } else {
                    match pair_of(home, line, t) {
                        Err(e) => Err(e),
                        Ok((k, v)) => if m.contains_key(k) {
                            Err(EnvFault::DuplicateKey { key: k, line })
                        } else {
                            Ok(m.insert(k, v))
                        },
                    }
                }
            },
        }
    }
}

/// The values an environment file's text declares.
pub open spec fn env_text(home: Option<Seq<char>>, text: Seq<char>) -> Result<
    Map<Seq<char>, Seq<char>>,
    EnvFault,
> {
    env_lines(home, lines(text))
}

/// The pairs are in strictly increasing order of their keys.
pub open spec fn keys_increasing(e: Seq<(Seq<char>, Seq<char>)>) -> bool {
    forall|i: int, j: int| 0 <= i < j < e.len() ==> lex_lt(e[i].0, e[j].0)
}

/// The pairs hold exactly the entries of `m`.
pub open spec fn lists_map(e: Seq<(Seq<char>, Seq<char>)>, m: Map<Seq<char>, Seq<char>>) -> bool {
    &&& forall|i: int| 0 <= i < e.len() ==> #[trigger] m.contains_key(e[i].0) && m[e[i].0] == e[i].1
    &&& forall|k: Seq<char>| #[trigger] m.contains_key(k) ==> exists|i: int| 0 <= i < e.len() && e[i].0 == k
}

pub open spec fn opt_view(o: Option<&str>) -> Option<Seq<char>> {
    match o {
        Some(s) => Some(s@),
        None => None,
    }
}

pub open spec fn pair_views(v: Seq<(Vec<char>, Vec<char>)>) -> Seq<(Seq<char>, Seq<char>)> {
    v.map_values(|p: (Vec<char>, Vec<char>)| (p.0@, p.1@))
}

pub open spec fn string_pairs(v: Seq<(String, String)>) -> Seq<(Seq<char>, Seq<char>)> {
    v.map_values(|p: (String, String)| (p.0@, p.1@))
}

// ---------------------------------------------------------------------------
// Reading an environment file.
// ---------------------------------------------------------------------------

/// Reads `KEY=VALUE` lines. Blank lines and lines starting with `#` are
/// skipped; a key may appear once; the pairs come back ordered by key.
pub fn parse_env_file(path: &str, home: Option<&str>, text: &str) -> (r: Result<
    Vec<(String, String)>,
    EnvFileError,
>)
    ensures
        match r {
            Ok(v) => {
                &&& env_text(opt_view(home), text@) is Ok
                &&& lists_map(string_pairs(v@), env_text(opt_view(home), text@)->Ok_0)
                &&& keys_increasing(string_pairs(v@))
            },
            Err(e) => {
                &&& env_text(opt_view(home), text@) == Err::<Map<Seq<char>, Seq<char>>, EnvFault>(
                    e.fault(),
                )
                &&& e.path_view() == path@
            },
        },
{
    let home_chars: Option<Vec<char>> = match home {
        Some(h) => Some(chars_of(h)),
        None => None,
    };
    let ghost hv = opt_view(home);
    assert(match home_chars {
        Some(h) => hv == Some(h@),
        None => hv is None,
    });
    let all = chars_of(text);
    let ls = lines_exec(&all);
    let ghost lv = views(ls@);
    let mut entries: Vec<(Vec<char>, Vec<char>)> = Vec::new();
    let mut index: usize = 0;
    assert(lv.take(0) =~= Seq::<Seq<char>>::empty());
    while index < ls.len()
        invariant
            index <= ls.len(),
            lv == views(ls@),
            lv == lines(text@),
            match home_chars {
                Some(h) => hv == Some(h@),
                None => hv is None,
            },
            hv == opt_view(home),
            env_lines(hv, lv.take(index as int)) is Ok,
            lists_map(pair_views(entries@), env_lines(hv, lv.take(index as int))->Ok_0),
            keys_increasing(pair_views(entries@)),
        decreases ls.len() - index,
    {
        let ghost before = env_lines(hv, lv.take(index as int))->Ok_0;
        let ghost next = lv.take(index + 1);
        assert(next.drop_last() == lv.take(index as int));
        assert(next.last() == ls[index as int]@);
        assert(next.len() == index + 1);
        let line = index + 1;
        let trimmed = trim_exec(&ls[index]);
        if trimmed.len() == 0 || trimmed[0] == '#' {
            assert(env_lines(hv, next) == Ok::<Map<Seq<char>, Seq<char>>, EnvFault>(before));
            index = index + 1;
            continue;
        }
        let pair = split_pair(path, &home_chars, line, &trimmed);
        assert(pair_of(hv, line as nat, trimmed@) == match pair {
            Ok(kv) => Ok((kv.0@, kv.1@)),
            Err(e) => Err(e.fault()),
        });
        let (key, value) = match pair {
            Ok(kv) => kv,
            Err(e) => {
                assert(env_lines(hv, next) == Err::<Map<Seq<char>, Seq<char>>, EnvFault>(
                    e.fault(),
                ));
                assert(lv.take(ls.len() as int) == lv);
                proof {
                    lemma_env_lines_error_sticks(hv, lv, index as int + 1);
                }
                return Err(e);
            },
        };
        let placed = place_entry(&mut entries, key, value, Ghost(before));
        match placed {
            Some(dup) => {
                let ghost k = dup@;
                assert(env_lines(hv, next) == Err::<Map<Seq<char>, Seq<char>>, EnvFault>(
                    EnvFault::DuplicateKey { key: k, line: line as nat },
                ));
                assert(lv.take(ls.len() as int) == lv);
                proof {
                    lemma_env_lines_error_sticks(hv, lv, index as int + 1);
                }
                return Err(
                    EnvFileError::DuplicateKey { path: path.to_string(), key: string_of(&dup), line },
                );
            },
            None => {},
        }
        index = index + 1;
    }
    assert(lv.take(ls.len() as int) == lv);
    let mut out: Vec<(String, String)> = Vec::new();
    let mut i: usize = 0;
    while i < entries.len()
        invariant
            i <= entries.len(),
            string_pairs(out@) == pair_views(entries@).take(i as int),
        decreases entries.len() - i,
    {
        let k = string_of(&entries[i].0);
        let v = string_of(&entries[i].1);
        let ghost pair = (k@, v@);
        assert(pair == pair_views(entries@)[i as int]);
        let ghost prev = string_pairs(out@);
        out.push((k, v));
        assert(string_pairs(out@) =~= prev.push(pair));
        i = i + 1;
        assert(string_pairs(out@) =~= pair_views(entries@).take(i as int));
    }
    assert(pair_views(entries@).take(entries.len() as int) == pair_views(entries@));
    Ok(out)
}

/// Once a line is refused, the whole file is refused for it.
proof fn lemma_env_lines_error_sticks(home: Option<Seq<char>>, ls: Seq<Seq<char>>, n: int)
    requires
        0 <= n <= ls.len(),
        env_lines(home, ls.take(n)) is Err,
    ensures
        env_lines(home, ls) == env_lines(home, ls.take(n)),
    decreases ls.len() - n,
{
    if n < ls.len() {
        assert(ls.take(n + 1).drop_last() == ls.take(n));
        lemma_env_lines_error_sticks(home, ls, n + 1);
    } else {
        assert(ls.take(n) == ls);
    }
}

/// Puts a new pair in its place among the pairs ordered by key, or hands
/// back the key when it is there already.
fn place_entry(
    entries: &mut Vec<(Vec<char>, Vec<char>)>,
    key: Vec<char>,
    value: Vec<char>,
    Ghost(m): Ghost<Map<Seq<char>, Seq<char>>>,
) -> (dup: Option<Vec<char>>)
    requires
        lists_map(pair_views(old(entries)@), m),
        keys_increasing(pair_views(old(entries)@)),
    ensures
        match dup {
            Some(k) => k@ == key@ && m.contains_key(key@) && final(entries)@ == old(entries)@,
            None => {
                &&& !m.contains_key(key@)
                &&& lists_map(pair_views(final(entries)@), m.insert(key@, value@))
                &&& keys_increasing(pair_views(final(entries)@))
            },
        },
{
    let ghost e = pair_views(entries@);
    let mut j: usize = 0;
    while j < entries.len() && precedes(&entries[j].0, &key)
        invariant
            j <= entries.len(),
            e == pair_views(entries@),
            forall|i: int| 0 <= i < j ==> lex_lt(#[trigger] e[i].0, key@),
        decreases entries.len() - j,
    {
        j = j + 1;
    }
    if j < entries.len() && same_chars(&entries[j].0, &key) {
        assert(e[j as int].0 == key@);
        return Some(key);
    }
    proof {
        // Every key from `j` on comes after `key`.
        if j < entries.len() {
            lemma_lex_total(e[j as int].0, key@);
            assert forall|i: int| j <= i < e.len() implies lex_lt(key@, #[trigger] e[i].0) by {
                if i > j {
                    lemma_lex_transitive(key@, e[j as int].0, e[i].0);
                }
            }
        }
        // So `key` is not among them.
        assert(!m.contains_key(key@)) by {
            if m.contains_key(key@) {
                let i = choose|i: int| 0 <= i < e.len() && e[i].0 == key@;
                lemma_lex_irreflexive(key@);
            }
        }
    }
    let ghost kv = key@;
    let ghost vv = value@;
    entries.insert(j, (key, value));
    proof {
        let ne = pair_views(entries@);
        assert(ne.len() == e.len() + 1);
        assert forall|i: int| 0 <= i < ne.len() implies #[trigger] ne[i] == (if i < j {
            e[i]
        } else if i == j {
            (kv, vv)
        } else {
            e[i - 1]
        }) by {}
        let m2 = m.insert(kv, vv);
        assert forall|i: int| 0 <= i < ne.len() implies #[trigger] m2.contains_key(ne[i].0) && m2[ne[i].0]
            == ne[i].1 by {
            if i < j {
                assert(m.contains_key(e[i].0));
                lemma_lex_irreflexive(kv);
            } else if i > j {
                assert(m.contains_key(e[i - 1].0));
                lemma_lex_irreflexive(kv);
            }
        }
        assert forall|k: Seq<char>| #[trigger] m2.contains_key(k) implies exists|i: int|
            0 <= i < ne.len() && ne[i].0 == k by {
            if k == kv {
                assert(ne[j as int].0 == k);
            } else {
                let i = choose|i: int| 0 <= i < e.len() && e[i].0 == k;
                if i < j {
                    assert(ne[i].0 == k);
                } else {
                    assert(ne[i + 1].0 == k);
                }
            }
        }
        assert forall|a: int, b: int| 0 <= a < b < ne.len() implies lex_lt(ne[a].0, ne[b].0) by {
            if b < j {
            } else if b == j {
            } else if a < j {
                lemma_lex_transitive(ne[a].0, kv, ne[b].0);
            } else if a == j {
            } else {
            }
        }
    }
    None
}

/// Splits a line at its first `=` into a checked key and its value.
fn split_pair(path: &str, home: &Option<Vec<char>>, line: usize, text: &Vec<char>) -> (r: Result<
    (Vec<char>, Vec<char>),
    EnvFileError,
>)
    ensures
        pair_of(
            match home {
                Some(h) => Some(h@),
                None => None,
            },
            line as nat,
            text@,
        ) == match r {
            Ok(kv) => Ok((kv.0@, kv.1@)),
            Err(e) => Err(e.fault()),
        },
        r matches Err(e) ==> e.path_view() == path@,
{
    let eq = ['='];
    assert(eq@ == seq!['=']);
    let Some((raw_key, raw_value)) = split_once_exec(text, &eq) else {
        return Err(EnvFileError::Malformed { path: path.to_string(), line });
    };
    let key = trim_exec(&raw_key);
    if !is_env_key_exec(&key) {
        return Err(EnvFileError::UnsafeKey { path: path.to_string(), key: string_of(&key), line });
    }
    let trimmed = trim_exec(&raw_value);
    let value = unquote_exec(home, &trimmed);
    Ok((key, value))
}

fn is_env_key_exec(key: &[char]) -> (r: bool)
    ensures
        r == is_env_key(key@),
{
    if key.len() == 0 {
        return false;
    }
    let first = key[0];
    if !(('a' <= first && first <= 'z') || ('A' <= first && first <= 'Z') || first == '_') {
        return false;
    }
    let mut i: usize = 1;
    while i < key.len()
        invariant
            1 <= i <= key.len(),
            forall|k: int| 1 <= k < i ==> is_ascii_alnum(#[trigger] key@[k]) || key@[k] == '_',
        decreases key.len() - i,
    {
        if !(is_ascii_alnum_exec(key[i]) || key[i] == '_') {
            return false;
        }
        i = i + 1;
    }
    true
}

fn fenced_exec(raw: &[char], fence: char) -> (r: Option<Vec<char>>)
    ensures
        r matches Some(v) ==> fenced(raw@, fence) == Some(v@),
        r is None ==> fenced(raw@, fence) is None,
{
    if raw.len() >= 2 && raw[0] == fence && raw[raw.len() - 1] == fence {
        Some(slice_of(raw, 1, raw.len() - 1))
    } else {
        None
    }
}

fn is_hex_digit_exec(c: char) -> (r: bool)
    ensures
        r == is_hex_digit(c),
{
    ('0' <= c && c <= '9') || ('a' <= c && c <= 'f') || ('A' <= c && c <= 'F')
}

fn hex_value_exec(c: char) -> (r: u8)
    requires
        is_hex_digit(c),
    ensures
        r == hex_value(c),
        r < 16,
{
    if '0' <= c && c <= '9' {
        (c as u32 - '0' as u32) as u8
    } else if 'a' <= c && c <= 'f' {
        (c as u32 - 'a' as u32 + 10) as u8
    } else {
        (c as u32 - 'A' as u32 + 10) as u8
    }
}

fn decode_hex_exec(d: &[char]) -> (r: Option<char>)
    ensures
        r == decode_hex(d@),
{
    if d.len() == 2 && is_hex_digit_exec(d[0]) && is_hex_digit_exec(d[1]) {
        let v: u8 = hex_value_exec(d[0]) * 16 + hex_value_exec(d[1]);
        Some(v as char)
    } else if d.len() == 2 && d[0] == '+' && is_hex_digit_exec(d[1]) {
        let v: u8 = hex_value_exec(d[1]);
        Some(v as char)
    } else {
        None
    }
}

fn unescape_exec(s: &[char]) -> (r: Vec<char>)
    ensures
        r@ == unescape(s@),
{
    let mut out: Vec<char> = Vec::new();
    let mut i: usize = 0;
    assert(s@.skip(0) == s@);
    while i < s.len()
        invariant
            i <= s.len(),
            unescape(s@) == out@ + unescape(s@.skip(i as int)),
        decreases s.len() - i,
    {
        let ghost rest = s@.skip(i as int);
        let ghost before = out@;
        if s[i] != '\\' {
            out.push(s[i]);
            assert(rest.skip(1) == s@.skip(i + 1));
            assert(before + (seq![rest[0]] + unescape(rest.skip(1))) =~= out@ + unescape(
                s@.skip(i + 1),
            ));
            i = i + 1;
        } else if i + 1 == s.len() {
            out.push('\\');
            assert(s@.skip(i + 1).len() == 0);
            assert(before + seq!['\\'] =~= out@ + unescape(s@.skip(i + 1)));
            i = i + 1;
        } else {
            let c = s[i + 1];
            assert(rest[1] == c);
            assert(rest.skip(2) == s@.skip(i + 2));
            if c == 'n' || c == 'r' || c == 't' {
                let shown = if c == 'n' {
                    '\n'
                } else if c == 'r' {
                    '\r'
                } else {
                    '\t'
                };
                out.push(shown);
                assert(before + (seq![shown] + unescape(rest.skip(2))) =~= out@ + unescape(
                    s@.skip(i + 2),
                ));
                i = i + 2;
            } else if c == 'x' {
                let start = i + 2;
                let end = if s.len() - start >= 2 {
                    start + 2
                } else {
                    s.len()
                };
                let digits = slice_of(s, start, end);
                let ghost r2 = rest.skip(2);
                assert(digits@ == if r2.len() >= 2 {
                    r2.take(2)
                } else {
                    r2
                });
                let ghost shown_spec = match decode_hex(digits@) {
                    Some(ch) => seq![ch],
                    None => seq!['\\', 'x'] + digits@,
                };
                match decode_hex_exec(&digits) {
                    Some(ch) => {
                        out.push(ch);
                    },
                    None => {
                        out.push('\\');
                        out.push('x');
                        push_all(&mut out, &digits);
                    },
                }
                assert(out@ =~= before + shown_spec);
                assert(r2.skip(digits@.len() as int) == s@.skip(end as int));
                assert(before + (shown_spec + unescape(r2.skip(digits@.len() as int))) =~= out@
                    + unescape(s@.skip(end as int)));
                i = end;
            } else {
                out.push(c);
                assert(before + (seq![c] + unescape(rest.skip(2))) =~= out@ + unescape(
                    s@.skip(i + 2),
                ));
                i = i + 2;
            }
        }
    }
    assert(s@.skip(s.len() as int).len() == 0);
    assert(out@ + unescape(s@.skip(i as int)) =~= out@);
    out
}

fn continues_a_name_exec(rest: &[char]) -> (r: bool)
    ensures
        r == continues_a_name(rest@),
{
    rest.len() > 0 && (is_ascii_alnum_exec(rest[0]) || rest[0] == '_')
}

fn expand_bare_home_exec(home: &[char], text: &[char]) -> (r: Vec<char>)
    ensures
        r@ == expand_bare_home(home@, text@),
{
    let bare = ['$', 'H', 'O', 'M', 'E'];
    assert(bare@ == bare_home());
    let mut out: Vec<char> = Vec::new();
    let mut rest = slice_of(text, 0, text.len());
    assert(rest@ == text@);
    loop
        invariant
            bare@ == bare_home(),
            expand_bare_home(home@, text@) == out@ + expand_bare_home(home@, rest@),
        decreases rest@.len(),
    {
        match split_once_exec(&rest, &bare) {
            Some((before, after)) => {
                proof {
                    lemma_find_from_bounds(rest@, bare@, 0);
                }
                let ghost start = out@;
                let named = continues_a_name_exec(&after);
                push_all(&mut out, &before);
                if named {
                    push_all(&mut out, &bare);
                } else {
                    push_all(&mut out, home);
                }
                assert(start + (before@ + (if named {
                    bare_home()
                } else {
                    home@
                }) + expand_bare_home(home@, after@)) =~= out@ + expand_bare_home(home@, after@));
                rest = after;
            },
            None => {
                push_all(&mut out, &rest);
                return out;
            },
        }
    }
}

fn unquote_exec(home: &Option<Vec<char>>, raw: &[char]) -> (r: Vec<char>)
    ensures
        r@ == unquote(
            match home {
                Some(h) => Some(h@),
                None => None,
            },
            raw@,
        ),
{
    if let Some(inner) = fenced_exec(raw, '\'') {
        return inner;
    }
    let plain = match fenced_exec(raw, '"') {
        Some(inner) => unescape_exec(&inner),
        None => slice_of(raw, 0, raw.len()),
    };
    assert(raw@.subrange(0, raw@.len() as int) == raw@);
    match home {
        None => plain,
        Some(h) => {
            let braced = ['$', '{', 'H', 'O', 'M', 'E', '}'];
            assert(braced@ == braced_home());
            let replaced = replace_all_exec(&plain, &braced, h);
            expand_bare_home_exec(h, &replaced)
        },
    }
}

} // verus!
