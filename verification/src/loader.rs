use vstd::prelude::*;

use crate::text::{
    find_from, occurs_at,
    ascii_lowercase, ascii_lowercase_exec, chars_of, contains, contains_exec, find, find_exec, is_control,
    is_control_exec, join, join_exec, lemma_find_from_bounds, push_all, push_str, rsplit_once_char,
    rsplit_once_char_exec, slice_of, split_char, split_char_exec, split_once, split_once_exec,
    string_of, views,
};

verus! {

/// Why the configuration text could not be prepared.
#[derive(Debug)]
pub enum ConfigLoadError {
    IoError { path: String, reason: String },
    EnvVarNotUnicode { name: String },
    EnvVarNotSet { name: String },
    EnvVarNotYamlSafe { name: String, character: String },
}

/// A refusal while substituting, as plain values.
pub enum LoadFault {
    Io { path: Seq<char>, reason: Seq<char> },
    NotUnicode { name: Seq<char> },
    NotSet { name: Seq<char> },
    NotYamlSafe { name: Seq<char>, character: Seq<char> },
}

impl ConfigLoadError {
    pub open spec fn fault(self) -> LoadFault {
        match self {
            ConfigLoadError::IoError { path, reason } => LoadFault::Io {
                path: path@,
                reason: reason@,
            },
            ConfigLoadError::EnvVarNotUnicode { name } => LoadFault::NotUnicode { name: name@ },
            ConfigLoadError::EnvVarNotSet { name } => LoadFault::NotSet { name: name@ },
            ConfigLoadError::EnvVarNotYamlSafe { name, character } => LoadFault::NotYamlSafe {
                name: name@,
                character: character@,
            },
        }
    }
}

/// What reading one environment variable gave.
#[derive(Clone, Debug)]
pub enum EnvRead {
    Present(String),
    Unset,
    NotUnicode,
}

/// What reading one environment variable gave, as plain values.
pub enum EnvReadView {
    Present(Seq<char>),
    Unset,
    NotUnicode,
}

/// The environment variables a configuration text may name, as they were read.
pub struct EnvSnapshot {
    pub entries: Vec<(String, EnvRead)>,
}

pub open spec fn read_view(r: EnvRead) -> EnvReadView {
    match r {
        EnvRead::Present(v) => EnvReadView::Present(v@),
        EnvRead::Unset => EnvReadView::Unset,
        EnvRead::NotUnicode => EnvReadView::NotUnicode,
    }
}

impl EnvSnapshot {
    pub open spec fn view(&self) -> Seq<(Seq<char>, EnvReadView)> {
        self.entries@.map_values(|e: (String, EnvRead)| (e.0@, read_view(e.1)))
    }
}

/// What the snapshot holds for `name`: the first entry of that name, or
/// unset when there is none.
pub open spec fn lookup(env: Seq<(Seq<char>, EnvReadView)>, name: Seq<char>) -> EnvReadView
    decreases env.len(),
{
    if env.len() == 0 {
        EnvReadView::Unset
    } else if env[0].0 == name {
        env[0].1
    } else {
        lookup(env.skip(1), name)
    }
}

// ---------------------------------------------------------------------------
// `${NAME}` and `${NAME:-default}` placeholders.
// ---------------------------------------------------------------------------

/// The position of the `}` that closes a placeholder in `line`: the first
/// `}` not matched by a `{` before it.
pub open spec fn unnested_close(line: Seq<char>, i: int, depth: nat) -> Option<nat>
    decreases line.len() - i,
{
    if i < 0 || i >= line.len() {
        None
    } else if line[i] == '{' {
        unnested_close(line, i + 1, depth + 1)
    } else if line[i] == '}' && depth == 0 {
        Some(i as nat)
    } else if line[i] == '}' {
        unnested_close(line, i + 1, (depth - 1) as nat)
    } else {
        unnested_close(line, i + 1, depth)
    }
}

/// A placeholder that opens a text: the variable's name, its default if it
/// declares one, and how many characters it takes up after `${`.
pub struct Placeholder {
    pub name: Seq<char>,
    pub default: Option<Seq<char>>,
    pub consumed: nat,
}

/// The placeholder at the start of `body` (the text after a `${`), if it is one.
pub open spec fn placeholder(body: Seq<char>) -> Option<Placeholder> {
    let line = match find(body, seq!['\n']) {
        Some(p) => body.take(p as int),
        None => body,
    };
    match unnested_close(line, 0, 0) {
        None => None,
        Some(close) => {
            let inner = line.take(close as int);
            let (name, default) = match split_once(inner, seq![':', '-']) {
                Some((n, d)) => (n, Some(d)),
                None => (inner, None),
            };
            if name.len() == 0 || contains(name, seq![':']) || contains(name, seq!['{']) {
                None
            } else {
                Some(Placeholder { name, default, consumed: close + 1 })
            }
        },
    }
}

pub open spec fn hex_digit_char(d: nat) -> char {
    if d < 10 {
        ('0' as u32 + d) as char
    } else {
        ('a' as u32 + d - 10) as char
    }
}

/// The lower-case hexadecimal digits of `n`, without leading zeros.
pub open spec fn hex_digits(n: nat) -> Seq<char>
    decreases n,
{
    if n < 16 {
        seq![hex_digit_char(n)]
    } else {
        hex_digits(n / 16).push(hex_digit_char(n % 16))
    }
}

/// How `char::escape_default` writes a character that is a quote, a
/// backslash or a control character.
pub open spec fn escape_default(c: char) -> Seq<char> {
    if c == '\t' {
        seq!['\\', 't']
    } else if c == '\r' {
        seq!['\\', 'r']
    } else if c == '\n' {
        seq!['\\', 'n']
    } else if c == '"' {
        seq!['\\', '"']
    } else if c == '\\' {
        seq!['\\', '\\']
    } else {
        seq!['\\', 'u', '{'] + hex_digits(c as nat) + seq!['}']
    }
}

/// A character that would change a YAML document if a value carried it.
pub open spec fn yaml_unsafe(c: char) -> bool {
    c == '"' || c == '\\' || is_control(c)
}

/// The first such character of `value`.
pub open spec fn first_yaml_unsafe(value: Seq<char>) -> Option<char>
    decreases value.len(),
{
    if value.len() == 0 {
        None
    } else if yaml_unsafe(value[0]) {
        Some(value[0])
    } else {
        first_yaml_unsafe(value.skip(1))
    }
}

pub open spec fn prepend(p: Seq<char>, r: Result<Seq<char>, LoadFault>) -> Result<
    Seq<char>,
    LoadFault,
> {
    match r {
        Ok(s) => Ok(p + s),
        Err(e) => Err(e),
    }
}

/// `raw` with each placeholder replaced by the variable's value, or its
/// default when the variable is not set; text that does not form a
/// placeholder stays as it is.
pub open spec fn substitute(raw: Seq<char>, env: Seq<(Seq<char>, EnvReadView)>) -> Result<
    Seq<char>,
    LoadFault,
>
    decreases raw.len(),
{
    match find(raw, seq!['$', '{']) {
        None => Ok(raw),
        Some(start) => {
            proof {
                lemma_find_from_bounds(raw, seq!['$', '{'], 0);
            }
            let head = raw.take(start as int);
            let body = raw.skip((start + 2) as int);
            match placeholder(body) {
                None => prepend(head + seq!['$', '{'], substitute(body, env)),
                Some(p) => {
                    proof {
                        lemma_placeholder_fits(body);
                    }
                    let tail = body.skip(p.consumed as int);
                    match lookup(env, p.name) {
                        EnvReadView::NotUnicode => Err(LoadFault::NotUnicode { name: p.name }),
                        EnvReadView::Present(v) => match first_yaml_unsafe(v) {
                            Some(c) => Err(
                                LoadFault::NotYamlSafe { name: p.name, character: escape_default(c) },
                            ),
                            None => prepend(head + v, substitute(tail, env)),
                        },
                        EnvReadView::Unset => match p.default {
                            Some(d) => prepend(head + d, substitute(tail, env)),
                            None => Err(LoadFault::NotSet { name: p.name }),
                        },
                    }
                },
            }
        },
    }
}

pub proof fn lemma_prepend_assoc(a: Seq<char>, b: Seq<char>, r: Result<Seq<char>, LoadFault>)
    ensures
        prepend(a, prepend(b, r)) == prepend(a + b, r),
{
    if let Ok(s) = r {
        assert(a + (b + s) =~= (a + b) + s);
    }
}

pub proof fn lemma_unnested_close_bounds(line: Seq<char>, i: int, depth: nat)
    ensures
        unnested_close(line, i, depth) matches Some(c) ==> i <= c < line.len() && line[c as int]
            == '}',
    decreases line.len() - i,
{
    if i < 0 || i >= line.len() {
    } else if line[i] == '{' {
        lemma_unnested_close_bounds(line, i + 1, depth + 1);
    } else if line[i] == '}' && depth == 0 {
    } else if line[i] == '}' {
        lemma_unnested_close_bounds(line, i + 1, (depth - 1) as nat);
    } else {
        lemma_unnested_close_bounds(line, i + 1, depth);
    }
}

/// A placeholder takes up part of the text it opens.
pub proof fn lemma_placeholder_fits(body: Seq<char>)
    ensures
        placeholder(body) matches Some(p) ==> 1 <= p.consumed <= body.len(),
{
    lemma_find_from_bounds(body, seq!['\n'], 0);
    let line = match find(body, seq!['\n']) {
        Some(p) => body.take(p as int),
        None => body,
    };
    lemma_unnested_close_bounds(line, 0, 0);
}

// ---------------------------------------------------------------------------
// Executable substitution.
// ---------------------------------------------------------------------------

fn lookup_exec(env: &EnvSnapshot, name: &[char]) -> (r: EnvRead)
    ensures
        read_view(r) == lookup(env.view(), name@),
{
    let ghost all = env.view();
    let mut i: usize = 0;
    assert(all.skip(0) == all);
    while i < env.entries.len()
        invariant
            i <= env.entries.len(),
            all == env.view(),
            lookup(all, name@) == lookup(all.skip(i as int), name@),
        decreases env.entries.len() - i,
    {
        let key = chars_of(&env.entries[i].0);
        assert(all.skip(i as int)[0] == (key@, read_view(env.entries@[i as int].1)));
        assert(all.skip(i as int).skip(1) == all.skip(i + 1));
        if crate::text::same_chars(&key, name) {
            return env.entries[i].1.clone_read();
        }
        i = i + 1;
    }
    assert(all.skip(i as int).len() == 0);
    EnvRead::Unset
}

impl EnvRead {
    pub fn clone_read(&self) -> (r: EnvRead)
        ensures
            read_view(r) == read_view(*self),
    {
        match self {
            EnvRead::Present(v) => EnvRead::Present(v.clone()),
            EnvRead::Unset => EnvRead::Unset,
            EnvRead::NotUnicode => EnvRead::NotUnicode,
        }
    }
}

fn unnested_close_exec(line: &[char]) -> (r: Option<usize>)
    ensures
        r matches Some(c) ==> unnested_close(line@, 0, 0) == Some(c as nat),
        r is None ==> unnested_close(line@, 0, 0) is None,
{
    let mut depth: usize = 0;
    let mut i: usize = 0;
    while i < line.len()
        invariant
            i <= line.len(),
            depth <= i,
            unnested_close(line@, 0, 0) == unnested_close(line@, i as int, depth as nat),
        decreases line.len() - i,
    {
        if line[i] == '{' {
            depth = depth + 1;
        } else if line[i] == '}' {
            if depth == 0 {
                return Some(i);
            }
            depth = depth - 1;
        }
        i = i + 1;
    }
    None
}

fn placeholder_exec(body: &[char]) -> (r: Option<(Vec<char>, Option<Vec<char>>, usize)>)
    ensures
        match r {
            Some((name, default, consumed)) => placeholder(body@) == Some(
                Placeholder {
                    name: name@,
                    default: match default {
                        Some(d) => Some(d@),
                        None => None,
                    },
                    consumed: consumed as nat,
                },
            ),
            None => placeholder(body@) is None,
        },
{
    let nl = ['\n'];
    assert(nl@ == seq!['\n']);
    let line = match find_exec(body, &nl) {
        Some(p) => {
            proof {
                lemma_find_from_bounds(body@, nl@, 0);
            }
            slice_of(body, 0, p)
        },
        None => slice_of(body, 0, body.len()),
    };
    assert(body@.subrange(0, body@.len() as int) == body@);
    let close = match unnested_close_exec(&line) {
        Some(c) => c,
        None => {
            return None;
        },
    };
    proof {
        lemma_unnested_close_bounds(line@, 0, 0);
    }
    let inner = slice_of(&line, 0, close);
    assert(inner@ == line@.take(close as int));
    let sep = [':', '-'];
    assert(sep@ == seq![':', '-']);
    let (name, default) = match split_once_exec(&inner, &sep) {
        Some((n, d)) => (n, Some(d)),
        None => (inner, None),
    };
    let colon = [':'];
    let brace = ['{'];
    assert(colon@ == seq![':'] && brace@ == seq!['{']);
    if name.len() == 0 || contains_exec(&name, &colon) || contains_exec(&name, &brace) {
        return None;
    }
    Some((name, default, close + 1))
}

fn first_yaml_unsafe_exec(value: &[char]) -> (r: Option<char>)
    ensures
        r == first_yaml_unsafe(value@),
{
    let mut i: usize = 0;
    assert(value@.skip(0) == value@);
    while i < value.len()
        invariant
            i <= value.len(),
            first_yaml_unsafe(value@) == first_yaml_unsafe(value@.skip(i as int)),
        decreases value.len() - i,
    {
        assert(value@.skip(i as int)[0] == value@[i as int]);
        assert(value@.skip(i as int).skip(1) == value@.skip(i + 1));
        let c = value[i];
        if c == '"' || c == '\\' || is_control_exec(c) {
            return Some(c);
        }
        i = i + 1;
    }
    assert(value@.skip(i as int).len() == 0);
    None
}

fn push_hex_digits(out: &mut Vec<char>, n: u32)
    ensures
        final(out)@ == old(out)@ + hex_digits(n as nat),
    decreases n,
{
    if n >= 16 {
        push_hex_digits(out, n / 16);
    }
    let d = n % 16;
    let c = if d < 10 {
        (('0' as u8) + (d as u8)) as char
    } else {
        (('a' as u8) + (d as u8) - 10) as char
    };
    assert(c == hex_digit_char(d as nat));
    out.push(c);
    proof {
        if n < 16 {
            assert(d == n);
        }
    }
}

fn escape_default_exec(c: char) -> (r: String)
    ensures
        r@ == escape_default(c),
{
    let mut out: Vec<char> = Vec::new();
    if c == '\t' {
        out.push('\\');
        out.push('t');
    } else if c == '\r' {
        out.push('\\');
        out.push('r');
    } else if c == '\n' {
        out.push('\\');
        out.push('n');
    } else if c == '"' {
        out.push('\\');
        out.push('"');
    } else if c == '\\' {
        out.push('\\');
        out.push('\\');
    } else {
        out.push('\\');
        out.push('u');
        out.push('{');
        push_hex_digits(&mut out, c as u32);
        out.push('}');
        assert(out@ =~= seq!['\\', 'u', '{'] + hex_digits(c as nat) + seq!['}']);
    }
    string_of(&out)
}

/// Replaces each placeholder of `raw` with what `env` holds for it.
pub fn substitute_with(raw: &str, env: &EnvSnapshot) -> (r: Result<String, ConfigLoadError>)
    ensures
        match r {
            Ok(s) => substitute(raw@, env.view()) == Ok::<Seq<char>, LoadFault>(s@),
            Err(e) => substitute(raw@, env.view()) == Err::<Seq<char>, LoadFault>(e.fault()),
        },
{
    let opener = ['$', '{'];
    assert(opener@ == seq!['$', '{']);
    let mut out: Vec<char> = Vec::new();
    let mut rest = chars_of(raw);
    loop
        invariant
            opener@ == seq!['$', '{'],
            substitute(raw@, env.view()) == prepend(out@, substitute(rest@, env.view())),
        decreases rest@.len(),
    {
        let start = match find_exec(&rest, &opener) {
            None => {
                push_all(&mut out, &rest);
                return Ok(string_of(&out));
            },
            Some(s) => s,
        };
        proof {
            lemma_find_from_bounds(rest@, opener@, 0);
            assert(find_from(rest@, opener@, 0) == Some(start as nat));
            assert(occurs_at(rest@, opener@, start as int));
        }
        let rlen = rest.len();
        assert(start + 2 <= rlen);
        let head = slice_of(&rest, 0, start);
        let body = slice_of(&rest, start + 2, rlen);
        assert(head@ == rest@.take(start as int));
        assert(body@ == rest@.skip(start + 2));
        let ghost before = out@;
        match placeholder_exec(&body) {
            None => {
                push_all(&mut out, &head);
                out.push('$');
                out.push('{');
                proof {
                    lemma_prepend_assoc(before, head@ + seq!['$', '{'], substitute(body@, env.view()));
                    assert(out@ =~= before + (head@ + seq!['$', '{']));
                }
                rest = body;
            },
            Some((name, default, consumed)) => {
                proof {
                    lemma_placeholder_fits(body@);
                }
                let tail = slice_of(&body, consumed, body.len());
                assert(tail@ == body@.skip(consumed as int));
                match lookup_exec(env, &name) {
                    EnvRead::NotUnicode => {
                        return Err(ConfigLoadError::EnvVarNotUnicode { name: string_of(&name) });
                    },
                    EnvRead::Present(found) => {
                        let value = chars_of(&found);
                        match first_yaml_unsafe_exec(&value) {
                            Some(c) => {
                                return Err(
                                    ConfigLoadError::EnvVarNotYamlSafe {
                                        name: string_of(&name),
                                        character: escape_default_exec(c),
                                    },
                                );
                            },
                            None => {
                                push_all(&mut out, &head);
                                push_all(&mut out, &value);
                                proof {
                                    lemma_prepend_assoc(before, head@ + value@, substitute(tail@, env.view()));
                                    assert(out@ =~= before + (head@ + value@));
                                }
                            },
                        }
                    },
                    EnvRead::Unset => {
                        match default {
                            Some(d) => {
                                push_all(&mut out, &head);
                                push_all(&mut out, &d);
                                proof {
                                    lemma_prepend_assoc(before, head@ + d@, substitute(tail@, env.view()));
                                    assert(out@ =~= before + (head@ + d@));
                                }
                            },
                            None => {
                                return Err(ConfigLoadError::EnvVarNotSet { name: string_of(&name) });
                            },
                        }
                    },
                }
                rest = tail;
            },
        }
    }
}

/// The names the placeholders of `raw` name, in order, found the way
/// substitution walks the text.
pub open spec fn placeholder_list(raw: Seq<char>) -> Seq<Seq<char>>
    decreases raw.len(),
{
    match find(raw, seq!['$', '{']) {
        None => Seq::empty(),
        Some(start) => {
            proof {
                lemma_find_from_bounds(raw, seq!['$', '{'], 0);
            }
            let body = raw.skip((start + 2) as int);
            match placeholder(body) {
                None => placeholder_list(body),
                Some(p) => {
                    proof {
                        lemma_placeholder_fits(body);
                    }
                    seq![p.name] + placeholder_list(body.skip(p.consumed as int))
                },
            }
        },
    }
}

/// The names of the variables the placeholders of `raw` name, in order,
/// for the caller to read before substituting.
pub fn placeholder_names(raw: &str) -> (r: Vec<String>)
    ensures
        r.deep_view() == placeholder_list(raw@),
{
    let opener = ['$', '{'];
    assert(opener@ == seq!['$', '{']);
    let mut names: Vec<String> = Vec::new();
    let mut rest = chars_of(raw);
    assert(names.deep_view() + placeholder_list(rest@) =~= placeholder_list(raw@));
    loop
        invariant
            opener@ == seq!['$', '{'],
            names.deep_view() + placeholder_list(rest@) == placeholder_list(raw@),
        decreases rest@.len(),
    {
        let start = match find_exec(&rest, &opener) {
            None => {
                assert(names.deep_view() + Seq::<Seq<char>>::empty() =~= names.deep_view());
                return names;
            },
            Some(s) => s,
        };
        proof {
            lemma_find_from_bounds(rest@, opener@, 0);
            assert(find_from(rest@, opener@, 0) == Some(start as nat));
            assert(occurs_at(rest@, opener@, start as int));
        }
        let rlen = rest.len();
        assert(start + 2 <= rlen);
        let body = slice_of(&rest, start + 2, rlen);
        assert(body@ == rest@.skip(start + 2));
        match placeholder_exec(&body) {
            None => {
                rest = body;
            },
            Some((name, _default, consumed)) => {
                proof {
                    lemma_placeholder_fits(body@);
                }
                let ghost before = names.deep_view();
                let text = string_of(&name);
                names.push(text);
                assert(names.deep_view() =~= before.push(name@));
                let next = slice_of(&body, consumed, body.len());
                assert(next@ == body@.skip(consumed as int));
                assert(before + (seq![name@] + placeholder_list(next@)) =~= before.push(name@)
                    + placeholder_list(next@));
                rest = next;
            },
        }
    }
}

// ---------------------------------------------------------------------------
// Hiding credentials in a URL.
// ---------------------------------------------------------------------------

pub open spec fn redacted_value() -> Seq<char> {
    seq!['*', '*', '*']
}

pub open spec fn secret_markers() -> Seq<Seq<char>> {
    seq!["auth"@, "credential"@, "key"@, "passwd"@, "password"@, "secret"@, "token"@]
}

/// The end of the authority of `rest` (what follows `://`): the first `/`,
/// `?` or `#`, or the end.
pub open spec fn authority_end(rest: Seq<char>, i: int) -> int
    decreases rest.len() - i,
{
    if i < 0 || i >= rest.len() {
        rest.len() as int
    } else if rest[i] == '/' || rest[i] == '?' || rest[i] == '#' {
        i
    } else {
        authority_end(rest, i + 1)
    }
}

/// `url` with the user information of its authority replaced by `***`.
pub open spec fn redact_userinfo(url: Seq<char>) -> Seq<char> {
    match split_once(url, seq![':', '/', '/']) {
        None => url,
        Some((scheme, rest)) => {
            let end = authority_end(rest, 0);
            match rsplit_once_char(rest.take(end), '@') {
                None => url,
                Some((_credentials, host)) => scheme + seq![':', '/', '/'] + redacted_value() + seq![
                    '@',
                ] + host + rest.skip(end),
            }
        },
    }
}

/// Whether a query key names a secret: its lower-case form holds a marker.
pub open spec fn is_secret_key(key: Seq<char>) -> bool {
    exists|i: int| 0 <= i < secret_markers().len() && contains(ascii_lowercase(key), #[trigger] secret_markers()[i])
}

/// A query pair with its value hidden when its key names a secret.
pub open spec fn redact_pair(pair: Seq<char>) -> Seq<char> {
    match split_once(pair, seq!['=']) {
        None => pair,
        Some((key, _value)) => if is_secret_key(key) {
            key + seq!['='] + redacted_value()
        } else {
            pair
        },
    }
}

/// `url` with the values of its secret query pairs hidden.
pub open spec fn redact_query(url: Seq<char>) -> Seq<char> {
    match split_once(url, seq!['?']) {
        None => url,
        Some((base, query)) => base + seq!['?'] + join(
            split_char(query, '&').map_values(|p: Seq<char>| redact_pair(p)),
            seq!['&'],
        ),
    }
}

/// `url` fit to be shown: no credentials and no secret query values.
pub open spec fn redact_url_spec(url: Seq<char>) -> Seq<char> {
    redact_query(redact_userinfo(url))
}

fn authority_end_exec(rest: &[char]) -> (r: usize)
    ensures
        r as int == authority_end(rest@, 0),
        r <= rest.len(),
{
    let mut i: usize = 0;
    while i < rest.len() && rest[i] != '/' && rest[i] != '?' && rest[i] != '#'
        invariant
            i <= rest.len(),
            authority_end(rest@, 0) == authority_end(rest@, i as int),
        decreases rest.len() - i,
    {
        i = i + 1;
    }
    i
}

fn redact_userinfo_exec(url: &[char]) -> (r: Vec<char>)
    ensures
        r@ == redact_userinfo(url@),
{
    let marker = [':', '/', '/'];
    assert(marker@ == seq![':', '/', '/']);
    let whole = slice_of(url, 0, url.len());
    assert(whole@ == url@);
    let Some((scheme, rest)) = split_once_exec(url, &marker) else {
        return whole;
    };
    let end = authority_end_exec(&rest);
    let authority = slice_of(&rest, 0, end);
    assert(authority@ == rest@.take(end as int));
    let Some((_credentials, host)) = rsplit_once_char_exec(&authority, '@') else {
        return whole;
    };
    let mut out = scheme;
    push_all(&mut out, &marker);
    out.push('*');
    out.push('*');
    out.push('*');
    out.push('@');
    push_all(&mut out, &host);
    let tail = slice_of(&rest, end, rest.len());
    assert(tail@ == rest@.skip(end as int));
    push_all(&mut out, &tail);
    assert(out@ =~= redact_userinfo(url@));
    out
}

fn is_secret_key_exec(key: &[char]) -> (r: bool)
    ensures
        r == is_secret_key(key@),
{
    let lowered = ascii_lowercase_exec(key);
    let markers: [&str; 7] = ["auth", "credential", "key", "passwd", "password", "secret", "token"];
    proof {
        reveal_strlit("auth");
        reveal_strlit("credential");
        reveal_strlit("key");
        reveal_strlit("passwd");
        reveal_strlit("password");
        reveal_strlit("secret");
        reveal_strlit("token");
    }
    let ghost ms = secret_markers();
    assert(forall|i: int| 0 <= i < 7 ==> markers@[i]@ == ms[i]);
    let mut i: usize = 0;
    while i < 7
        invariant
            i <= 7,
            ms == secret_markers(),
            lowered@ == ascii_lowercase(key@),
            forall|k: int| 0 <= k < 7 ==> markers@[k]@ == ms[k],
            forall|k: int| 0 <= k < i ==> !contains(lowered@, #[trigger] ms[k]),
        decreases 7 - i,
    {
        let m = chars_of(markers[i]);
        if contains_exec(&lowered, &m) {
            assert(contains(ascii_lowercase(key@), ms[i as int]));
            return true;
        }
        i = i + 1;
    }
    false
}

fn redact_pair_exec(pair: &[char]) -> (r: Vec<char>)
    ensures
        r@ == redact_pair(pair@),
{
    let eq = ['='];
    assert(eq@ == seq!['=']);
    let whole = slice_of(pair, 0, pair.len());
    assert(whole@ == pair@);
    let Some((key, _value)) = split_once_exec(pair, &eq) else {
        return whole;
    };
    if !is_secret_key_exec(&key) {
        return whole;
    }
    let mut out = key;
    out.push('=');
    out.push('*');
    out.push('*');
    out.push('*');
    assert(out@ =~= redact_pair(pair@));
    out
}

fn redact_query_exec(url: &[char]) -> (r: Vec<char>)
    ensures
        r@ == redact_query(url@),
{
    let q = ['?'];
    assert(q@ == seq!['?']);
    let whole = slice_of(url, 0, url.len());
    assert(whole@ == url@);
    let Some((base, query)) = split_once_exec(url, &q) else {
        return whole;
    };
    let pairs = split_char_exec(&query, '&');
    let mut shown: Vec<Vec<char>> = Vec::new();
    let mut i: usize = 0;
    while i < pairs.len()
        invariant
            i <= pairs.len(),
            views(shown@) == views(pairs@).take(i as int).map_values(|p: Seq<char>| redact_pair(p)),
        decreases pairs.len() - i,
    {
        let p = redact_pair_exec(&pairs[i]);
        let ghost before = views(shown@);
        let ghost pv = p@;
        shown.push(p);
        assert(views(shown@) =~= before.push(pv));
        i = i + 1;
        assert(views(pairs@).take(i as int).map_values(|p: Seq<char>| redact_pair(p)) =~= views(
            pairs@,
        ).take((i - 1) as int).map_values(|p: Seq<char>| redact_pair(p)).push(pv));
    }
    assert(views(pairs@).take(pairs.len() as int) == views(pairs@));
    let amp = ['&'];
    assert(amp@ == seq!['&']);
    let joined = join_exec(&shown, &amp);
    let mut out = base;
    out.push('?');
    push_all(&mut out, &joined);
    assert(out@ =~= redact_query(url@));
    out
}

/// A URL fit for a log: credentials and secret query values become `***`.
pub fn redact_url(url: &str) -> (r: String)
    ensures
        r@ == redact_url_spec(url@),
{
    let v = chars_of(url);
    let without_userinfo = redact_userinfo_exec(&v);
    let redacted = redact_query_exec(&without_userinfo);
    string_of(&redacted)
}

} // verus!
