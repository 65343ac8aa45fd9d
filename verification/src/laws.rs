use vstd::prelude::*;

use crate::apps_file::{dedup, owned_roots, writable_defaults};
use crate::domain::SandboxMode;
use crate::env_file::{bare_home, braced_home, env_text, expand_bare_home, is_env_key};
use crate::inline::{
    diff_spec, diff_step, diff_upto, encode_entry, escape_body, escape_char, items, line_at, quote,
};
use crate::apps_file::AppEntryView;
use crate::loader::{first_yaml_unsafe, lookup, substitute, unnested_close, EnvReadView, LoadFault};
use crate::logs::{
    byte_lines, last_of, lemma_split_lines_sound, newline_count, strip_cr_bytes, tail_text,
    last_lines, newline_chars, lemma_split_lines_unique, lemma_with_newlines_concat, no_newline, split_lines,
    with_newlines,
};
use crate::paths::{apps_dir_of, xdg_root, Pm3Roots};
use crate::path::join_path;
use crate::config::{telemetry_fault, ConfigFault, TelemetryConfig};
use crate::program::{
    fold_home_spec, fold_service_cwd_spec, home_placeholder, service_cwd_name,
    service_cwd_placeholder,
};
use crate::table::{insert_by_name, sorted_by_name};
use crate::text::{ends_with, split_once, find, find_from, lemma_find_from_bounds, lemma_find_from_first, occurs_at, lex_lt, lemma_lex_asymmetric, lemma_lex_irreflexive, lemma_lex_total,
    lemma_lex_transitive, lines, starts_with, strip_cr,
    is_white, replace_all, trim, trim_end, trim_start};

verus! {

// ---------------------------------------------------------------------------
// Roots of a sandbox.
// ---------------------------------------------------------------------------

/// Dropping repeats keeps every root that was listed and adds none.
pub proof fn law_dedup_keeps_members(s: Seq<Seq<char>>, x: Seq<char>)
    ensures
        dedup(s).contains(x) <==> s.contains(x),
    decreases s.len(),
{
    if s.len() > 0 {
        law_dedup_keeps_members(s.drop_last(), x);
        if s.drop_last().contains(x) {
            let k = choose|k: int| 0 <= k < s.drop_last().len() && s.drop_last()[k] == x;
            assert(s[k] == x);
        }
        if s.contains(x) && x != s.last() {
            let k = choose|k: int| 0 <= k < s.len() && s[k] == x;
            assert(s.drop_last()[k] == x);
        }
        let d = dedup(s.drop_last());
        if !d.contains(s.last()) {
            if d.push(s.last()).contains(x) && x != s.last() {
                let k = choose|k: int| 0 <= k < d.push(s.last()).len() && d.push(s.last())[k] == x;
                assert(d[k] == x);
            }
            if d.contains(x) {
                let k = choose|k: int| 0 <= k < d.len() && d[k] == x;
                assert(d.push(s.last())[k] == x);
            }
            if x == s.last() {
                assert(d.push(s.last())[d.len() as int] == x);
            }
        }
    }
}

/// After repeats are dropped no root is listed twice.
pub proof fn law_dedup_distinct(s: Seq<Seq<char>>)
    ensures
        forall|i: int, j: int|
            0 <= i < j < dedup(s).len() ==> dedup(s)[i] != dedup(s)[j],
    decreases s.len(),
{
    if s.len() > 0 {
        law_dedup_distinct(s.drop_last());
        let d = dedup(s.drop_last());
        if !d.contains(s.last()) {
            assert forall|i: int, j: int| 0 <= i < j < d.push(s.last()).len() implies d.push(
                s.last(),
            )[i] != d.push(s.last())[j] by {
                if j == d.len() {
                    if d[i] == s.last() {
                        assert(d.contains(s.last()));
                    }
                }
            }
        }
    }
}

/// pm3's own home and configuration directories are always among the roots
/// no service may read, whenever they are named.
pub proof fn law_pm3_directories_hidden(home_dir: Seq<char>, cfg_dir: Seq<char>)
    ensures
        home_dir.len() > 0 ==> owned_roots(home_dir, cfg_dir).contains(home_dir),
        cfg_dir.len() > 0 ==> owned_roots(home_dir, cfg_dir).contains(cfg_dir),
{
    let listed = seq![home_dir, cfg_dir];
    let kept = listed.filter(|x: Seq<char>| x.len() > 0);
    reveal_with_fuel(Seq::filter, 3);
    assert(listed.drop_last() =~= seq![home_dir]);
    assert(seq![home_dir].drop_last() =~= Seq::<Seq<char>>::empty());
    if home_dir.len() > 0 {
        assert(kept.contains(home_dir)) by {
            if cfg_dir.len() > 0 {
                assert(kept =~= seq![home_dir, cfg_dir]);
                assert(kept[0] == home_dir);
            } else {
                assert(kept =~= seq![home_dir]);
                assert(kept[0] == home_dir);
            }
        }
        law_dedup_keeps_members(kept, home_dir);
    }
    if cfg_dir.len() > 0 {
        assert(kept.contains(cfg_dir)) by {
            if home_dir.len() > 0 {
                assert(kept =~= seq![home_dir, cfg_dir]);
                assert(kept[1] == cfg_dir);
            } else {
                assert(kept =~= seq![cfg_dir]);
                assert(kept[0] == cfg_dir);
            }
        }
        law_dedup_keeps_members(kept, cfg_dir);
    }
}

/// A workspace-writing service may write its own working directory; a
/// service in any other mode gets no directory to write by default.
pub proof fn law_workspace_write_owns_cwd(
    mode: SandboxMode,
    cwd: Seq<char>,
    logs_dir: Seq<char>,
    tmp_dir: Option<Seq<char>>,
)
    ensures
        mode == SandboxMode::WorkspaceWrite && cwd.len() > 0 ==> writable_defaults(
            mode,
            cwd,
            logs_dir,
            tmp_dir,
        ).contains(cwd),
        mode != SandboxMode::WorkspaceWrite ==> writable_defaults(mode, cwd, logs_dir, tmp_dir).len()
            == 0,
{
    if mode == SandboxMode::WorkspaceWrite && cwd.len() > 0 {
        let listed = match tmp_dir {
            Some(t) => seq![cwd, logs_dir, t],
            None => seq![cwd, logs_dir],
        };
        let kept = listed.filter(|x: Seq<char>| x.len() > 0);
        assert(kept.contains(cwd)) by {
            assert(listed[0] == cwd);
            assert(listed.contains(cwd));
            broadcast use vstd::seq_lib::group_filter_ensures;

        }
        law_dedup_keeps_members(kept, cwd);
    }
}

// ---------------------------------------------------------------------------
// Texts.
// ---------------------------------------------------------------------------

/// A text compared with itself has no differing line.
pub proof fn law_diff_of_same_text_is_empty(text: Seq<char>)
    ensures
        diff_spec(text, text).len() == 0,
{
    let ls = lines(text);
    assert forall|n: nat| n <= ls.len() implies diff_upto(ls, ls, n).len() == 0 by {
        lemma_diff_upto_same(ls, n);
    }
}

proof fn lemma_diff_upto_same(ls: Seq<Seq<char>>, n: nat)
    ensures
        diff_upto(ls, ls, n).len() == 0,
    decreases n,
{
    if n > 0 {
        lemma_diff_upto_same(ls, (n - 1) as nat);
        assert(diff_step(ls, ls, n - 1).len() == 0);
    }
}

/// A text without a `${` passes substitution unchanged, whatever the
/// environment holds.
pub proof fn law_plain_text_is_not_substituted(
    raw: Seq<char>,
    env: Seq<(Seq<char>, EnvReadView)>,
)
    requires
        find(raw, seq!['$', '{']) is None,
    ensures
        substitute(raw, env) == Ok::<Seq<char>, LoadFault>(raw),
{
}

/// A path under the home directory is written relative to `${HOME}`.
pub proof fn law_fold_home_under_home(home: Seq<char>, relative: Seq<char>)
    requires
        home.len() > 0,
    ensures
        fold_home_spec(home + seq!['/'] + relative, Some(home)) == home_placeholder() + seq!['/']
            + relative,
{
    let value = home + seq!['/'] + relative;
    assert(value.take(home.len() as int) =~= home);
    assert(starts_with(value, home));
    let suffix = value.skip(home.len() as int);
    assert(suffix =~= seq!['/'] + relative);
    assert(suffix[0] == '/');
    assert(suffix.skip(1) =~= relative);
}

/// Following a log keeps at most the asked number of lines, and they are
/// the last lines of the text, in order.
pub proof fn law_tail_is_a_suffix(content: Seq<char>, count: nat)
    ensures
        last_lines(content, count).len() <= count,
        last_lines(content, count).len() <= lines(content).len(),
        last_lines(content, count) == lines(content).skip(
            lines(content).len() - last_lines(content, count).len(),
        ),
{
    let all = lines(content);
    if all.len() <= count {
        assert(all.skip(0) =~= all);
    }
}

// ---------------------------------------------------------------------------
// Layout of pm3's directories.
// ---------------------------------------------------------------------------

/// When every directory is one root, apps live at that root itself.
pub proof fn law_single_root_holds_apps(roots: Pm3Roots)
    requires
        roots.single_spec(),
    ensures
        apps_dir_of(roots) == roots.state@,
{
}

// ---------------------------------------------------------------------------
// Order of a listing.
// ---------------------------------------------------------------------------

/// Whether no row of `order` has a name that comes before the name of a
/// row above it.
pub open spec fn ordered_by_name(order: Seq<int>, names: Seq<Seq<char>>) -> bool {
    forall|k: int, l: int|
        0 <= k < l < order.len() ==> !lex_lt(names[#[trigger] order[l]], names[#[trigger] order[k]])
}

proof fn lemma_insert_shape(order: Seq<int>, names: Seq<Seq<char>>, i: int)
    ensures
        exists|j: int|
            0 <= j <= order.len() && insert_by_name(order, names, i) == order.insert(j, i),
    decreases order.len(),
{
    if order.len() == 0 {
        assert(insert_by_name(order, names, i) =~= order.insert(0, i));
    } else if lex_lt(names[i], names[order.last()]) {
        lemma_insert_shape(order.drop_last(), names, i);
        let j = choose|j: int|
            0 <= j <= order.drop_last().len() && insert_by_name(order.drop_last(), names, i)
                == order.drop_last().insert(j, i);
        assert(order.drop_last().insert(j, i).push(order.last()) =~= order.insert(j, i));
    } else {
        assert(order.push(i) =~= order.insert(order.len() as int, i));
    }
}

proof fn lemma_insert_members(order: Seq<int>, names: Seq<Seq<char>>, i: int, x: int)
    ensures
        insert_by_name(order, names, i).contains(x) <==> (x == i || order.contains(x)),
        insert_by_name(order, names, i).len() == order.len() + 1,
{
    lemma_insert_shape(order, names, i);
    let j = choose|j: int|
        0 <= j <= order.len() && insert_by_name(order, names, i) == order.insert(j, i);
    let r = order.insert(j, i);
    if r.contains(x) {
        let k = choose|k: int| 0 <= k < r.len() && r[k] == x;
        if k < j {
            assert(order[k] == x);
        } else if k > j {
            assert(order[k - 1] == x);
        }
    }
    if order.contains(x) {
        let k = choose|k: int| 0 <= k < order.len() && order[k] == x;
        if k < j {
            assert(r[k] == x);
        } else {
            assert(r[k + 1] == x);
        }
    }
    if x == i {
        assert(r[j] == x);
    }
}

proof fn lemma_insert_ordered(order: Seq<int>, names: Seq<Seq<char>>, i: int)
    requires
        ordered_by_name(order, names),
    ensures
        ordered_by_name(insert_by_name(order, names, i), names),
    decreases order.len(),
{
    if order.len() == 0 {
    } else if lex_lt(names[i], names[order.last()]) {
        let rest = order.drop_last();
        let last = order.last();
        assert(ordered_by_name(rest, names)) by {
            assert forall|k: int, l: int| 0 <= k < l < rest.len() implies !lex_lt(
                names[#[trigger] rest[l]],
                names[#[trigger] rest[k]],
            ) by {
                assert(rest[l] == order[l] && rest[k] == order[k]);
            }
        }
        lemma_insert_ordered(rest, names, i);
        let inner = insert_by_name(rest, names, i);
        let r = inner.push(last);
        assert forall|k: int, l: int| 0 <= k < l < r.len() implies !lex_lt(
            names[#[trigger] r[l]],
            names[#[trigger] r[k]],
        ) by {
            if l == r.len() - 1 {
                let e = inner[k];
                assert(inner.contains(e));
                lemma_insert_members(rest, names, i, e);
                if e == i {
                    lemma_lex_asymmetric(names[i], names[last]);
                } else {
                    let m = choose|m: int| 0 <= m < rest.len() && rest[m] == e;
                    assert(order[m] == e);
                    assert(order[order.len() - 1] == last);
                    assert(!lex_lt(names[order[order.len() - 1]], names[order[m]]));
                }
            } else {
                assert(r[l] == inner[l] && r[k] == inner[k]);
            }
        }
    } else {
        let r = order.push(i);
        let last = order.last();
        assert forall|k: int, l: int| 0 <= k < l < r.len() implies !lex_lt(
            names[#[trigger] r[l]],
            names[#[trigger] r[k]],
        ) by {
            if l == r.len() - 1 {
                let e = order[k];
                assert(r[k] == e);
                if k < order.len() - 1 {
                    assert(!lex_lt(names[order[order.len() - 1]], names[order[k]]));
                    if lex_lt(names[i], names[e]) {
                        if names[i] == names[last] {
                        } else {
                            lemma_lex_total(names[i], names[last]);
                            lemma_lex_transitive(names[last], names[i], names[e]);
                        }
                    }
                }
            } else {
                assert(r[l] == order[l] && r[k] == order[k]);
            }
        }
    }
}

/// The order of a listing holds every service exactly once, and no service
/// is listed above one whose name comes before its own.
pub proof fn law_listing_sorted_by_name(names: Seq<Seq<char>>, n: nat)
    ensures
        sorted_by_name(names, n).len() == n,
        forall|k: int|
            0 <= k < n ==> 0 <= #[trigger] sorted_by_name(names, n)[k] < n,
        forall|k: int, l: int|
            0 <= k < l < n ==> sorted_by_name(names, n)[k] != sorted_by_name(names, n)[l],
        ordered_by_name(sorted_by_name(names, n), names),
    decreases n,
{
    if n > 0 {
        let m = (n - 1) as nat;
        law_listing_sorted_by_name(names, m);
        let prev = sorted_by_name(names, m);
        let i = n - 1;
        lemma_insert_shape(prev, names, i);
        let j = choose|j: int|
            0 <= j <= prev.len() && insert_by_name(prev, names, i) == prev.insert(j, i);
        let r = prev.insert(j, i);
        assert(sorted_by_name(names, n) == r);
        assert forall|k: int| 0 <= k < n implies 0 <= #[trigger] r[k] < n by {
            if k < j {
                assert(r[k] == prev[k]);
            } else if k > j {
                assert(r[k] == prev[k - 1]);
            }
        }
        assert forall|k: int, l: int| 0 <= k < l < n implies r[k] != r[l] by {
            if k < j && l < j {
                assert(r[k] == prev[k] && r[l] == prev[l]);
            } else if k < j && l == j {
                assert(r[k] == prev[k]);
            } else if k < j && l > j {
                assert(r[k] == prev[k] && r[l] == prev[l - 1]);
            } else if k == j {
                assert(r[l] == prev[l - 1]);
            } else {
                assert(r[k] == prev[k - 1] && r[l] == prev[l - 1]);
            }
        }
        lemma_insert_ordered(prev, names, i);
    }
}


/// Whether rows of equal names keep the order of their indices.
pub open spec fn ties_in_order(order: Seq<int>, names: Seq<Seq<char>>) -> bool {
    forall|k: int, l: int|
        0 <= k < l < order.len() && names[#[trigger] order[k]] == names[#[trigger] order[l]]
            ==> order[k] < order[l]
}

proof fn lemma_insert_keeps_ties(order: Seq<int>, names: Seq<Seq<char>>, i: int)
    requires
        ties_in_order(order, names),
        forall|k: int| 0 <= k < order.len() ==> #[trigger] order[k] < i,
    ensures
        ties_in_order(insert_by_name(order, names, i), names),
    decreases order.len(),
{
    if order.len() == 0 {
    } else if lex_lt(names[i], names[order.last()]) {
        let rest = order.drop_last();
        let last = order.last();
        assert(ties_in_order(rest, names)) by {
            assert forall|k: int, l: int|
                0 <= k < l < rest.len() && names[#[trigger] rest[k]] == names[#[trigger] rest[l]]
                    implies rest[k] < rest[l] by {
                assert(rest[l] == order[l] && rest[k] == order[k]);
            }
        }
        assert forall|k: int| 0 <= k < rest.len() implies #[trigger] rest[k] < i by {
            assert(rest[k] == order[k]);
        }
        lemma_insert_keeps_ties(rest, names, i);
        let inner = insert_by_name(rest, names, i);
        let r = inner.push(last);
        lemma_insert_members(rest, names, i, 0);
        assert forall|k: int, l: int|
            0 <= k < l < r.len() && names[#[trigger] r[k]] == names[#[trigger] r[l]] implies r[k]
                < r[l] by {
            if l == r.len() - 1 {
                let e = inner[k];
                assert(inner.contains(e));
                lemma_insert_members(rest, names, i, e);
                if e == i {
                    lemma_lex_irreflexive(names[last]);
                } else {
                    let m = choose|m: int| 0 <= m < rest.len() && rest[m] == e;
                    assert(order[m] == e);
                    assert(order[order.len() - 1] == last);
                    assert(names[order[m]] == names[order[order.len() - 1]]);
                }
            } else {
                assert(r[l] == inner[l] && r[k] == inner[k]);
            }
        }
    } else {
        let r = order.push(i);
        assert forall|k: int, l: int|
            0 <= k < l < r.len() && names[#[trigger] r[k]] == names[#[trigger] r[l]] implies r[k]
                < r[l] by {
            if l == r.len() - 1 {
                assert(r[k] == order[k]);
            } else {
                assert(r[l] == order[l] && r[k] == order[k]);
            }
        }
    }
}

/// Services with the same name are listed in the order they were given.
pub proof fn law_listing_keeps_ties_in_order(names: Seq<Seq<char>>, n: nat)
    ensures
        ties_in_order(sorted_by_name(names, n), names),
    decreases n,
{
    if n > 0 {
        let m = (n - 1) as nat;
        law_listing_keeps_ties_in_order(names, m);
        law_listing_sorted_by_name(names, m);
        let prev = sorted_by_name(names, m);
        assert forall|k: int| 0 <= k < prev.len() implies #[trigger] prev[k] < n - 1 by {}
        lemma_insert_keeps_ties(prev, names, n - 1);
    }
}


// ---------------------------------------------------------------------------
// Placeholders.
// ---------------------------------------------------------------------------

/// A text that can stand between `${` and `}` as it is: no braces, no colon
/// and no line break.
pub open spec fn plain_text(s: Seq<char>) -> bool {
    forall|k: int|
        0 <= k < s.len() ==> #[trigger] s[k] != '{' && s[k] != '}' && s[k] != ':' && s[k] != '\n'
}

proof fn lemma_find_absent(s: Seq<char>, p: Seq<char>, i: nat)
    requires
        p.len() > 0,
        forall|k: int| 0 <= k < s.len() ==> s[k] != p[0],
    ensures
        find_from(s, p, i) is None,
    decreases s.len() + 1 - i,
{
    if i + p.len() <= s.len() {
        if occurs_at(s, p, i as int) {
            assert(s.subrange(i as int, (i + p.len()) as int)[0] == s[i as int]);
        }
        lemma_find_absent(s, p, i + 1);
    }
}

proof fn lemma_close_at(line: Seq<char>, i: int, n: int)
    requires
        0 <= i <= n < line.len(),
        forall|k: int| i <= k < n ==> line[k] != '{' && line[k] != '}',
        line[n] == '}',
    ensures
        unnested_close(line, i, 0) == Some(n as nat),
    decreases n - i,
{
    if i < n {
        lemma_close_at(line, i + 1, n);
    }
}

proof fn lemma_empty_is_not_substituted(env: Seq<(Seq<char>, EnvReadView)>)
    ensures
        substitute(Seq::empty(), env) == Ok::<Seq<char>, LoadFault>(Seq::empty()),
{
    assert(find(Seq::<char>::empty(), seq!['$', '{']) is None);
}

/// A placeholder whose variable is set to a value that cannot change the
/// YAML document is replaced by that value.
pub proof fn law_set_variable_fills_placeholder(
    name: Seq<char>,
    value: Seq<char>,
    env: Seq<(Seq<char>, EnvReadView)>,
)
    requires
        name.len() > 0,
        plain_text(name),
        lookup(env, name) == EnvReadView::Present(value),
        first_yaml_unsafe(value) is None,
    ensures
        substitute(seq!['$', '{'] + name + seq!['}'], env) == Ok::<Seq<char>, LoadFault>(value),
{
    let open = seq!['$', '{'];
    let raw = open + name + seq!['}'];
    assert(raw.subrange(0, 2) =~= open);
    assert(occurs_at(raw, open, 0));
    assert(find(raw, open) == Some(0nat));
    let body = raw.skip(2);
    assert(body =~= name + seq!['}']);
    assert forall|k: int| 0 <= k < body.len() implies body[k] != seq!['\n'][0] by {
        if k < name.len() {
            assert(body[k] == name[k]);
        }
    }
    lemma_find_absent(body, seq!['\n'], 0);
    assert forall|k: int| 0 <= k < name.len() implies body[k] != '{' && body[k] != '}' by {
        assert(body[k] == name[k]);
    }
    lemma_close_at(body, 0, name.len() as int);
    assert(body.take(name.len() as int) =~= name);
    lemma_find_absent(name, seq![':', '-'], 0);
    lemma_find_absent(name, seq![':'], 0);
    lemma_find_absent(name, seq!['{'], 0);
    assert(body.skip((name.len() + 1) as int) =~= Seq::<char>::empty());
    lemma_empty_is_not_substituted(env);
    assert(raw.take(0) + value =~= value);
}

/// A placeholder whose variable is not set is replaced by the default it
/// declares.
pub proof fn law_unset_variable_takes_default(
    name: Seq<char>,
    default: Seq<char>,
    env: Seq<(Seq<char>, EnvReadView)>,
)
    requires
        name.len() > 0,
        plain_text(name),
        plain_text(default),
        lookup(env, name) == EnvReadView::Unset,
    ensures
        substitute(seq!['$', '{'] + name + seq![':', '-'] + default + seq!['}'], env) == Ok::<
            Seq<char>,
            LoadFault,
        >(default),
{
    let open = seq!['$', '{'];
    let sep = seq![':', '-'];
    let raw = open + name + sep + default + seq!['}'];
    assert(raw.subrange(0, 2) =~= open);
    assert(occurs_at(raw, open, 0));
    assert(find(raw, open) == Some(0nat));
    let body = raw.skip(2);
    let inner = name + sep + default;
    assert(body =~= inner + seq!['}']);
    let n = inner.len() as int;
    assert forall|k: int| 0 <= k < body.len() implies body[k] != seq!['\n'][0] by {
        if k < name.len() {
            assert(body[k] == name[k]);
        } else if k >= name.len() + 2 && k < n {
            assert(body[k] == default[k - name.len() - 2]);
        }
    }
    lemma_find_absent(body, seq!['\n'], 0);
    assert forall|k: int| 0 <= k < n implies body[k] != '{' && body[k] != '}' by {
        if k < name.len() {
            assert(body[k] == name[k]);
        } else if k >= name.len() + 2 {
            assert(body[k] == default[k - name.len() - 2]);
        }
    }
    lemma_close_at(body, 0, n);
    assert(body.take(n) =~= inner);
    let at = name.len();
    assert(inner.subrange(at as int, (at + 2) as int) =~= sep);
    assert(occurs_at(inner, sep, at as int));
    lemma_find_from_first(inner, sep, 0, at);
    lemma_find_from_bounds(inner, sep, 0);
    let k = find_from(inner, sep, 0)->0;
    if k < at {
        assert(inner.subrange(k as int, (k + 2) as int)[0] == inner[k as int]);
        assert(inner[k as int] == name[k as int]);
    }
    assert(k == at);
    assert(inner.take(at as int) =~= name);
    assert(inner.skip((at + 2) as int) =~= default);
    lemma_find_absent(name, seq![':'], 0);
    lemma_find_absent(name, seq!['{'], 0);
    assert(body.skip(n + 1) =~= Seq::<char>::empty());
    lemma_empty_is_not_substituted(env);
    assert(raw.take(0) + default =~= default);
}

proof fn lemma_newline_chars_concat(a: Seq<char>, b: Seq<char>)
    ensures
        newline_chars(a + b) == newline_chars(a) + newline_chars(b),
    decreases b.len(),
{
    if b.len() == 0 {
        assert(a + b =~= a);
    } else {
        lemma_newline_chars_concat(a, b.drop_last());
        assert((a + b).drop_last() =~= a + b.drop_last());
        assert((a + b).last() == b.last());
    }
}

proof fn lemma_no_newline_before(s: Seq<char>, i: int)
    requires
        0 <= i <= s.len(),
        forall|k: int| 0 <= k < i ==> !#[trigger] occurs_at(s, seq!['\n'], k),
    ensures
        newline_chars(s.take(i)) == 0,
    decreases i,
{
    if i > 0 {
        assert(s.take(i).drop_last() =~= s.take(i - 1));
        lemma_no_newline_before(s, i - 1);
        if s[i - 1] == '\n' {
            assert(s.subrange(i - 1, i) =~= seq!['\n']);
            assert(occurs_at(s, seq!['\n'], i - 1));
        }
    }
}

/// A text with at least `c` line breaks has at least `c` lines.
proof fn lemma_lines_at_least(s: Seq<char>)
    ensures
        lines(s).len() >= newline_chars(s),
    decreases s.len(),
{
    let nl = seq!['\n'];
    if s.len() > 0 {
        lemma_find_from_bounds(s, nl, 0);
        match find(s, nl) {
            Some(i) => {
                let i = i as int;
                assert forall|k: int| 0 <= k < i implies !#[trigger] occurs_at(s, nl, k) by {
                    if occurs_at(s, nl, k) {
                        lemma_find_from_first(s, nl, 0, k as nat);
                    }
                }
                lemma_no_newline_before(s, i);
                assert(s =~= s.take(i) + s.skip(i));
                assert(s.skip(i) =~= seq!['\n'] + s.skip(i + 1));
                assert(s.subrange(i, i + 1)[0] == s[i]);
                assert(newline_chars(seq!['\n']) == 1) by {
                    assert(seq!['\n'].drop_last() =~= Seq::<char>::empty());
                    assert(newline_chars(Seq::<char>::empty()) == 0);
                    assert(seq!['\n'].last() == '\n');
                }
                lemma_newline_chars_concat(s.take(i), s.skip(i));
                lemma_newline_chars_concat(seq!['\n'], s.skip(i + 1));
                lemma_lines_at_least(s.skip(i + 1));
            },
            None => {
                assert forall|k: int| 0 <= k < s.len() implies !#[trigger] occurs_at(s, nl, k) by {
                    if occurs_at(s, nl, k) {
                        lemma_find_from_first(s, nl, 0, k as nat);
                    }
                }
                lemma_no_newline_before(s, s.len() as int);
                assert(s.take(s.len() as int) =~= s);
            },
        }
    }
}

/// The lines of a text that a line break splits in two are the lines up to
/// and including that break, then the lines after it.
proof fn lemma_lines_split(x: Seq<char>, y: Seq<char>)
    ensures
        lines(x + seq!['\n'] + y) == lines(x + seq!['\n']) + lines(y),
    decreases x.len(),
{
    let nl = seq!['\n'];
    let whole = x + nl + y;
    let head = x + nl;
    lemma_find_from_bounds(whole, nl, 0);
    lemma_find_from_bounds(head, nl, 0);
    assert(whole.subrange(x.len() as int, x.len() as int + 1) =~= nl);
    assert(head.subrange(x.len() as int, x.len() as int + 1) =~= nl);
    lemma_find_from_first(whole, nl, 0, x.len() as nat);
    lemma_find_from_first(head, nl, 0, x.len() as nat);
    let i = find(whole, nl)->0 as int;
    let j = find(head, nl)->0 as int;
    assert(i == j) by {
        if i < j {
            assert(head.subrange(i, i + 1) =~= whole.subrange(i, i + 1));
            assert(occurs_at(head, nl, i));
            lemma_find_from_first(head, nl, 0, i as nat);
        } else if j < i {
            assert(head.subrange(j, j + 1) =~= whole.subrange(j, j + 1));
            assert(occurs_at(whole, nl, j));
            lemma_find_from_first(whole, nl, 0, j as nat);
        }
    }
    assert(whole.take(i) =~= head.take(i));
    if i == x.len() {
        assert(whole.skip(i + 1) =~= y);
        assert(head.skip(i + 1) =~= Seq::<char>::empty());
        assert(lines(Seq::<char>::empty()) =~= Seq::<Seq<char>>::empty());
        assert(lines(head) =~= seq![strip_cr(head.take(i))]);
        assert(lines(whole) =~= seq![strip_cr(head.take(i))] + lines(y));
    } else {
        let rest = x.skip(i + 1);
        assert(whole.skip(i + 1) =~= rest + nl + y);
        assert(head.skip(i + 1) =~= rest + nl);
        lemma_lines_split(rest, y);
        assert(lines(whole) =~= seq![strip_cr(head.take(i))] + lines(rest + nl + y));
        assert(lines(head) =~= seq![strip_cr(head.take(i))] + lines(rest + nl));
    }
}

/// The last lines of a log are those of any tail of it that holds more line
/// breaks than the lines asked for, or of the whole log: reading it back in
/// chunks until that many breaks are in hand gives the same lines as reading
/// all of it.
pub proof fn law_tail_of_enough_of_the_end(before: Seq<char>, end: Seq<char>, count: nat)
    requires
        before.len() == 0 || newline_chars(end) > count,
    ensures
        last_lines(end, count) == last_lines(before + end, count),
{
    if before.len() == 0 {
        assert(before + end =~= end);
    } else {
        let nl = seq!['\n'];
        lemma_find_from_bounds(end, nl, 0);
        if find(end, nl) is None {
            assert forall|k: int| 0 <= k < end.len() implies !#[trigger] occurs_at(end, nl, k) by {
                if occurs_at(end, nl, k) {
                    lemma_find_from_first(end, nl, 0, k as nat);
                }
            }
            lemma_no_newline_before(end, end.len() as int);
            assert(end.take(end.len() as int) =~= end);
        } else {
            let i = find(end, nl)->0 as int;
            let a = end.take(i);
            let b = end.skip(i + 1);
            assert(end =~= a + nl + b);
            assert(before + end =~= (before + a) + nl + b);
            assert forall|k: int| 0 <= k < i implies !#[trigger] occurs_at(end, nl, k) by {
                if occurs_at(end, nl, k) {
                    lemma_find_from_first(end, nl, 0, k as nat);
                }
            }
            lemma_no_newline_before(end, i);
            assert(newline_chars(nl) == 1) by {
                assert(nl.drop_last() =~= Seq::<char>::empty());
                assert(newline_chars(Seq::<char>::empty()) == 0);
                assert(nl.last() == '\n');
            }
            lemma_newline_chars_concat(a, nl);
            lemma_newline_chars_concat(a + nl, b);
            lemma_lines_at_least(b);
            lemma_lines_split(a, b);
            lemma_lines_split(before + a, b);
            let lb = lines(b);
            let l1 = lines(a + nl) + lb;
            let l2 = lines(before + a + nl) + lb;
            assert(l1.skip(l1.len() - count) =~= lb.skip(lb.len() - count));
            assert(l2.skip(l2.len() - count) =~= lb.skip(lb.len() - count));
        }
    }
}

proof fn lemma_last_of_tail<A>(front: Seq<A>, back: Seq<A>, count: nat)
    requires
        back.len() >= count,
    ensures
        last_of(front + back, count) == last_of(back, count),
{
    let all = front + back;
    if back.len() <= count {
        assert(all.skip(all.len() - count) =~= back);
    } else {
        assert(all.skip(all.len() - count) =~= back.skip(back.len() - count));
    }
}

/// The last lines of a log's bytes, each read as text, are those of any end
/// of it that holds more line feeds than the lines asked for, or of all of
/// it: reading a log back in chunks until more line feeds than the wanted
/// lines are in hand gives the same lines as reading the whole file.
pub proof fn law_tail_text_of_enough_of_the_end(before: Seq<u8>, end: Seq<u8>, count: nat)
    requires
        before.len() == 0 || newline_count(end) > count,
    ensures
        tail_text(end, count) == tail_text(before + end, count),
{
    if before.len() == 0 {
        assert(before + end =~= end);
        return;
    }
    lemma_split_lines_sound(end);
    lemma_split_lines_sound(before);
    let (ly, ry) = split_lines(end);
    let (lx, rx) = split_lines(before);
    let l0 = ly[0];
    let ly1 = ly.skip(1);
    let joined = lx + seq![rx + l0] + ly1;
    assert(ly =~= seq![l0] + ly1);
    lemma_with_newlines_concat(seq![l0], ly1);
    lemma_with_newlines_concat(lx + seq![rx + l0], ly1);
    lemma_with_newlines_concat(lx, seq![rx + l0]);
    assert(with_newlines(seq![l0]) =~= l0.push(10u8)) by {
        assert(seq![l0].drop_last() =~= Seq::<Seq<u8>>::empty());
        assert(with_newlines(Seq::<Seq<u8>>::empty()) =~= Seq::<u8>::empty());
        assert(seq![l0].last() == l0);
        assert(Seq::<u8>::empty() + l0.push(10u8) =~= l0.push(10u8));
    }
    assert(with_newlines(seq![rx + l0]) =~= (rx + l0).push(10u8)) by {
        assert(seq![rx + l0].drop_last() =~= Seq::<Seq<u8>>::empty());
        assert(with_newlines(Seq::<Seq<u8>>::empty()) =~= Seq::<u8>::empty());
        assert(seq![rx + l0].last() == rx + l0);
        assert(Seq::<u8>::empty() + (rx + l0).push(10u8) =~= (rx + l0).push(10u8));
    }
    let wx = with_newlines(lx);
    let w1 = with_newlines(ly1);
    assert(with_newlines(joined) + ry =~= (wx + rx) + ((l0.push(10u8) + w1) + ry));
    assert(with_newlines(joined) + ry == before + end);
    assert(no_newline(rx + l0)) by {
        assert(no_newline(ly[0]));
        assert forall|i: int| 0 <= i < (rx + l0).len() implies (rx + l0)[i] != 10 by {
            if i >= rx.len() {
                assert((rx + l0)[i] == l0[i - rx.len()]);
            }
        }
    }
    assert forall|i: int| 0 <= i < joined.len() implies no_newline(#[trigger] joined[i]) by {
        if i < lx.len() {
            assert(joined[i] == lx[i]);
        } else if i == lx.len() {
            assert(joined[i] == rx + l0);
        } else {
            assert(joined[i] == ly[i - lx.len()]);
        }
    }
    lemma_split_lines_unique(joined, ry);
    let strip = |l: Seq<u8>| strip_cr_bytes(l);
    let rest = if ry.len() > 0 {
        seq![ry]
    } else {
        Seq::<Seq<u8>>::empty()
    };
    let t = ly1.map_values(strip) + rest;
    assert(byte_lines(end) =~= seq![strip_cr_bytes(l0)] + t);
    assert(byte_lines(before + end) =~= (lx.map_values(strip) + seq![strip_cr_bytes(rx + l0)]) + t);
    lemma_last_of_tail(seq![strip_cr_bytes(l0)], t, count);
    lemma_last_of_tail(lx.map_values(strip) + seq![strip_cr_bytes(rx + l0)], t, count);
}

// ---------------------------------------------------------------------------
// Following a log.
// ---------------------------------------------------------------------------

/// A follower that starts at the end of a log and polls twice, as
/// `absorb_appended` takes in what was appended each time, has given the
/// complete lines of everything appended, in order and without their
/// newlines, and holds back exactly what follows the last newline.
pub proof fn law_polls_return_appended_lines(
    first: Seq<u8>,
    lines1: Seq<Seq<u8>>,
    rest1: Seq<u8>,
    second: Seq<u8>,
    lines2: Seq<Seq<u8>>,
    rest2: Seq<u8>,
)
    requires
        with_newlines(lines1) + rest1 == Seq::<u8>::empty() + first,
        no_newline(rest1),
        forall|i: int| 0 <= i < lines1.len() ==> no_newline(#[trigger] lines1[i]),
        with_newlines(lines2) + rest2 == rest1 + second,
        no_newline(rest2),
        forall|i: int| 0 <= i < lines2.len() ==> no_newline(#[trigger] lines2[i]),
    ensures
        split_lines(first) == (lines1, rest1),
        split_lines(first + second) == (lines1 + lines2, rest2),
{
    assert(Seq::<u8>::empty() + first =~= first);
    lemma_split_lines_unique(lines1, rest1);
    lemma_with_newlines_concat(lines1, lines2);
    let w1 = with_newlines(lines1);
    let w2 = with_newlines(lines2);
    assert((w1 + w2) + rest2 =~= w1 + (w2 + rest2));
    assert(w1 + (rest1 + second) =~= (w1 + rest1) + second);
    assert(with_newlines(lines1 + lines2) + rest2 == first + second);
    let all = lines1 + lines2;
    assert forall|i: int| 0 <= i < all.len() implies no_newline(#[trigger] all[i]) by {
        if i < lines1.len() {
            assert(all[i] == lines1[i]);
        } else {
            assert(all[i] == lines2[i - lines1.len()]);
        }
    }
    lemma_split_lines_unique(all, rest2);
}

// ---------------------------------------------------------------------------
// Folding the service directory variable.
// ---------------------------------------------------------------------------

/// Every mention of the variable's name in `w` stands inside `${...}`.
pub open spec fn name_wrapped(w: Seq<char>) -> bool {
    forall|k: int|
        #[trigger] occurs_at(w, service_cwd_name(), k) ==> {
            &&& 2 <= k
            &&& k + 15 < w.len()
            &&& w[k - 2] == '$'
            &&& w[k - 1] == '{'
            &&& w[k + 15] == '}'
        }
}

proof fn lemma_name_letters()
    ensures
        service_cwd_name().len() == 15,
        service_cwd_name()[0] == 'P',
        forall|d: int| 0 < d < 15 ==> #[trigger] service_cwd_name()[d] != 'P',
        forall|d: int|
            0 <= d < 15 ==> #[trigger] service_cwd_name()[d] != '$' && service_cwd_name()[d]
                != '{' && service_cwd_name()[d] != '}',
        service_cwd_placeholder().len() == 18,
        service_cwd_placeholder()[0] == '$',
        service_cwd_placeholder()[1] == '{',
        service_cwd_placeholder()[17] == '}',
        service_cwd_placeholder().subrange(2, 17) == service_cwd_name(),
        forall|d: int| 0 <= d < 18 && d != 2 ==> #[trigger] service_cwd_placeholder()[d] != 'P',
{
    let n = service_cwd_name();
    let p = service_cwd_placeholder();
    assert(p.subrange(2, 17) =~= n);
}

proof fn lemma_occurs_letter(s: Seq<char>, k: int, d: int)
    requires
        occurs_at(s, service_cwd_name(), k),
        0 <= d < 15,
    ensures
        s[k + d] == service_cwd_name()[d],
{
    lemma_name_letters();
    assert(s.subrange(k, k + 15)[d] == s[k + d]);
}

/// The first mention of the name in `v`, with what comes before and after it.
proof fn lemma_first_mention(v: Seq<char>)
    ensures
        split_once(v, service_cwd_name()) is None ==> forall|k: int|
            !#[trigger] occurs_at(v, service_cwd_name(), k),
        find(v, service_cwd_name()) matches Some(i) ==> occurs_at(v, service_cwd_name(), i as int)
            && forall|k: int| 0 <= k < i ==> !#[trigger] occurs_at(v, service_cwd_name(), k),
{
    lemma_find_from_bounds(v, service_cwd_name(), 0);
    assert forall|k: int| #[trigger] occurs_at(v, service_cwd_name(), k) implies find(
        v,
        service_cwd_name(),
    ) matches Some(i) && i <= k by {
        lemma_find_from_first(v, service_cwd_name(), 0, k as nat);
    }
}

/// Text whose every mention is already inside `${...}` folds to itself.
proof fn lemma_fold_keeps_wrapped(w: Seq<char>)
    requires
        name_wrapped(w),
    ensures
        fold_service_cwd_spec(w) == w,
    decreases w.len(),
{
    let n = service_cwd_name();
    lemma_name_letters();
    lemma_first_mention(w);
    match split_once(w, n) {
        None => {},
        Some((head, tail)) => {
            let i = find(w, n)->0 as int;
            assert(occurs_at(w, n, i));
            assert(head =~= w.take(i));
            assert(tail =~= w.skip(i + 15));
            assert(ends_with(head, seq!['$', '{'])) by {
                assert(head.skip(head.len() - 2) =~= seq!['$', '{']);
            }
            assert(starts_with(tail, seq!['}'])) by {
                assert(tail.take(1) =~= seq!['}']);
            }
            assert forall|j: int| #[trigger] occurs_at(tail, n, j) implies {
                &&& 2 <= j
                &&& j + 15 < tail.len()
                &&& tail[j - 2] == '$'
                &&& tail[j - 1] == '{'
                &&& tail[j + 15] == '}'
            } by {
                assert(w.subrange(i + 15 + j, i + 15 + j + 15) =~= tail.subrange(j, j + 15));
                assert(occurs_at(w, n, i + 15 + j));
                if j < 2 {
                    lemma_occurs_letter(w, i, 13 + j);
                    assert(false);
                }
            }
            lemma_fold_keeps_wrapped(tail);
            assert(head + n + tail =~= w);
        },
    }
}

/// Folding leaves a first character that cannot begin the name in place.
proof fn lemma_fold_keeps_first(t: Seq<char>)
    requires
        t.len() > 0,
        t[0] != 'P',
    ensures
        fold_service_cwd_spec(t).len() > 0,
        fold_service_cwd_spec(t)[0] == t[0],
{
    let n = service_cwd_name();
    lemma_name_letters();
    lemma_first_mention(t);
    match split_once(t, n) {
        None => {},
        Some((head, tail)) => {
            let i = find(t, n)->0 as int;
            lemma_occurs_letter(t, i, 0);
            assert(i != 0);
            assert(head =~= t.take(i));
            let r = if ends_with(head, seq!['$', '{']) && starts_with(tail, seq!['}']) {
                n
            } else {
                service_cwd_placeholder()
            };
            assert(fold_service_cwd_spec(t) == head + r + fold_service_cwd_spec(tail));
            assert((head + r + fold_service_cwd_spec(tail))[0] == head[0]);
        },
    }
}

/// Every mention of the name in folded text stands inside `${...}`.
proof fn lemma_fold_wraps(v: Seq<char>)
    ensures
        name_wrapped(fold_service_cwd_spec(v)),
    decreases v.len(),
{
    let n = service_cwd_name();
    lemma_name_letters();
    lemma_first_mention(v);
    match split_once(v, n) {
        None => {},
        Some((head, tail)) => {
            let i = find(v, n)->0 as int;
            assert(occurs_at(v, n, i));
            assert(head =~= v.take(i));
            assert(tail =~= v.skip(i + 15));
            let keep = ends_with(head, seq!['$', '{']) && starts_with(tail, seq!['}']);
            let r = if keep {
                n
            } else {
                service_cwd_placeholder()
            };
            let f = fold_service_cwd_spec(tail);
            lemma_fold_wraps(tail);
            let w = head + r + f;
            assert(fold_service_cwd_spec(v) == w);
            let h = head.len() as int;
            let rl = r.len() as int;
            if keep {
                assert(tail.take(1) == seq!['}']);
                assert(tail[0] == tail.take(1)[0]);
                lemma_fold_keeps_first(tail);
                assert(head.skip(h - 2) == seq!['$', '{']);
                assert(head[h - 2] == head.skip(h - 2)[0]);
                assert(head[h - 1] == head.skip(h - 2)[1]);
            }
            assert forall|k: int| #[trigger] occurs_at(w, n, k) implies {
                &&& 2 <= k
                &&& k + 15 < w.len()
                &&& w[k - 2] == '$'
                &&& w[k - 1] == '{'
                &&& w[k + 15] == '}'
            } by {
                lemma_occurs_letter(w, k, 0);
                if k < h {
                    if k + 15 <= h {
                        assert(v.subrange(k, k + 15) =~= w.subrange(k, k + 15));
                        assert(occurs_at(v, n, k));
                        assert(false);
                    } else {
                        lemma_occurs_letter(w, k, h - k);
                        assert(w[h] == r[0]);
                        assert(false);
                    }
                } else if k < h + rl {
                    assert(w[k] == r[k - h]);
                    if keep {
                        assert(k == h);
                        assert(w[k + 15] == f[0]);
                    } else {
                        assert(k == h + 2);
                    }
                } else {
                    let j = k - h - rl;
                    assert(f.subrange(j, j + 15) =~= w.subrange(k, k + 15));
                    assert(occurs_at(f, n, j));
                    assert(w[k - 2] == f[j - 2]);
                    assert(w[k - 1] == f[j - 1]);
                    assert(w[k + 15] == f[j + 15]);
                }
            }
        },
    }
}

/// Folding the service directory variable twice changes nothing more than
/// folding it once: every mention is already written as a placeholder or
/// stands inside one.
pub proof fn law_fold_service_cwd_is_idempotent(value: Seq<char>)
    ensures
        fold_service_cwd_spec(fold_service_cwd_spec(value)) == fold_service_cwd_spec(value),
{
    lemma_fold_wraps(value);
    lemma_fold_keeps_wrapped(fold_service_cwd_spec(value));
}

// ---------------------------------------------------------------------------
// Environment files.
// ---------------------------------------------------------------------------

proof fn lemma_no_occurrence_no_find(s: Seq<char>, p: Seq<char>)
    requires
        forall|k: int| !#[trigger] occurs_at(s, p, k),
    ensures
        find(s, p) is None,
{
    lemma_find_from_bounds(s, p, 0);
}

/// Writing an absolute home without `$` in place of each `${HOME}` of a
/// text without `$HOME` leaves no `$HOME` behind.
proof fn lemma_braced_home_leaves_no_bare(v: Seq<char>, h: Seq<char>)
    requires
        forall|k: int| !#[trigger] occurs_at(v, bare_home(), k),
        h.len() > 0,
        h[0] == '/',
        forall|i: int| 0 <= i < h.len() ==> #[trigger] h[i] != '$',
    ensures
        forall|k: int| !#[trigger] occurs_at(replace_all(v, braced_home(), h), bare_home(), k),
    decreases v.len(),
{
    let b = bare_home();
    lemma_find_from_bounds(v, braced_home(), 0);
    match split_once(v, braced_home()) {
        None => {},
        Some((head, tail)) => {
            let i = find(v, braced_home())->0 as int;
            assert(head =~= v.take(i));
            assert(tail =~= v.skip(i + 7));
            assert forall|k: int| !#[trigger] occurs_at(tail, b, k) by {
                if occurs_at(tail, b, k) {
                    assert(v.subrange(i + 7 + k, i + 7 + k + 5) =~= tail.subrange(k, k + 5));
                    assert(occurs_at(v, b, i + 7 + k));
                }
            }
            lemma_braced_home_leaves_no_bare(tail, h);
            let rt = replace_all(tail, braced_home(), h);
            let w = head + h + rt;
            assert(replace_all(v, braced_home(), h) == w);
            assert forall|k: int| !#[trigger] occurs_at(w, b, k) by {
                if occurs_at(w, b, k) {
                    assert(w.subrange(k, k + 5)[0] == w[k]);
                    assert(w[k] == '$');
                    let hl = head.len() as int;
                    if k + 5 <= hl {
                        assert(v.subrange(k, k + 5) =~= w.subrange(k, k + 5));
                        assert(occurs_at(v, b, k));
                    } else if k < hl {
                        assert(w.subrange(k, k + 5)[hl - k] == w[hl]);
                        assert(w[hl] == h[0]);
                    } else if k < hl + h.len() {
                        assert(w[k] == h[k - hl]);
                    } else {
                        let j = k - hl - h.len();
                        assert(rt.subrange(j, j + 5) =~= w.subrange(k, k + 5));
                        assert(occurs_at(rt, b, j));
                    }
                }
            }
        },
    }
}

/// A line `KEY=value` whose value is unquoted, has no `$HOME` in it and no
/// white space at its ends declares `KEY` with the value in which every
/// `${HOME}` is the home directory (an absolute path without `$`).
pub proof fn law_env_value_expands_braced_home(key: Seq<char>, value: Seq<char>, home: Seq<char>)
    requires
        is_env_key(key),
        forall|i: int| 0 <= i < value.len() ==> #[trigger] value[i] != '\n',
        value.len() > 0 ==> !is_white(value[0]) && !is_white(value.last()) && value[0] != '\''
            && value[0] != '"',
        forall|k: int| !#[trigger] occurs_at(value, bare_home(), k),
        home.len() > 0,
        home[0] == '/',
        forall|i: int| 0 <= i < home.len() ==> #[trigger] home[i] != '$',
    ensures
        env_text(Some(home), key + seq!['='] + value + seq!['\n']) == Ok::<
            Map<Seq<char>, Seq<char>>,
            crate::env_file::EnvFault,
        >(Map::<Seq<char>, Seq<char>>::empty().insert(key, replace_all(value, braced_home(), home))),
{
    let line = key + seq!['='] + value;
    let text = line + seq!['\n'];
    let nl = seq!['\n'];
    // The text is one line.
    assert(text.subrange(line.len() as int, line.len() as int + 1) =~= nl);
    lemma_find_from_first(text, nl, 0, line.len() as nat);
    lemma_find_from_bounds(text, nl, 0);
    let f = find(text, nl)->0 as int;
    if f < line.len() {
        assert(text.subrange(f, f + 1)[0] == text[f]);
        if f < key.len() {
            assert(text[f] == key[f]);
            if f >= 1 {
                assert(crate::text::is_ascii_alnum(key[f]) || key[f] == '_');
            }
        } else if f == key.len() {
            assert(text[f] == '=');
        } else {
            assert(text[f] == value[f - key.len() - 1]);
        }
    }
    assert(f == line.len());
    assert(text.take(f) =~= line);
    assert(text.skip(f + 1) =~= Seq::<char>::empty());
    assert(line.last() != '\r') by {
        if value.len() > 0 {
            assert(line.last() == value.last());
        } else {
            assert(line.last() == '=');
        }
    }
    assert(strip_cr(line) == line);
    assert(lines(Seq::<char>::empty()) =~= Seq::<Seq<char>>::empty());
    assert(text.len() > 0);
    assert(lines(text) == seq![strip_cr(text.take(f))] + lines(text.skip(f + 1)));
    assert(lines(text) =~= seq![line]);
    // The line needs no trimming and carries a pair.
    assert(!is_white(line[0]));
    assert(trim_start(line) == line);
    assert(!is_white(line.last())) by {
        if value.len() > 0 {
            assert(line.last() == value.last());
        }
    }
    assert(trim(line) == line);
    assert(seq![line].drop_last() =~= Seq::<Seq<char>>::empty());
    assert(seq![line].last() == line);
    // The key ends at the first `=`.
    let eq = seq!['='];
    assert(line.subrange(key.len() as int, key.len() as int + 1) =~= eq);
    lemma_find_from_first(line, eq, 0, key.len() as nat);
    lemma_find_from_bounds(line, eq, 0);
    let g = find(line, eq)->0 as int;
    if g < key.len() {
        assert(line.subrange(g, g + 1)[0] == line[g]);
        assert(line[g] == key[g]);
        if g >= 1 {
            assert(crate::text::is_ascii_alnum(key[g]) || key[g] == '_');
        }
    }
    assert(g == key.len());
    assert(line.take(g) =~= key);
    assert(line.skip(g + 1) =~= value);
    assert(trim_start(key) == key);
    assert(!is_white(key.last())) by {
        let l = key.len() - 1;
        if l >= 1 {
            assert(crate::text::is_ascii_alnum(key[l]) || key[l] == '_');
        }
    }
    assert(trim(key) == key);
    assert(trim(value) == value) by {
        if value.len() > 0 {
            assert(trim_start(value) == value);
        }
    }
    // No `$HOME` is left to expand.
    lemma_braced_home_leaves_no_bare(value, home);
    let replaced = replace_all(value, braced_home(), home);
    lemma_no_occurrence_no_find(replaced, bare_home());
    assert(expand_bare_home(home, replaced) == replaced);
    assert(crate::env_file::fenced(value, '\'') is None);
    assert(crate::env_file::fenced(value, '"') is None);
    assert(crate::env_file::unquote(Some(home), value) == replaced);
    assert(split_once(line, eq) == Some((key, value)));
    assert(crate::env_file::pair_of(Some(home), 1, line) == Ok::<
        (Seq<char>, Seq<char>),
        crate::env_file::EnvFault,
    >((key, replaced)));
    assert(crate::env_file::env_lines(Some(home), Seq::<Seq<char>>::empty()) == Ok::<
        Map<Seq<char>, Seq<char>>,
        crate::env_file::EnvFault,
    >(Map::empty()));
    assert(!crate::env_file::is_blank_or_comment(line));
}

// ---------------------------------------------------------------------------
// Telemetry settings.
// ---------------------------------------------------------------------------

/// With a service name and a known log format, the telemetry settings are
/// accepted exactly when the log level is one of `trace`, `debug`, `info`,
/// `warn` and `error`; any other level is what is refused.
pub proof fn law_telemetry_accepts_the_five_levels(t: TelemetryConfig)
    requires
        t.service_name@.len() > 0,
        t.log_format@ == seq!['j', 's', 'o', 'n'] || t.log_format@ == seq!['p', 'r', 'e', 't', 't', 'y'],
    ensures
        telemetry_fault(t) is None <==> {
            ||| t.log_level@ == seq!['t', 'r', 'a', 'c', 'e']
            ||| t.log_level@ == seq!['d', 'e', 'b', 'u', 'g']
            ||| t.log_level@ == seq!['i', 'n', 'f', 'o']
            ||| t.log_level@ == seq!['w', 'a', 'r', 'n']
            ||| t.log_level@ == seq!['e', 'r', 'r', 'o', 'r']
        },
        telemetry_fault(t) is Some ==> telemetry_fault(t) == Some(
            ConfigFault::InvalidLogLevel(t.log_level@),
        ),
{
    reveal_strlit("trace");
    reveal_strlit("debug");
    reveal_strlit("info");
    reveal_strlit("warn");
    reveal_strlit("error");
    reveal_strlit("json");
    reveal_strlit("pretty");
    let levels = crate::config::valid_log_levels();
    assert(levels[0] =~= seq!['t', 'r', 'a', 'c', 'e']);
    assert(levels[1] =~= seq!['d', 'e', 'b', 'u', 'g']);
    assert(levels[2] =~= seq!['i', 'n', 'f', 'o']);
    assert(levels[3] =~= seq!['w', 'a', 'r', 'n']);
    assert(levels[4] =~= seq!['e', 'r', 'r', 'o', 'r']);
    assert(crate::config::LOG_FORMAT_JSON@ =~= seq!['j', 's', 'o', 'n']);
    assert(crate::config::LOG_FORMAT_PRETTY@ =~= seq!['p', 'r', 'e', 't', 't', 'y']);
    let l = t.log_level@;
    if levels.contains(l) {
        let k = choose|k: int| 0 <= k < levels.len() && levels[k] == l;
        assert(k == 0 || k == 1 || k == 2 || k == 3 || k == 4);
    }
    if l == levels[0] || l == levels[1] || l == levels[2] || l == levels[3] || l == levels[4] {
        if l == levels[0] {
            assert(levels.contains(l));
        } else if l == levels[1] {
            assert(levels[1] == l);
        } else if l == levels[2] {
            assert(levels[2] == l);
        } else if l == levels[3] {
            assert(levels[3] == l);
        } else {
            assert(levels[4] == l);
        }
        assert(levels.contains(l));
    }
}

// ---------------------------------------------------------------------------
// Directories under an XDG base.
// ---------------------------------------------------------------------------

/// When no directory is declared and the XDG base `x` is set to an absolute
/// path, pm3's directory is `x/pm3`, whatever the fallback and the home.
pub proof fn law_xdg_base_decides_the_root(
    declared: Option<Seq<char>>,
    x: Seq<char>,
    fallback: Seq<char>,
    home_env: Option<Seq<char>>,
)
    requires
        declared is None || declared == Some(Seq::<char>::empty()),
        x.len() > 0,
        x[0] == '/',
    ensures
        xdg_root(declared, Some(x), fallback, home_env) == Ok::<
            Seq<char>,
            crate::paths::PathFault,
        >(join_path(x, seq!['p', 'm', '3'])),
{
    reveal_strlit("pm3");
    assert(crate::paths::PM3_SUBDIR@ =~= seq!['p', 'm', '3']);
}

// ---------------------------------------------------------------------------
// Diffs of service files.
// ---------------------------------------------------------------------------

proof fn lemma_diff_upto_holds_step(before: Seq<Seq<char>>, after: Seq<Seq<char>>, n: nat, i: int, x: Seq<char>)
    requires
        0 <= i < n,
        diff_step(before, after, i).contains(x),
    ensures
        diff_upto(before, after, n).contains(x),
    decreases n,
{
    let prev = diff_upto(before, after, (n - 1) as nat);
    let step = diff_step(before, after, n - 1);
    assert(diff_upto(before, after, n) == prev + step);
    if i == n - 1 {
        let k = choose|k: int| 0 <= k < step.len() && step[k] == x;
        assert((prev + step)[prev.len() + k] == x);
    } else {
        lemma_diff_upto_holds_step(before, after, (n - 1) as nat, i, x);
        let k = choose|k: int| 0 <= k < prev.len() && prev[k] == x;
        assert((prev + step)[k] == x);
    }
}

/// A diff reports every line the new text has past the end of the old one,
/// marked `+`, and every line the old text had past the end of the new one,
/// marked `-`; texts whose lines differ give a diff that is not empty.
pub proof fn law_diff_reports_every_changed_position(old_text: Seq<char>, new_text: Seq<char>)
    ensures
        forall|i: int|
            lines(old_text).len() <= i < lines(new_text).len() ==> diff_spec(old_text, new_text).contains(
                seq!['+'] + #[trigger] lines(new_text)[i],
            ),
        forall|i: int|
            lines(new_text).len() <= i < lines(old_text).len() ==> diff_spec(old_text, new_text).contains(
                seq!['-'] + #[trigger] lines(old_text)[i],
            ),
        lines(old_text) != lines(new_text) ==> diff_spec(old_text, new_text).len() > 0,
{
    let b = lines(old_text);
    let a = lines(new_text);
    let n: nat = if b.len() >= a.len() { b.len() } else { a.len() };
    assert forall|i: int| b.len() <= i < a.len() implies diff_spec(old_text, new_text).contains(
        seq!['+'] + #[trigger] a[i],
    ) by {
        let step = diff_step(b, a, i);
        assert(line_at(b, i) is None);
        assert(line_at(a, i) == Some(a[i]));
        assert(step =~= seq![seq!['+'] + a[i]]);
        assert(step[0] == seq!['+'] + a[i]);
        lemma_diff_upto_holds_step(b, a, n, i, seq!['+'] + a[i]);
    }
    assert forall|i: int| a.len() <= i < b.len() implies diff_spec(old_text, new_text).contains(
        seq!['-'] + #[trigger] b[i],
    ) by {
        let step = diff_step(b, a, i);
        assert(line_at(a, i) is None);
        assert(line_at(b, i) == Some(b[i]));
        assert(step =~= seq![seq!['-'] + b[i]]);
        assert(step[0] == seq!['-'] + b[i]);
        lemma_diff_upto_holds_step(b, a, n, i, seq!['-'] + b[i]);
    }
    if b != a {
        let i: int = if b.len() != a.len() {
            if b.len() < a.len() { b.len() as int } else { a.len() as int }
        } else {
            assert(!(b =~= a));
            choose|i: int| 0 <= i < b.len() && b[i] != a[i]
        };
        assert(0 <= i < n);
        assert(line_at(b, i) != line_at(a, i));
        let step = diff_step(b, a, i);
        assert(step.len() > 0);
        lemma_diff_upto_holds_step(b, a, n, i, step[0]);
    }
}

// ---------------------------------------------------------------------------
// Writing a service file.
// ---------------------------------------------------------------------------

proof fn lemma_hex_escape_has_no_newline(c: char)
    requires
        c == '$' || crate::text::is_control(c),
    ensures
        forall|k: int| 0 <= k < crate::inline::hex_escape(c).len() ==> #[trigger] crate::inline::hex_escape(
            c,
        )[k] != '\n',
{
    assert(c as nat == (c as u32) as nat);
    assert((c as nat) < 160);
    let hi = (c as nat) / 16;
    let lo = (c as nat) % 16;
    assert(hi < 10);
    assert(crate::loader::hex_digit_char(hi) != '\n');
    assert(crate::loader::hex_digit_char(lo) != '\n');
}

proof fn lemma_escape_has_no_newline(s: Seq<char>)
    ensures
        forall|k: int| 0 <= k < escape_body(s).len() ==> #[trigger] escape_body(s)[k] != '\n',
    decreases s.len(),
{
    if s.len() > 0 {
        lemma_escape_has_no_newline(s.skip(1));
        let c = s[0];
        let head = escape_char(c);
        assert forall|k: int| 0 <= k < head.len() implies #[trigger] head[k] != '\n' by {
            if c == '$' || crate::text::is_control(c) {
                if !(c == '\\' || c == '"' || c == '\n' || c == '\r' || c == '\t') {
                    lemma_hex_escape_has_no_newline(c);
                }
            }
        }
        let rest = escape_body(s.skip(1));
        assert(escape_body(s) == head + rest);
        assert forall|k: int| 0 <= k < escape_body(s).len() implies #[trigger] escape_body(s)[k]
            != '\n' by {
            if k < head.len() {
                assert(escape_body(s)[k] == head[k]);
            } else {
                assert(escape_body(s)[k] == rest[k - head.len()]);
            }
        }
    }
}

/// The line of one list item: two spaces, a dash, a space and the quoted item.
pub open spec fn item_line(value: Seq<char>) -> Seq<char> {
    seq![' ', ' ', '-', ' '] + quote(value)
}

proof fn lemma_item_line_is_one_line(value: Seq<char>)
    ensures
        forall|k: int| 0 <= k < item_line(value).len() ==> #[trigger] item_line(value)[k] != '\n',
        item_line(value).last() == '"',
{
    lemma_escape_has_no_newline(value);
    let body = escape_body(value);
    let l = item_line(value);
    assert(l =~= seq![' ', ' ', '-', ' ', '"'] + body + seq!['"']);
    assert forall|k: int| 0 <= k < l.len() implies #[trigger] l[k] != '\n' by {
        if 5 <= k < 5 + body.len() {
            assert(l[k] == body[k - 5]);
        }
    }
}

proof fn lemma_items_front(v: Seq<Seq<char>>)
    requires
        v.len() > 0,
    ensures
        items(Seq::empty(), v, false) == item_line(v[0]) + seq!['\n'] + items(
            Seq::empty(),
            v.skip(1),
            false,
        ),
    decreases v.len(),
{
    let e = Seq::<char>::empty();
    if v.len() == 1 {
        assert(v.drop_last() =~= Seq::<Seq<char>>::empty());
        assert(v.skip(1) =~= Seq::<Seq<char>>::empty());
        assert(items(e, v, false) =~= item_line(v[0]) + seq!['\n']);
    } else {
        lemma_items_front(v.drop_last());
        assert(v.drop_last().skip(1) =~= v.skip(1).drop_last());
        assert(v.skip(1).last() == v.last());
        assert(items(e, v, false) =~= item_line(v[0]) + seq!['\n'] + items(e, v.skip(1), false));
    }
}

proof fn lemma_one_line(x: Seq<char>)
    requires
        forall|k: int| 0 <= k < x.len() ==> #[trigger] x[k] != '\n',
        x.len() > 0 ==> x.last() != '\r',
    ensures
        lines(x + seq!['\n']) == seq![x],
{
    let nl = seq!['\n'];
    let t = x + nl;
    assert(t.subrange(x.len() as int, x.len() as int + 1) =~= nl);
    lemma_find_from_first(t, nl, 0, x.len() as nat);
    lemma_find_from_bounds(t, nl, 0);
    let f = find(t, nl)->0 as int;
    if f < x.len() {
        assert(t.subrange(f, f + 1)[0] == t[f]);
        assert(t[f] == x[f]);
    }
    assert(t.take(f) =~= x);
    assert(t.skip(f + 1) =~= Seq::<char>::empty());
    assert(lines(Seq::<char>::empty()) =~= Seq::<Seq<char>>::empty());
    assert(lines(t) == seq![strip_cr(t.take(f))] + lines(t.skip(f + 1)));
    assert(lines(t) =~= seq![x]);
}

/// The lines of a list's items, followed by anything, start with one line
/// per item.
proof fn lemma_item_lines(v: Seq<Seq<char>>, rest: Seq<char>)
    ensures
        lines(items(Seq::empty(), v, false) + rest).len() >= v.len(),
        forall|i: int|
            0 <= i < v.len() ==> lines(items(Seq::empty(), v, false) + rest)[i] == item_line(
                #[trigger] v[i],
            ),
    decreases v.len(),
{
    if v.len() > 0 {
        lemma_items_front(v);
        lemma_item_lines(v.skip(1), rest);
        let l0 = item_line(v[0]);
        let later = items(Seq::empty(), v.skip(1), false) + rest;
        assert(items(Seq::empty(), v, false) + rest =~= l0 + seq!['\n'] + later);
        lemma_lines_split(l0, later);
        lemma_item_line_is_one_line(v[0]);
        lemma_one_line(l0);
        let whole = lines(items(Seq::empty(), v, false) + rest);
        assert(whole == seq![l0] + lines(later));
        assert forall|i: int| 0 <= i < v.len() implies whole[i] == item_line(#[trigger] v[i]) by {
            if i > 0 {
                assert(whole[i] == lines(later)[i - 1]);
                assert(v.skip(1)[i - 1] == v[i]);
            }
        }
    }
}

/// The key line of the dependency list.
pub open spec fn depends_on_key_line() -> Seq<char> {
    seq!['d', 'e', 'p', 'e', 'n', 'd', 's', '_', 'o', 'n', ':', '\n']
}

/// At `p`, a line starts that says `depends_on:`, and the lines after it
/// begin with one item line per dependency, in order.
pub open spec fn dependency_list_at(text: Seq<char>, deps: Seq<Seq<char>>, p: int) -> bool {
    &&& 0 < p
    &&& p + 12 <= text.len()
    &&& text[p - 1] == '\n'
    &&& text.subrange(p, p + 12) == depends_on_key_line()
    &&& lines(text.skip(p + 12)).len() >= deps.len()
    &&& forall|i: int|
        0 <= i < deps.len() ==> #[trigger] lines(text.skip(p + 12))[i] == item_line(deps[i])
}

/// A service file keeps every declared dependency: after a line
/// `depends_on:` comes one line `  - "dependency"` per dependency, in order.
pub proof fn law_encoding_keeps_every_dependency(e: AppEntryView)
    requires
        e.depends_on.len() > 0,
    ensures
        exists|p: int| #[trigger] dependency_list_at(encode_entry(e), e.depends_on, p),
{
    reveal_strlit("name");
    reveal_strlit("depends_on");
    let text = encode_entry(e);
    let first = crate::inline::scalar("name"@, quote(e.name));
    let prefix = first + crate::inline::scalar("script"@, crate::inline::quote_placeheld(e.script))
        + crate::inline::placeheld_text("cwd"@, e.cwd) + crate::inline::sequence(
        Seq::empty(),
        "args"@,
        e.args,
        true,
    );
    let deps = crate::inline::sequence(Seq::empty(), "depends_on"@, e.depends_on, false);
    let list = items(Seq::empty(), e.depends_on, false);
    let after = list + crate::inline::entry_numbers(e) + crate::inline::entry_tail(e);
    assert(deps =~= depends_on_key_line() + list);
    assert(text =~= prefix + depends_on_key_line() + after);
    let p = prefix.len() as int;
    assert(prefix.len() > 0);
    assert(text.subrange(p, p + 12) =~= depends_on_key_line());
    assert(text.skip(p + 12) =~= list + (crate::inline::entry_numbers(e) + crate::inline::entry_tail(
        e,
    )));
    lemma_item_lines(e.depends_on, crate::inline::entry_numbers(e) + crate::inline::entry_tail(e));
    assert(text[p - 1] == prefix.last());
    assert(prefix.last() == '\n') by {
        let args = crate::inline::sequence(Seq::empty(), "args"@, e.args, true);
        let cwd = crate::inline::placeheld_text("cwd"@, e.cwd);
        let script = crate::inline::scalar("script"@, crate::inline::quote_placeheld(e.script));
        if args.len() > 0 {
            assert(e.args.len() > 0);
            assert(args.last() == items(Seq::empty(), e.args, true).last());
            assert(prefix.last() == args.last());
        } else if cwd.len() > 0 {
            assert(prefix =~= first + script + cwd);
            assert(prefix.last() == cwd.last());
        } else {
            assert(prefix =~= first + script);
            assert(prefix.last() == script.last());
        }
    }
    assert(dependency_list_at(text, e.depends_on, p));
}

} // verus!
