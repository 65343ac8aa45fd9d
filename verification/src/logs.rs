use vstd::prelude::*;

use crate::text::{chars_of, lines, lines_exec, push_str, string_of, views};

verus! {

/// The bytes read from the end of a log at a time when looking for its last lines.
pub const TAIL_CHUNK_BYTES: u64 = 65536;

/// What a rotated log's copy is called after: the log's path and this suffix.
pub const BACKUP_SUFFIX: &'static str = ".1";

/// Why a log could not be emptied.
#[derive(Debug)]
pub struct LogClearError {
    pub path: String,
    pub reason: String,
}

/// Why a log could not be read.
#[derive(Debug)]
pub struct LogReadError {
    pub path: String,
    pub reason: String,
}

/// Rotates service logs by copying each oversized log aside and emptying it.
#[derive(Clone, Copy, Debug, Default)]
pub struct CopyTruncateRotator;

/// The refusal to read the log at `path`.
pub fn read_error(path: &str, reason: &str) -> (r: LogReadError)
    ensures
        r.path@ == path@,
        r.reason@ == reason@,
{
    LogReadError { path: path.to_string(), reason: reason.to_string() }
}

/// Where a rotated log's copy goes.
pub fn backup_path(path: &str) -> (r: String)
    ensures
        r@ == path@ + BACKUP_SUFFIX@,
{
    let mut out = chars_of(path);
    push_str(&mut out, BACKUP_SUFFIX);
    string_of(&out)
}

/// Whether a log of `bytes` bytes is rotated when logs may hold `max_bytes`.
pub fn oversized(bytes: u64, max_bytes: u64) -> (r: bool)
    ensures
        r == (bytes > max_bytes),
{
    bytes > max_bytes
}

/// The last `count` lines of `content`, or all of them when there are fewer.
pub open spec fn last_lines(content: Seq<char>, count: nat) -> Seq<Seq<char>> {
    let all = lines(content);
    if all.len() <= count {
        all
    } else {
        all.skip(all.len() - count)
    }
}

/// The number of line breaks in a text.
pub open spec fn newline_chars(s: Seq<char>) -> nat
    decreases s.len(),
{
    if s.len() == 0 {
        0
    } else {
        newline_chars(s.drop_last()) + if s.last() == '\n' {
            1nat
        } else {
            0nat
        }
    }
}

/// The last `count` lines of a log's text, in order.
pub fn tail_lines(content: &str, count: usize) -> (r: Vec<String>)
    ensures
        r.deep_view() == last_lines(content@, count as nat),
{
    let text = chars_of(content);
    let all = lines_exec(&text);
    let first = if all.len() <= count {
        0
    } else {
        all.len() - count
    };
    let mut r: Vec<String> = Vec::new();
    let mut i: usize = first;
    while i < all.len()
        invariant
            first <= i <= all.len(),
            views(all@) == lines(content@),
            r.deep_view() == views(all@).subrange(first as int, i as int),
        decreases all.len() - i,
    {
        let line = string_of(&all[i]);
        let ghost before = r.deep_view();
        assert(line@ == views(all@)[i as int]);
        r.push(line);
        assert(r.deep_view() =~= before.push(line@));
        assert(views(all@).subrange(first as int, i + 1) =~= views(all@).subrange(
            first as int,
            i as int,
        ).push(views(all@)[i as int]));
        i = i + 1;
    }
    assert(views(all@).subrange(first as int, all.len() as int) =~= last_lines(
        content@,
        count as nat,
    ));
    r
}

/// The number of newline bytes in `bytes`.
pub open spec fn newline_count(bytes: Seq<u8>) -> nat
    decreases bytes.len(),
{
    if bytes.len() == 0 {
        0
    } else {
        newline_count(bytes.drop_last()) + if bytes.last() == 10 {
            1nat
        } else {
            0nat
        }
    }
}

/// How many line breaks a buffer holds.
pub fn line_breaks(buffer: &[u8]) -> (r: usize)
    ensures
        r == newline_count(buffer@),
{
    let mut n: usize = 0;
    let mut i: usize = 0;
    while i < buffer.len()
        invariant
            i <= buffer.len(),
            n == newline_count(buffer@.take(i as int)),
            n <= i,
        decreases buffer.len() - i,
    {
        assert(buffer@.take(i + 1).drop_last() =~= buffer@.take(i as int));
        if buffer[i] == 10 {
            n = n + 1;
        }
        i = i + 1;
    }
    assert(buffer@.take(buffer.len() as int) =~= buffer@);
    n
}

/// The next chunk to read backwards from `start` while the buffer holds no
/// more than `count` line breaks: its new start and its length; `None` once
/// the start of the file is reached or enough lines are in hand.
pub fn next_chunk(start: u64, breaks: usize, count: usize) -> (r: Option<(u64, u64)>)
    ensures
        start == 0 || breaks > count <==> r is None,
        r matches Some((from, step)) ==> step == (if start < TAIL_CHUNK_BYTES {
            start
        } else {
            TAIL_CHUNK_BYTES
        }) && from == start - step,
{
    if start == 0 || breaks > count {
        return None;
    }
    let step = if start < TAIL_CHUNK_BYTES {
        start
    } else {
        TAIL_CHUNK_BYTES
    };
    Some((start - step, step))
}

/// Whether a follower must read its log again from the start: the log was
/// replaced, or it shrank below what was already read.
pub fn must_restart(rotated: bool, len: u64, offset: u64) -> (r: bool)
    ensures
        r == (rotated || len < offset),
{
    rotated || len < offset
}

/// The bytes of `lines`, each followed by a newline.
pub open spec fn with_newlines(lines: Seq<Seq<u8>>) -> Seq<u8>
    decreases lines.len(),
{
    if lines.len() == 0 {
        Seq::empty()
    } else {
        with_newlines(lines.drop_last()) + lines.last().push(10u8)
    }
}

pub open spec fn no_newline(bytes: Seq<u8>) -> bool {
    forall|i: int| 0 <= i < bytes.len() ==> bytes[i] != 10
}

pub open spec fn byte_views(v: Seq<Vec<u8>>) -> Seq<Seq<u8>> {
    v.map_values(|x: Vec<u8>| x@)
}

/// Takes the complete lines off the front of `pending`, without their
/// newlines, and leaves the unfinished rest.
pub fn take_complete_lines(pending: &mut Vec<u8>) -> (r: Vec<Vec<u8>>)
    ensures
        with_newlines(byte_views(r@)) + final(pending)@ == old(pending)@,
        no_newline(final(pending)@),
        forall|i: int| 0 <= i < r.len() ==> no_newline(#[trigger] r@[i]@),
{
    let ghost original = pending@;
    let mut lines: Vec<Vec<u8>> = Vec::new();
    let mut line: Vec<u8> = Vec::new();
    let mut i: usize = 0;
    while i < pending.len()
        invariant
            pending@ == original,
            i <= pending.len(),
            with_newlines(byte_views(lines@)) + line@ == original.take(i as int),
            no_newline(line@),
            forall|k: int| 0 <= k < lines.len() ==> no_newline(#[trigger] lines@[k]@),
        decreases pending.len() - i,
    {
        let b = pending[i];
        assert(original.take(i + 1) =~= original.take(i as int).push(b));
        if b == 10 {
            let ghost before = byte_views(lines@);
            let done = line;
            let ghost dv = done@;
            lines.push(done);
            line = Vec::new();
            assert(byte_views(lines@) =~= before.push(dv));
            assert(byte_views(lines@).drop_last() =~= before);
            assert(with_newlines(byte_views(lines@)) == with_newlines(before) + dv.push(10u8));
            assert(with_newlines(byte_views(lines@)) + line@ =~= original.take(i + 1));
        } else {
            line.push(b);
            assert(with_newlines(byte_views(lines@)) + line@ =~= original.take(i + 1));
        }
        i = i + 1;
    }
    assert(original.take(pending.len() as int) =~= original);
    *pending = line;
    lines
}

/// Adds what was appended to a followed log to the unfinished rest, and
/// takes off the lines that are now complete.
pub fn absorb_appended(pending: &mut Vec<u8>, appended: &[u8]) -> (r: Vec<Vec<u8>>)
    ensures
        with_newlines(byte_views(r@)) + final(pending)@ == old(pending)@ + appended@,
        no_newline(final(pending)@),
        forall|i: int| 0 <= i < r.len() ==> no_newline(#[trigger] r@[i]@),
{
    let mut i: usize = 0;
    let ghost before = pending@;
    while i < appended.len()
        invariant
            i <= appended.len(),
            pending@ == before + appended@.take(i as int),
        decreases appended.len() - i,
    {
        pending.push(appended[i]);
        i = i + 1;
        assert(pending@ =~= before + appended@.take(i as int));
    }
    assert(appended@.take(appended.len() as int) =~= appended@);
    take_complete_lines(pending)
}

/// The complete lines of `bytes`, each without its newline, and what follows
/// the last newline.
pub open spec fn split_lines(bytes: Seq<u8>) -> (Seq<Seq<u8>>, Seq<u8>)
    decreases bytes.len(),
{
    if bytes.len() == 0 {
        (Seq::empty(), Seq::empty())
    } else {
        let (lines, rest) = split_lines(bytes.drop_last());
        if bytes.last() == 10 {
            (lines.push(rest), Seq::empty())
        } else {
            (lines, rest.push(bytes.last()))
        }
    }
}

/// Lines without newlines, each followed by one, then a rest without a
/// newline: that is how `split_lines` cuts those bytes, and no other way.
pub proof fn lemma_split_lines_unique(lines: Seq<Seq<u8>>, rest: Seq<u8>)
    requires
        no_newline(rest),
        forall|i: int| 0 <= i < lines.len() ==> no_newline(#[trigger] lines[i]),
    ensures
        split_lines(with_newlines(lines) + rest) == (lines, rest),
    decreases lines.len(), rest.len(),
{
    let b = with_newlines(lines) + rest;
    if rest.len() > 0 {
        assert(b.drop_last() =~= with_newlines(lines) + rest.drop_last());
        lemma_split_lines_unique(lines, rest.drop_last());
        assert(b.last() == rest.last());
        assert(rest.drop_last().push(rest.last()) =~= rest);
    } else if lines.len() > 0 {
        let init = lines.drop_last();
        assert forall|i: int| 0 <= i < init.len() implies no_newline(#[trigger] init[i]) by {
            assert(init[i] == lines[i]);
        }
        assert(no_newline(lines.last())) by {
            assert(lines.last() == lines[lines.len() - 1]);
        }
        assert(b =~= with_newlines(init) + lines.last().push(10u8));
        assert(b.drop_last() =~= with_newlines(init) + lines.last());
        lemma_split_lines_unique(init, lines.last());
        assert(init.push(lines.last()) =~= lines);
    } else {
        assert(b =~= Seq::<u8>::empty());
    }
}

/// The bytes of two runs of lines are those of the first run followed by
/// those of the second.
pub proof fn lemma_with_newlines_concat(a: Seq<Seq<u8>>, b: Seq<Seq<u8>>)
    ensures
        with_newlines(a + b) == with_newlines(a) + with_newlines(b),
    decreases b.len(),
{
    if b.len() == 0 {
        assert(a + b =~= a);
    } else {
        lemma_with_newlines_concat(a, b.drop_last());
        assert((a + b).drop_last() =~= a + b.drop_last());
        assert((a + b).last() == b.last());
    }
}

/// What `String::from_utf8_lossy` makes of `bytes`.
pub uninterp spec fn lossy_utf8(bytes: Seq<u8>) -> Seq<char>;

/// Calls `String::from_utf8_lossy` and takes the text it gives: the bytes
/// read as UTF-8, each invalid sequence written as U+FFFD. Claimed: the text
/// depends on the bytes alone.
#[verifier::external_body]
fn lossy_text(bytes: &[u8]) -> (r: String)
    ensures
        r@ == lossy_utf8(bytes@),
{
    String::from_utf8_lossy(bytes).into_owned()
}

/// A line's bytes without a carriage return before its line feed.
pub open spec fn strip_cr_bytes(line: Seq<u8>) -> Seq<u8> {
    if line.len() > 0 && line.last() == 13 {
        line.drop_last()
    } else {
        line
    }
}

/// The lines of a log's bytes, as `str::lines` cuts text: each complete line
/// without its line ending, then what follows the last line feed when
/// anything does.
pub open spec fn byte_lines(bytes: Seq<u8>) -> Seq<Seq<u8>> {
    let (complete, rest) = split_lines(bytes);
    complete.map_values(|l: Seq<u8>| strip_cr_bytes(l)) + if rest.len() > 0 {
        seq![rest]
    } else {
        Seq::empty()
    }
}

/// The last `count` of `all`, or all of them when there are fewer.
pub open spec fn last_of<A>(all: Seq<A>, count: nat) -> Seq<A> {
    if all.len() <= count {
        all
    } else {
        all.skip(all.len() - count)
    }
}

/// The last `count` lines of a log's bytes, each read as text.
pub open spec fn tail_text(bytes: Seq<u8>, count: nat) -> Seq<Seq<char>> {
    last_of(byte_lines(bytes), count).map_values(|l: Seq<u8>| lossy_utf8(l))
}

/// How `split_lines` cuts bytes: its lines and rest hold no line feed, and
/// put back together they are the bytes; there is one line per line feed.
pub proof fn lemma_split_lines_sound(bytes: Seq<u8>)
    ensures
        with_newlines(split_lines(bytes).0) + split_lines(bytes).1 == bytes,
        no_newline(split_lines(bytes).1),
        forall|i: int|
            0 <= i < split_lines(bytes).0.len() ==> no_newline(#[trigger] split_lines(bytes).0[i]),
        split_lines(bytes).0.len() == newline_count(bytes),
    decreases bytes.len(),
{
    if bytes.len() > 0 {
        let init = bytes.drop_last();
        lemma_split_lines_sound(init);
        let (ls, rest) = split_lines(init);
        assert(bytes =~= init.push(bytes.last()));
        assert(with_newlines(ls) + rest == init);
        if bytes.last() == 10 {
            let nls = ls.push(rest);
            assert(nls.drop_last() =~= ls);
            assert(with_newlines(nls) =~= with_newlines(ls) + rest.push(10u8));
            assert(with_newlines(ls) + rest.push(10u8) =~= (with_newlines(ls) + rest).push(10u8));
            assert(with_newlines(nls) + Seq::<u8>::empty() =~= bytes);
            assert forall|i: int| 0 <= i < nls.len() implies no_newline(#[trigger] nls[i]) by {
                if i < ls.len() {
                    assert(nls[i] == ls[i]);
                }
            }
        } else {
            assert(with_newlines(ls) + rest.push(bytes.last()) =~= (with_newlines(ls) + rest).push(
                bytes.last(),
            ));
        }
    }
}

/// Bytes read from the end of a log: their lines, the last `count` of them,
/// each read as text.
pub fn tail_of_bytes(buffer: &[u8], count: usize) -> (r: Vec<String>)
    ensures
        r.deep_view() == tail_text(buffer@, count as nat),
{
    let mut pending: Vec<u8> = Vec::new();
    let mut i: usize = 0;
    while i < buffer.len()
        invariant
            i <= buffer.len(),
            pending@ == buffer@.take(i as int),
        decreases buffer.len() - i,
    {
        pending.push(buffer[i]);
        i = i + 1;
        assert(pending@ =~= buffer@.take(i as int));
    }
    assert(buffer@.take(buffer.len() as int) =~= buffer@);
    let complete = take_complete_lines(&mut pending);
    proof {
        lemma_split_lines_unique(byte_views(complete@), pending@);
    }
    let mut lines: Vec<Vec<u8>> = Vec::new();
    let mut k: usize = 0;
    while k < complete.len()
        invariant
            k <= complete.len(),
            lines.len() == k,
            forall|m: int| 0 <= m < k ==> #[trigger] lines@[m]@ == strip_cr_bytes(complete@[m]@),
        decreases complete.len() - k,
    {
        let line = &complete[k];
        let mut kept: Vec<u8> = Vec::new();
        let mut end: usize = line.len();
        if end > 0 && line[end - 1] == 13 {
            end = end - 1;
        }
        let mut j: usize = 0;
        while j < end
            invariant
                j <= end <= line.len(),
                kept@ == line@.take(j as int),
            decreases end - j,
        {
            kept.push(line[j]);
            j = j + 1;
            assert(kept@ =~= line@.take(j as int));
        }
        assert(kept@ =~= strip_cr_bytes(line@));
        lines.push(kept);
        k = k + 1;
    }
    if pending.len() > 0 {
        lines.push(pending);
    }
    let ghost all = byte_lines(buffer@);
    proof {
        assert(byte_views(lines@) =~= all);
    }
    let first: usize = if lines.len() <= count {
        0
    } else {
        lines.len() - count
    };
    let mut r: Vec<String> = Vec::new();
    let mut m: usize = first;
    while m < lines.len()
        invariant
            first <= m <= lines.len(),
            byte_views(lines@) == all,
            first == (if all.len() <= count { 0 } else { all.len() - count }),
            r.deep_view() == all.subrange(first as int, m as int).map_values(
                |l: Seq<u8>| lossy_utf8(l),
            ),
        decreases lines.len() - m,
    {
        let text = lossy_text(lines[m].as_slice());
        let ghost before = r.deep_view();
        r.push(text);
        proof {
            assert(all[m as int] == lines@[m as int]@);
            assert(r.deep_view() =~= before.push(text@));
            assert(all.subrange(first as int, m + 1).map_values(|l: Seq<u8>| lossy_utf8(l))
                =~= all.subrange(first as int, m as int).map_values(|l: Seq<u8>| lossy_utf8(l)).push(
                lossy_utf8(all[m as int]),
            ));
        }
        m = m + 1;
    }
    proof {
        assert(all.subrange(first as int, all.len() as int) =~= last_of(all, count as nat));
    }
    r
}

} // verus!
