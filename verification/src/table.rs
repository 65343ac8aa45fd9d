use vstd::prelude::*;

use crate::http::ProcessViewDto;
use crate::presenter::{
    format_clock, format_notice, format_pid, format_resources, format_restarts,
    format_sandbox_flags, format_uptime, missing, network_flag, notice_text, pad_chars, pad_text,
    pid_text, read_flag, resources_text, restarts_text, uptime_text, write_flag, EMPTY_NOTICE,
    clock_shape, offset_shape, FOUR_DIGIT_YEAR_MAX_MS,
};
use crate::text::{
    chars_of, decimal, join, join_exec, lex_lt, precedes, push_decimal, string_of, trim_end,
    trim_end_exec, views,
};

verus! {

/// How much a listing of services shows.
#[derive(Clone, Copy, Debug, PartialEq, Eq, Structural)]
pub enum Listing {
    Compact,
    Full,
}

impl Listing {
    pub open spec fn column_count(self) -> nat {
        match self {
            Listing::Compact => 9,
            Listing::Full => 10,
        }
    }

    fn columns(self) -> (r: usize)
        ensures
            r == self.column_count(),
    {
        match self {
            Listing::Compact => 9,
            Listing::Full => 10,
        }
    }
}

// ---------------------------------------------------------------------------
// The cells of a listing.
// ---------------------------------------------------------------------------

/// The header row; `label` is the local time offset shown beside `next`.
pub open spec fn header_cells(listing: Listing, label: Seq<char>) -> Seq<Seq<char>> {
    match listing {
        Listing::Compact => seq![
            "id"@,
            "name"@,
            "status"@,
            "\u{21ba}"@,
            "uptime"@,
            "rss/cpu"@,
            "next"@ + label,
            "W/R/N"@,
            Seq::<char>::empty(),
        ],
        Listing::Full => seq![
            "id"@,
            "name"@,
            "pid"@,
            "status"@,
            "\u{21ba}"@,
            "uptime"@,
            "rss/cpu"@,
            "next"@ + label,
            "W/R/N"@,
            Seq::<char>::empty(),
        ],
    }
}

/// The row of one service; `clock` is the local time of its next run.
pub open spec fn row_cells(view: ProcessViewDto, listing: Listing, clock: Seq<char>) -> Seq<
    Seq<char>,
> {
    let head = seq![decimal(view.pm_id as nat), view.name@];
    let head = if listing == Listing::Full {
        head.push(pid_text(view.pid))
    } else {
        head
    };
    head + seq![
        view.status@,
        restarts_text(view.unstable_restarts),
        uptime_text(view.uptime_ms),
        resources_text(view.rss_kib, view.cpu_tenths),
        clock,
        seq![
            write_flag(view.sandbox_mode@),
            read_flag(view.sandbox_read@),
            network_flag(view.sandbox_network),
        ],
        notice_text(view),
    ]
}

fn headers(listing: Listing, label: &str) -> (r: Vec<Vec<char>>)
    ensures
        views(r@) == header_cells(listing, label@),
{
    let mut next = chars_of("next");
    crate::text::push_str(&mut next, label);
    let mut cells: Vec<Vec<char>> = Vec::new();
    cells.push(chars_of("id"));
    cells.push(chars_of("name"));
    if listing == Listing::Full {
        cells.push(chars_of("pid"));
    }
    cells.push(chars_of("status"));
    cells.push(chars_of("\u{21ba}"));
    cells.push(chars_of("uptime"));
    cells.push(chars_of("rss/cpu"));
    cells.push(next);
    cells.push(chars_of("W/R/N"));
    cells.push(Vec::new());
    assert(views(cells@) =~= header_cells(listing, label@));
    cells
}

fn row_of(view: &ProcessViewDto, listing: Listing, clock: &str) -> (r: Vec<Vec<char>>)
    ensures
        views(r@) == row_cells(*view, listing, clock@),
{
    let mut cells: Vec<Vec<char>> = Vec::new();
    let mut id: Vec<char> = Vec::new();
    push_decimal(&mut id, view.pm_id as u64);
    cells.push(id);
    cells.push(chars_of(&view.name));
    if listing == Listing::Full {
        cells.push(chars_of(&format_pid(view.pid)));
    }
    cells.push(chars_of(&view.status));
    cells.push(chars_of(&format_restarts(view.unstable_restarts)));
    cells.push(chars_of(&format_uptime(view.uptime_ms)));
    cells.push(chars_of(&format_resources(view.rss_kib, view.cpu_tenths)));
    cells.push(chars_of(clock));
    cells.push(
        chars_of(&format_sandbox_flags(&view.sandbox_mode, &view.sandbox_read, view.sandbox_network)),
    );
    cells.push(chars_of(&format_notice(view)));
    assert(views(cells@) =~= row_cells(*view, listing, clock@));
    cells
}

// ---------------------------------------------------------------------------
// Order of the rows.
// ---------------------------------------------------------------------------

/// `order` with `i` placed after every index whose name does not come after
/// the name of `i`.
pub open spec fn insert_by_name(order: Seq<int>, names: Seq<Seq<char>>, i: int) -> Seq<int>
    decreases order.len(),
{
    if order.len() == 0 {
        seq![i]
    } else if lex_lt(names[i], names[order.last()]) {
        insert_by_name(order.drop_last(), names, i).push(order.last())
    } else {
        order.push(i)
    }
}

/// The indices `0..n`, in the order of a stable sort of their names.
pub open spec fn sorted_by_name(names: Seq<Seq<char>>, n: nat) -> Seq<int>
    decreases n,
{
    if n == 0 {
        Seq::empty()
    } else {
        insert_by_name(sorted_by_name(names, (n - 1) as nat), names, n - 1)
    }
}

pub open spec fn indices(order: Seq<usize>) -> Seq<int> {
    order.map_values(|x: usize| x as int)
}

fn insert_in_order(order: &mut Vec<usize>, names: &Vec<Vec<char>>, i: usize)
    requires
        i < names.len(),
        forall|k: int| 0 <= k < old(order).len() ==> old(order)[k] < names.len(),
    ensures
        indices(final(order)@) == insert_by_name(indices(old(order)@), views(names@), i as int),
        forall|k: int| 0 <= k < final(order).len() ==> final(order)[k] < names.len(),
{
    let ghost s = indices(order@);
    let ghost nm = views(names@);
    let mut j: usize = order.len();
    assert(s.take(j as int) == s);
    assert(s.skip(j as int) =~= Seq::<int>::empty());
    assert(insert_by_name(s, nm, i as int) =~= insert_by_name(s.take(j as int), nm, i as int)
        + s.skip(j as int));
    while j > 0 && precedes(&names[i], &names[order[j - 1]])
        invariant
            j <= order.len(),
            i < names.len(),
            s == indices(order@),
            nm == views(names@),
            forall|k: int| 0 <= k < order.len() ==> order[k] < names.len(),
            insert_by_name(s, nm, i as int) == insert_by_name(s.take(j as int), nm, i as int)
                + s.skip(j as int),
        decreases j,
    {
        proof {
            let t = s.take(j as int);
            assert(t.last() == s[j - 1]);
            assert(t.drop_last() =~= s.take(j - 1));
            assert(nm[i as int] == names@[i as int]@);
            assert(nm[s[j - 1]] == names@[order@[j - 1] as int]@);
            assert(insert_by_name(t, nm, i as int) == insert_by_name(s.take(j - 1), nm, i as int)
                .push(s[j - 1]));
            assert(s.skip(j - 1) =~= seq![s[j - 1]] + s.skip(j as int));
            assert(insert_by_name(s.take(j - 1), nm, i as int).push(s[j - 1]) + s.skip(j as int)
                =~= insert_by_name(s.take(j - 1), nm, i as int) + s.skip(j - 1));
        }
        j = j - 1;
    }
    proof {
        let t = s.take(j as int);
        if j == 0 {
            assert(t =~= Seq::<int>::empty());
        } else {
            assert(t.last() == s[j - 1]);
            assert(nm[i as int] == names@[i as int]@);
            assert(nm[s[j - 1]] == names@[order@[j - 1] as int]@);
            assert(!lex_lt(nm[i as int], nm[t.last()]));
        }
        assert(insert_by_name(t, nm, i as int) =~= t.push(i as int));
    }
    order.insert(j, i);
    proof {
        assert(indices(order@) =~= s.take(j as int).push(i as int) + s.skip(j as int));
    }
}

fn order_by_name(names: &Vec<Vec<char>>) -> (r: Vec<usize>)
    ensures
        indices(r@) == sorted_by_name(views(names@), names.len() as nat),
        forall|k: int| 0 <= k < r.len() ==> r[k] < names.len(),
{
    let mut order: Vec<usize> = Vec::new();
    let mut i: usize = 0;
    assert(indices(order@) =~= Seq::<int>::empty());
    while i < names.len()
        invariant
            i <= names.len(),
            indices(order@) == sorted_by_name(views(names@), i as nat),
            forall|k: int| 0 <= k < order.len() ==> order[k] < names.len(),
        decreases names.len() - i,
    {
        insert_in_order(&mut order, names, i);
        i = i + 1;
    }
    order
}

// ---------------------------------------------------------------------------
// Widths and lines.
// ---------------------------------------------------------------------------

pub open spec fn grid(rows: Seq<Vec<Vec<char>>>) -> Seq<Seq<Seq<char>>> {
    rows.map_values(|row: Vec<Vec<char>>| views(row@))
}

/// The number of characters of the widest cell of column `c`.
pub open spec fn column_width(rows: Seq<Seq<Seq<char>>>, c: int) -> nat
    decreases rows.len(),
{
    if rows.len() == 0 {
        0
    } else {
        let rest = column_width(rows.drop_last(), c);
        let last = rows.last();
        if 0 <= c < last.len() && last[c].len() > rest {
            last[c].len()
        } else {
            rest
        }
    }
}

pub open spec fn column_widths(rows: Seq<Seq<Seq<char>>>, columns: nat) -> Seq<nat> {
    Seq::new(columns, |c: int| column_width(rows, c))
}

pub open spec fn naturals(widths: Seq<usize>) -> Seq<nat> {
    widths.map_values(|w: usize| w as nat)
}

fn measure_columns(rows: &Vec<Vec<Vec<char>>>, columns: usize) -> (r: Vec<usize>)
    ensures
        naturals(r@) == column_widths(grid(rows@), columns as nat),
{
    let mut widths: Vec<usize> = Vec::new();
    let mut c: usize = 0;
    while c < columns
        invariant
            c <= columns,
            widths.len() == c,
            forall|k: int| 0 <= k < c ==> widths[k] == 0,
        decreases columns - c,
    {
        widths.push(0);
        c = c + 1;
    }
    let mut r: usize = 0;
    while r < rows.len()
        invariant
            r <= rows.len(),
            widths.len() == columns,
            forall|k: int|
                0 <= k < columns ==> widths[k] as nat == #[trigger] column_width(
                    grid(rows@).take(r as int),
                    k,
                ),
        decreases rows.len() - r,
    {
        let row = &rows[r];
        let ghost before = grid(rows@).take(r as int);
        let ghost after = grid(rows@).take(r + 1);
        proof {
            assert(after.drop_last() =~= before);
            assert(after.last() == views(row@));
        }
        let mut k: usize = 0;
        while k < columns
            invariant
                r < rows.len(),
                row == &rows[r as int],
                k <= columns,
                widths.len() == columns,
                after.drop_last() == before,
                after.last() == views(row@),
                after.len() > 0,
                forall|m: int|
                    0 <= m < k ==> widths[m] as nat == #[trigger] column_width(after, m),
                forall|m: int|
                    k <= m < columns ==> widths[m] as nat == #[trigger] column_width(before, m),
            decreases columns - k,
        {
            assert(widths[k as int] as nat == column_width(before, k as int));
            proof {
                assert(views(row@).len() == row.len());
                if k < row.len() {
                    assert(views(row@)[k as int] == row@[k as int]@);
                }
            }
            if k < row.len() {
                let n = row[k].len();
                if n > widths[k] {
                    widths.set(k, n);
                }
            }
            assert(widths[k as int] as nat == column_width(after, k as int));
            k = k + 1;
        }
        r = r + 1;
    }
    assert(grid(rows@).take(rows.len() as int) =~= grid(rows@));
    assert(naturals(widths@) =~= column_widths(grid(rows@), columns as nat));
    widths
}

/// The cells of a row, each padded to the width of its column.
pub open spec fn padded_cells(row: Seq<Seq<char>>, widths: Seq<nat>) -> Seq<Seq<char>> {
    let n = if row.len() < widths.len() {
        row.len()
    } else {
        widths.len()
    };
    Seq::new(n, |c: int| pad_text(row[c], widths[c]))
}

/// A row as a line: padded cells with a space between, trailing blanks dropped.
pub open spec fn line_text(row: Seq<Seq<char>>, widths: Seq<nat>) -> Seq<char> {
    trim_end(join(padded_cells(row, widths), seq![' ']))
}

fn join_row(row: &Vec<Vec<char>>, widths: &Vec<usize>) -> (r: Vec<char>)
    ensures
        r@ == line_text(views(row@), naturals(widths@)),
{
    let n = if row.len() < widths.len() {
        row.len()
    } else {
        widths.len()
    };
    let mut cells: Vec<Vec<char>> = Vec::new();
    let mut c: usize = 0;
    while c < n
        invariant
            c <= n,
            n <= row.len(),
            n <= widths.len(),
            cells.len() == c,
            forall|m: int|
                0 <= m < c ==> (#[trigger] cells[m])@ == pad_text(
                    row[m]@,
                    widths[m] as nat,
                ),
        decreases n - c,
    {
        cells.push(pad_chars(&row[c], widths[c]));
        c = c + 1;
    }
    assert(views(cells@) =~= padded_cells(views(row@), naturals(widths@)));
    let gap = [' '];
    assert(gap@ =~= seq![' ']);
    let joined = join_exec(&cells, &gap);
    trim_end_exec(&joined)
}

// ---------------------------------------------------------------------------
// The listing.
// ---------------------------------------------------------------------------

pub open spec fn names_of(views: Seq<ProcessViewDto>) -> Seq<Seq<char>> {
    views.map_values(|v: ProcessViewDto| v.name@)
}

/// The header row, then a row per service in the order of their names.
pub open spec fn table_rows(
    views: Seq<ProcessViewDto>,
    listing: Listing,
    label: Seq<char>,
    clocks: Seq<Seq<char>>,
) -> Seq<Seq<Seq<char>>> {
    let order = sorted_by_name(names_of(views), views.len());
    seq![header_cells(listing, label)] + Seq::new(
        order.len(),
        |k: int| row_cells(views[order[k]], listing, clocks[order[k]]),
    )
}

/// The text of a listing: its rows as aligned lines, or a notice when no
/// service is managed.
pub open spec fn table_text(
    views: Seq<ProcessViewDto>,
    listing: Listing,
    label: Seq<char>,
    clocks: Seq<Seq<char>>,
) -> Seq<char> {
    if views.len() == 0 {
        EMPTY_NOTICE@
    } else {
        let rows = table_rows(views, listing, label, clocks);
        let widths = column_widths(rows, listing.column_count());
        join(Seq::new(rows.len(), |r: int| line_text(rows[r], widths)), seq!['\n'])
    }
}

/// A listing of services, given the time offset label for the header and,
/// for each service in `views`, the local time of its next run.
pub fn render_table_with(
    views: &[ProcessViewDto],
    listing: Listing,
    label: &str,
    clocks: &Vec<String>,
) -> (r: String)
    requires
        clocks.len() == views.len(),
    ensures
        r@ == table_text(views@, listing, label@, clocks.deep_view()),
{
    if views.len() == 0 {
        return EMPTY_NOTICE.to_string();
    }
    let mut names: Vec<Vec<char>> = Vec::new();
    let mut i: usize = 0;
    while i < views.len()
        invariant
            i <= views.len(),
            crate::text::views(names@) == names_of(views@).take(i as int),
        decreases views.len() - i,
    {
        let ghost before = crate::text::views(names@);
        let name = chars_of(&views[i].name);
        assert(name@ == names_of(views@)[i as int]);
        names.push(name);
        assert(crate::text::views(names@) =~= before.push(name@));
        assert(names_of(views@).take(i + 1) =~= names_of(views@).take(i as int).push(name@));
        i = i + 1;
    }
    assert(names_of(views@).take(views.len() as int) =~= names_of(views@));
    let order = order_by_name(&names);
    let ghost spec_order = sorted_by_name(names_of(views@), views@.len());
    let ghost spec_rows = table_rows(views@, listing, label@, clocks.deep_view());
    let mut rows: Vec<Vec<Vec<char>>> = Vec::new();
    rows.push(headers(listing, label));
    let mut k: usize = 0;
    while k < order.len()
        invariant
            k <= order.len(),
            clocks.len() == views.len(),
            names.len() == views.len(),
            indices(order@) == spec_order,
            spec_order == sorted_by_name(names_of(views@), views@.len()),
            spec_rows == table_rows(views@, listing, label@, clocks.deep_view()),
            forall|m: int| 0 <= m < order.len() ==> order[m] < names.len(),
            grid(rows@) == spec_rows.take(k + 1),
        decreases order.len() - k,
    {
        let at = order[k];
        let row = row_of(&views[at], listing, &clocks[at]);
        proof {
            assert(spec_order[k as int] == at as int);
            assert(clocks.deep_view()[at as int] == clocks[at as int]@);
        }
        let ghost before = grid(rows@);
        proof {
            let order_seq = sorted_by_name(names_of(views@), views@.len());
            assert(order_seq == spec_order);
            assert(spec_order.len() == order.len());
            assert(spec_order[k as int] == order@[k as int] as int);
            assert(spec_rows.len() == order.len() + 1);
            assert(spec_rows[k + 1] == row_cells(
                views@[order_seq[k as int]],
                listing,
                clocks.deep_view()[order_seq[k as int]],
            ));
            assert(views@[at as int] == views[at as int]);
            assert(crate::text::views(row@) == spec_rows[k + 1]);
        }
        rows.push(row);
        assert(grid(rows@) =~= before.push(crate::text::views(row@)));
        assert(spec_rows.take(k + 2) =~= spec_rows.take(k + 1).push(spec_rows[k + 1]));
        k = k + 1;
    }
    assert(spec_rows.take(order.len() + 1) =~= spec_rows);
    let widths = measure_columns(&rows, listing.columns());
    let mut lines: Vec<Vec<char>> = Vec::new();
    let mut r: usize = 0;
    while r < rows.len()
        invariant
            r <= rows.len(),
            grid(rows@) == spec_rows,
            naturals(widths@) == column_widths(spec_rows, listing.column_count()),
            lines.len() == r,
            forall|m: int|
                0 <= m < r ==> (#[trigger] lines[m])@ == line_text(
                    spec_rows[m],
                    column_widths(spec_rows, listing.column_count()),
                ),
        decreases rows.len() - r,
    {
        let line = join_row(&rows[r], &widths);
        proof {
            assert(spec_rows[r as int] == crate::text::views(rows@[r as int]@));
        }
        lines.push(line);
        r = r + 1;
    }
    let nl = ['\n'];
    assert(nl@ =~= seq!['\n']);
    assert(crate::text::views(lines@) =~= Seq::new(
        spec_rows.len(),
        |m: int| line_text(spec_rows[m], column_widths(spec_rows, listing.column_count())),
    ));
    let joined = join_exec(&lines, &nl);
    string_of(&joined)
}

/// Calls `chrono::Local::now` and formats its offset from UTC with `%:z`.
/// Claimed, from chrono's source: `%:z` writes a sign, the hours and the
/// minutes of the offset as two digits each, with a colon between them. Which
/// offset comes out depends on the host's time zone and the date, and is not
/// claimed. chrono panics when the host's zone data cannot give an offset;
/// nothing here can rule that out.
#[verifier::external_body]
fn local_offset() -> (r: String)
    ensures
        offset_shape(r@),
{
    chrono::Local::now().format("%:z").to_string()
}

/// The local offset from UTC in brackets, as the header of a listing shows it.
pub fn local_offset_label() -> (r: String)
    ensures
        exists|offset: Seq<char>| offset_shape(offset) && r@ == seq!['('] + offset + seq![')'],
{
    let offset = local_offset();
    let mut out: Vec<char> = Vec::new();
    out.push('(');
    crate::text::push_str(&mut out, &offset);
    out.push(')');
    assert(out@ =~= seq!['('] + offset@ + seq![')']);
    string_of(&out)
}

/// What holds of a clock cell whatever the host's time zone: `-` without an
/// instant, else `hh:mm` or, for an instant the host cannot place, `-`.
pub open spec fn clock_fits(at_ms: Option<u64>, clock: Seq<char>) -> bool {
    &&& at_ms is None ==> clock == missing()
    &&& at_ms matches Some(ms) ==> (ms > i64::MAX ==> clock == missing())
    &&& at_ms matches Some(ms) ==> (ms <= FOUR_DIGIT_YEAR_MAX_MS ==> clock_shape(clock))
    &&& clock == missing() || clock_shape(clock)
}

/// What holds of a listing whatever the host's time zone: `text` is the
/// listing of `views` for some offset label and some clock of each service.
pub open spec fn listed(
    views: Seq<ProcessViewDto>,
    listing: Listing,
    label: Seq<char>,
    clocks: Seq<Seq<char>>,
    text: Seq<char>,
) -> bool {
    &&& exists|offset: Seq<char>| offset_shape(offset) && label == seq!['('] + offset + seq![')']
    &&& clocks.len() == views.len()
    &&& forall|i: int| 0 <= i < views.len() ==> clock_fits(views[i].next_fire_ms, #[trigger] clocks[i])
    &&& text == table_text(views, listing, label, clocks)
}

/// A listing of services, sorted by name, with the local time of each next run.
pub fn render_table(views: &[ProcessViewDto], listing: Listing) -> (r: String)
    ensures
        views.len() == 0 ==> r@ == EMPTY_NOTICE@,
        exists|label: Seq<char>, clocks: Seq<Seq<char>>| listed(views@, listing, label, clocks, r@),
{
    let label = local_offset_label();
    let mut clocks: Vec<String> = Vec::new();
    let mut i: usize = 0;
    while i < views.len()
        invariant
            i <= views.len(),
            clocks.len() == i,
            forall|m: int| 0 <= m < i ==> clock_fits(views@[m].next_fire_ms, #[trigger] clocks[m]@),
        decreases views.len() - i,
    {
        let clock = format_clock(views[i].next_fire_ms);
        clocks.push(clock);
        i = i + 1;
    }
    let r = render_table_with(views, listing, &label, &clocks);
    proof {
        let cv = clocks.deep_view();
        assert forall|m: int| 0 <= m < views@.len() implies clock_fits(views@[m].next_fire_ms, #[trigger] cv[m]) by {
            assert(cv[m] == clocks[m]@);
        }
        assert(listed(views@, listing, label@, cv, r@));
    }
    r
}

} // verus!
