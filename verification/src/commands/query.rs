//! The query command: the recorded combos, most frequent first, as a table.

use vstd::prelude::*;
use crate::clt::QueryArgs;
use crate::db::{fetch_records, open_database, passes, report_order, rows_of, KeyRecord, Record, StoreError, StoreErrorKind};
use crate::held::texts;
use crate::text::{render_isize, signed_decimal};

verus! {

/// `n` times the character `c`.
pub open spec fn run_of(c: char, n: int) -> Seq<char> {
    Seq::new(
        if n > 0 {
            n as nat
        } else {
            0
        },
        |i: int| c,
    )
}

/// `t` with spaces behind it up to the width `w`.
pub open spec fn flush_left(t: Seq<char>, w: int) -> Seq<char> {
    t + run_of(' ', w - t.len())
}

/// `t` with spaces before it up to the width `w`.
pub open spec fn flush_right(t: Seq<char>, w: int) -> Seq<char> {
    run_of(' ', w - t.len()) + t
}

/// `t` with spaces on both sides up to the width `w`, the odd one behind.
pub open spec fn centred(t: Seq<char>, w: int) -> Seq<char> {
    if w > t.len() {
        run_of(' ', (w - t.len()) / 2) + t + run_of(' ', (w - t.len()) - (w - t.len()) / 2)
    } else {
        t
    }
}

/// The number of bytes that `keys` takes as UTF-8.
pub open spec fn byte_len(keys: Seq<char>) -> int {
    vstd::utf8::encode_utf8(keys).len() as int
}

/// The width of the keys column: the longest combo string in bytes, 4 at least.
pub open spec fn keys_width(rows: Seq<Record>) -> int
    decreases rows.len(),
{
    if rows.len() == 0 {
        4
    } else {
        let head = keys_width(rows.drop_last());
        if byte_len(rows.last().keys) > head {
            byte_len(rows.last().keys)
        } else {
            head
        }
    }
}

/// The width of the count column: the longest count as text, 5 at least.
pub open spec fn count_width(rows: Seq<Record>) -> int
    decreases rows.len(),
{
    if rows.len() == 0 {
        5
    } else {
        let head = count_width(rows.drop_last());
        if signed_decimal(rows.last().press_times).len() > head {
            signed_decimal(rows.last().press_times).len() as int
        } else {
            head
        }
    }
}

/// The width of the type column: that of `Single`.
pub open spec fn type_width() -> int {
    6
}

/// The line that parts the table: dashes under each column, `+` between them.
pub open spec fn divider_line(kw: int, cw: int) -> Seq<char> {
    "+-"@ + run_of('-', kw) + "-+-"@ + run_of('-', type_width()) + "-+-"@ + run_of('-', cw)
        + "-+"@
}

/// A line of the table with these three cells.
pub open spec fn table_line(keys: Seq<char>, kind: Seq<char>, count: Seq<char>) -> Seq<char> {
    "| "@ + keys + " | "@ + kind + " | "@ + count + " |"@
}

/// The line with the names of the columns, each in the middle of its column.
pub open spec fn header_line(kw: int, cw: int) -> Seq<char> {
    table_line(centred("Keys"@, kw), centred("Type"@, type_width()), centred("Count"@, cw))
}

/// What the type column says of a row.
pub open spec fn kind_text(single: bool) -> Seq<char> {
    if single {
        "Single"@
    } else {
        "Combo"@
    }
}

/// The line of one row: the keys flush left, the type in the middle, the count
/// flush right.
pub open spec fn entry_line(row: Record, kw: int, cw: int) -> Seq<char> {
    table_line(
        flush_left(row.keys, kw),
        centred(kind_text(row.single), type_width()),
        flush_right(signed_decimal(row.press_times), cw),
    )
}

/// The report of these rows: one line that says so where there is none, else
/// the table, with a divider above and below the header and one at the end.
pub open spec fn report_lines(rows: Seq<Record>) -> Seq<Seq<char>> {
    if rows.len() == 0 {
        seq!["No key records found."@]
    } else {
        let kw = keys_width(rows);
        let cw = count_width(rows);
        seq![divider_line(kw, cw), header_line(kw, cw), divider_line(kw, cw)] + Seq::new(
            rows.len(),
            |i: int| entry_line(rows[i], kw, cw),
        ) + seq![divider_line(kw, cw)]
    }
}

/// Appends `n` times `unit`, which is one character, to `out`.
fn append_run(out: &mut String, unit: &str, n: usize)
    requires
        unit@.len() == 1,
    ensures
        final(out)@ == old(out)@ + run_of(unit@[0], n as int),
{
    let mut i: usize = 0;
    assert(out@ =~= old(out)@ + run_of(unit@[0], 0));
    while i < n
        invariant
            i <= n,
            unit@.len() == 1,
            out@ == old(out)@ + run_of(unit@[0], i as int),
        decreases n - i,
    {
        out.append(unit);
        i = i + 1;
        assert(out@ =~= old(out)@ + run_of(unit@[0], i as int));
    }
}

/// Appends `t` to `out`, in the middle of the width `w`.
fn append_centred(out: &mut String, t: &str, w: usize)
    ensures
        final(out)@ == old(out)@ + centred(t@, w as int),
{
    let n: usize = t.unicode_len();
    proof {
        reveal_strlit(" ");
    }
    if w > n {
        let pad: usize = w - n;
        let left: usize = pad / 2;
        append_run(out, " ", left);
        out.append(t);
        append_run(out, " ", pad - left);
        assert(out@ =~= old(out)@ + centred(t@, w as int));
    } else {
        out.append(t);
    }
}

/// Appends `t` to `out`, with spaces behind it up to the width `w`.
fn append_flush_left(out: &mut String, t: &str, w: usize)
    ensures
        final(out)@ == old(out)@ + flush_left(t@, w as int),
{
    let n: usize = t.unicode_len();
    proof {
        reveal_strlit(" ");
    }
    out.append(t);
    if w > n {
        append_run(out, " ", w - n);
    }
    assert(out@ =~= old(out)@ + flush_left(t@, w as int));
}

/// Appends `t` to `out`, with spaces before it up to the width `w`.
fn append_flush_right(out: &mut String, t: &str, w: usize)
    ensures
        final(out)@ == old(out)@ + flush_right(t@, w as int),
{
    let n: usize = t.unicode_len();
    proof {
        reveal_strlit(" ");
    }
    if w > n {
        append_run(out, " ", w - n);
    }
    out.append(t);
    assert(out@ =~= old(out)@ + flush_right(t@, w as int));
}

/// The line that parts the table.
pub fn divider(kw: usize, cw: usize) -> (r: String)
    ensures
        r@ == divider_line(kw as int, cw as int),
{
    proof {
        reveal_strlit("-");
    }
    let mut r = String::from_str("+-");
    append_run(&mut r, "-", kw);
    r.append("-+-");
    append_run(&mut r, "-", 6);
    r.append("-+-");
    append_run(&mut r, "-", cw);
    r.append("-+");
    r
}

/// The line with the names of the columns.
pub fn header(kw: usize, cw: usize) -> (r: String)
    ensures
        r@ == header_line(kw as int, cw as int),
{
    let mut r = String::from_str("| ");
    append_centred(&mut r, "Keys", kw);
    r.append(" | ");
    append_centred(&mut r, "Type", 6);
    r.append(" | ");
    append_centred(&mut r, "Count", cw);
    r.append(" |");
    r
}

/// The line of one row.
pub fn entry(record: &KeyRecord, kw: usize, cw: usize) -> (r: String)
    ensures
        r@ == entry_line(record@, kw as int, cw as int),
{
    let mut r = String::from_str("| ");
    append_flush_left(&mut r, record.keys.as_str(), kw);
    r.append(" | ");
    let kind = if record.single {
        "Single"
    } else {
        "Combo"
    };
    append_centred(&mut r, kind, 6);
    r.append(" | ");
    let count = render_isize(record.press_times);
    append_flush_right(&mut r, count.as_str(), cw);
    r.append(" |");
    r
}

/// The widths of the keys column and of the count column.
pub fn column_widths(records: &Vec<KeyRecord>) -> (r: (usize, usize))
    ensures
        r.0 == keys_width(rows_of(records@)),
        r.1 == count_width(rows_of(records@)),
{
    let mut kw: usize = 4;
    let mut cw: usize = 5;
    let mut i: usize = 0;
    let ghost rows = rows_of(records@);
    while i < records.len()
        invariant
            i <= records@.len(),
            rows == rows_of(records@),
            kw == keys_width(rows.take(i as int)),
            cw == count_width(rows.take(i as int)),
        decreases records@.len() - i,
    {
        proof {
            assert(rows.take(i as int + 1).drop_last() =~= rows.take(i as int));
            assert(rows.take(i as int + 1).last() == records@[i as int]@);
        }
        let k: usize = records[i].keys.as_str().as_bytes().len();
        if k > kw {
            kw = k;
        }
        let count = render_isize(records[i].press_times);
        let c: usize = count.as_str().unicode_len();
        if c > cw {
            cw = c;
        }
        i = i + 1;
    }
    proof {
        assert(rows.take(i as int) =~= rows);
    }
    (kw, cw)
}

/// The report of these records, line by line.
pub fn print_records(records: &Vec<KeyRecord>) -> (lines: Vec<String>)
    ensures
        texts(lines@) == report_lines(rows_of(records@)),
{
    let mut lines: Vec<String> = Vec::new();
    let ghost rows = rows_of(records@);
    if records.len() == 0 {
        lines.push(String::from_str("No key records found."));
        assert(texts(lines@) =~= report_lines(rows));
        return lines;
    }
    let (kw, cw) = column_widths(records);
    lines.push(divider(kw, cw));
    lines.push(header(kw, cw));
    lines.push(divider(kw, cw));
    let ghost top = seq![
        divider_line(kw as int, cw as int),
        header_line(kw as int, cw as int),
        divider_line(kw as int, cw as int),
    ];
    let mut i: usize = 0;
    assert(texts(lines@) =~= top + Seq::new(0, |k: int| entry_line(rows[k], kw as int, cw as int)));
    while i < records.len()
        invariant
            i <= records@.len(),
            rows == rows_of(records@),
            top.len() == 3,
            texts(lines@) == top + Seq::new(
                i as nat,
                |k: int| entry_line(rows[k], kw as int, cw as int),
            ),
        decreases records@.len() - i,
    {
        let ghost before = texts(lines@);
        let line = entry(&records[i], kw, cw);
        lines.push(line);
        i = i + 1;
        proof {
            let now = top + Seq::new(
                i as nat,
                |k: int| entry_line(rows[k], kw as int, cw as int),
            );
            assert(texts(lines@) =~= before.push(line@));
            assert(rows[i - 1] == records@[i - 1]@);
            assert(before.push(line@) =~= now);
        }
    }
    lines.push(divider(kw, cw));
    assert(texts(lines@) =~= report_lines(rows));
    lines
}

/// Writes the report of the rows that the query asks for from the store at
/// `path`: the rows in the order of a report, the larger count first, and of two
/// equal counts the combo string that comes first. The caller says whether the
/// store's file is present: where it is not, the store is not opened and the
/// report is that of no rows. Fails with `Connect` or `CreateTable` where the
/// store does not open, and with `Fetch` where the rows cannot be read.
pub fn run(args: QueryArgs, path: &str, store_present: bool) -> (r: Result<Vec<String>, StoreError>)
    ensures
        !store_present ==> r is Ok && texts(r->Ok_0@) == report_lines(Seq::<Record>::empty()),
        match r {
            Ok(lines) => exists|rows: Seq<Record>|
                {
                    &&& #[trigger] report_lines(rows) == texts(lines@)
                    &&& report_order(rows)
                    &&& forall|i: int|
                        0 <= i < rows.len() ==> passes(args.filter_of(), #[trigger] rows[i])
                },
            Err(error) => {
                ||| error.kind == StoreErrorKind::Connect
                ||| error.kind == StoreErrorKind::CreateTable
                ||| error.kind is Fetch
            },
        },
{
    if !store_present {
        let none: Vec<KeyRecord> = Vec::new();
        let lines = print_records(&none);
        proof {
            assert(rows_of(none@) =~= Seq::<Record>::empty());
            assert(report_order(Seq::<Record>::empty()));
        }
        return Ok(lines);
    }
    let conn = match open_database(path) {
        Err(error) => {
            return Err(error);
        },
        Ok(conn) => conn,
    };
    let filter = args.filter();
    match fetch_records(&conn, filter) {
        Err(error) => Err(error),
        Ok(records) => {
            let lines = print_records(&records);
            proof {
                let rows = rows_of(records@);
                assert forall|i: int| 0 <= i < rows.len() implies passes(
                    args.filter_of(),
                    #[trigger] rows[i],
                ) by {
                    assert(passes(filter, records@[i]@));
                }
                assert(report_lines(rows) == texts(lines@));
            }
            Ok(lines)
        },
    }
}

} // verus!
