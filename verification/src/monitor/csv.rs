//! The history of a session as comma-separated values.

use vstd::prelude::*;

use crate::decimal;
use crate::decimal::decimal_text;
use crate::monitor::model::HistoryCsvRow;
use crate::monitor::ordering;
use crate::monitor::ordering::stable_sort;
use crate::scan;
use crate::text;
use crate::text::replace_char;

verus! {

/// How names are made safe for a field.
#[derive(Clone, Copy, Debug, PartialEq, Eq, Structural)]
pub enum FieldStyle {
    /// Quotation marks become apostrophes, and commas become blanks.
    Plain,
    /// A field with a comma, a line feed or a quotation mark is quoted, and
    /// the quotation marks in it are doubled.
    Quoted,
}

/// The names of the columns.
pub open spec fn column_names() -> Seq<Seq<char>> {
    seq![
        "timestamp"@,
        "pid"@,
        "tid"@,
        "process"@,
        "thread"@,
        "user"@,
        "uid"@,
        "tx_bytes_total"@,
        "rx_bytes_total"@,
        "tx_2s_avg"@,
        "rx_2s_avg"@,
        "tx_10s_avg"@,
        "rx_10s_avg"@,
    ]
}

/// The line with the names of the columns.
pub open spec fn header_text() -> Seq<char> {
    with_commas(column_names()) + "\n"@
}

/// A name without quotation marks and commas.
pub open spec fn plain_field(value: Seq<char>) -> Seq<char> {
    text::replaced(text::replaced(value, '"', "'"@), ',', " "@)
}

/// A name, quoted where it has to be.
pub open spec fn quoted_field(value: Seq<char>) -> Seq<char> {
    let escaped = text::replaced(value, '"', "\"\""@);
    if escaped.contains(',') || escaped.contains('\n') || escaped.contains('"') {
        "\""@ + escaped + "\""@
    } else {
        escaped
    }
}

/// A name, made safe for a field.
pub open spec fn field_text(value: Seq<char>, style: FieldStyle) -> Seq<char> {
    match style {
        FieldStyle::Plain => plain_field(value),
        FieldStyle::Quoted => quoted_field(value),
    }
}

/// The fields of a row.
pub open spec fn row_fields(row: HistoryCsvRow, style: FieldStyle) -> Seq<Seq<char>> {
    seq![
        decimal::decimal(row.timestamp as nat),
        decimal::decimal(row.pid as nat),
        decimal::decimal(row.tid as nat),
        field_text(row.process@, style),
        field_text(row.thread@, style),
        field_text(row.user@, style),
        decimal::decimal(row.uid as nat),
        decimal::decimal(row.tx_bytes_total as nat),
        decimal::decimal(row.rx_bytes_total as nat),
        decimal::decimal(row.tx_2s_avg as nat),
        decimal::decimal(row.rx_2s_avg as nat),
        decimal::decimal(row.tx_10s_avg as nat),
        decimal::decimal(row.rx_10s_avg as nat),
    ]
}

/// Fields with a comma between each two.
pub open spec fn with_commas(fields: Seq<Seq<char>>) -> Seq<char>
    decreases fields.len(),
{
    if fields.len() == 0 {
        Seq::empty()
    } else if fields.len() == 1 {
        fields[0]
    } else {
        with_commas(fields.drop_last()) + ","@ + fields.last()
    }
}

/// The line of a row.
pub open spec fn line_text(row: HistoryCsvRow, style: FieldStyle) -> Seq<char> {
    with_commas(row_fields(row, style)) + "\n"@
}

/// The lines of several rows.
pub open spec fn lines_text(rows: Seq<HistoryCsvRow>, style: FieldStyle) -> Seq<char>
    decreases rows.len(),
{
    if rows.len() == 0 {
        Seq::empty()
    } else {
        lines_text(rows.drop_last(), style) + line_text(rows.last(), style)
    }
}

/// By what rows are sorted: the time, then the process, then the thread.
pub open spec fn history_keys(rows: Seq<HistoryCsvRow>) -> Seq<Seq<u64>> {
    rows.map_values(|row: HistoryCsvRow| seq![row.timestamp, row.pid as u64, row.tid as u64])
}

/// The rows, the earliest first.
pub open spec fn by_time(rows: Seq<HistoryCsvRow>) -> Seq<HistoryCsvRow> {
    ordering::sorted_by(rows, history_keys(rows), false)
}

/// A name, made safe for a field.
pub fn sanitize_csv(value: &str, style: FieldStyle) -> (field: String)
    ensures
        field@ == field_text(value@, style),
{
    match style {
        FieldStyle::Plain => {
            let inner = replace_char(value, '"', "'");
            replace_char(inner.as_str(), ',', " ")
        },
        FieldStyle::Quoted => {
            let escaped = replace_char(value, '"', "\"\"");
            if has_char(escaped.as_str(), ',') || has_char(escaped.as_str(), '\n') || has_char(
                escaped.as_str(),
                '"',
            ) {
                let mut field = "\"".to_owned();
                field.append(escaped.as_str());
                field.append("\"");
                field
            } else {
                escaped
            }
        },
    }
}

fn has_char(content: &str, c: char) -> (yes: bool)
    ensures
        yes == content@.contains(c),
{
    let chars = text::chars_of(content);
    let at = scan::find_char(&chars, 0, c);
    proof {
        scan::find_is_first(chars@, 0, scan::exactly(c));
        if chars@.contains(c) {
            let k = choose|k: int| 0 <= k < chars@.len() && chars@[k] == c;
            if at == chars@.len() {
                assert(!scan::exactly(c)(chars@[k]));
            }
        }
    }
    at < chars.len()
}

fn fields_of_row(row: &HistoryCsvRow, style: FieldStyle) -> (fields: Vec<String>)
    ensures
        text::texts(fields@) == row_fields(*row, style),
{
    let mut fields: Vec<String> = Vec::new();
    fields.push(decimal_text(row.timestamp));
    fields.push(decimal_text(row.pid as u64));
    fields.push(decimal_text(row.tid as u64));
    fields.push(sanitize_csv(row.process.as_str(), style));
    fields.push(sanitize_csv(row.thread.as_str(), style));
    fields.push(sanitize_csv(row.user.as_str(), style));
    fields.push(decimal_text(row.uid as u64));
    fields.push(decimal_text(row.tx_bytes_total));
    fields.push(decimal_text(row.rx_bytes_total));
    fields.push(decimal_text(row.tx_2s_avg));
    fields.push(decimal_text(row.rx_2s_avg));
    fields.push(decimal_text(row.tx_10s_avg));
    fields.push(decimal_text(row.rx_10s_avg));
    assert(text::texts(fields@) =~= row_fields(*row, style));
    fields
}

fn join_fields(fields: &Vec<String>) -> (line: String)
    ensures
        line@ == with_commas(text::texts(fields@)),
{
    let ghost all = text::texts(fields@);
    let mut line = String::new();
    let mut i: usize = 0;
    assert(line@ =~= with_commas(all.take(0)));
    while i < fields.len()
        invariant
            i <= fields@.len(),
            all == text::texts(fields@),
            line@ == with_commas(all.take(i as int)),
        decreases fields@.len() - i,
    {
        proof {
            assert(all.take(i + 1).drop_last() =~= all.take(i as int));
            assert(all.take(i + 1).last() == fields@[i as int]@);
        }
        if i > 0 {
            line.append(",");
        }
        line.append(fields[i].as_str());
        assert(line@ =~= with_commas(all.take(i + 1)));
        i += 1;
    }
    assert(all.take(i as int) =~= all);
    line
}

/// The line of a row.
pub fn history_line(row: &HistoryCsvRow, style: FieldStyle) -> (line: String)
    ensures
        line@ == line_text(*row, style),
{
    let fields = fields_of_row(row, style);
    let mut line = join_fields(&fields);
    line.append("\n");
    line
}

/// The line with the names of the columns.
pub fn history_header() -> (header: String)
    ensures
        header@ == header_text(),
{
    let mut names: Vec<String> = Vec::new();
    names.push("timestamp".to_owned());
    names.push("pid".to_owned());
    names.push("tid".to_owned());
    names.push("process".to_owned());
    names.push("thread".to_owned());
    names.push("user".to_owned());
    names.push("uid".to_owned());
    names.push("tx_bytes_total".to_owned());
    names.push("rx_bytes_total".to_owned());
    names.push("tx_2s_avg".to_owned());
    names.push("rx_2s_avg".to_owned());
    names.push("tx_10s_avg".to_owned());
    names.push("rx_10s_avg".to_owned());
    assert(text::texts(names@) =~= column_names());
    let mut header = join_fields(&names);
    header.append("\n");
    header
}

/// A whole file: the names of the columns, and the rows as they come, with
/// quoted fields.
pub fn write_history_csv(rows: &Vec<HistoryCsvRow>) -> (content: String)
    ensures
        content@ == header_text() + lines_text(rows@, FieldStyle::Quoted),
{
    let mut content = history_header();
    let mut i: usize = 0;
    assert(rows@.take(0) =~= Seq::empty());
    assert(content@ =~= header_text() + lines_text(rows@.take(0), FieldStyle::Quoted));
    while i < rows.len()
        invariant
            i <= rows@.len(),
            content@ == header_text() + lines_text(rows@.take(i as int), FieldStyle::Quoted),
        decreases rows@.len() - i,
    {
        let line = history_line(&rows[i], FieldStyle::Quoted);
        content.append(line.as_str());
        proof {
            assert(rows@.take(i + 1).drop_last() =~= rows@.take(i as int));
            assert(rows@.take(i + 1).last() == rows@[i as int]);
            assert(content@ =~= header_text() + lines_text(rows@.take(i + 1), FieldStyle::Quoted));
        }
        i += 1;
    }
    assert(rows@.take(i as int) =~= rows@);
    content
}

/// The lines of a file, the earliest row first, with plain fields; none where
/// there are no rows.
pub fn export_csv(rows: Vec<HistoryCsvRow>) -> (lines: Option<Vec<String>>)
    ensures
        lines is None <==> rows@.len() == 0,
        lines matches Some(list) ==> {
            &&& list@.len() == rows@.len()
            &&& forall|i: int|
                0 <= i < list@.len() ==> (#[trigger] list@[i])@ == line_text(
                    by_time(rows@)[i],
                    FieldStyle::Plain,
                )
        },
{
    if rows.len() == 0 {
        return None;
    }
    let mut keys: Vec<Vec<u64>> = Vec::new();
    let mut i: usize = 0;
    while i < rows.len()
        invariant
            i <= rows@.len(),
            keys@.len() == i,
            forall|k: int| 0 <= k < i ==> (#[trigger] keys@[k])@ == history_keys(rows@)[k],
        decreases rows@.len() - i,
    {
        let mut key: Vec<u64> = Vec::new();
        key.push(rows[i].timestamp);
        key.push(rows[i].pid as u64);
        key.push(rows[i].tid as u64);
        assert(key@ =~= history_keys(rows@)[i as int]);
        keys.push(key);
        i += 1;
    }
    assert(ordering::key_rows(keys@) =~= history_keys(rows@));
    let sorted = stable_sort(rows, &keys, false);
    let mut lines: Vec<String> = Vec::new();
    let mut k: usize = 0;
    while k < sorted.len()
        invariant
            k <= sorted@.len(),
            lines@.len() == k,
            forall|m: int|
                0 <= m < k ==> (#[trigger] lines@[m])@ == line_text(sorted@[m], FieldStyle::Plain),
        decreases sorted@.len() - k,
    {
        lines.push(history_line(&sorted[k], FieldStyle::Plain));
        k += 1;
    }
    Some(lines)
}

/// A field that was made plain holds no quotation mark and no comma.
pub proof fn plain_fields_are_plain(value: Seq<char>)
    ensures
        !plain_field(value).contains('"'),
        !plain_field(value).contains(','),
{
    reveal_strlit("'");
    reveal_strlit(" ");
    let inner = text::replaced(value, '"', "'"@);
    if plain_field(value).contains('"') {
        text::replaced_holds_only(inner, ',', " "@, '"');
        text::replaced_holds_only(value, '"', "'"@, '"');
    }
    if plain_field(value).contains(',') {
        text::replaced_holds_only(inner, ',', " "@, ',');
    }
}

/// What a reader of quoted fields takes a field for: one in quotation marks
/// stands for what is between them, with each two quotation marks for one.
pub open spec fn unquoted(field: Seq<char>) -> Seq<char> {
    if field.len() >= 2 && field[0] == '"' {
        undoubled(field.subrange(1, field.len() - 1))
    } else {
        field
    }
}

/// A text with each two quotation marks in a row turned into one.
pub open spec fn undoubled(field: Seq<char>) -> Seq<char>
    decreases field.len(),
{
    if field.len() == 0 {
        Seq::empty()
    } else if field.len() >= 2 && field[0] == '"' && field[1] == '"' {
        seq!['"'] + undoubled(field.skip(2))
    } else {
        seq![field[0]] + undoubled(field.skip(1))
    }
}

proof fn replaced_from_the_front(value: Seq<char>, c: char, with: Seq<char>)
    requires
        value.len() > 0,
    ensures
        text::replaced(value, c, with) == (if value[0] == c {
            with
        } else {
            seq![value[0]]
        }) + text::replaced(value.skip(1), c, with),
    decreases value.len(),
{
    if value.len() == 1 {
        assert(value.drop_last() =~= Seq::empty());
        assert(value.skip(1) =~= Seq::empty());
        assert(text::replaced(value.drop_last(), c, with) =~= Seq::empty());
    } else {
        replaced_from_the_front(value.drop_last(), c, with);
        assert(value.drop_last().skip(1) =~= value.skip(1).drop_last());
    }
}

proof fn doubling_is_undone(value: Seq<char>)
    ensures
        undoubled(text::replaced(value, '"', "\"\""@)) == value,
    decreases value.len(),
{
    reveal_strlit("\"\"");
    let with = "\"\""@;
    let whole = text::replaced(value, '"', with);
    if value.len() == 0 {
        assert(value =~= Seq::empty());
    } else {
        let rest = text::replaced(value.skip(1), '"', with);
        replaced_from_the_front(value, '"', with);
        doubling_is_undone(value.skip(1));
        if value[0] == '"' {
            assert(whole.skip(2) =~= rest);
        } else {
            assert(whole.skip(1) =~= rest);
        }
        assert(value =~= seq![value[0]] + value.skip(1));
    }
}

proof fn doubling_keeps_marks(value: Seq<char>)
    requires
        value.contains('"'),
    ensures
        text::replaced(value, '"', "\"\""@).contains('"'),
    decreases value.len(),
{
    reveal_strlit("\"\"");
    let with = "\"\""@;
    let front = text::replaced(value.drop_last(), '"', with);
    let whole = text::replaced(value, '"', with);
    let k = choose|k: int| 0 <= k < value.len() && value[k] == '"';
    if k == value.len() - 1 {
        assert(whole[front.len() as int] == '"');
    } else {
        assert(value.drop_last()[k] == '"');
        doubling_keeps_marks(value.drop_last());
        let m = choose|m: int| 0 <= m < front.len() && front[m] == '"';
        assert(whole[m] == '"');
    }
}

/// Quoting loses nothing: a reader of quoted fields gets back the name that
/// was written, whatever it holds.
pub proof fn quoted_fields_read_back(value: Seq<char>)
    ensures
        unquoted(quoted_field(value)) == value,
{
    reveal_strlit("\"");
    let escaped = text::replaced(value, '"', "\"\""@);
    let field = quoted_field(value);
    if escaped.contains(',') || escaped.contains('\n') || escaped.contains('"') {
        assert(field[0] == '"');
        assert(field.subrange(1, field.len() - 1) =~= escaped);
        doubling_is_undone(value);
    } else {
        if value.contains('"') {
            doubling_keeps_marks(value);
        }
        text::replaced_leaves_others(value, '"', "\"\""@);
        if field.len() > 0 {
            assert(field.contains(field[0]));
        }
    }
}

proof fn joined_fields_split(fields: Seq<Seq<char>>)
    requires
        fields.len() > 0,
        forall|i: int| 0 <= i < fields.len() ==> !(#[trigger] fields[i]).contains(','),
    ensures
        scan::fields(with_commas(fields), ',') == fields,
    decreases fields.len(),
{
    reveal_strlit(",");
    let all = with_commas(fields);
    if fields.len() == 1 {
        scan::one_field(all, ',');
        assert(seq![all] =~= fields);
    } else {
        let front = fields.drop_last();
        assert forall|i: int| 0 <= i < front.len() implies !(#[trigger] front[i]).contains(',') by {
            assert(front[i] == fields[i]);
        }
        joined_fields_split(front);
        let last = fields.last();
        assert(!fields[fields.len() - 1].contains(','));
        scan::one_more_field(with_commas(front), ',', last);
        assert(with_commas(front) + seq![','] + last =~= all);
        assert(front.push(last) =~= fields);
    }
}

proof fn numbers_hold_no_comma(n: nat)
    ensures
        !decimal::decimal(n).contains(','),
{
    decimal::decimal_is_digits(n);
}

/// A line with plain fields can be taken apart at its commas: that gives back
/// the fields of the row, one for each column.
pub proof fn plain_lines_split_back(row: HistoryCsvRow)
    ensures
        scan::fields(line_text(row, FieldStyle::Plain).drop_last(), ',') == row_fields(
            row,
            FieldStyle::Plain,
        ),
        row_fields(row, FieldStyle::Plain).len() == 13,
{
    reveal_strlit("\n");
    let fields = row_fields(row, FieldStyle::Plain);
    plain_fields_are_plain(row.process@);
    plain_fields_are_plain(row.thread@);
    plain_fields_are_plain(row.user@);
    numbers_hold_no_comma(row.timestamp as nat);
    numbers_hold_no_comma(row.pid as nat);
    numbers_hold_no_comma(row.tid as nat);
    numbers_hold_no_comma(row.uid as nat);
    numbers_hold_no_comma(row.tx_bytes_total as nat);
    numbers_hold_no_comma(row.rx_bytes_total as nat);
    numbers_hold_no_comma(row.tx_2s_avg as nat);
    numbers_hold_no_comma(row.rx_2s_avg as nat);
    numbers_hold_no_comma(row.tx_10s_avg as nat);
    numbers_hold_no_comma(row.rx_10s_avg as nat);
    assert(line_text(row, FieldStyle::Plain).drop_last() =~= with_commas(fields));
    joined_fields_split(fields);
}

/// Where the field that begins at `from` ends for a reader of quoted fields:
/// at the first comma that is not between quotation marks, or at the end.
pub open spec fn field_end(line: Seq<char>, from: int, inside: bool) -> int
    decreases line.len() - from,
{
    if from >= line.len() {
        line.len() as int
    } else if line[from] == '"' {
        field_end(line, from + 1, !inside)
    } else if line[from] == ',' && !inside {
        from
    } else {
        field_end(line, from + 1, inside)
    }
}

/// The fields of a line from `from` on, for a reader of quoted fields.
pub open spec fn quoted_fields_from(line: Seq<char>, from: int) -> Seq<Seq<char>>
    decreases line.len() - from,
    when 0 <= from <= line.len()
    via quoted_fields_from_ends
{
    let end = field_end(line, from, false);
    if end >= line.len() {
        seq![line.subrange(from, line.len() as int)]
    } else {
        seq![line.subrange(from, end)] + quoted_fields_from(line, end + 1)
    }
}

#[via_fn]
proof fn quoted_fields_from_ends(line: Seq<char>, from: int) {
    field_end_lies_behind(line, from, false);
}

proof fn field_end_lies_behind(line: Seq<char>, from: int, inside: bool)
    requires
        0 <= from <= line.len(),
    ensures
        from <= field_end(line, from, inside) <= line.len(),
    decreases line.len() - from,
{
    if from < line.len() {
        field_end_lies_behind(line, from + 1, inside);
        field_end_lies_behind(line, from + 1, !inside);
    }
}

/// The fields of a line, for a reader of quoted fields.
pub open spec fn quoted_fields(line: Seq<char>) -> Seq<Seq<char>> {
    quoted_fields_from(line, 0)
}

/// A reader who has read the field is where it was before: outside, or between,
/// quotation marks; none where it met a comma outside.
spec fn after_field(field: Seq<char>, inside: bool) -> Option<bool>
    decreases field.len(),
{
    if field.len() == 0 {
        Some(inside)
    } else if field[0] == '"' {
        after_field(field.skip(1), !inside)
    } else if field[0] == ',' && !inside {
        None
    } else {
        after_field(field.skip(1), inside)
    }
}

proof fn after_two_fields(a: Seq<char>, b: Seq<char>, inside: bool)
    requires
        after_field(a, inside) is Some,
    ensures
        after_field(a + b, inside) == after_field(b, after_field(a, inside)->0),
    decreases a.len(),
{
    if a.len() == 0 {
        assert(a + b =~= b);
    } else {
        assert((a + b).skip(1) =~= a.skip(1) + b);
        assert((a + b)[0] == a[0]);
        after_two_fields(a.skip(1), b, if a[0] == '"' {
            !inside
        } else {
            inside
        });
    }
}

proof fn doubled_marks_stay_inside(value: Seq<char>)
    ensures
        after_field(text::replaced(value, '"', "\"\""@), true) == Some(true),
    decreases value.len(),
{
    reveal_strlit("\"\"");
    let with = "\"\""@;
    let whole = text::replaced(value, '"', with);
    if value.len() > 0 {
        let rest = text::replaced(value.skip(1), '"', with);
        replaced_from_the_front(value, '"', with);
        doubled_marks_stay_inside(value.skip(1));
        if value[0] == '"' {
            assert(whole[0] == '"' && whole.skip(1)[0] == '"');
            assert(whole.skip(1).skip(1) =~= rest);
            assert(after_field(whole.skip(1), false) == after_field(rest, true));
        } else {
            assert(whole[0] == value[0]);
            assert(whole.skip(1) =~= rest);
        }
    }
}

proof fn harmless_text_is_passed(field: Seq<char>)
    requires
        !field.contains(','),
        !field.contains('"'),
    ensures
        after_field(field, false) == Some(false),
    decreases field.len(),
{
    if field.len() > 0 {
        assert(field.contains(field[0]));
        let rest = field.skip(1);
        assert forall|c: char| rest.contains(c) implies field.contains(c) by {
            let k = choose|k: int| 0 <= k < rest.len() && rest[k] == c;
            assert(field[k + 1] == c);
        }
        harmless_text_is_passed(rest);
    }
}

proof fn quoted_fields_are_passed(value: Seq<char>)
    ensures
        after_field(quoted_field(value), false) == Some(false),
{
    reveal_strlit("\"");
    let escaped = text::replaced(value, '"', "\"\""@);
    let mark = "\""@;
    if escaped.contains(',') || escaped.contains('\n') || escaped.contains('"') {
        assert(mark.skip(1) =~= Seq::empty());
        assert(after_field(mark.skip(1), true) == Some(true));
        assert(after_field(mark.skip(1), false) == Some(false));
        assert(after_field(mark, false) == Some(true));
        assert(after_field(mark, true) == Some(false));
        doubled_marks_stay_inside(value);
        after_two_fields(mark, escaped, false);
        after_two_fields(mark + escaped, mark, false);
    } else {
        harmless_text_is_passed(escaped);
    }
}

proof fn passed_fields_end(line: Seq<char>, from: int, field: Seq<char>, inside: bool)
    requires
        0 <= from,
        from + field.len() <= line.len(),
        line.subrange(from, from + field.len()) == field,
        after_field(field, inside) == Some(false),
    ensures
        field_end(line, from, inside) == field_end(line, from + field.len(), false),
    decreases field.len(),
{
    if field.len() > 0 {
        assert(line[from] == line.subrange(from, from + field.len())[0]);
        let rest = field.skip(1);
        assert(line.subrange(from + 1, from + 1 + rest.len()) =~= rest);
        passed_fields_end(line, from + 1, rest, if field[0] == '"' {
            !inside
        } else {
            inside
        });
    }
}

proof fn quoted_line_splits_from(fields: Seq<Seq<char>>, done: int, before: Seq<char>)
    requires
        0 <= done < fields.len(),
        forall|i: int|
            0 <= i < fields.len() ==> after_field(#[trigger] fields[i], false) == Some(false),
        done == 0 ==> before.len() == 0,
        done > 0 ==> before == with_commas(fields.take(done)) + ","@,
    ensures
        with_commas(fields).len() >= before.len(),
        with_commas(fields).take(before.len() as int) == before,
        quoted_fields_from(with_commas(fields), before.len() as int) == fields.skip(done),
    decreases fields.len() - done,
{
    reveal_strlit(",");
    let line = with_commas(fields);
    let field = fields[done];
    let from = before.len() as int;
    assert(fields.take(done + 1).drop_last() =~= fields.take(done));
    assert(fields.take(done + 1).last() == field);
    if done == 0 {
        assert(fields.take(1)[0] == fields[0]);
        assert(with_commas(fields.take(1)) =~= before + field);
    }
    assert(with_commas(fields.take(done + 1)) =~= before + field);
    if done == fields.len() - 1 {
        assert(fields.take(done + 1) =~= fields);
        assert(line.take(from) =~= before);
        assert(line.subrange(from, from + field.len()) =~= field);
        passed_fields_end(line, from, field, false);
        assert(field_end(line, from, false) == line.len());
        assert(fields.skip(done) =~= seq![field]);
    } else {
        let next = before + field + ","@;
        quoted_line_splits_from(fields, done + 1, next);
        assert(line.take(from) =~= line.take(next.len() as int).take(from));
        assert(next.take(from) =~= before);
        let end = from + field.len();
        assert(line[end] == line.take(next.len() as int)[end]);
        assert(line[end] == ',');
        assert(line.subrange(from, end) =~= line.take(next.len() as int).subrange(from, end));
        assert(next.subrange(from, end) =~= field);
        passed_fields_end(line, from, field, false);
        assert(field_end(line, from, false) == end);
        assert(next.len() == end + 1);
        assert(fields.skip(done) =~= seq![field] + fields.skip(done + 1));
    }
}

/// A line with quoted fields can be taken apart by a reader of such fields,
/// whatever the names hold: that gives back the fields of the row, one for each
/// column, and from them the names.
pub proof fn quoted_lines_split_back(row: HistoryCsvRow)
    ensures
        quoted_fields(line_text(row, FieldStyle::Quoted).drop_last()) == row_fields(
            row,
            FieldStyle::Quoted,
        ),
        row_fields(row, FieldStyle::Quoted).len() == 13,
        unquoted(row_fields(row, FieldStyle::Quoted)[3]) == row.process@,
        unquoted(row_fields(row, FieldStyle::Quoted)[4]) == row.thread@,
        unquoted(row_fields(row, FieldStyle::Quoted)[5]) == row.user@,
{
    reveal_strlit("\n");
    let fields = row_fields(row, FieldStyle::Quoted);
    quoted_fields_are_passed(row.process@);
    quoted_fields_are_passed(row.thread@);
    quoted_fields_are_passed(row.user@);
    quoted_fields_read_back(row.process@);
    quoted_fields_read_back(row.thread@);
    quoted_fields_read_back(row.user@);
    numbers_are_passed(row.timestamp as nat);
    numbers_are_passed(row.pid as nat);
    numbers_are_passed(row.tid as nat);
    numbers_are_passed(row.uid as nat);
    numbers_are_passed(row.tx_bytes_total as nat);
    numbers_are_passed(row.rx_bytes_total as nat);
    numbers_are_passed(row.tx_2s_avg as nat);
    numbers_are_passed(row.rx_2s_avg as nat);
    numbers_are_passed(row.tx_10s_avg as nat);
    numbers_are_passed(row.rx_10s_avg as nat);
    assert(line_text(row, FieldStyle::Quoted).drop_last() =~= with_commas(fields));
    quoted_line_splits_from(fields, 0, Seq::empty());
    assert(fields.skip(0) =~= fields);
}

proof fn numbers_are_passed(n: nat)
    ensures
        after_field(decimal::decimal(n), false) == Some(false),
{
    decimal::decimal_is_digits(n);
    harmless_text_is_passed(decimal::decimal(n));
}

/// The character ends a record, where it is not between quotation marks.
pub open spec fn ends_record(c: char) -> bool {
    c == '\n' || c == '\r'
}

/// Where the record that begins at `from` ends for a reader of quoted fields:
/// at the first line feed or carriage return that is not between quotation
/// marks, or at the end.
pub open spec fn record_end(content: Seq<char>, from: int, inside: bool) -> int
    decreases content.len() - from,
{
    if from >= content.len() {
        content.len() as int
    } else if content[from] == '"' {
        record_end(content, from + 1, !inside)
    } else if ends_record(content[from]) && !inside {
        from
    } else {
        record_end(content, from + 1, inside)
    }
}

/// Where the next record begins behind one that ends at `end`: a carriage
/// return and a line feed are one end.
pub open spec fn record_start(content: Seq<char>, end: int) -> int {
    if content[end] == '\r' && end + 1 < content.len() && content[end + 1] == '\n' {
        end + 2
    } else {
        end + 1
    }
}

/// The records of a file from `from` on, for a reader of quoted fields.
pub open spec fn records_from(content: Seq<char>, from: int) -> Seq<Seq<char>>
    decreases content.len() - from,
    when 0 <= from
    via records_from_ends
{
    if from >= content.len() {
        Seq::empty()
    } else {
        let end = record_end(content, from, false);
        if end >= content.len() {
            seq![content.subrange(from, content.len() as int)]
        } else {
            seq![content.subrange(from, end)] + records_from(content, record_start(content, end))
        }
    }
}

#[via_fn]
proof fn records_from_ends(content: Seq<char>, from: int) {
    if from < content.len() {
        record_end_lies_behind(content, from, false);
    }
}

proof fn record_end_lies_behind(content: Seq<char>, from: int, inside: bool)
    requires
        0 <= from <= content.len(),
    ensures
        from <= record_end(content, from, inside) <= content.len(),
    decreases content.len() - from,
{
    if from < content.len() {
        record_end_lies_behind(content, from + 1, inside);
        record_end_lies_behind(content, from + 1, !inside);
    }
}

/// The records of a file, for a reader of quoted fields.
pub open spec fn records(content: Seq<char>) -> Seq<Seq<char>> {
    records_from(content, 0)
}

/// The name holds a carriage return and is written without quotation marks, so
/// that a record seems to end in it.
pub open spec fn breaks_record(value: Seq<char>) -> bool {
    value.contains('\r') && !value.contains(',') && !value.contains('\n') && !value.contains('"')
}

/// No name of the row seems to end the record.
pub open spec fn keeps_record(row: HistoryCsvRow) -> bool {
    !breaks_record(row.process@) && !breaks_record(row.thread@) && !breaks_record(row.user@)
}

/// A reader who has read the text is between quotation marks, or not; none
/// where it met the end of a record outside.
spec fn within_record(part: Seq<char>, inside: bool) -> Option<bool>
    decreases part.len(),
{
    if part.len() == 0 {
        Some(inside)
    } else if part[0] == '"' {
        within_record(part.skip(1), !inside)
    } else if ends_record(part[0]) && !inside {
        None
    } else {
        within_record(part.skip(1), inside)
    }
}

proof fn within_two_parts(a: Seq<char>, b: Seq<char>, inside: bool)
    requires
        within_record(a, inside) is Some,
    ensures
        within_record(a + b, inside) == within_record(b, within_record(a, inside)->0),
    decreases a.len(),
{
    if a.len() == 0 {
        assert(a + b =~= b);
    } else {
        assert((a + b).skip(1) =~= a.skip(1) + b);
        assert((a + b)[0] == a[0]);
        within_two_parts(a.skip(1), b, if a[0] == '"' {
            !inside
        } else {
            inside
        });
    }
}

proof fn doubled_marks_keep_record(value: Seq<char>)
    ensures
        within_record(text::replaced(value, '"', "\"\""@), true) == Some(true),
    decreases value.len(),
{
    reveal_strlit("\"\"");
    let with = "\"\""@;
    let whole = text::replaced(value, '"', with);
    if value.len() > 0 {
        let rest = text::replaced(value.skip(1), '"', with);
        replaced_from_the_front(value, '"', with);
        doubled_marks_keep_record(value.skip(1));
        if value[0] == '"' {
            assert(whole[0] == '"' && whole.skip(1)[0] == '"');
            assert(whole.skip(1).skip(1) =~= rest);
            assert(within_record(whole.skip(1), false) == within_record(rest, true));
        } else {
            assert(whole[0] == value[0]);
            assert(whole.skip(1) =~= rest);
        }
    }
}

proof fn harmless_text_keeps_record(part: Seq<char>)
    requires
        !part.contains('\n'),
        !part.contains('\r'),
        !part.contains('"'),
    ensures
        within_record(part, false) == Some(false),
    decreases part.len(),
{
    if part.len() > 0 {
        assert(part.contains(part[0]));
        let rest = part.skip(1);
        assert forall|c: char| rest.contains(c) implies part.contains(c) by {
            let k = choose|k: int| 0 <= k < rest.len() && rest[k] == c;
            assert(part[k + 1] == c);
        }
        harmless_text_keeps_record(rest);
    }
}

proof fn numbers_keep_record(n: nat)
    ensures
        within_record(decimal::decimal(n), false) == Some(false),
{
    decimal::decimal_is_digits(n);
    harmless_text_keeps_record(decimal::decimal(n));
}

proof fn quoted_fields_keep_record(value: Seq<char>)
    requires
        !breaks_record(value),
    ensures
        within_record(quoted_field(value), false) == Some(false),
{
    reveal_strlit("\"");
    let escaped = text::replaced(value, '"', "\"\""@);
    let mark = "\""@;
    if escaped.contains(',') || escaped.contains('\n') || escaped.contains('"') {
        assert(mark.skip(1) =~= Seq::empty());
        assert(within_record(mark.skip(1), true) == Some(true));
        assert(within_record(mark.skip(1), false) == Some(false));
        assert(within_record(mark, false) == Some(true));
        assert(within_record(mark, true) == Some(false));
        doubled_marks_keep_record(value);
        within_two_parts(mark, escaped, false);
        within_two_parts(mark + escaped, mark, false);
    } else {
        if value.contains('"') {
            doubling_keeps_marks(value);
        }
        text::replaced_leaves_others(value, '"', "\"\""@);
        harmless_text_keeps_record(escaped);
    }
}

proof fn fields_keep_record(fields: Seq<Seq<char>>)
    requires
        forall|i: int|
            0 <= i < fields.len() ==> within_record(#[trigger] fields[i], false) == Some(false),
    ensures
        within_record(with_commas(fields), false) == Some(false),
    decreases fields.len(),
{
    if fields.len() > 1 {
        let front = fields.drop_last();
        assert forall|i: int| 0 <= i < front.len() implies within_record(
            #[trigger] front[i],
            false,
        ) == Some(false) by {
            assert(front[i] == fields[i]);
        }
        fields_keep_record(front);
        assert(within_record(fields[fields.len() - 1], false) == Some(false));
        reveal_strlit(",");
        harmless_text_keeps_record(","@);
        within_two_parts(with_commas(front), ","@, false);
        within_two_parts(with_commas(front) + ","@, fields.last(), false);
    }
}

proof fn rows_keep_record(row: HistoryCsvRow)
    requires
        keeps_record(row),
    ensures
        within_record(with_commas(row_fields(row, FieldStyle::Quoted)), false) == Some(false),
{
    quoted_fields_keep_record(row.process@);
    quoted_fields_keep_record(row.thread@);
    quoted_fields_keep_record(row.user@);
    numbers_keep_record(row.timestamp as nat);
    numbers_keep_record(row.pid as nat);
    numbers_keep_record(row.tid as nat);
    numbers_keep_record(row.uid as nat);
    numbers_keep_record(row.tx_bytes_total as nat);
    numbers_keep_record(row.rx_bytes_total as nat);
    numbers_keep_record(row.tx_2s_avg as nat);
    numbers_keep_record(row.rx_2s_avg as nat);
    numbers_keep_record(row.tx_10s_avg as nat);
    numbers_keep_record(row.rx_10s_avg as nat);
    fields_keep_record(row_fields(row, FieldStyle::Quoted));
}

spec fn harmless(name: Seq<char>) -> bool {
    !name.contains(',') && !name.contains('"') && !name.contains('\n') && !name.contains('\r')
}

proof fn column_names_are_harmless()
    ensures
        forall|i: int| 0 <= i < column_names().len() ==> harmless(#[trigger] column_names()[i]),
{
    reveal_strlit("timestamp");
    reveal_strlit("pid");
    reveal_strlit("tid");
    reveal_strlit("process");
    reveal_strlit("thread");
    reveal_strlit("user");
    reveal_strlit("uid");
    reveal_strlit("tx_bytes_total");
    reveal_strlit("rx_bytes_total");
    reveal_strlit("tx_2s_avg");
    reveal_strlit("rx_2s_avg");
    reveal_strlit("tx_10s_avg");
    reveal_strlit("rx_10s_avg");
}

/// The line with the names of the columns can be taken apart: that gives back
/// the names, one for each column.
pub proof fn headers_split_back()
    ensures
        quoted_fields(header_text().drop_last()) == column_names(),
        column_names().len() == 13,
{
    reveal_strlit("\n");
    let names = column_names();
    column_names_are_harmless();
    assert forall|i: int| 0 <= i < names.len() implies after_field(
        #[trigger] names[i],
        false,
    ) == Some(false) by {
        harmless_text_is_passed(names[i]);
    }
    assert(header_text().drop_last() =~= with_commas(names));
    quoted_line_splits_from(names, 0, Seq::empty());
    assert(names.skip(0) =~= names);
}

proof fn headers_keep_record()
    ensures
        within_record(with_commas(column_names()), false) == Some(false),
{
    let names = column_names();
    column_names_are_harmless();
    assert forall|i: int| 0 <= i < names.len() implies within_record(
        #[trigger] names[i],
        false,
    ) == Some(false) by {
        harmless_text_keeps_record(names[i]);
    }
    fields_keep_record(names);
}

proof fn passed_records_end(content: Seq<char>, from: int, part: Seq<char>, inside: bool)
    requires
        0 <= from,
        from + part.len() <= content.len(),
        content.subrange(from, from + part.len()) == part,
        within_record(part, inside) == Some(false),
    ensures
        record_end(content, from, inside) == record_end(content, from + part.len(), false),
    decreases part.len(),
{
    if part.len() > 0 {
        assert(content[from] == content.subrange(from, from + part.len())[0]);
        let rest = part.skip(1);
        assert(content.subrange(from + 1, from + 1 + rest.len()) =~= rest);
        passed_records_end(content, from + 1, rest, if part[0] == '"' {
            !inside
        } else {
            inside
        });
    }
}

/// Records with a line feed behind each.
spec fn with_line_feeds(list: Seq<Seq<char>>) -> Seq<char>
    decreases list.len(),
{
    if list.len() == 0 {
        Seq::empty()
    } else {
        list[0] + "\n"@ + with_line_feeds(list.drop_first())
    }
}

proof fn one_more_record(list: Seq<Seq<char>>, record: Seq<char>)
    ensures
        with_line_feeds(list.push(record)) == with_line_feeds(list) + record + "\n"@,
    decreases list.len(),
{
    let longer = list.push(record);
    if list.len() == 0 {
        assert(longer.drop_first() =~= Seq::empty());
        assert(with_line_feeds(longer.drop_first()) =~= Seq::empty());
        assert(with_line_feeds(longer) =~= with_line_feeds(list) + record + "\n"@);
    } else {
        one_more_record(list.drop_first(), record);
        assert(longer.drop_first() =~= list.drop_first().push(record));
        assert(with_line_feeds(longer) =~= with_line_feeds(list) + record + "\n"@);
    }
}

proof fn records_split_from(content: Seq<char>, from: int, list: Seq<Seq<char>>)
    requires
        0 <= from <= content.len(),
        content.skip(from) == with_line_feeds(list),
        forall|i: int|
            0 <= i < list.len() ==> within_record(#[trigger] list[i], false) == Some(false),
    ensures
        records_from(content, from) == list,
    decreases list.len(),
{
    reveal_strlit("\n");
    let back = content.skip(from);
    if list.len() == 0 {
        assert(back.len() == 0);
        assert(list =~= Seq::empty());
    } else {
        let record = list[0];
        let end = from + record.len();
        let others = list.drop_first();
        assert(back.len() == record.len() + 1 + with_line_feeds(others).len());
        assert(content.subrange(from, end) =~= back.take(record.len() as int));
        assert(back.take(record.len() as int) =~= record);
        assert(content[end] == back[record.len() as int]);
        assert(content[end] == '\n');
        passed_records_end(content, from, record, false);
        assert(record_end(content, from, false) == end);
        assert(content.skip(end + 1) =~= back.skip(record.len() as int + 1));
        assert(back.skip(record.len() as int + 1) =~= with_line_feeds(others));
        assert forall|i: int| 0 <= i < others.len() implies within_record(
            #[trigger] others[i],
            false,
        ) == Some(false) by {
            assert(others[i] == list[i + 1]);
        }
        records_split_from(content, end + 1, others);
        assert(list =~= seq![record] + others);
    }
}

/// The lines of a file without their line feeds.
spec fn file_lines(rows: Seq<HistoryCsvRow>) -> Seq<Seq<char>> {
    seq![with_commas(column_names())] + rows.map_values(
        |row: HistoryCsvRow| with_commas(row_fields(row, FieldStyle::Quoted)),
    )
}

proof fn files_are_made_of_lines(rows: Seq<HistoryCsvRow>)
    ensures
        header_text() + lines_text(rows, FieldStyle::Quoted) == with_line_feeds(file_lines(rows)),
    decreases rows.len(),
{
    let names = with_commas(column_names());
    if rows.len() == 0 {
        assert(file_lines(rows) =~= Seq::empty().push(names));
        one_more_record(Seq::empty(), names);
        assert(header_text() + lines_text(rows, FieldStyle::Quoted) =~= with_line_feeds(
            file_lines(rows),
        ));
    } else {
        let front = rows.drop_last();
        let last = with_commas(row_fields(rows.last(), FieldStyle::Quoted));
        files_are_made_of_lines(front);
        assert(file_lines(rows) =~= file_lines(front).push(last));
        one_more_record(file_lines(front), last);
        assert(header_text() + lines_text(rows, FieldStyle::Quoted) =~= (header_text()
            + lines_text(front, FieldStyle::Quoted)) + last + "\n"@);
    }
}

/// A whole file reads back: a reader of quoted fields, who passes over what is
/// between quotation marks, finds one record for the names of the columns and
/// one for each row, in the order of the rows, and in each record one field for
/// each column; the names of the process, the thread and the user come back as
/// they were.
pub proof fn files_read_back(rows: Seq<HistoryCsvRow>)
    requires
        forall|i: int| 0 <= i < rows.len() ==> keeps_record(#[trigger] rows[i]),
    ensures
        ({
            let found = records(header_text() + lines_text(rows, FieldStyle::Quoted));
            &&& found.len() == rows.len() + 1
            &&& quoted_fields(found[0]) == column_names()
            &&& column_names().len() == 13
            &&& forall|i: int|
                0 <= i < rows.len() ==> ({
                    let fields = quoted_fields(found[i + 1]);
                    &&& fields == row_fields(#[trigger] rows[i], FieldStyle::Quoted)
                    &&& fields.len() == 13
                    &&& unquoted(fields[3]) == rows[i].process@
                    &&& unquoted(fields[4]) == rows[i].thread@
                    &&& unquoted(fields[5]) == rows[i].user@
                })
        }),
{
    reveal_strlit("\n");
    let content = header_text() + lines_text(rows, FieldStyle::Quoted);
    let list = file_lines(rows);
    files_are_made_of_lines(rows);
    assert(content.skip(0) =~= content);
    assert forall|i: int| 0 <= i < list.len() implies within_record(
        #[trigger] list[i],
        false,
    ) == Some(false) by {
        if i == 0 {
            headers_keep_record();
        } else {
            assert(keeps_record(rows[i - 1]));
            rows_keep_record(rows[i - 1]);
        }
    }
    records_split_from(content, 0, list);
    headers_split_back();
    assert(header_text().drop_last() =~= list[0]);
    assert forall|i: int| 0 <= i < rows.len() implies ({
        let fields = quoted_fields(list[i + 1]);
        &&& fields == row_fields(#[trigger] rows[i], FieldStyle::Quoted)
        &&& fields.len() == 13
        &&& unquoted(fields[3]) == rows[i].process@
        &&& unquoted(fields[4]) == rows[i].thread@
        &&& unquoted(fields[5]) == rows[i].user@
    }) by {
        quoted_lines_split_back(rows[i]);
        assert(line_text(rows[i], FieldStyle::Quoted).drop_last() =~= list[i + 1]);
    }
}

/// Every figure stands in the column that is named for it: read as a number,
/// the field is the figure of the row, in either style.
pub proof fn figures_stand_in_their_columns(row: HistoryCsvRow, style: FieldStyle)
    ensures
        ({
            let names = column_names();
            let fields = row_fields(row, style);
            let number = |i: int| decimal::parsed(fields[i], 10, 0xffff_ffff_ffff_ffff);
            &&& names.len() == 13 && fields.len() == 13
            &&& names[0] == "timestamp"@ && number(0) == Some(row.timestamp as int)
            &&& names[1] == "pid"@ && number(1) == Some(row.pid as int)
            &&& names[2] == "tid"@ && number(2) == Some(row.tid as int)
            &&& names[3] == "process"@ && names[4] == "thread"@ && names[5] == "user"@
            &&& names[6] == "uid"@ && number(6) == Some(row.uid as int)
            &&& names[7] == "tx_bytes_total"@ && number(7) == Some(row.tx_bytes_total as int)
            &&& names[8] == "rx_bytes_total"@ && number(8) == Some(row.rx_bytes_total as int)
            &&& names[9] == "tx_2s_avg"@ && number(9) == Some(row.tx_2s_avg as int)
            &&& names[10] == "rx_2s_avg"@ && number(10) == Some(row.rx_2s_avg as int)
            &&& names[11] == "tx_10s_avg"@ && number(11) == Some(row.tx_10s_avg as int)
            &&& names[12] == "rx_10s_avg"@ && number(12) == Some(row.rx_10s_avg as int)
        }),
{
    let most = 0xffff_ffff_ffff_ffff;
    decimal::decimal_parses(row.timestamp as nat, most);
    decimal::decimal_parses(row.pid as nat, most);
    decimal::decimal_parses(row.tid as nat, most);
    decimal::decimal_parses(row.uid as nat, most);
    decimal::decimal_parses(row.tx_bytes_total as nat, most);
    decimal::decimal_parses(row.rx_bytes_total as nat, most);
    decimal::decimal_parses(row.tx_2s_avg as nat, most);
    decimal::decimal_parses(row.rx_2s_avg as nat, most);
    decimal::decimal_parses(row.tx_10s_avg as nat, most);
    decimal::decimal_parses(row.rx_10s_avg as nat, most);
}

/// A plain field keeps its name as far as it can: an apostrophe stands for each
/// quotation mark, a blank for each comma, and every other character for
/// itself.
pub proof fn plain_fields_keep_the_rest(value: Seq<char>)
    ensures
        plain_field(value).len() == value.len(),
        forall|i: int|
            0 <= i < value.len() ==> #[trigger] plain_field(value)[i] == (if value[i] == '"' {
                '\''
            } else if value[i] == ',' {
                ' '
            } else {
                value[i]
            }),
{
    reveal_strlit("'");
    reveal_strlit(" ");
    assert("'"@ =~= seq!['\'']);
    assert(" "@ =~= seq![' ']);
    let inner = text::replaced(value, '"', "'"@);
    text::replacing_keeps_places(value, '"', '\'');
    text::replacing_keeps_places(inner, ',', ' ');
    assert forall|i: int| 0 <= i < value.len() implies #[trigger] plain_field(value)[i] == (
    if value[i] == '"' {
        '\''
    } else if value[i] == ',' {
        ' '
    } else {
        value[i]
    }) by {
        assert(inner[i] == if value[i] == '"' {
            '\''
        } else {
            value[i]
        });
    }
}

/// The names of a row stand in the fields of process, thread and user, made
/// safe in the style of the file.
pub proof fn names_stand_in_their_columns(row: HistoryCsvRow)
    ensures
        ({
            let plain = row_fields(row, FieldStyle::Plain);
            let quoted = row_fields(row, FieldStyle::Quoted);
            &&& plain[3].len() == row.process@.len()
            &&& plain[4].len() == row.thread@.len()
            &&& plain[5].len() == row.user@.len()
            &&& (plain[3], plain[4], plain[5]) == (
                plain_field(row.process@),
                plain_field(row.thread@),
                plain_field(row.user@),
            )
            &&& (unquoted(quoted[3]), unquoted(quoted[4]), unquoted(quoted[5])) == (
                row.process@,
                row.thread@,
                row.user@,
            )
        }),
{
    plain_fields_keep_the_rest(row.process@);
    plain_fields_keep_the_rest(row.thread@);
    plain_fields_keep_the_rest(row.user@);
    quoted_fields_read_back(row.process@);
    quoted_fields_read_back(row.thread@);
    quoted_fields_read_back(row.user@);
}

/// A name that needs no quotation marks is written as it is.
pub proof fn harmless_names_are_not_quoted(value: Seq<char>)
    requires
        !value.contains(','),
        !value.contains('\n'),
        !value.contains('"'),
    ensures
        quoted_field(value) == value,
{
    text::replaced_leaves_others(value, '"', "\"\""@);
}

/// An export has all rows, each once, the earliest first; at the same time the
/// lower process comes first, in the same process the lower thread, and rows
/// that agree in all three keep their order.
pub proof fn exports_are_in_order(rows: Seq<HistoryCsvRow>, a: int, b: int)
    requires
        0 <= a < b < rows.len(),
    ensures
        ({
            let places = ordering::sorted_order(history_keys(rows), false);
            let sorted = by_time(rows);
            let x = sorted[a];
            let y = sorted[b];
            &&& sorted.len() == rows.len()
            &&& ordering::is_drawn_from(sorted, rows, places)
            &&& x.timestamp <= y.timestamp
            &&& x.timestamp == y.timestamp ==> x.pid <= y.pid
            &&& x.timestamp == y.timestamp && x.pid == y.pid ==> x.tid <= y.tid
            &&& x.timestamp == y.timestamp && x.pid == y.pid && x.tid == y.tid ==> places[a]
                < places[b]
        }),
{
    let keys = history_keys(rows);
    let places = ordering::sorted_order(keys, false);
    ordering::sorting_loses_nothing(rows, keys, false);
    let i = places[a];
    let j = places[b];
    assert(ordering::precedes(keys, false, i, j));
    let x = rows[i];
    let y = rows[j];
    let k = seq![x.timestamp, x.pid as u64, x.tid as u64];
    let m = seq![y.timestamp, y.pid as u64, y.tid as u64];
    assert(keys[i] == k);
    assert(keys[j] == m);
    if k == m {
        assert(k[0] == m[0] && k[1] == m[1] && k[2] == m[2]);
    } else {
        reveal_with_fuel(ordering::before, 4);
        assert(k.drop_first() =~= seq![x.pid as u64, x.tid as u64]);
        assert(m.drop_first() =~= seq![y.pid as u64, y.tid as u64]);
        assert(k.drop_first().drop_first() =~= seq![x.tid as u64]);
        assert(m.drop_first().drop_first() =~= seq![y.tid as u64]);
        if x.timestamp == y.timestamp && x.pid == y.pid && x.tid == y.tid {
            assert(k =~= m);
        }
    }
}

} // verus!
