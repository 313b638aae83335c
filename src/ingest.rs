//! Ingestion: from the cells of a worksheet to a schema and recipient rows.
//!
//! A cell arrives as plain data: an integer, a floating-point value carried
//! as its decimal rendering, or any other value carried as its display text.

use vstd::prelude::*;
use crate::model::{Header, HeaderView, Tasks, TasksView, headers_view, rows_view, info_width};
use crate::text::{int_decimal, without_newlines, decimal_i64, strip_newlines};

verus! {

/// The label of the recipient address column.
pub const EMAIL_LABEL: &'static str = "邮箱地址";

/// The label of the synthetic select-all column.
pub const SELECT_ALL_LABEL: &'static str = "全选";

pub const DEFAULT_WIDTH: u32 = 100;

pub const EMAIL_WIDTH: u32 = 250;

pub const SELECT_ALL_WIDTH: u32 = 50;

/// One worksheet cell.
#[derive(Clone, Debug, PartialEq, Eq)]
pub enum Cell {
    Int(i64),
    /// A floating-point value, as its shortest decimal rendering
    /// (`3.9`, `-0.5`, `inf`, `NaN`).
    Float(String),
    /// Any other value (text, boolean, date, error, empty), as displayed.
    Text(String),
}

/// The two workbook container formats that can be read.
#[derive(PartialEq, Eq, Structural, Clone, Copy, Debug)]
pub enum WorkbookFormat {
    Xlsx,
    Xls,
}

#[derive(PartialEq, Eq, Structural, Clone, Copy, Debug)]
pub enum IngestError {
    /// The file extension names neither workbook format.
    UnsupportedFormat,
    /// The file could not be read as a workbook of its format.
    OpenError,
}

/// The display text of a cell.
pub open spec fn cell_text(c: Cell) -> Seq<char> {
    match c {
        Cell::Int(v) => int_decimal(v as int),
        Cell::Float(s) => s@,
        Cell::Text(s) => s@,
    }
}

pub open spec fn is_digit(c: char) -> bool {
    '0' <= c && c <= '9'
}

pub open spec fn digit_value(c: char) -> nat {
    (c as u32 - '0' as u32) as nat
}

/// The number that a run of decimal digits denotes.
pub open spec fn digits_value(s: Seq<char>) -> nat
    decreases s.len(),
{
    if s.len() == 0 {
        0
    } else {
        digits_value(s.drop_last()) * 10 + digit_value(s.last())
    }
}

/// The length of the run of digits that starts `s`.
pub open spec fn lead_digits(s: Seq<char>) -> nat
    decreases s.len(),
{
    if s.len() > 0 && is_digit(s[0]) {
        1 + lead_digits(s.drop_first())
    } else {
        0
    }
}

/// The integer part of an unsigned decimal rendering.
pub open spec fn whole_part(s: Seq<char>) -> nat {
    digits_value(s.take(lead_digits(s) as int))
}

/// The integer that a float rendered as `s` truncates to, saturated at the
/// bounds of `i64`; `NaN` truncates to 0.
pub open spec fn float_trunc(s: Seq<char>) -> i64 {
    if s == seq!['i', 'n', 'f'] {
        i64::MAX
    } else if s == seq!['-', 'i', 'n', 'f'] {
        i64::MIN
    } else if s.len() > 0 && s[0] == '-' {
        let m = whole_part(s.drop_first());
        if m >= 0x8000_0000_0000_0000 {
            i64::MIN
        } else {
            (-m) as i64
        }
    } else {
        let m = whole_part(s);
        if m > i64::MAX {
            i64::MAX
        } else {
            m as i64
        }
    }
}

/// The sequence number a cell yields: an integer as it is, a float
/// truncated toward zero, anything else 0.
pub open spec fn sequence_value(c: Cell) -> i64 {
    match c {
        Cell::Int(v) => v,
        Cell::Float(s) => float_trunc(s@),
        Cell::Text(_) => 0,
    }
}

pub open spec fn header_of(c: Cell) -> HeaderView {
    let name = without_newlines(cell_text(c));
    HeaderView {
        name,
        width: if name == EMAIL_LABEL@ { EMAIL_WIDTH } else { DEFAULT_WIDTH },
        check: true,
    }
}

pub open spec fn select_all_header() -> HeaderView {
    HeaderView { name: SELECT_ALL_LABEL@, width: SELECT_ALL_WIDTH, check: true }
}

/// The schema that a header row yields: the select-all column, then one
/// column per cell.
pub open spec fn schema_of(first: Seq<Cell>) -> Seq<HeaderView> {
    seq![select_all_header()] + first.map_values(|c: Cell| header_of(c))
}

/// The text of the `k`-th cell of a row, or the empty text past its end.
pub open spec fn field_text(row: Seq<Cell>, k: int) -> Seq<char> {
    if 0 <= k < row.len() {
        cell_text(row[k])
    } else {
        Seq::empty()
    }
}

/// The recipient that a data row yields, with `width` extra fields.
pub open spec fn task_of(row: Seq<Cell>, width: nat) -> TasksView {
    TasksView {
        email: field_text(row, 0),
        seq: if row.len() > 1 { sequence_value(row[1]) } else { 0 },
        name: field_text(row, 2),
        info: Seq::new(width, |j: int| field_text(row, j + 3)),
        status: true,
    }
}

/// The rows that a worksheet yields: every row after the header row.
pub open spec fn ingested_rows(sheet: Seq<Seq<Cell>>) -> Seq<TasksView> {
    Seq::new(
        (sheet.len() - 1) as nat,
        |i: int| task_of(sheet[i + 1], info_width(sheet[0].len() + 1)),
    )
}

impl Cell {
    /// The display text of the cell.
    pub fn text(&self) -> (r: String)
        ensures
            r@ == cell_text(*self),
    {
        match self {
            Cell::Int(v) => decimal_i64(*v),
            Cell::Float(s) => s.clone(),
            Cell::Text(s) => s.clone(),
        }
    }
}

/// Picks the workbook format from a file extension.
pub fn workbook_format(ext: &str) -> (r: Result<WorkbookFormat, IngestError>)
    ensures
        ext@ == "xlsx"@ ==> r == Ok::<WorkbookFormat, IngestError>(WorkbookFormat::Xlsx),
        ext@ == "xls"@ ==> r == Ok::<WorkbookFormat, IngestError>(WorkbookFormat::Xls),
        ext@ != "xlsx"@ && ext@ != "xls"@ ==> r == Err::<WorkbookFormat, IngestError>(
            IngestError::UnsupportedFormat,
        ),
{
    proof {
        reveal_strlit("xls");
        reveal_strlit("xlsx");
        assert("xls"@.len() != "xlsx"@.len());
    }
    let e = String::from_str(ext);
    if e == String::from_str("xlsx") {
        Ok(WorkbookFormat::Xlsx)
    } else if e == String::from_str("xls") {
        Ok(WorkbookFormat::Xls)
    } else {
        Err(IngestError::UnsupportedFormat)
    }
}

proof fn lemma_lead_digits(t: Seq<char>, k: int)
    requires
        0 <= k <= t.len(),
        forall|j: int| 0 <= j < k ==> is_digit(#[trigger] t[j]),
        k == t.len() || !is_digit(t[k]),
    ensures
        lead_digits(t) == k,
    decreases k,
{
    if k > 0 {
        assert forall|j: int| 0 <= j < k - 1 implies is_digit(#[trigger] t.drop_first()[j]) by {
            assert(t.drop_first()[j] == t[j + 1]);
        }
        lemma_lead_digits(t.drop_first(), k - 1);
    }
}

/// The integer that a float rendered as `s` converts to with `as i64`.
pub fn truncate_float_text(s: &str) -> (r: i64)
    ensures
        r == float_trunc(s@),
{
    proof {
        reveal_strlit("inf");
        reveal_strlit("-inf");
        assert("inf"@ =~= seq!['i', 'n', 'f']);
        assert("-inf"@ =~= seq!['-', 'i', 'n', 'f']);
    }
    let text = String::from_str(s);
    if text == String::from_str("inf") {
        return i64::MAX;
    }
    if text == String::from_str("-inf") {
        return i64::MIN;
    }
    let n = s.unicode_len();
    let negative = n > 0 && s.get_char(0) == '-';
    let start: usize = if negative { 1 } else { 0 };
    let ghost t = s@.skip(start as int);
    let cap: u128 = 0x8000_0000_0000_0000;
    let mut acc: u128 = 0;
    let mut i: usize = start;
    while i < n
        invariant
            n == s@.len(),
            start <= i <= n,
            t == s@.skip(start as int),
            cap == 0x8000_0000_0000_0000,
            forall|j: int| 0 <= j < i - start ==> is_digit(#[trigger] t[j]),
            acc as int == if digits_value(t.take(i - start)) >= cap {
                cap as int
            } else {
                digits_value(t.take(i - start)) as int
            },
        ensures
            i == n || !is_digit(t[i - start]),
        decreases n - i,
    {
        let c = s.get_char(i);
        if !('0' <= c && c <= '9') {
            assert(t[i - start] == c);
            break;
        }
        let d = (c as u32 - '0' as u32) as u128;
        let ghost k = i - start;
        assert(t[k] == c);
        assert(t.take(k + 1).drop_last() =~= t.take(k));
        assert(digits_value(t.take(k + 1)) == digits_value(t.take(k)) * 10 + d);
        let next = acc * 10 + d;
        proof {
            let v = digits_value(t.take(k)) as int;
            if v >= cap {
                assert(v * 10 + d >= cap) by (nonlinear_arith)
                    requires v >= cap, d >= 0;
            }
        }
        acc = if next >= cap { cap } else { next };
        i = i + 1;
    }
    proof {
        lemma_lead_digits(t, i - start);
    }
    if negative {
        assert(s@.drop_first() =~= t);
        if acc >= cap {
            i64::MIN
        } else {
            -(acc as i64)
        }
    } else {
        assert(s@ =~= t);
        if acc > 0x7fff_ffff_ffff_ffff {
            i64::MAX
        } else {
            acc as i64
        }
    }
}

/// The sequence number a cell yields.
pub fn sequence_of(cell: &Cell) -> (r: i64)
    ensures
        r == sequence_value(*cell),
{
    match cell {
        Cell::Int(v) => *v,
        Cell::Float(s) => truncate_float_text(s.as_str()),
        Cell::Text(_) => 0,
    }
}

fn header_from(cell: &Cell) -> (r: Header)
    ensures
        r@ == header_of(*cell),
{
    let text = cell.text();
    let name = strip_newlines(text.as_str());
    let width = if name == String::from_str(EMAIL_LABEL) {
        EMAIL_WIDTH
    } else {
        DEFAULT_WIDTH
    };
    Header { name, width, check: true }
}

fn field_from(row: &Vec<Cell>, k: usize) -> (r: String)
    ensures
        r@ == field_text(row@, k as int),
{
    if k < row.len() {
        row[k].text()
    } else {
        String::new()
    }
}

fn task_from(row: &Vec<Cell>, width: usize) -> (r: Tasks)
    requires
        width + 3 <= usize::MAX,
    ensures
        r@ == task_of(row@, width as nat),
{
    let email = field_from(row, 0);
    let seq = if row.len() > 1 {
        sequence_of(&row[1])
    } else {
        0
    };
    let name = field_from(row, 2);
    let mut info: Vec<String> = Vec::new();
    let mut j: usize = 0;
    while j < width
        invariant
            j <= width,
            width + 3 <= usize::MAX,
            info@.len() == j,
            forall|m: int| 0 <= m < j ==> #[trigger] info@[m]@ == field_text(row@, m + 3),
        decreases width - j,
    {
        info.push(field_from(row, j + 3));
        j = j + 1;
    }
    let r = Tasks { email, name, seq, info, status: true };
    assert(r@.info =~= Seq::new(width as nat, |m: int| field_text(row@, m + 3)));
    r
}

/// Builds the schema and the recipient rows from the rows of a worksheet.
///
/// The first row is the header row. Every later row becomes a recipient
/// whose extra fields line up with the schema: missing cells read as empty
/// text, and cells beyond the header row's width are not read.
pub fn parse_excel(sheet: &Vec<Vec<Cell>>) -> (r: (Vec<Tasks>, Vec<Header>))
    ensures
        sheet@.len() == 0 ==> r.0@.len() == 0 && r.1@.len() == 0,
        sheet@.len() > 0 ==> headers_view(r.1@) == schema_of(sheet@[0]@),
        sheet@.len() > 0 ==> rows_view(r.0@) == ingested_rows(sheet@.map_values(|row: Vec<Cell>| row@)),
        forall|i: int|
            0 <= i < r.0@.len() ==> (#[trigger] r.0@[i]).info@.len() == info_width(r.1@.len()),
{
    let mut headers: Vec<Header> = Vec::new();
    let mut list: Vec<Tasks> = Vec::new();
    if sheet.len() == 0 {
        return (list, headers);
    }
    let ghost cells = sheet@.map_values(|row: Vec<Cell>| row@);
    let first = &sheet[0];
    headers.push(
        Header { name: String::from_str(SELECT_ALL_LABEL), width: SELECT_ALL_WIDTH, check: true },
    );
    let mut k: usize = 0;
    while k < first.len()
        invariant
            k <= first@.len(),
            first == sheet@[0],
            headers@.len() == k + 1,
            headers_view(headers@) =~= schema_of(first@).take(k + 1),
        decreases first@.len() - k,
    {
        headers.push(header_from(&first[k]));
        k = k + 1;
        assert(headers_view(headers@) =~= schema_of(first@).take(k + 1));
    }
    assert(schema_of(first@).take(k + 1) =~= schema_of(first@));
    let width: usize = if first.len() >= 3 {
        first.len() - 3
    } else {
        0
    };
    assert(width == info_width(first@.len() + 1));
    let mut i: usize = 1;
    while i < sheet.len()
        invariant
            1 <= i <= sheet@.len(),
            cells == sheet@.map_values(|row: Vec<Cell>| row@),
            width == info_width(cells[0].len() + 1),
            width + 3 <= usize::MAX,
            headers_view(headers@) == schema_of(sheet@[0]@),
            rows_view(list@) =~= ingested_rows(cells).take(i - 1),
        decreases sheet@.len() - i,
    {
        let task = task_from(&sheet[i], width);
        assert(cells[i as int] == sheet@[i as int]@);
        assert(ingested_rows(cells)[i - 1] == task@);
        let ghost before = list@;
        let ghost tv = task@;
        list.push(task);
        assert(rows_view(list@) =~= rows_view(before).push(tv));
        i = i + 1;
        assert(rows_view(list@) =~= ingested_rows(cells).take(i - 1));
    }
    assert(ingested_rows(cells).take(i - 1) =~= ingested_rows(cells));
    assert(headers_view(headers@).len() == headers@.len());
    assert forall|j: int| 0 <= j < list@.len() implies (#[trigger] list@[j]).info@.len() == info_width(
        headers@.len(),
    ) by {
        assert(rows_view(list@)[j] == list@[j]@);
        assert(list@[j]@.info.len() == list@[j].info@.len());
    }
    (list, headers)
}

/// Schema alignment: every row read from a worksheet whose header row has at
/// least the three fixed columns carries as many extra fields as the others,
/// and the schema has exactly four columns more (the select-all column and
/// the three fixed fields).
pub proof fn lemma_schema_alignment(sheet: Seq<Seq<Cell>>)
    requires
        sheet.len() > 0,
        sheet[0].len() >= 3,
    ensures
        forall|i: int|
            0 <= i < ingested_rows(sheet).len() ==> schema_of(sheet[0]).len() == 4
                + (#[trigger] ingested_rows(sheet)[i]).info.len(),
        forall|i: int, j: int|
            0 <= i < ingested_rows(sheet).len() && 0 <= j < ingested_rows(sheet).len()
                ==> (#[trigger] ingested_rows(sheet)[i]).info.len() == (#[trigger] ingested_rows(
                sheet,
            )[j]).info.len(),
{
}

} // verus!
