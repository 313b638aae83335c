//! The message body: one HTML table with the column labels and the fields
//! of one recipient, followed by the closing remark.
//!
//! Labels and field values are escaped, so that text from a worksheet cannot
//! inject markup; the remark is the operator's own and is placed verbatim.

use vstd::prelude::*;
use crate::model::{Header, HeaderView, Tasks, TasksView, headers_view};
use crate::text::{escaped, int_decimal, escape_html, decimal_i64};

verus! {

pub const DIV_OPEN: &'static str = "<div>";

pub const TABLE_OPEN: &'static str = "<table border=\"0\" cellspacing=\"1\" cellpadding=\"0\" width=\"1167\" bgcolor=\" #000000\" height=\"14\">";

pub const ROW_OPEN: &'static str = "<tr bgcolor=\" #ffffff\" style=\"white-space: nowrap;\">";

pub const ROW_CLOSE: &'static str = "</tr>";

pub const LABEL_CELL_OPEN: &'static str = "<td bgcolor=\" #dbeef3\" height=\"14\" style=\"padding: 5px;\">\n                <div align=\"left\"><span\n                        style=\"font-family: 宋体, serif, EmojiFont; color: rgb(0, 0, 0); font-size: 11px; font-weight: bold;\">";

pub const FIELD_CELL_OPEN: &'static str = "<td bgcolor=\" #ffffff\" height=\"17\" style=\"padding: 5px;\">\n                <div align=\"center\"><span\n                        style=\"font-family: 宋体, serif, EmojiFont; color: rgb(0, 0, 0); font-size: 15px;\">";

pub const CELL_CLOSE: &'static str = "</span>\n                </div>\n            </td>";

pub const TABLE_CLOSE: &'static str = "</tr></table>\n    <p>&nbsp;</p>\n    *附：";

pub const DIV_CLOSE: &'static str = "</div>";

pub open spec fn label_cell(name: Seq<char>) -> Seq<char> {
    LABEL_CELL_OPEN@ + escaped(name) + CELL_CLOSE@
}

pub open spec fn field_cell(value: Seq<char>) -> Seq<char> {
    FIELD_CELL_OPEN@ + value + CELL_CLOSE@
}

/// One label cell per column, in order.
pub open spec fn label_cells(hs: Seq<HeaderView>) -> Seq<char>
    decreases hs.len(),
{
    if hs.len() == 0 {
        Seq::empty()
    } else {
        label_cells(hs.drop_last()) + label_cell(hs.last().name)
    }
}

/// One field cell per extra field, in order.
pub open spec fn info_cells(info: Seq<Seq<char>>) -> Seq<char>
    decreases info.len(),
{
    if info.len() == 0 {
        Seq::empty()
    } else {
        info_cells(info.drop_last()) + field_cell(escaped(info.last()))
    }
}

/// The columns that get a label: all but the select-all column.
pub open spec fn labelled(hs: Seq<HeaderView>) -> Seq<HeaderView> {
    if hs.len() == 0 {
        hs
    } else {
        hs.drop_first()
    }
}

/// Everything before the recipient's fields.
pub open spec fn render_prefix(hs: Seq<HeaderView>) -> Seq<char> {
    DIV_OPEN@ + TABLE_OPEN@ + ROW_OPEN@ + label_cells(labelled(hs)) + ROW_CLOSE@ + ROW_OPEN@
}

/// The recipient's fields: address, sequence number, name, extra fields.
pub open spec fn fields_html(t: TasksView) -> Seq<char> {
    field_cell(escaped(t.email)) + field_cell(int_decimal(t.seq as int)) + field_cell(
        escaped(t.name),
    ) + info_cells(t.info)
}

/// Everything after the recipient's fields.
pub open spec fn render_suffix(remark: Seq<char>) -> Seq<char> {
    TABLE_CLOSE@ + remark + DIV_CLOSE@
}

pub open spec fn html_of(t: TasksView, hs: Seq<HeaderView>, remark: Seq<char>) -> Seq<char> {
    render_prefix(hs) + fields_html(t) + render_suffix(remark)
}

fn push_field(out: &mut String, value: &str)
    ensures
        final(out)@ == old(out)@ + field_cell(escaped(value@)),
{
    out.append(FIELD_CELL_OPEN);
    let e = escape_html(value);
    out.append(e.as_str());
    out.append(CELL_CLOSE);
}

/// Renders the message body for one recipient under the given columns.
pub fn generate_html(tasks: &Tasks, headers: &[Header], remark: &str) -> (r: String)
    ensures
        r@ == html_of(tasks@, headers_view(headers@), remark@),
{
    let ghost hs = headers_view(headers@);
    let mut html = String::from_str(DIV_OPEN);
    html.append(TABLE_OPEN);
    html.append(ROW_OPEN);
    let ghost start = html@;
    let mut k: usize = 1;
    while k < headers.len()
        invariant
            1 <= k,
            hs == headers_view(headers@),
            k <= headers@.len() || headers@.len() == 0,
            start == DIV_OPEN@ + TABLE_OPEN@ + ROW_OPEN@,
            headers@.len() > 0 ==> html@ == start + label_cells(labelled(hs).take(k - 1)),
            headers@.len() == 0 ==> html@ == start,
        decreases headers@.len() - k,
    {
        let ghost before = html@;
        html.append(LABEL_CELL_OPEN);
        let e = escape_html(headers[k].name.as_str());
        html.append(e.as_str());
        html.append(CELL_CLOSE);
        assert(labelled(hs).take(k as int).drop_last() =~= labelled(hs).take(k - 1));
        assert(labelled(hs)[k - 1] == headers@[k as int]@);
        k = k + 1;
    }
    proof {
        if headers@.len() > 0 {
            assert(labelled(hs).take(k - 1) =~= labelled(hs));
        } else {
            assert(label_cells(labelled(hs)) == Seq::<char>::empty());
        }
    }
    html.append(ROW_CLOSE);
    html.append(ROW_OPEN);
    assert(html@ =~= render_prefix(hs));
    push_field(&mut html, tasks.email.as_str());
    html.append(FIELD_CELL_OPEN);
    let number = decimal_i64(tasks.seq);
    html.append(number.as_str());
    html.append(CELL_CLOSE);
    push_field(&mut html, tasks.name.as_str());
    let ghost fixed = html@;
    let mut j: usize = 0;
    while j < tasks.info.len()
        invariant
            j <= tasks.info@.len(),
            html@ == fixed + info_cells(tasks@.info.take(j as int)),
        decreases tasks.info@.len() - j,
    {
        push_field(&mut html, tasks.info[j].as_str());
        assert(tasks@.info.take(j + 1).drop_last() =~= tasks@.info.take(j as int));
        j = j + 1;
    }
    assert(tasks@.info.take(j as int) =~= tasks@.info);
    html.append(TABLE_CLOSE);
    html.append(remark);
    html.append(DIV_CLOSE);
    assert(html@ =~= html_of(tasks@, hs, remark@));
    html
}

proof fn lemma_label_cells_names(a: Seq<HeaderView>, b: Seq<HeaderView>)
    requires
        a.len() == b.len(),
        forall|i: int| 0 <= i < a.len() ==> (#[trigger] a[i]).name == b[i].name,
    ensures
        label_cells(a) == label_cells(b),
    decreases a.len(),
{
    if a.len() > 0 {
        lemma_label_cells_names(a.drop_last(), b.drop_last());
    }
}

/// Field order: a rendered body holds, after a part that depends on the
/// column labels alone, the address, the sequence number, the name and the
/// extra fields in that order, then the remark; column widths and flags do
/// not change it.
pub proof fn lemma_render_field_order(
    t: TasksView,
    hs: Seq<HeaderView>,
    other: Seq<HeaderView>,
    remark: Seq<char>,
)
    requires
        hs.len() == other.len(),
        forall|i: int| 0 <= i < hs.len() ==> (#[trigger] hs[i]).name == other[i].name,
    ensures
        html_of(t, hs, remark) == render_prefix(hs) + field_cell(escaped(t.email)) + field_cell(
            int_decimal(t.seq as int),
        ) + field_cell(escaped(t.name)) + info_cells(t.info) + render_suffix(remark),
        html_of(t, hs, remark) == html_of(t, other, remark),
{
    if hs.len() > 0 {
        lemma_label_cells_names(hs.drop_first(), other.drop_first());
    }
    assert(html_of(t, hs, remark) =~= render_prefix(hs) + field_cell(escaped(t.email)) + field_cell(
        int_decimal(t.seq as int),
    ) + field_cell(escaped(t.name)) + info_cells(t.info) + render_suffix(remark));
}

} // verus!
