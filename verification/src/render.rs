//! The agenda as an HTML table fragment.
use vstd::prelude::*;
use vstd::string::*;
use crate::record::{entries, AgendaItem, Entry};

verus! {

/// The style block that goes with the table when no other is supplied.
pub const STYLE: &'static str = r#"
<style>
.table_component {
    overflow: auto;
    width: 100%;
    font-family: Arial, Helvetica, sans-serif;
    font-size: 16px;
}
.table_component table {
    border: 1px solid #dededf;
    height: 100%;
    width: 95%;
    table-layout: auto;
    border-collapse: collapse;
    border-spacing: 1px;
    text-align: left;
    margin-left: auto;
    margin-right: auto;
    overflow-x: auto;
}
.table_component caption {
    caption-side: top;
    text-align: center;
}
.table_component th {
    border: 1px solid #dededf;
    background-color: #eceff1;
    color: #000000;
    padding: 8px;
}
.table_component td {
    border: 1px solid #dededf;
    padding: 8px;
}
.table_component tr:nth-child(even) td {
    background-color: #f1e9e9;
    color: #000000;
}
.table_component tr:nth-child(odd) td {
    background-color: #ffffff;
    color: #000000;
}
</style>
"#;

/// Opens the wrapper, the table and its body, with caption and header row.
pub const INTRO: &'static str = r#"
<div class="table_component">
<table>
    <caption>
        <p><strong>Agenda</strong></p>
    </caption>
<thead>
<tr>
    <th>Time</th>
    <th>Subject</th>
    <th>Presenter</th>
</tr>
</thead>
<tbody>
"#;

/// Opens a row and its first cell.
pub const ROW_OPEN: &'static str = "<tr>\n    <td>";

/// Closes one cell of a row and opens the next.
pub const CELL_BREAK: &'static str = "</td>\n    <td>";

/// Closes the last cell of a row and the row.
pub const ROW_CLOSE: &'static str = "</td>\n</tr>\n";

/// Closes the body, the table and the wrapper.
pub const CLOSING: &'static str = "</tbody>\n</table>\n</div>\n\n";

/// The markup of one record: a row of three cells that hold time, subject
/// and presenter as they are, in that order.
pub open spec fn row_markup(e: Entry) -> Seq<char> {
    ROW_OPEN@ + e.time + CELL_BREAK@ + e.subject + CELL_BREAK@ + e.presenter + ROW_CLOSE@
}

/// The rows of all records, one after the other in list order.
pub open spec fn rows_markup(es: Seq<Entry>) -> Seq<char>
    decreases es.len(),
{
    if es.len() == 0 {
        Seq::empty()
    } else {
        rows_markup(es.drop_last()) + row_markup(es.last())
    }
}

/// The whole fragment: style, table opening, rows, closing.
pub open spec fn rendering(es: Seq<Entry>, style: Seq<char>) -> Seq<char> {
    style + INTRO@ + rows_markup(es) + CLOSING@
}

/// Renders one record as a table row.
pub fn render_row(item: &AgendaItem) -> (out: String)
    ensures
        out@ == row_markup(item@),
{
    let mut out = String::from_str(ROW_OPEN);
    out.append(item.time.as_str());
    out.append(CELL_BREAK);
    out.append(item.subject.as_str());
    out.append(CELL_BREAK);
    out.append(item.presenter.as_str());
    out.append(ROW_CLOSE);
    out
}

/// Renders the agenda behind the given style fragment. Field values are
/// written as they are, without escaping.
pub fn render(agenda: &Vec<AgendaItem>, style: &str) -> (out: String)
    ensures
        out@ == rendering(entries(agenda@), style@),
{
    let mut out = String::from_str(style);
    out.append(INTRO);
    let mut i: usize = 0;
    proof {
        assert(entries(agenda@).take(0) =~= Seq::<Entry>::empty());
        assert(out@ =~= style@ + INTRO@ + rows_markup(entries(agenda@).take(0)));
    }
    while i < agenda.len()
        invariant
            i <= agenda@.len(),
            out@ == style@ + INTRO@ + rows_markup(entries(agenda@).take(i as int)),
        decreases agenda@.len() - i,
    {
        let row = render_row(&agenda[i]);
        let ghost before = out@;
        out.append(row.as_str());
        proof {
            let es = entries(agenda@);
            assert(es.take(i + 1).drop_last() =~= es.take(i as int));
            assert(es.take(i + 1).last() == agenda@[i as int]@);
            assert(out@ =~= style@ + INTRO@ + rows_markup(es.take(i + 1)));
        }
        i += 1;
    }
    proof {
        assert(entries(agenda@).take(i as int) =~= entries(agenda@));
    }
    out.append(CLOSING);
    out
}

/// An empty agenda renders as the bare skeleton: style, table opening and
/// closing, with no row in between.
pub proof fn lemma_render_empty(style: Seq<char>)
    ensures
        rows_markup(Seq::<Entry>::empty()) == Seq::<char>::empty(),
        rendering(Seq::<Entry>::empty(), style) == style + INTRO@ + CLOSING@,
{
    assert(rendering(Seq::<Entry>::empty(), style) =~= style + INTRO@ + CLOSING@);
}

/// The rows of two lists joined are the rows of the first followed by the
/// rows of the second.
pub proof fn lemma_rows_concat(a: Seq<Entry>, b: Seq<Entry>)
    ensures
        rows_markup(a + b) == rows_markup(a) + rows_markup(b),
    decreases b.len(),
{
    if b.len() == 0 {
        assert(a + b =~= a);
        assert(rows_markup(a) + rows_markup(b) =~= rows_markup(a));
    } else {
        lemma_rows_concat(a, b.drop_last());
        assert((a + b).drop_last() =~= a + b.drop_last());
        assert((a + b).last() == b.last());
        assert(rows_markup(a + b) =~= rows_markup(a) + rows_markup(b));
    }
}

/// Rendering keeps the order of the records: the row of record `i` stands
/// after the rows of the records before it and ahead of the rows of those
/// that follow, and holds its time, subject and presenter in that order.
pub proof fn lemma_row_in_place(es: Seq<Entry>, style: Seq<char>, i: int)
    requires
        0 <= i < es.len(),
    ensures
        rendering(es, style) == style + INTRO@ + rows_markup(es.take(i)) + row_markup(es[i])
            + rows_markup(es.skip(i + 1)) + CLOSING@,
        row_markup(es[i]) == ROW_OPEN@ + es[i].time + CELL_BREAK@ + es[i].subject + CELL_BREAK@
            + es[i].presenter + ROW_CLOSE@,
{
    let head = es.take(i);
    let one = seq![es[i]];
    let tail = es.skip(i + 1);
    assert(es =~= head + one + tail);
    lemma_rows_concat(head + one, tail);
    lemma_rows_concat(head, one);
    assert(one.drop_last() =~= Seq::<Entry>::empty());
    assert(rows_markup(one) =~= row_markup(es[i])) by {
        assert(rows_markup(one) == rows_markup(one.drop_last()) + row_markup(one.last()));
        assert(rows_markup(Seq::<Entry>::empty()) =~= Seq::<char>::empty());
    }
    assert(rendering(es, style) =~= style + INTRO@ + rows_markup(es.take(i)) + row_markup(es[i])
        + rows_markup(es.skip(i + 1)) + CLOSING@);
}

/// Rendering is repeatable: two renderings of one agenda behind one style
/// are the same text.
pub proof fn lemma_render_repeatable(
    first: Seq<char>,
    second: Seq<char>,
    a: Seq<AgendaItem>,
    b: Seq<AgendaItem>,
    style: Seq<char>,
)
    requires
        entries(a) == entries(b),
        first == rendering(entries(a), style),
        second == rendering(entries(b), style),
    ensures
        first == second,
{
}

} // verus!
