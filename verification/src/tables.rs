//! `<table>` elements rendered as Markdown tables.

use vstd::prelude::*;

use crate::chars::{chars_eq_str, chars_of, string_from_chars, trim, trim_chars};
use crate::dom::{lemma_node_trees, node_trees, DomNode, DomTree};
use crate::dom_query::{element_name, is_named, node_is_named, text_content, text_of};
use crate::scrape::{
    names_view, select_ancestor_names, select_elements, selected_elements, selector_parses,
    CssSelector, SelectedElement, SelectorError,
};

verus! {

/// A table cell: its trimmed text and whether it is a header cell (`th`).
pub type Cell = (String, bool);

/// A table row: its cells in order.
pub type Row = Vec<Cell>;

pub type CellView = (Seq<char>, bool);

pub open spec fn cell_view(c: Cell) -> CellView {
    (c.0@, c.1)
}

pub open spec fn row_view(r: Row) -> Seq<CellView> {
    r@.map_values(|c: Cell| cell_view(c))
}

pub open spec fn rows_view(rows: Seq<Row>) -> Seq<Seq<CellView>> {
    rows.map_values(|r: Row| row_view(r))
}

// ── From a table element to rows ────────────────────────────────────────────

/// The cells among `ts` (a row's children): each `td` or `th` element, with
/// its trimmed text.
pub open spec fn cells(ts: Seq<DomTree>) -> Seq<CellView>
    decreases ts.len(),
{
    if ts.len() == 0 {
        Seq::empty()
    } else {
        cells(ts.drop_last()) + if is_named(ts.last(), "td"@) || is_named(ts.last(), "th"@) {
            seq![(trim(text_content(ts.last())), is_named(ts.last(), "th"@))]
        } else {
            Seq::empty()
        }
    }
}

/// The rows among `ts` (a table section's children): one per `tr` element.
pub open spec fn section_rows(ts: Seq<DomTree>) -> Seq<Seq<CellView>>
    decreases ts.len(),
{
    if ts.len() == 0 {
        Seq::empty()
    } else {
        section_rows(ts.drop_last()) + if is_named(ts.last(), "tr"@) {
            seq![cells(ts.last().children)]
        } else {
            Seq::empty()
        }
    }
}

pub open spec fn is_section(t: DomTree) -> bool {
    is_named(t, "thead"@) || is_named(t, "tbody"@) || is_named(t, "tfoot"@)
}

/// The rows among `ts` (a table's children): a `tr` child directly, or the
/// `tr` children of a `thead`, `tbody` or `tfoot` child.
pub open spec fn table_rows_all(ts: Seq<DomTree>) -> Seq<Seq<CellView>>
    decreases ts.len(),
{
    if ts.len() == 0 {
        Seq::empty()
    } else {
        table_rows_all(ts.drop_last()) + if is_named(ts.last(), "tr"@) {
            seq![cells(ts.last().children)]
        } else if is_section(ts.last()) {
            section_rows(ts.last().children)
        } else {
            Seq::empty()
        }
    }
}

/// `rows` without the rows that have no cell.
pub open spec fn non_empty_rows(rows: Seq<Seq<CellView>>) -> Seq<Seq<CellView>>
    decreases rows.len(),
{
    if rows.len() == 0 {
        Seq::empty()
    } else {
        non_empty_rows(rows.drop_last()) + if rows.last().len() > 0 {
            seq![rows.last()]
        } else {
            Seq::empty()
        }
    }
}

/// The rows of the table element `t` that have at least one cell.
pub open spec fn table_rows(t: DomTree) -> Seq<Seq<CellView>> {
    non_empty_rows(table_rows_all(t.children))
}

/// The cells of the row element `tr`.
pub fn parse_tr(tr: &DomNode) -> (r: Row)
    ensures
        row_view(r) == cells(tr@.children),
{
    let ghost ts = tr@.children;
    proof {
        lemma_node_trees(tr.children@);
        assert(ts.take(0) == Seq::<DomTree>::empty());
    }
    let mut r: Row = Vec::new();
    for i in 0..tr.children.len()
        invariant
            ts == node_trees(tr.children@),
            ts.len() == tr.children@.len(),
            forall|j: int| 0 <= j < ts.len() ==> ts[j] == #[trigger] tr.children@[j]@,
            row_view(r) == cells(ts.take(i as int)),
    {
        let c = &tr.children[i];
        assert(ts.take(i + 1).drop_last() == ts.take(i as int));
        assert(ts.take(i + 1).last() == c@);
        let is_td = node_is_named(c, "td");
        let is_th = node_is_named(c, "th");
        if is_td || is_th {
            let text = text_of(c);
            let t = trim_chars(&text);
            r.push((string_from_chars(&t), is_th));
        }
        assert(row_view(r) == cells(ts.take(i + 1)));
    }
    assert(ts.take(ts.len() as int) == ts);
    r
}

fn push_section_rows(section: &DomNode, rows: &mut Vec<Row>)
    ensures
        rows_view(final(rows)@) == rows_view(old(rows)@) + section_rows(section@.children),
{
    let ghost ts = section@.children;
    let ghost start = rows_view(rows@);
    proof {
        lemma_node_trees(section.children@);
        assert(ts.take(0) == Seq::<DomTree>::empty());
        assert(start + Seq::<Seq<CellView>>::empty() == start);
    }
    for i in 0..section.children.len()
        invariant
            ts == node_trees(section.children@),
            ts.len() == section.children@.len(),
            forall|j: int| 0 <= j < ts.len() ==> ts[j] == #[trigger] section.children@[j]@,
            rows_view(rows@) == start + section_rows(ts.take(i as int)),
    {
        let c = &section.children[i];
        assert(ts.take(i + 1).drop_last() == ts.take(i as int));
        assert(ts.take(i + 1).last() == c@);
        let ghost before = rows@;
        if node_is_named(c, "tr") {
            let row = parse_tr(c);
            rows.push(row);
            assert(rows_view(rows@) =~= rows_view(before) + seq![row_view(row)]);
        }
        assert(rows_view(rows@) =~= start + section_rows(ts.take(i + 1)));
    }
    assert(ts.take(ts.len() as int) == ts);
}

/// The rows of the table element `table` that have at least one cell.
pub fn table_to_rows(table: &DomNode) -> (r: Vec<Row>)
    ensures
        rows_view(r@) == table_rows(table@),
{
    let ghost ts = table@.children;
    proof {
        lemma_node_trees(table.children@);
        assert(ts.take(0) == Seq::<DomTree>::empty());
    }
    let mut all: Vec<Row> = Vec::new();
    for i in 0..table.children.len()
        invariant
            ts == node_trees(table.children@),
            ts.len() == table.children@.len(),
            forall|j: int| 0 <= j < ts.len() ==> ts[j] == #[trigger] table.children@[j]@,
            rows_view(all@) == table_rows_all(ts.take(i as int)),
    {
        let c = &table.children[i];
        assert(ts.take(i + 1).drop_last() == ts.take(i as int));
        assert(ts.take(i + 1).last() == c@);
        if node_is_named(c, "tr") {
            let row = parse_tr(c);
            all.push(row);
        } else if node_is_named(c, "thead") || node_is_named(c, "tbody") || node_is_named(c, "tfoot") {
            push_section_rows(c, &mut all);
        }
        assert(rows_view(all@) == table_rows_all(ts.take(i + 1)));
    }
    assert(ts.take(ts.len() as int) == ts);
    let ghost all_rows = rows_view(all@);
    let mut kept: Vec<Row> = Vec::new();
    let mut k: usize = 0;
    assert(all_rows.take(0) == Seq::<Seq<CellView>>::empty());
    while k < all.len()
        invariant
            all_rows == rows_view(all@),
            all_rows.len() == all@.len(),
            k <= all@.len(),
            rows_view(kept@) == non_empty_rows(all_rows.take(k as int)),
        decreases all@.len() - k,
    {
        assert(all_rows.take(k + 1).drop_last() == all_rows.take(k as int));
        assert(all_rows.take(k + 1).last() == row_view(all@[k as int]));
        if all[k].len() > 0 {
            let row = copy_row(&all[k]);
            kept.push(row);
        }
        assert(rows_view(kept@) == non_empty_rows(all_rows.take(k + 1)));
        k = k + 1;
    }
    assert(all_rows.take(all_rows.len() as int) == all_rows);
    kept
}

fn copy_row(row: &Row) -> (r: Row)
    ensures
        row_view(r) == row_view(*row),
{
    let mut r: Row = Vec::new();
    for i in 0..row.len()
        invariant
            r@.len() == i,
            i <= row@.len(),
            forall|j: int| 0 <= j < i ==> #[trigger] cell_view(r@[j]) == cell_view(row@[j]),
    {
        r.push((row[i].0.clone(), row[i].1));
    }
    assert(row_view(r) == row_view(*row));
    r
}

// ── Markdown ────────────────────────────────────────────────────────────────

/// The number of cells of the longest row.
pub open spec fn max_cells(rows: Seq<Seq<CellView>>) -> nat
    decreases rows.len(),
{
    if rows.len() == 0 {
        0
    } else if rows.last().len() > max_cells(rows.drop_last()) {
        rows.last().len()
    } else {
        max_cells(rows.drop_last())
    }
}

/// `s` with each `|` written as `\|`.
pub open spec fn escape_pipes(s: Seq<char>) -> Seq<char>
    decreases s.len(),
{
    if s.len() == 0 {
        Seq::empty()
    } else {
        escape_pipes(s.drop_last()) + if s.last() == '|' {
            seq!['\\', '|']
        } else {
            seq![s.last()]
        }
    }
}

/// The Markdown text of cell `i` of `row`; empty past the row's end.
pub open spec fn cell_text(row: Seq<CellView>, i: int) -> Seq<char> {
    if 0 <= i < row.len() {
        escape_pipes(row[i].0)
    } else {
        Seq::empty()
    }
}

/// The first `k` cell texts of `row`, joined by ` | `.
pub open spec fn joined_cells(row: Seq<CellView>, k: nat) -> Seq<char>
    decreases k,
{
    if k == 0 {
        Seq::empty()
    } else if k == 1 {
        cell_text(row, 0)
    } else {
        joined_cells(row, (k - 1) as nat) + seq![' ', '|', ' '] + cell_text(row, k - 1)
    }
}

/// A Markdown table line holding the first `n` cells of `row`.
pub open spec fn row_line(row: Seq<CellView>, n: nat) -> Seq<char> {
    seq!['|', ' '] + joined_cells(row, n) + seq![' ', '|', '\n']
}

/// `n` column rules `---|`.
pub open spec fn dashes(n: nat) -> Seq<char>
    decreases n,
{
    if n == 0 {
        Seq::empty()
    } else {
        dashes((n - 1) as nat) + seq!['-', '-', '-', '|']
    }
}

/// The line that separates a Markdown table's header from its body.
pub open spec fn rule_line(n: nat) -> Seq<char> {
    seq!['|'] + dashes(n) + seq!['\n']
}

pub open spec fn has_header(row: Seq<CellView>) -> bool {
    exists|j: int| 0 <= j < row.len() && (#[trigger] row[j]).1
}

pub open spec fn any_header(rows: Seq<Seq<CellView>>) -> bool {
    exists|i: int| 0 <= i < rows.len() && has_header(#[trigger] rows[i])
}

/// One line per row, each with `n` cells; the rule line follows the first
/// row that has a header cell.
pub open spec fn markdown_lines(rows: Seq<Seq<CellView>>, n: nat) -> Seq<char>
    decreases rows.len(),
{
    if rows.len() == 0 {
        Seq::empty()
    } else {
        markdown_lines(rows.drop_last(), n) + row_line(rows.last(), n) + if has_header(rows.last())
            && !any_header(rows.drop_last()) {
            rule_line(n)
        } else {
            Seq::empty()
        }
    }
}

/// The Markdown table of `rows`, as wide as the longest row; empty when no
/// row has a cell.
pub open spec fn markdown_table(rows: Seq<Seq<CellView>>) -> Seq<char> {
    if rows.len() == 0 || max_cells(rows) == 0 {
        Seq::empty()
    } else {
        markdown_lines(rows, max_cells(rows))
    }
}

fn push_escaped(s: &String, out: &mut Vec<char>)
    ensures
        final(out)@ == old(out)@ + escape_pipes(s@),
{
    let v = chars_of(s.as_str());
    let ghost start = out@;
    assert(v@.take(0) == Seq::<char>::empty());
    assert(start + Seq::<char>::empty() == start);
    for j in 0..v.len()
        invariant
            v@ == s@,
            out@ == start + escape_pipes(v@.take(j as int)),
    {
        assert(v@.take(j + 1).drop_last() == v@.take(j as int));
        assert(v@.take(j + 1).last() == v@[j as int]);
        let ghost before = out@;
        if v[j] == '|' {
            out.push('\\');
            out.push('|');
            assert(out@ =~= before + seq!['\\', '|']);
        } else {
            out.push(v[j]);
            assert(out@ =~= before + seq![v@[j as int]]);
        }
        assert(out@ =~= start + escape_pipes(v@.take(j + 1)));
    }
    assert(v@.take(v@.len() as int) == v@);
}

fn push_row_line(row: &Row, n: usize, out: &mut Vec<char>)
    ensures
        final(out)@ == old(out)@ + row_line(row_view(*row), n as nat),
{
    let ghost start = out@;
    let ghost rv = row_view(*row);
    out.push('|');
    out.push(' ');
    let ghost head = out@;
    assert(head == start + seq!['|', ' ']);
    for c in 0..n
        invariant
            rv == row_view(*row),
            rv.len() == row@.len(),
            head == start + seq!['|', ' '],
            out@ == head + joined_cells(rv, c as nat),
    {
        let ghost before = out@;
        if c > 0 {
            out.push(' ');
            out.push('|');
            out.push(' ');
            assert(out@ =~= before + seq![' ', '|', ' ']);
        }
        let ghost mid = out@;
        if c < row.len() {
            push_escaped(&row[c].0, out);
            assert(rv[c as int].0 == row@[c as int].0@);
        }
        assert(out@ == mid + cell_text(rv, c as int));
        assert(out@ =~= head + joined_cells(rv, (c + 1) as nat));
    }
    let ghost body = out@;
    out.push(' ');
    out.push('|');
    out.push('\n');
    assert(out@ =~= body + seq![' ', '|', '\n']);
    assert(out@ =~= start + row_line(rv, n as nat));
}

fn push_rule_line(n: usize, out: &mut Vec<char>)
    ensures
        final(out)@ == old(out)@ + rule_line(n as nat),
{
    let ghost start = out@;
    out.push('|');
    let ghost head = out@;
    for c in 0..n
        invariant
            head == start + seq!['|'],
            out@ == head + dashes(c as nat),
    {
        let ghost before = out@;
        out.push('-');
        out.push('-');
        out.push('-');
        out.push('|');
        assert(out@ =~= before + seq!['-', '-', '-', '|']);
        assert(out@ =~= head + dashes((c + 1) as nat));
    }
    out.push('\n');
    assert(out@ =~= start + rule_line(n as nat));
}

fn row_has_header(row: &Row) -> (r: bool)
    ensures
        r == has_header(row_view(*row)),
{
    let ghost rv = row_view(*row);
    let mut j: usize = 0;
    while j < row.len()
        invariant
            rv == row_view(*row),
            rv.len() == row@.len(),
            j <= row@.len(),
            forall|k: int| 0 <= k < j ==> !(#[trigger] rv[k]).1,
        decreases row@.len() - j,
    {
        if row[j].1 {
            assert(rv[j as int].1);
            return true;
        }
        j = j + 1;
    }
    false
}

/// Renders rows as a Markdown table: one `| a | b |` line per row, padded
/// with empty cells to the longest row, `|` in cell text escaped as `\|`,
/// and a `|---|` rule after the first row that has a header cell. Empty
/// when no row has a cell.
pub fn rows_to_markdown(rows: &Vec<Row>) -> (r: String)
    ensures
        r@ == markdown_table(rows_view(rows@)),
{
    let ghost rs = rows_view(rows@);
    let mut n: usize = 0;
    let mut i: usize = 0;
    assert(rs.take(0) == Seq::<Seq<CellView>>::empty());
    while i < rows.len()
        invariant
            rs == rows_view(rows@),
            rs.len() == rows@.len(),
            i <= rows@.len(),
            n == max_cells(rs.take(i as int)),
        decreases rows@.len() - i,
    {
        assert(rs.take(i + 1).drop_last() == rs.take(i as int));
        assert(rs.take(i + 1).last() == row_view(rows@[i as int]));
        if rows[i].len() > n {
            n = rows[i].len();
        }
        i = i + 1;
    }
    assert(rs.take(rs.len() as int) == rs);
    if rows.len() == 0 || n == 0 {
        return String::new();
    }
    let mut out: Vec<char> = Vec::new();
    let mut rule_done = false;
    let mut k: usize = 0;
    while k < rows.len()
        invariant
            rs == rows_view(rows@),
            rs.len() == rows@.len(),
            n == max_cells(rs),
            k <= rows@.len(),
            out@ == markdown_lines(rs.take(k as int), n as nat),
            rule_done == any_header(rs.take(k as int)),
        decreases rows@.len() - k,
    {
        let ghost prev = rs.take(k as int);
        assert(rs.take(k + 1).drop_last() == prev);
        assert(rs.take(k + 1).last() == row_view(rows@[k as int]));
        push_row_line(&rows[k], n, &mut out);
        let header = row_has_header(&rows[k]);
        let ghost lines = out@;
        if header && !rule_done {
            push_rule_line(n, &mut out);
            rule_done = true;
        } else {
            assert(out@ == lines + Seq::<char>::empty());
        }
        proof {
            let next = rs.take(k + 1);
            if any_header(next) && !any_header(prev) {
                let w = choose|w: int| 0 <= w < next.len() && has_header(#[trigger] next[w]);
                assert(w == k);
            }
            if any_header(prev) {
                let w = choose|w: int| 0 <= w < prev.len() && has_header(#[trigger] prev[w]);
                assert(next[w] == prev[w]);
            }
            if header {
                assert(next[k as int] == row_view(rows@[k as int]));
            }
        }
        k = k + 1;
    }
    assert(rs.take(rs.len() as int) == rs);
    string_from_chars(&out)
}

/// The widest row bounds every row, and is reached by one of them.
proof fn lemma_max_cells(rows: Seq<Seq<CellView>>)
    ensures
        forall|i: int| 0 <= i < rows.len() ==> (#[trigger] rows[i]).len() <= max_cells(rows),
        rows.len() > 0 ==> exists|i: int| 0 <= i < rows.len() && (#[trigger] rows[i]).len() == max_cells(rows),
    decreases rows.len(),
{
    if rows.len() > 0 {
        let init = rows.drop_last();
        lemma_max_cells(init);
        assert forall|i: int| 0 <= i < rows.len() implies (#[trigger] rows[i]).len() <= max_cells(rows) by {
            if i < init.len() {
                assert(rows[i] == init[i]);
            }
        }
        if rows.last().len() > max_cells(init) {
            assert(rows[rows.len() - 1].len() == max_cells(rows));
        } else if init.len() > 0 {
            let i = choose|i: int| 0 <= i < init.len() && (#[trigger] init[i]).len() == max_cells(init);
            assert(rows[i] == init[i]);
        } else {
            assert(rows[0].len() == 0);
        }
    }
}

proof fn lemma_markdown_lines_nonempty(rows: Seq<Seq<CellView>>, n: nat)
    requires
        rows.len() > 0,
    ensures
        markdown_lines(rows, n).len() > 0,
{
    assert(row_line(rows.last(), n).len() > 0);
}

/// A Markdown table is empty exactly when no row has a cell.
pub proof fn law_markdown_empty_iff_no_cells(rows: Seq<Seq<CellView>>)
    ensures
        markdown_table(rows).len() == 0 <==> forall|i: int| 0 <= i < rows.len() ==> (#[trigger] rows[i]).len() == 0,
{
    lemma_max_cells(rows);
    if rows.len() > 0 && max_cells(rows) > 0 {
        lemma_markdown_lines_nonempty(rows, max_cells(rows));
        let i = choose|i: int| 0 <= i < rows.len() && (#[trigger] rows[i]).len() == max_cells(rows);
        assert(rows[i].len() > 0);
    }
}

/// The Markdown lines are the row lines plus one rule line, and the rule
/// line is there exactly when some row has a header cell.
pub proof fn law_markdown_length(rows: Seq<Seq<CellView>>, n: nat)
    ensures
        markdown_lines(rows, n).len() == sum_row_lines(rows, n) + if any_header(rows) {
            rule_line(n).len()
        } else {
            0
        },
    decreases rows.len(),
{
    if rows.len() > 0 {
        let init = rows.drop_last();
        law_markdown_length(init, n);
        if any_header(init) {
            let w = choose|w: int| 0 <= w < init.len() && has_header(#[trigger] init[w]);
            assert(rows[w] == init[w]);
        }
        if any_header(rows) && !any_header(init) {
            let w = choose|w: int| 0 <= w < rows.len() && has_header(#[trigger] rows[w]);
            if w < init.len() {
                assert(rows[w] == init[w]);
            }
        }
    }
}

/// The total length of the row lines of `rows`.
pub open spec fn sum_row_lines(rows: Seq<Seq<CellView>>, n: nat) -> nat
    decreases rows.len(),
{
    if rows.len() == 0 {
        0
    } else {
        sum_row_lines(rows.drop_last(), n) + row_line(rows.last(), n).len()
    }
}

proof fn lemma_section_rows_contain(ts: Seq<DomTree>, j: int)
    requires
        0 <= j < ts.len(),
        is_named(ts[j], "tr"@),
    ensures
        section_rows(ts).contains(cells(ts[j].children)),
    decreases ts.len(),
{
    let init = ts.drop_last();
    let row = cells(ts[j].children);
    if j == ts.len() - 1 {
        assert(section_rows(ts)[section_rows(init).len() as int] == row);
    } else {
        lemma_section_rows_contain(init, j);
        assert(init[j] == ts[j]);
        let k = choose|k: int| 0 <= k < section_rows(init).len() && section_rows(init)[k] == row;
        assert(section_rows(ts)[k] == row);
    }
}

proof fn lemma_table_rows_all_contain(ts: Seq<DomTree>, i: int, r: Seq<CellView>)
    requires
        0 <= i < ts.len(),
        is_named(ts[i], "thead"@) || is_named(ts[i], "tbody"@) || is_named(ts[i], "tfoot"@),
        section_rows(ts[i].children).contains(r),
    ensures
        table_rows_all(ts).contains(r),
    decreases ts.len(),
{
    let init = ts.drop_last();
    if i == ts.len() - 1 {
        reveal_strlit("tr");
        reveal_strlit("thead");
        reveal_strlit("tbody");
        reveal_strlit("tfoot");
        assert(!is_named(ts[i], "tr"@)) by {
            if is_named(ts[i], "tr"@) {
                assert(element_name(ts[i]).len() == 2);
            }
        }
        let part = section_rows(ts[i].children);
        let k = choose|k: int| 0 <= k < part.len() && part[k] == r;
        assert(table_rows_all(ts)[table_rows_all(init).len() + k] == r);
    } else {
        lemma_table_rows_all_contain(init, i, r);
        assert(init[i] == ts[i]);
        let k = choose|k: int| 0 <= k < table_rows_all(init).len() && table_rows_all(init)[k] == r;
        assert(table_rows_all(ts)[k] == r);
    }
}

proof fn lemma_non_empty_rows_contain(rows: Seq<Seq<CellView>>, r: Seq<CellView>)
    requires
        rows.contains(r),
        r.len() > 0,
    ensures
        non_empty_rows(rows).contains(r),
    decreases rows.len(),
{
    let init = rows.drop_last();
    if rows.last() == r {
        assert(non_empty_rows(rows)[non_empty_rows(init).len() as int] == r);
    } else {
        let k = choose|k: int| 0 <= k < rows.len() && rows[k] == r;
        assert(k < rows.len() - 1);
        assert(init[k] == r);
        lemma_non_empty_rows_contain(init, r);
        let m = choose|m: int| 0 <= m < non_empty_rows(init).len() && non_empty_rows(init)[m] == r;
        assert(non_empty_rows(rows)[m] == r);
    }
}

/// The rows of a table include each row of its `thead`, `tbody` and
/// `tfoot` sections that has a cell: a header row that sits in a `thead`
/// is one of the table's rows.
pub proof fn law_section_rows_are_table_rows(t: DomTree, i: int, j: int)
    requires
        0 <= i < t.children.len(),
        is_named(t.children[i], "thead"@) || is_named(t.children[i], "tbody"@) || is_named(
            t.children[i],
            "tfoot"@,
        ),
        0 <= j < t.children[i].children.len(),
        is_named(t.children[i].children[j], "tr"@),
        cells(t.children[i].children[j].children).len() > 0,
    ensures
        table_rows(t).contains(cells(t.children[i].children[j].children)),
{
    let r = cells(t.children[i].children[j].children);
    lemma_section_rows_contain(t.children[i].children, j);
    lemma_table_rows_all_contain(t.children, i, r);
    lemma_non_empty_rows_contain(table_rows_all(t.children), r);
}

// ── Tables of a document ────────────────────────────────────────────────────

/// Whether an element with these ancestors lies inside a `table` element.
pub open spec fn inside_table(ancestors: Seq<Option<Seq<char>>>) -> bool {
    exists|j: int| 0 <= j < ancestors.len() && ancestors[j] == Some("table"@)
}

/// The Markdown of each selected table that lies in no other table and has
/// a cell, in selection order.
pub open spec fn tables_markdown(sel: Seq<SelectedElement>) -> Seq<Seq<char>>
    decreases sel.len(),
{
    if sel.len() == 0 {
        Seq::empty()
    } else {
        tables_markdown(sel.drop_last()) + if !inside_table(sel.last().ancestors)
            && markdown_table(table_rows(sel.last().element)).len() > 0 {
            seq![markdown_table(table_rows(sel.last().element))]
        } else {
            Seq::empty()
        }
    }
}

/// The Markdown tables of a document.
pub open spec fn html_tables(html: Seq<char>) -> Seq<Seq<char>> {
    tables_markdown(selected_elements(html, "table"@))
}

pub open spec fn markdown_view(v: Seq<String>) -> Seq<Seq<char>> {
    v.map_values(|s: String| s@)
}

fn names_include_table(names: &Vec<Option<String>>) -> (r: bool)
    ensures
        r == inside_table(names_view(names@)),
{
    let ghost nv = names_view(names@);
    let mut j: usize = 0;
    while j < names.len()
        invariant
            nv == names_view(names@),
            nv.len() == names@.len(),
            j <= names@.len(),
            forall|k: int| 0 <= k < j ==> nv[k] != Some("table"@),
        decreases names@.len() - j,
    {
        match &names[j] {
            Some(name) => {
                let v = chars_of(name.as_str());
                if chars_eq_str(&v, "table") {
                    assert(nv[j as int] == Some("table"@));
                    return true;
                }
            },
            None => {},
        }
        j = j + 1;
    }
    false
}

/// The Markdown tables of a document parsed with the `table` selector
/// `table`.
pub fn tables_with(html: &str, table: &CssSelector) -> (r: Vec<String>)
    requires
        table@ == "table"@,
    ensures
        markdown_view(r@) == html_tables(html@),
        forall|k: int| 0 <= k < r@.len() ==> (#[trigger] r@[k])@.len() > 0,
{
    proof {
        law_extracted_tables_are_outer_and_nonempty(selected_elements(html@, "table"@));
    }
    let elements = select_elements(html, table);
    let ancestors = select_ancestor_names(html, table);
    let ghost sel = selected_elements(html@, "table"@);
    let mut r: Vec<String> = Vec::new();
    assert(sel.take(0) == Seq::<SelectedElement>::empty());
    for i in 0..elements.len()
        invariant
            sel == selected_elements(html@, table@),
            elements@.len() == sel.len(),
            ancestors@.len() == sel.len(),
            forall|k: int| 0 <= k < elements@.len() ==> (#[trigger] elements@[k])@ == sel[k].element,
            forall|k: int| 0 <= k < ancestors@.len() ==> names_view(#[trigger] ancestors@[k]@) == sel[k].ancestors,
            markdown_view(r@) == tables_markdown(sel.take(i as int)),
    {
        assert(sel.take(i + 1).drop_last() == sel.take(i as int));
        assert(sel.take(i + 1).last() == sel[i as int]);
        let nested = names_include_table(&ancestors[i]);
        if !nested {
            let rows = table_to_rows(&elements[i]);
            let md = rows_to_markdown(&rows);
            if !md.as_str().is_empty() {
                r.push(md);
            }
        }
        assert(markdown_view(r@) == tables_markdown(sel.take(i + 1)));
    }
    assert(sel.take(sel.len() as int) == sel);
    assert forall|k: int| 0 <= k < r@.len() implies (#[trigger] r@[k])@.len() > 0 by {
        assert(markdown_view(r@)[k] == r@[k]@);
    }
    r
}

/// Each `<table>` that lies in no other table, rendered as Markdown, in
/// selection order; tables without cells are left out.
pub fn extract_tables_str(html: &str) -> (r: Vec<String>)
    requires
        selector_parses("table"@),
    ensures
        markdown_view(r@) == html_tables(html@),
        forall|k: int| 0 <= k < r@.len() ==> (#[trigger] r@[k])@.len() > 0,
{
    match CssSelector::new("table") {
        Ok(sel) => tables_with(html, &sel),
        Err(_) => Vec::new(),
    }
}

/// `extract_tables_str`, or the error of the `table` selector if `scraper`
/// refuses it.
pub fn try_extract_tables_str(html: &str) -> (r: Result<Vec<String>, SelectorError>)
    ensures
        r is Err <==> !selector_parses("table"@),
        r matches Ok(v) ==> markdown_view(v@) == html_tables(html@),
{
    match CssSelector::new("table") {
        Ok(_) => Ok(extract_tables_str(html)),
        Err(e) => Err(e),
    }
}

/// Every extracted table is non-empty Markdown of a table that lies in no
/// other table.
pub proof fn law_extracted_tables_are_outer_and_nonempty(sel: Seq<SelectedElement>)
    ensures
        forall|k: int| 0 <= k < tables_markdown(sel).len() ==> (#[trigger] tables_markdown(sel)[k]).len() > 0,
        forall|k: int|
            0 <= k < tables_markdown(sel).len() ==> exists|j: int|
                0 <= j < sel.len() && !inside_table(sel[j].ancestors) && markdown_table(
                    table_rows(sel[j].element),
                ) == #[trigger] tables_markdown(sel)[k],
    decreases sel.len(),
{
    if sel.len() > 0 {
        let init = sel.drop_last();
        law_extracted_tables_are_outer_and_nonempty(init);
        let out = tables_markdown(sel);
        assert forall|k: int| 0 <= k < out.len() implies (#[trigger] out[k]).len() > 0 && exists|j: int|
            0 <= j < sel.len() && !inside_table(sel[j].ancestors) && markdown_table(
                table_rows(sel[j].element),
            ) == out[k] by {
            if k < tables_markdown(init).len() {
                assert(out[k] == tables_markdown(init)[k]);
                let j = choose|j: int|
                    0 <= j < init.len() && !inside_table(init[j].ancestors) && markdown_table(
                        table_rows(init[j].element),
                    ) == #[trigger] tables_markdown(init)[k];
                assert(sel[j] == init[j]);
            } else {
                assert(sel[sel.len() - 1] == sel.last());
            }
        }
    }
}

} // verus!
