//! `<table>` column-width synchronization: every column's used width is
//! the column's author width when one is specified, else its widest
//! cell's text width plus the cell padding; every cell of the column
//! records that width, so columns line up across rows.

use vstd::prelude::*;
use crate::dom::{collect_text, deep_text, Dom, Node, NodeExt};
use crate::text::{display_width, str_width};

verus! {

/// Horizontal padding implied by the UA `<td>` / `<th>` rule.
pub const CELL_H_PADDING: u16 = 2;

pub open spec fn is_cell(n: Node) -> bool {
    n.is_element("td"@) || n.is_element("th"@)
}

pub open spec fn is_row_group(n: Node) -> bool {
    n.is_element("thead"@) || n.is_element("tbody"@) || n.is_element("tfoot"@)
}

/// The `<td>` / `<th>` children among `children`.
pub open spec fn cells_in(children: Seq<Node>) -> Seq<Node>
    decreases children.len(),
{
    if children.len() == 0 {
        Seq::empty()
    } else {
        cells_in(children.drop_last()) + if is_cell(children.last()) {
            seq![children.last()]
        } else {
            Seq::empty()
        }
    }
}

pub open spec fn cells_of(row: Node) -> Seq<Node> {
    cells_in(row.children@)
}

/// The `<tr>` children among `children`.
pub open spec fn trs_in(children: Seq<Node>) -> Seq<Node>
    decreases children.len(),
{
    if children.len() == 0 {
        Seq::empty()
    } else {
        trs_in(children.drop_last()) + if children.last().is_element("tr"@) {
            seq![children.last()]
        } else {
            Seq::empty()
        }
    }
}

/// The rows of a table: its `<tr>` children, and the `<tr>` children
/// of its `<thead>` / `<tbody>` / `<tfoot>` children, in order.
pub open spec fn rows_in(children: Seq<Node>) -> Seq<Node>
    decreases children.len(),
{
    if children.len() == 0 {
        Seq::empty()
    } else {
        let last = children.last();
        rows_in(children.drop_last()) + if last.is_element("tr"@) {
            seq![last]
        } else if is_row_group(last) {
            trs_in(last.children@)
        } else {
            Seq::empty()
        }
    }
}

pub open spec fn rows_of(table: Node) -> Seq<Node> {
    rows_in(table.children@)
}

pub open spec fn sat_add(a: u16, b: u16) -> u16 {
    if a + b > u16::MAX {
        u16::MAX
    } else {
        (a + b) as u16
    }
}

/// A cell's content width: its text's display width plus the padding.
pub open spec fn cell_content(cell: Node) -> u16 {
    sat_add(str_width(deep_text(cell.children@)) as u16, CELL_H_PADDING)
}

pub open spec fn max16(a: u16, b: u16) -> u16 {
    if a >= b {
        a
    } else {
        b
    }
}

/// Widest content of column `i` over `rows`.
pub open spec fn col_content(rows: Seq<Node>, i: int) -> u16
    decreases rows.len(),
{
    if rows.len() == 0 {
        0
    } else {
        let cells = cells_of(rows.last());
        max16(
            col_content(rows.drop_last(), i),
            if 0 <= i < cells.len() {
                cell_content(cells[i])
            } else {
                0
            },
        )
    }
}

pub open spec fn max_opt(a: Option<u16>, b: Option<u16>) -> Option<u16> {
    match (a, b) {
        (None, x) => x,
        (x, None) => x,
        (Some(x), Some(y)) => Some(max16(x, y)),
    }
}

/// Largest author width of column `i` over `rows`, if any cell has one.
pub open spec fn col_author(rows: Seq<Node>, i: int) -> Option<u16>
    decreases rows.len(),
{
    if rows.len() == 0 {
        None
    } else {
        let cells = cells_of(rows.last());
        max_opt(
            col_author(rows.drop_last(), i),
            if 0 <= i < cells.len() {
                cells[i].ext.author_width
            } else {
                None
            },
        )
    }
}

/// Number of columns: the most cells any row has.
pub open spec fn ncols(rows: Seq<Node>) -> nat
    decreases rows.len(),
{
    if rows.len() == 0 {
        0
    } else {
        let n = cells_of(rows.last()).len();
        let m = ncols(rows.drop_last());
        if n >= m {
            n
        } else {
            m
        }
    }
}

/// Column `i`'s used width: its author width if specified, else its
/// content width.
pub open spec fn used_width(rows: Seq<Node>, i: int) -> u16 {
    match col_author(rows, i) {
        Some(w) => w,
        None => col_content(rows, i),
    }
}

/// The content width of a column is that of its widest cell: no cell
/// of the column is wider, and, when the column has a cell, one of them
/// is that wide.
pub proof fn law_column_fits_widest_cell(rows: Seq<Node>, i: int)
    ensures
        forall|r: int|
            0 <= r < rows.len() && 0 <= i < cells_of(rows[r]).len() ==> cell_content(cells_of(#[trigger] rows[r])[i])
                <= col_content(rows, i),
        (exists|r: int| 0 <= r < rows.len() && 0 <= i < cells_of(#[trigger] rows[r]).len()) ==> exists|r: int|
            0 <= r < rows.len() && 0 <= i < cells_of(rows[r]).len() && cell_content(cells_of(#[trigger] rows[r])[i])
                == col_content(rows, i),
    decreases rows.len(),
{
    if rows.len() > 0 {
        let init = rows.drop_last();
        law_column_fits_widest_cell(init, i);
        let last = rows.len() - 1;
        assert forall|r: int|
            0 <= r < rows.len() && 0 <= i < cells_of(rows[r]).len() implies cell_content(cells_of(#[trigger] rows[r])[i])
            <= col_content(rows, i) by {
            if r < last {
                assert(rows[r] == init[r]);
            }
        }
        if exists|r: int| 0 <= r < rows.len() && 0 <= i < cells_of(#[trigger] rows[r]).len() {
            let cells = cells_of(rows.last());
            if 0 <= i < cells.len() && cell_content(cells[i]) >= col_content(init, i) {
                assert(cell_content(cells_of(rows[last])[i]) == col_content(rows, i));
            } else {
                let r0 = choose|r: int| 0 <= r < rows.len() && 0 <= i < cells_of(#[trigger] rows[r]).len();
                assert(exists|r: int| 0 <= r < init.len() && 0 <= i < cells_of(#[trigger] init[r]).len()) by {
                    if r0 < last {
                        assert(init[r0] == rows[r0]);
                    } else {
                        lemma_col_content_zero(init, i);
                    }
                }
                let r1 = choose|r: int|
                    0 <= r < init.len() && 0 <= i < cells_of(init[r]).len() && cell_content(cells_of(#[trigger] init[r])[i])
                        == col_content(init, i);
                assert(init[r1] == rows[r1]);
            }
        }
    }
}

/// The author width of a column is its largest: when a cell of the
/// column has an author width, the column's is at least every one of
/// them and equal to one of them; when none has, the column has none.
pub proof fn law_column_author_is_largest(rows: Seq<Node>, i: int)
    ensures
        forall|r: int|
            0 <= r < rows.len() && 0 <= i < cells_of(#[trigger] rows[r]).len() ==> (cells_of(rows[r])[i].ext.author_width
                matches Some(w) ==> (col_author(rows, i) matches Some(m) && w <= m)),
        match col_author(rows, i) {
            Some(m) => exists|r: int|
                0 <= r < rows.len() && 0 <= i < cells_of(rows[r]).len() && cells_of(#[trigger] rows[r])[i].ext.author_width
                    == Some(m),
            None => forall|r: int|
                0 <= r < rows.len() && 0 <= i < cells_of(rows[r]).len() ==> cells_of(#[trigger] rows[r])[i].ext.author_width
                    is None,
        },
    decreases rows.len(),
{
    if rows.len() > 0 {
        let init = rows.drop_last();
        let last = rows.len() - 1;
        law_column_author_is_largest(init, i);
        assert forall|r: int|
            0 <= r < rows.len() && 0 <= i < cells_of(#[trigger] rows[r]).len() implies (cells_of(rows[r])[i].ext.author_width
                matches Some(w) ==> (col_author(rows, i) matches Some(m) && w <= m)) by {
            if r < last {
                assert(rows[r] == init[r]);
            }
        }
        if col_author(rows, i) is Some {
            let m = col_author(rows, i)->0;
            let cells = cells_of(rows.last());
            let here = if 0 <= i < cells.len() {
                cells[i].ext.author_width
            } else {
                None
            };
            if here == Some(m) {
                assert(cells_of(rows[last])[i].ext.author_width == Some(m));
            } else {
                assert(col_author(init, i) == Some(m));
                let r1 = choose|r: int|
                    0 <= r < init.len() && 0 <= i < cells_of(init[r]).len() && cells_of(#[trigger] init[r])[i].ext.author_width
                        == Some(m);
                assert(init[r1] == rows[r1]);
            }
        } else {
            assert forall|r: int|
                0 <= r < rows.len() && 0 <= i < cells_of(rows[r]).len() implies cells_of(#[trigger] rows[r])[i].ext.author_width
                is None by {
                if r < last {
                    assert(rows[r] == init[r]);
                }
            }
        }
    }
}

/// A column with no cell has no content width.
proof fn lemma_col_content_zero(rows: Seq<Node>, i: int)
    requires
        col_content(rows, i) > 0,
    ensures
        exists|r: int| 0 <= r < rows.len() && 0 <= i < cells_of(#[trigger] rows[r]).len(),
    decreases rows.len(),
{
    let init = rows.drop_last();
    let cells = cells_of(rows.last());
    if 0 <= i < cells.len() {
        assert(0 <= i < cells_of(rows[rows.len() - 1]).len());
    } else {
        lemma_col_content_zero(init, i);
        let r = choose|r: int| 0 <= r < init.len() && 0 <= i < cells_of(#[trigger] init[r]).len();
        assert(init[r] == rows[r]);
    }
}

/// Every cell of every row of `table` records its column's used width.
pub open spec fn sized(table: Node) -> bool {
    let rows = rows_of(table);
    forall|r: int, i: int|
        0 <= r < rows.len() && 0 <= i < cells_of(rows[r]).len() ==> (#[trigger] cells_of(rows[r])[i]).ext.table_used_width
            == Some(used_width(rows, i))
}

/// `cell` with used width `w` recorded.
pub open spec fn with_width(cell: Node, w: u16) -> Node {
    Node { ext: NodeExt { table_used_width: Some(w), ..cell.ext }, ..cell }
}

/// `children` with each cell that has a column in `used` recording
/// that column's width; other children are left as they are.
pub open spec fn write_cells(children: Seq<Node>, used: Seq<u16>) -> Seq<Node>
    decreases children.len(),
{
    if children.len() == 0 {
        Seq::empty()
    } else {
        let prev = children.drop_last();
        let last = children.last();
        let i = cells_in(prev).len();
        write_cells(prev, used).push(
            if is_cell(last) && i < used.len() {
                with_width(last, used[i as int])
            } else {
                last
            },
        )
    }
}

/// `new` is `old` with possibly other children.
pub open spec fn same_but_children(old: Node, new: Node) -> bool {
    &&& new.id == old.id
    &&& new.node_type == old.node_type
    &&& new.tag@ == old.tag@
    &&& new.text@ == old.text@
    &&& new.attrs == old.attrs
    &&& new.ext == old.ext
}

/// `new` is row `old` with its cells recording the widths `used`.
pub open spec fn row_written(old: Node, new: Node, used: Seq<u16>) -> bool {
    &&& same_but_children(old, new)
    &&& new.children@ == write_cells(old.children@, used)
}

/// `new` is row group `old` with its rows written.
pub open spec fn group_written(old: Node, new: Node, used: Seq<u16>) -> bool {
    &&& same_but_children(old, new)
    &&& new.children@.len() == old.children@.len()
    &&& forall|k: int|
        0 <= k < old.children@.len() ==> if old.children@[k].is_element("tr"@) {
            row_written(old.children@[k], #[trigger] new.children@[k], used)
        } else {
            new.children@[k] == old.children@[k]
        }
}

/// `new` is the table child `old` after the write pass.
pub open spec fn table_child_written(old: Node, new: Node, used: Seq<u16>) -> bool {
    if old.is_element("tr"@) {
        row_written(old, new, used)
    } else if is_row_group(old) {
        group_written(old, new, used)
    } else {
        new == old
    }
}

/// `new` is table `old` with the cells of all its rows recording the
/// widths `used`, and nothing else changed.
pub open spec fn table_written(old: Node, new: Node, used: Seq<u16>) -> bool {
    &&& same_but_children(old, new)
    &&& new.children@.len() == old.children@.len()
    &&& forall|k: int|
        0 <= k < old.children@.len() ==> table_child_written(
            old.children@[k],
            #[trigger] new.children@[k],
            used,
        )
}

/// The used width of every column of `rows`.
pub open spec fn used_widths(rows: Seq<Node>) -> Seq<u16> {
    Seq::new(ncols(rows), |i: int| used_width(rows, i))
}

/// Row sequences `news` and `olds` are related row by row by the write.
pub open spec fn rows_written(olds: Seq<Node>, news: Seq<Node>, used: Seq<u16>) -> bool {
    &&& news.len() == olds.len()
    &&& forall|r: int| 0 <= r < olds.len() ==> row_written(olds[r], #[trigger] news[r], used)
}

proof fn lemma_cells_prefix_len(children: Seq<Node>, j: int)
    requires
        0 <= j <= children.len(),
    ensures
        cells_in(children.take(j)).len() <= cells_in(children).len(),
    decreases children.len() - j,
{
    if j < children.len() {
        lemma_cells_prefix_len(children, j + 1);
        assert(children.take(j + 1).drop_last() =~= children.take(j));
    } else {
        assert(children.take(j) =~= children);
    }
}

proof fn lemma_cells_len(children: Seq<Node>)
    ensures
        cells_in(children).len() <= children.len(),
    decreases children.len(),
{
    if children.len() > 0 {
        lemma_cells_len(children.drop_last());
    }
}

proof fn lemma_write_cells(children: Seq<Node>, used: Seq<u16>)
    ensures
        write_cells(children, used).len() == children.len(),
        cells_in(write_cells(children, used)).len() == cells_in(children).len(),
        forall|i: int|
            0 <= i < cells_in(children).len() ==> #[trigger] cells_in(write_cells(children, used))[i] == if i
                < used.len() {
                with_width(cells_in(children)[i], used[i])
            } else {
                cells_in(children)[i]
            },
        forall|k: int|
            0 <= k < children.len() ==> {
                let w = #[trigger] write_cells(children, used)[k];
                ||| w == children[k]
                ||| is_cell(children[k]) && w.children
                    == children[k].children && w.tag@ == children[k].tag@ && w.node_type
                    == children[k].node_type
            },
    decreases children.len(),
{
    if children.len() > 0 {
        let prev = children.drop_last();
        lemma_write_cells(prev, used);
        let wp = write_cells(prev, used);
        let last = children.last();
        let i = cells_in(prev).len();
        let wl = if is_cell(last) && i < used.len() {
            with_width(last, used[i as int])
        } else {
            last
        };
        let wc = wp.push(wl);
        assert(wc.drop_last() =~= wp);
        assert(wc.last() == wl);
        assert forall|k: int| 0 <= k < children.len() implies {
            let w = #[trigger] wc[k];
            ||| w == children[k]
            ||| is_cell(children[k]) && w.children
                == children[k].children && w.tag@ == children[k].tag@ && w.node_type
                == children[k].node_type
        } by {
            if k < prev.len() {
                assert(wc[k] == wp[k]);
                assert(children[k] == prev[k]);
            }
        }
    }
}

/// Display width of a cell's text, plus the cell padding.
fn cell_content_width(cell: &Node) -> (r: u16)
    ensures
        r == cell_content(*cell),
{
    let mut text = String::new();
    collect_text(&cell.children, &mut text);
    assert(Seq::<char>::empty() + deep_text(cell.children@) =~= deep_text(cell.children@));
    let w = display_width(text.as_str()) as u16;
    w.saturating_add(CELL_H_PADDING)
}

/// The cells of a row, in order.
fn row_cells(row: &Node) -> (r: Vec<&Node>)
    ensures
        r@.len() == cells_of(*row).len(),
        forall|i: int| 0 <= i < r@.len() ==> *#[trigger] r@[i] == cells_of(*row)[i],
{
    let mut out: Vec<&Node> = Vec::new();
    let mut j: usize = 0;
    assert(row.children@.take(0) =~= Seq::<Node>::empty());
    while j < row.children.len()
        invariant
            j <= row.children@.len(),
            out@.len() == cells_in(row.children@.take(j as int)).len(),
            forall|i: int| 0 <= i < out@.len() ==> *#[trigger] out@[i] == cells_in(row.children@.take(j as int))[i],
        decreases row.children@.len() - j,
    {
        assert(row.children@.take(j + 1).drop_last() =~= row.children@.take(j as int));
        assert(row.children@.take(j + 1).last() == row.children@[j as int]);
        let c = &row.children[j];
        if c.has_tag("td") || c.has_tag("th") {
            out.push(c);
        }
        j = j + 1;
    }
    assert(row.children@.take(j as int) =~= row.children@);
    out
}

/// The rows of a table, in order.
fn table_rows(table: &Node) -> (r: Vec<&Node>)
    ensures
        r@.len() == rows_of(*table).len(),
        forall|i: int| 0 <= i < r@.len() ==> *#[trigger] r@[i] == rows_of(*table)[i],
{
    let mut out: Vec<&Node> = Vec::new();
    let mut j: usize = 0;
    assert(table.children@.take(0) =~= Seq::<Node>::empty());
    while j < table.children.len()
        invariant
            j <= table.children@.len(),
            out@.len() == rows_in(table.children@.take(j as int)).len(),
            forall|i: int| 0 <= i < out@.len() ==> *#[trigger] out@[i] == rows_in(table.children@.take(j as int))[i],
        decreases table.children@.len() - j,
    {
        let ghost prev = rows_in(table.children@.take(j as int));
        assert(table.children@.take(j + 1).drop_last() =~= table.children@.take(j as int));
        assert(table.children@.take(j + 1).last() == table.children@[j as int]);
        let c = &table.children[j];
        if c.has_tag("tr") {
            out.push(c);
        } else if c.has_tag("thead") || c.has_tag("tbody") || c.has_tag("tfoot") {
            let ghost before = out@;
            let mut k: usize = 0;
            assert(c.children@.take(0) =~= Seq::<Node>::empty());
            while k < c.children.len()
                invariant
                    k <= c.children@.len(),
                    out@.len() == before.len() + trs_in(c.children@.take(k as int)).len(),
                    before.len() == prev.len(),
                    forall|i: int| 0 <= i < before.len() ==> *#[trigger] out@[i] == prev[i],
                    forall|i: int|
                        0 <= i < trs_in(c.children@.take(k as int)).len() ==> *#[trigger] out@[before.len() + i]
                            == trs_in(c.children@.take(k as int))[i],
                decreases c.children@.len() - k,
            {
                assert(c.children@.take(k + 1).drop_last() =~= c.children@.take(k as int));
                assert(c.children@.take(k + 1).last() == c.children@[k as int]);
                let g = &c.children[k];
                if g.has_tag("tr") {
                    out.push(g);
                }
                k = k + 1;
            }
            assert(c.children@.take(k as int) =~= c.children@);
            proof {
                let all = prev + trs_in(c.children@);
                assert forall|i: int| 0 <= i < out@.len() implies *#[trigger] out@[i] == all[i] by {
                    if i >= before.len() {
                        assert(out@[before.len() + (i - before.len())] == out@[i]);
                    }
                }
            }
        }
        j = j + 1;
    }
    assert(table.children@.take(j as int) =~= table.children@);
    out
}


/// Record width `w` on `cell`.
fn record_width(cell: &mut Node, w: u16)
    ensures
        *final(cell) == with_width(*old(cell), w),
{
    cell.ext.table_used_width = Some(w);
}

/// Record on each cell of `row` its column's width from `used`; a cell
/// with no column in `used` is left as it is.
fn write_row(row: &mut Node, used: &Vec<u16>)
    ensures
        row_written(*old(row), *final(row), used@),
{
    let ghost orig = row.children@;
    let mut j: usize = 0;
    let mut ci: usize = 0;
    assert(orig.take(0) =~= Seq::<Node>::empty());
    assert(row.children@ =~= write_cells(orig.take(0), used@) + orig.skip(0));
    while j < row.children.len()
        invariant
            j <= orig.len(),
            row.children@.len() == orig.len(),
            same_but_children(*old(row), *row),
            orig == old(row).children@,
            ci == cells_in(orig.take(j as int)).len(),
            row.children@ =~= write_cells(orig.take(j as int), used@) + orig.skip(j as int),
        decreases orig.len() - j,
    {
        proof {
            lemma_write_cells(orig.take(j as int), used@);
            lemma_cells_prefix_len(orig, j as int + 1);
        }
        let ghost before = row.children@;
        assert(orig.take(j + 1).drop_last() =~= orig.take(j as int));
        assert(orig.take(j + 1).last() == orig[j as int]);
        assert(before[j as int] == orig[j as int]);
        let is_c = row.children[j].has_tag("td") || row.children[j].has_tag("th");
        if is_c && ci < used.len() {
            let w = used[ci];
            record_width(&mut row.children[j], w);
        }
        proof {
            let wp = write_cells(orig.take(j as int), used@);
            assert(write_cells(orig.take(j + 1), used@) == wp.push(row.children@[j as int]));
            assert(row.children@ =~= write_cells(orig.take(j + 1), used@) + orig.skip(j + 1));
        }
        if is_c {
            proof {
                lemma_cells_len(orig.take(j + 1));
            }
            ci = ci + 1;
        }
        j = j + 1;
    }
    proof {
        lemma_write_cells(orig, used@);
        assert(orig.take(j as int) =~= orig);
        assert(row.children@ =~= write_cells(orig, used@));
    }
}

/// Write the rows of row group `group`.
fn write_group(group: &mut Node, used: &Vec<u16>)
    ensures
        group_written(*old(group), *final(group), used@),
{
    let mut j: usize = 0;
    while j < group.children.len()
        invariant
            j <= group.children@.len(),
            group.children@.len() == old(group).children@.len(),
            same_but_children(*old(group), *group),
            forall|k: int| j <= k < group.children@.len() ==> #[trigger] group.children@[k] == old(group).children@[k],
            forall|k: int|
                0 <= k < j ==> if old(group).children@[k].is_element("tr"@) {
                    row_written(old(group).children@[k], #[trigger] group.children@[k], used@)
                } else {
                    group.children@[k] == old(group).children@[k]
                },
        decreases group.children@.len() - j,
    {
        if group.children[j].has_tag("tr") {
            write_row(&mut group.children[j], used);
        }
        j = j + 1;
    }
}

/// Write the rows of `table`.
fn write_table(table: &mut Node, used: &Vec<u16>)
    ensures
        table_written(*old(table), *final(table), used@),
{
    let mut j: usize = 0;
    while j < table.children.len()
        invariant
            j <= table.children@.len(),
            table.children@.len() == old(table).children@.len(),
            same_but_children(*old(table), *table),
            forall|k: int| j <= k < table.children@.len() ==> #[trigger] table.children@[k] == old(table).children@[k],
            forall|k: int|
                0 <= k < j ==> table_child_written(old(table).children@[k], #[trigger] table.children@[k], used@),
        decreases table.children@.len() - j,
    {
        if table.children[j].has_tag("tr") {
            write_row(&mut table.children[j], used);
        } else if table.children[j].has_tag("thead") || table.children[j].has_tag("tbody")
            || table.children[j].has_tag("tfoot") {
            write_group(&mut table.children[j], used);
        }
        j = j + 1;
    }
}

/// The `<tr>` children of a written row group are the written rows.
proof fn lemma_trs_written(olds: Seq<Node>, news: Seq<Node>, used: Seq<u16>)
    requires
        news.len() == olds.len(),
        forall|k: int|
            0 <= k < olds.len() ==> if olds[k].is_element("tr"@) {
                row_written(olds[k], #[trigger] news[k], used)
            } else {
                news[k] == olds[k]
            },
    ensures
        rows_written(trs_in(olds), trs_in(news), used),
    decreases olds.len(),
{
    if olds.len() > 0 {
        let k = olds.len() - 1;
        assert(olds[k] == olds.last());
        assert(news[k] == news.last());
        lemma_trs_written(olds.drop_last(), news.drop_last(), used);
        let a = trs_in(olds.drop_last());
        let b = trs_in(news.drop_last());
        if olds.last().is_element("tr"@) {
            assert(news.last().is_element("tr"@));
            assert(rows_written(a + seq![olds.last()], b + seq![news.last()], used)) by {
                assert forall|r: int| 0 <= r < a.len() + 1 implies row_written(
                    (a + seq![olds.last()])[r],
                    #[trigger] (b + seq![news.last()])[r],
                    used,
                ) by {
                    if r < a.len() {
                        assert((a + seq![olds.last()])[r] == a[r]);
                        assert((b + seq![news.last()])[r] == b[r]);
                    }
                }
            }
        } else {
            assert(trs_in(olds) =~= a);
            assert(trs_in(news) =~= b);
        }
    }
}

/// The rows of a written table are its rows, written.
proof fn lemma_rows_written(olds: Seq<Node>, news: Seq<Node>, used: Seq<u16>)
    requires
        news.len() == olds.len(),
        forall|k: int| 0 <= k < olds.len() ==> table_child_written(olds[k], #[trigger] news[k], used),
    ensures
        rows_written(rows_in(olds), rows_in(news), used),
    decreases olds.len(),
{
    if olds.len() > 0 {
        let k = olds.len() - 1;
        assert(olds[k] == olds.last());
        assert(news[k] == news.last());
        lemma_rows_written(olds.drop_last(), news.drop_last(), used);
        let a = rows_in(olds.drop_last());
        let b = rows_in(news.drop_last());
        let o = olds.last();
        let n = news.last();
        assert(table_child_written(o, n, used));
        let sa = if o.is_element("tr"@) {
            seq![o]
        } else if is_row_group(o) {
            trs_in(o.children@)
        } else {
            Seq::empty()
        };
        let sb = if n.is_element("tr"@) {
            seq![n]
        } else if is_row_group(n) {
            trs_in(n.children@)
        } else {
            Seq::empty()
        };
        if o.is_element("tr"@) {
            assert(rows_written(sa, sb, used));
        } else if is_row_group(o) {
            assert(!n.is_element("tr"@));
            lemma_trs_written(o.children@, n.children@, used);
        } else {
            assert(n == o);
        }
        assert(rows_in(olds) == a + sa);
        assert(rows_in(news) == b + sb);
        assert forall|r: int| 0 <= r < a.len() + sa.len() implies row_written(
            (a + sa)[r],
            #[trigger] (b + sb)[r],
            used,
        ) by {
            if r < a.len() {
                assert((a + sa)[r] == a[r]);
                assert((b + sb)[r] == b[r]);
            } else {
                assert((a + sa)[r] == sa[r - a.len()]);
                assert((b + sb)[r] == sb[r - a.len()]);
            }
        }
    }
}

/// The cells of a written row are its cells, each with its column's
/// width when `used` has one.
proof fn lemma_cells_written(old: Node, new: Node, used: Seq<u16>)
    requires
        row_written(old, new, used),
    ensures
        cells_of(new).len() == cells_of(old).len(),
        forall|i: int|
            0 <= i < cells_of(old).len() ==> #[trigger] cells_of(new)[i] == if i < used.len() {
                with_width(cells_of(old)[i], used[i])
            } else {
                cells_of(old)[i]
            },
{
    lemma_write_cells(old.children@, used);
}

/// Writing widths leaves every column's content and author widths, and
/// the number of columns, as they were.
proof fn lemma_cols_preserved(olds: Seq<Node>, news: Seq<Node>, used: Seq<u16>)
    requires
        rows_written(olds, news, used),
    ensures
        ncols(news) == ncols(olds),
        forall|i: int| #[trigger] col_content(news, i) == col_content(olds, i),
        forall|i: int| #[trigger] col_author(news, i) == col_author(olds, i),
    decreases olds.len(),
{
    if olds.len() > 0 {
        let k = olds.len() - 1;
        assert(olds[k] == olds.last());
        assert(news[k] == news.last());
        assert forall|r: int| 0 <= r < olds.len() - 1 implies row_written(
            olds.drop_last()[r],
            #[trigger] news.drop_last()[r],
            used,
        ) by {
            assert(row_written(olds[r], news[r], used));
        }
        lemma_cols_preserved(olds.drop_last(), news.drop_last(), used);
        assert(row_written(olds[k], news[k], used));
        lemma_cells_written(olds.last(), news.last(), used);
        let co = cells_of(olds.last());
        let cn = cells_of(news.last());
        assert forall|i: int| #[trigger] col_content(news, i) == col_content(olds, i) by {
            assert(col_content(news.drop_last(), i) == col_content(olds.drop_last(), i));
            if 0 <= i < co.len() {
                assert(cn[i] == if i < used.len() {
                    with_width(co[i], used[i])
                } else {
                    co[i]
                });
                assert(cell_content(cn[i]) == cell_content(co[i]));
            }
        }
        assert forall|i: int| #[trigger] col_author(news, i) == col_author(olds, i) by {
            assert(col_author(news.drop_last(), i) == col_author(olds.drop_last(), i));
            if 0 <= i < co.len() {
                assert(cn[i] == if i < used.len() {
                    with_width(co[i], used[i])
                } else {
                    co[i]
                });
            }
        }
    }
}

/// No row has more cells than there are columns.
proof fn lemma_ncols_bound(rows: Seq<Node>)
    ensures
        forall|r: int| 0 <= r < rows.len() ==> #[trigger] cells_of(rows[r]).len() <= ncols(rows),
    decreases rows.len(),
{
    if rows.len() > 0 {
        lemma_ncols_bound(rows.drop_last());
        assert forall|r: int| 0 <= r < rows.len() implies #[trigger] cells_of(rows[r]).len() <= ncols(rows) by {
            if r < rows.len() - 1 {
                assert(rows[r] == rows.drop_last()[r]);
            }
        }
    }
}

/// Past the last column there is neither content nor author width.
proof fn lemma_col_beyond(rows: Seq<Node>, i: int)
    requires
        i >= ncols(rows),
    ensures
        col_content(rows, i) == 0,
        col_author(rows, i) is None,
    decreases rows.len(),
{
    if rows.len() > 0 {
        lemma_col_beyond(rows.drop_last(), i);
    }
}

/// Pass one: the used width of every column of `table`.
fn column_widths(table: &Node) -> (r: Vec<u16>)
    ensures
        r@ == used_widths(rows_of(*table)),
{
    let rows = table_rows(table);
    let ghost rs = rows_of(*table);
    let mut explicit: Vec<Option<u16>> = Vec::new();
    let mut content: Vec<u16> = Vec::new();
    let mut r: usize = 0;
    assert(rs.take(0) =~= Seq::<Node>::empty());
    while r < rows.len()
        invariant
            rows@.len() == rs.len(),
            forall|k: int| 0 <= k < rows@.len() ==> *#[trigger] rows@[k] == rs[k],
            r <= rs.len(),
            content@.len() == ncols(rs.take(r as int)),
            explicit@.len() == content@.len(),
            forall|k: int| 0 <= k < content@.len() ==> #[trigger] content@[k] == col_content(rs.take(r as int), k),
            forall|k: int| 0 <= k < explicit@.len() ==> #[trigger] explicit@[k] == col_author(rs.take(r as int), k),
        decreases rs.len() - r,
    {
        let ghost prev = rs.take(r as int);
        let ghost next = rs.take(r + 1);
        assert(next.drop_last() =~= prev);
        assert(next.last() == rs[r as int]);
        let cells = row_cells(rows[r]);
        let ghost cs = cells_of(rs[r as int]);
        let mut i: usize = 0;
        while i < cells.len()
            invariant
                r < rs.len(),
                next.drop_last() == prev,
                next.last() == rs[r as int],
                next.len() > 0,
                cs == cells_of(rs[r as int]),
                cells@.len() == cs.len(),
                forall|k: int| 0 <= k < cells@.len() ==> *#[trigger] cells@[k] == cs[k],
                i <= cs.len(),
                content@.len() == (if ncols(prev) >= i {
                    ncols(prev)
                } else {
                    i as nat
                }),
                explicit@.len() == content@.len(),
                forall|k: int|
                    0 <= k < content@.len() ==> #[trigger] content@[k] == if k < i {
                        col_content(next, k)
                    } else {
                        col_content(prev, k)
                    },
                forall|k: int|
                    0 <= k < explicit@.len() ==> #[trigger] explicit@[k] == if k < i {
                        col_author(next, k)
                    } else {
                        col_author(prev, k)
                    },
            decreases cs.len() - i,
        {
            if i >= content.len() {
                proof {
                    lemma_col_beyond(prev, i as int);
                }
                explicit.push(None);
                content.push(0);
            }
            let c = cells[i];
            match c.ext.author_width {
                Some(w) => {
                    let e = match explicit[i] {
                        Some(e) => if e >= w {
                            e
                        } else {
                            w
                        },
                        None => w,
                    };
                    explicit.set(i, Some(e));
                },
                None => {},
            }
            let total = cell_content_width(c);
            if total > content[i] {
                content.set(i, total);
            }
            i = i + 1;
        }
        proof {
            assert forall|k: int| 0 <= k < content@.len() implies #[trigger] content@[k] == col_content(next, k) by {
                if k >= cs.len() {
                    assert(col_content(next, k) == max16(col_content(prev, k), 0));
                }
            }
            assert forall|k: int| 0 <= k < explicit@.len() implies #[trigger] explicit@[k] == col_author(next, k) by {
                if k >= cs.len() {
                    assert(col_author(next, k) == max_opt(col_author(prev, k), None));
                }
            }
        }
        r = r + 1;
    }
    assert(rs.take(r as int) =~= rs);
    let mut used: Vec<u16> = Vec::new();
    let mut i: usize = 0;
    while i < content.len()
        invariant
            i <= content@.len(),
            content@.len() == ncols(rs),
            explicit@.len() == content@.len(),
            forall|k: int| 0 <= k < content@.len() ==> #[trigger] content@[k] == col_content(rs, k),
            forall|k: int| 0 <= k < explicit@.len() ==> #[trigger] explicit@[k] == col_author(rs, k),
            used@ =~= used_widths(rs).take(i as int),
        decreases content@.len() - i,
    {
        let w = match explicit[i] {
            Some(w) => w,
            None => content[i],
        };
        used.push(w);
        i = i + 1;
    }
    assert(used_widths(rs).take(i as int) =~= used_widths(rs));
    used
}

/// Resolve each column's used width for `table` (the column's author
/// width if one is specified, else its widest content plus the cell
/// padding) and record it on every cell of the column.
pub fn size_columns(table: &mut Node)
    ensures
        table_written(*old(table), *final(table), used_widths(rows_of(*old(table)))),
        sized(*final(table)),
{
    let used = column_widths(table);
    let ghost before = *table;
    write_table(table, &used);
    proof {
        let ro = rows_of(before);
        let rn = rows_of(*table);
        lemma_rows_written(before.children@, table.children@, used@);
        lemma_cols_preserved(ro, rn, used@);
        lemma_ncols_bound(ro);
        assert forall|r: int, i: int|
            0 <= r < rn.len() && 0 <= i < cells_of(rn[r]).len() implies (#[trigger] cells_of(
            rn[r],
        )[i]).ext.table_used_width == Some(used_width(rn, i)) by {
            lemma_cells_written(ro[r], rn[r], used@);
            assert(cells_of(ro[r]).len() <= ncols(ro));
            assert(used_width(rn, i) == used_width(ro, i));
        }
    }
}

/// Every `<table>` of the subtree of `n` is sized.
pub open spec fn all_tables_sized(n: Node) -> bool
    decreases n,
{
    &&& n.is_element("table"@) ==> sized(n)
    &&& forall|j: int| 0 <= j < n.children@.len() ==> all_tables_sized(#[trigger] n.children@[j])
}

proof fn lemma_not_table(n: Node)
    requires
        is_cell(n) || n.is_element("tr"@) || is_row_group(n),
    ensures
        !n.is_element("table"@),
{
    reveal_strlit("table");
    reveal_strlit("td");
    reveal_strlit("th");
    reveal_strlit("tr");
    reveal_strlit("thead");
    reveal_strlit("tbody");
    reveal_strlit("tfoot");
    assert("table"@[1] != "thead"@[1]);
    assert("table"@[1] != "tbody"@[1]);
    assert("table"@[1] != "tfoot"@[1]);
}

/// Writing a row keeps the tables below it sized.
proof fn lemma_row_keeps_sized(old: Node, new: Node, used: Seq<u16>)
    requires
        row_written(old, new, used),
        old.is_element("tr"@),
        all_tables_sized(old),
    ensures
        all_tables_sized(new),
{
    lemma_not_table(new);
    lemma_write_cells(old.children@, used);
    assert forall|j: int| 0 <= j < new.children@.len() implies all_tables_sized(#[trigger] new.children@[j]) by {
        let o = old.children@[j];
        let w = new.children@[j];
        assert(w == write_cells(old.children@, used)[j]);
        assert(all_tables_sized(o));
        if w != o {
            lemma_not_table(o);
            assert(w.children == o.children);
            assert(forall|k: int| 0 <= k < w.children@.len() ==> #[trigger] w.children@[k] == o.children@[k]);
        }
    }
}

/// Writing a table's rows keeps the tables below its children sized.
proof fn lemma_written_keeps_sized(old: Node, new: Node, used: Seq<u16>)
    requires
        table_written(old, new, used),
        forall|j: int| 0 <= j < old.children@.len() ==> all_tables_sized(#[trigger] old.children@[j]),
    ensures
        forall|j: int| 0 <= j < new.children@.len() ==> all_tables_sized(#[trigger] new.children@[j]),
{
    assert forall|j: int| 0 <= j < new.children@.len() implies all_tables_sized(#[trigger] new.children@[j]) by {
        let o = old.children@[j];
        let n = new.children@[j];
        assert(table_child_written(o, n, used));
        assert(all_tables_sized(o));
        if o.is_element("tr"@) {
            lemma_row_keeps_sized(o, n, used);
        } else if is_row_group(o) {
            lemma_not_table(n);
            assert forall|k: int| 0 <= k < n.children@.len() implies all_tables_sized(#[trigger] n.children@[k]) by {
                assert(all_tables_sized(o.children@[k]));
                if o.children@[k].is_element("tr"@) {
                    lemma_row_keeps_sized(o.children@[k], n.children@[k], used);
                }
            }
        }
    }
}

/// `new` is the subtree `old` after the sizing pass: every child subtree
/// sized first; then, on a `<table>`, its column pass (the cells of its
/// rows record the used widths of its columns). Nothing else changes.
pub open spec fn tables_sized_from(old: Node, new: Node) -> bool
    decreases old,
{
    if old.is_element("table"@) {
        exists|mid: Node|
            #[trigger] same_but_children(old, mid) && mid.children@.len() == old.children@.len() && (forall|j: int|
                0 <= j < old.children@.len() ==> tables_sized_from(#[trigger] old.children@[j], mid.children@[j]))
                && table_written(mid, new, used_widths(rows_of(mid)))
    } else {
        &&& same_but_children(old, new)
        &&& new.children@.len() == old.children@.len()
        &&& forall|j: int| 0 <= j < old.children@.len() ==> tables_sized_from(#[trigger] old.children@[j], new.children@[j])
    }
}

/// Size every `<table>` of the subtree of `n`.
fn size_subtree(n: &mut Node)
    ensures
        all_tables_sized(*final(n)),
        same_but_children(*old(n), *final(n)),
        tables_sized_from(*old(n), *final(n)),
    decreases *old(n),
{
    let mut i: usize = 0;
    while i < n.children.len()
        invariant
            i <= n.children@.len(),
            n.children@.len() == old(n).children@.len(),
            same_but_children(*old(n), *n),
            forall|j: int| i <= j < n.children@.len() ==> #[trigger] n.children@[j] == old(n).children@[j],
            forall|j: int| 0 <= j < i ==> all_tables_sized(#[trigger] n.children@[j]),
            forall|j: int| 0 <= j < i ==> tables_sized_from(#[trigger] old(n).children@[j], n.children@[j]),
        decreases n.children@.len() - i,
    {
        assert(decreases_to!(*old(n) => old(n).children@[i as int]));
        size_subtree(&mut n.children[i]);
        i = i + 1;
    }
    if n.has_tag("table") {
        let ghost before = *n;
        size_columns(n);
        proof {
            lemma_written_keeps_sized(before, *n, used_widths(rows_of(before)));
            assert(same_but_children(*old(n), before));
            assert(tables_sized_from(*old(n), *n));
        }
    } else {
        assert(!old(n).is_element("table"@));
        assert(tables_sized_from(*old(n), *n));
    }
}

/// Size the columns of every `<table>` of the document: each table's
/// cells record the used widths of its columns (tables nested in cells
/// first). Nothing else changes.
pub fn size_all_tables(dom: &mut Dom)
    ensures
        tables_sized_from(old(dom).root, final(dom).root),
        all_tables_sized(final(dom).root),
        same_but_children(old(dom).root, final(dom).root),
        final(dom).focused == old(dom).focused,
        final(dom).next_id == old(dom).next_id,
{
    size_subtree(&mut dom.root);
}

} // verus!
