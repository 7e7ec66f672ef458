use rdom_tui::dom::{Dom, Node, NodeId};
use rdom_tui::path::node_by_id;
use rdom_tui::table::{size_all_tables, size_columns};

fn cell(dom: &mut Dom, text: &str) -> Node {
    let mut td = dom.create_element("td");
    let t = dom.create_text_node(text);
    td.append_child(t);
    td
}

fn row(dom: &mut Dom, texts: &[&str]) -> (Node, Vec<NodeId>) {
    let mut tr = dom.create_element("tr");
    let mut ids = Vec::new();
    for t in texts {
        let c = cell(dom, t);
        ids.push(c.id);
        tr.append_child(c);
    }
    (tr, ids)
}

fn cell_width(dom: &Dom, id: NodeId) -> Option<u16> {
    node_by_id(&dom.root, id).and_then(|n| n.ext.table_used_width)
}

fn two_row_table(row1: [&str; 2], row2: [&str; 2]) -> (Dom, Vec<NodeId>, Vec<NodeId>) {
    let mut dom = Dom::new();
    let mut table = dom.create_element("table");
    let mut tbody = dom.create_element("tbody");
    let (r1, c1) = row(&mut dom, &row1);
    let (r2, c2) = row(&mut dom, &row2);
    tbody.append_child(r1);
    tbody.append_child(r2);
    table.append_child(tbody);
    dom.root.append_child(table);
    (dom, c1, c2)
}

#[test]
fn size_all_tables_handles_multiple_tables() {
    let mut dom = Dom::new();
    let mut t1 = dom.create_element("table");
    let (r1, c1) = row(&mut dom, &["AAA"]);
    t1.append_child(r1);
    dom.root.append_child(t1);
    let mut t2 = dom.create_element("table");
    let (r2, c2) = row(&mut dom, &["BBBBBB"]);
    t2.append_child(r2);
    dom.root.append_child(t2);
    size_all_tables(&mut dom);
    assert_eq!(cell_width(&dom, c1[0]), Some(5));
    assert_eq!(cell_width(&dom, c2[0]), Some(8));
}

#[test]
fn all_cells_in_the_same_column_get_equal_widths_after_sync() {
    let (mut dom, r1, r2) = two_row_table(["Alice", "30"], ["Bob", "25"]);
    size_columns(&mut dom.root.children[0]);
    assert_eq!(cell_width(&dom, r1[0]), Some(7));
    assert_eq!(cell_width(&dom, r2[0]), Some(7));
    assert_eq!(cell_width(&dom, r1[1]), Some(4));
    assert_eq!(cell_width(&dom, r2[1]), Some(4));
}

#[test]
fn app_build_auto_syncs_all_tables_in_the_tree() {
    let (mut dom, r1, r2) = two_row_table(["Alice", "Engineer"], ["Bob", "PM"]);
    size_all_tables(&mut dom);
    assert_eq!(cell_width(&dom, r1[0]), Some(7));
    assert_eq!(cell_width(&dom, r2[0]), Some(7));
    assert_eq!(cell_width(&dom, r1[1]), Some(10));
    assert_eq!(cell_width(&dom, r2[1]), Some(10));
}

#[test]
fn empty_table_is_noop() {
    let mut dom = Dom::new();
    let table = dom.create_element("table");
    dom.root.append_child(table);
    size_columns(&mut dom.root.children[0]);
    assert_eq!(dom.root.children[0].children.len(), 0);
}

#[test]
fn bare_tr_without_tbody_is_included() {
    let mut dom = Dom::new();
    let mut table = dom.create_element("table");
    let (r1, c1) = row(&mut dom, &["Wide content"]);
    let (r2, c2) = row(&mut dom, &["x"]);
    table.append_child(r1);
    table.append_child(r2);
    dom.root.append_child(table);
    size_columns(&mut dom.root.children[0]);
    assert_eq!(cell_width(&dom, c1[0]), Some(14));
    assert_eq!(cell_width(&dom, c2[0]), Some(14));
}

#[test]
fn thead_and_tbody_rows_both_contribute() {
    let mut dom = Dom::new();
    let mut table = dom.create_element("table");
    let mut thead = dom.create_element("thead");
    let mut htr = dom.create_element("tr");
    let mut th = dom.create_element("th");
    let t = dom.create_text_node("Header");
    th.append_child(t);
    let th_id = th.id;
    htr.append_child(th);
    thead.append_child(htr);
    let mut tbody = dom.create_element("tbody");
    let (btr, c) = row(&mut dom, &["X"]);
    tbody.append_child(btr);
    table.append_child(thead);
    table.append_child(tbody);
    dom.root.append_child(table);
    size_columns(&mut dom.root.children[0]);
    assert_eq!(cell_width(&dom, th_id), Some(8));
    assert_eq!(cell_width(&dom, c[0]), Some(8));
}

#[test]
fn nested_element_text_is_measured() {
    let mut dom = Dom::new();
    let mut table = dom.create_element("table");
    let mut tr = dom.create_element("tr");
    let mut td = dom.create_element("td");
    let mut b = dom.create_element("b");
    let t = dom.create_text_node("bold");
    b.append_child(t);
    td.append_child(b);
    let td_id = td.id;
    tr.append_child(td);
    table.append_child(tr);
    dom.root.append_child(table);
    size_columns(&mut dom.root.children[0]);
    assert_eq!(cell_width(&dom, td_id), Some(6));
}

#[test]
fn cjk_graphemes_are_counted_as_wide() {
    let mut dom = Dom::new();
    let mut table = dom.create_element("table");
    let (tr, c) = row(&mut dom, &["漢字"]);
    table.append_child(tr);
    dom.root.append_child(table);
    size_columns(&mut dom.root.children[0]);
    assert_eq!(cell_width(&dom, c[0]), Some(6));
}

#[test]
fn author_width_is_a_floor_for_the_column() {
    let mut dom = Dom::new();
    let mut table = dom.create_element("table");
    let (mut tr, c) = row(&mut dom, &["ab", "cd"]);
    tr.children[0].ext.author_width = Some(9);
    table.append_child(tr);
    dom.root.append_child(table);
    size_columns(&mut dom.root.children[0]);
    assert_eq!(cell_width(&dom, c[0]), Some(9));
    assert_eq!(cell_width(&dom, c[1]), Some(4));
}
