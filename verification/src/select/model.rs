//! The option list of a `<select>`: which `<option>`s belong to it
//! (descending `<optgroup>`), their selectedness and markers, and the
//! one write path every selection change goes through.

use vstd::prelude::*;
use crate::dom::{Node, NodeId, direct_text};

verus! {

/// Marker on the currently-focused option within a multi-select.
pub open spec fn highlight_name() -> Seq<char> {
    "data-rdom-highlight"@
}

/// Marker on the anchor of a shift-extend range selection.
pub open spec fn anchor_name() -> Seq<char> {
    "data-rdom-anchor"@
}

/// The three names an option write touches are distinct, and distinct
/// from `disabled`.
pub proof fn lemma_marker_names_distinct()
    ensures
        "selected"@ != highlight_name(),
        "selected"@ != anchor_name(),
        highlight_name() != anchor_name(),
        "disabled"@ != "selected"@,
        "disabled"@ != highlight_name(),
        "disabled"@ != anchor_name(),
{
    reveal_strlit("selected");
    reveal_strlit("disabled");
    reveal_strlit("data-rdom-highlight");
    reveal_strlit("data-rdom-anchor");
    assert("selected"@.len() != highlight_name().len());
    assert("selected"@.len() != anchor_name().len());
    assert(highlight_name().len() != anchor_name().len());
    assert("disabled"@.len() == "selected"@.len());
    assert("disabled"@[0] != "selected"@[0]);
    assert("disabled"@.len() != highlight_name().len());
    assert("disabled"@.len() != anchor_name().len());
}

/// The options among `children`, in document order, each with whether
/// it sits in a disabled `<optgroup>`. Descends into `<optgroup>`s.
pub open spec fn opts_of(children: Seq<Node>, group_disabled: bool) -> Seq<(Node, bool)>
    decreases children,
{
    if children.len() == 0 {
        Seq::empty()
    } else {
        let last = children.last();
        opts_of(children.drop_last(), group_disabled) + if last.is_element("option"@) {
            seq![(last, group_disabled)]
        } else if last.is_element("optgroup"@) {
            opts_of(last.children@, group_disabled || last.has_attr("disabled"@))
        } else {
            Seq::empty()
        }
    }
}

/// The options of `select`, in document order.
pub open spec fn options_of(select: Node) -> Seq<(Node, bool)> {
    opts_of(select.children@, false)
}

/// The plain state of one option.
#[derive(Clone, Copy, Debug, PartialEq, Eq, Structural)]
pub struct OptionInfo {
    pub id: NodeId,
    pub selected: bool,
    pub disabled: bool,
    pub highlight: bool,
    pub anchor: bool,
    /// The captured `defaultSelected`, if any.
    pub default_selected: Option<bool>,
}

pub open spec fn info_of(o: (Node, bool)) -> OptionInfo {
    OptionInfo {
        id: o.0.id,
        selected: o.0.has_attr("selected"@),
        disabled: o.0.has_attr("disabled"@) || o.1,
        highlight: o.0.has_attr(highlight_name()),
        anchor: o.0.has_attr(anchor_name()),
        default_selected: o.0.ext.default_selected,
    }
}

/// The plain state of every option of `select`, in document order.
pub open spec fn infos_of(select: Node) -> Seq<OptionInfo> {
    options_of(select).map_values(|o: (Node, bool)| info_of(o))
}

/// What one write sets on one option.
#[derive(Clone, Copy, Debug, PartialEq, Eq, Structural)]
pub struct OptionWrite {
    pub selected: bool,
    pub highlight: bool,
    pub anchor: bool,
    /// Capture the option's current selectedness as its
    /// `defaultSelected` (when none was captured yet) before writing.
    pub capture_default: bool,
}

/// `flag`'s value after a write that wants it present or absent: a
/// present marker keeps its value, a missing one is added empty.
pub open spec fn flag_after(before: Option<Seq<char>>, want: bool) -> Option<Seq<char>> {
    if want == (before is Some) {
        before
    } else if want {
        Some(Seq::empty())
    } else {
        None
    }
}

/// `new` is `old` after write `w`.
pub open spec fn option_written(old: Node, new: Node, w: OptionWrite) -> bool {
    &&& new.id == old.id
    &&& new.node_type == old.node_type
    &&& new.tag@ == old.tag@
    &&& new.text@ == old.text@
    &&& new.children == old.children
    &&& new.ext.default_checked == old.ext.default_checked
    &&& new.ext.default_value == old.ext.default_value
    &&& new.ext.author_width == old.ext.author_width
    &&& new.ext.table_used_width == old.ext.table_used_width
    &&& new.ext.has_paint == old.ext.has_paint
    &&& new.ext.typeahead == old.ext.typeahead
    &&& new.ext.default_selected == if w.capture_default && old.ext.default_selected is None {
        Some(old.has_attr("selected"@))
    } else {
        old.ext.default_selected
    }
    &&& forall|n: Seq<char>|
        #![trigger new.attr(n)]
        new.attr(n) == if n == "selected"@ {
            flag_after(old.attr(n), w.selected)
        } else if n == highlight_name() {
            flag_after(old.attr(n), w.highlight)
        } else if n == anchor_name() {
            flag_after(old.attr(n), w.anchor)
        } else {
            old.attr(n)
        }
}

/// Each option of `new` is the matching option of `old` after the
/// matching write.
pub open spec fn opts_written(old: Seq<(Node, bool)>, new: Seq<(Node, bool)>, ws: Seq<OptionWrite>) -> bool {
    &&& new.len() == old.len()
    &&& ws.len() == old.len()
    &&& forall|i: int|
        0 <= i < old.len() ==> {
            &&& (#[trigger] new[i]).1 == old[i].1
            &&& option_written(old[i].0, new[i].0, ws[i])
        }
}

/// The info of an option after write `w`.
pub open spec fn info_after(i: OptionInfo, w: OptionWrite) -> OptionInfo {
    OptionInfo {
        selected: w.selected,
        highlight: w.highlight,
        anchor: w.anchor,
        default_selected: if w.capture_default && i.default_selected is None {
            Some(i.selected)
        } else {
            i.default_selected
        },
        ..i
    }
}

proof fn lemma_opts_written_concat(
    o1: Seq<(Node, bool)>,
    o2: Seq<(Node, bool)>,
    n1: Seq<(Node, bool)>,
    n2: Seq<(Node, bool)>,
    w1: Seq<OptionWrite>,
    w2: Seq<OptionWrite>,
)
    requires
        opts_written(o1, n1, w1),
        opts_written(o2, n2, w2),
    ensures
        opts_written(o1 + o2, n1 + n2, w1 + w2),
{
    assert forall|i: int| 0 <= i < (o1 + o2).len() implies {
        &&& (#[trigger] (n1 + n2)[i]).1 == (o1 + o2)[i].1
        &&& option_written((o1 + o2)[i].0, (n1 + n2)[i].0, (w1 + w2)[i])
    } by {
        if i < o1.len() {
            assert((n1 + n2)[i] == n1[i]);
            assert((o1 + o2)[i] == o1[i]);
            assert((w1 + w2)[i] == w1[i]);
        } else {
            assert((n1 + n2)[i] == n2[i - o1.len()]);
            assert((o1 + o2)[i] == o2[i - o1.len()]);
            assert((w1 + w2)[i] == w2[i - o1.len()]);
        }
    }
}

/// Write `w` to one option node.
fn write_option(opt: &mut Node, w: OptionWrite)
    ensures
        option_written(*old(opt), *final(opt), w),
{
    let was_selected = opt.has_attribute("selected");
    if w.capture_default && opt.ext.default_selected.is_none() {
        opt.ext.default_selected = Some(was_selected);
    }
    let ghost mid = *opt;
    write_flag(opt, "selected", w.selected);
    let ghost mid2 = *opt;
    write_flag(opt, "data-rdom-highlight", w.highlight);
    let ghost mid3 = *opt;
    write_flag(opt, "data-rdom-anchor", w.anchor);
    proof {
        lemma_marker_names_distinct();
    }
}

/// Make presence attribute `name` present or absent on `n`: add it empty
/// when missing and wanted, remove it when present and unwanted.
pub fn write_flag(n: &mut Node, name: &str, want: bool)
    ensures
        final(n).same_but_attrs(old(n)),
        forall|m: Seq<char>|
            #![trigger final(n).attr(m)]
            final(n).attr(m) == if m == name@ {
                flag_after(old(n).attr(m), want)
            } else {
                old(n).attr(m)
            },
{
    let present = n.has_attribute(name);
    if want && !present {
        n.set_attribute(name, "");
        proof {
            reveal_strlit("");
        }
    } else if !want && present {
        n.remove_attribute(name);
    }
}

/// `new` is `old` after an option write somewhere below: an option may
/// differ in attributes and captured state only, an optgroup only in its
/// children (recursively so), and every other node is unchanged.
pub open spec fn rewritten(old: Node, new: Node) -> bool
    decreases old,
{
    if old.is_element("option"@) {
        &&& new.id == old.id
        &&& new.node_type == old.node_type
        &&& new.tag@ == old.tag@
        &&& new.children == old.children
    } else if old.is_element("optgroup"@) {
        &&& new.id == old.id
        &&& new.node_type == old.node_type
        &&& new.tag@ == old.tag@
        &&& new.text@ == old.text@
        &&& new.attrs == old.attrs
        &&& new.ext == old.ext
        &&& new.children@.len() == old.children@.len()
        &&& forall|j: int| 0 <= j < old.children@.len() ==> rewritten(#[trigger] old.children@[j], new.children@[j])
    } else {
        new == old
    }
}

/// Apply `ws[pos..]` to the options among `children`, in document
/// order; returns the position after the last one used.
fn write_options_in(children: &mut Vec<Node>, group_disabled: bool, ws: &Vec<OptionWrite>, pos: usize) -> (r: usize)
    requires
        pos + opts_of(old(children)@, group_disabled).len() <= ws@.len(),
    ensures
        r == pos + opts_of(old(children)@, group_disabled).len(),
        opts_written(
            opts_of(old(children)@, group_disabled),
            opts_of(final(children)@, group_disabled),
            ws@.subrange(pos as int, r as int),
        ),
        final(children)@.len() == old(children)@.len(),
        forall|i: int|
            0 <= i < old(children)@.len() ==> {
                &&& (#[trigger] final(children)@[i]).id == old(children)@[i].id
                &&& final(children)@[i].node_type == old(children)@[i].node_type
                &&& final(children)@[i].tag@ == old(children)@[i].tag@
                &&& rewritten(old(children)@[i], final(children)@[i])
            },
    decreases old(children)@,
{
    let ghost orig = children@;
    let mut i: usize = 0;
    let mut p: usize = pos;
    assert(orig.take(0) =~= Seq::<Node>::empty());
    assert(opts_written(Seq::empty(), Seq::empty(), Seq::empty()));
    assert(ws@.subrange(pos as int, pos as int) =~= Seq::<OptionWrite>::empty());
    while i < children.len()
        invariant
            i <= children@.len(),
            children@.len() == orig.len(),
            pos + opts_of(orig, group_disabled).len() <= ws@.len(),
            p == pos + opts_of(orig.take(i as int), group_disabled).len(),
            opts_written(
                opts_of(orig.take(i as int), group_disabled),
                opts_of(children@.take(i as int), group_disabled),
                ws@.subrange(pos as int, p as int),
            ),
            forall|k: int| i <= k < orig.len() ==> #[trigger] children@[k] == orig[k],
            forall|k: int|
                0 <= k < orig.len() ==> {
                    &&& (#[trigger] children@[k]).id == orig[k].id
                    &&& children@[k].node_type == orig[k].node_type
                    &&& children@[k].tag@ == orig[k].tag@
                },
            forall|k: int| 0 <= k < i ==> rewritten(orig[k], #[trigger] children@[k]),
            orig == old(children)@,
        decreases children@.len() - i,
    {
        proof {
            lemma_opts_prefix_len(orig, group_disabled, i as int + 1);
        }
        let ghost before = children@;
        let ghost child_old = orig[i as int];
        assert(orig.take(i + 1).drop_last() =~= orig.take(i as int));
        assert(orig.take(i + 1).last() == child_old);
        if children[i].has_tag("option") {
            assert(opts_of(orig.take(i + 1), group_disabled) == opts_of(orig.take(i as int), group_disabled)
                + seq![(child_old, group_disabled)]);
            let w = ws[p];
            write_option(&mut children[i], w);
            proof {
                let nc = children@;
                assert(nc.take(i + 1).drop_last() =~= nc.take(i as int)) by {
                    assert forall|k: int| 0 <= k < i implies nc[k] == before[k] by {}
                }
                assert(nc.take(i as int) =~= before.take(i as int));
                assert(nc.take(i + 1).last() == nc[i as int]);
                assert(nc[i as int].is_element("option"@));
                assert(rewritten(orig[i as int], nc[i as int]));
                assert(forall|k: int| 0 <= k < i ==> nc[k] == before[k]);
                let single_o = seq![(child_old, group_disabled)];
                let single_n = seq![(nc[i as int], group_disabled)];
                let single_w = seq![ws@[p as int]];
                assert(opts_written(single_o, single_n, single_w));
                lemma_opts_written_concat(
                    opts_of(orig.take(i as int), group_disabled),
                    single_o,
                    opts_of(before.take(i as int), group_disabled),
                    single_n,
                    ws@.subrange(pos as int, p as int),
                    single_w,
                );
                assert(ws@.subrange(pos as int, p as int) + single_w =~= ws@.subrange(pos as int, p + 1));
            }
            assert(p < ws@.len());
            assert(p < ws.len());
            p = p + 1;
        } else if children[i].has_tag("optgroup") {
            let gd = group_disabled || children[i].has_attribute("disabled");
            let ghost ws_start = p;
            proof {
                lemma_opts_prefix_len(orig, group_disabled, i as int + 1);
            }
            let np = write_options_in(&mut children[i].children, gd, ws, p);
            proof {
                let nc = children@;
                assert(forall|k: int| 0 <= k < i ==> nc[k] == before[k]);
                assert(nc.take(i + 1).drop_last() =~= nc.take(i as int));
                assert(nc.take(i as int) =~= before.take(i as int));
                assert(nc.take(i + 1).last() == nc[i as int]);
                assert(nc[i as int].is_element("optgroup"@));
                assert(rewritten(orig[i as int], nc[i as int]));
                assert(nc[i as int].has_attr("disabled"@) == child_old.has_attr("disabled"@));
                lemma_opts_written_concat(
                    opts_of(orig.take(i as int), group_disabled),
                    opts_of(child_old.children@, gd),
                    opts_of(before.take(i as int), group_disabled),
                    opts_of(nc[i as int].children@, gd),
                    ws@.subrange(pos as int, p as int),
                    ws@.subrange(p as int, np as int),
                );
                assert(ws@.subrange(pos as int, p as int) + ws@.subrange(p as int, np as int)
                    =~= ws@.subrange(pos as int, np as int));
            }
            p = np;
        } else {
            proof {
                assert(children@.take(i + 1).drop_last() =~= children@.take(i as int));
                assert(children@.take(i + 1).last() == child_old);
                assert(opts_of(orig.take(i + 1), group_disabled) =~= opts_of(orig.take(i as int), group_disabled));
                assert(opts_of(children@.take(i + 1), group_disabled) =~= opts_of(children@.take(i as int), group_disabled));
            }
        }
        i = i + 1;
    }
    assert(orig.take(i as int) =~= orig);
    assert(children@.take(i as int) =~= children@);
    p
}

/// The options of a prefix of `children` are a prefix of its options.
proof fn lemma_opts_prefix_len(children: Seq<Node>, gd: bool, i: int)
    requires
        0 <= i <= children.len(),
    ensures
        opts_of(children.take(i), gd).len() <= opts_of(children, gd).len(),
    decreases children.len() - i,
{
    if i < children.len() {
        lemma_opts_prefix_len(children, gd, i + 1);
        assert(children.take(i + 1).drop_last() =~= children.take(i));
    } else {
        assert(children.take(i) =~= children);
    }
}

/// Apply `ws` to the options of `select`, in document order.
pub fn write_options(select: &mut Node, ws: &Vec<OptionWrite>)
    requires
        ws@.len() == options_of(*old(select)).len(),
    ensures
        opts_written(options_of(*old(select)), options_of(*final(select)), ws@),
        final(select).id == old(select).id,
        final(select).node_type == old(select).node_type,
        final(select).tag@ == old(select).tag@,
        final(select).attrs == old(select).attrs,
        final(select).ext == old(select).ext,
        final(select).children@.len() == old(select).children@.len(),
        forall|i: int|
            0 <= i < old(select).children@.len() ==> rewritten(
                #[trigger] old(select).children@[i],
                final(select).children@[i],
            ),
        infos_of(*final(select)) =~= Seq::new(
            ws@.len(),
            |i: int| info_after(infos_of(*old(select))[i], ws@[i]),
        ),
{
    let r = write_options_in(&mut select.children, false, ws, 0);
    proof {
        assert(ws@.subrange(0, r as int) =~= ws@);
        let o = options_of(*old(select));
        let n = options_of(*select);
        assert forall|i: int| 0 <= i < ws@.len() implies infos_of(*select)[i] == info_after(
            infos_of(*old(select))[i],
            ws@[i],
        ) by {
            assert(option_written(o[i].0, n[i].0, ws@[i]));
            assert(n[i].0.attr("selected"@) == flag_after(o[i].0.attr("selected"@), ws@[i].selected));
            lemma_marker_names_distinct();
            assert(n[i].0.attr("disabled"@) == o[i].0.attr("disabled"@));
            assert(n[i].0.attr(highlight_name()) == flag_after(o[i].0.attr(highlight_name()), ws@[i].highlight));
            assert(n[i].0.attr(anchor_name()) == flag_after(o[i].0.attr(anchor_name()), ws@[i].anchor));
        }
    }
}

/// Append the infos of the options among `children` to `out`.
fn read_options_in(children: &Vec<Node>, group_disabled: bool, out: &mut Vec<OptionInfo>)
    ensures
        final(out)@ == old(out)@ + opts_of(children@, group_disabled).map_values(|o: (Node, bool)| info_of(o)),
    decreases children@,
{
    let ghost start = out@;
    let mut i: usize = 0;
    assert(children@.take(0) =~= Seq::<Node>::empty());
    assert(start + opts_of(Seq::<Node>::empty(), group_disabled).map_values(|o: (Node, bool)| info_of(o)) =~= start);
    while i < children.len()
        invariant
            i <= children@.len(),
            out@ == start + opts_of(children@.take(i as int), group_disabled).map_values(|o: (Node, bool)| info_of(o)),
        decreases children@.len() - i,
    {
        let ghost prev = out@;
        let c = &children[i];
        assert(children@.take(i + 1).drop_last() =~= children@.take(i as int));
        assert(children@.take(i + 1).last() == children@[i as int]);
        let ghost seg = if c.is_element("option"@) {
            seq![(*c, group_disabled)]
        } else if c.is_element("optgroup"@) {
            opts_of(c.children@, group_disabled || c.has_attr("disabled"@))
        } else {
            Seq::empty()
        };
        assert(opts_of(children@.take(i + 1), group_disabled) == opts_of(children@.take(i as int), group_disabled) + seg);
        if c.has_tag("option") {
            let info = OptionInfo {
                id: c.id,
                selected: c.has_attribute("selected"),
                disabled: c.has_attribute("disabled") || group_disabled,
                highlight: c.has_attribute("data-rdom-highlight"),
                anchor: c.has_attribute("data-rdom-anchor"),
                default_selected: c.ext.default_selected,
            };
            out.push(info);
        } else if c.has_tag("optgroup") {
            let gd = group_disabled || c.has_attribute("disabled");
            read_options_in(&c.children, gd, out);
        }
        proof {
            let f = |o: (Node, bool)| info_of(o);
            assert((opts_of(children@.take(i as int), group_disabled) + seg).map_values(f) =~= opts_of(
                children@.take(i as int),
                group_disabled,
            ).map_values(f) + seg.map_values(f));
        }
        i = i + 1;
    }
    assert(children@.take(i as int) =~= children@);
}

/// The state of every option of `select`, in document order.
pub fn option_infos(select: &Node) -> (r: Vec<OptionInfo>)
    ensures
        r@ == infos_of(*select),
{
    let mut out = Vec::new();
    read_options_in(&select.children, false, &mut out);
    assert(Seq::<OptionInfo>::empty() + infos_of(*select) =~= infos_of(*select));
    out
}

} // verus!

verus! {

/// An option's display label: its `label` attribute, else its text.
pub open spec fn label_of(n: Node) -> Seq<char> {
    match n.attr("label"@) {
        Some(v) => v,
        None => direct_text(n.children@),
    }
}

/// An option's submit value: its `value` attribute, else its label.
pub open spec fn value_of(n: Node) -> Seq<char> {
    match n.attr("value"@) {
        Some(v) => v,
        None => label_of(n),
    }
}

/// `option_label`: the `label` attribute if set, otherwise the text
/// content.
pub fn option_label(option: &Node) -> (r: String)
    ensures
        r@ == label_of(*option),
{
    match option.get_attribute("label") {
        Some(v) => v.clone(),
        None => option.child_text(),
    }
}

/// `option_value`: the `value` attribute, or (per HTML) the label when
/// `value` is absent.
pub fn option_value(option: &Node) -> (r: String)
    ensures
        r@ == value_of(*option),
{
    match option.get_attribute("value") {
        Some(v) => v.clone(),
        None => option_label(option),
    }
}

/// Label and value of one option.
pub struct OptionText {
    pub label: String,
    pub value: String,
}

pub open spec fn text_matches(t: OptionText, o: (Node, bool)) -> bool {
    t.label@ == label_of(o.0) && t.value@ == value_of(o.0)
}

fn read_texts_in(children: &Vec<Node>, group_disabled: bool, out: &mut Vec<OptionText>)
    ensures
        final(out)@.len() == old(out)@.len() + opts_of(children@, group_disabled).len(),
        forall|i: int| 0 <= i < old(out)@.len() ==> #[trigger] final(out)@[i] == old(out)@[i],
        forall|i: int|
            0 <= i < opts_of(children@, group_disabled).len() ==> text_matches(
                #[trigger] final(out)@[old(out)@.len() + i],
                opts_of(children@, group_disabled)[i],
            ),
    decreases children@,
{
    let ghost start = out@;
    let mut i: usize = 0;
    assert(children@.take(0) =~= Seq::<Node>::empty());
    while i < children.len()
        invariant
            i <= children@.len(),
            out@.len() == start.len() + opts_of(children@.take(i as int), group_disabled).len(),
            forall|k: int| 0 <= k < start.len() ==> #[trigger] out@[k] == start[k],
            forall|k: int|
                0 <= k < opts_of(children@.take(i as int), group_disabled).len() ==> text_matches(
                    #[trigger] out@[start.len() + k],
                    opts_of(children@.take(i as int), group_disabled)[k],
                ),
        decreases children@.len() - i,
    {
        let ghost prev = out@;
        let ghost prev_opts = opts_of(children@.take(i as int), group_disabled);
        let c = &children[i];
        assert(children@.take(i + 1).drop_last() =~= children@.take(i as int));
        assert(children@.take(i + 1).last() == children@[i as int]);
        let ghost seg = if c.is_element("option"@) {
            seq![(*c, group_disabled)]
        } else if c.is_element("optgroup"@) {
            opts_of(c.children@, group_disabled || c.has_attr("disabled"@))
        } else {
            Seq::empty()
        };
        assert(opts_of(children@.take(i + 1), group_disabled) == prev_opts + seg);
        if c.has_tag("option") {
            let t = OptionText { label: option_label(c), value: option_value(c) };
            out.push(t);
        } else if c.has_tag("optgroup") {
            let gd = group_disabled || c.has_attribute("disabled");
            read_texts_in(&c.children, gd, out);
        }
        proof {
            let all = prev_opts + seg;
            assert forall|k: int| 0 <= k < all.len() implies text_matches(
                #[trigger] out@[start.len() + k],
                all[k],
            ) by {
                if k < prev_opts.len() {
                    assert(out@[start.len() + k] == prev[start.len() + k]);
                } else {
                    assert(all[k] == seg[k - prev_opts.len()]);
                    assert(start.len() + k == prev.len() + (k - prev_opts.len()));
                }
            }
        }
        i = i + 1;
    }
    assert(children@.take(i as int) =~= children@);
}

/// Label and value of every option of `select`, in document order.
pub fn option_texts(select: &Node) -> (r: Vec<OptionText>)
    ensures
        r@.len() == options_of(*select).len(),
        forall|i: int| 0 <= i < r@.len() ==> text_matches(#[trigger] r@[i], options_of(*select)[i]),
{
    let mut out = Vec::new();
    read_texts_in(&select.children, false, &mut out);
    proof {
        assert forall|i: int| 0 <= i < out@.len() implies text_matches(#[trigger] out@[i], options_of(*select)[i]) by {
            assert(out@[0 + i] == out@[i]);
        }
    }
    out
}

/// `options`: the id of every `<option>` of `select`, in document
/// order, descending into `<optgroup>`s.
pub fn options(select: &Node) -> (r: Vec<NodeId>)
    ensures
        r@ == options_of(*select).map_values(|o: (Node, bool)| o.0.id),
{
    let infos = option_infos(select);
    let mut out: Vec<NodeId> = Vec::new();
    let mut i: usize = 0;
    while i < infos.len()
        invariant
            i <= infos@.len(),
            infos@ == infos_of(*select),
            out@ =~= options_of(*select).map_values(|o: (Node, bool)| o.0.id).take(i as int),
        decreases infos.len() - i,
    {
        out.push(infos[i].id);
        i = i + 1;
    }
    out
}

/// The selected options of `select`.
pub open spec fn selected_of(select: Node) -> Seq<(Node, bool)> {
    options_of(select).filter(|o: (Node, bool)| o.0.has_attr("selected"@))
}

/// `selected_options`: every currently-selected `<option>` of `select`,
/// in document order.
pub fn selected_options(select: &Node) -> (r: Vec<NodeId>)
    ensures
        r@ == selected_of(*select).map_values(|o: (Node, bool)| o.0.id),
{
    let infos = option_infos(select);
    let ghost opts = options_of(*select);
    let ghost pred = |o: (Node, bool)| o.0.has_attr("selected"@);
    let mut out: Vec<NodeId> = Vec::new();
    let mut i: usize = 0;
    while i < infos.len()
        invariant
            i <= infos@.len(),
            infos@ == infos_of(*select),
            opts == options_of(*select),
            pred == (|o: (Node, bool)| o.0.has_attr("selected"@)),
            out@ =~= opts.take(i as int).filter(pred).map_values(|o: (Node, bool)| o.0.id),
        decreases infos.len() - i,
    {
        proof {
            reveal_with_fuel(Seq::filter, 1);
            assert(opts.take(i + 1).drop_last() =~= opts.take(i as int));
        }
        if infos[i].selected {
            out.push(infos[i].id);
        }
        i = i + 1;
    }
    assert(opts.take(i as int) =~= opts);
    out
}

/// Space-separated join of `vs`.
pub open spec fn join_space(vs: Seq<Seq<char>>) -> Seq<char>
    decreases vs.len(),
{
    if vs.len() == 0 {
        Seq::empty()
    } else if vs.len() == 1 {
        vs[0]
    } else {
        join_space(vs.drop_last()) + seq![' '] + vs.last()
    }
}

/// The value of `select`: empty with nothing selected; the value of the
/// first selected option in a single-select; the space-separated values
/// of every selected option in a multi-select.
pub open spec fn select_value(select: Node) -> Seq<char> {
    let vals = selected_of(select).map_values(|o: (Node, bool)| value_of(o.0));
    if vals.len() == 0 {
        Seq::empty()
    } else if select.has_attr("multiple"@) {
        join_space(vals)
    } else {
        vals[0]
    }
}

/// `value`: the current value of a `<select>`.
pub fn value(select: &Node) -> (r: String)
    ensures
        r@ == select_value(*select),
{
    let infos = option_infos(select);
    let texts = option_texts(select);
    let ghost opts = options_of(*select);
    let ghost pred = |o: (Node, bool)| o.0.has_attr("selected"@);
    let ghost vf = |o: (Node, bool)| value_of(o.0);
    let multi = select.has_attribute("multiple");
    let mut out = String::new();
    let mut count: usize = 0;
    let mut i: usize = 0;
    while i < infos.len()
        invariant
            i <= infos@.len(),
            infos@ == infos_of(*select),
            texts@.len() == opts.len(),
            forall|k: int| 0 <= k < texts@.len() ==> text_matches(#[trigger] texts@[k], opts[k]),
            opts == options_of(*select),
            pred == (|o: (Node, bool)| o.0.has_attr("selected"@)),
            vf == (|o: (Node, bool)| value_of(o.0)),
            multi == select.has_attr("multiple"@),
            count == opts.take(i as int).filter(pred).len(),
            count == 0 ==> out@ == Seq::<char>::empty(),
            count > 0 ==> out@ == if multi {
                join_space(opts.take(i as int).filter(pred).map_values(vf))
            } else {
                opts.take(i as int).filter(pred).map_values(vf)[0]
            },
        decreases infos.len() - i,
    {
        proof {
            reveal_with_fuel(Seq::filter, 1);
            assert(opts.take(i + 1).drop_last() =~= opts.take(i as int));
        }
        let ghost before = opts.take(i as int).filter(pred);
        if infos[i].selected {
            assert(opts.take(i + 1).filter(pred) == before.push(opts[i as int]));
            if count == 0 {
                out = texts[i].value.clone();
            } else if multi {
                out.append(" ");
                out.append(texts[i].value.as_str());
                proof {
                    reveal_strlit(" ");
                    let vs = before.push(opts[i as int]).map_values(vf);
                    assert(vs.drop_last() =~= before.map_values(vf));
                }
            }
            proof {
                let vs = before.push(opts[i as int]).map_values(vf);
                assert(vs[0] == before.map_values(vf).push(vf(opts[i as int]))[0]);
                if count > 0 {
                    assert(vs[0] == before.map_values(vf)[0]);
                }
            }
            count = count + 1;
        }
        i = i + 1;
    }
    assert(opts.take(i as int) =~= opts);
    out
}

/// Whether `select` is a multi-select: only the `multiple` attribute
/// makes one (a `size > 1` list box without it is single-select).
pub fn is_multi(select: &Node) -> (r: bool)
    ensures
        r == select.has_attr("multiple"@),
{
    select.has_attribute("multiple")
}

/// HTML "display size": the `size` attribute parsed as an integer
/// greater than zero, else 1.
pub open spec fn display_size_of(select: Node) -> u32 {
    match select.attr("size"@) {
        Some(v) => match crate::text::parse_u32(crate::text::trimmed(v)) {
            Some(n) => if n > 0 {
                n
            } else {
                1
            },
            None => 1,
        },
        None => 1,
    }
}

pub fn display_size(select: &Node) -> (r: u32)
    ensures
        r == display_size_of(*select),
{
    match select.get_attribute("size") {
        Some(v) => {
            let cs = crate::text::chars_of(v.as_str());
            let (a, b) = crate::text::trim_bounds(&cs);
            match crate::text::parse_u32_chars(&cs, a, b) {
                Some(n) => if n > 0 {
                    n
                } else {
                    1
                },
                None => 1,
            }
        },
        None => 1,
    }
}

} // verus!
