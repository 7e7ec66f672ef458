//! Type-ahead: the per-select keystroke buffer with its inactivity
//! timeout, and the prefix / cycle match that moves the highlight (and,
//! in a single-select, the selection) to the next option whose label
//! starts with what was typed, case-insensitively and wrapping.

use vstd::prelude::*;
use crate::dom::{Node, NodeExt, TypeaheadState};
use crate::select::model::{OptionInfo, OptionText, infos_of, label_of, option_infos, option_texts, options_of, text_matches};
use crate::select::state::{
    first_flag, highlight_index, marker_infos, same_select, select_single, set_marker, single_infos,
};
use crate::text::{ascii_lower, ascii_lower_seq, first_true, is_prefix, lemma_first_true, lower_chars, starts_with, to_ascii_lower};

verus! {

/// Inactivity after which the next key starts a fresh buffer.
pub const TYPEAHEAD_TIMEOUT_MS: u64 = 500;

/// The buffer after typing lower-cased `lc` at `now`, and whether the
/// keystroke cycles (the same single character again within the
/// timeout).
pub open spec fn buffer_after(st: Option<(Seq<char>, u64)>, lc: char, now: u64) -> (Seq<char>, bool) {
    match st {
        None => (seq![lc], false),
        Some((buf, last)) => if now > last && now - last > TYPEAHEAD_TIMEOUT_MS {
            (seq![lc], false)
        } else if buf.len() == 1 && buf[0] == lc {
            (buf, true)
        } else {
            (buf.push(lc), false)
        },
    }
}

pub open spec fn state_view(st: Option<TypeaheadState>) -> Option<(Seq<char>, u64)> {
    match st {
        Some(s) => Some((s.buffer@, s.last_ms)),
        None => None,
    }
}

/// The labels of `select`'s options, in document order.
pub open spec fn labels_of(select: Node) -> Seq<Seq<char>> {
    options_of(select).map_values(|o: (Node, bool)| label_of(o.0))
}

/// Whether option `i` matches `query`: not disabled, and its lower-cased
/// label starts with `query`.
pub open spec fn matches_query(o: Seq<OptionInfo>, labels: Seq<Seq<char>>, query: Seq<char>, i: int) -> bool {
    !o[i].disabled && is_prefix(query, ascii_lower_seq(labels[i]))
}

/// Where the search starts: at the highlight (just past it when
/// cycling), else at the first option.
pub open spec fn search_start(o: Seq<OptionInfo>, cycle: bool) -> int {
    match highlight_index(o) {
        Some(h) => if cycle {
            h + 1
        } else {
            h
        },
        None => 0,
    }
}

/// The first matching option at or after `start`, wrapping around.
pub open spec fn search_target(o: Seq<OptionInfo>, labels: Seq<Seq<char>>, query: Seq<char>, start: int) -> Option<int> {
    let n = o.len() as int;
    match first_true(Seq::new(o.len(), |off: int| matches_query(o, labels, query, (start + off) % n))) {
        Some(off) => Some((start + off) % n),
        None => None,
    }
}

/// The infos after type-ahead lands on option `t`.
pub open spec fn landed_infos(o: Seq<OptionInfo>, t: int, multi: bool) -> Seq<OptionInfo> {
    let o1 = marker_infos(o, 1, Some(t));
    if multi {
        marker_infos(o1, 2, None)
    } else {
        single_infos(o1, t)
    }
}

/// Where type-ahead lands: the first match of the whole buffer; when the
/// buffer matches nothing, the first match of the new key `lc` alone,
/// searched as a single-key cycle (just past the highlight).
pub open spec fn typeahead_target(o: Seq<OptionInfo>, labels: Seq<Seq<char>>, query: Seq<char>, cycle: bool, lc: char) -> Option<int> {
    match search_target(o, labels, query, search_start(o, cycle)) {
        Some(t) => Some(t),
        None => search_target(o, labels, seq![lc], search_start(o, true)),
    }
}

/// `typeahead_search`: a printable `ch` typed on `select` at `now`
/// (milliseconds). Updates the buffer and moves the highlight (and the
/// selection, in a single-select; the anchor clears in a multi-select)
/// to the first option matching the buffer, or, when the buffer matches
/// nothing, the new key alone. Returns whether `input` + `change` fire.
pub fn typeahead_search(select: &mut Node, ch: char, multi: bool, now: u64) -> (fired: bool)
    ensures
        final(select).id == old(select).id,
        final(select).node_type == old(select).node_type,
        final(select).tag@ == old(select).tag@,
        final(select).attrs == old(select).attrs,
        final(select).ext == (NodeExt { typeahead: final(select).ext.typeahead, ..old(select).ext }),
        infos_of(*old(select)).len() == 0 ==> *final(select) == *old(select) && !fired,
        infos_of(*old(select)).len() > 0 ==> ({
            let o = infos_of(*old(select));
            let lc = ascii_lower(ch);
            let (query, cycle) = buffer_after(state_view(old(select).ext.typeahead), lc, now);
            &&& state_view(final(select).ext.typeahead) == Some((query, now))
            &&& match typeahead_target(o, labels_of(*old(select)), query, cycle, lc) {
                Some(t) => infos_of(*final(select)) =~= landed_infos(o, t, multi) && fired,
                None => infos_of(*final(select)) =~= o && !fired,
            }
        }),
{
    let all = option_infos(select);
    if all.len() == 0 {
        return false;
    }
    let texts = option_texts(select);
    let ghost old_sel = *select;
    let lc = to_ascii_lower(ch);
    let (query, cycle) = update_buffer(select, lc, now);
    assert(infos_of(*select) == all@);
    let ghost labels = labels_of(old_sel);
    proof {
        assert forall|k: int| 0 <= k < texts@.len() implies (#[trigger] texts@[k]).label@ == labels[k] by {
            assert(text_matches(texts@[k], options_of(old_sel)[k]));
        }
    }
    let start = match first_flag(&all, 1) {
        Some(h) => if cycle {
            h + 1
        } else {
            h
        },
        None => 0,
    };
    assert(start as int == search_start(all@, cycle));
    let target = match find_match(&all, &texts, &query, start, Ghost(labels)) {
        Some(t) => Some(t),
        None => {
            let single = vec![lc];
            let next = match first_flag(&all, 1) {
                Some(h) => h + 1,
                None => 0,
            };
            assert(next as int == search_start(all@, true));
            assert(single@ =~= seq![lc]);
            find_match(&all, &texts, &single, next, Ghost(labels))
        },
    };
    assert(target == match typeahead_target(all@, labels, query@, cycle, lc) {
        Some(t) => Some(t as usize),
        None => None::<usize>,
    });
    match target {
        Some(i) => {
            set_marker(select, 1, Some(i));
            if !multi {
                select_single(select, i);
            } else {
                set_marker(select, 2, None);
            }
            true
        },
        None => false,
    }
}

/// The first option at or after `start` (wrapping) that is not disabled
/// and whose lower-cased label starts with `query`.
fn find_match(
    all: &Vec<OptionInfo>,
    texts: &Vec<OptionText>,
    query: &Vec<char>,
    start: usize,
    Ghost(labels): Ghost<Seq<Seq<char>>>,
) -> (r: Option<usize>)
    requires
        all@.len() > 0,
        texts@.len() == all@.len(),
        labels.len() == all@.len(),
        start <= all@.len(),
        forall|k: int| 0 <= k < texts@.len() ==> (#[trigger] texts@[k]).label@ == labels[k],
    ensures
        match search_target(all@, labels, query@, start as int) {
            Some(t) => r == Some(t as usize),
            None => r is None,
        },
{
    let len = all.len();
    let ghost cand = Seq::new(all@.len(), |off: int| matches_query(all@, labels, query@, (start + off) % (len as int)));
    let mut off: usize = 0;
    while off < len
        invariant
            off <= len,
            len == all@.len(),
            len > 0,
            start <= len,
            texts@.len() == len,
            labels.len() == len,
            forall|k: int| 0 <= k < len ==> (#[trigger] texts@[k]).label@ == labels[k],
            cand == Seq::new(all@.len(), |off: int| matches_query(all@, labels, query@, (start + off) % (len as int))),
            forall|j: int| 0 <= j < off ==> !cand[j],
        decreases len - off,
    {
        let i = wrap_index(start, off, len);
        let lower = lower_chars(texts[i].label.as_str());
        if !all[i].disabled && starts_with(&lower, query) {
            proof {
                assert(cand[off as int]);
                lemma_first_true(cand, off as int);
            }
            return Some(i);
        }
        off = off + 1;
    }
    proof {
        assert(!(exists|j: int| 0 <= j < cand.len() && cand[j]));
    }
    None
}

/// `(start + off) % len`, without overflow.
fn wrap_index(start: usize, off: usize, len: usize) -> (r: usize)
    requires
        start <= len,
        off < len,
    ensures
        r == (start + off) % (len as int),
        r < len,
{
    let base = if start == len {
        0
    } else {
        start
    };
    proof {
        lemma_wrap(start as int, off as int, len as int);
    }
    if off < len - base {
        base + off
    } else {
        off - (len - base)
    }
}

proof fn lemma_wrap(start: int, off: int, n: int)
    requires
        0 <= start <= n,
        0 <= off < n,
    ensures
        (start + off) % n == if start + off < n {
            start + off
        } else {
            start + off - n
        },
        start == n ==> (start + off) % n == off,
{
    if start + off < n {
        vstd::arithmetic::div_mod::lemma_small_mod((start + off) as nat, n as nat);
    } else {
        vstd::arithmetic::div_mod::lemma_mod_sub_multiples_vanish(start + off, n);
        vstd::arithmetic::div_mod::lemma_small_mod((start + off - n) as nat, n as nat);
    }
}

/// Record `lc` typed at `now` in `select`'s buffer; returns the query and
/// whether the keystroke cycles.
fn update_buffer(select: &mut Node, lc: char, now: u64) -> (r: (Vec<char>, bool))
    ensures
        (r.0@, r.1) == buffer_after(state_view(old(select).ext.typeahead), lc, now),
        state_view(final(select).ext.typeahead) == Some((r.0@, now)),
        final(select).id == old(select).id,
        final(select).node_type == old(select).node_type,
        final(select).tag == old(select).tag,
        final(select).attrs == old(select).attrs,
        final(select).children == old(select).children,
        final(select).ext == (NodeExt { typeahead: final(select).ext.typeahead, ..old(select).ext }),
{
    let prev = select.ext.typeahead.take();
    let (buffer, cycle) = match prev {
        None => (vec![lc], false),
        Some(st) => {
            let expired = now > st.last_ms && now - st.last_ms > TYPEAHEAD_TIMEOUT_MS;
            if expired {
                (vec![lc], false)
            } else if st.buffer.len() == 1 && st.buffer[0] == lc {
                (st.buffer, true)
            } else {
                let mut b = st.buffer;
                b.push(lc);
                (b, false)
            }
        },
    };
    let query = copy_chars(&buffer);
    select.ext.typeahead = Some(TypeaheadState { buffer, last_ms: now });
    (query, cycle)
}

fn copy_chars(v: &Vec<char>) -> (r: Vec<char>)
    ensures
        r@ == v@,
{
    let mut out: Vec<char> = Vec::new();
    let mut i: usize = 0;
    while i < v.len()
        invariant
            i <= v@.len(),
            out@ =~= v@.take(i as int),
        decreases v.len() - i,
    {
        out.push(v[i]);
        i = i + 1;
    }
    out
}

} // verus!
