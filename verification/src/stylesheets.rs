//! The author-stylesheet stack of an app: sheets in push order, each
//! under an opaque id that is never reused; `set` replaces the whole
//! stack, `push` appends, `remove` takes one sheet out (an unknown id is
//! a no-op). Handlers queue the same changes as intents, applied in
//! order once the handler returns.

use vstd::prelude::*;

verus! {

/// Opaque handle of a registered stylesheet. Two ids are equal iff they
/// name the same registration.
#[derive(Clone, Copy, Debug, PartialEq, Eq, Hash, Structural)]
pub struct StylesheetId(u64);

impl StylesheetId {
    pub closed spec fn value(self) -> u64 {
        self.0
    }
}

/// The position of the first registration of `id` in `s`, from `i` on.
pub open spec fn position_of<T>(s: Seq<(StylesheetId, T)>, id: StylesheetId, i: int) -> Option<int>
    decreases s.len() - i,
{
    if i < 0 || i >= s.len() {
        None
    } else if s[i].0 == id {
        Some(i)
    } else {
        position_of(s, id, i + 1)
    }
}

/// Registered stylesheets, each under its id, in push order.
pub struct SheetStack<T> {
    sheets: Vec<(StylesheetId, T)>,
    next_id: u64,
}

/// A change to the stack a handler asked for.
pub enum StylesheetIntent<T> {
    /// Replace the stack by the sheet (registered under the id given).
    Replace(StylesheetId, T),
    Push(StylesheetId, T),
    Remove(StylesheetId),
}

impl<T> SheetStack<T> {
    /// The registrations, in push order.
    pub closed spec fn entries(&self) -> Seq<(StylesheetId, T)> {
        self.sheets@
    }

    /// The id the next registration gets.
    pub closed spec fn next_id_spec(&self) -> u64 {
        self.next_id
    }

    /// Every id in the stack was handed out before `next_id`, and none
    /// occurs twice (they increase in push order).
    pub open spec fn wf(&self) -> bool {
        &&& forall|i: int| 0 <= i < self.entries().len() ==> (#[trigger] self.entries()[i]).0.value() < self.next_id_spec()
        &&& forall|i: int, j: int|
            0 <= i < j < self.entries().len() ==> (#[trigger] self.entries()[i]).0.value() < (
            #[trigger] self.entries()[j]).0.value()
    }

    /// A stack holding `sheet` alone, under the first id.
    pub fn new(sheet: T) -> (r: SheetStack<T>)
        ensures
            r.wf(),
            r.entries().len() == 1,
            r.entries()[0].1 == sheet,
            r.entries()[0].0.value() == 0,
            r.next_id_spec() == 1,
    {
        let mut sheets: Vec<(StylesheetId, T)> = Vec::new();
        sheets.push((StylesheetId(0), sheet));
        SheetStack { sheets, next_id: 1 }
    }

    fn allocate(&mut self) -> (r: StylesheetId)
        requires
            old(self).next_id < u64::MAX,
        ensures
            r.value() == old(self).next_id,
            final(self).next_id == old(self).next_id + 1,
            final(self).sheets@ == old(self).sheets@,
    {
        let id = StylesheetId(self.next_id);
        self.next_id = self.next_id + 1;
        id
    }

    /// Replace every registered sheet by `sheet`, under a fresh id; the
    /// ids of the dropped sheets are stale from now on.
    pub fn set_stylesheet(&mut self, sheet: T) -> (r: StylesheetId)
        requires
            old(self).next_id_spec() < u64::MAX,
        ensures
            r.value() == old(self).next_id_spec(),
            final(self).next_id_spec() == old(self).next_id_spec() + 1,
            final(self).entries() == seq![(r, sheet)],
            final(self).wf(),
    {
        let id = self.allocate();
        self.sheets.clear();
        self.sheets.push((id, sheet));
        id
    }

    /// Append `sheet` on top of the stack, under a fresh id.
    pub fn push_stylesheet(&mut self, sheet: T) -> (r: StylesheetId)
        requires
            old(self).next_id_spec() < u64::MAX,
        ensures
            r.value() == old(self).next_id_spec(),
            final(self).next_id_spec() == old(self).next_id_spec() + 1,
            final(self).entries() == old(self).entries().push((r, sheet)),
            old(self).wf() ==> final(self).wf(),
    {
        let id = self.allocate();
        self.sheets.push((id, sheet));
        proof {
            if old(self).wf() {
                let o = old(self).entries();
                assert forall|i: int| 0 <= i < self.entries().len() implies (
                #[trigger] self.entries()[i]).0.value() < self.next_id_spec() by {
                    if i < o.len() {
                        assert(self.entries()[i] == o[i]);
                    }
                }
                assert forall|i: int, j: int|
                    0 <= i < j < self.entries().len() implies (#[trigger] self.entries()[i]).0.value() < (
                    #[trigger] self.entries()[j]).0.value() by {
                    assert(self.entries()[i] == o[i]);
                    if j < o.len() {
                        assert(self.entries()[j] == o[j]);
                    }
                }
            }
        }
        id
    }

    /// Remove the sheet registered under `id`; returns whether the stack
    /// changed (an unknown or stale id leaves it as it is).
    pub fn remove_stylesheet(&mut self, id: StylesheetId) -> (changed: bool)
        ensures
            final(self).next_id_spec() == old(self).next_id_spec(),
            match position_of(old(self).entries(), id, 0) {
                Some(i) => changed && final(self).entries() == old(self).entries().remove(i),
                None => !changed && final(self).entries() == old(self).entries(),
            },
            old(self).wf() ==> final(self).wf(),
    {
        let mut i: usize = 0;
        while i < self.sheets.len()
            invariant
                i <= self.sheets@.len(),
                self.sheets@ == old(self).sheets@,
                self.next_id == old(self).next_id,
                position_of(self.sheets@, id, 0) == position_of(self.sheets@, id, i as int),
            decreases self.sheets@.len() - i,
        {
            if self.sheets[i].0 == id {
                assert(position_of(self.sheets@, id, i as int) == Some(i as int));
                let _ = self.sheets.remove(i);
                proof {
                    let o = old(self).entries();
                    if old(self).wf() {
                        assert forall|a: int| 0 <= a < self.entries().len() implies (
                        #[trigger] self.entries()[a]).0.value() < self.next_id_spec() by {
                            let a0 = if a < i { a } else { a + 1 };
                            assert(self.entries()[a] == o[a0]);
                        }
                        assert forall|a: int, b: int|
                            0 <= a < b < self.entries().len() implies (#[trigger] self.entries()[a]).0.value() < (
                            #[trigger] self.entries()[b]).0.value() by {
                            let a0 = if a < i { a } else { a + 1 };
                            let b0 = if b < i { b } else { b + 1 };
                            assert(self.entries()[a] == o[a0]);
                            assert(self.entries()[b] == o[b0]);
                        }
                    }
                }
                return true;
            }
            assert(position_of(self.sheets@, id, i as int) == position_of(self.sheets@, id, i + 1));
            i = i + 1;
        }
        false
    }

    /// The registered sheets, in push order.
    pub fn style_sheets(&self) -> (r: Vec<&T>)
        ensures
            r@.len() == self.entries().len(),
            forall|i: int| 0 <= i < r@.len() ==> *#[trigger] r@[i] == self.entries()[i].1,
    {
        let mut out: Vec<&T> = Vec::new();
        let mut i: usize = 0;
        while i < self.sheets.len()
            invariant
                i <= self.sheets@.len(),
                out@.len() == i,
                forall|k: int| 0 <= k < i ==> *#[trigger] out@[k] == self.sheets@[k].1,
            decreases self.sheets@.len() - i,
        {
            out.push(&self.sheets[i].1);
            i = i + 1;
        }
        out
    }
}

impl<T> SheetStack<T> {
    /// Apply a queued change: replace, push (the stack assigns the next
    /// id, which is the one the intent carries when the ids were handed
    /// out in step) or remove.
    pub fn apply_intent(&mut self, intent: StylesheetIntent<T>)
        requires
            old(self).next_id_spec() < u64::MAX,
        ensures
            match intent {
                StylesheetIntent::Replace(_, sheet) => final(self).entries() == seq![
                    (final(self).entries()[0].0, sheet),
                ] && final(self).entries()[0].0.value() == old(self).next_id_spec() && final(self).next_id_spec()
                    == old(self).next_id_spec() + 1,
                StylesheetIntent::Push(_, sheet) => final(self).entries().len() == old(self).entries().len() + 1
                    && final(self).entries().drop_last() == old(self).entries() && final(self).entries().last().1
                    == sheet && final(self).entries().last().0.value() == old(self).next_id_spec()
                    && final(self).next_id_spec() == old(self).next_id_spec() + 1,
                StylesheetIntent::Remove(id) => final(self).next_id_spec() == old(self).next_id_spec() && match position_of(
                    old(self).entries(),
                    id,
                    0,
                ) {
                    Some(i) => final(self).entries() == old(self).entries().remove(i),
                    None => final(self).entries() == old(self).entries(),
                },
            },
            old(self).wf() ==> final(self).wf(),
    {
        match intent {
            StylesheetIntent::Replace(_, sheet) => {
                let _ = self.set_stylesheet(sheet);
            },
            StylesheetIntent::Push(_, sheet) => {
                let id = self.push_stylesheet(sheet);
                assert(self.entries().drop_last() =~= old(self).entries());
            },
            StylesheetIntent::Remove(id) => {
                let _ = self.remove_stylesheet(id);
            },
        }
    }
}

proof fn lemma_position_of_fresh<T>(s: Seq<(StylesheetId, T)>, id: StylesheetId, i: int)
    requires
        0 <= i < s.len(),
        s.last().0 == id,
        forall|k: int| 0 <= k < s.len() - 1 ==> (#[trigger] s[k]).0 != id,
    ensures
        position_of(s, id, i) == Some(s.len() - 1),
    decreases s.len() - i,
{
    if i < s.len() - 1 {
        lemma_position_of_fresh(s, id, i + 1);
    }
}

/// Removing a sheet right after pushing it gives back the stack as it
/// was: the pushed sheet's id is fresh, so it names the new entry, and
/// removing that entry leaves the earlier ones.
pub proof fn law_remove_undoes_push<T>(entries: Seq<(StylesheetId, T)>, next_id: u64, id: StylesheetId, sheet: T)
    requires
        forall|i: int| 0 <= i < entries.len() ==> (#[trigger] entries[i]).0.value() < next_id,
        id.value() == next_id,
    ensures
        position_of(entries.push((id, sheet)), id, 0) == Some(entries.len() as int),
        entries.push((id, sheet)).remove(entries.len() as int) == entries,
{
    let after = entries.push((id, sheet));
    assert forall|k: int| 0 <= k < after.len() - 1 implies (#[trigger] after[k]).0 != id by {
        assert(after[k] == entries[k]);
    }
    lemma_position_of_fresh(after, id, 0);
    assert(after.remove(entries.len() as int) =~= entries);
}

/// Control flow a tick callback returns: keep running, or leave the
/// loop once the current task completes.
#[derive(Clone, Copy, Debug, PartialEq, Eq, Structural)]
pub enum ControlFlow {
    Continue,
    Quit,
}

impl Default for ControlFlow {
    fn default() -> (r: ControlFlow)
        ensures
            r == ControlFlow::Continue,
    {
        ControlFlow::Continue
    }
}

} // verus!
