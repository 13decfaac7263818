//! The table of specialized procedures.

use vstd::prelude::*;
use crate::expr::{Expr, ExprView};
use crate::layout::{Layout, Shape, shapes, same_all, copy_all};
use crate::symbol::Symbol;

verus! {

/// What identifies one specialization: a top-level symbol and the layouts of
/// the arguments it is called with, in order.
#[derive(Debug, PartialEq, Eq)]
pub struct ProcKey {
    pub symbol: Symbol,
    pub args: Vec<Layout>,
}

/// The mathematical value of a specialization key.
pub struct KeyView {
    pub symbol: Symbol,
    pub args: Seq<Shape>,
}

/// A lowered procedure.
#[derive(Debug, PartialEq, Eq)]
pub struct Proc {
    pub params: Vec<(Symbol, Layout)>,
    pub body: Expr,
    pub ret_layout: Layout,
}

/// The mathematical value of a lowered procedure.
pub struct ProcView {
    pub params: Seq<(Symbol, Shape)>,
    pub body: ExprView,
    pub ret_layout: Shape,
}

/// One entry of the table as a value: its key, and its procedure once the
/// body has been lowered (`None` while it is pending).
pub type EntryView = (KeyView, Option<ProcView>);

impl ProcKey {
    pub open spec fn view(&self) -> KeyView {
        KeyView { symbol: self.symbol, args: shapes(self.args@) }
    }

    /// Whether two keys name the same specialization.
    pub fn same(&self, other: &ProcKey) -> (r: bool)
        ensures
            r == (self@ == other@),
    {
        self.symbol == other.symbol && same_all(&self.args, &other.args)
    }

    /// A fresh key of the same value.
    pub fn copy(&self) -> (r: ProcKey)
        ensures
            r@ == self@,
    {
        ProcKey { symbol: self.symbol, args: copy_all(&self.args) }
    }
}

impl Proc {
    pub open spec fn view(&self) -> ProcView {
        ProcView {
            params: Seq::new(
                self.params@.len(),
                |i: int| (self.params@[i].0, self.params@[i].1.shape()),
            ),
            body: self.body.view(),
            ret_layout: self.ret_layout.shape(),
        }
    }
}

/// The value of a table slot.
pub open spec fn slot_view(slot: Option<Proc>) -> Option<ProcView> {
    match slot {
        Some(p) => Some(p@),
        None => None,
    }
}

/// Whether the table holds an entry under the key.
pub open spec fn has_key(table: Seq<EntryView>, key: KeyView) -> bool {
    exists|i: int| 0 <= i < table.len() && #[trigger] table[i].0 == key
}

/// Whether no key occurs twice in the table.
pub open spec fn unique_keys(table: Seq<EntryView>) -> bool {
    forall|i: int, j: int|
        0 <= i < j < table.len() ==> (#[trigger] table[i]).0 != (#[trigger] table[j]).0
}

/// Whether the table holds, under the key, a procedure whose body has been lowered.
pub open spec fn is_filled(table: Seq<EntryView>, key: KeyView) -> bool {
    exists|i: int| 0 <= i < table.len() && #[trigger] table[i].0 == key && table[i].1 is Some
}

/// Whether `after` is `before` with the pending entry under the key filled
/// with the procedure.
pub open spec fn filled_in(
    before: Seq<EntryView>,
    key: KeyView,
    procedure: ProcView,
    after: Seq<EntryView>,
) -> bool {
    exists|i: int|
        0 <= i < before.len() && #[trigger] before[i] == (key, None::<ProcView>) && after
            == before.update(i, (key, Some(procedure)))
}

/// The table after an entry is inserted unless its key is there already.
pub open spec fn inserted(table: Seq<EntryView>, key: KeyView, slot: Option<ProcView>) -> Seq<
    EntryView,
> {
    if has_key(table, key) {
        table
    } else {
        table.push((key, slot))
    }
}

/// Whether `after` holds every entry of `before`, where and as it was.
pub open spec fn extends(before: Seq<EntryView>, after: Seq<EntryView>) -> bool {
    &&& before.len() <= after.len()
    &&& forall|i: int| 0 <= i < before.len() ==> #[trigger] after[i] == before[i]
}

/// The table after each key, in order, is inserted as pending unless it is there.
pub open spec fn requested(table: Seq<EntryView>, keys: Seq<KeyView>) -> Seq<EntryView>
    decreases keys.len(),
{
    if keys.len() == 0 {
        table
    } else {
        inserted(requested(table, keys.drop_last()), keys.last(), None)
    }
}

/// The specializations found so far, in the order in which they were found.
#[derive(Debug)]
pub struct Procs {
    entries: Vec<(ProcKey, Option<Proc>)>,
}

impl Procs {
    /// The entries, in the order of their insertion.
    pub closed spec fn view(&self) -> Seq<EntryView> {
        Seq::new(
            self.entries@.len(),
            |i: int| (self.entries@[i].0@, slot_view(self.entries@[i].1)),
        )
    }

    /// The table's invariant: at most one entry per key.
    pub open spec fn wf(&self) -> bool {
        unique_keys(self@)
    }

    /// An empty table.
    pub fn new() -> (r: Procs)
        ensures
            r@.len() == 0,
            r.wf(),
    {
        Procs { entries: Vec::new() }
    }

    /// The number of entries.
    pub fn len(&self) -> (n: usize)
        ensures
            n == self@.len(),
    {
        self.entries.len()
    }

    /// The position of the key's entry, if there is one.
    fn find(&self, key: &ProcKey) -> (r: Option<usize>)
        ensures
            match r {
                Some(i) => i < self@.len() && self@[i as int].0 == key@,
                None => !has_key(self@, key@),
            },
    {
        let mut i: usize = 0;
        while i < self.entries.len()
            invariant
                i <= self.entries.len(),
                forall|j: int| 0 <= j < i ==> (#[trigger] self@[j]).0 != key@,
            decreases self.entries.len() - i,
        {
            if self.entries[i].0.same(key) {
                return Some(i);
            }
            i += 1;
        }
        None
    }

    /// Whether the table holds an entry under the key.
    pub fn contains(&self, key: &ProcKey) -> (r: bool)
        ensures
            r == has_key(self@, key@),
    {
        self.find(key).is_some()
    }

    /// The entry under the key: `None` where there is none, else the slot,
    /// which holds the procedure once its body has been lowered.
    pub fn get(&self, key: &ProcKey) -> (r: Option<&Option<Proc>>)
        ensures
            match r {
                Some(slot) => exists|i: int|
                    0 <= i < self@.len() && #[trigger] self@[i] == (key@, slot_view(*slot)),
                None => !has_key(self@, key@),
            },
    {
        match self.find(key) {
            Some(i) => {
                proof {
                    assert(self@[i as int] == (key@, slot_view(self.entries@[i as int].1)));
                }
                Some(&self.entries[i].1)
            },
            None => None,
        }
    }

    /// Whether the table holds, under the key, a procedure whose body has
    /// been lowered.
    pub fn is_complete(&self, key: &ProcKey) -> (r: bool)
        requires
            self.wf(),
        ensures
            r == is_filled(self@, key@),
    {
        match self.find(key) {
            Some(i) => {
                let r = self.entries[i].1.is_some();
                proof {
                    assert(self@[i as int].1 == slot_view(self.entries@[i as int].1));
                    if !r {
                        assert forall|j: int| 0 <= j < self@.len() && #[trigger] self@[j].0
                            == key@ implies !(self@[j].1 is Some) by {
                            if j != i {
                                assert(self@[j].0 != self@[i as int].0);
                            }
                        }
                    }
                }
                r
            },
            None => false,
        }
    }

    /// Inserts the entry unless the key is there already; an entry that is
    /// there stays as it is.
    pub fn insert_if_absent(&mut self, key: ProcKey, slot: Option<Proc>)
        requires
            old(self).wf(),
        ensures
            final(self).wf(),
            final(self)@ == inserted(old(self)@, key@, slot_view(slot)),
    {
        if self.find(&key).is_none() {
            let ghost before = self@;
            let ghost entry = (key@, slot_view(slot));
            self.entries.push((key, slot));
            proof {
                assert(self@ =~= before.push(entry));
            }
        }
    }

    /// Fills the pending entry under the key with its lowered procedure.
    /// Returns whether it did: an entry that is absent or already filled
    /// leaves the table unchanged.
    pub fn complete(&mut self, key: &ProcKey, procedure: Proc) -> (done: bool)
        requires
            old(self).wf(),
        ensures
            final(self).wf(),
            done == (exists|i: int|
                0 <= i < old(self)@.len() && #[trigger] old(self)@[i] == (
                    key@,
                    None::<ProcView>,
                )),
            !done ==> final(self)@ == old(self)@,
            done ==> filled_in(old(self)@, key@, procedure@, final(self)@),
    {
        match self.find(key) {
            Some(i) => {
                if self.entries[i].1.is_none() {
                    let ghost before = self@;
                    let k = self.entries[i].0.copy();
                    self.entries.set(i, (k, Some(procedure)));
                    proof {
                        assert(before[i as int] == (key@, None::<ProcView>));
                        assert(self@ =~= before.update(i as int, (key@, Some(procedure@))));
                    }
                    true
                } else {
                    proof {
                        assert forall|j: int| 0 <= j < self@.len() implies #[trigger] self@[j] != (
                            key@,
                            None::<ProcView>,
                        ) by {
                            if j != i {
                                assert(self@[j].0 != self@[i as int].0);
                            }
                        }
                    }
                    false
                }
            },
            None => {
                proof {
                    assert forall|j: int| 0 <= j < self@.len() implies #[trigger] self@[j] != (
                        key@,
                        None::<ProcView>,
                    ) by {
                        if self@[j] == (key@, None::<ProcView>) {
                            assert(self@[j].0 == key@);
                        }
                    }
                }
                false
            },
        }
    }
}

/// Inserting keeps the invariant.
pub proof fn lemma_inserted_unique(table: Seq<EntryView>, key: KeyView, slot: Option<ProcView>)
    requires
        unique_keys(table),
    ensures
        unique_keys(inserted(table, key, slot)),
        has_key(inserted(table, key, slot), key),
{
    let t = inserted(table, key, slot);
    if has_key(table, key) {
    } else {
        assert(t[table.len() as int].0 == key);
        assert forall|i: int, j: int| 0 <= i < j < t.len() implies (#[trigger] t[i]).0 != (
            #[trigger] t[j]).0 by {
            if j == table.len() {
                assert(t[i] == table[i]);
                if table[i].0 == key {
                    assert(has_key(table, key));
                }
            } else {
                assert(t[i] == table[i]);
                assert(t[j] == table[j]);
            }
        }
    }
}

/// Requesting keys leaves every entry that was there where and as it was.
pub proof fn lemma_requested_keeps(table: Seq<EntryView>, keys: Seq<KeyView>, i: int)
    requires
        0 <= i < table.len(),
    ensures
        i < requested(table, keys).len(),
        requested(table, keys)[i] == table[i],
    decreases keys.len(),
{
    if keys.len() > 0 {
        lemma_requested_keeps(table, keys.drop_last(), i);
    }
}

/// Requesting one run of keys and then another is requesting both in a row.
pub proof fn lemma_requested_concat(table: Seq<EntryView>, a: Seq<KeyView>, b: Seq<KeyView>)
    ensures
        requested(requested(table, a), b) == requested(table, a + b),
    decreases b.len(),
{
    if b.len() == 0 {
        assert(a + b =~= a);
    } else {
        lemma_requested_concat(table, a, b.drop_last());
        assert((a + b).drop_last() =~= a + b.drop_last());
        assert((a + b).last() == b.last());
    }
}

} // verus!
