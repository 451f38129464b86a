//! Window lists of workspaces.

use crate::tiling::WindowId;
use vstd::prelude::*;

verus! {

/// One workspace: its windows in order, and the window that had the focus when it was left.
#[derive(Debug)]
pub struct Workspace {
    pub number: usize,
    pub order: Vec<WindowId>,
    pub focus: Option<WindowId>,
}

/// The workspaces that were used so far. Every other workspace is empty.
#[derive(Debug)]
pub struct Workspaces {
    entries: Vec<Workspace>,
}

/// Index of a workspace in a list, or its length.
spec fn index_in(entries: Seq<Workspace>, number: usize) -> int
    decreases entries.len(),
{
    if entries.len() == 0 {
        0
    } else if entries.last().number == number {
        entries.len() - 1
    } else {
        let i = index_in(entries.drop_last(), number);
        if i == entries.len() - 1 {
            entries.len() as int
        } else {
            i
        }
    }
}

proof fn lemma_index(entries: Seq<Workspace>, number: usize)
    ensures
        0 <= index_in(entries, number) <= entries.len(),
        index_in(entries, number) < entries.len() ==> entries[index_in(entries, number)].number
            == number,
        index_in(entries, number) == entries.len() ==> forall|i: int|
            0 <= i < entries.len() ==> (#[trigger] entries[i]).number != number,
    decreases entries.len(),
{
    if entries.len() > 0 && entries.last().number != number {
        lemma_index(entries.drop_last(), number);
        assert forall|i: int| 0 <= i < entries.len() && index_in(entries, number)
            == entries.len() implies (#[trigger] entries[i]).number != number by {
            if i < entries.len() - 1 {
                assert(entries.drop_last()[i] == entries[i]);
            }
        }
    }
}

/// Every window but one.
pub open spec fn other_than(id: WindowId) -> spec_fn(WindowId) -> bool {
    |w: WindowId| w != id
}

/// A list without every occurrence of one window.
pub open spec fn without(order: Seq<WindowId>, id: WindowId) -> Seq<WindowId> {
    order.filter(other_than(id))
}

/// A list without every occurrence of one window.
pub fn remove_window(order: &[WindowId], id: WindowId) -> (r: Vec<WindowId>)
    ensures
        r@ == without(order@, id),
{
    let mut r: Vec<WindowId> = Vec::new();
    let mut i: usize = 0;
    let ghost keeps = other_than(id);
    while i < order.len()
        invariant
            i <= order@.len(),
            keeps == other_than(id),
            r@ == order@.take(i as int).filter(keeps),
        decreases order@.len() - i,
    {
        proof {
            assert(order@.take(i + 1).drop_last() =~= order@.take(i as int));
            reveal(Seq::filter);
        }
        if order[i] != id {
            r.push(order[i]);
        }
        i = i + 1;
    }
    assert(order@.take(i as int) =~= order@);
    r
}

impl Workspaces {
    /// No number occurs twice.
    pub closed spec fn wf(&self) -> bool {
        forall|i: int, j: int|
            0 <= i < j < self.entries@.len() ==> (#[trigger] self.entries@[i]).number != (
            #[trigger] self.entries@[j]).number
    }

    /// The windows of a workspace, in order.
    pub closed spec fn order(&self, number: usize) -> Seq<WindowId> {
        let i = index_in(self.entries@, number);
        if i < self.entries@.len() {
            self.entries@[i].order@
        } else {
            Seq::empty()
        }
    }

    /// The window that had the focus when the workspace was left.
    pub closed spec fn focus(&self, number: usize) -> Option<WindowId> {
        let i = index_in(self.entries@, number);
        if i < self.entries@.len() {
            self.entries@[i].focus
        } else {
            None
        }
    }

    pub open spec fn orders(&self) -> Map<usize, Seq<WindowId>> {
        Map::new(|number: usize| true, |number: usize| self.order(number))
    }

    pub open spec fn focuses(&self) -> Map<usize, Option<WindowId>> {
        Map::new(|number: usize| true, |number: usize| self.focus(number))
    }

    pub fn new() -> (r: Self)
        ensures
            r.wf(),
            forall|n: usize| #[trigger] r.order(n) == Seq::<WindowId>::empty(),
            forall|n: usize| #[trigger] r.focus(n) is None,
    {
        Workspaces { entries: Vec::new() }
    }

    proof fn lemma_at(&self, i: int)
        requires
            self.wf(),
            0 <= i < self.entries@.len(),
        ensures
            index_in(self.entries@, self.entries@[i].number) == i,
    {
        lemma_index(self.entries@, self.entries@[i].number);
    }

    fn find(&self, number: usize) -> (r: usize)
        requires
            self.wf(),
        ensures
            r == index_in(self.entries@, number),
    {
        let mut i: usize = 0;
        while i < self.entries.len()
            invariant
                self.wf(),
                i <= self.entries@.len(),
                forall|j: int| 0 <= j < i ==> (#[trigger] self.entries@[j]).number != number,
            decreases self.entries@.len() - i,
        {
            if self.entries[i].number == number {
                proof {
                    self.lemma_at(i as int);
                }
                return i;
            }
            i = i + 1;
        }
        proof {
            lemma_index(self.entries@, number);
        }
        i
    }

    /// The windows of a workspace, in order.
    pub fn list(&self, number: usize) -> (r: &[WindowId])
        requires
            self.wf(),
        ensures
            r@ == self.order(number),
    {
        let i: usize = self.find(number);
        if i < self.entries.len() {
            self.entries[i].order.as_slice()
        } else {
            &[]
        }
    }

    /// The window that had the focus when the workspace was left.
    pub fn saved_focus(&self, number: usize) -> (r: Option<WindowId>)
        requires
            self.wf(),
        ensures
            r == self.focus(number),
    {
        let i: usize = self.find(number);
        if i < self.entries.len() {
            self.entries[i].focus
        } else {
            None
        }
    }

    /// Replaces what one workspace holds.
    fn put(&mut self, number: usize, order: Vec<WindowId>, focus: Option<WindowId>)
        requires
            old(self).wf(),
        ensures
            final(self).wf(),
            final(self).order(number) == order@,
            final(self).focus(number) == focus,
            forall|n: usize|
                n != number ==> #[trigger] final(self).order(n) == old(self).order(n),
            forall|n: usize|
                n != number ==> #[trigger] final(self).focus(n) == old(self).focus(n),
    {
        let i: usize = self.find(number);
        proof {
            lemma_index(self.entries@, number);
        }
        if i < self.entries.len() {
            self.entries.set(i, Workspace { number, order, focus });
        } else {
            self.entries.push(Workspace { number, order, focus });
        }
        proof {
            assert forall|n: usize| n != number implies #[trigger] self.order(n) == old(self).order(
                n,
            ) && self.focus(n) == old(self).focus(n) by {
                self.lemma_other(old(self), n, i as int);
            }
            assert forall|n: usize| n != number implies #[trigger] self.focus(n) == old(self).focus(
                n,
            ) by {
                self.lemma_other(old(self), n, i as int);
            }
            self.lemma_at(i as int);
        }
    }

    /// Changing entry `i` alone leaves every workspace of another number as it is.
    proof fn lemma_other(&self, before: &Workspaces, n: usize, i: int)
        requires
            self.wf(),
            before.wf(),
            before.entries@.len() <= self.entries@.len() <= before.entries@.len() + 1,
            0 <= i < self.entries@.len(),
            self.entries@[i].number != n,
            i < before.entries@.len() ==> before.entries@[i].number != n,
            self.entries@.len() > before.entries@.len() ==> i == before.entries@.len(),
            forall|j: int|
                0 <= j < before.entries@.len() && j != i ==> self.entries@[j] == before.entries@[j],
        ensures
            self.order(n) == before.order(n),
            self.focus(n) == before.focus(n),
    {
        lemma_index(self.entries@, n);
        lemma_index(before.entries@, n);
        let k = index_in(before.entries@, n);
        if k < before.entries@.len() {
            assert(self.entries@[k] == before.entries@[k]);
            self.lemma_at(k);
        } else if index_in(self.entries@, n) < self.entries@.len() {
            let m = index_in(self.entries@, n);
            assert(before.entries@[m].number == n);
        }
    }

    /// Replaces the windows of one workspace.
    pub fn set_order(&mut self, number: usize, order: Vec<WindowId>)
        requires
            old(self).wf(),
        ensures
            final(self).wf(),
            final(self).orders() == old(self).orders().insert(number, order@),
            final(self).focuses() == old(self).focuses(),
    {
        let focus: Option<WindowId> = self.saved_focus(number);
        self.put(number, order, focus);
        assert(self.orders() =~= old(self).orders().insert(number, order@));
        assert(self.focuses() =~= old(self).focuses());
    }

    /// Adds a window at the end of one workspace.
    pub fn push(&mut self, number: usize, id: WindowId)
        requires
            old(self).wf(),
        ensures
            final(self).wf(),
            final(self).orders() == old(self).orders().insert(
                number,
                old(self).order(number).push(id),
            ),
            final(self).focuses() == old(self).focuses(),
    {
        let mut order: Vec<WindowId> = vstd::slice::slice_to_vec(self.list(number));
        order.push(id);
        self.set_order(number, order);
    }

    /// Takes every occurrence of a window out of one workspace.
    pub fn remove_from(&mut self, number: usize, id: WindowId)
        requires
            old(self).wf(),
        ensures
            final(self).wf(),
            final(self).orders() == old(self).orders().insert(
                number,
                without(old(self).order(number), id),
            ),
            final(self).focuses() == old(self).focuses(),
    {
        let order: Vec<WindowId> = remove_window(self.list(number), id);
        self.set_order(number, order);
    }

    /// Notes the window that had the focus when one workspace was left.
    pub fn save_focus(&mut self, number: usize, focus: Option<WindowId>)
        requires
            old(self).wf(),
        ensures
            final(self).wf(),
            final(self).orders() == old(self).orders(),
            final(self).focuses() == old(self).focuses().insert(number, focus),
    {
        let order: Vec<WindowId> = vstd::slice::slice_to_vec(self.list(number));
        self.put(number, order, focus);
        assert(self.orders() =~= old(self).orders());
        assert(self.focuses() =~= old(self).focuses().insert(number, focus));
    }

    /// Takes a window out of every workspace, and forgets that it had the focus.
    pub fn remove_everywhere(&mut self, id: WindowId)
        requires
            old(self).wf(),
        ensures
            final(self).wf(),
            forall|n: usize| #[trigger] final(self).order(n) == without(old(self).order(n), id),
            forall|n: usize|
                #[trigger] final(self).focus(n) == (if old(self).focus(n) == Some(id) {
                    None
                } else {
                    old(self).focus(n)
                }),
    {
        let mut i: usize = 0;
        while i < self.entries.len()
            invariant
                old(self).wf(),
                i <= self.entries@.len() == old(self).entries@.len(),
                forall|j: int|
                    0 <= j < self.entries@.len() ==> (#[trigger] self.entries@[j]).number == old(
                        self,
                    ).entries@[j].number,
                forall|j: int|
                    i <= j < self.entries@.len() ==> self.entries@[j] == old(self).entries@[j],
                forall|j: int|
                    0 <= j < i ==> {
                        let before = old(self).entries@[j];
                        let after = #[trigger] self.entries@[j];
                        &&& after.order@ == without(before.order@, id)
                        &&& after.focus == (if before.focus == Some(id) {
                            None
                        } else {
                            before.focus
                        })
                    },
            decreases self.entries@.len() - i,
        {
            let order: Vec<WindowId> = remove_window(&self.entries[i].order, id);
            let number: usize = self.entries[i].number;
            let focus: Option<WindowId> = match self.entries[i].focus {
                Some(w) => if w == id {
                    None
                } else {
                    Some(w)
                },
                None => None,
            };
            self.entries.set(i, Workspace { number, order, focus });
            i = i + 1;
        }
        proof {
            reveal(Seq::filter);
            assert forall|n: usize|
                #![trigger self.order(n)]
                #![trigger self.focus(n)]
                {
                    &&& self.order(n) == without(old(self).order(n), id)
                    &&& self.focus(n) == (if old(self).focus(n) == Some(id) {
                        None
                    } else {
                        old(self).focus(n)
                    })
                } by {
                lemma_index(self.entries@, n);
                lemma_index(old(self).entries@, n);
                let k = index_in(old(self).entries@, n);
                if k < old(self).entries@.len() {
                    assert(self.entries@[k].number == n);
                    self.lemma_at(k);
                } else {
                    let m = index_in(self.entries@, n);
                    if m < self.entries@.len() {
                        assert(old(self).entries@[m].number == n);
                    }
                    assert(without(Seq::empty(), id) =~= Seq::empty());
                }
            }
        }
    }
}

} // verus!
