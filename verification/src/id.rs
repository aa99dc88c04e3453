//! Identifiers that are handed out, given back and handed out again.

use vstd::prelude::*;

verus! {

/// Hands out identifiers: one that was given back, if there is one, else the
/// next number that was never used.
#[derive(Debug)]
pub struct IdManager {
    /// The least number that was never handed out.
    pub next_id: u64,
    /// The identifiers that were given back, the latest last.
    pub recycled_ids: Vec<u64>,
}

impl IdManager {
    /// Whether the bookkeeping is sound: nothing was given back twice, and
    /// nothing that was never handed out.
    pub open spec fn wf(&self) -> bool {
        &&& self.recycled_ids@.no_duplicates()
        &&& forall|k: int|
            0 <= k < self.recycled_ids@.len() ==> #[trigger] self.recycled_ids@[k] < self.next_id
    }

    /// The identifiers that are out: handed out and not given back.
    pub open spec fn spec_issued(&self) -> Set<u64> {
        Set::new(|id: u64| id < self.next_id && !self.recycled_ids@.contains(id))
    }

    /// How many identifiers can still be handed out.
    pub open spec fn spec_available(&self) -> int {
        self.recycled_ids@.len() + (u64::MAX - self.next_id)
    }

    /// The identifier that is handed out `n` identifiers from now, nothing
    /// being given back meanwhile: first come those that were given back,
    /// the latest first, then the numbers never used.
    pub open spec fn spec_nth(&self, n: int) -> u64 {
        if n < self.recycled_ids@.len() {
            self.recycled_ids@[self.recycled_ids@.len() - 1 - n]
        } else {
            (self.next_id + (n - self.recycled_ids@.len())) as u64
        }
    }

    /// The next `n` identifiers to be handed out, in order.
    pub open spec fn spec_next_ids(&self, n: nat) -> Seq<u64> {
        Seq::new(n, |i: int| self.spec_nth(i))
    }

    /// Whether `later` is this manager after it has handed out `n`
    /// identifiers and taken none back.
    pub open spec fn spec_issued_since(&self, n: int, later: IdManager) -> bool {
        if n <= self.recycled_ids@.len() {
            &&& later.recycled_ids@ == self.recycled_ids@.take(self.recycled_ids@.len() - n)
            &&& later.next_id == self.next_id
        } else {
            &&& later.recycled_ids@ == Seq::<u64>::empty()
            &&& later.next_id == self.next_id + (n - self.recycled_ids@.len())
        }
    }

    /// Whether there is an identifier left to hand out.
    pub open spec fn spec_can_issue(&self) -> bool {
        self.recycled_ids@.len() > 0 || self.next_id < u64::MAX
    }

    /// A manager that has handed out nothing.
    pub fn new() -> (manager: IdManager)
        ensures
            manager.next_id == 0,
            manager.recycled_ids@ == Seq::<u64>::empty(),
            manager.wf(),
            manager.spec_issued() == Set::<u64>::empty(),
    {
        let manager = IdManager { next_id: 0, recycled_ids: Vec::new() };
        assert(manager.spec_issued() =~= Set::<u64>::empty());
        manager
    }

    /// Whether there is an identifier left to hand out.
    #[verifier::when_used_as_spec(spec_can_issue)]
    pub fn can_issue(&self) -> (yes: bool)
        ensures
            yes == self.spec_can_issue(),
    {
        self.recycled_ids.len() > 0 || self.next_id < u64::MAX
    }

    /// How many identifiers can still be handed out.
    pub fn available(&self) -> (count: u128)
        ensures
            count == self.spec_available(),
    {
        let given_back: u128 = self.recycled_ids.len() as u128;
        let unused: u128 = (u64::MAX - self.next_id) as u128;
        given_back + unused
    }

    /// Hands out an identifier: the one given back last, or else the next
    /// number never used. Under sound bookkeeping it is one that was not out.
    pub fn get_id(&mut self) -> (id: u64)
        requires
            old(self).spec_can_issue(),
        ensures
            old(self).recycled_ids@.len() > 0 ==> {
                &&& id == old(self).recycled_ids@.last()
                &&& final(self).recycled_ids@ == old(self).recycled_ids@.drop_last()
                &&& final(self).next_id == old(self).next_id
            },
            old(self).recycled_ids@.len() == 0 ==> {
                &&& id == old(self).next_id
                &&& final(self).recycled_ids@ == old(self).recycled_ids@
                &&& final(self).next_id == old(self).next_id + 1
            },
            old(self).wf() ==> {
                &&& final(self).wf()
                &&& !old(self).spec_issued().contains(id)
                &&& final(self).spec_issued() == old(self).spec_issued().insert(id)
            },
            final(self).spec_available() == old(self).spec_available() - 1,
    {
        let id = match self.recycled_ids.pop() {
            Some(id) => id,
            None => {
                let id = self.next_id;
                self.next_id += 1;
                id
            },
        };
        proof {
            if old(self).wf() {
                lemma_issue(*old(self), *self, id);
            }
        }
        id
    }

    /// Takes an identifier back. Under sound bookkeeping, one that was out is
    /// out no longer.
    pub fn restore_id(&mut self, id: u64)
        ensures
            final(self).recycled_ids@ == old(self).recycled_ids@.push(id),
            final(self).next_id == old(self).next_id,
            old(self).wf() && old(self).spec_issued().contains(id) ==> {
                &&& final(self).wf()
                &&& final(self).spec_issued() == old(self).spec_issued().remove(id)
            },
            final(self).spec_available() == old(self).spec_available() + 1,
    {
        self.recycled_ids.push(id);
        proof {
            if old(self).wf() && old(self).spec_issued().contains(id) {
                lemma_restore(*old(self), *self, id);
            }
        }
    }
}

/// Whether `after` is `before` once it has handed out `id`.
pub open spec fn spec_issues(before: IdManager, after: IdManager, id: u64) -> bool {
    if before.recycled_ids@.len() > 0 {
        &&& id == before.recycled_ids@.last()
        &&& after.recycled_ids@ == before.recycled_ids@.drop_last()
        &&& after.next_id == before.next_id
    } else {
        &&& id == before.next_id
        &&& after.recycled_ids@ == before.recycled_ids@
        &&& after.next_id == before.next_id + 1
    }
}

/// An identifier that is handed out was not out before, and is out after;
/// the bookkeeping stays sound.
pub proof fn lemma_issue(before: IdManager, after: IdManager, id: u64)
    requires
        before.wf(),
        spec_issues(before, after, id),
    ensures
        after.wf(),
        !before.spec_issued().contains(id),
        after.spec_issued() == before.spec_issued().insert(id),
{
    let given_back = before.recycled_ids@;
    if given_back.len() > 0 {
        let rest = given_back.drop_last();
        assert(given_back[given_back.len() - 1] == id);
        assert forall|v: u64| given_back.contains(v) <==> (rest.contains(v) || v == id) by {
            if given_back.contains(v) {
                let k = choose|k: int| 0 <= k < given_back.len() && given_back[k] == v;
                if k < rest.len() {
                    assert(rest[k] == v);
                }
            }
            if rest.contains(v) {
                let k = choose|k: int| 0 <= k < rest.len() && rest[k] == v;
                assert(given_back[k] == v);
            }
        }
        assert(!rest.contains(id)) by {
            if rest.contains(id) {
                let k = choose|k: int| 0 <= k < rest.len() && rest[k] == id;
                assert(given_back[k] == given_back[given_back.len() - 1]);
            }
        }
        assert(after.wf()) by {
            assert forall|k: int| 0 <= k < rest.len()
                implies #[trigger] rest[k] < after.next_id by {
                assert(rest[k] == given_back[k]);
            }
            assert forall|i: int, j: int| 0 <= i < rest.len() && 0 <= j < rest.len()
                && i != j implies rest[i] != rest[j] by {
                assert(rest[i] == given_back[i]);
                assert(rest[j] == given_back[j]);
            }
        }
    } else {
        assert(!given_back.contains(id));
    }
    assert(after.spec_issued() =~= before.spec_issued().insert(id));
}

/// An identifier that is given back is out no longer; the bookkeeping stays
/// sound.
pub proof fn lemma_restore(before: IdManager, after: IdManager, id: u64)
    requires
        before.wf(),
        before.spec_issued().contains(id),
        after.recycled_ids@ == before.recycled_ids@.push(id),
        after.next_id == before.next_id,
    ensures
        after.wf(),
        after.spec_issued() == before.spec_issued().remove(id),
{
    let given_back = before.recycled_ids@;
    let more = after.recycled_ids@;
    assert forall|v: u64| more.contains(v) <==> (given_back.contains(v) || v == id) by {
        if more.contains(v) {
            let k = choose|k: int| 0 <= k < more.len() && more[k] == v;
            if k < given_back.len() {
                assert(given_back[k] == v);
            }
        }
        if given_back.contains(v) {
            let k = choose|k: int| 0 <= k < given_back.len() && given_back[k] == v;
            assert(more[k] == v);
        }
        assert(more[more.len() - 1] == id);
    }
    assert(after.wf()) by {
        assert forall|i: int, j: int| 0 <= i < more.len() && 0 <= j < more.len() && i != j
            implies more[i] != more[j] by {
            if i < given_back.len() {
                assert(more[i] == given_back[i]);
            }
            if j < given_back.len() {
                assert(more[j] == given_back[j]);
            }
        }
    }
    assert(after.spec_issued() =~= before.spec_issued().remove(id));
}

/// The identifier handed out after `n` others is the one foretold.
pub proof fn lemma_nth_issued(start: IdManager, n: int, before: IdManager, after: IdManager,
    id: u64)
    requires
        0 <= n,
        start.spec_issued_since(n, before),
        spec_issues(before, after, id),
    ensures
        id == start.spec_nth(n),
        start.spec_issued_since(n + 1, after),
{
    let given_back = start.recycled_ids@;
    if n < given_back.len() {
        assert(before.recycled_ids@ == given_back.take(given_back.len() - n));
        assert(before.recycled_ids@.len() > 0);
        assert(after.recycled_ids@ =~= given_back.take(given_back.len() - n - 1));
    } else {
        assert(given_back.take(0) =~= Seq::<u64>::empty());
        assert(after.recycled_ids@ =~= Seq::<u64>::empty());
    }
}

/// An identifier that is given back is out no longer, and none that was not
/// out is out afterwards.
pub proof fn lemma_given_back(before: IdManager, after: IdManager, id: u64)
    requires
        after.recycled_ids@ == before.recycled_ids@.push(id),
        after.next_id == before.next_id,
    ensures
        !after.spec_issued().contains(id),
        forall|other: u64|
            !before.spec_issued().contains(other) ==> !#[trigger] after.spec_issued().contains(
                other,
            ),
{
    let given_back = before.recycled_ids@;
    let more = after.recycled_ids@;
    assert(more[more.len() - 1] == id);
    assert forall|other: u64| !before.spec_issued().contains(other)
        implies !#[trigger] after.spec_issued().contains(
        other,
    ) by {
        if given_back.contains(other) {
            let k = choose|k: int| 0 <= k < given_back.len() && given_back[k] == other;
            assert(more[k] == other);
        }
    }
}

} // verus!
