//! An immutable string pool without interning.
//!
//! Strings are allocated into slots and read back by slot id.  Freed slots
//! are kept in a sorted free list and reused, highest id first; a freed or
//! out-of-range id reads back as nothing.

use vstd::prelude::*;

verus! {

/// The pool: the slot contents, and the sorted list of freed slot ids.
pub struct StringPool {
    pool: Vec<String>,
    free: Vec<usize>,
}

impl StringPool {
    /// The text in each slot, freed or not.
    pub closed spec fn strs(&self) -> Seq<Seq<char>> {
        self.pool@.map_values(|s: String| s@)
    }

    /// The freed slot ids, in increasing order.
    pub closed spec fn free_seq(&self) -> Seq<usize> {
        self.free@
    }

    /// The slot id is on the free list.
    pub open spec fn freed(&self, i: int) -> bool {
        exists|k: int| 0 <= k < self.free_seq().len() && self.free_seq()[k] == i
    }

    /// The slot holds an allocated string: in range and not freed.
    pub open spec fn live(&self, i: int) -> bool {
        0 <= i < self.strs().len() && !self.freed(i)
    }

    /// The free list is strictly increasing and stays within the pool.
    pub closed spec fn wf(&self) -> bool {
        &&& forall|a: int, b: int|
            0 <= a < b < self.free@.len() ==> #[trigger] self.free@[a] < #[trigger] self.free@[b]
        &&& forall|k: int| 0 <= k < self.free@.len() ==> #[trigger] self.free@[k] < self.pool@.len()
    }

    pub fn new() -> (r: Self)
        ensures
            r.wf(),
            r.strs().len() == 0,
            r.free_seq().len() == 0,
    {
        let r = StringPool { pool: Vec::new(), free: Vec::new() };
        proof {
            assert(r.strs() =~= Seq::<Seq<char>>::empty());
        }
        r
    }

    /// Put a string into a slot and return the slot id: the highest freed
    /// slot when one exists, else a fresh slot at the end.  Every other
    /// slot keeps its content.
    pub fn allocate(&mut self, s: String) -> (id: usize)
        requires
            old(self).wf(),
        ensures
            final(self).wf(),
            final(self).live(id as int),
            !old(self).live(id as int),
            final(self).strs()[id as int] == s@,
            final(self).strs().len() == (if old(self).free_seq().len() == 0 {
                old(self).strs().len() + 1
            } else {
                old(self).strs().len()
            }),
            old(self).free_seq().len() > 0 ==> id == old(self).free_seq().last(),
            old(self).free_seq().len() == 0 ==> id == old(self).strs().len(),
            forall|i: int|
                0 <= i < old(self).strs().len() && i != id as int ==> #[trigger] final(self).strs()[i] == old(self).strs()[i] && (final(self).live(i) == old(self).live(i)),
    {
        if self.free.is_empty() {
            let id = self.pool.len();
            self.pool.push(s);
            proof {
                assert(self.strs() =~= old(self).strs().push(s@));
            }
            id
        } else {
            let id = match self.free.pop() {
                Some(id) => id,
                None => {
                    proof {
                        assert(false);
                    }
                    0
                },
            };
            let ghost prefree = old(self).free@;
            proof {
                assert(id == prefree[prefree.len() - 1]);
                assert(id < self.pool@.len());
            }
            let slot = vstd::std_specs::vec::vec_index_mut(&mut self.pool, id);
            *slot = s;
            proof {
                assert(self.strs() =~= old(self).strs().update(id as int, s@));
                assert(self.free@ =~= prefree.drop_last());
                // The popped id was the greatest freed id, so it is no
                // longer on the shortened free list.
                assert(!self.freed(id as int)) by {
                    if self.freed(id as int) {
                        let k = choose|k: int|
                            0 <= k < self.free_seq().len() && self.free_seq()[k] == id as int;
                        assert(prefree[k] < prefree[prefree.len() - 1]);
                    }
                }
                assert(old(self).freed(id as int)) by {
                    assert(old(self).free_seq()[prefree.len() - 1] == id);
                }
                assert forall|i: int|
                    0 <= i < old(self).strs().len() && i != id as int implies (self.live(i)
                    == old(self).live(i)) by {
                    if old(self).freed(i) {
                        let k = choose|k: int|
                            0 <= k < old(self).free_seq().len() && old(self).free_seq()[k] == i;
                        assert(k < prefree.len() - 1);
                        assert(self.free_seq()[k] == i);
                    }
                    if self.freed(i) {
                        let k = choose|k: int|
                            0 <= k < self.free_seq().len() && self.free_seq()[k] == i;
                        assert(old(self).free_seq()[k] == i);
                    }
                }
            }
            id
        }
    }

    /// The string in a slot: nothing when the id is out of range or the
    /// slot was freed.
    pub fn get(&self, id: usize) -> (r: Option<&str>)
        requires
            self.wf(),
        ensures
            match r {
                Some(s) => self.live(id as int) && s@ == self.strs()[id as int],
                None => !self.live(id as int),
            },
    {
        if id >= self.pool.len() {
            return None;
        }
        let mut k: usize = 0;
        while k < self.free.len()
            invariant
                0 <= k <= self.free@.len(),
                forall|j: int| 0 <= j < k ==> #[trigger] self.free@[j] != id,
            decreases self.free@.len() - k,
        {
            if self.free[k] == id {
                proof {
                    assert(self.freed(id as int)) by {
                        assert(self.free_seq()[k as int] == id);
                    }
                }
                return None;
            }
            k = k + 1;
        }
        proof {
            assert(!self.freed(id as int)) by {
                if self.freed(id as int) {
                    let j = choose|j: int|
                        0 <= j < self.free_seq().len() && self.free_seq()[j] == id as int;
                    assert(self.free@[j] != id);
                }
            }
        }
        Some(self.pool[id].as_str())
    }

    /// Mark a slot as freed; reading it back then yields nothing.  Freeing
    /// a slot twice changes nothing.
    pub fn _free(&mut self, id: usize)
        requires
            old(self).wf(),
            id < old(self).strs().len(),
        ensures
            final(self).wf(),
            final(self).strs() == old(self).strs(),
            !final(self).live(id as int),
            forall|i: int|
                0 <= i < old(self).strs().len() && i != id as int ==> final(self).live(i) == old(self).live(i),
    {
        let mut k: usize = self.free.len();
        while k > 0 && self.free[k - 1] > id
            invariant
                0 <= k <= self.free@.len(),
                forall|j: int| k <= j < self.free@.len() ==> #[trigger] self.free@[j] > id,
            decreases k,
        {
            k = k - 1;
        }
        if k > 0 && self.free[k - 1] == id {
            proof {
                assert(old(self).freed(id as int)) by {
                    assert(old(self).free_seq()[k - 1] == id);
                }
            }
            return ;
        }
        let ghost prefree = self.free@;
        self.free.insert(k, id);
        proof {
            let f = self.free@;
            assert(f.len() == prefree.len() + 1);
            assert(f[k as int] == id);
            assert(forall|j: int| 0 <= j < k ==> f[j] == prefree[j]);
            assert(forall|j: int| k < j < f.len() ==> f[j] == prefree[j - 1]);
            assert forall|a: int, b: int| 0 <= a < b < f.len() implies #[trigger] f[a]
                < #[trigger] f[b] by {
                if a == k as int {
                    assert(prefree[b - 1] > id);
                } else if b == k as int {
                    assert(prefree[a] <= id);
                    assert(prefree[a] != id);
                } else if a < k as int && b > k as int {
                    assert(prefree[a] < prefree[b - 1] || a == b - 1);
                    if a == b - 1 {
                        assert(prefree[a] <= id);
                        assert(prefree[b - 1] > id);
                    }
                }
            }
            assert(self.freed(id as int)) by {
                assert(self.free_seq()[k as int] == id);
            }
            assert forall|i: int|
                0 <= i < old(self).strs().len() && i != id as int implies self.live(i)
                == old(self).live(i) by {
                if old(self).freed(i) {
                    let j = choose|j: int|
                        0 <= j < old(self).free_seq().len() && old(self).free_seq()[j] == i;
                    if j < k as int {
                        assert(self.free_seq()[j] == i);
                    } else {
                        assert(self.free_seq()[j + 1] == i);
                    }
                }
                if self.freed(i) {
                    let j = choose|j: int|
                        0 <= j < self.free_seq().len() && self.free_seq()[j] == i;
                    if j < k as int {
                        assert(old(self).free_seq()[j] == i);
                    } else {
                        assert(j != k as int);
                        assert(old(self).free_seq()[j - 1] == i);
                    }
                }
            }
        }
    }
}

} // verus!
