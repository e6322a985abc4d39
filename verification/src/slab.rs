use vstd::prelude::*;

verus! {

/// How many slots are occupied.
pub open spec fn count_some<T>(s: Seq<Option<T>>) -> nat
    decreases s.len(),
{
    if s.len() == 0 {
        0
    } else {
        count_some(s.drop_last()) + (if s.last() is Some {
            1nat
        } else {
            0nat
        })
    }
}

pub proof fn lemma_count_some_update<T>(s: Seq<Option<T>>, i: int, v: Option<T>)
    requires
        0 <= i < s.len(),
    ensures
        count_some(s.update(i, v)) == count_some(s) - (if s[i] is Some {
            1nat
        } else {
            0nat
        }) + (if v is Some {
            1nat
        } else {
            0nat
        }),
    decreases s.len(),
{
    let s2 = s.update(i, v);
    if i == s.len() - 1 {
        assert(s2.drop_last() =~= s.drop_last());
    } else {
        assert(s2.drop_last() =~= s.drop_last().update(i, v));
        lemma_count_some_update(s.drop_last(), i, v);
    }
}

pub proof fn lemma_count_some_le<T>(s: Seq<Option<T>>)
    ensures
        count_some(s) <= s.len(),
    decreases s.len(),
{
    if s.len() > 0 {
        lemma_count_some_le(s.drop_last());
    }
}

/// Fixed-capacity storage whose identifiers are stable slot indices.
pub struct Slab<T> {
    slots: Vec<Option<T>>,
}

impl<T> View for Slab<T> {
    type V = Seq<Option<T>>;

    closed spec fn view(&self) -> Seq<Option<T>> {
        self.slots@
    }
}

impl<T> Slab<T> {
    /// All `capacity` slots start free.
    pub fn new(capacity: usize) -> (s: Slab<T>)
        ensures
            s@.len() == capacity,
            forall|i: int| 0 <= i < capacity ==> s@[i] is None,
            count_some(s@) == 0,
    {
        let mut slots: Vec<Option<T>> = Vec::new();
        let mut i: usize = 0;
        while i < capacity
            invariant
                0 <= i <= capacity,
                slots@.len() == i,
                forall|k: int| 0 <= k < i ==> slots@[k] is None,
                count_some(slots@) == 0,
            decreases capacity - i,
        {
            let ghost prev = slots@;
            slots.push(None);
            proof {
                assert(slots@.drop_last() =~= prev);
            }
            i = i + 1;
        }
        Slab { slots }
    }

    pub fn capacity(&self) -> (r: usize)
        ensures
            r == self@.len(),
    {
        self.slots.len()
    }

    /// The first free slot, if any.
    pub fn free_index(&self) -> (r: Option<usize>)
        ensures
            match r {
                Some(i) => i < self@.len() && self@[i as int] is None,
                None => forall|k: int| 0 <= k < self@.len() ==> self@[k] is Some,
            },
    {
        let mut i: usize = 0;
        while i < self.slots.len()
            invariant
                0 <= i <= self@.len(),
                forall|k: int| 0 <= k < i ==> self@[k] is Some,
            decreases self@.len() - i,
        {
            if self.slots[i].is_none() {
                return Some(i);
            }
            i = i + 1;
        }
        None
    }

    /// Fills a free slot.
    pub fn put_at(&mut self, i: usize, v: T)
        requires
            i < old(self)@.len(),
            old(self)@[i as int] is None,
        ensures
            final(self)@ == old(self)@.update(i as int, Some(v)),
            count_some(final(self)@) == count_some(old(self)@) + 1,
    {
        proof {
            lemma_count_some_update(self@, i as int, Some(v));
        }
        let _ = self.slots.remove(i);
        self.slots.insert(i, Some(v));
        proof {
            assert(self.slots@ =~= old(self)@.update(i as int, Some(v)));
        }
    }

    /// Empties a slot, handing its content out.
    pub fn take_at(&mut self, i: usize) -> (r: Option<T>)
        requires
            i < old(self)@.len(),
        ensures
            r == old(self)@[i as int],
            final(self)@ == old(self)@.update(i as int, None),
            count_some(final(self)@) == count_some(old(self)@) - (if old(self)@[i as int]
                is Some {
                1nat
            } else {
                0nat
            }),
    {
        proof {
            lemma_count_some_update(self@, i as int, None);
        }
        let v = self.slots.remove(i);
        self.slots.insert(i, None);
        proof {
            assert(self.slots@ =~= old(self)@.update(i as int, None));
        }
        v
    }

    /// Borrows the slot's content.
    pub fn get(&self, i: usize) -> (r: Option<&T>)
        ensures
            i < self@.len() ==> match r {
                Some(v) => self@[i as int] == Some(*v),
                None => self@[i as int] is None,
            },
            i >= self@.len() ==> r is None,
    {
        if i < self.slots.len() {
            match &self.slots[i] {
                Some(v) => Some(v),
                None => None,
            }
        } else {
            None
        }
    }

    /// Is this slot occupied?
    pub fn contains(&self, i: usize) -> (r: bool)
        ensures
            r == (i < self@.len() && self@[i as int] is Some),
    {
        i < self.slots.len() && self.slots[i].is_some()
    }

    /// Frees every slot.
    pub fn clear(&mut self)
        ensures
            final(self)@.len() == old(self)@.len(),
            forall|i: int| 0 <= i < final(self)@.len() ==> final(self)@[i] is None,
            count_some(final(self)@) == 0,
    {
        let n = self.slots.len();
        self.slots.clear();
        let mut i: usize = 0;
        while i < n
            invariant
                0 <= i <= n,
                self.slots@.len() == i,
                forall|k: int| 0 <= k < i ==> self.slots@[k] is None,
                count_some(self.slots@) == 0,
            decreases n - i,
        {
            let ghost prev = self.slots@;
            self.slots.push(None);
            proof {
                assert(self.slots@.drop_last() =~= prev);
            }
            i = i + 1;
        }
    }
}

} // verus!
