use vstd::prelude::*;

verus! {

/// Equality of two byte strings.
pub fn bytes_equal(a: &Vec<u8>, b: &Vec<u8>) -> (r: bool)
    ensures
        r == (a@ == b@),
{
    if a.len() != b.len() {
        return false;
    }
    let mut i: usize = 0;
    while i < a.len()
        invariant
            a@.len() == b@.len(),
            i <= a@.len(),
            forall|j: int| 0 <= j < i ==> a@[j] == b@[j],
        decreases a@.len() - i,
    {
        if a[i] != b[i] {
            return false;
        }
        i = i + 1;
    }
    assert(a@ =~= b@);
    true
}

/// A copy of a byte string.
pub fn copy_bytes(a: &Vec<u8>) -> (r: Vec<u8>)
    ensures
        r@ == a@,
{
    let mut r: Vec<u8> = Vec::new();
    let mut i: usize = 0;
    while i < a.len()
        invariant
            i <= a@.len(),
            r@ == a@.subrange(0, i as int),
        decreases a@.len() - i,
    {
        r.push(a[i]);
        i = i + 1;
        assert(r@ =~= a@.subrange(0, i as int));
    }
    assert(r@ =~= a@);
    r
}

/// A set of digests, each held once.
pub struct DigestSet {
    items: Vec<crate::Hash>,
}

impl View for DigestSet {
    type V = Set<Seq<u8>>;

    closed spec fn view(&self) -> Set<Seq<u8>> {
        Set::new(|h: Seq<u8>| exists|i: int| 0 <= i < self.items@.len() && self.items@[i]@ == h)
    }
}

impl DigestSet {
    /// No digest is held twice.
    pub closed spec fn wf(&self) -> bool {
        forall|i: int, j: int|
            0 <= i < j < self.items@.len() ==> self.items@[i]@ != self.items@[j]@
    }

    pub fn new() -> (r: DigestSet)
        ensures
            r.wf(),
            r@ == Set::<Seq<u8>>::empty(),
    {
        let r = DigestSet { items: Vec::new() };
        assert(r@ =~= Set::<Seq<u8>>::empty());
        r
    }

    pub fn contains(&self, h: &crate::Hash) -> (r: bool)
        ensures
            r == self@.contains(h@),
    {
        let mut i: usize = 0;
        while i < self.items.len()
            invariant
                i <= self.items@.len(),
                forall|j: int| 0 <= j < i ==> self.items@[j]@ != h@,
            decreases self.items@.len() - i,
        {
            if bytes_equal(&self.items[i], h) {
                return true;
            }
            i = i + 1;
        }
        false
    }

    /// The number of digests held.
    pub fn len(&self) -> (r: usize)
        requires
            self.wf(),
        ensures
            r == self@.len(),
    {
        proof {
            self.lemma_len();
        }
        self.items.len()
    }

    proof fn lemma_len(&self)
        requires
            self.wf(),
        ensures
            self@.finite(),
            self@.len() == self.items@.len(),
        decreases self.items@.len(),
    {
        let v = self.items@.map_values(|h: Vec<u8>| h@);
        assert(v.no_duplicates());
        v.unique_seq_to_set();
        assert(self@ =~= v.to_set()) by {
            assert forall|h: Seq<u8>| self@.contains(h) implies v.to_set().contains(h) by {
                let i = choose|i: int| 0 <= i < self.items@.len() && self.items@[i]@ == h;
                assert(v[i] == h);
            }
        }
    }

    pub fn is_empty(&self) -> (r: bool)
        ensures
            r == (self@ == Set::<Seq<u8>>::empty()),
    {
        if self.items.len() == 0 {
            assert(self@ =~= Set::<Seq<u8>>::empty());
            true
        } else {
            assert(self@.contains(self.items@[0]@));
            false
        }
    }

    /// Adds `h`, unless it is held already.
    pub fn insert(&mut self, h: crate::Hash)
        requires
            old(self).wf(),
        ensures
            final(self).wf(),
            final(self)@ == old(self)@.insert(h@),
    {
        if !self.contains(&h) {
            let ghost hv = h@;
            self.items.push(h);
            assert(self@ =~= old(self)@.insert(hv)) by {
                assert(self.items@[self.items@.len() - 1]@ == hv);
                assert forall|x: Seq<u8>| old(self)@.contains(x) implies self@.contains(x) by {
                    let i = choose|i: int| 0 <= i < old(self).items@.len() && old(self).items@[i]@ == x;
                    assert(self.items@[i]@ == x);
                }
            }
        }
    }

    /// True iff every digest held here is held in `other`.
    pub fn is_subset(&self, other: &DigestSet) -> (r: bool)
        ensures
            r == self@.subset_of(other@),
    {
        let mut i: usize = 0;
        while i < self.items.len()
            invariant
                i <= self.items@.len(),
                forall|j: int| 0 <= j < i ==> other@.contains(#[trigger] self.items@[j]@),
            decreases self.items@.len() - i,
        {
            if !other.contains(&self.items[i]) {
                assert(self@.contains(self.items@[i as int]@));
                return false;
            }
            i = i + 1;
        }
        true
    }

    /// True iff no digest is held both here and in `other`.
    pub fn is_disjoint(&self, other: &DigestSet) -> (r: bool)
        ensures
            r == self@.disjoint(other@),
    {
        let mut i: usize = 0;
        while i < self.items.len()
            invariant
                i <= self.items@.len(),
                forall|j: int| 0 <= j < i ==> !other@.contains(#[trigger] self.items@[j]@),
            decreases self.items@.len() - i,
        {
            if other.contains(&self.items[i]) {
                assert(self@.contains(self.items@[i as int]@));
                return false;
            }
            i = i + 1;
        }
        true
    }

    /// Adds every digest of `other`.
    pub fn extend(&mut self, other: &DigestSet)
        requires
            old(self).wf(),
        ensures
            final(self).wf(),
            final(self)@ == old(self)@.union(other@),
    {
        let mut i: usize = 0;
        while i < other.items.len()
            invariant
                i <= other.items@.len(),
                self.wf(),
                self@ == old(self)@.union(
                    Set::new(|h: Seq<u8>| exists|j: int| 0 <= j < i && other.items@[j]@ == h),
                ),
            decreases other.items@.len() - i,
        {
            let ghost before = self@;
            self.insert(copy_bytes(&other.items[i]));
            i = i + 1;
            assert(self@ =~= old(self)@.union(
                Set::new(|h: Seq<u8>| exists|j: int| 0 <= j < i && other.items@[j]@ == h),
            )) by {
                assert(other.items@[i - 1]@ == other.items[i - 1]@);
            }
        }
        assert(self@ =~= old(self)@.union(other@));
    }

    /// Removes every digest that `other` holds.
    pub fn remove_all(&mut self, other: &DigestSet)
        requires
            old(self).wf(),
        ensures
            final(self).wf(),
            final(self)@ == old(self)@.difference(other@),
    {
        let mut kept = DigestSet::new();
        let mut i: usize = 0;
        while i < self.items.len()
            invariant
                i <= self.items@.len(),
                kept.wf(),
                kept@ == Set::new(
                    |h: Seq<u8>| exists|j: int| 0 <= j < i && self.items@[j]@ == h,
                ).difference(other@),
            decreases self.items@.len() - i,
        {
            let ghost before = kept@;
            let ghost cur = self.items@[i as int]@;
            if !other.contains(&self.items[i]) {
                kept.insert(copy_bytes(&self.items[i]));
            }
            i = i + 1;
            assert(kept@ =~= Set::new(
                |h: Seq<u8>| exists|j: int| 0 <= j < i && self.items@[j]@ == h,
            ).difference(other@)) by {
                assert(self.items@[i - 1]@ == cur);
            }
        }
        assert(kept@ =~= old(self)@.difference(other@));
        *self = kept;
    }
}

} // verus!
