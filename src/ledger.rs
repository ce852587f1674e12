//! The completion ledger: the stems for which a result already exists.

use vstd::prelude::*;

verus! {

/// A set of stems, each held once.
pub struct CompletionLedger {
    stems: Vec<String>,
}

impl View for CompletionLedger {
    type V = Set<Seq<char>>;

    closed spec fn view(&self) -> Set<Seq<char>> {
        Set::new(|s: Seq<char>| exists|i: int| 0 <= i < self.stems@.len() && #[trigger] self.stems@[i]@ == s)
    }
}

impl CompletionLedger {
    /// No stem is held twice.
    pub closed spec fn wf(&self) -> bool {
        forall|i: int, j: int|
            0 <= i < j < self.stems@.len() ==> #[trigger] self.stems@[i]@ != #[trigger] self.stems@[j]@
    }

    /// The empty ledger.
    pub fn new() -> (r: Self)
        ensures
            r@ == Set::<Seq<char>>::empty(),
            r.wf(),
    {
        let r = CompletionLedger { stems: Vec::new() };
        assert(r@ =~= Set::<Seq<char>>::empty());
        r
    }

    /// Whether `stem` is recorded.
    pub fn contains(&self, stem: &String) -> (r: bool)
        ensures
            r == self@.contains(stem@),
    {
        let n = self.stems.len();
        let mut i: usize = 0;
        while i < n
            invariant
                i <= n == self.stems@.len(),
                forall|k: int| 0 <= k < i ==> self.stems@[k]@ != stem@,
            decreases n - i,
        {
            if self.stems[i] == *stem {
                assert(self.stems@[i as int]@ == stem@);
                return true;
            }
            i = i + 1;
        }
        false
    }

    /// Records `stem`; recording it again changes nothing.
    pub fn insert(&mut self, stem: String)
        requires
            old(self).wf(),
        ensures
            final(self)@ == old(self)@.insert(stem@),
            final(self).wf(),
    {
        if !self.contains(&stem) {
            let ghost before = self.stems@;
            self.stems.push(stem);
            assert(self.stems@.drop_last() == before);
            assert forall|s: Seq<char>| #[trigger] self@.contains(s) == old(self)@.insert(stem@).contains(s) by {
                if old(self)@.contains(s) {
                    let i = choose|i: int| 0 <= i < before.len() && #[trigger] before[i]@ == s;
                    assert(self.stems@[i]@ == s);
                }
                if self@.contains(s) {
                    let i = choose|i: int| 0 <= i < self.stems@.len() && #[trigger] self.stems@[i]@ == s;
                    if i < before.len() {
                        assert(before[i]@ == s);
                    }
                }
                if s == stem@ {
                    assert(self.stems@[before.len() as int]@ == s);
                }
            }
            assert(self@ =~= old(self)@.insert(stem@));
        } else {
            assert(old(self)@.insert(stem@) =~= old(self)@);
        }
    }

    /// The number of recorded stems.
    pub fn len(&self) -> (r: usize)
        requires
            self.wf(),
        ensures
            r == self@.len(),
    {
        proof {
            self.lemma_view_len();
        }
        self.stems.len()
    }

    proof fn lemma_view_len(&self)
        requires
            self.wf(),
        ensures
            self@.finite(),
            self@.len() == self.stems@.len(),
        decreases self.stems@.len(),
    {
        let v = self.stems@.map_values(|s: String| s@);
        assert forall|s: Seq<char>| #[trigger] self@.contains(s) == v.to_set().contains(s) by {
            if self@.contains(s) {
                let i = choose|i: int| 0 <= i < self.stems@.len() && #[trigger] self.stems@[i]@ == s;
                assert(v[i] == s);
            }
            if v.contains(s) {
                let i = choose|i: int| 0 <= i < v.len() && v[i] == s;
                assert(self.stems@[i]@ == s);
            }
        }
        assert(self@ =~= v.to_set());
        assert(v.no_duplicates());
        v.unique_seq_to_set();
    }
}

} // verus!
