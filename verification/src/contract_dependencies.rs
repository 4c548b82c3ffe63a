use vstd::prelude::*;
use crate::representations::{ContractIdView, QualifiedContractIdentifier};

verus! {

broadcast use vstd::std_specs::vec::group_vec_axioms;

/// The views of a list of contract identifiers.
pub open spec fn ids_view(s: Seq<QualifiedContractIdentifier>) -> Seq<ContractIdView> {
    s.map_values(|c: QualifiedContractIdentifier| c@)
}

/// The contracts that each contract depends on: one entry per contract, each with the
/// contracts it depends on, without repetition.
pub struct ContractDependencies {
    entries: Vec<(QualifiedContractIdentifier, Vec<QualifiedContractIdentifier>)>,
}

impl View for ContractDependencies {
    type V = Seq<(ContractIdView, Seq<ContractIdView>)>;

    closed spec fn view(&self) -> Self::V {
        self.entries@.map_values(
            |e: (QualifiedContractIdentifier, Vec<QualifiedContractIdentifier>)| (e.0@, ids_view(e.1@)),
        )
    }
}

impl ContractDependencies {
    /// No contract has two entries, and no entry names a dependency twice.
    pub open spec fn wf(&self) -> bool {
        &&& forall|i: int, j: int| 0 <= i < j < self@.len() ==> (#[trigger] self@[i]).0 != (#[trigger] self@[j]).0
        &&& forall|i: int| 0 <= i < self@.len() ==> (#[trigger] self@[i]).1.no_duplicates()
    }

    /// The contracts that have an entry, in the order of their entries.
    pub open spec fn keys(&self) -> Seq<ContractIdView> {
        self@.map_values(|e: (ContractIdView, Seq<ContractIdView>)| e.0)
    }

    pub open spec fn has_key(&self, k: ContractIdView) -> bool {
        exists|i: int| 0 <= i < self@.len() && (#[trigger] self@[i]).0 == k
    }

    /// The contracts that `k` depends on (empty when `k` has no entry).
    pub open spec fn deps_of(&self, k: ContractIdView) -> Set<ContractIdView> {
        Set::new(|d: ContractIdView| exists|i: int| 0 <= i < self@.len() && (#[trigger] self@[i]).0 == k && self@[i].1.contains(d))
    }

    /// The dependencies of the entry at `i` are those that `deps_of` gives for its contract.
    pub proof fn lemma_deps_of_entry(&self, i: int)
        requires
            self.wf(),
            0 <= i < self@.len(),
        ensures
            self.deps_of(self@[i].0) == self@[i].1.to_set(),
    {
        assert(self.deps_of(self@[i].0) =~= self@[i].1.to_set()) by {
            assert forall|d: ContractIdView| self.deps_of(self@[i].0).contains(d) implies self@[i].1.to_set().contains(d) by {
                let j = choose|j: int| 0 <= j < self@.len() && (#[trigger] self@[j]).0 == self@[i].0 && self@[j].1.contains(d);
                if j < i {
                    assert(self@[j].0 != self@[i].0);
                } else if j > i {
                    assert(self@[i].0 != self@[j].0);
                }
            }
        }
    }

    /// A contract without an entry depends on nothing.
    pub proof fn lemma_deps_of_absent(&self, k: ContractIdView)
        requires
            !self.has_key(k),
        ensures
            self.deps_of(k) == Set::<ContractIdView>::empty(),
    {
        assert(self.deps_of(k) =~= Set::<ContractIdView>::empty());
    }

    /// The empty collection.
    pub fn new() -> (r: Self)
        ensures
            r@.len() == 0,
            r.wf(),
    {
        let r = ContractDependencies { entries: Vec::new() };
        assert(r@ =~= Seq::empty());
        r
    }

    /// The number of contracts that have an entry.
    pub fn len(&self) -> (r: usize)
        ensures
            r == self@.len(),
    {
        self.entries.len()
    }

    /// The contract of the entry at `i`.
    pub fn key_at(&self, i: usize) -> (r: &QualifiedContractIdentifier)
        requires
            i < self@.len(),
        ensures
            r@ == self@[i as int].0,
    {
        &self.entries[i].0
    }

    /// The dependencies of the entry at `i`.
    pub fn deps_at(&self, i: usize) -> (r: &Vec<QualifiedContractIdentifier>)
        requires
            i < self@.len(),
        ensures
            ids_view(r@) == self@[i as int].1,
    {
        &self.entries[i].1
    }

    /// The position of the entry of `id`, if it has one.
    pub fn index_of(&self, id: &QualifiedContractIdentifier) -> (r: Option<usize>)
        ensures
            r matches Some(i) ==> i < self@.len() && self@[i as int].0 == id@,
            r is None <==> !self.has_key(id@),
    {
        let mut i: usize = 0;
        while i < self.entries.len()
            invariant
                i <= self@.len(),
                self@.len() == self.entries@.len(),
                forall|j: int| 0 <= j < i ==> (#[trigger] self@[j]).0 != id@,
            decreases self.entries.len() - i,
        {
            if self.entries[i].0.same(id) {
                proof {
                    assert(self@[i as int].0 == id@);
                }
                return Some(i);
            }
            i = i + 1;
        }
        None
    }

    /// Whether `id` has an entry.
    pub fn contains_key(&self, id: &QualifiedContractIdentifier) -> (r: bool)
        ensures
            r == self.has_key(id@),
    {
        self.index_of(id).is_some()
    }

    /// The dependencies of `id`, if it has an entry.
    pub fn get(&self, id: &QualifiedContractIdentifier) -> (r: Option<&Vec<QualifiedContractIdentifier>>)
        requires
            self.wf(),
        ensures
            r is Some <==> self.has_key(id@),
            r matches Some(v) ==> ids_view(v@).to_set() == self.deps_of(id@) && ids_view(v@).no_duplicates(),
    {
        match self.index_of(id) {
            Some(i) => {
                proof {
                    self.lemma_deps_of_entry(i as int);
                }
                Some(&self.entries[i].1)
            },
            None => None,
        }
    }

    /// Gives `id` an entry without dependencies, in place of the one it had.
    pub fn reset_contract(&mut self, id: &QualifiedContractIdentifier)
        requires
            old(self).wf(),
        ensures
            final(self).wf(),
            final(self).has_key(id@),
            final(self).deps_of(id@) == Set::<ContractIdView>::empty(),
            forall|k: ContractIdView| k != id@ ==> (#[trigger] final(self).deps_of(k)) == old(self).deps_of(k),
            forall|k: ContractIdView| #[trigger] final(self).has_key(k) <==> old(self).has_key(k) || k == id@,
    {
        let ghost old_view = self@;
        match self.index_of(id) {
            Some(i) => {
                let mut entry = (id.copy(), Vec::new());
                std::mem::swap(&mut entry, &mut self.entries[i]);
                proof {
                    assert(self@ =~= old_view.update(i as int, (id@, Seq::empty()))) by {
                        assert(ids_view(Seq::<QualifiedContractIdentifier>::empty()) =~= Seq::empty());
                    }
                    self.lemma_deps_after_update(old_view, i as int);
                }
            },
            None => {
                self.entries.push((id.copy(), Vec::new()));
                proof {
                    assert(self@ =~= old_view.push((id@, Seq::empty()))) by {
                        assert(ids_view(Seq::<QualifiedContractIdentifier>::empty()) =~= Seq::empty());
                    }
                    self.lemma_deps_after_push(old_view);
                }
            },
        }
    }

    /// Records that `from` depends on `to`; `from` gets an entry if it had none.
    pub fn add_dependency(&mut self, from: &QualifiedContractIdentifier, to: &QualifiedContractIdentifier)
        requires
            old(self).wf(),
        ensures
            final(self).wf(),
            final(self).deps_of(from@) == old(self).deps_of(from@).insert(to@),
            forall|k: ContractIdView| k != from@ ==> (#[trigger] final(self).deps_of(k)) == old(self).deps_of(k),
            forall|k: ContractIdView| #[trigger] final(self).has_key(k) <==> old(self).has_key(k) || k == from@,
            old(self).has_key(from@) ==> final(self).keys() == old(self).keys(),
    {
        let ghost old_view = self@;
        match self.index_of(from) {
            Some(i) => {
                proof {
                    self.lemma_deps_of_entry(i as int);
                }
                let mut present = false;
                let mut j: usize = 0;
                while j < self.entries[i].1.len()
                    invariant
                        i < self.entries@.len(),
                        j <= self.entries@[i as int].1@.len(),
                        present ==> ids_view(self.entries@[i as int].1@).contains(to@),
                        !present ==> forall|q: int| 0 <= q < j ==> (#[trigger] self.entries@[i as int].1@[q])@ != to@,
                    decreases self.entries@[i as int].1@.len() - j,
                {
                    if self.entries[i].1[j].same(to) {
                        present = true;
                        proof {
                            assert(ids_view(self.entries@[i as int].1@)[j as int] == to@);
                        }
                    }
                    j = j + 1;
                }
                if !present {
                    let mut entry = (from.copy(), Vec::new());
                    std::mem::swap(&mut entry, &mut self.entries[i]);
                    entry.1.push(to.copy());
                    let ghost new_deps = ids_view(entry.1@);
                    std::mem::swap(&mut entry, &mut self.entries[i]);
                    proof {
                        let od = old_view[i as int].1;
                        assert(new_deps =~= od.push(to@));
                        assert(!od.contains(to@)) by {
                            if od.contains(to@) {
                                let q = choose|q: int| 0 <= q < od.len() && od[q] == to@;
                                assert(ids_view(old(self).entries@[i as int].1@)[q] == to@);
                            }
                        }
                        assert(self@ =~= old_view.update(i as int, (from@, od.push(to@))));
                        assert(od.push(to@).no_duplicates()) by {
                            assert forall|a: int, b: int| 0 <= a < od.push(to@).len() && 0 <= b < od.push(to@).len() && a != b
                                implies od.push(to@)[a] != od.push(to@)[b] by {
                                if a < od.len() && b < od.len() {
                                    assert(od[a] != od[b]);
                                }
                            }
                        }
                        self.lemma_deps_after_update(old_view, i as int);
                        od.lemma_push_to_set_commute(to@);
                    }
                } else {
                    proof {
                        assert(old_view[i as int].1.to_set().contains(to@));
                        assert(old(self).deps_of(from@).insert(to@) =~= old(self).deps_of(from@));
                    }
                }
            },
            None => {
                let mut deps: Vec<QualifiedContractIdentifier> = Vec::new();
                deps.push(to.copy());
                self.entries.push((from.copy(), deps));
                proof {
                    assert(ids_view(deps@) =~= seq![to@]);
                    assert(self@ =~= old_view.push((from@, seq![to@])));
                    self.lemma_deps_after_push(old_view);
                    Seq::<ContractIdView>::empty().lemma_push_to_set_commute(to@);
                    assert(Seq::<ContractIdView>::empty().push(to@) =~= seq![to@]);
                    assert(Seq::<ContractIdView>::empty().to_set() =~= Set::empty());
                    old(self).lemma_deps_of_absent(from@);
                    assert(seq![to@].no_duplicates());
                }
            },
        }
    }

    /// After the entry at `i` is replaced by one for the same contract, the other
    /// contracts keep their dependencies.
    proof fn lemma_deps_after_update(&self, old_view: Seq<(ContractIdView, Seq<ContractIdView>)>, i: int)
        requires
            0 <= i < old_view.len(),
            self@ == old_view.update(i, self@[i]),
            self@[i].0 == old_view[i].0,
            self@[i].1.no_duplicates(),
            forall|a: int, b: int| 0 <= a < b < old_view.len() ==> (#[trigger] old_view[a]).0 != (#[trigger] old_view[b]).0,
            forall|a: int| 0 <= a < old_view.len() ==> (#[trigger] old_view[a]).1.no_duplicates(),
        ensures
            self.wf(),
            self.deps_of(self@[i].0) == self@[i].1.to_set(),
            forall|k: ContractIdView| k != self@[i].0 ==> (#[trigger] self.deps_of(k)) == Set::new(
                |d: ContractIdView| exists|a: int| 0 <= a < old_view.len() && (#[trigger] old_view[a]).0 == k && old_view[a].1.contains(d),
            ),
            forall|k: ContractIdView| #[trigger] self.has_key(k) <==> exists|a: int| 0 <= a < old_view.len() && (#[trigger] old_view[a]).0 == k,
            self.keys() == old_view.map_values(|e: (ContractIdView, Seq<ContractIdView>)| e.0),
    {
        assert(self.wf()) by {
            assert forall|a: int, b: int| 0 <= a < b < self@.len() implies (#[trigger] self@[a]).0 != (#[trigger] self@[b]).0 by {
                assert(old_view[a].0 != old_view[b].0);
            }
            assert forall|a: int| 0 <= a < self@.len() implies (#[trigger] self@[a]).1.no_duplicates() by {
                if a != i {
                    assert(self@[a] == old_view[a]);
                }
            }
        }
        self.lemma_deps_of_entry(i);
        assert forall|k: ContractIdView| k != self@[i].0 implies (#[trigger] self.deps_of(k)) == Set::new(
            |d: ContractIdView| exists|a: int| 0 <= a < old_view.len() && (#[trigger] old_view[a]).0 == k && old_view[a].1.contains(d),
        ) by {
            let s2 = Set::new(
                |d: ContractIdView| exists|a: int| 0 <= a < old_view.len() && (#[trigger] old_view[a]).0 == k && old_view[a].1.contains(d),
            );
            assert forall|d: ContractIdView| self.deps_of(k).contains(d) implies s2.contains(d) by {
                let a = choose|a: int| 0 <= a < self@.len() && (#[trigger] self@[a]).0 == k && self@[a].1.contains(d);
                assert(old_view[a] == self@[a]);
            }
            assert forall|d: ContractIdView| s2.contains(d) implies self.deps_of(k).contains(d) by {
                let a = choose|a: int| 0 <= a < old_view.len() && (#[trigger] old_view[a]).0 == k && old_view[a].1.contains(d);
                assert(old_view[a] == self@[a]);
            }
            assert(self.deps_of(k) =~= s2);
        }
        assert forall|k: ContractIdView| #[trigger] self.has_key(k) <==> exists|a: int| 0 <= a < old_view.len() && (#[trigger] old_view[a]).0 == k by {
            if self.has_key(k) {
                let a = choose|a: int| 0 <= a < self@.len() && (#[trigger] self@[a]).0 == k;
                assert(old_view[a].0 == k);
            }
            if exists|a: int| 0 <= a < old_view.len() && (#[trigger] old_view[a]).0 == k {
                let a = choose|a: int| 0 <= a < old_view.len() && (#[trigger] old_view[a]).0 == k;
                assert(self@[a].0 == k);
            }
        }
        assert(self.keys() =~= old_view.map_values(|e: (ContractIdView, Seq<ContractIdView>)| e.0));
    }

    /// After an entry for a new contract is added, the other contracts keep their
    /// dependencies.
    proof fn lemma_deps_after_push(&self, old_view: Seq<(ContractIdView, Seq<ContractIdView>)>)
        requires
            self@.len() == old_view.len() + 1,
            self@ == old_view.push(self@.last()),
            self@.last().1.no_duplicates(),
            forall|a: int| 0 <= a < old_view.len() ==> (#[trigger] old_view[a]).0 != self@.last().0,
            forall|a: int, b: int| 0 <= a < b < old_view.len() ==> (#[trigger] old_view[a]).0 != (#[trigger] old_view[b]).0,
            forall|a: int| 0 <= a < old_view.len() ==> (#[trigger] old_view[a]).1.no_duplicates(),
        ensures
            self.wf(),
            self.deps_of(self@.last().0) == self@.last().1.to_set(),
            forall|k: ContractIdView| k != self@.last().0 ==> (#[trigger] self.deps_of(k)) == Set::new(
                |d: ContractIdView| exists|a: int| 0 <= a < old_view.len() && (#[trigger] old_view[a]).0 == k && old_view[a].1.contains(d),
            ),
            forall|k: ContractIdView| #[trigger] self.has_key(k) <==> k == self@.last().0 || exists|a: int|
                0 <= a < old_view.len() && (#[trigger] old_view[a]).0 == k,
    {
        let n = old_view.len() as int;
        assert(self.wf()) by {
            assert forall|a: int, b: int| 0 <= a < b < self@.len() implies (#[trigger] self@[a]).0 != (#[trigger] self@[b]).0 by {
                assert(self@[a] == old_view[a]);
                if b < n {
                    assert(self@[b] == old_view[b]);
                }
            }
            assert forall|a: int| 0 <= a < self@.len() implies (#[trigger] self@[a]).1.no_duplicates() by {
                if a < n {
                    assert(self@[a] == old_view[a]);
                }
            }
        }
        self.lemma_deps_of_entry(n);
        assert forall|k: ContractIdView| k != self@.last().0 implies (#[trigger] self.deps_of(k)) == Set::new(
            |d: ContractIdView| exists|a: int| 0 <= a < old_view.len() && (#[trigger] old_view[a]).0 == k && old_view[a].1.contains(d),
        ) by {
            let s2 = Set::new(
                |d: ContractIdView| exists|a: int| 0 <= a < old_view.len() && (#[trigger] old_view[a]).0 == k && old_view[a].1.contains(d),
            );
            assert forall|d: ContractIdView| self.deps_of(k).contains(d) implies s2.contains(d) by {
                let a = choose|a: int| 0 <= a < self@.len() && (#[trigger] self@[a]).0 == k && self@[a].1.contains(d);
                assert(a < n);
                assert(old_view[a] == self@[a]);
            }
            assert forall|d: ContractIdView| s2.contains(d) implies self.deps_of(k).contains(d) by {
                let a = choose|a: int| 0 <= a < old_view.len() && (#[trigger] old_view[a]).0 == k && old_view[a].1.contains(d);
                assert(old_view[a] == self@[a]);
            }
            assert(self.deps_of(k) =~= s2);
        }
        assert forall|k: ContractIdView| #[trigger] self.has_key(k) <==> k == self@.last().0 || exists|a: int|
            0 <= a < old_view.len() && (#[trigger] old_view[a]).0 == k by {
            if self.has_key(k) && k != self@.last().0 {
                let a = choose|a: int| 0 <= a < self@.len() && (#[trigger] self@[a]).0 == k;
                assert(a < n);
                assert(old_view[a].0 == k);
            }
            if k == self@.last().0 {
                assert(self@[n].0 == k);
            }
            if exists|a: int| 0 <= a < old_view.len() && (#[trigger] old_view[a]).0 == k {
                let a = choose|a: int| 0 <= a < old_view.len() && (#[trigger] old_view[a]).0 == k;
                assert(self@[a].0 == k);
            }
        }
    }
}

} // verus!
