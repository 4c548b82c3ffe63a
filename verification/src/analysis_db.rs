use vstd::prelude::*;
use vstd::string::*;
use crate::analysis::{ContractAnalysis, FunctionType, named_entry};
use crate::ast_dependency_detector::TraitMethods;
use crate::representations::{ContractIdView, QualifiedContractIdentifier, TraitIdentifier};

verus! {

broadcast use vstd::std_specs::vec::group_vec_axioms;

/// The contract analyses written in one layer of the store, in the order written.
pub type Layer = Vec<(QualifiedContractIdentifier, ContractAnalysis)>;

/// The layers of a store: what each holds of each contract, the committed store first.
pub type StoreView = Seq<Map<ContractIdView, ContractAnalysis>>;

/// What a layer holds of each contract: the analysis written last.
pub open spec fn layer_map(l: Seq<(QualifiedContractIdentifier, ContractAnalysis)>) -> Map<ContractIdView, ContractAnalysis>
    decreases l.len(),
{
    if l.len() == 0 {
        Map::empty()
    } else {
        layer_map(l.drop_last()).insert(l.last().0@, l.last().1)
    }
}

/// The contracts of every layer of `v`.
pub open spec fn all_keys(v: StoreView) -> Set<ContractIdView>
    decreases v.len(),
{
    if v.len() == 0 {
        Set::empty()
    } else {
        all_keys(v.drop_last()).union(v.last().dom())
    }
}

/// What a read of `k` gives: the analysis in the innermost layer that holds `k`.
pub open spec fn lookup(v: StoreView, k: ContractIdView) -> Option<ContractAnalysis>
    decreases v.len(),
{
    if v.len() == 0 {
        None
    } else if v.last().contains_key(k) {
        Some(v.last()[k])
    } else {
        lookup(v.drop_last(), k)
    }
}

/// Opening a nested layer.
pub open spec fn begin_spec(v: StoreView) -> StoreView {
    v.push(Map::empty())
}

/// Writing `c` for `k` into the innermost layer.
pub open spec fn insert_spec(v: StoreView, k: ContractIdView, c: ContractAnalysis) -> StoreView {
    v.update(v.len() - 1, v.last().insert(k, c))
}

/// Writing each of `ws`, in order.
pub open spec fn inserts_spec(v: StoreView, ws: Seq<(ContractIdView, ContractAnalysis)>) -> StoreView
    decreases ws.len(),
{
    if ws.len() == 0 {
        v
    } else {
        insert_spec(inserts_spec(v, ws.drop_last()), ws.last().0, ws.last().1)
    }
}

/// Merging the innermost layer into the one below it.
pub open spec fn commit_spec(v: StoreView) -> StoreView {
    let below = v.drop_last();
    below.update(below.len() - 1, below.last().union_prefer_right(v.last()))
}

/// Dropping the innermost layer.
pub open spec fn rollback_spec(v: StoreView) -> StoreView {
    v.drop_last()
}

/// A read finds a contract exactly where some layer holds it.
pub proof fn lemma_lookup_keys(v: StoreView, k: ContractIdView)
    ensures
        lookup(v, k) is Some <==> all_keys(v).contains(k),
    decreases v.len(),
{
    if v.len() > 0 {
        lemma_lookup_keys(v.drop_last(), k);
    }
}

/// Writes in a nested layer leave the layers below it as they were.
pub proof fn lemma_inserts_keep_below(v: StoreView, ws: Seq<(ContractIdView, ContractAnalysis)>)
    requires
        v.len() > 0,
    ensures
        inserts_spec(v, ws).len() == v.len(),
        inserts_spec(v, ws).drop_last() == v.drop_last(),
    decreases ws.len(),
{
    if ws.len() > 0 {
        lemma_inserts_keep_below(v, ws.drop_last());
        let w = inserts_spec(v, ws.drop_last());
        assert(insert_spec(w, ws.last().0, ws.last().1).drop_last() =~= w.drop_last());
    }
}

/// Rolling back a nested layer undoes every write made in it: the store is as it was
/// before the layer was opened.
pub proof fn rollback_undoes_writes(v: StoreView, ws: Seq<(ContractIdView, ContractAnalysis)>)
    ensures
        rollback_spec(inserts_spec(begin_spec(v), ws)) == v,
{
    lemma_inserts_keep_below(begin_spec(v), ws);
    assert(begin_spec(v).drop_last() =~= v);
}

/// A read gives back what the last write of the same contract wrote, in whatever layer.
pub proof fn read_after_write(v: StoreView, k: ContractIdView, c: ContractAnalysis)
    requires
        v.len() > 0,
    ensures
        lookup(insert_spec(v, k, c), k) == Some(c),
{
}

/// A write of one contract leaves what a read of another gives.
pub proof fn write_keeps_other_reads(v: StoreView, k: ContractIdView, c: ContractAnalysis, other: ContractIdView)
    requires
        v.len() > 0,
        other != k,
    ensures
        lookup(insert_spec(v, k, c), other) == lookup(v, other),
{
    assert(insert_spec(v, k, c).drop_last() =~= v.drop_last());
}

/// Committing a nested layer keeps every write made in it, and changes no read: each
/// contract reads as it read before the commit.
pub proof fn commit_keeps_reads(v: StoreView, k: ContractIdView)
    requires
        v.len() > 1,
    ensures
        commit_spec(v).len() == v.len() - 1,
        lookup(commit_spec(v), k) == lookup(v, k),
{
    let below = v.drop_last();
    let c = commit_spec(v);
    assert(c.drop_last() =~= below.drop_last());
    assert(c.last() == below.last().union_prefer_right(v.last()));
    if v.last().contains_key(k) {
        assert(c.last().contains_key(k));
        assert(c.last()[k] == v.last()[k]);
    } else if below.last().contains_key(k) {
        assert(c.last().contains_key(k));
        assert(c.last()[k] == below.last()[k]);
        assert(lookup(v, k) == lookup(below, k));
    } else {
        assert(!c.last().contains_key(k));
        assert(lookup(v, k) == lookup(below, k));
    }
}

/// The layers that a store with committed store `store` and nested layers `stack` holds.
pub open spec fn layers_of(store: Seq<(QualifiedContractIdentifier, ContractAnalysis)>, stack: Seq<Layer>) -> StoreView {
    seq![layer_map(store)] + stack.map_values(|l: Layer| layer_map(l@))
}

/// A store of contract analyses with nested layers of writes: a layer can be opened,
/// then merged into the one below it or dropped.
pub struct RollbackWrapper {
    store: Layer,
    stack: Vec<Layer>,
}

impl RollbackWrapper {
    /// A store always has its committed layer.
    pub proof fn lemma_has_committed_layer(&self)
        ensures
            self@.len() >= 1,
    {
    }
}

impl View for RollbackWrapper {
    type V = StoreView;

    /// What each layer holds, the committed store first.
    closed spec fn view(&self) -> StoreView {
        layers_of(self.store@, self.stack@)
    }
}

/// Why a request to the analysis database failed.
#[derive(Debug)]
pub enum AnalysisDbError {
    /// The contract named is not in the database.
    NoSuchContract(String),
    /// The contract named is in the database already.
    ContractAlreadyExists(String),
    /// The contract has no map of that name.
    NoSuchMap(String),
}

/// The text `issuer.name` of a contract identifier.
pub fn contract_id_text(id: &QualifiedContractIdentifier) -> (r: String)
    ensures
        r@ == id.issuer.address@ + "."@ + id.name@,
{
    let mut s = String::from_str(id.issuer.address.as_str());
    s.append(".");
    s.append(id.name.as_str());
    s
}

/// What a layer holds of `k` is its last entry of `k`.
proof fn lemma_layer_map_last(l: Seq<(QualifiedContractIdentifier, ContractAnalysis)>, i: int, k: ContractIdView)
    requires
        0 <= i < l.len(),
        l[i].0@ == k,
        forall|j: int| i < j < l.len() ==> (#[trigger] l[j]).0@ != k,
    ensures
        layer_map(l).contains_key(k),
        layer_map(l)[k] == l[i].1,
    decreases l.len(),
{
    if i < l.len() - 1 {
        assert forall|j: int| i < j < l.drop_last().len() implies (#[trigger] l.drop_last()[j]).0@ != k by {
            assert(l.drop_last()[j] == l[j]);
        }
        lemma_layer_map_last(l.drop_last(), i, k);
    }
}

/// A layer without an entry of `k` holds nothing of it.
proof fn lemma_layer_map_absent(l: Seq<(QualifiedContractIdentifier, ContractAnalysis)>, k: ContractIdView)
    requires
        forall|j: int| 0 <= j < l.len() ==> (#[trigger] l[j]).0@ != k,
    ensures
        !layer_map(l).contains_key(k),
    decreases l.len(),
{
    if l.len() > 0 {
        assert forall|j: int| 0 <= j < l.drop_last().len() implies (#[trigger] l.drop_last()[j]).0@ != k by {
            assert(l.drop_last()[j] == l[j]);
        }
        lemma_layer_map_absent(l.drop_last(), k);
    }
}

/// Appending a layer to another writes its entries over the other's.
proof fn lemma_layer_map_append(a: Seq<(QualifiedContractIdentifier, ContractAnalysis)>, b: Seq<(QualifiedContractIdentifier, ContractAnalysis)>)
    ensures
        layer_map(a + b) == layer_map(a).union_prefer_right(layer_map(b)),
    decreases b.len(),
{
    if b.len() == 0 {
        assert(a + b =~= a);
        assert(layer_map(a).union_prefer_right(Map::empty()) =~= layer_map(a));
    } else {
        lemma_layer_map_append(a, b.drop_last());
        assert((a + b).drop_last() =~= a + b.drop_last());
        assert(layer_map(a + b) =~= layer_map(a).union_prefer_right(layer_map(b)));
    }
}

/// The position of the last entry of `id` in a layer.
fn find_in_layer(l: &Layer, id: &QualifiedContractIdentifier) -> (r: Option<usize>)
    ensures
        r matches Some(i) ==> i < l@.len() && l@[i as int].0@ == id@ && layer_map(l@).contains_key(id@)
            && layer_map(l@)[id@] == l@[i as int].1,
        r is None <==> !layer_map(l@).contains_key(id@),
{
    let mut i: usize = l.len();
    while i > 0
        invariant
            i <= l@.len(),
            forall|k: int| i <= k < l@.len() ==> (#[trigger] l@[k]).0@ != id@,
        decreases i,
    {
        i = i - 1;
        if l[i].0.same(id) {
            proof {
                lemma_layer_map_last(l@, i as int, id@);
            }
            return Some(i);
        }
    }
    proof {
        lemma_layer_map_absent(l@, id@);
    }
    None
}

/// Layers above `m` that do not hold `k` change no read of it.
proof fn lemma_lookup_skip(v: StoreView, m: int, k: ContractIdView)
    requires
        0 <= m < v.len(),
        forall|j: int| m < j < v.len() ==> !(#[trigger] v[j]).contains_key(k),
    ensures
        lookup(v, k) == lookup(v.take(m + 1), k),
    decreases v.len(),
{
    if m < v.len() - 1 {
        assert forall|j: int| m < j < v.drop_last().len() implies !(#[trigger] v.drop_last()[j]).contains_key(k) by {
            assert(v.drop_last()[j] == v[j]);
        }
        lemma_lookup_skip(v.drop_last(), m, k);
        assert(v.drop_last().take(m + 1) =~= v.take(m + 1));
    } else {
        assert(v.take(m + 1) =~= v);
    }
}

impl RollbackWrapper {
    /// An empty store.
    pub fn new() -> (r: RollbackWrapper)
        ensures
            r@ == seq![Map::<ContractIdView, ContractAnalysis>::empty()],
    {
        let r = RollbackWrapper { store: Vec::new(), stack: Vec::new() };
        proof {
            assert(r@ =~= seq![Map::<ContractIdView, ContractAnalysis>::empty()]);
        }
        r
    }

    /// Opens a nested layer.
    pub fn nest(&mut self)
        ensures
            final(self)@ == begin_spec(old(self)@),
    {
        let ghost before = self@;
        self.stack.push(Vec::new());
        proof {
            assert(layer_map(Seq::<(QualifiedContractIdentifier, ContractAnalysis)>::empty()) =~= Map::empty());
            assert(self@ =~= begin_spec(before));
        }
    }

    /// Merges the innermost layer into the one below it.
    pub fn commit(&mut self)
        requires
            old(self)@.len() > 1,
        ensures
            final(self)@ == commit_spec(old(self)@),
    {
        let ghost before = self@;
        let mut top = self.stack.pop().unwrap();
        if self.stack.len() > 0 {
            let last = self.stack.len() - 1;
            let mut below = Vec::new();
            std::mem::swap(&mut below, &mut self.stack[last]);
            let ghost b0 = below@;
            let ghost t0 = top@;
            below.append(&mut top);
            std::mem::swap(&mut below, &mut self.stack[last]);
            proof {
                lemma_layer_map_append(b0, t0);
                assert(self@ =~= commit_spec(before));
            }
        } else {
            let ghost b0 = self.store@;
            let ghost t0 = top@;
            self.store.append(&mut top);
            proof {
                lemma_layer_map_append(b0, t0);
                assert(self@ =~= commit_spec(before));
            }
        }
    }

    /// Drops the innermost layer.
    pub fn rollback(&mut self)
        requires
            old(self)@.len() > 1,
        ensures
            final(self)@ == rollback_spec(old(self)@),
    {
        let ghost before = self@;
        let _ = self.stack.pop();
        proof {
            assert(self@ =~= rollback_spec(before));
        }
    }

    /// Whether some layer holds `id`.
    pub fn has_entry(&self, id: &QualifiedContractIdentifier) -> (r: bool)
        ensures
            r == all_keys(self@).contains(id@),
    {
        proof {
            lemma_lookup_keys(self@, id@);
        }
        self.find(id).is_some()
    }

    /// The analysis of `id` written last.
    pub fn find(&self, id: &QualifiedContractIdentifier) -> (r: Option<&ContractAnalysis>)
        ensures
            r matches Some(c) ==> lookup(self@, id@) == Some(*c),
            r is None <==> lookup(self@, id@) is None,
    {
        let ghost v = self@;
        let mut d: usize = self.stack.len();
        while d > 0
            invariant
                d <= self.stack@.len(),
                v == self@,
                v.len() == self.stack@.len() + 1,
                forall|j: int| d < j < v.len() ==> !(#[trigger] v[j]).contains_key(id@),
            decreases d,
        {
            d = d - 1;
            proof {
                assert(v[d + 1] == layer_map(self.stack@[d as int]@));
            }
            if let Some(i) = find_in_layer(&self.stack[d], id) {
                proof {
                    lemma_lookup_skip(v, d + 1, id@);
                    assert(v.take(d + 2).last() == v[d + 1]);
                }
                return Some(&self.stack[d][i].1);
            }
        }
        proof {
            assert(v[0] == layer_map(self.store@));
            lemma_lookup_skip(v, 0, id@);
            assert(v.take(1).drop_last() =~= Seq::<Map<ContractIdView, ContractAnalysis>>::empty());
        }
        let found = find_in_layer(&self.store, id);
        proof {
            assert(v.take(1).last() == v[0]);
            assert(v.take(1).len() == 1);
        }
        match found {
            Some(i) => {
                proof {
                    assert(v.take(1).last().contains_key(id@));
                    assert(lookup(v.take(1), id@) == Some(self.store@[i as int].1));
                    assert(lookup(v, id@) == Some(self.store@[i as int].1));
                    assert(lookup(self@, id@) is Some);
                }
                Some(&self.store[i].1)
            },
            None => {
                proof {
                    assert(!v.take(1).last().contains_key(id@));
                    assert(lookup(v.take(1).drop_last(), id@) is None);
                    assert(lookup(v.take(1), id@) is None);
                }
                None
            },
        }
    }

    /// Writes the analysis of `id` into the innermost layer.
    pub fn insert(&mut self, id: QualifiedContractIdentifier, contract: ContractAnalysis)
        requires
            old(self)@.len() > 1,
        ensures
            final(self)@ == insert_spec(old(self)@, id@, contract),
    {
        let ghost before = self@;
        let ghost k = id@;
        let ghost c = contract;
        let last = self.stack.len() - 1;
        let mut layer = Vec::new();
        std::mem::swap(&mut layer, &mut self.stack[last]);
        let ghost l0 = layer@;
        layer.push((id, contract));
        proof {
            assert(layer@.drop_last() =~= l0);
            assert(layer_map(layer@) == layer_map(l0).insert(k, c));
        }
        std::mem::swap(&mut layer, &mut self.stack[last]);
        proof {
            assert(self@ =~= insert_spec(before, k, c));
        }
    }
}

/// The analyses of the contracts deployed in a session, with nested layers of writes.
pub struct AnalysisDatabase {
    store: RollbackWrapper,
}

impl AnalysisDatabase {
    /// The layers of the database, the committed store first.
    pub closed spec fn layers(&self) -> StoreView {
        self.store@
    }

    /// A database always has its committed layer.
    pub proof fn lemma_has_committed_layer(&self)
        ensures
            self.layers().len() >= 1,
    {
        self.store.lemma_has_committed_layer();
    }

    /// An empty database.
    pub fn new() -> (r: AnalysisDatabase)
        ensures
            r.layers() == seq![Map::<ContractIdView, ContractAnalysis>::empty()],
    {
        AnalysisDatabase { store: RollbackWrapper::new() }
    }

    /// A database over the layers of `store`.
    pub fn new_with_rollback_wrapper(store: RollbackWrapper) -> (r: AnalysisDatabase)
        ensures
            r.layers() == store@,
    {
        AnalysisDatabase { store }
    }

    /// Opens a nested layer of writes.
    pub fn begin(&mut self)
        ensures
            final(self).layers() == begin_spec(old(self).layers()),
            final(self).layers().len() > 1,
    {
        proof {
            self.lemma_has_committed_layer();
        }
        self.store.nest();
    }

    /// Keeps the writes of the innermost layer.
    pub fn commit(&mut self)
        requires
            old(self).layers().len() > 1,
        ensures
            final(self).layers() == commit_spec(old(self).layers()),
    {
        self.store.commit();
    }

    /// Drops the writes of the innermost layer.
    pub fn roll_back(&mut self)
        requires
            old(self).layers().len() > 1,
        ensures
            final(self).layers() == rollback_spec(old(self).layers()),
    {
        self.store.rollback();
    }


    /// Runs `f` inside a nested layer of writes: the layer is kept where `f` succeeds and
    /// dropped where it fails.
    pub fn execute<F, T, E>(&mut self, f: F) -> (r: Result<T, E>)
        where
            F: FnOnce(&mut AnalysisDatabase) -> Result<T, E>,
        requires
            forall|d: &mut AnalysisDatabase| d.layers().len() > 1 ==> #[trigger] f.requires((d,)),
            forall|d: &mut AnalysisDatabase, r: Result<T, E>| #[trigger] f.ensures((d,), r) ==> final(d).layers().len()
                == d.layers().len(),
        ensures
            exists|d: &mut AnalysisDatabase, res: Result<T, E>|
                #![trigger f.ensures((d,), res)]
                {
                    &&& f.ensures((d,), res)
                    &&& d.layers() == begin_spec(old(self).layers())
                    &&& res == r
                    &&& final(self).layers() == match r {
                        Ok(_) => commit_spec(final(d).layers()),
                        Err(_) => rollback_spec(final(d).layers()),
                    }
                },
    {
        self.begin();
        let result = f(self);
        match result {
            Ok(v) => {
                self.commit();
                Ok(v)
            },
            Err(e) => {
                self.roll_back();
                Err(e)
            },
        }
    }

    pub fn has_contract(&self, contract_identifier: &QualifiedContractIdentifier) -> (r: bool)
        ensures
            r == lookup(self.layers(), contract_identifier@) is Some,
    {
        proof {
            lemma_lookup_keys(self.layers(), contract_identifier@);
        }
        self.store.has_entry(contract_identifier)
    }

    /// The analysis stored for a contract, if any.
    pub fn load_contract(&self, contract_identifier: &QualifiedContractIdentifier) -> (r: Option<&ContractAnalysis>)
        ensures
            r matches Some(c) ==> lookup(self.layers(), contract_identifier@) == Some(*c),
            r is None <==> lookup(self.layers(), contract_identifier@) is None,
    {
        self.store.find(contract_identifier)
    }

    /// Stores the analysis of a contract that is not there yet.
    pub fn insert_contract(&mut self, contract_identifier: &QualifiedContractIdentifier, contract: ContractAnalysis) -> (r: Result<(), AnalysisDbError>)
        requires
            old(self).layers().len() > 1,
        ensures
            r is Err <==> lookup(old(self).layers(), contract_identifier@) is Some,
            r matches Err(e) ==> e matches AnalysisDbError::ContractAlreadyExists(s) && s@ == contract_identifier.issuer.address@ + "."@ + contract_identifier.name@,
            r is Ok ==> final(self).layers() == insert_spec(old(self).layers(), contract_identifier@, contract),
            r is Err ==> final(self).layers() == old(self).layers(),
    {
        proof {
            lemma_lookup_keys(self.layers(), contract_identifier@);
        }
        if self.store.has_entry(contract_identifier) {
            return Err(AnalysisDbError::ContractAlreadyExists(contract_id_text(contract_identifier)));
        }
        self.store.insert(contract_identifier.copy(), contract);
        Ok(())
    }

    fn load_or_error(&self, contract_identifier: &QualifiedContractIdentifier) -> (r: Result<&ContractAnalysis, AnalysisDbError>)
        ensures
            r matches Ok(c) ==> lookup(self.layers(), contract_identifier@) == Some(*c),
            r is Err <==> lookup(self.layers(), contract_identifier@) is None,
            r matches Err(e) ==> e matches AnalysisDbError::NoSuchContract(s) && s@ == contract_identifier.issuer.address@ + "."@ + contract_identifier.name@,
    {
        match self.store.find(contract_identifier) {
            Some(c) => Ok(c),
            None => Err(AnalysisDbError::NoSuchContract(contract_id_text(contract_identifier))),
        }
    }

    /// The type of a public function of a stored contract.
    pub fn get_public_function_type(&self, contract_identifier: &QualifiedContractIdentifier, function_name: &str) -> (r: Result<Option<&FunctionType>, AnalysisDbError>)
        ensures
            r is Err <==> lookup(self.layers(), contract_identifier@) is None,
            r matches Ok(f) ==> named_entry(lookup(self.layers(), contract_identifier@)->0.public_function_types@, function_name@)
                == match f {
                Some(t) => Some(*t),
                None => None,
            },
            r matches Err(e) ==> e matches AnalysisDbError::NoSuchContract(s) && s@ == contract_identifier.issuer.address@
                + "."@ + contract_identifier.name@,
    {
        match self.load_or_error(contract_identifier) {
            Ok(contract) => Ok(contract.get_public_function_type(function_name)),
            Err(e) => Err(e),
        }
    }

    /// The type of a read-only function of a stored contract.
    pub fn get_read_only_function_type(&self, contract_identifier: &QualifiedContractIdentifier, function_name: &str) -> (r: Result<Option<&FunctionType>, AnalysisDbError>)
        ensures
            r is Err <==> lookup(self.layers(), contract_identifier@) is None,
            r matches Ok(f) ==> named_entry(lookup(self.layers(), contract_identifier@)->0.read_only_function_types@, function_name@)
                == match f {
                Some(t) => Some(*t),
                None => None,
            },
            r matches Err(e) ==> e matches AnalysisDbError::NoSuchContract(s) && s@ == contract_identifier.issuer.address@
                + "."@ + contract_identifier.name@,
    {
        match self.load_or_error(contract_identifier) {
            Ok(contract) => Ok(contract.get_read_only_function_type(function_name)),
            Err(e) => Err(e),
        }
    }

    /// The methods of a trait that a stored contract defines.
    pub fn get_defined_trait(&self, contract_identifier: &QualifiedContractIdentifier, trait_name: &str) -> (r: Result<Option<&TraitMethods>, AnalysisDbError>)
        ensures
            r is Err <==> lookup(self.layers(), contract_identifier@) is None,
            r matches Ok(f) ==> named_entry(lookup(self.layers(), contract_identifier@)->0.defined_traits@, trait_name@)
                == match f {
                Some(t) => Some(*t),
                None => None,
            },
            r matches Err(e) ==> e matches AnalysisDbError::NoSuchContract(s) && s@ == contract_identifier.issuer.address@
                + "."@ + contract_identifier.name@,
    {
        match self.load_or_error(contract_identifier) {
            Ok(contract) => Ok(contract.get_defined_trait(trait_name)),
            Err(e) => Err(e),
        }
    }

    /// The traits that a stored contract implements.
    pub fn get_implemented_traits(&self, contract_identifier: &QualifiedContractIdentifier) -> (r: Result<&Vec<TraitIdentifier>, AnalysisDbError>)
        ensures
            r is Err <==> lookup(self.layers(), contract_identifier@) is None,
            r matches Ok(t) ==> lookup(self.layers(), contract_identifier@)->0.implemented_traits == *t,
            r matches Err(e) ==> e matches AnalysisDbError::NoSuchContract(s) && s@ == contract_identifier.issuer.address@
                + "."@ + contract_identifier.name@,
    {
        match self.load_or_error(contract_identifier) {
            Ok(contract) => Ok(&contract.implemented_traits),
            Err(e) => Err(e),
        }
    }

    /// The key and value types of a map of a stored contract.
    pub fn get_map_type(&self, contract_identifier: &QualifiedContractIdentifier, map_name: &str) -> (r: Result<&(String, String), AnalysisDbError>)
        ensures
            lookup(self.layers(), contract_identifier@) is None ==> (r matches Err(AnalysisDbError::NoSuchContract(s))
                && s@ == contract_identifier.issuer.address@ + "."@ + contract_identifier.name@),
            lookup(self.layers(), contract_identifier@) matches Some(c) ==> match named_entry(c.map_types@, map_name@) {
                Some(t) => r matches Ok(u) && *u == t,
                None => r matches Err(AnalysisDbError::NoSuchMap(m)) && m@ == map_name@,
            },
    {
        let contract = match self.load_or_error(contract_identifier) {
            Ok(contract) => contract,
            Err(e) => return Err(e),
        };
        match contract.get_map_type(map_name) {
            Some(t) => Ok(t),
            None => Err(AnalysisDbError::NoSuchMap(String::from_str(map_name))),
        }
    }

    /// The store, for another database to take over.
    pub fn destroy(self) -> (r: RollbackWrapper)
        ensures
            r@ == self.layers(),
    {
        self.store
    }
}

} // verus!
