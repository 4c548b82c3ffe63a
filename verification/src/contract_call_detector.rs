use vstd::prelude::*;
use crate::contract_dependencies::ids_view;
use crate::representations::{
    ContractIdView, QualifiedContractIdentifier, SymbolicExpression, name_is, str_equals,
};
use crate::text::{str_lt, string_lt, lemma_str_lt_irreflexive, lemma_str_lt_total, lemma_str_lt_transitive};

verus! {

broadcast use vstd::std_specs::vec::group_vec_axioms;

/// An element of a sequence of expressions decreases to the elements of its list.
pub proof fn lemma_elem_list(exprs: Seq<SymbolicExpression>, i: int)
    requires
        0 <= i < exprs.len(),
        exprs[i].is_list(),
    ensures
        decreases_to!(exprs => exprs[i].list()),
{
    let e = exprs[i];
    let v = e.expr->List_0;
    assert(decreases_to!(exprs => e));
    assert(decreases_to!(v => v@));
}

/// The contract that the element `i` of `exprs` names as a dependency when it is the
/// keyword of a `contract-call?` (the contract called), `use-trait` or `impl-trait` (the
/// contract of the trait), given the elements that follow it.
pub open spec fn named_contract(exprs: Seq<SymbolicExpression>, i: int) -> Option<ContractIdView> {
    let e = exprs[i];
    if e.is_atom() && e.atom()@ == "contract-call?"@ && i + 1 < exprs.len()
        && exprs[i + 1].contract_literal() is Some {
        Some(exprs[i + 1].contract_literal()->0@)
    } else if e.is_atom() && e.atom()@ == "use-trait"@ && i + 2 < exprs.len() && exprs[i + 2].is_field() {
        Some(exprs[i + 2].expr->Field_0.contract_identifier@)
    } else if e.is_atom() && e.atom()@ == "impl-trait"@ && i + 1 < exprs.len() && exprs[i + 1].is_field() {
        Some(exprs[i + 1].expr->Field_0.contract_identifier@)
    } else {
        None
    }
}

/// The contracts that the expressions `exprs[i..]`, and the lists nested in them, call,
/// use or implement.
pub open spec fn detected_calls(exprs: Seq<SymbolicExpression>, i: int) -> Set<ContractIdView>
    decreases exprs, exprs.len() - i,
{
    if i < 0 || i >= exprs.len() {
        Set::empty()
    } else {
        let rest = detected_calls(exprs, i + 1);
        if exprs[i].is_list() {
            proof {
                lemma_elem_list(exprs, i);
            }
            detected_calls(exprs[i].list(), 0).union(rest)
        } else {
            match named_contract(exprs, i) {
                Some(c) => rest.insert(c),
                None => rest,
            }
        }
    }
}

/// The order of contract identifiers: by the address of the deployer, then by name.
pub open spec fn id_lt(a: ContractIdView, b: ContractIdView) -> bool {
    str_lt(a.0, b.0) || (a.0 == b.0 && str_lt(a.1, b.1))
}

/// Whether the identifiers `s` strictly increase.
pub open spec fn ids_sorted(s: Seq<ContractIdView>) -> bool {
    forall|i: int, j: int| 0 <= i < j < s.len() ==> id_lt(#[trigger] s[i], #[trigger] s[j])
}

proof fn lemma_id_lt_facts(a: ContractIdView, b: ContractIdView, c: ContractIdView)
    ensures
        !id_lt(a, a),
        id_lt(a, b) || id_lt(b, a) || a == b,
        id_lt(a, b) && id_lt(b, c) ==> id_lt(a, c),
{
    lemma_str_lt_irreflexive(a.0);
    lemma_str_lt_irreflexive(a.1);
    lemma_str_lt_total(a.0, b.0);
    lemma_str_lt_total(a.1, b.1);
    if id_lt(a, b) && id_lt(b, c) {
        if str_lt(a.0, b.0) && str_lt(b.0, c.0) {
            lemma_str_lt_transitive(a.0, b.0, c.0);
        }
        if str_lt(a.1, b.1) && str_lt(b.1, c.1) {
            lemma_str_lt_transitive(a.1, b.1, c.1);
        }
    }
}

/// Strictly increasing identifiers are all different.
pub proof fn lemma_sorted_no_duplicates(s: Seq<ContractIdView>)
    requires
        ids_sorted(s),
    ensures
        s.no_duplicates(),
{
    assert forall|i: int, j: int| 0 <= i < s.len() && 0 <= j < s.len() && i != j implies s[i] != s[j] by {
        lemma_id_lt_facts(s[i], s[j], s[i]);
        if i < j {
            assert(id_lt(s[i], s[j]));
        } else {
            assert(id_lt(s[j], s[i]));
        }
    }
}

fn id_less(a: &QualifiedContractIdentifier, b: &QualifiedContractIdentifier) -> (r: bool)
    ensures
        r == id_lt(a@, b@),
{
    string_lt(a.issuer.address.as_str(), b.issuer.address.as_str()) || (str_equals(
        a.issuer.address.as_str(),
        b.issuer.address.as_str(),
    ) && string_lt(a.name.as_str(), b.name.as_str()))
}

/// Adds `c` to `deps`, at its place in the order of identifiers, unless it is there already.
fn insert_dependency(deps: &mut Vec<QualifiedContractIdentifier>, c: &QualifiedContractIdentifier)
    requires
        ids_sorted(ids_view(old(deps)@)),
    ensures
        ids_sorted(ids_view(final(deps)@)),
        ids_view(final(deps)@).to_set() == ids_view(old(deps)@).to_set().insert(c@),
{
    let ghost old_ids = ids_view(deps@);
    let mut p: usize = 0;
    while p < deps.len() && id_less(&deps[p], c)
        invariant
            p <= deps@.len(),
            deps@ == old(deps)@,
            forall|j: int| 0 <= j < p ==> id_lt((#[trigger] deps@[j])@, c@),
        decreases deps.len() - p,
    {
        p = p + 1;
    }
    if p < deps.len() && deps[p].same(c) {
        proof {
            assert(old_ids[p as int] == c@);
            assert(old_ids.to_set().insert(c@) =~= old_ids.to_set());
        }
        return;
    }
    proof {
        if p < old_ids.len() {
            lemma_id_lt_facts(old_ids[p as int], c@, c@);
            assert(old_ids[p as int] == deps@[p as int]@);
            assert(id_lt(c@, old_ids[p as int]));
        }
    }
    deps.insert(p, c.copy());
    proof {
        let ni = ids_view(deps@);
        assert(ni =~= old_ids.insert(p as int, c@));
        assert forall|a: int, b: int| 0 <= a < b < ni.len() implies id_lt(#[trigger] ni[a], #[trigger] ni[b]) by {
            if b < p {
                assert(ni[a] == old_ids[a] && ni[b] == old_ids[b]);
            } else if b == p {
                assert(ni[a] == old_ids[a]);
                assert(old_ids[a] == old(deps)@[a]@);
            } else if a < p {
                assert(ni[a] == old_ids[a] && ni[b] == old_ids[b - 1]);
                assert(old_ids[a] == old(deps)@[a]@);
                lemma_id_lt_facts(old_ids[a], c@, old_ids[b - 1]);
                if b - 1 > p {
                    lemma_id_lt_facts(c@, old_ids[p as int], old_ids[b - 1]);
                }
            } else if a == p {
                assert(ni[b] == old_ids[b - 1]);
                if b - 1 > p {
                    lemma_id_lt_facts(c@, old_ids[p as int], old_ids[b - 1]);
                }
            } else {
                assert(ni[a] == old_ids[a - 1] && ni[b] == old_ids[b - 1]);
            }
        }
        assert forall|x: ContractIdView| ni.to_set().contains(x) <==> old_ids.to_set().insert(c@).contains(x) by {
            if ni.to_set().contains(x) {
                let k = choose|k: int| 0 <= k < ni.len() && ni[k] == x;
                if k < p {
                    assert(old_ids[k] == x);
                } else if k > p {
                    assert(old_ids[k - 1] == x);
                }
            }
            if old_ids.to_set().contains(x) && x != c@ {
                let k = choose|k: int| 0 <= k < old_ids.len() && old_ids[k] == x;
                if k < p {
                    assert(ni[k] == x);
                } else {
                    assert(ni[k + 1] == x);
                }
            }
            if x == c@ {
                assert(ni[p as int] == x);
            }
        }
        assert(ni.to_set() =~= old_ids.to_set().insert(c@));
    }
}

/// Collects into `deps`, kept in the order of identifiers, the contracts that `exprs`, and
/// the lists nested in them, call (`contract-call?` of a literal contract), use (`use-trait`)
/// or implement (`impl-trait`).
pub fn traverse(exprs: &[SymbolicExpression], deps: &mut Vec<QualifiedContractIdentifier>)
    requires
        ids_sorted(ids_view(old(deps)@)),
    ensures
        ids_sorted(ids_view(final(deps)@)),
        ids_view(final(deps)@).to_set() == ids_view(old(deps)@).to_set().union(detected_calls(exprs@, 0)),
    decreases exprs@,
{
    let n = exprs.len();
    let mut i: usize = n;
    proof {
        assert(ids_view(deps@).to_set() =~= ids_view(old(deps)@).to_set().union(detected_calls(exprs@, n as int)));
    }
    // Collects from the last element to the first, following the definition.
    while i > 0
        invariant
            i <= n,
            n == exprs@.len(),
            ids_sorted(ids_view(deps@)),
            ids_view(deps@).to_set() == ids_view(old(deps)@).to_set().union(detected_calls(exprs@, i as int)),
        decreases i,
    {
        i = i - 1;
        let expression = &exprs[i];
        if let Some(list) = expression.match_list() {
            proof {
                lemma_elem_list(exprs@, i as int);
            }
            traverse(list.as_slice(), deps);
            proof {
                assert(ids_view(deps@).to_set() =~= ids_view(old(deps)@).to_set().union(detected_calls(exprs@, i as int)));
            }
        } else {
            if let Some(c) = named_contract_at(exprs, i) {
                insert_dependency(deps, c);
            }
            proof {
                assert(ids_view(deps@).to_set() =~= ids_view(old(deps)@).to_set().union(detected_calls(exprs@, i as int)));
            }
        }
    }
}

/// The contract that the element `i` of `exprs` names as a dependency (see
/// `named_contract`).
fn named_contract_at(exprs: &[SymbolicExpression], i: usize) -> (r: Option<&QualifiedContractIdentifier>)
    requires
        i < exprs@.len(),
    ensures
        r matches Some(c) ==> named_contract(exprs@, i as int) == Some(c@),
        r is None ==> named_contract(exprs@, i as int) is None,
{
    proof {
        reveal_strlit("contract-call?");
        reveal_strlit("use-trait");
        reveal_strlit("impl-trait");
        assert("contract-call?"@.len() == 14);
        assert("use-trait"@.len() == 9);
        assert("impl-trait"@.len() == 10);
        assert("contract-call?"@ != "use-trait"@);
        assert("contract-call?"@ != "impl-trait"@);
        assert("use-trait"@ != "impl-trait"@);
    }
    let n = exprs.len();
    let atom = match exprs[i].match_atom() {
        Some(atom) => atom,
        None => return None,
    };
    if name_is(atom, "contract-call?") && n - i > 1 {
        if let Some(contract_id) = exprs[i + 1].match_contract_literal() {
            return Some(contract_id);
        }
    }
    if name_is(atom, "use-trait") && n - i > 2 {
        if let Some(field) = exprs[i + 2].match_field() {
            return Some(&field.contract_identifier);
        }
    }
    if name_is(atom, "impl-trait") && n - i > 1 {
        if let Some(field) = exprs[i + 1].match_field() {
            return Some(&field.contract_identifier);
        }
    }
    None
}

} // verus!
