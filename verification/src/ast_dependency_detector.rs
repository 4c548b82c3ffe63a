use vstd::prelude::*;
use crate::ast_visitor::{ASTVisitor, TypedVar, traverse, wf_expr};
use crate::contract_dependencies::{ContractDependencies, ids_view};
use crate::dependency_graph::{Graph, GraphWalker, is_permutation, is_topological, occurs_before, ranked_by};
use crate::representations::{
    ClarityName, ContractAST, ContractIdView, QualifiedContractIdentifier, SymbolicExpression,
    SymbolicExpressionType, TraitDefinition, TraitIdView, TraitIdentifier, str_equals,
};

verus! {

broadcast use vstd::std_specs::vec::group_vec_axioms;

/// Whether the type expression `e` names a trait (`<name>`).
pub open spec fn is_trait_type(e: SymbolicExpression) -> bool {
    e.expr is TraitReference
}

/// Whether the type expression `e` names a trait (`<name>`).
pub fn is_trait_reference_type(e: &SymbolicExpression) -> (r: bool)
    ensures
        r == is_trait_type(*e),
{
    match &e.expr {
        SymbolicExpressionType::TraitReference(_, _) => true,
        _ => false,
    }
}

/// The trait that the type expression `e` names, if it names one.
pub open spec fn trait_of_type(e: SymbolicExpression) -> Option<TraitIdentifier> {
    match e.expr {
        SymbolicExpressionType::TraitReference(_, d) => Some(d.trait_id()),
        _ => None,
    }
}

/// The contracts passed as literals to the arguments of a call whose parameter `i`
/// names a trait when `types[i]` is set, for the first `k` parameters.
pub open spec fn trait_arg_contracts(types: Seq<bool>, args: Seq<SymbolicExpression>, k: int) -> Seq<ContractIdView>
    decreases k,
{
    if k <= 0 {
        Seq::empty()
    } else {
        let prev = trait_arg_contracts(types, args, k - 1);
        let i = k - 1;
        if types[i] && i < args.len() && args[i].contract_literal() is Some {
            prev.push(args[i].contract_literal()->0@)
        } else {
            prev
        }
    }
}

/// The contracts that a call passes where the callee expects a trait.
pub fn check_callee_type(arg_types: &Vec<bool>, args: &[SymbolicExpression]) -> (r: Vec<QualifiedContractIdentifier>)
    ensures
        ids_view(r@) == trait_arg_contracts(arg_types@, args@, arg_types@.len() as int),
{
    let mut dependencies: Vec<QualifiedContractIdentifier> = Vec::new();
    let mut i: usize = 0;
    while i < arg_types.len()
        invariant
            i <= arg_types@.len(),
            ids_view(dependencies@) == trait_arg_contracts(arg_types@, args@, i as int),
        decreases arg_types.len() - i,
    {
        if arg_types[i] && i < args.len() {
            if let Some(contract) = args[i].match_contract_literal() {
                let ghost before = dependencies@;
                dependencies.push(contract.copy());
                proof {
                    assert(ids_view(dependencies@) =~= ids_view(before).push(contract@));
                }
            }
        }
        i = i + 1;
    }
    dependencies
}

/// Whether each parameter of a signature names a trait.
pub fn param_trait_flags(parameters: &Vec<TypedVar>) -> (r: Vec<bool>)
    ensures
        r@.len() == parameters@.len(),
        forall|i: int| 0 <= i < r@.len() ==> r@[i] == is_trait_type(*(#[trigger] parameters@[i]).type_expr),
{
    let mut flags: Vec<bool> = Vec::new();
    let mut i: usize = 0;
    while i < parameters.len()
        invariant
            i <= parameters@.len(),
            flags@.len() == i,
            forall|j: int| 0 <= j < i ==> flags@[j] == is_trait_type(*(#[trigger] parameters@[j]).type_expr),
        decreases parameters.len() - i,
    {
        flags.push(is_trait_reference_type(parameters[i].type_expr));
        i = i + 1;
    }
    flags
}

/// The methods of a trait: each method's name, and for each of its parameters whether
/// it names a trait.
pub type TraitMethods = Vec<(ClarityName, Vec<bool>)>;

/// Whether `m` holds, in order, the name and the parameter kinds of each of the method
/// signatures `functions`.
pub open spec fn represents_trait(functions: Seq<SymbolicExpression>, m: TraitMethods) -> bool {
    m@.len() == functions.len() && forall|i: int|
        0 <= i < m@.len() ==> (#[trigger] m@[i]).0 == functions[i].list()[0].atom() && m@[i].1@.len()
            == functions[i].list()[1].list().len() && forall|j: int|
            0 <= j < m@[i].1@.len() ==> m@[i].1@[j] == is_trait_type(functions[i].list()[1].list()[j])
}

/// Reads the method signatures `(name (arg-type ...) return-type)` of a trait definition;
/// `None` when one is not of that shape.
pub fn parse_trait_type_repr(functions: &[SymbolicExpression]) -> (r: Option<TraitMethods>)
    ensures
        r is Some <==> forall|i: int| 0 <= i < functions@.len() ==> method_sig_ok(#[trigger] functions@[i]),
        r matches Some(m) ==> m@.len() == functions@.len() && forall|i: int|
            0 <= i < m@.len() ==> (#[trigger] m@[i]).0 == functions@[i].list()[0].atom() && m@[i].1@.len()
                == functions@[i].list()[1].list().len() && forall|j: int|
                0 <= j < m@[i].1@.len() ==> m@[i].1@[j] == is_trait_type(functions@[i].list()[1].list()[j]),
{
    let mut methods: TraitMethods = Vec::new();
    let mut i: usize = 0;
    while i < functions.len()
        invariant
            i <= functions@.len(),
            methods@.len() == i,
            forall|k: int| 0 <= k < i ==> method_sig_ok(#[trigger] functions@[k]),
            forall|k: int|
                0 <= k < i ==> (#[trigger] methods@[k]).0 == functions@[k].list()[0].atom() && methods@[k].1@.len()
                    == functions@[k].list()[1].list().len() && forall|j: int|
                    0 <= j < methods@[k].1@.len() ==> methods@[k].1@[j] == is_trait_type(functions@[k].list()[1].list()[j]),
        decreases functions.len() - i,
    {
        let sig = match functions[i].match_list() {
            Some(sig) => sig,
            None => return None,
        };
        if sig.len() != 3 {
            return None;
        }
        let name = match sig[0].match_atom() {
            Some(name) => name,
            None => return None,
        };
        let arg_types = match sig[1].match_list() {
            Some(arg_types) => arg_types,
            None => return None,
        };
        let mut flags: Vec<bool> = Vec::new();
        let mut j: usize = 0;
        while j < arg_types.len()
            invariant
                j <= arg_types@.len(),
                flags@.len() == j,
                forall|q: int| 0 <= q < j ==> flags@[q] == is_trait_type(#[trigger] arg_types@[q]),
            decreases arg_types.len() - j,
        {
            flags.push(is_trait_reference_type(&arg_types[j]));
            j = j + 1;
        }
        methods.push((name.clone(), flags));
        proof {
            assert(methods@[i as int].0@ == name@);
            assert(methods@[i as int].0 == *name) by {
                assert(methods@[i as int].0@ =~= name@);
            }
        }
        i = i + 1;
    }
    Some(methods)
}

/// Whether `e` is a method signature `(name (arg-type ...) return-type)`.
pub open spec fn method_sig_ok(e: SymbolicExpression) -> bool {
    &&& e.is_list()
    &&& e.list().len() == 3
    &&& e.list()[0].is_atom()
    &&& e.list()[1].is_list()
}

/// The parameter kinds of the first method of `methods` named `f`, if there is one.
pub open spec fn method_types(methods: Seq<(ClarityName, Vec<bool>)>, f: Seq<char>) -> Option<Seq<bool>> {
    if exists|i: int| 0 <= i < methods.len() && (#[trigger] methods[i]).0@ == f {
        let i = choose|i: int|
            0 <= i < methods.len() && (#[trigger] methods[i]).0@ == f && forall|k: int| 0 <= k < i ==> (#[trigger] methods[k]).0@ != f;
        Some(methods[i].1@)
    } else {
        None
    }
}

/// Finds, among the methods of a trait, the parameters of the method `function_name`.
pub fn find_trait_method<'b>(methods: &'b TraitMethods, function_name: &ClarityName) -> (r: Option<&'b Vec<bool>>)
    ensures
        r matches Some(t) ==> method_types(methods@, function_name@) == Some(t@),
        r is None ==> method_types(methods@, function_name@) is None,
        r matches Some(t) ==> exists|i: int| 0 <= i < methods@.len() && (#[trigger] methods@[i]).0@ == function_name@ && methods@[i].1 == *t,
        r is None ==> forall|i: int| 0 <= i < methods@.len() ==> (#[trigger] methods@[i]).0@ != function_name@,
{
    let mut i: usize = 0;
    while i < methods.len()
        invariant
            i <= methods@.len(),
            forall|k: int| 0 <= k < i ==> (#[trigger] methods@[k]).0@ != function_name@,
        decreases methods.len() - i,
    {
        if str_equals(methods[i].0.as_str(), function_name.as_str()) {
            proof {
                let c = choose|c: int|
                    0 <= c < methods@.len() && (#[trigger] methods@[c]).0@ == function_name@ && forall|k: int|
                        0 <= k < c ==> (#[trigger] methods@[k]).0@ != function_name@;
                assert(0 <= i < methods@.len() && methods@[i as int].0@ == function_name@ && forall|k: int|
                    0 <= k < i ==> (#[trigger] methods@[k]).0@ != function_name@);
                if c < i {
                    assert(methods@[c].0@ != function_name@);
                }
                if i < c {
                    assert(methods@[i as int].0@ != function_name@);
                }
            }
            return Some(&methods[i].1);
        }
        i = i + 1;
    }
    None
}

/// Finds the dependencies of contracts on other contracts: those they call, the traits
/// they use or implement, and the contracts they pass where a trait is expected.
/// The contracts that a call on `args` passes as traits, where the callee's parameter
/// kinds are `t` (none where the callee is not known).
pub open spec fn callee_contracts(t: Option<Seq<bool>>, args: Seq<SymbolicExpression>) -> Set<ContractIdView> {
    match t {
        Some(ts) => trait_arg_contracts(ts, args, ts.len() as int).to_set(),
        None => Set::empty(),
    }
}

/// The dependencies recorded in `d` for the contract `k`.
pub closed spec fn deps_in<'a>(d: ASTDependencyDetector<'a>, k: ContractIdView) -> Set<ContractIdView> {
    d.dependencies.deps_of(k)
}

/// The contract that `d` is traversing.
pub closed spec fn current_of<'a>(d: ASTDependencyDetector<'a>) -> ContractIdView {
    d.current_contract->0@
}

/// Whether `new` and `old` differ in their dependencies alone, and those only for the
/// contract being traversed.
pub closed spec fn only_current_deps<'a>(old: ASTDependencyDetector<'a>, new: ASTDependencyDetector<'a>) -> bool {
    &&& new.same_context(&old)
    &&& new.pending_function_checks == old.pending_function_checks
    &&& new.pending_trait_checks == old.pending_trait_checks
    &&& new.defined_functions == old.defined_functions
    &&& new.defined_traits == old.defined_traits
    &&& forall|k: ContractIdView| k != current_of(old) ==> #[trigger] deps_in(new, k) == deps_in(old, k)
}

/// Whether the parameter kinds of the function `name` of `contract`, as recorded in `d`,
/// are `t`: `None` where none is recorded.
pub closed spec fn defined_as<'a>(d: ASTDependencyDetector<'a>, contract: ContractIdView, name: Seq<char>, t: Option<Seq<bool>>) -> bool {
    match t {
        None => forall|i: int|
            0 <= i < d.defined_functions@.len() ==> !((#[trigger] d.defined_functions@[i]).0@ == contract
                && d.defined_functions@[i].1@ == name),
        Some(ts) => exists|i: int|
            0 <= i < d.defined_functions@.len() && (#[trigger] d.defined_functions@[i]).0@ == contract
                && d.defined_functions@[i].1@ == name && d.defined_functions@[i].2@ == ts,
    }
}

/// Whether the call of `callee_name` of `callee_contract` by `caller` on `args` is queued in
/// `new`: added to the first queue of that function in `old`, or in a queue of its own at
/// the end where there was none.
pub closed spec fn function_check_queued<'a>(
    old: ASTDependencyDetector<'a>,
    new: ASTDependencyDetector<'a>,
    callee_contract: ContractIdView,
    callee_name: Seq<char>,
    caller: &'a QualifiedContractIdentifier,
    args: &'a [SymbolicExpression],
) -> bool {
    let o = old.pending_function_checks@;
    let n = new.pending_function_checks@;
    ||| exists|k: int| {
        &&& 0 <= k < o.len()
        &&& (#[trigger] o[k]).0@ == callee_contract && o[k].1@ == callee_name
        &&& forall|j: int| 0 <= j < k ==> !((#[trigger] o[j]).0@ == callee_contract && o[j].1@ == callee_name)
        &&& n.len() == o.len()
        &&& forall|j: int| 0 <= j < o.len() && j != k ==> #[trigger] n[j] == o[j]
        &&& n[k].0@ == callee_contract && n[k].1@ == callee_name
        &&& n[k].2@ == o[k].2@.push((caller, args))
    }
    ||| {
        &&& forall|j: int| 0 <= j < o.len() ==> !((#[trigger] o[j]).0@ == callee_contract && o[j].1@ == callee_name)
        &&& n.len() == o.len() + 1
        &&& forall|j: int| 0 <= j < o.len() ==> #[trigger] n[j] == o[j]
        &&& n[o.len() as int].0@ == callee_contract && n[o.len() as int].1@ == callee_name
        &&& n[o.len() as int].2@ == seq![(caller, args)]
    }
}

/// Whether `new` and `old` differ only in the dependencies of the contract being traversed
/// and in the calls waiting for a function's parameter kinds.
pub closed spec fn only_current_deps_and_calls<'a>(old: ASTDependencyDetector<'a>, new: ASTDependencyDetector<'a>) -> bool {
    &&& new.same_context(&old)
    &&& new.pending_trait_checks == old.pending_trait_checks
    &&& new.defined_functions == old.defined_functions
    &&& new.defined_traits == old.defined_traits
    &&& forall|k: ContractIdView| k != current_of(old) ==> #[trigger] deps_in(new, k) == deps_in(old, k)
}

/// Whether the call of `callee_name` of `callee_contract` on `args`, made by the contract
/// being traversed, is queued in `new`.
pub closed spec fn call_queued_from_current<'a>(
    old: ASTDependencyDetector<'a>,
    new: ASTDependencyDetector<'a>,
    callee_contract: ContractIdView,
    callee_name: Seq<char>,
    args: &'a [SymbolicExpression],
) -> bool {
    function_check_queued(old, new, callee_contract, callee_name, old.current_contract->0, args)
}

/// Whether `new` and `old` wait for the same function calls.
pub closed spec fn same_pending_calls<'a>(old: ASTDependencyDetector<'a>, new: ASTDependencyDetector<'a>) -> bool {
    new.pending_function_checks == old.pending_function_checks
}

/// Whether the call of `function` through the trait `callee` by `caller` on `args` is
/// queued in `new`: added to the first queue of that trait in `old`, or in a queue of its
/// own at the end where there was none.
pub closed spec fn trait_check_queued<'a>(
    old: ASTDependencyDetector<'a>,
    new: ASTDependencyDetector<'a>,
    callee: TraitIdView,
    caller: &'a QualifiedContractIdentifier,
    function: &'a ClarityName,
    args: &'a [SymbolicExpression],
) -> bool {
    let o = old.pending_trait_checks@;
    let n = new.pending_trait_checks@;
    ||| exists|k: int| {
        &&& 0 <= k < o.len()
        &&& (#[trigger] o[k]).0@ == callee
        &&& forall|j: int| 0 <= j < k ==> (#[trigger] o[j]).0@ != callee
        &&& n.len() == o.len()
        &&& forall|j: int| 0 <= j < o.len() && j != k ==> #[trigger] n[j] == o[j]
        &&& n[k].0@ == callee
        &&& n[k].1@ == o[k].1@.push((caller, function, args))
    }
    ||| {
        &&& forall|j: int| 0 <= j < o.len() ==> (#[trigger] o[j]).0@ != callee
        &&& n.len() == o.len() + 1
        &&& forall|j: int| 0 <= j < o.len() ==> #[trigger] n[j] == o[j]
        &&& n[o.len() as int].0@ == callee
        &&& n[o.len() as int].1@ == seq![(caller, function, args)]
    }
}

/// Whether the trait of the parameter `name` of the function being traversed in `d` is
/// `tr`: `None` where no parameter has that name, or the first that has it names no trait.
pub closed spec fn param_trait_is<'a>(d: ASTDependencyDetector<'a>, name: Seq<char>, tr: Option<TraitIdentifier>) -> bool {
    match tr {
        Some(t) => d.params is Some && exists|i: int|
            0 <= i < d.params->0@.len() && (#[trigger] d.params->0@[i]).name@ == name
                && trait_of_type(*d.params->0@[i].type_expr) == Some(t),
        None => d.params is None || forall|i: int|
            0 <= i < d.params->0@.len() && (#[trigger] d.params->0@[i]).name@ == name
                ==> exists|k: int| 0 <= k < i && (#[trigger] d.params->0@[k]).name@ == name
                || trait_of_type(*d.params->0@[i].type_expr) is None,
    }
}

/// Whether what `d` records of the method `function` of the trait `t` is `m`: `None`
/// where the trait is not defined yet; `Some(None)` where it is, without that method;
/// `Some(Some(kinds))` where the method's parameter kinds are `kinds`.
pub closed spec fn trait_method_is<'a>(d: ASTDependencyDetector<'a>, t: TraitIdentifier, function: Seq<char>, m: Option<Option<Seq<bool>>>) -> bool {
    match m {
        None => forall|i: int|
            0 <= i < d.defined_traits@.len() ==> !((#[trigger] d.defined_traits@[i]).0@ == t.contract_identifier@
                && d.defined_traits@[i].1@ == t.name@),
        Some(x) => exists|i: int| {
            &&& 0 <= i < d.defined_traits@.len()
            &&& (#[trigger] d.defined_traits@[i]).0@ == t.contract_identifier@
            &&& d.defined_traits@[i].1@ == t.name@
            &&& match x {
                None => forall|j: int|
                    0 <= j < d.defined_traits@[i].2@.len() ==> (#[trigger] d.defined_traits@[i].2@[j]).0@ != function,
                Some(ts) => exists|j: int|
                    0 <= j < d.defined_traits@[i].2@.len() && (#[trigger] d.defined_traits@[i].2@[j]).0@ == function
                        && d.defined_traits@[i].2@[j].1@ == ts,
            }
        },
    }
}

/// Whether the call of `function` through the trait `t` on `args`, made by the contract
/// being traversed, is queued in `new`.
pub closed spec fn trait_call_queued_from_current<'a>(
    old: ASTDependencyDetector<'a>,
    new: ASTDependencyDetector<'a>,
    t: TraitIdView,
    function: &'a ClarityName,
    args: &'a [SymbolicExpression],
) -> bool {
    &&& trait_check_queued(old, new, t, old.current_contract->0, function, args)
    &&& new.same_context(&old)
    &&& new.dependencies == old.dependencies
    &&& new.defined_functions == old.defined_functions
    &&& new.defined_traits == old.defined_traits
    &&& new.pending_function_checks == old.pending_function_checks
}

/// Whether the entry `e` of a trait table is the trait `name` of `contract`.
pub open spec fn defined_trait_key<'a>(e: (&'a QualifiedContractIdentifier, &'a ClarityName, TraitMethods), contract: ContractIdView, name: Seq<char>) -> bool {
    e.0@ == contract && e.1@ == name
}

/// Whether the queue `e` waits for the trait `name` of `contract`.
pub open spec fn pending_trait_key<'a>(
    e: (&'a TraitIdentifier, Vec<(&'a QualifiedContractIdentifier, &'a ClarityName, &'a [SymbolicExpression])>),
    contract: ContractIdView,
    name: Seq<char>,
) -> bool {
    e.0.contract_identifier@ == contract && e.0.name@ == name
}

/// Whether `new` records the methods `methods` for the trait `name` of `contract`: in
/// place of the first entry of `old` for it, or in an entry at the end.
pub closed spec fn trait_defined<'a>(old: ASTDependencyDetector<'a>, new: ASTDependencyDetector<'a>, contract: ContractIdView, name: Seq<char>, methods: TraitMethods) -> bool {
    let o = old.defined_traits@;
    let n = new.defined_traits@;
    ||| exists|k: int| {
        &&& 0 <= k < o.len()
        &&& defined_trait_key(#[trigger] o[k], contract, name)
        &&& forall|j: int| 0 <= j < k ==> !defined_trait_key(#[trigger] o[j], contract, name)
        &&& n.len() == o.len()
        &&& forall|j: int| 0 <= j < o.len() && j != k ==> #[trigger] n[j] == o[j]
        &&& defined_trait_key(n[k], contract, name)
        &&& n[k].2 == methods
    }
    ||| {
        &&& forall|j: int| 0 <= j < o.len() ==> !defined_trait_key(#[trigger] o[j], contract, name)
        &&& n.len() == o.len() + 1
        &&& forall|j: int| 0 <= j < o.len() ==> #[trigger] n[j] == o[j]
        &&& defined_trait_key(n[o.len() as int], contract, name)
        &&& n[o.len() as int].2 == methods
    }
}

/// Whether the calls waiting for the trait `name` of `contract` are settled in `new`: the
/// first queue of `old` for it is gone, the others stay.
pub closed spec fn trait_calls_settled<'a>(old: ASTDependencyDetector<'a>, new: ASTDependencyDetector<'a>, contract: ContractIdView, name: Seq<char>) -> bool {
    ||| exists|f: int| {
        &&& 0 <= f < old.pending_trait_checks@.len()
        &&& pending_trait_key(#[trigger] old.pending_trait_checks@[f], contract, name)
        &&& forall|j: int| 0 <= j < f ==> !pending_trait_key(#[trigger] old.pending_trait_checks@[j], contract, name)
        &&& new.pending_trait_checks@ == old.pending_trait_checks@.remove(f)
    }
    ||| (forall|j: int| 0 <= j < old.pending_trait_checks@.len() ==> !pending_trait_key(
        #[trigger] old.pending_trait_checks@[j],
        contract,
        name,
    )) && new.pending_trait_checks == old.pending_trait_checks
}

/// Which of the parameters `ps` name a trait.
pub open spec fn trait_flags<'a>(ps: Seq<TypedVar<'a>>) -> Seq<bool> {
    ps.map_values(|p: TypedVar<'a>| is_trait_type(*p.type_expr))
}

/// Whether the entry `e` of a function table is the function `name` of `contract`.
pub open spec fn defined_fn_key<'a>(e: (&'a QualifiedContractIdentifier, &'a ClarityName, Vec<bool>), contract: ContractIdView, name: Seq<char>) -> bool {
    e.0@ == contract && e.1@ == name
}

/// Whether the queue `e` waits for the function `name` of `contract`.
pub open spec fn pending_fn_key<'a>(
    e: (&'a QualifiedContractIdentifier, &'a ClarityName, Vec<(&'a QualifiedContractIdentifier, &'a [SymbolicExpression])>),
    contract: ContractIdView,
    name: Seq<char>,
) -> bool {
    e.0@ == contract && e.1@ == name
}

/// Whether `i` is the first entry of the function table `s` for `name` of `contract`.
pub open spec fn first_defined_fn<'a>(s: Seq<(&'a QualifiedContractIdentifier, &'a ClarityName, Vec<bool>)>, contract: ContractIdView, name: Seq<char>, i: int) -> bool {
    &&& 0 <= i < s.len()
    &&& defined_fn_key(s[i], contract, name)
    &&& forall|j: int| 0 <= j < i ==> !defined_fn_key(#[trigger] s[j], contract, name)
}

/// Whether `i` is the first queue of `s` waiting for `name` of `contract`.
pub open spec fn first_pending_fn<'a>(
    s: Seq<(&'a QualifiedContractIdentifier, &'a ClarityName, Vec<(&'a QualifiedContractIdentifier, &'a [SymbolicExpression])>)>,
    contract: ContractIdView,
    name: Seq<char>,
    i: int,
) -> bool {
    &&& 0 <= i < s.len()
    &&& pending_fn_key(s[i], contract, name)
    &&& forall|j: int| 0 <= j < i ==> !pending_fn_key(#[trigger] s[j], contract, name)
}

/// Whether `new` records the parameter kinds `types` for the function `name` of
/// `contract`: in place of the first entry of `old` for it, or in an entry at the end.
pub closed spec fn function_defined<'a>(old: ASTDependencyDetector<'a>, new: ASTDependencyDetector<'a>, contract: ContractIdView, name: Seq<char>, types: Seq<bool>) -> bool {
    let o = old.defined_functions@;
    let n = new.defined_functions@;
    ||| exists|k: int| {
        &&& #[trigger] first_defined_fn(o, contract, name, k)
        &&& n.len() == o.len()
        &&& forall|j: int| 0 <= j < o.len() && j != k ==> #[trigger] n[j] == o[j]
        &&& defined_fn_key(n[k], contract, name)
        &&& n[k].2@ == types
    }
    ||| {
        &&& forall|j: int| 0 <= j < o.len() ==> !defined_fn_key(#[trigger] o[j], contract, name)
        &&& n.len() == o.len() + 1
        &&& forall|j: int| 0 <= j < o.len() ==> #[trigger] n[j] == o[j]
        &&& defined_fn_key(n[o.len() as int], contract, name)
        &&& n[o.len() as int].2@ == types
    }
}

/// The contracts that the first `n` of the waiting `calls` made by `c` pass as traits to a
/// function whose parameter kinds are `types`.
pub open spec fn settled_deps<'a>(
    calls: Seq<(&'a QualifiedContractIdentifier, &'a [SymbolicExpression])>,
    types: Seq<bool>,
    c: ContractIdView,
    n: int,
) -> Set<ContractIdView>
    decreases n,
{
    if n <= 0 || n > calls.len() {
        Set::empty()
    } else {
        settled_deps(calls, types, c, n - 1).union(
            if calls[n - 1].0@ == c {
                callee_contracts(Some(types), calls[n - 1].1@)
            } else {
                Set::empty()
            },
        )
    }
}

/// The first queue of a function is unique.
pub proof fn lemma_first_pending_unique<'a>(
    s: Seq<(&'a QualifiedContractIdentifier, &'a ClarityName, Vec<(&'a QualifiedContractIdentifier, &'a [SymbolicExpression])>)>,
    contract: ContractIdView,
    name: Seq<char>,
    i: int,
    j: int,
)
    requires
        first_pending_fn(s, contract, name, i),
        first_pending_fn(s, contract, name, j),
    ensures
        i == j,
{
    if i < j {
        assert(!pending_fn_key(s[i], contract, name));
    } else if j < i {
        assert(!pending_fn_key(s[j], contract, name));
    }
}

/// The contracts that the first `n` of the waiting `calls` made by `c` pass as traits to
/// the trait methods `methods` they call.
pub open spec fn settled_trait_deps<'a>(
    calls: Seq<(&'a QualifiedContractIdentifier, &'a ClarityName, &'a [SymbolicExpression])>,
    methods: Seq<(ClarityName, Vec<bool>)>,
    c: ContractIdView,
    n: int,
) -> Set<ContractIdView>
    decreases n,
{
    if n <= 0 || n > calls.len() {
        Set::empty()
    } else {
        settled_trait_deps(calls, methods, c, n - 1).union(
            if calls[n - 1].0@ == c {
                match method_types(methods, calls[n - 1].1@) {
                    Some(t) => callee_contracts(Some(t), calls[n - 1].2@),
                    None => Set::empty(),
                }
            } else {
                Set::empty()
            },
        )
    }
}

/// Whether `f` is the first queue of `s` waiting for the trait `name` of `contract`.
pub open spec fn first_pending_trait<'a>(
    s: Seq<(&'a TraitIdentifier, Vec<(&'a QualifiedContractIdentifier, &'a ClarityName, &'a [SymbolicExpression])>)>,
    contract: ContractIdView,
    name: Seq<char>,
    f: int,
) -> bool {
    &&& 0 <= f < s.len()
    &&& pending_trait_key(s[f], contract, name)
    &&& forall|j: int| 0 <= j < f ==> !pending_trait_key(#[trigger] s[j], contract, name)
}

/// The calls of `old` waiting for the trait `name` of `contract`: its first queue.
pub closed spec fn waiting_trait_calls<'a>(old: ASTDependencyDetector<'a>, contract: ContractIdView, name: Seq<char>) -> Seq<
    (&'a QualifiedContractIdentifier, &'a ClarityName, &'a [SymbolicExpression]),
> {
    if exists|f: int| #[trigger] first_pending_trait(old.pending_trait_checks@, contract, name, f) {
        old.pending_trait_checks@[choose|f: int| #[trigger] first_pending_trait(old.pending_trait_checks@, contract, name, f)].1@
    } else {
        Seq::empty()
    }
}

/// The calls of `old` waiting for the function `name` of `contract`: its first queue.
pub closed spec fn waiting_calls<'a>(old: ASTDependencyDetector<'a>, contract: ContractIdView, name: Seq<char>) -> Seq<
    (&'a QualifiedContractIdentifier, &'a [SymbolicExpression]),
> {
    if exists|f: int| #[trigger] first_pending_fn(old.pending_function_checks@, contract, name, f) {
        old.pending_function_checks@[choose|f: int| #[trigger] first_pending_fn(old.pending_function_checks@, contract, name, f)].2@
    } else {
        Seq::empty()
    }
}

/// Whether the calls waiting for the function `name` of `contract` are settled in `new`:
/// the first queue of `old` for it is gone, the others stay.
pub closed spec fn function_calls_settled<'a>(old: ASTDependencyDetector<'a>, new: ASTDependencyDetector<'a>, contract: ContractIdView, name: Seq<char>) -> bool {
    ||| exists|f: int| #[trigger] first_pending_fn(old.pending_function_checks@, contract, name, f)
        && new.pending_function_checks@ == old.pending_function_checks@.remove(f)
    ||| (forall|j: int| 0 <= j < old.pending_function_checks@.len() ==> !pending_fn_key(
        #[trigger] old.pending_function_checks@[j],
        contract,
        name,
    )) && new.pending_function_checks == old.pending_function_checks
}

pub struct ASTDependencyDetector<'a> {
    dependencies: ContractDependencies,
    current_contract: Option<&'a QualifiedContractIdentifier>,
    defined_functions: Vec<(&'a QualifiedContractIdentifier, &'a ClarityName, Vec<bool>)>,
    defined_traits: Vec<(&'a QualifiedContractIdentifier, &'a ClarityName, TraitMethods)>,
    pending_function_checks: Vec<
        (&'a QualifiedContractIdentifier, &'a ClarityName, Vec<(&'a QualifiedContractIdentifier, &'a [SymbolicExpression])>),
    >,
    pending_trait_checks: Vec<
        (&'a TraitIdentifier, Vec<(&'a QualifiedContractIdentifier, &'a ClarityName, &'a [SymbolicExpression])>),
    >,
    params: Option<Vec<TypedVar<'a>>>,
    known_contracts: Ghost<Set<ContractIdView>>,
}

impl<'a> ASTDependencyDetector<'a> {
    /// Every contract that the detector records a dependency for already has an entry:
    /// the current contract, and the callers waiting on a function or trait definition.
    pub closed spec fn callers_known(&self) -> bool {
        &&& self.current_contract matches Some(c) && self.dependencies.has_key(c@)
        &&& forall|i: int, j: int|
            0 <= i < self.pending_function_checks@.len() && 0 <= j < self.pending_function_checks@[i].2@.len()
                ==> self.dependencies.has_key((#[trigger] self.pending_function_checks@[i].2@[j]).0@)
        &&& forall|i: int, j: int|
            0 <= i < self.pending_trait_checks@.len() && 0 <= j < self.pending_trait_checks@[i].1@.len()
                ==> self.dependencies.has_key((#[trigger] self.pending_trait_checks@[i].1@[j]).0@)
    }

    pub closed spec fn keys_fixed(&self) -> bool {
        forall|k: ContractIdView| #[trigger] self.dependencies.has_key(k) <==> self.known_contracts@.contains(k)
    }

    pub closed spec fn state_ok(&self) -> bool {
        &&& self.dependencies.wf()
        &&& self.callers_known()
        &&& self.keys_fixed()
    }

    pub closed spec fn same_context(&self, other: &Self) -> bool {
        &&& self.current_contract == other.current_contract
        &&& self.params == other.params
        &&& self.known_contracts == other.known_contracts
    }

    /// Records that `from` depends on `to`.
    fn add_dependency(&mut self, from: &QualifiedContractIdentifier, to: &QualifiedContractIdentifier)
        requires
            old(self).state_ok(),
            old(self).dependencies.has_key(from@),
        ensures
            final(self).state_ok(),
            final(self).dependencies.deps_of(from@) == old(self).dependencies.deps_of(from@).insert(to@),
            forall|k: ContractIdView| k != from@ ==> #[trigger] final(self).dependencies.deps_of(k)
                == old(self).dependencies.deps_of(k),
            final(self).same_context(&*old(self)),
            final(self).pending_function_checks == old(self).pending_function_checks,
            final(self).pending_trait_checks == old(self).pending_trait_checks,
            final(self).defined_functions == old(self).defined_functions,
            final(self).defined_traits == old(self).defined_traits,
    {
        self.dependencies.add_dependency(from, to);
    }

    /// Records the dependencies of `from` on each contract of `deps`.
    fn add_dependencies(&mut self, from: &QualifiedContractIdentifier, deps: &Vec<QualifiedContractIdentifier>)
        requires
            old(self).state_ok(),
            old(self).dependencies.has_key(from@),
        ensures
            final(self).state_ok(),
            final(self).dependencies.deps_of(from@) == old(self).dependencies.deps_of(from@).union(ids_view(deps@).to_set()),
            forall|k: ContractIdView| k != from@ ==> #[trigger] final(self).dependencies.deps_of(k)
                == old(self).dependencies.deps_of(k),
            final(self).same_context(&*old(self)),
            final(self).pending_function_checks == old(self).pending_function_checks,
            final(self).pending_trait_checks == old(self).pending_trait_checks,
            final(self).defined_functions == old(self).defined_functions,
            final(self).defined_traits == old(self).defined_traits,
    {
        let mut i: usize = 0;
        while i < deps.len()
            invariant
                i <= deps@.len(),
                self.state_ok(),
                self.dependencies.has_key(from@),
                self.dependencies.deps_of(from@) == old(self).dependencies.deps_of(from@).union(
                    ids_view(deps@.subrange(0, i as int)).to_set(),
                ),
                forall|k: ContractIdView| k != from@ ==> #[trigger] self.dependencies.deps_of(k)
                    == old(self).dependencies.deps_of(k),
                self.same_context(&*old(self)),
                self.pending_function_checks == old(self).pending_function_checks,
                self.pending_trait_checks == old(self).pending_trait_checks,
                self.defined_functions == old(self).defined_functions,
                self.defined_traits == old(self).defined_traits,
            decreases deps.len() - i,
        {
            self.add_dependency(from, &deps[i]);
            proof {
                let a = ids_view(deps@.subrange(0, i as int));
                let b = ids_view(deps@.subrange(0, i + 1));
                assert(b =~= a.push(deps@[i as int]@));
                a.lemma_push_to_set_commute(deps@[i as int]@);
            }
            i = i + 1;
        }
        proof {
            assert(deps@.subrange(0, deps@.len() as int) =~= deps@);
        }
    }

    /// Records the parameter kinds of the function `name` of `contract_identifier`, and
    /// settles the calls that were waiting for them.
    fn add_defined_function(&mut self, contract_identifier: &'a QualifiedContractIdentifier, name: &'a ClarityName, param_types: Vec<bool>)
        requires
            old(self).state_ok(),
        ensures
            final(self).state_ok(),
            final(self).same_context(&*old(self)),
            final(self).defined_traits == old(self).defined_traits,
            final(self).pending_trait_checks == old(self).pending_trait_checks,
            function_defined(*old(self), *final(self), contract_identifier@, name@, param_types@),
            function_calls_settled(*old(self), *final(self), contract_identifier@, name@),
            forall|k: ContractIdView| #[trigger] deps_in(*old(self), k).subset_of(deps_in(*final(self), k)),
            forall|k: ContractIdView| #[trigger] deps_in(*final(self), k) == deps_in(*old(self), k).union(
                settled_deps(
                    waiting_calls(*old(self), contract_identifier@, name@),
                    param_types@,
                    k,
                    waiting_calls(*old(self), contract_identifier@, name@).len() as int,
                ),
            ),
    {
        let ghost cv = contract_identifier@;
        let ghost nv = name@;
        let ghost types = param_types@;
        let mut k: usize = 0;
        let mut found: Option<usize> = None;
        while k < self.pending_function_checks.len()
            invariant
                cv == contract_identifier@,
                nv == name@,
                k <= self.pending_function_checks@.len(),
                found matches Some(f) ==> f < k && first_pending_fn(old(self).pending_function_checks@, cv, nv, f as int),
                found is None ==> forall|j: int|
                    0 <= j < k ==> !pending_fn_key(#[trigger] old(self).pending_function_checks@[j], cv, nv),
                self.state_ok(),
                *self == *old(self),
            decreases self.pending_function_checks.len() - k,
        {
            let ghost e = old(self).pending_function_checks@[k as int];
            let same_contract = self.pending_function_checks[k].0.same(contract_identifier);
            let same_name = str_equals(self.pending_function_checks[k].1.as_str(), name.as_str());
            proof {
                assert(self.pending_function_checks@[k as int] == e);
                assert(same_contract == (e.0@ == cv));
                assert(same_name == (e.1@ == nv));
            }
            if found.is_none() && same_contract && same_name {
                found = Some(k);
            }
            k = k + 1;
        }
        if let Some(f) = found {
            let (_, _, pending) = self.pending_function_checks.remove(f);
            proof {
                assert forall|i: int, j: int|
                    0 <= i < self.pending_function_checks@.len() && 0 <= j < self.pending_function_checks@[i].2@.len()
                        implies self.dependencies.has_key((#[trigger] self.pending_function_checks@[i].2@[j]).0@) by {
                    if i < f {
                        assert(self.pending_function_checks@[i] == old(self).pending_function_checks@[i]);
                    } else {
                        assert(self.pending_function_checks@[i] == old(self).pending_function_checks@[i + 1]);
                    }
                }
            }
            let ghost removed = self.pending_function_checks@;
            let ghost types = param_types@;
            proof {
                let c = choose|c: int| #[trigger] first_pending_fn(old(self).pending_function_checks@, cv, nv, c);
                lemma_first_pending_unique(old(self).pending_function_checks@, cv, nv, f as int, c);
                assert(pending@ == waiting_calls(*old(self), cv, nv));
                assert forall|k: ContractIdView| #[trigger] deps_in(*self, k) == deps_in(*old(self), k).union(
                    settled_deps(pending@, types, k, 0),
                ) by {
                    assert(deps_in(*self, k) =~= deps_in(*old(self), k).union(settled_deps(pending@, types, k, 0)));
                }
            }
            let mut p: usize = 0;
            while p < pending.len()
                invariant
                    cv == contract_identifier@,
                    nv == name@,
                    types == param_types@,
                cv == contract_identifier@,
                nv == name@,
                    p <= pending@.len(),
                    self.state_ok(),
                    forall|j: int| 0 <= j < pending@.len() ==> self.dependencies.has_key((#[trigger] pending@[j]).0@),
                    self.same_context(&*old(self)),
                    self.pending_function_checks@ == removed,
                    removed == old(self).pending_function_checks@.remove(f as int),
                    self.defined_functions == old(self).defined_functions,
                    self.defined_traits == old(self).defined_traits,
                    self.pending_trait_checks == old(self).pending_trait_checks,
                    forall|k: ContractIdView| #[trigger] deps_in(*old(self), k).subset_of(deps_in(*self, k)),
                    types == param_types@,
                    forall|k: ContractIdView| #[trigger] deps_in(*self, k) == deps_in(*old(self), k).union(
                        settled_deps(pending@, types, k, p as int),
                    ),
                decreases pending.len() - p,
            {
                let (caller, args) = pending[p];
                let dependencies = check_callee_type(&param_types, args);
                let ghost prev = *self;
                self.add_dependencies(caller, &dependencies);
                proof {
                    assert(ids_view(dependencies@).to_set() =~= callee_contracts(Some(types), args@));
                    assert((caller, args) == pending@[p as int]);
                    assert forall|k: ContractIdView| #[trigger] deps_in(*self, k) == deps_in(*old(self), k).union(
                        settled_deps(pending@, types, k, p + 1),
                    ) by {
                        assert(deps_in(prev, k) == deps_in(*old(self), k).union(settled_deps(pending@, types, k, p as int)));
                        if k == caller@ {
                            assert(deps_in(*self, k) =~= deps_in(*old(self), k).union(settled_deps(pending@, types, k, p + 1)));
                        } else {
                            assert(deps_in(*self, k) =~= deps_in(*old(self), k).union(settled_deps(pending@, types, k, p + 1)));
                        }
                    }
                    assert forall|k: ContractIdView| #[trigger] deps_in(*old(self), k).subset_of(deps_in(*self, k)) by {
                        assert(deps_in(*old(self), k).subset_of(deps_in(prev, k)));
                        if k == caller@ {
                            assert(deps_in(prev, k).subset_of(deps_in(*self, k)));
                        } else {
                            assert(deps_in(prev, k) == deps_in(*self, k));
                        }
                    }
                }
                p = p + 1;
            }
        }
        let ghost settled = *self;
        proof {
            if found is None {
                assert(waiting_calls(*old(self), cv, nv) =~= Seq::empty());
                assert forall|k: ContractIdView| #[trigger] deps_in(settled, k) == deps_in(*old(self), k).union(
                    settled_deps(waiting_calls(*old(self), cv, nv), param_types@, k, waiting_calls(*old(self), cv, nv).len() as int),
                ) by {
                    assert(deps_in(settled, k) =~= deps_in(*old(self), k).union(
                        settled_deps(waiting_calls(*old(self), cv, nv), param_types@, k, waiting_calls(*old(self), cv, nv).len() as int)));
                }
            }
            assert(function_calls_settled(*old(self), settled, cv, nv));
            assert forall|k: ContractIdView| #[trigger] deps_in(*old(self), k).subset_of(deps_in(settled, k)) by {
                if found is None {
                    assert(deps_in(*old(self), k) == deps_in(settled, k));
                }
            }
        }
        let mut d: usize = 0;
        let mut replaced = false;
        let ghost mut at: int = 0;
        while d < self.defined_functions.len()
            invariant
                cv == contract_identifier@,
                nv == name@,
                d <= self.defined_functions@.len(),
                self.state_ok(),
                self.same_context(&*old(self)),
                self.dependencies == settled.dependencies,
                function_calls_settled(*old(self), settled, cv, nv),
                forall|k: ContractIdView| #[trigger] deps_in(*old(self), k).subset_of(deps_in(settled, k)),
                forall|k: ContractIdView| #[trigger] deps_in(settled, k) == deps_in(*old(self), k).union(settled_deps(waiting_calls(*old(self), cv, nv), types, k, waiting_calls(*old(self), cv, nv).len() as int)),
                self.pending_function_checks == settled.pending_function_checks,
                self.pending_trait_checks == old(self).pending_trait_checks,
                self.defined_traits == old(self).defined_traits,
                self.defined_functions@.len() == old(self).defined_functions@.len(),
                !replaced ==> self.defined_functions == old(self).defined_functions,
                !replaced ==> forall|j: int| 0 <= j < d ==> !defined_fn_key(#[trigger] old(self).defined_functions@[j], cv, nv),
                replaced ==> {
                    &&& 0 <= at < d
                    &&& first_defined_fn(old(self).defined_functions@, cv, nv, at)
                    &&& forall|j: int| 0 <= j < old(self).defined_functions@.len() && j != at
                        ==> #[trigger] self.defined_functions@[j] == old(self).defined_functions@[j]
                    &&& defined_fn_key(self.defined_functions@[at], cv, nv)
                },
            decreases self.defined_functions.len() - d,
        {
            if !replaced && self.defined_functions[d].0.same(contract_identifier) && str_equals(
                self.defined_functions[d].1.as_str(),
                name.as_str(),
            ) {
                let mut entry = (contract_identifier, name, Vec::new());
                std::mem::swap(&mut entry, &mut self.defined_functions[d]);
                replaced = true;
                proof {
                    at = d as int;
                }
            }
            d = d + 1;
        }
        if replaced {
            let mut d2: usize = 0;
            while d2 < self.defined_functions.len()
                invariant
                    cv == contract_identifier@,
                    nv == name@,
                    types == param_types@,
                cv == contract_identifier@,
                nv == name@,
                    d2 <= self.defined_functions@.len(),
                    self.state_ok(),
                    self.same_context(&*old(self)),
                    self.dependencies == settled.dependencies,
                    function_calls_settled(*old(self), settled, cv, nv),
                    forall|k: ContractIdView| #[trigger] deps_in(*old(self), k).subset_of(deps_in(settled, k)),
                    forall|k: ContractIdView| #[trigger] deps_in(settled, k) == deps_in(*old(self), k).union(settled_deps(waiting_calls(*old(self), cv, nv), types, k, waiting_calls(*old(self), cv, nv).len() as int)),
                    self.pending_function_checks == settled.pending_function_checks,
                    self.pending_trait_checks == old(self).pending_trait_checks,
                    self.defined_traits == old(self).defined_traits,
                    self.defined_functions@.len() == old(self).defined_functions@.len(),
                    0 <= at < old(self).defined_functions@.len(),
                    first_defined_fn(old(self).defined_functions@, cv, nv, at),
                    forall|j: int| 0 <= j < old(self).defined_functions@.len() && j != at
                        ==> #[trigger] self.defined_functions@[j] == old(self).defined_functions@[j],
                    defined_fn_key(self.defined_functions@[at], cv, nv),
                    d2 <= at,
                decreases self.defined_functions.len() - d2,
            {
                if self.defined_functions[d2].0.same(contract_identifier) && str_equals(
                    self.defined_functions[d2].1.as_str(),
                    name.as_str(),
                ) {
                    proof {
                        if (d2 as int) < at {
                            assert(self.defined_functions@[d2 as int] == old(self).defined_functions@[d2 as int]);
                        }
                    }
                    let mut entry = (contract_identifier, name, param_types);
                    std::mem::swap(&mut entry, &mut self.defined_functions[d2]);
                    proof {
                        assert(function_defined(*old(self), *self, cv, nv, types));
                        assert(self.pending_function_checks == settled.pending_function_checks);
                        assert(self.dependencies == settled.dependencies);
                        assert(function_calls_settled(*old(self), *self, cv, nv));
                        assert forall|k: ContractIdView| #[trigger] deps_in(*old(self), k).subset_of(deps_in(*self, k)) by {
                            assert(deps_in(settled, k) == deps_in(*self, k));
                        }
                        assert forall|k: ContractIdView| #[trigger] deps_in(*self, k) == deps_in(*old(self), k).union(
                            settled_deps(waiting_calls(*old(self), cv, nv), types, k, waiting_calls(*old(self), cv, nv).len() as int),
                        ) by {
                            assert(deps_in(settled, k) == deps_in(*self, k));
                        }
                    }
                    return;
                }
                proof {
                    if (d2 as int) == at {
                        assert(defined_fn_key(self.defined_functions@[at], cv, nv));
                    }
                }
                d2 = d2 + 1;
            }
        } else {
            self.defined_functions.push((contract_identifier, name, param_types));
            proof {
                assert(function_defined(*old(self), *self, cv, nv, types));
                assert(function_calls_settled(*old(self), *self, cv, nv));
                assert forall|k: ContractIdView| #[trigger] deps_in(*old(self), k).subset_of(deps_in(*self, k)) by {
                    assert(deps_in(settled, k) == deps_in(*self, k));
                }
                assert forall|k: ContractIdView| #[trigger] deps_in(*self, k) == deps_in(*old(self), k).union(
                    settled_deps(waiting_calls(*old(self), cv, nv), types, k, waiting_calls(*old(self), cv, nv).len() as int),
                ) by {
                    assert(deps_in(settled, k) == deps_in(*self, k));
                }
            }
        }
    }

    /// Queues a call of a function whose parameter kinds are not known yet.
    fn add_pending_function_check(
        &mut self,
        caller: &'a QualifiedContractIdentifier,
        callee_contract: &'a QualifiedContractIdentifier,
        callee_name: &'a ClarityName,
        args: &'a [SymbolicExpression],
    )
        requires
            old(self).state_ok(),
            old(self).dependencies.has_key(caller@),
        ensures
            final(self).state_ok(),
            final(self).same_context(&*old(self)),
            final(self).dependencies == old(self).dependencies,
            final(self).defined_functions == old(self).defined_functions,
            final(self).defined_traits == old(self).defined_traits,
            final(self).pending_trait_checks == old(self).pending_trait_checks,
            function_check_queued(*old(self), *final(self), callee_contract@, callee_name@, caller, args),
    {
        let mut k: usize = 0;
        while k < self.pending_function_checks.len()
            invariant
                k <= self.pending_function_checks@.len(),
                forall|j: int|
                    0 <= j < k ==> !((#[trigger] old(self).pending_function_checks@[j]).0@ == callee_contract@
                        && old(self).pending_function_checks@[j].1@ == callee_name@),
                self.defined_functions == old(self).defined_functions,
                self.defined_traits == old(self).defined_traits,
                self.dependencies == old(self).dependencies,
                old(self).state_ok(),
                old(self).dependencies.has_key(caller@),
                self.same_context(&*old(self)),
                self.pending_function_checks == old(self).pending_function_checks,
                self.pending_trait_checks == old(self).pending_trait_checks,
            decreases self.pending_function_checks.len() - k,
        {
            if self.pending_function_checks[k].0.same(callee_contract) && str_equals(
                self.pending_function_checks[k].1.as_str(),
                callee_name.as_str(),
            ) {
                let mut entry = (callee_contract, callee_name, Vec::new());
                std::mem::swap(&mut entry, &mut self.pending_function_checks[k]);
                let ghost before = entry.2@;
                assert(before == old(self).pending_function_checks@[k as int].2@);
                entry.2.push((caller, args));
                std::mem::swap(&mut entry, &mut self.pending_function_checks[k]);
                proof {
                    assert(self.pending_function_checks@[k as int].2@ == before.push((caller, args)));
                    assert(forall|j: int| 0 <= j < old(self).pending_function_checks@.len() && j != k
                        ==> #[trigger] self.pending_function_checks@[j] == old(self).pending_function_checks@[j]);
                    assert forall|i: int, j: int|
                        0 <= i < self.pending_function_checks@.len() && 0 <= j < self.pending_function_checks@[i].2@.len()
                            implies self.dependencies.has_key((#[trigger] self.pending_function_checks@[i].2@[j]).0@) by {
                        if i != k {
                            assert(self.pending_function_checks@[i] == old(self).pending_function_checks@[i]);
                        } else if j < before.len() {
                            assert(self.pending_function_checks@[i].2@[j] == old(self).pending_function_checks@[i].2@[j]);
                        } else {
                            assert(self.pending_function_checks@[i].2@[j] == (caller, args));
                        }
                    }
                }
                return;
            }
            k = k + 1;
        }
        let mut list = Vec::new();
        list.push((caller, args));
        proof {
            assert(list@ =~= seq![(caller, args)]);
        }
        self.pending_function_checks.push((callee_contract, callee_name, list));
        proof {
            assert forall|i: int, j: int|
                0 <= i < self.pending_function_checks@.len() && 0 <= j < self.pending_function_checks@[i].2@.len()
                    implies self.dependencies.has_key((#[trigger] self.pending_function_checks@[i].2@[j]).0@) by {
                if i < old(self).pending_function_checks@.len() {
                    assert(self.pending_function_checks@[i] == old(self).pending_function_checks@[i]);
                }
            }
        }
    }

    /// Records the methods of the trait `name` of `contract_identifier`, and settles the
    /// calls through that trait that were waiting for them.
    fn add_defined_trait(&mut self, contract_identifier: &'a QualifiedContractIdentifier, name: &'a ClarityName, trait_definition: TraitMethods)
        requires
            old(self).state_ok(),
        ensures
            final(self).state_ok(),
            final(self).same_context(&*old(self)),
            final(self).defined_functions == old(self).defined_functions,
            final(self).pending_function_checks == old(self).pending_function_checks,
            trait_defined(*old(self), *final(self), contract_identifier@, name@, trait_definition),
            trait_calls_settled(*old(self), *final(self), contract_identifier@, name@),
            forall|k: ContractIdView| #[trigger] deps_in(*old(self), k).subset_of(deps_in(*final(self), k)),
            forall|k: ContractIdView| #[trigger] deps_in(*final(self), k) == deps_in(*old(self), k).union(
                settled_trait_deps(
                    waiting_trait_calls(*old(self), contract_identifier@, name@),
                    trait_definition@,
                    k,
                    waiting_trait_calls(*old(self), contract_identifier@, name@).len() as int,
                ),
            ),
    {
        let ghost cv = contract_identifier@;
        let ghost nv = name@;
        let ghost methods = trait_definition;
        let mut k: usize = 0;
        let mut found: Option<usize> = None;
        while k < self.pending_trait_checks.len()
            invariant
                cv == contract_identifier@,
                nv == name@,
                k <= self.pending_trait_checks@.len(),
                found matches Some(f) ==> f < k && pending_trait_key(old(self).pending_trait_checks@[f as int], cv, nv)
                    && forall|j: int| 0 <= j < f ==> !pending_trait_key(#[trigger] old(self).pending_trait_checks@[j], cv, nv),
                found is None ==> forall|j: int|
                    0 <= j < k ==> !pending_trait_key(#[trigger] old(self).pending_trait_checks@[j], cv, nv),
                self.state_ok(),
                *self == *old(self),
            decreases self.pending_trait_checks.len() - k,
        {
            let ghost e = old(self).pending_trait_checks@[k as int];
            let same_contract = self.pending_trait_checks[k].0.contract_identifier.same(contract_identifier);
            let same_name = str_equals(self.pending_trait_checks[k].0.name.as_str(), name.as_str());
            proof {
                assert(self.pending_trait_checks@[k as int] == e);
            }
            if found.is_none() && same_contract && same_name {
                found = Some(k);
            }
            k = k + 1;
        }
        if let Some(f) = found {
            let (_, pending) = self.pending_trait_checks.remove(f);
            proof {
                assert forall|i: int, j: int|
                    0 <= i < self.pending_trait_checks@.len() && 0 <= j < self.pending_trait_checks@[i].1@.len()
                        implies self.dependencies.has_key((#[trigger] self.pending_trait_checks@[i].1@[j]).0@) by {
                    if i < f {
                        assert(self.pending_trait_checks@[i] == old(self).pending_trait_checks@[i]);
                    } else {
                        assert(self.pending_trait_checks@[i] == old(self).pending_trait_checks@[i + 1]);
                    }
                }
            }
            let ghost removed = self.pending_trait_checks@;
            proof {
                assert(first_pending_trait(old(self).pending_trait_checks@, cv, nv, f as int));
                let c = choose|c: int| #[trigger] first_pending_trait(old(self).pending_trait_checks@, cv, nv, c);
                if c < f {
                    assert(!pending_trait_key(old(self).pending_trait_checks@[c], cv, nv));
                }
                if f < c {
                    assert(!pending_trait_key(old(self).pending_trait_checks@[f as int], cv, nv));
                }
                assert(pending@ == waiting_trait_calls(*old(self), cv, nv));
                assert forall|k: ContractIdView| #[trigger] deps_in(*self, k) == deps_in(*old(self), k).union(
                    settled_trait_deps(pending@, methods@, k, 0),
                ) by {
                    assert(deps_in(*self, k) =~= deps_in(*old(self), k).union(settled_trait_deps(pending@, methods@, k, 0)));
                }
            }
            let mut p: usize = 0;
            while p < pending.len()
                invariant
                    p <= pending@.len(),
                    self.state_ok(),
                    forall|j: int| 0 <= j < pending@.len() ==> self.dependencies.has_key((#[trigger] pending@[j]).0@),
                    self.same_context(&*old(self)),
                    self.pending_trait_checks@ == removed,
                    removed == old(self).pending_trait_checks@.remove(f as int),
                    self.defined_functions == old(self).defined_functions,
                    self.defined_traits == old(self).defined_traits,
                    self.pending_function_checks == old(self).pending_function_checks,
                    forall|k: ContractIdView| #[trigger] deps_in(*old(self), k).subset_of(deps_in(*self, k)),
                    methods == trait_definition,
                    forall|k: ContractIdView| #[trigger] deps_in(*self, k) == deps_in(*old(self), k).union(
                        settled_trait_deps(pending@, methods@, k, p as int),
                    ),
                decreases pending.len() - p,
            {
                let (caller, function, args) = pending[p];
                let ghost prev0 = *self;
                proof {
                    assert((caller, function, args) == pending@[p as int]);
                }
                if let Some(types) = find_trait_method(&trait_definition, function) {
                    let dependencies = check_callee_type(types, args);
                    let ghost prev = *self;
                    self.add_dependencies(caller, &dependencies);
                    proof {
                        assert(ids_view(dependencies@).to_set() =~= callee_contracts(Some(types@), args@));
                        assert forall|k: ContractIdView| #[trigger] deps_in(*self, k) == deps_in(*old(self), k).union(
                            settled_trait_deps(pending@, methods@, k, p + 1),
                        ) by {
                            assert(deps_in(prev, k) == deps_in(*old(self), k).union(settled_trait_deps(pending@, methods@, k, p as int)));
                            assert(deps_in(*self, k) =~= deps_in(*old(self), k).union(settled_trait_deps(pending@, methods@, k, p + 1)));
                        }
                        assert forall|k: ContractIdView| #[trigger] deps_in(*old(self), k).subset_of(deps_in(*self, k)) by {
                            assert(deps_in(*old(self), k).subset_of(deps_in(prev, k)));
                            if k == caller@ {
                                assert(deps_in(prev, k).subset_of(deps_in(*self, k)));
                            } else {
                                assert(deps_in(prev, k) == deps_in(*self, k));
                            }
                        }
                    }
                }
                proof {
                    assert forall|k: ContractIdView| #[trigger] deps_in(*self, k) == deps_in(*old(self), k).union(
                        settled_trait_deps(pending@, methods@, k, p + 1),
                    ) by {
                        assert(deps_in(prev0, k) == deps_in(*old(self), k).union(settled_trait_deps(pending@, methods@, k, p as int)));
                        assert(deps_in(*self, k) =~= deps_in(*old(self), k).union(settled_trait_deps(pending@, methods@, k, p + 1)));
                    }
                }
                p = p + 1;
            }
        }
        let ghost settled = *self;
        proof {
            if found is None {
                assert(waiting_trait_calls(*old(self), cv, nv) =~= Seq::empty());
                assert forall|k: ContractIdView| #[trigger] deps_in(settled, k) == deps_in(*old(self), k).union(
                    settled_trait_deps(waiting_trait_calls(*old(self), cv, nv), methods@, k, waiting_trait_calls(*old(self), cv, nv).len() as int),
                ) by {
                    assert(deps_in(settled, k) =~= deps_in(*old(self), k).union(
                        settled_trait_deps(waiting_trait_calls(*old(self), cv, nv), methods@, k, waiting_trait_calls(*old(self), cv, nv).len() as int)));
                }
            }
        }
        proof {
            assert(trait_calls_settled(*old(self), settled, cv, nv));
            assert forall|k: ContractIdView| #[trigger] deps_in(*old(self), k).subset_of(deps_in(settled, k)) by {
                if found is None {
                    assert(deps_in(*old(self), k) == deps_in(settled, k));
                }
            }
        }
        let mut d: usize = 0;
        while d < self.defined_traits.len()
            invariant
                cv == contract_identifier@,
                nv == name@,
                methods == trait_definition,
                d <= self.defined_traits@.len(),
                self.state_ok(),
                self.same_context(&*old(self)),
                *self == settled,
                settled.defined_traits == old(self).defined_traits,
                settled.defined_functions == old(self).defined_functions,
                settled.pending_function_checks == old(self).pending_function_checks,
                trait_calls_settled(*old(self), settled, cv, nv),
                forall|k: ContractIdView| #[trigger] deps_in(*old(self), k).subset_of(deps_in(settled, k)),
                forall|k: ContractIdView| #[trigger] deps_in(settled, k) == deps_in(*old(self), k).union(
                    settled_trait_deps(waiting_trait_calls(*old(self), cv, nv), methods@, k, waiting_trait_calls(*old(self), cv, nv).len() as int),
                ),
                forall|j: int| 0 <= j < d ==> !defined_trait_key(#[trigger] old(self).defined_traits@[j], cv, nv),
            decreases self.defined_traits.len() - d,
        {
            let ghost e = old(self).defined_traits@[d as int];
            let same_contract = self.defined_traits[d].0.same(contract_identifier);
            let same_name = str_equals(self.defined_traits[d].1.as_str(), name.as_str());
            proof {
                assert(self.defined_traits@[d as int] == e);
            }
            if same_contract && same_name {
                let mut entry = (contract_identifier, name, trait_definition);
                std::mem::swap(&mut entry, &mut self.defined_traits[d]);
                proof {
                    assert(trait_defined(*old(self), *self, cv, nv, methods));
                    assert(trait_calls_settled(*old(self), *self, cv, nv));
                    assert forall|k: ContractIdView| #[trigger] deps_in(*old(self), k).subset_of(deps_in(*self, k)) by {
                        assert(deps_in(settled, k) == deps_in(*self, k));
                    }
                    assert forall|k: ContractIdView| #[trigger] deps_in(*self, k) == deps_in(*old(self), k).union(
                        settled_trait_deps(waiting_trait_calls(*old(self), cv, nv), methods@, k, waiting_trait_calls(*old(self), cv, nv).len() as int),
                    ) by {
                        assert(deps_in(settled, k) == deps_in(*self, k));
                    }
                }
                return;
            }
            d = d + 1;
        }
        self.defined_traits.push((contract_identifier, name, trait_definition));
        proof {
            assert(trait_defined(*old(self), *self, cv, nv, methods));
            assert(trait_calls_settled(*old(self), *self, cv, nv));
            assert forall|k: ContractIdView| #[trigger] deps_in(*old(self), k).subset_of(deps_in(*self, k)) by {
                assert(deps_in(settled, k) == deps_in(*self, k));
            }
            assert forall|k: ContractIdView| #[trigger] deps_in(*self, k) == deps_in(*old(self), k).union(
                settled_trait_deps(waiting_trait_calls(*old(self), cv, nv), methods@, k, waiting_trait_calls(*old(self), cv, nv).len() as int),
            ) by {
                assert(deps_in(settled, k) == deps_in(*self, k));
            }
        }
    }

    /// Queues a call through a trait whose methods are not known yet.
    fn add_pending_trait_check(
        &mut self,
        caller: &'a QualifiedContractIdentifier,
        callee: &'a TraitIdentifier,
        function: &'a ClarityName,
        args: &'a [SymbolicExpression],
    )
        requires
            old(self).state_ok(),
            old(self).dependencies.has_key(caller@),
        ensures
            final(self).state_ok(),
            final(self).same_context(&*old(self)),
            final(self).dependencies == old(self).dependencies,
            final(self).defined_functions == old(self).defined_functions,
            final(self).defined_traits == old(self).defined_traits,
            final(self).pending_function_checks == old(self).pending_function_checks,
            trait_check_queued(*old(self), *final(self), callee@, caller, function, args),
    {
        let mut k: usize = 0;
        while k < self.pending_trait_checks.len()
            invariant
                k <= self.pending_trait_checks@.len(),
                forall|j: int| 0 <= j < k ==> (#[trigger] old(self).pending_trait_checks@[j]).0@ != callee@,
                self.defined_functions == old(self).defined_functions,
                self.defined_traits == old(self).defined_traits,
                self.dependencies == old(self).dependencies,
                old(self).state_ok(),
                old(self).dependencies.has_key(caller@),
                self.same_context(&*old(self)),
                self.pending_function_checks == old(self).pending_function_checks,
                self.pending_trait_checks == old(self).pending_trait_checks,
            decreases self.pending_trait_checks.len() - k,
        {
            if self.pending_trait_checks[k].0.same(callee) {
                let mut entry = (callee, Vec::new());
                std::mem::swap(&mut entry, &mut self.pending_trait_checks[k]);
                let ghost before = entry.1@;
                assert(before == old(self).pending_trait_checks@[k as int].1@);
                entry.1.push((caller, function, args));
                std::mem::swap(&mut entry, &mut self.pending_trait_checks[k]);
                proof {
                    assert(self.pending_trait_checks@[k as int].1@ == before.push((caller, function, args)));
                    assert(forall|j: int| 0 <= j < old(self).pending_trait_checks@.len() && j != k
                        ==> #[trigger] self.pending_trait_checks@[j] == old(self).pending_trait_checks@[j]);
                    assert forall|i: int, j: int|
                        0 <= i < self.pending_trait_checks@.len() && 0 <= j < self.pending_trait_checks@[i].1@.len()
                            implies self.dependencies.has_key((#[trigger] self.pending_trait_checks@[i].1@[j]).0@) by {
                        if i != k {
                            assert(self.pending_trait_checks@[i] == old(self).pending_trait_checks@[i]);
                        } else if j < before.len() {
                            assert(self.pending_trait_checks@[i].1@[j] == old(self).pending_trait_checks@[i].1@[j]);
                        } else {
                            assert(self.pending_trait_checks@[i].1@[j] == (caller, function, args));
                        }
                    }
                }
                return;
            }
            k = k + 1;
        }
        let mut list = Vec::new();
        list.push((caller, function, args));
        proof {
            assert(list@ =~= seq![(caller, function, args)]);
        }
        self.pending_trait_checks.push((callee, list));
        proof {
            assert forall|i: int, j: int|
                0 <= i < self.pending_trait_checks@.len() && 0 <= j < self.pending_trait_checks@[i].1@.len()
                    implies self.dependencies.has_key((#[trigger] self.pending_trait_checks@[i].1@[j]).0@) by {
                if i < old(self).pending_trait_checks@.len() {
                    assert(self.pending_trait_checks@[i] == old(self).pending_trait_checks@[i]);
                }
            }
        }
    }

    /// The trait that the parameter `name` of the function being traversed is declared
    /// with, if it is one: a trait can only come from a parameter.
    fn get_param_trait(&self, name: &ClarityName) -> (r: Option<&'a TraitIdentifier>)
        ensures
            r is Some ==> self.params is Some,
            r matches Some(t) ==> exists|i: int|
                0 <= i < self.params->0@.len() && (#[trigger] self.params->0@[i]).name@ == name@
                    && trait_of_type(*self.params->0@[i].type_expr) == Some(*t),
            r is None ==> self.params is None || forall|i: int|
                0 <= i < self.params->0@.len() && (#[trigger] self.params->0@[i]).name@ == name@
                    ==> exists|k: int| 0 <= k < i && (#[trigger] self.params->0@[k]).name@ == name@
                    || trait_of_type(*self.params->0@[i].type_expr) is None,
    {
        let params = match &self.params {
            None => return None,
            Some(params) => params,
        };
        let mut i: usize = 0;
        while i < params.len()
            invariant
                i <= params@.len(),
                self.params == Some(*params),
                forall|k: int| 0 <= k < i ==> (#[trigger] params@[k]).name@ != name@,
            decreases params.len() - i,
        {
            let param = &params[i];
            if str_equals(param.name.as_str(), name.as_str()) {
                let r = match &param.type_expr.expr {
                    SymbolicExpressionType::TraitReference(_, TraitDefinition::Defined(identifier)) => Some(identifier),
                    SymbolicExpressionType::TraitReference(_, TraitDefinition::Imported(identifier)) => Some(identifier),
                    _ => None,
                };
                proof {
                    assert(self.params->0@[i as int] == *param);
                    assert(self.params->0@[i as int].name@ == name@);
                    if r is None {
                        assert forall|j: int|
                            0 <= j < self.params->0@.len() && (#[trigger] self.params->0@[j]).name@ == name@
                                implies exists|k: int| 0 <= k < j && (#[trigger] self.params->0@[k]).name@ == name@
                                || trait_of_type(*self.params->0@[j].type_expr) is None by {
                            if j > i {
                                assert(self.params->0@[i as int].name@ == name@);
                            } else {
                                assert(j == i);
                            }
                        }
                    }
                }
                return r;
            }
            i = i + 1;
        }
        None
    }

    /// Finds the recorded parameter kinds of the function `name` of `contract`.
    fn find_defined_function(&self, contract: &QualifiedContractIdentifier, name: &ClarityName) -> (r: Option<&Vec<bool>>)
        ensures
            r matches Some(t) ==> exists|i: int|
                0 <= i < self.defined_functions@.len() && (#[trigger] self.defined_functions@[i]).0@ == contract@
                    && self.defined_functions@[i].1@ == name@ && self.defined_functions@[i].2 == *t,
            r is None ==> forall|i: int|
                0 <= i < self.defined_functions@.len() ==> !((#[trigger] self.defined_functions@[i]).0@ == contract@
                    && self.defined_functions@[i].1@ == name@),
    {
        let mut i: usize = 0;
        while i < self.defined_functions.len()
            invariant
                i <= self.defined_functions@.len(),
                forall|k: int|
                    0 <= k < i ==> !((#[trigger] self.defined_functions@[k]).0@ == contract@
                        && self.defined_functions@[k].1@ == name@),
            decreases self.defined_functions.len() - i,
        {
            if self.defined_functions[i].0.same(contract) && str_equals(
                self.defined_functions[i].1.as_str(),
                name.as_str(),
            ) {
                return Some(&self.defined_functions[i].2);
            }
            i = i + 1;
        }
        None
    }

    /// Finds the recorded methods of the trait `name` of `contract`.
    fn find_defined_trait(&self, contract: &QualifiedContractIdentifier, name: &ClarityName) -> (r: Option<&TraitMethods>)
        ensures
            r matches Some(t) ==> exists|i: int|
                0 <= i < self.defined_traits@.len() && (#[trigger] self.defined_traits@[i]).0@ == contract@
                    && self.defined_traits@[i].1@ == name@ && self.defined_traits@[i].2 == *t,
            r is None ==> forall|i: int|
                0 <= i < self.defined_traits@.len() ==> !((#[trigger] self.defined_traits@[i]).0@ == contract@
                    && self.defined_traits@[i].1@ == name@),
    {
        let mut i: usize = 0;
        while i < self.defined_traits.len()
            invariant
                i <= self.defined_traits@.len(),
                forall|k: int|
                    0 <= k < i ==> !((#[trigger] self.defined_traits@[k]).0@ == contract@
                        && self.defined_traits@[k].1@ == name@),
            decreases self.defined_traits.len() - i,
        {
            if self.defined_traits[i].0.same(contract) && str_equals(self.defined_traits[i].1.as_str(), name.as_str()) {
                return Some(&self.defined_traits[i].2);
            }
            i = i + 1;
        }
        None
    }

    /// The contract being traversed.
    fn current(&self) -> (r: &'a QualifiedContractIdentifier)
        requires
            self.state_ok(),
        ensures
            self.current_contract == Some(r),
            self.dependencies.has_key(r@),
    {
        self.current_contract.unwrap()
    }

    /// Records a function definition of the current contract with its parameter kinds.
    fn define_function(&mut self, name: &'a ClarityName, parameters: Option<Vec<TypedVar<'a>>>)
        requires
            old(self).state_ok(),
        ensures
            final(self).state_ok(),
            final(self).same_context(&*old(self)),
            parameters is None ==> *final(self) == *old(self),
            parameters matches Some(ps) ==> {
                &&& function_defined(*old(self), *final(self), current_of(*old(self)), name@, trait_flags(ps@))
                &&& function_calls_settled(*old(self), *final(self), current_of(*old(self)), name@)
                &&& forall|k: ContractIdView| #[trigger] deps_in(*old(self), k).subset_of(deps_in(*final(self), k))
                &&& forall|k: ContractIdView| #[trigger] deps_in(*final(self), k) == deps_in(*old(self), k).union(
                    settled_deps(
                        waiting_calls(*old(self), current_of(*old(self)), name@),
                        trait_flags(ps@),
                        k,
                        waiting_calls(*old(self), current_of(*old(self)), name@).len() as int,
                    ),
                )
                &&& final(self).defined_traits == old(self).defined_traits
                &&& final(self).pending_trait_checks == old(self).pending_trait_checks
            },
    {
        if let Some(parameters) = parameters {
            let param_types = param_trait_flags(&parameters);
            proof {
                assert(param_types@ =~= trait_flags(parameters@));
            }
            let current = self.current();
            self.add_defined_function(current, name, param_types);
        }
    }

    /// The dependencies of each contract of `contract_asts` on other contracts. Every
    /// contract of the input has an entry, and no other contract has one.
    pub fn detect_dependencies(contract_asts: &'a Vec<(QualifiedContractIdentifier, ContractAST)>) -> (r: ContractDependencies)
        requires
            forall|i: int, j: int|
                0 <= i < contract_asts@.len() && 0 <= j < contract_asts@[i].1.expressions@.len() ==> wf_expr(
                    #[trigger] contract_asts@[i].1.expressions@[j],
                ),
        ensures
            r.wf(),
            forall|k: ContractIdView| #[trigger] r.has_key(k) <==> exists|i: int|
                0 <= i < contract_asts@.len() && (#[trigger] contract_asts@[i]).0@ == k,
    {
        let mut detector = ASTDependencyDetector {
            dependencies: ContractDependencies::new(),
            current_contract: None,
            defined_functions: Vec::new(),
            defined_traits: Vec::new(),
            pending_function_checks: Vec::new(),
            pending_trait_checks: Vec::new(),
            params: None,
            known_contracts: Ghost(Set::empty()),
        };
        let mut i: usize = 0;
        proof {
            assert(detector.known_contracts@ =~= Set::new(
                |k: ContractIdView| exists|j: int| 0 <= j < 0 && (#[trigger] contract_asts@[j]).0@ == k,
            ));
        }
        while i < contract_asts.len()
            invariant
                i <= contract_asts@.len(),
                detector.dependencies.wf(),
                detector.keys_fixed(),
                i > 0 ==> detector.state_ok(),
                i == 0 ==> detector.pending_function_checks@.len() == 0 && detector.pending_trait_checks@.len() == 0,
                detector.known_contracts@ == Set::new(
                    |k: ContractIdView| exists|j: int| 0 <= j < i && (#[trigger] contract_asts@[j]).0@ == k,
                ),
                forall|a: int, b: int|
                    0 <= a < contract_asts@.len() && 0 <= b < contract_asts@[a].1.expressions@.len() ==> wf_expr(
                        #[trigger] contract_asts@[a].1.expressions@[b],
                    ),
            decreases contract_asts.len() - i,
        {
            let (contract_identifier, ast) = &contract_asts[i];
            detector.dependencies.reset_contract(contract_identifier);
            detector.known_contracts = Ghost(detector.known_contracts@.insert(contract_identifier@));
            detector.current_contract = Some(contract_identifier);
            proof {
                assert(detector.known_contracts@ =~= Set::new(
                    |k: ContractIdView| exists|j: int| 0 <= j < i + 1 && (#[trigger] contract_asts@[j]).0@ == k,
                )) by {
                    assert forall|k: ContractIdView| detector.known_contracts@.contains(k) implies exists|j: int|
                        0 <= j < i + 1 && (#[trigger] contract_asts@[j]).0@ == k by {
                        if k == contract_identifier@ {
                            assert(contract_asts@[i as int].0@ == k);
                        }
                    }
                }
                assert forall|j: int| 0 <= j < ast.expressions@.len() implies wf_expr(#[trigger] ast.expressions@[j]) by {
                    assert(ast.expressions@[j] == contract_asts@[i as int].1.expressions@[j]);
                }
            }
            proof {
                assert(detector.keys_fixed());
                assert(detector.callers_known()) by {
                    if i > 0 {
                        assert forall|a: int, b: int|
                            0 <= a < detector.pending_function_checks@.len() && 0 <= b < detector.pending_function_checks@[a].2@.len()
                                implies detector.dependencies.has_key((#[trigger] detector.pending_function_checks@[a].2@[b]).0@) by {
                            assert(detector.known_contracts@.contains(detector.pending_function_checks@[a].2@[b].0@));
                        }
                        assert forall|a: int, b: int|
                            0 <= a < detector.pending_trait_checks@.len() && 0 <= b < detector.pending_trait_checks@[a].1@.len()
                                implies detector.dependencies.has_key((#[trigger] detector.pending_trait_checks@[a].1@[b]).0@) by {
                            assert(detector.known_contracts@.contains(detector.pending_trait_checks@[a].1@[b].0@));
                        }
                    }
                }
            }
            traverse(&mut detector, ast.expressions.as_slice());
            i = i + 1;
        }
        proof {
            assert forall|k: ContractIdView| #[trigger] detector.dependencies.has_key(k) <==> exists|j: int|
                0 <= j < contract_asts@.len() && (#[trigger] contract_asts@[j]).0@ == k by {
                assert(detector.known_contracts@.contains(k) <==> exists|j: int|
                    0 <= j < i && (#[trigger] contract_asts@[j]).0@ == k);
            }
        }
        detector.dependencies
    }
}

/// Why contracts cannot be put in an order where each comes after its dependencies.
#[derive(Debug)]
pub enum OrderError {
    /// The first contract depends on the second, which is not among the contracts.
    MissingDependency(QualifiedContractIdentifier, QualifiedContractIdentifier),
    /// The names of the contracts that take part in a cycle of dependencies.
    CyclingDependencies(Vec<String>),
}

/// Whether every dependency of every contract of `deps` is itself one of its contracts.
pub open spec fn dependencies_closed(deps: ContractDependencies) -> bool {
    forall|c: ContractIdView, d: ContractIdView| deps.has_key(c) && #[trigger] deps.deps_of(c).contains(d) ==> deps.has_key(d)
}

/// Whether the dependencies of `deps` have no cycle: the contracts can be ranked so that
/// each depends only on contracts of a lower rank.
pub open spec fn dependencies_acyclic(deps: ContractDependencies) -> bool {
    exists|rank: spec_fn(ContractIdView) -> int| #[trigger] ranks_dependencies(deps, rank)
}

/// Whether every contract of `deps` has a higher rank than each of its dependencies.
pub open spec fn ranks_dependencies(deps: ContractDependencies, rank: spec_fn(ContractIdView) -> int) -> bool {
    forall|c: ContractIdView, d: ContractIdView|
        deps.has_key(c) && #[trigger] deps.deps_of(c).contains(d) ==> rank(d) < rank(c)
}

/// Whether `order` lists each contract of `deps` once, each after all of its dependencies.
pub open spec fn is_dependency_order(deps: ContractDependencies, order: Seq<ContractIdView>) -> bool {
    &&& order.len() == deps@.len()
    &&& forall|p: int| 0 <= p < order.len() ==> deps.has_key(#[trigger] order[p])
    &&& forall|p: int, q: int| 0 <= p < q < order.len() ==> order[p] != order[q]
    &&& forall|p: int, d: ContractIdView|
        0 <= p < order.len() && #[trigger] deps.deps_of(order[p]).contains(d) ==> exists|q: int|
            0 <= q < p && #[trigger] order[q] == d
}

impl<'a> ASTDependencyDetector<'a> {
    /// Orders the contracts so that each comes after the contracts it depends on.
    pub fn order_contracts(dependencies: &ContractDependencies) -> (r: Result<Vec<&QualifiedContractIdentifier>, OrderError>)
        requires
            dependencies.wf(),
        ensures
            r matches Ok(order) ==> is_dependency_order(
                *dependencies,
                order@.map_values(|c: &QualifiedContractIdentifier| c@),
            ),
            r matches Err(OrderError::MissingDependency(c, d)) ==> dependencies.has_key(c@)
                && dependencies.deps_of(c@).contains(d@) && !dependencies.has_key(d@),
            dependencies_closed(*dependencies) ==> !(r matches Err(OrderError::MissingDependency(_, _))),
            r matches Err(OrderError::CyclingDependencies(names)) ==> names@.len() > 0,
            dependencies_acyclic(*dependencies) ==> !(r matches Err(OrderError::CyclingDependencies(_))),
            dependencies_closed(*dependencies) && dependencies_acyclic(*dependencies) ==> r is Ok,
            dependencies@.len() == 0 ==> r is Ok,
    {
        let n = dependencies.len();
        if n == 0 {
            let order: Vec<&QualifiedContractIdentifier> = Vec::new();
            proof {
                assert(order@.map_values(|c: &QualifiedContractIdentifier| c@) =~= Seq::empty());
            }
            return Ok(order);
        }
        let ghost view = dependencies@;
        let mut graph = Graph::new();
        let mut i: usize = 0;
        while i < n
            invariant
                i <= n,
                n == dependencies@.len(),
                graph.adjacency_list@.len() == i,
                forall|u: int| 0 <= u < i ==> (#[trigger] graph.adjacency_list@[u])@.len() == 0,
            decreases n - i,
        {
            let ghost before = graph.adjacency_list@;
            graph.add_node(i);
            proof {
                assert forall|u: int| 0 <= u < i + 1 implies (#[trigger] graph.adjacency_list@[u])@.len() == 0 by {
                    if u < i {
                        assert(graph.adjacency_list@[u] == graph.adjacency_list@.subrange(0, before.len() as int)[u]);
                    }
                }
            }
            i = i + 1;
        }
        let mut src: usize = 0;
        while src < n
            invariant
                src <= n,
                n == dependencies@.len(),
                view == dependencies@,
                dependencies.wf(),
                graph.adjacency_list@.len() == n,
                forall|u: int, k: int|
                    0 <= u < n && 0 <= k < graph.adjacency_list@[u]@.len() ==> (#[trigger] graph.adjacency_list@[u]@[k]) < n,
                forall|u: int| src <= u < n ==> (#[trigger] graph.adjacency_list@[u])@.len() == 0,
                forall|u: int|
                    0 <= u < src ==> (#[trigger] graph.adjacency_list@[u])@.len() == view[u].1.len() && forall|k: int|
                        0 <= k < view[u].1.len() ==> view[graph.adjacency_list@[u]@[k] as int].0 == view[u].1[k],
            decreases n - src,
        {
            let deps = dependencies.deps_at(src);
            let mut k: usize = 0;
            while k < deps.len()
                invariant
                    src < n,
                    n == dependencies@.len(),
                    view == dependencies@,
                    dependencies.wf(),
                    ids_view(deps@) == view[src as int].1,
                    k <= deps@.len(),
                    graph.adjacency_list@.len() == n,
                    forall|u: int, q: int|
                        0 <= u < n && 0 <= q < graph.adjacency_list@[u]@.len() ==> (#[trigger] graph.adjacency_list@[u]@[q]) < n,
                    forall|u: int| src < u < n ==> (#[trigger] graph.adjacency_list@[u])@.len() == 0,
                    forall|u: int|
                        0 <= u < src ==> (#[trigger] graph.adjacency_list@[u])@.len() == view[u].1.len() && forall|q: int|
                            0 <= q < view[u].1.len() ==> view[graph.adjacency_list@[u]@[q] as int].0 == view[u].1[q],
                    graph.adjacency_list@[src as int]@.len() == k,
                    forall|q: int| 0 <= q < k ==> view[(#[trigger] graph.adjacency_list@[src as int]@[q]) as int].0 == view[src as int].1[q],
                decreases deps.len() - k,
            {
                let dep = &deps[k];
                let dst = match dependencies.index_of(dep) {
                    Some(dst) => dst,
                    None => {
                        let contract = dependencies.key_at(src);
                        proof {
                            dependencies.lemma_deps_of_entry(src as int);
                            assert(ids_view(deps@)[k as int] == dep@);
                            assert(view[src as int].1.contains(dep@));
                            assert(dependencies.has_key(view[src as int].0));
                            assert(dependencies.deps_of(contract@).contains(dep@));
                        }
                        return Err(OrderError::MissingDependency(contract.copy(), dep.copy()));
                    },
                };
                let ghost before = graph.adjacency_list@;
                graph.add_directed_edge(src, dst);
                proof {
                    assert(ids_view(deps@)[k as int] == dep@);
                    assert forall|u: int, q: int|
                        0 <= u < n && 0 <= q < graph.adjacency_list@[u]@.len() implies (#[trigger] graph.adjacency_list@[u]@[q]) < n by {
                        if u != src {
                            assert(graph.adjacency_list@[u]@ == before[u]@);
                        } else if q < k {
                            assert(graph.adjacency_list@[u]@[q] == before[u]@[q]);
                        }
                    }
                    assert forall|u: int| src < u < n implies (#[trigger] graph.adjacency_list@[u])@.len() == 0 by {
                        assert(graph.adjacency_list@[u]@ == before[u]@);
                    }
                    assert forall|u: int|
                        0 <= u < src implies (#[trigger] graph.adjacency_list@[u])@.len() == view[u].1.len() && forall|q: int|
                            0 <= q < view[u].1.len() ==> view[graph.adjacency_list@[u]@[q] as int].0 == view[u].1[q] by {
                        assert(graph.adjacency_list@[u]@ == before[u]@);
                    }
                    assert forall|q: int| 0 <= q < k + 1 implies view[(#[trigger] graph.adjacency_list@[src as int]@[q]) as int].0 == view[src as int].1[q] by {
                        if q < k {
                            assert(graph.adjacency_list@[src as int]@[q] == before[src as int]@[q]);
                        }
                    }
                }
                k = k + 1;
            }
            src = src + 1;
        }
        proof {
            assert(graph.wf());
        }
        proof {
            if dependencies_acyclic(*dependencies) {
                let adj = graph.adjacency_list@;
                let crank = choose|rank: spec_fn(ContractIdView) -> int| #[trigger] ranks_dependencies(*dependencies, rank);
                assert(ranks_dependencies(*dependencies, crank));
                let grank = |u: int| crank(view[u].0);
                assert forall|u: int, j: int| 0 <= u < adj.len() && 0 <= j < adj[u]@.len() implies grank(
                    #[trigger] adj[u]@[j] as int,
                ) < grank(u) by {
                    dependencies.lemma_deps_of_entry(u);
                    assert(view[adj[u]@[j] as int].0 == view[u].1[j]);
                    assert(view[u].1.contains(view[u].1[j]));
                    assert(dependencies.deps_of(view[u].0).contains(view[u].1[j]));
                    assert(dependencies.has_key(view[u].0));
                }
                assert(ranked_by(adj, grank));
            }
        }
        let mut walker = GraphWalker::new(n);
        let sorted_indexes = walker.get_sorted_dependencies(&graph);
        let mut cycle_walker = GraphWalker::new(n);
        let cyclic_deps = cycle_walker.get_cycling_dependencies(&graph, &sorted_indexes);
        if let Some(deps) = cyclic_deps {
            let mut contracts: Vec<String> = Vec::new();
            let mut c: usize = 0;
            while c < deps.len()
                invariant
                    c <= deps@.len(),
                    contracts@.len() == c,
                    n == dependencies@.len(),
                    forall|q: int| 0 <= q < deps@.len() ==> sorted_indexes@.contains(#[trigger] deps@[q]),
                    is_permutation(sorted_indexes@, n as int),
                decreases deps.len() - c,
            {
                let index = deps[c];
                proof {
                    assert(sorted_indexes@.contains(deps@[c as int]));
                }
                contracts.push(dependencies.key_at(index).name.clone());
                c = c + 1;
            }
            return Err(OrderError::CyclingDependencies(contracts));
        }
        let mut order: Vec<&QualifiedContractIdentifier> = Vec::new();
        let mut p: usize = 0;
        while p < sorted_indexes.len()
            invariant
                p <= sorted_indexes@.len(),
                n == dependencies@.len(),
                view == dependencies@,
                is_permutation(sorted_indexes@, n as int),
                order@.len() == p,
                forall|q: int| 0 <= q < p ==> (#[trigger] order@[q])@ == view[sorted_indexes@[q] as int].0,
            decreases sorted_indexes.len() - p,
        {
            order.push(dependencies.key_at(sorted_indexes[p]));
            p = p + 1;
        }
        proof {
            let ov = order@.map_values(|c: &QualifiedContractIdentifier| c@);
            let s = sorted_indexes@;
            let adj = graph.adjacency_list@;
            assert forall|q: int| 0 <= q < ov.len() implies dependencies.has_key(#[trigger] ov[q]) by {
                assert(ov[q] == view[s[q] as int].0);
            }
            assert forall|a: int, b: int| 0 <= a < b < ov.len() implies ov[a] != ov[b] by {
                assert(ov[a] == view[s[a] as int].0);
                assert(ov[b] == view[s[b] as int].0);
                assert(s[a] != s[b]);
            }
            assert forall|q: int, d: ContractIdView|
                0 <= q < ov.len() && #[trigger] dependencies.deps_of(ov[q]).contains(d) implies exists|r: int|
                    0 <= r < q && #[trigger] ov[r] == d by {
                let u = s[q] as int;
                assert(ov[q] == view[u].0);
                dependencies.lemma_deps_of_entry(u);
                assert(view[u].1.to_set().contains(d));
                let kk = choose|kk: int| 0 <= kk < view[u].1.len() && view[u].1[kk] == d;
                assert(view[adj[u]@[kk] as int].0 == d);
                assert(occurs_before(s, q, adj[s[q] as int]@[kk]));
                let r = choose|r: int| 0 <= r < q && s[r] == adj[u]@[kk];
                assert(ov[r] == view[s[r] as int].0);
            }
        }
        Ok(order)
    }
}

impl<'a> ASTVisitor<'a> for ASTDependencyDetector<'a> {
    type Frame = Set<ContractIdView>;

    closed spec fn inv(&self) -> bool {
        self.state_ok()
    }

    open spec fn always_continues() -> bool {
        true
    }

    closed spec fn frame(&self) -> Set<ContractIdView> {
        self.known_contracts@
    }

    // The parameters of the function being traversed are kept while its body is
    // traversed, to find the trait of a dynamic contract call.
    fn enter_define_private(&mut self, expr: &'a SymbolicExpression, name: &'a ClarityName, parameters: &Option<Vec<TypedVar<'a>>>) {
        self.params = parameters.clone();
    }

    fn enter_define_read_only(&mut self, expr: &'a SymbolicExpression, name: &'a ClarityName, parameters: &Option<Vec<TypedVar<'a>>>) {
        self.params = parameters.clone();
    }

    fn enter_define_public(&mut self, expr: &'a SymbolicExpression, name: &'a ClarityName, parameters: &Option<Vec<TypedVar<'a>>>) {
        self.params = parameters.clone();
    }

    fn leave_define_function(&mut self) {
        self.params = None;
    }

    fn visit_define_private(&mut self, expr: &'a SymbolicExpression, name: &'a ClarityName, parameters: Option<Vec<TypedVar<'a>>>, body: &'a SymbolicExpression) -> (r: bool)
        ensures
            parameters is None ==> *final(self) == *old(self),
            parameters matches Some(ps) ==> {
                &&& function_defined(*old(self), *final(self), current_of(*old(self)), name@, trait_flags(ps@))
                &&& function_calls_settled(*old(self), *final(self), current_of(*old(self)), name@)
                &&& forall|k: ContractIdView| #[trigger] deps_in(*final(self), k) == deps_in(*old(self), k).union(
                    settled_deps(
                        waiting_calls(*old(self), current_of(*old(self)), name@),
                        trait_flags(ps@),
                        k,
                        waiting_calls(*old(self), current_of(*old(self)), name@).len() as int,
                    ),
                )
            },
    {
        self.define_function(name, parameters);
        true
    }

    fn visit_define_read_only(&mut self, expr: &'a SymbolicExpression, name: &'a ClarityName, parameters: Option<Vec<TypedVar<'a>>>, body: &'a SymbolicExpression) -> (r: bool)
        ensures
            parameters is None ==> *final(self) == *old(self),
            parameters matches Some(ps) ==> {
                &&& function_defined(*old(self), *final(self), current_of(*old(self)), name@, trait_flags(ps@))
                &&& function_calls_settled(*old(self), *final(self), current_of(*old(self)), name@)
                &&& forall|k: ContractIdView| #[trigger] deps_in(*final(self), k) == deps_in(*old(self), k).union(
                    settled_deps(
                        waiting_calls(*old(self), current_of(*old(self)), name@),
                        trait_flags(ps@),
                        k,
                        waiting_calls(*old(self), current_of(*old(self)), name@).len() as int,
                    ),
                )
            },
    {
        self.define_function(name, parameters);
        true
    }

    fn visit_define_public(&mut self, expr: &'a SymbolicExpression, name: &'a ClarityName, parameters: Option<Vec<TypedVar<'a>>>, body: &'a SymbolicExpression) -> (r: bool)
        ensures
            parameters is None ==> *final(self) == *old(self),
            parameters matches Some(ps) ==> {
                &&& function_defined(*old(self), *final(self), current_of(*old(self)), name@, trait_flags(ps@))
                &&& function_calls_settled(*old(self), *final(self), current_of(*old(self)), name@)
                &&& forall|k: ContractIdView| #[trigger] deps_in(*final(self), k) == deps_in(*old(self), k).union(
                    settled_deps(
                        waiting_calls(*old(self), current_of(*old(self)), name@),
                        trait_flags(ps@),
                        k,
                        waiting_calls(*old(self), current_of(*old(self)), name@).len() as int,
                    ),
                )
            },
    {
        self.define_function(name, parameters);
        true
    }

    fn visit_define_trait(&mut self, expr: &'a SymbolicExpression, name: &'a ClarityName, functions: &'a [SymbolicExpression]) -> (r: bool)
        ensures
            !(forall|i: int| 0 <= i < functions@.len() ==> method_sig_ok(#[trigger] functions@[i])) ==> *final(self)
                == *old(self),
            (forall|i: int| 0 <= i < functions@.len() ==> method_sig_ok(#[trigger] functions@[i])) ==> exists|m: TraitMethods| {
                &&& #[trigger] represents_trait(functions@, m)
                &&& trait_defined(*old(self), *final(self), current_of(*old(self)), name@, m)
                &&& trait_calls_settled(*old(self), *final(self), current_of(*old(self)), name@)
                &&& forall|k: ContractIdView| #[trigger] deps_in(*final(self), k) == deps_in(*old(self), k).union(
                    settled_trait_deps(
                        waiting_trait_calls(*old(self), current_of(*old(self)), name@),
                        m@,
                        k,
                        waiting_trait_calls(*old(self), current_of(*old(self)), name@).len() as int,
                    ),
                )
            },
    {
        if let Some(trait_definition) = parse_trait_type_repr(functions) {
            let ghost m = trait_definition;
            proof {
                assert(represents_trait(functions@, m));
            }
            let current = self.current();
            self.add_defined_trait(current, name, trait_definition);
        }
        true
    }

    fn visit_static_contract_call(&mut self, expr: &'a SymbolicExpression, contract_identifier: &'a QualifiedContractIdentifier, function_name: &'a ClarityName, args: &'a [SymbolicExpression]) -> (r: bool)
        ensures
            only_current_deps_and_calls(*old(self), *final(self)),
            exists|t: Option<Seq<bool>>| {
                &&& defined_as(*old(self), contract_identifier@, function_name@, t)
                &&& #[trigger] deps_in(*final(self), current_of(*old(self))) == deps_in(
                    *old(self),
                    current_of(*old(self)),
                ).insert(contract_identifier@).union(callee_contracts(t, args@))
                &&& t is Some ==> same_pending_calls(*old(self), *final(self))
                &&& t is None ==> call_queued_from_current(
                    *old(self),
                    *final(self),
                    contract_identifier@,
                    function_name@,
                    args,
                )
            },
    {
        let current = self.current();
        self.add_dependency(current, contract_identifier);
        let found = self.find_defined_function(contract_identifier, function_name);
        let ghost t: Option<Seq<bool>> = match found {
            Some(a) => Some(a@),
            None => None,
        };
        let dependencies = match found {
            // The parameter kinds of the callee are known: look for contracts passed as traits.
            Some(arg_types) => check_callee_type(arg_types, args),
            // They are not known yet: look again once the callee is defined.
            None => {
                self.add_pending_function_check(current, contract_identifier, function_name, args);
                proof {
                    assert(defined_as(*old(self), contract_identifier@, function_name@, t));
                    assert(callee_contracts(t, args@) =~= Set::empty());
                    assert(deps_in(*self, current_of(*old(self))) =~= deps_in(*old(self), current_of(*old(self))).insert(
                        contract_identifier@).union(callee_contracts(t, args@)));
                }
                return true;
            },
        };
        proof {
            assert(ids_view(dependencies@).to_set() =~= callee_contracts(t, args@));
        }
        self.add_dependencies(current, &dependencies);
        proof {
            assert(defined_as(*old(self), contract_identifier@, function_name@, t));
        }
        true
    }

    fn visit_dynamic_contract_call(&mut self, expr: &'a SymbolicExpression, trait_ref: &'a SymbolicExpression, function_name: &'a ClarityName, args: &'a [SymbolicExpression]) -> (r: bool)
        ensures
            !trait_ref.is_atom() ==> *final(self) == *old(self),
            trait_ref.is_atom() ==> exists|tr: Option<TraitIdentifier>| {
                &&& #[trigger] param_trait_is(*old(self), trait_ref.atom()@, tr)
                &&& tr is None ==> *final(self) == *old(self)
                &&& tr matches Some(t) ==> exists|m: Option<Option<Seq<bool>>>| {
                    &&& #[trigger] trait_method_is(*old(self), t, function_name@, m)
                    &&& m is None ==> trait_call_queued_from_current(*old(self), *final(self), t@, function_name, args)
                    &&& m matches Some(x) ==> {
                        &&& only_current_deps(*old(self), *final(self))
                        &&& deps_in(*final(self), current_of(*old(self))) == deps_in(*old(self), current_of(*old(self))).union(
                            callee_contracts(x, args@),
                        )
                    }
                }
            },
    {
        let trait_instance = match trait_ref.match_atom() {
            Some(name) => name,
            None => return true,
        };
        let pt = self.get_param_trait(trait_instance);
        let ghost tr: Option<TraitIdentifier> = match pt {
            Some(t) => Some(*t),
            None => None,
        };
        proof {
            assert(param_trait_is(*old(self), trait_ref.atom()@, tr));
        }
        if let Some(trait_identifier) = pt {
            let current = self.current();
            let found = self.find_defined_trait(&trait_identifier.contract_identifier, &trait_identifier.name);
            let dependencies = match found {
                Some(trait_definition) => {
                    let method = find_trait_method(trait_definition, function_name);
                    let ghost x: Option<Seq<bool>> = match method {
                        Some(ts) => Some(ts@),
                        None => None,
                    };
                    proof {
                        assert(trait_method_is(*old(self), *trait_identifier, function_name@, Some(x)));
                    }
                    let deps = match method {
                        Some(types) => check_callee_type(types, args),
                        None => Vec::new(),
                    };
                    proof {
                        assert(ids_view(deps@).to_set() =~= callee_contracts(x, args@));
                    }
                    deps
                },
                None => {
                    self.add_pending_trait_check(current, trait_identifier, function_name, args);
                    proof {
                        assert(trait_method_is(*old(self), *trait_identifier, function_name@, None));
                        assert(trait_call_queued_from_current(*old(self), *self, trait_identifier@, function_name, args));
                    }
                    return true;
                },
            };
            self.add_dependencies(current, &dependencies);
            proof {
                let t = *trait_identifier;
                let x: Option<Seq<bool>> = choose|x: Option<Seq<bool>>| trait_method_is(*old(self), t, function_name@, Some(x))
                    && ids_view(dependencies@).to_set() == callee_contracts(x, args@);
                assert(trait_method_is(*old(self), t, function_name@, Some(x)));
            }
        }
        true
    }

    fn visit_call_user_defined(&mut self, expr: &'a SymbolicExpression, name: &'a ClarityName, args: &'a [SymbolicExpression]) -> (r: bool)
        ensures
            only_current_deps(*old(self), *final(self)),
            exists|t: Option<Seq<bool>>|
                defined_as(*old(self), current_of(*old(self)), name@, t) && #[trigger] deps_in(
                    *final(self),
                    current_of(*old(self)),
                ) == deps_in(*old(self), current_of(*old(self))).union(callee_contracts(t, args@)),
    {
        let current = self.current();
        let found = self.find_defined_function(current, name);
        let ghost t: Option<Seq<bool>> = match found {
            Some(a) => Some(a@),
            None => None,
        };
        let dependencies = match found {
            Some(arg_types) => check_callee_type(arg_types, args),
            None => Vec::new(),
        };
        proof {
            assert(ids_view(dependencies@).to_set() =~= callee_contracts(t, args@));
        }
        self.add_dependencies(current, &dependencies);
        proof {
            assert(defined_as(*old(self), current_of(*old(self)), name@, t));
        }
        true
    }

    fn visit_use_trait(&mut self, expr: &'a SymbolicExpression, name: &'a ClarityName, trait_identifier: &'a TraitIdentifier) -> (r: bool)
        ensures
            only_current_deps(*old(self), *final(self)),
            deps_in(*final(self), current_of(*old(self))) == deps_in(*old(self), current_of(*old(self))).insert(
                trait_identifier.contract_identifier@,
            ),
    {
        let current = self.current();
        self.add_dependency(current, &trait_identifier.contract_identifier);
        true
    }

    fn visit_impl_trait(&mut self, expr: &'a SymbolicExpression, trait_identifier: &'a TraitIdentifier) -> (r: bool)
        ensures
            only_current_deps(*old(self), *final(self)),
            deps_in(*final(self), current_of(*old(self))) == deps_in(*old(self), current_of(*old(self))).insert(
                trait_identifier.contract_identifier@,
            ),
    {
        let current = self.current();
        self.add_dependency(current, &trait_identifier.contract_identifier);
        true
    }
}

} // verus!
