use vstd::prelude::*;
use crate::ast_visitor::{
    ListForm, arg_traversed, define_shape_ok, is_uint_literal, list_form, native_min_args,
    native_name_arg, native_shape_ok, native_traversed, pairs_ok, shape_ok, tuple_entries_ok,
    wf_expr,
};
use crate::functions::{DefineFunctions, NativeFunctions};
use crate::representations::{SymbolicExpression, SymbolicExpressionType, Value};

verus! {

broadcast use vstd::std_specs::vec::group_vec_axioms;

/// The form of the list `l`.
pub fn list_form_of(l: &Vec<SymbolicExpression>) -> (r: ListForm)
    ensures
        r == list_form(l@),
{
    if l.len() > 0 {
        if let Some(name) = l[0].match_atom() {
            return match DefineFunctions::lookup_by_name(name.as_str()) {
                Some(d) => ListForm::Define(d),
                None => match NativeFunctions::lookup_by_name(name.as_str()) {
                    Some(f) => ListForm::Native(f),
                    None => ListForm::UserDefined,
                },
            };
        }
    }
    ListForm::Other
}

/// The number of arguments that the traversal reads of a call of `f`.
pub fn min_args(f: NativeFunctions) -> (r: usize)
    ensures
        r == native_min_args(f),
{
    match f {
        NativeFunctions::BitwiseXOR | NativeFunctions::ElementAt | NativeFunctions::IndexOf
        | NativeFunctions::Append | NativeFunctions::Concat | NativeFunctions::AsMaxLen
        | NativeFunctions::SetVar | NativeFunctions::FetchEntry | NativeFunctions::DeleteEntry
        | NativeFunctions::TupleGet | NativeFunctions::TupleMerge
        | NativeFunctions::Secp256k1Recover | NativeFunctions::ContractCall
        | NativeFunctions::AtBlock | NativeFunctions::GetBlockInfo | NativeFunctions::DefaultTo
        | NativeFunctions::Asserts | NativeFunctions::UnwrapRet | NativeFunctions::UnwrapErrRet
        | NativeFunctions::UnwrapErr | NativeFunctions::Filter | NativeFunctions::StxBurn
        | NativeFunctions::GetTokenBalance | NativeFunctions::GetAssetOwner => 2,
        NativeFunctions::If | NativeFunctions::Fold | NativeFunctions::SetEntry
        | NativeFunctions::InsertEntry | NativeFunctions::Secp256k1Verify
        | NativeFunctions::StxTransfer | NativeFunctions::BurnToken | NativeFunctions::MintToken
        | NativeFunctions::BurnAsset | NativeFunctions::MintAsset => 3,
        NativeFunctions::TransferToken | NativeFunctions::TransferAsset
        | NativeFunctions::Match => 4,
        NativeFunctions::ToInt | NativeFunctions::ToUInt | NativeFunctions::Let
        | NativeFunctions::SequenceMap | NativeFunctions::Len | NativeFunctions::FetchVar
        | NativeFunctions::Hash160 | NativeFunctions::Sha256 | NativeFunctions::Sha512
        | NativeFunctions::Sha512Trunc256 | NativeFunctions::Keccak256 | NativeFunctions::Print
        | NativeFunctions::AsContract | NativeFunctions::ContractOf
        | NativeFunctions::PrincipalOf | NativeFunctions::ConsError | NativeFunctions::ConsOkay
        | NativeFunctions::ConsSome | NativeFunctions::Unwrap | NativeFunctions::IsOkay
        | NativeFunctions::IsNone | NativeFunctions::IsErr | NativeFunctions::IsSome
        | NativeFunctions::TryRet | NativeFunctions::GetStxBalance
        | NativeFunctions::GetTokenSupply => 1,
        _ => 0,
    }
}

/// Whether the first argument of a call of `f` must be a name.
pub fn name_arg(f: NativeFunctions) -> (r: bool)
    ensures
        r == native_name_arg(f),
{
    match f {
        NativeFunctions::SequenceMap | NativeFunctions::Fold | NativeFunctions::FetchVar
        | NativeFunctions::SetVar | NativeFunctions::FetchEntry | NativeFunctions::SetEntry
        | NativeFunctions::InsertEntry | NativeFunctions::DeleteEntry | NativeFunctions::TupleGet
        | NativeFunctions::GetBlockInfo | NativeFunctions::Filter | NativeFunctions::BurnToken
        | NativeFunctions::TransferToken | NativeFunctions::GetTokenBalance
        | NativeFunctions::GetTokenSupply | NativeFunctions::MintToken
        | NativeFunctions::BurnAsset | NativeFunctions::TransferAsset | NativeFunctions::MintAsset
        | NativeFunctions::GetAssetOwner => true,
        _ => false,
    }
}

/// The number of leading arguments of a call of `f` with `n` arguments that the
/// traversal visits as expressions.
pub fn traversed_args(f: NativeFunctions, n: usize) -> (r: usize)
    ensures
        r == native_traversed(f, n as int),
{
    match f {
        NativeFunctions::Secp256k1Verify => 2,
        NativeFunctions::AsMaxLen => 1,
        NativeFunctions::FetchVar | NativeFunctions::GetTokenSupply => 0,
        NativeFunctions::Match => if n == 4 {
            4
        } else {
            5
        },
        NativeFunctions::Add | NativeFunctions::Subtract | NativeFunctions::Multiply
        | NativeFunctions::Divide | NativeFunctions::Modulo | NativeFunctions::Power
        | NativeFunctions::Sqrti | NativeFunctions::Log2 | NativeFunctions::CmpLess
        | NativeFunctions::CmpLeq | NativeFunctions::CmpGreater | NativeFunctions::CmpGeq
        | NativeFunctions::Equals | NativeFunctions::And | NativeFunctions::Or
        | NativeFunctions::Not | NativeFunctions::ListCons | NativeFunctions::Begin
        | NativeFunctions::SequenceMap | NativeFunctions::ContractCall => n,
        _ => min_args(f),
    }
}

/// Whether `l[i]` is a name.
fn atom_at(l: &Vec<SymbolicExpression>, i: usize) -> (r: bool)
    requires
        i < l@.len(),
    ensures
        r == l@[i as int].is_atom(),
{
    l[i].match_atom().is_some()
}

/// Whether `l[i]` is a field `.contract.trait`.
fn field_at(l: &Vec<SymbolicExpression>, i: usize) -> (r: bool)
    requires
        i < l@.len(),
    ensures
        r == l@[i as int].is_field(),
{
    l[i].match_field().is_some()
}

/// Whether the definition `l` has the shape that the traversal expects of `d`.
pub fn define_shape(d: DefineFunctions, l: &Vec<SymbolicExpression>) -> (r: bool)
    ensures
        r == define_shape_ok(d, l@),
{
    let n = l.len();
    match d {
        DefineFunctions::Constant => n >= 3 && atom_at(l, 1),
        DefineFunctions::PrivateFunction | DefineFunctions::ReadOnlyFunction
        | DefineFunctions::PublicFunction => {
            if n < 2 {
                return false;
            }
            match l[1].match_list() {
                Some(sig) => sig.len() >= 1 && sig[0].match_atom().is_some() && n >= 3,
                None => true,
            }
        },
        DefineFunctions::NonFungibleToken => n >= 3 && atom_at(l, 1),
        DefineFunctions::FungibleToken => n >= 2 && atom_at(l, 1),
        DefineFunctions::DataMap | DefineFunctions::PersistedVariable => n >= 4 && atom_at(l, 1),
        DefineFunctions::Trait => n >= 2 && atom_at(l, 1),
        DefineFunctions::UseTrait => n >= 3 && atom_at(l, 1) && field_at(l, 2),
        DefineFunctions::ImplTrait => n >= 2 && field_at(l, 1),
    }
}

/// Whether `e` is a list of `(name value)` pairs.
pub fn check_pairs(e: &SymbolicExpression) -> (r: bool)
    ensures
        r == pairs_ok(*e),
{
    let list = match e.match_list() {
        Some(list) => list,
        None => return false,
    };
    let mut j: usize = 0;
    while j < list.len()
        invariant
            j <= list@.len(),
            list@ == e.list(),
            e.is_list(),
            forall|k: int|
                0 <= k < j ==> {
                    &&& (#[trigger] e.list()[k]).is_list()
                    &&& e.list()[k].list().len() == 2
                    &&& e.list()[k].list()[0].is_atom()
                },
        decreases list.len() - j,
    {
        match list[j].match_list() {
            Some(pair) => {
                if pair.len() != 2 || pair[0].match_atom().is_none() {
                    return false;
                }
            },
            None => return false,
        }
        j = j + 1;
    }
    true
}

/// Whether every argument of the tuple constructor `l` is a list of at least two elements.
pub fn check_tuple_entries(l: &Vec<SymbolicExpression>) -> (r: bool)
    ensures
        r == tuple_entries_ok(l@),
{
    let mut i: usize = 1;
    while i < l.len()
        invariant
            1 <= i,
            i <= l@.len() || l@.len() == 0,
            forall|k: int| 1 <= k < i && k < l@.len() ==> (#[trigger] l@[k]).is_list() && l@[k].list().len() >= 2,
        decreases l.len() - i,
    {
        match l[i].match_list() {
            Some(entry) => {
                if entry.len() < 2 {
                    return false;
                }
            },
            None => return false,
        }
        i = i + 1;
    }
    true
}

/// Whether `e` is a literal unsigned integer.
pub fn check_uint_literal(e: &SymbolicExpression) -> (r: bool)
    ensures
        r == is_uint_literal(*e),
{
    match &e.expr {
        SymbolicExpressionType::LiteralValue(Value::UInt(_)) => true,
        _ => false,
    }
}

/// Whether the call `l` of the built-in `f` has the shape that the traversal expects.
pub fn native_shape(f: NativeFunctions, l: &Vec<SymbolicExpression>) -> (r: bool)
    requires
        l@.len() >= 1,
    ensures
        r == native_shape_ok(f, l@),
{
    let n = l.len();
    if n - 1 < min_args(f) {
        return false;
    }
    if name_arg(f) && !atom_at(l, 1) {
        return false;
    }
    match f {
        NativeFunctions::Let => check_pairs(&l[1]),
        NativeFunctions::TupleCons => check_tuple_entries(l),
        NativeFunctions::AsMaxLen => check_uint_literal(&l[2]),
        NativeFunctions::ContractCall => atom_at(l, 2),
        NativeFunctions::Match => atom_at(l, 2) && (n == 5 || (n >= 6 && atom_at(l, 4))),
        _ => true,
    }
}

/// Whether the traversal visits the element `i` of the list `l` as an expression.
pub fn arg_is_traversed(form: &ListForm, l: &Vec<SymbolicExpression>, i: usize) -> (r: bool)
    requires
        *form == list_form(l@),
        shape_ok(l@),
        1 <= i < l@.len(),
    ensures
        r == arg_traversed(l@, i as int),
{
    match form {
        ListForm::Define(d) => match d {
            DefineFunctions::Constant | DefineFunctions::FungibleToken => i == 2,
            DefineFunctions::PrivateFunction | DefineFunctions::ReadOnlyFunction
            | DefineFunctions::PublicFunction => i == 2 && l[1].match_list().is_some(),
            DefineFunctions::PersistedVariable => i == 3,
            _ => false,
        },
        ListForm::Native(f) => match f {
            NativeFunctions::Let => i >= 2,
            NativeFunctions::TupleCons => false,
            _ => i <= traversed_args(*f, l.len() - 1),
        },
        ListForm::UserDefined => true,
        ListForm::Other => false,
    }
}

/// A list decreases to each of its elements.
pub proof fn lemma_child(e: SymbolicExpression, i: int)
    requires
        e.is_list(),
        0 <= i < e.list().len(),
    ensures
        decreases_to!(e => e.list()[i]),
{
    let v = e.expr->List_0;
    assert(decreases_to!(v => v[i]));
}

/// Whether `e` is well formed for the traversal (see `wf_expr`): checks the shape of every
/// list the traversal would visit.
pub fn check_wf_expr(e: &SymbolicExpression) -> (r: bool)
    ensures
        r == wf_expr(*e),
    decreases e,
{
    match &e.expr {
        SymbolicExpressionType::List(v) => {
            let form = list_form_of(v);
            let shape = match form {
                ListForm::Define(d) => define_shape(d, v),
                ListForm::Native(f) => native_shape(f, v),
                _ => true,
            };
            if !shape {
                return false;
            }
            let mut i: usize = 1;
            while i < v.len()
                invariant
                    1 <= i,
                    i <= v@.len() || v@.len() == 0,
                    e.expr == SymbolicExpressionType::List(*v),
                    shape_ok(v@),
                    form == list_form(v@),
                    forall|k: int| 1 <= k < i && k < v@.len() && arg_traversed(v@, k) ==> wf_expr(#[trigger] v@[k]),
                decreases v.len() - i,
            {
                if arg_is_traversed(&form, v, i) {
                    proof {
                        lemma_child(*e, i as int);
                    }
                    if !check_wf_expr(&v[i]) {
                        return false;
                    }
                }
                i = i + 1;
            }
            if let ListForm::Native(NativeFunctions::Let) = form {
                if v.len() >= 2 {
                    if let Some(bindings) = v[1].match_list() {
                        let mut j: usize = 0;
                        while j < bindings.len()
                            invariant
                                j <= bindings@.len(),
                                bindings@ == v@[1].list(),
                                v@.len() >= 2,
                                v@[1].is_list(),
                                e.expr == SymbolicExpressionType::List(*v),
                                list_form(v@) == ListForm::Native(NativeFunctions::Let),
                                forall|k: int|
                                    0 <= k < j && (#[trigger] v@[1].list()[k]).is_list() && v@[1].list()[k].list().len() >= 2
                                        ==> wf_expr(v@[1].list()[k].list()[1]),
                            decreases bindings.len() - j,
                        {
                            if let Some(pair) = bindings[j].match_list() {
                                if pair.len() >= 2 {
                                    proof {
                                        lemma_child(*e, 1);
                                        lemma_child(v@[1], j as int);
                                        lemma_child(v@[1].list()[j as int], 1);
                                    }
                                    if !check_wf_expr(&pair[1]) {
                                        proof {
                                            assert(bindings@[j as int] == v@[1].list()[j as int]);
                                            assert(v@[1].list()[j as int].is_list());
                                        }
                                        return false;
                                    }
                                }
                            }
                            j = j + 1;
                        }
                    }
                }
            }
            if let ListForm::Native(NativeFunctions::TupleCons) = form {
                let mut i: usize = 1;
                while i < v.len()
                    invariant
                        1 <= i,
                        i <= v@.len() || v@.len() == 0,
                        e.expr == SymbolicExpressionType::List(*v),
                        list_form(v@) == ListForm::Native(NativeFunctions::TupleCons),
                        forall|k: int|
                            1 <= k < i && k < v@.len() && (#[trigger] v@[k]).is_list() && v@[k].list().len() >= 2
                                ==> wf_expr(v@[k].list()[1]),
                    decreases v.len() - i,
                {
                    if let Some(entry) = v[i].match_list() {
                        if entry.len() >= 2 {
                            proof {
                                lemma_child(*e, i as int);
                                lemma_child(v@[i as int], 1);
                            }
                            if !check_wf_expr(&entry[1]) {
                                proof {
                                    assert(v@[i as int].is_list());
                                }
                                return false;
                            }
                        }
                    }
                    i = i + 1;
                }
            }
            true
        },
        _ => true,
    }
}

/// Whether every expression of `exprs` is well formed for the traversal.
pub fn check_wf_exprs(exprs: &Vec<SymbolicExpression>) -> (r: bool)
    ensures
        r <==> forall|i: int| 0 <= i < exprs@.len() ==> wf_expr(#[trigger] exprs@[i]),
{
    let mut i: usize = 0;
    while i < exprs.len()
        invariant
            i <= exprs@.len(),
            forall|k: int| 0 <= k < i ==> wf_expr(#[trigger] exprs@[k]),
        decreases exprs.len() - i,
    {
        if !check_wf_expr(&exprs[i]) {
            return false;
        }
        i = i + 1;
    }
    true
}

} // verus!
