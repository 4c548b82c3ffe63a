use vstd::prelude::*;
use crate::functions::{DefineFunctions, NativeFunctions};
use crate::representations::{
    ClarityName, QualifiedContractIdentifier, Span, SymbolicExpression, SymbolicExpressionType,
    TraitDefinition, TraitIdentifier, Value, name_is,
};

verus! {

broadcast use vstd::std_specs::vec::group_vec_axioms;

/// A parameter of a function definition: its name, its type expression and where it is declared.
#[derive(Clone, Copy)]
pub struct TypedVar<'a> {
    pub name: &'a ClarityName,
    pub type_expr: &'a SymbolicExpression,
    pub decl_span: Span,
}

/// What a list expression is, as told by its first element.
pub enum ListForm {
    Define(DefineFunctions),
    Native(NativeFunctions),
    UserDefined,
    Other,
}

/// The form of the list `l`: a definition, a call of a built-in function, a call of a
/// user-defined function (an atom that names no built-in), or anything else.
pub open spec fn list_form(l: Seq<SymbolicExpression>) -> ListForm {
    if l.len() > 0 && l[0].is_atom() {
        match DefineFunctions::spec_lookup(l[0].atom()@) {
            Some(d) => ListForm::Define(d),
            None => match NativeFunctions::spec_lookup(l[0].atom()@) {
                Some(f) => ListForm::Native(f),
                None => ListForm::UserDefined,
            },
        }
    } else {
        ListForm::Other
    }
}

/// Whether `e` is a list of `(name value)` pairs, as the bindings of a `let`.
pub open spec fn pairs_ok(e: SymbolicExpression) -> bool {
    &&& e.is_list()
    &&& forall|j: int|
        0 <= j < e.list().len() ==> {
            &&& (#[trigger] e.list()[j]).is_list()
            &&& e.list()[j].list().len() == 2
            &&& e.list()[j].list()[0].is_atom()
        }
}

/// Whether every argument of the tuple constructor `l` is a list of at least two elements.
pub open spec fn tuple_entries_ok(l: Seq<SymbolicExpression>) -> bool {
    forall|i: int| 1 <= i < l.len() ==> (#[trigger] l[i]).is_list() && l[i].list().len() >= 2
}

/// The shape that the traversal expects of the definition `l`.
pub open spec fn define_shape_ok(d: DefineFunctions, l: Seq<SymbolicExpression>) -> bool {
    match d {
        DefineFunctions::Constant => l.len() >= 3 && l[1].is_atom(),
        DefineFunctions::PrivateFunction | DefineFunctions::ReadOnlyFunction
        | DefineFunctions::PublicFunction => {
            &&& l.len() >= 2
            &&& l[1].is_list() ==> l[1].list().len() >= 1 && l[1].list()[0].is_atom() && l.len() >= 3
        },
        DefineFunctions::NonFungibleToken => l.len() >= 3 && l[1].is_atom(),
        DefineFunctions::FungibleToken => l.len() >= 2 && l[1].is_atom(),
        DefineFunctions::DataMap | DefineFunctions::PersistedVariable => l.len() >= 4
            && l[1].is_atom(),
        DefineFunctions::Trait => l.len() >= 2 && l[1].is_atom(),
        DefineFunctions::UseTrait => l.len() >= 3 && l[1].is_atom() && l[2].is_field(),
        DefineFunctions::ImplTrait => l.len() >= 2 && l[1].is_field(),
    }
}

/// The number of arguments that the traversal reads of a call of `f` (those it requires).
pub open spec fn native_min_args(f: NativeFunctions) -> int {
    match f {
        NativeFunctions::BitwiseXOR | NativeFunctions::ElementAt | NativeFunctions::IndexOf
        | NativeFunctions::Append | NativeFunctions::Concat | NativeFunctions::AsMaxLen
        | NativeFunctions::SetVar | NativeFunctions::FetchEntry | NativeFunctions::DeleteEntry
        | NativeFunctions::TupleGet | NativeFunctions::TupleMerge
        | NativeFunctions::Secp256k1Recover | NativeFunctions::ContractCall
        | NativeFunctions::AtBlock | NativeFunctions::GetBlockInfo | NativeFunctions::DefaultTo
        | NativeFunctions::Asserts | NativeFunctions::UnwrapRet | NativeFunctions::UnwrapErrRet
        | NativeFunctions::UnwrapErr | NativeFunctions::Filter | NativeFunctions::StxBurn
        | NativeFunctions::GetTokenBalance | NativeFunctions::GetAssetOwner => 2,
        NativeFunctions::If | NativeFunctions::Fold | NativeFunctions::SetEntry
        | NativeFunctions::InsertEntry | NativeFunctions::Secp256k1Verify
        | NativeFunctions::StxTransfer | NativeFunctions::BurnToken | NativeFunctions::MintToken
        | NativeFunctions::BurnAsset | NativeFunctions::MintAsset => 3,
        NativeFunctions::TransferToken | NativeFunctions::TransferAsset
        | NativeFunctions::Match => 4,
        NativeFunctions::ToInt | NativeFunctions::ToUInt | NativeFunctions::Let
        | NativeFunctions::SequenceMap | NativeFunctions::Len | NativeFunctions::FetchVar
        | NativeFunctions::Hash160 | NativeFunctions::Sha256 | NativeFunctions::Sha512
        | NativeFunctions::Sha512Trunc256 | NativeFunctions::Keccak256 | NativeFunctions::Print
        | NativeFunctions::AsContract | NativeFunctions::ContractOf
        | NativeFunctions::PrincipalOf | NativeFunctions::ConsError | NativeFunctions::ConsOkay
        | NativeFunctions::ConsSome | NativeFunctions::Unwrap | NativeFunctions::IsOkay
        | NativeFunctions::IsNone | NativeFunctions::IsErr | NativeFunctions::IsSome
        | NativeFunctions::TryRet | NativeFunctions::GetStxBalance
        | NativeFunctions::GetTokenSupply => 1,
        _ => 0,
    }
}

/// Whether the first argument of a call of `f` must be a name.
pub open spec fn native_name_arg(f: NativeFunctions) -> bool {
    match f {
        NativeFunctions::SequenceMap | NativeFunctions::Fold | NativeFunctions::FetchVar
        | NativeFunctions::SetVar | NativeFunctions::FetchEntry | NativeFunctions::SetEntry
        | NativeFunctions::InsertEntry | NativeFunctions::DeleteEntry | NativeFunctions::TupleGet
        | NativeFunctions::GetBlockInfo | NativeFunctions::Filter | NativeFunctions::BurnToken
        | NativeFunctions::TransferToken | NativeFunctions::GetTokenBalance
        | NativeFunctions::GetTokenSupply | NativeFunctions::MintToken
        | NativeFunctions::BurnAsset | NativeFunctions::TransferAsset | NativeFunctions::MintAsset
        | NativeFunctions::GetAssetOwner => true,
        _ => false,
    }
}

/// Whether `e` is a literal unsigned integer.
pub open spec fn is_uint_literal(e: SymbolicExpression) -> bool {
    e.expr matches SymbolicExpressionType::LiteralValue(Value::UInt(_))
}

/// The shape that the traversal expects of the call `l` of the built-in `f`.
pub open spec fn native_shape_ok(f: NativeFunctions, l: Seq<SymbolicExpression>) -> bool {
    &&& l.len() - 1 >= native_min_args(f)
    &&& native_name_arg(f) ==> l[1].is_atom()
    &&& f == NativeFunctions::Let ==> pairs_ok(l[1])
    &&& f == NativeFunctions::TupleCons ==> tuple_entries_ok(l)
    &&& f == NativeFunctions::AsMaxLen ==> is_uint_literal(l[2])
    &&& f == NativeFunctions::ContractCall ==> l[2].is_atom()
    &&& f == NativeFunctions::Match ==> {
        &&& l[2].is_atom()
        &&& l.len() != 5 ==> l.len() >= 6 && l[4].is_atom()
    }
}

/// The shape that the traversal expects of the list `l`.
pub open spec fn shape_ok(l: Seq<SymbolicExpression>) -> bool {
    match list_form(l) {
        ListForm::Define(d) => define_shape_ok(d, l),
        ListForm::Native(f) => native_shape_ok(f, l),
        _ => true,
    }
}

/// The number of leading arguments of a call of `f` with `n` arguments that the traversal
/// visits as expressions.
pub open spec fn native_traversed(f: NativeFunctions, n: int) -> int {
    match f {
        NativeFunctions::Secp256k1Verify => 2,
        NativeFunctions::AsMaxLen => 1,
        NativeFunctions::FetchVar | NativeFunctions::GetTokenSupply => 0,
        NativeFunctions::Match => if n == 4 {
            4
        } else {
            5
        },
        NativeFunctions::Add | NativeFunctions::Subtract | NativeFunctions::Multiply
        | NativeFunctions::Divide | NativeFunctions::Modulo | NativeFunctions::Power
        | NativeFunctions::Sqrti | NativeFunctions::Log2 | NativeFunctions::CmpLess
        | NativeFunctions::CmpLeq | NativeFunctions::CmpGreater | NativeFunctions::CmpGeq
        | NativeFunctions::Equals | NativeFunctions::And | NativeFunctions::Or
        | NativeFunctions::Not | NativeFunctions::ListCons | NativeFunctions::Begin
        | NativeFunctions::SequenceMap | NativeFunctions::ContractCall => n,
        _ => native_min_args(f),
    }
}

/// Whether the traversal visits the element `i` of the list `l` as an expression
/// (the bindings of a `let` and the entries of a tuple are visited through their values).
pub open spec fn arg_traversed(l: Seq<SymbolicExpression>, i: int) -> bool {
    match list_form(l) {
        ListForm::Define(d) => match d {
            DefineFunctions::Constant | DefineFunctions::FungibleToken => i == 2,
            DefineFunctions::PrivateFunction | DefineFunctions::ReadOnlyFunction
            | DefineFunctions::PublicFunction => i == 2 && l[1].is_list(),
            DefineFunctions::PersistedVariable => i == 3,
            _ => false,
        },
        ListForm::Native(f) => match f {
            NativeFunctions::Let => i >= 2,
            NativeFunctions::TupleCons => false,
            _ => i <= native_traversed(f, l.len() - 1),
        },
        ListForm::UserDefined => true,
        ListForm::Other => false,
    }
}

/// Whether the traversal of `e` never reads past the end of a list nor expects a name,
/// a field or a literal where there is none: every list that it visits has the shape
/// that its form calls for.
pub open spec fn wf_expr(e: SymbolicExpression) -> bool
    decreases e,
{
    match e.expr {
        SymbolicExpressionType::List(v) => {
            &&& shape_ok(v@)
            &&& forall|i: int|
                1 <= i < v@.len() && arg_traversed(v@, i) ==> wf_expr(#[trigger] v@[i])
            &&& (list_form(v@) == ListForm::Native(NativeFunctions::Let) && v@.len() >= 2
                && v@[1].is_list()) ==> forall|j: int|
                0 <= j < v@[1].list().len() && (#[trigger] v@[1].list()[j]).is_list()
                    && v@[1].list()[j].list().len() >= 2 ==> wf_expr(v@[1].list()[j].list()[1])
            &&& list_form(v@) == ListForm::Native(NativeFunctions::TupleCons) ==> forall|i: int|
                1 <= i < v@.len() && (#[trigger] v@[i]).is_list() && v@[i].list().len() >= 2
                    ==> wf_expr(v@[i].list()[1])
        },
        _ => true,
    }
}

/// Whether the list `l` defines a read-only or public function without a signature list:
/// the traversal of such a definition stops.
pub open spec fn missing_signature(l: Seq<SymbolicExpression>) -> bool {
    &&& (list_form(l) == ListForm::Define(DefineFunctions::ReadOnlyFunction) || list_form(l)
        == ListForm::Define(DefineFunctions::PublicFunction))
    &&& !l[1].is_list()
}

/// Whether no list in `e`, at any depth, is a read-only or public function definition
/// without a signature list.
pub open spec fn signatures_ok(e: SymbolicExpression) -> bool
    decreases e,
{
    match e.expr {
        SymbolicExpressionType::List(v) => {
            &&& !missing_signature(v@)
            &&& forall|i: int| 0 <= i < v@.len() ==> signatures_ok(#[trigger] v@[i])
        },
        _ => true,
    }
}

/// What `signatures_ok` gives of a list expression.
pub proof fn lemma_signatures_list(e: SymbolicExpression)
    requires
        e.is_list(),
        signatures_ok(e),
    ensures
        !missing_signature(e.list()),
        forall|i: int| 0 <= i < e.list().len() ==> signatures_ok(#[trigger] e.list()[i]),
{
    let v = e.expr->List_0;
    assert(v@ == e.list());
    assert forall|i: int| 0 <= i < e.list().len() implies signatures_ok(#[trigger] e.list()[i]) by {
        assert(signatures_ok(v@[i]));
    }
}

/// The grandchild `j`, `k` of `e` keeps `signatures_ok`.
pub proof fn lemma_signatures_grandchild(e: SymbolicExpression, j: int, k: int)
    requires
        e.is_list(),
        signatures_ok(e),
        0 <= j < e.list().len(),
        e.list()[j].is_list(),
        0 <= k < e.list()[j].list().len(),
    ensures
        signatures_ok(e.list()[j].list()[k]),
{
    lemma_signatures_list(e);
    lemma_signatures_list(e.list()[j]);
}

/// What `wf_expr` gives of a list expression.
pub proof fn lemma_list_facts(e: SymbolicExpression)
    requires
        e.is_list(),
        wf_expr(e),
    ensures
        shape_ok(e.list()),
        forall|i: int| 0 <= i < e.list().len() ==> decreases_to!(e => #[trigger] e.list()[i]),
        forall|i: int|
            1 <= i < e.list().len() && arg_traversed(e.list(), i) ==> wf_expr(#[trigger] e.list()[i]),
{
    let v = e.expr->List_0;
    assert forall|i: int| 0 <= i < e.list().len() implies decreases_to!(e => #[trigger] e.list()[i]) by {
        assert(decreases_to!(v => v[i]));
    }
    assert forall|i: int|
        1 <= i < e.list().len() && arg_traversed(e.list(), i) implies wf_expr(#[trigger] e.list()[i]) by {
        assert(v@[i] == e.list()[i]);
        assert(wf_expr(v@[i]));
    }
}

/// An element of an element of a list decreases from the list.
pub proof fn lemma_grandchild(e: SymbolicExpression, i: int, j: int)
    requires
        e.is_list(),
        0 <= i < e.list().len(),
        e.list()[i].is_list(),
        0 <= j < e.list()[i].list().len(),
    ensures
        decreases_to!(e => e.list()[i].list()[j]),
{
    let v = e.expr->List_0;
    assert(decreases_to!(v => v[i]));
    let c = e.list()[i];
    let w = c.expr->List_0;
    assert(decreases_to!(w => w[j]));
}

/// The value of a binding of a `let` is well formed and decreases from the `let`.
pub proof fn lemma_let_binding(e: SymbolicExpression, j: int)
    requires
        e.is_list(),
        wf_expr(e),
        list_form(e.list()) == ListForm::Native(NativeFunctions::Let),
        e.list().len() >= 2,
        pairs_ok(e.list()[1]),
        0 <= j < e.list()[1].list().len(),
    ensures
        wf_expr(e.list()[1].list()[j].list()[1]),
        decreases_to!(e => e.list()[1].list()[j].list()[1]),
{
    let v = e.expr->List_0;
    assert(v@ == e.list());
    assert(e.list()[1].list()[j].is_list());
    assert(wf_expr(v@[1].list()[j].list()[1]));
    lemma_list_facts(e);
    assert(decreases_to!(e => e.list()[1]));
    lemma_grandchild(e.list()[1], j, 1);
}

/// The value of an entry of a tuple constructor is well formed and decreases from it.
pub proof fn lemma_tuple_entry(e: SymbolicExpression, i: int)
    requires
        e.is_list(),
        wf_expr(e),
        list_form(e.list()) == ListForm::Native(NativeFunctions::TupleCons),
        1 <= i < e.list().len(),
    ensures
        e.list()[i].is_list(),
        e.list()[i].list().len() >= 2,
        wf_expr(e.list()[i].list()[1]),
        decreases_to!(e => e.list()[i].list()[1]),
{
    let v = e.expr->List_0;
    assert(v@ == e.list());
    lemma_list_facts(e);
    assert(tuple_entries_ok(e.list()));
    assert(e.list()[i].is_list());
    assert(wf_expr(v@[i].list()[1]));
    lemma_grandchild(e, i, 1);
}

impl<'a> SymbolicExpression {
    /// The entries of a tuple constructor `(tuple (name value) ...)`, in order.
    pub fn match_tuple(&'a self) -> (r: Option<Vec<(Option<&'a ClarityName>, &'a SymbolicExpression)>>)
        requires
            wf_expr(*self),
        ensures
            r is Some <==> (self.is_list() && list_form(self.list()) == ListForm::Native(
                NativeFunctions::TupleCons,
            )),
            r matches Some(m) ==> {
                &&& m@.len() == self.list().len() - 1
                &&& forall|j: int|
                    0 <= j < m@.len() ==> {
                        &&& self.list()[j + 1].is_list()
                        &&& self.list()[j + 1].list().len() >= 2
                        &&& *(#[trigger] m@[j]).1 == self.list()[j + 1].list()[1]
                        &&& (m@[j].0 is Some <==> self.list()[j + 1].list()[0].is_atom())
                        &&& (m@[j].0 matches Some(n) ==> *n == self.list()[j + 1].list()[0].atom())
                        &&& wf_expr(*m@[j].1)
                        &&& decreases_to!(self => m@[j].1)
                    }
            },
    {
        let list = match self.match_list() {
            Some(list) => list,
            None => return None,
        };
        if list.len() == 0 {
            return None;
        }
        let function_name = match list[0].match_atom() {
            Some(name) => name,
            None => return None,
        };
        if DefineFunctions::lookup_by_name(function_name.as_str()).is_some() {
            return None;
        }
        match NativeFunctions::lookup_by_name(function_name.as_str()) {
            Some(NativeFunctions::TupleCons) => {},
            _ => return None,
        }
        let mut tuple_map: Vec<(Option<&'a ClarityName>, &'a SymbolicExpression)> = Vec::new();
        let mut i: usize = 1;
        while i < list.len()
            invariant
                1 <= i <= list.len(),
                list@ == self.list(),
                self.is_list(),
                wf_expr(*self),
                list_form(self.list()) == ListForm::Native(NativeFunctions::TupleCons),
                tuple_map@.len() == i - 1,
                forall|j: int|
                    0 <= j < tuple_map@.len() ==> {
                        &&& self.list()[j + 1].is_list()
                        &&& self.list()[j + 1].list().len() >= 2
                        &&& *(#[trigger] tuple_map@[j]).1 == self.list()[j + 1].list()[1]
                        &&& (tuple_map@[j].0 is Some <==> self.list()[j + 1].list()[0].is_atom())
                        &&& (tuple_map@[j].0 matches Some(n) ==> *n == self.list()[j + 1].list()[0].atom())
                        &&& wf_expr(*tuple_map@[j].1)
                        &&& decreases_to!(self => tuple_map@[j].1)
                    },
            decreases list.len() - i,
        {
            proof {
                lemma_tuple_entry(*self, i as int);
            }
            let pair = list[i].match_list().unwrap();
            tuple_map.push((pair[0].match_atom(), &pair[1]));
            i = i + 1;
        }
        Some(tuple_map)
    }

    /// The bindings of a `let`: a list of `(name value)` pairs, in order.
    pub fn match_pairs(&'a self) -> (r: Option<Vec<(&'a ClarityName, &'a SymbolicExpression)>>)
        ensures
            r is Some <==> pairs_ok(*self),
            r matches Some(m) ==> {
                &&& m@.len() == self.list().len()
                &&& forall|j: int|
                    0 <= j < m@.len() ==> {
                        &&& *(#[trigger] m@[j]).0 == self.list()[j].list()[0].atom()
                        &&& *m@[j].1 == self.list()[j].list()[1]
                    }
            },
    {
        let list = match self.match_list() {
            Some(list) => list,
            None => return None,
        };
        let mut tuple_map: Vec<(&'a ClarityName, &'a SymbolicExpression)> = Vec::new();
        let mut i: usize = 0;
        while i < list.len()
            invariant
                0 <= i <= list.len(),
                list@ == self.list(),
                self.is_list(),
                tuple_map@.len() == i,
                forall|j: int|
                    0 <= j < i ==> {
                        &&& (#[trigger] self.list()[j]).is_list()
                        &&& self.list()[j].list().len() == 2
                        &&& self.list()[j].list()[0].is_atom()
                    },
                forall|j: int|
                    0 <= j < tuple_map@.len() ==> {
                        &&& *(#[trigger] tuple_map@[j]).0 == self.list()[j].list()[0].atom()
                        &&& *tuple_map@[j].1 == self.list()[j].list()[1]
                    },
            decreases list.len() - i,
        {
            let pair = match list[i].match_list() {
                Some(pair) => pair,
                None => return None,
            };
            if pair.len() != 2 {
                return None;
            }
            let name = match pair[0].match_atom() {
                Some(name) => name,
                None => return None,
            };
            tuple_map.push((name, &pair[1]));
            i = i + 1;
        }
        Some(tuple_map)
    }
}

/// Whether `list` is a list of `(name type)` pairs, as the parameters of a function.
pub open spec fn typed_vars_ok(list: Seq<SymbolicExpression>) -> bool {
    forall|j: int|
        0 <= j < list.len() ==> {
            &&& (#[trigger] list[j]).is_list()
            &&& list[j].list().len() == 2
            &&& list[j].list()[0].is_atom()
        }
}

/// The parameters `(name type) ...` of a function signature, in order.
pub fn match_pairs<'a>(list: &'a [SymbolicExpression]) -> (r: Option<Vec<TypedVar<'a>>>)
    ensures
        r is Some <==> typed_vars_ok(list@),
        r matches Some(vars) ==> {
            &&& vars@.len() == list@.len()
            &&& forall|j: int|
                0 <= j < vars@.len() ==> {
                    &&& *(#[trigger] vars@[j]).name == list@[j].list()[0].atom()
                    &&& *vars@[j].type_expr == list@[j].list()[1]
                    &&& vars@[j].decl_span == list@[j].list()[0].span
                }
        },
{
    let mut vars: Vec<TypedVar<'a>> = Vec::new();
    let mut i: usize = 0;
    while i < list.len()
        invariant
            0 <= i <= list.len(),
            vars@.len() == i,
            forall|j: int|
                0 <= j < i ==> {
                    &&& (#[trigger] list@[j]).is_list()
                    &&& list@[j].list().len() == 2
                    &&& list@[j].list()[0].is_atom()
                },
            forall|j: int|
                0 <= j < vars@.len() ==> {
                    &&& *(#[trigger] vars@[j]).name == list@[j].list()[0].atom()
                    &&& *vars@[j].type_expr == list@[j].list()[1]
                    &&& vars@[j].decl_span == list@[j].list()[0].span
                },
        decreases list.len() - i,
    {
        let pair = match list[i].match_list() {
            Some(pair) => pair,
            None => return None,
        };
        if pair.len() != 2 {
            return None;
        }
        let name = match pair[0].match_atom() {
            Some(name) => name,
            None => return None,
        };
        vars.push(TypedVar { name, type_expr: &pair[1], decl_span: pair[0].span });
        i = i + 1;
    }
    Some(vars)
}

/// The hooks of a traversal of Clarity syntax trees. Each hook is called when the
/// traversal meets the construct it names, after the construct's sub-expressions have
/// been traversed; a hook that returns `false` stops the traversal. Every hook keeps
/// the implementer's invariant `inv`.
pub trait ASTVisitor<'a>: Sized {
    /// What of the implementer's state no hook changes.
    type Frame;

    /// The invariant that the implementer keeps through a traversal.
    spec fn inv(&self) -> bool;

    /// The part of the implementer's state that every hook leaves as it was.
    spec fn frame(&self) -> Self::Frame;

    /// Whether no hook of the implementer ever stops a traversal: each returns `true`.
    spec fn always_continues() -> bool;

    /// Whether to leave this expression, and everything under it, untraversed.
    fn skip_expr(&mut self, expr: &'a SymbolicExpression) -> (r: bool)
        requires
            old(self).inv(),
        ensures
            final(self).inv(),
            final(self).frame() == old(self).frame(),
    {
        false
    }

    /// Called before the body of a private function is traversed.
    fn enter_define_private(&mut self, expr: &'a SymbolicExpression, name: &'a ClarityName, parameters: &Option<Vec<TypedVar<'a>>>)
        requires
            old(self).inv(),
        ensures
            final(self).inv(),
            final(self).frame() == old(self).frame(),
    {
    }

    /// Called before the body of a read-only function is traversed.
    fn enter_define_read_only(&mut self, expr: &'a SymbolicExpression, name: &'a ClarityName, parameters: &Option<Vec<TypedVar<'a>>>)
        requires
            old(self).inv(),
        ensures
            final(self).inv(),
            final(self).frame() == old(self).frame(),
    {
    }

    /// Called before the body of a public function is traversed.
    fn enter_define_public(&mut self, expr: &'a SymbolicExpression, name: &'a ClarityName, parameters: &Option<Vec<TypedVar<'a>>>)
        requires
            old(self).inv(),
        ensures
            final(self).inv(),
            final(self).frame() == old(self).frame(),
    {
    }

    /// Called when the traversal of a function definition ends.
    fn leave_define_function(&mut self)
        requires
            old(self).inv(),
        ensures
            final(self).inv(),
            final(self).frame() == old(self).frame(),
    {
    }

    /// Called once the condition of an `if` has been traversed, before its branches.
    fn visit_if_condition(&mut self, expr: &'a SymbolicExpression, cond: &'a SymbolicExpression) -> (r: bool)
        requires
            old(self).inv(),
        ensures
            final(self).inv(),
            final(self).frame() == old(self).frame(),
            Self::always_continues() ==> r,
    {
        true
    }

    /// Called after each operand of `and` / `or` has been traversed.
    fn visit_lazy_operand(&mut self, expr: &'a SymbolicExpression, operand: &'a SymbolicExpression) -> (r: bool)
        requires
            old(self).inv(),
        ensures
            final(self).inv(),
            final(self).frame() == old(self).frame(),
            Self::always_continues() ==> r,
    {
        true
    }

    /// Called after the value of each `let` binding has been traversed.
    fn visit_let_binding(&mut self, expr: &'a SymbolicExpression, name: &'a ClarityName, value: &'a SymbolicExpression) -> (r: bool)
        requires
            old(self).inv(),
        ensures
            final(self).inv(),
            final(self).frame() == old(self).frame(),
            Self::always_continues() ==> r,
    {
        true
    }

    fn visit_list(&mut self, expr: &'a SymbolicExpression, list: &'a [SymbolicExpression]) -> (r: bool)
        requires
            old(self).inv(),
        ensures
            final(self).inv(),
            final(self).frame() == old(self).frame(),
            Self::always_continues() ==> r,
    {
        true
    }

    fn visit_atom_value(&mut self, expr: &'a SymbolicExpression, value: &'a Value) -> (r: bool)
        requires
            old(self).inv(),
        ensures
            final(self).inv(),
            final(self).frame() == old(self).frame(),
            Self::always_continues() ==> r,
    {
        true
    }

    fn visit_atom(&mut self, expr: &'a SymbolicExpression, atom: &'a ClarityName) -> (r: bool)
        requires
            old(self).inv(),
        ensures
            final(self).inv(),
            final(self).frame() == old(self).frame(),
            Self::always_continues() ==> r,
    {
        true
    }

    fn visit_literal_value(&mut self, expr: &'a SymbolicExpression, value: &'a Value) -> (r: bool)
        requires
            old(self).inv(),
        ensures
            final(self).inv(),
            final(self).frame() == old(self).frame(),
            Self::always_continues() ==> r,
    {
        true
    }

    fn visit_field(&mut self, expr: &'a SymbolicExpression, field: &'a TraitIdentifier) -> (r: bool)
        requires
            old(self).inv(),
        ensures
            final(self).inv(),
            final(self).frame() == old(self).frame(),
            Self::always_continues() ==> r,
    {
        true
    }

    fn visit_trait_reference(&mut self, expr: &'a SymbolicExpression, name: &'a ClarityName, trait_def: &'a TraitDefinition) -> (r: bool)
        requires
            old(self).inv(),
        ensures
            final(self).inv(),
            final(self).frame() == old(self).frame(),
            Self::always_continues() ==> r,
    {
        true
    }

    fn visit_define_constant(&mut self, expr: &'a SymbolicExpression, name: &'a ClarityName, value: &'a SymbolicExpression) -> (r: bool)
        requires
            old(self).inv(),
        ensures
            final(self).inv(),
            final(self).frame() == old(self).frame(),
            Self::always_continues() ==> r,
    {
        true
    }

    fn visit_define_private(&mut self, expr: &'a SymbolicExpression, name: &'a ClarityName, parameters: Option<Vec<TypedVar<'a>>>, body: &'a SymbolicExpression) -> (r: bool)
        requires
            old(self).inv(),
        ensures
            final(self).inv(),
            final(self).frame() == old(self).frame(),
            Self::always_continues() ==> r,
    {
        true
    }

    fn visit_define_read_only(&mut self, expr: &'a SymbolicExpression, name: &'a ClarityName, parameters: Option<Vec<TypedVar<'a>>>, body: &'a SymbolicExpression) -> (r: bool)
        requires
            old(self).inv(),
        ensures
            final(self).inv(),
            final(self).frame() == old(self).frame(),
            Self::always_continues() ==> r,
    {
        true
    }

    fn visit_define_public(&mut self, expr: &'a SymbolicExpression, name: &'a ClarityName, parameters: Option<Vec<TypedVar<'a>>>, body: &'a SymbolicExpression) -> (r: bool)
        requires
            old(self).inv(),
        ensures
            final(self).inv(),
            final(self).frame() == old(self).frame(),
            Self::always_continues() ==> r,
    {
        true
    }

    fn visit_define_nft(&mut self, expr: &'a SymbolicExpression, name: &'a ClarityName, nft_type: &'a SymbolicExpression) -> (r: bool)
        requires
            old(self).inv(),
        ensures
            final(self).inv(),
            final(self).frame() == old(self).frame(),
            Self::always_continues() ==> r,
    {
        true
    }

    fn visit_define_ft(&mut self, expr: &'a SymbolicExpression, name: &'a ClarityName, supply: Option<&'a SymbolicExpression>) -> (r: bool)
        requires
            old(self).inv(),
        ensures
            final(self).inv(),
            final(self).frame() == old(self).frame(),
            Self::always_continues() ==> r,
    {
        true
    }

    fn visit_define_map(&mut self, expr: &'a SymbolicExpression, name: &'a ClarityName, key_type: &'a SymbolicExpression, value_type: &'a SymbolicExpression) -> (r: bool)
        requires
            old(self).inv(),
        ensures
            final(self).inv(),
            final(self).frame() == old(self).frame(),
            Self::always_continues() ==> r,
    {
        true
    }

    fn visit_define_data_var(&mut self, expr: &'a SymbolicExpression, name: &'a ClarityName, data_type: &'a SymbolicExpression, initial: &'a SymbolicExpression) -> (r: bool)
        requires
            old(self).inv(),
        ensures
            final(self).inv(),
            final(self).frame() == old(self).frame(),
            Self::always_continues() ==> r,
    {
        true
    }

    fn visit_define_trait(&mut self, expr: &'a SymbolicExpression, name: &'a ClarityName, functions: &'a [SymbolicExpression]) -> (r: bool)
        requires
            old(self).inv(),
        ensures
            final(self).inv(),
            final(self).frame() == old(self).frame(),
            Self::always_continues() ==> r,
    {
        true
    }

    fn visit_use_trait(&mut self, expr: &'a SymbolicExpression, name: &'a ClarityName, trait_identifier: &'a TraitIdentifier) -> (r: bool)
        requires
            old(self).inv(),
        ensures
            final(self).inv(),
            final(self).frame() == old(self).frame(),
            Self::always_continues() ==> r,
    {
        true
    }

    fn visit_impl_trait(&mut self, expr: &'a SymbolicExpression, trait_identifier: &'a TraitIdentifier) -> (r: bool)
        requires
            old(self).inv(),
        ensures
            final(self).inv(),
            final(self).frame() == old(self).frame(),
            Self::always_continues() ==> r,
    {
        true
    }

    fn visit_arithmetic(&mut self, expr: &'a SymbolicExpression, func: NativeFunctions, operands: &'a [SymbolicExpression]) -> (r: bool)
        requires
            old(self).inv(),
        ensures
            final(self).inv(),
            final(self).frame() == old(self).frame(),
            Self::always_continues() ==> r,
    {
        true
    }

    fn visit_binary_bitwise(&mut self, expr: &'a SymbolicExpression, func: NativeFunctions, lhs: &'a SymbolicExpression, rhs: &'a SymbolicExpression) -> (r: bool)
        requires
            old(self).inv(),
        ensures
            final(self).inv(),
            final(self).frame() == old(self).frame(),
            Self::always_continues() ==> r,
    {
        true
    }

    fn visit_comparison(&mut self, expr: &'a SymbolicExpression, func: NativeFunctions, operands: &'a [SymbolicExpression]) -> (r: bool)
        requires
            old(self).inv(),
        ensures
            final(self).inv(),
            final(self).frame() == old(self).frame(),
            Self::always_continues() ==> r,
    {
        true
    }

    fn visit_lazy_logical(&mut self, expr: &'a SymbolicExpression, function: NativeFunctions, operands: &'a [SymbolicExpression]) -> (r: bool)
        requires
            old(self).inv(),
        ensures
            final(self).inv(),
            final(self).frame() == old(self).frame(),
            Self::always_continues() ==> r,
    {
        true
    }

    fn visit_logical(&mut self, expr: &'a SymbolicExpression, function: NativeFunctions, operands: &'a [SymbolicExpression]) -> (r: bool)
        requires
            old(self).inv(),
        ensures
            final(self).inv(),
            final(self).frame() == old(self).frame(),
            Self::always_continues() ==> r,
    {
        true
    }

    fn visit_int_cast(&mut self, expr: &'a SymbolicExpression, input: &'a SymbolicExpression) -> (r: bool)
        requires
            old(self).inv(),
        ensures
            final(self).inv(),
            final(self).frame() == old(self).frame(),
            Self::always_continues() ==> r,
    {
        true
    }

    fn visit_if(&mut self, expr: &'a SymbolicExpression, cond: &'a SymbolicExpression, then_expr: &'a SymbolicExpression, else_expr: &'a SymbolicExpression) -> (r: bool)
        requires
            old(self).inv(),
        ensures
            final(self).inv(),
            final(self).frame() == old(self).frame(),
            Self::always_continues() ==> r,
    {
        true
    }

    fn visit_var_get(&mut self, expr: &'a SymbolicExpression, name: &'a ClarityName) -> (r: bool)
        requires
            old(self).inv(),
        ensures
            final(self).inv(),
            final(self).frame() == old(self).frame(),
            Self::always_continues() ==> r,
    {
        true
    }

    fn visit_var_set(&mut self, expr: &'a SymbolicExpression, name: &'a ClarityName, value: &'a SymbolicExpression) -> (r: bool)
        requires
            old(self).inv(),
        ensures
            final(self).inv(),
            final(self).frame() == old(self).frame(),
            Self::always_continues() ==> r,
    {
        true
    }

    fn visit_map_get(&mut self, expr: &'a SymbolicExpression, name: &'a ClarityName, key: &Vec<(Option<&'a ClarityName>, &'a SymbolicExpression)>) -> (r: bool)
        requires
            old(self).inv(),
        ensures
            final(self).inv(),
            final(self).frame() == old(self).frame(),
            Self::always_continues() ==> r,
    {
        true
    }

    fn visit_map_set(&mut self, expr: &'a SymbolicExpression, name: &'a ClarityName, key: &Vec<(Option<&'a ClarityName>, &'a SymbolicExpression)>, value: &Vec<(Option<&'a ClarityName>, &'a SymbolicExpression)>) -> (r: bool)
        requires
            old(self).inv(),
        ensures
            final(self).inv(),
            final(self).frame() == old(self).frame(),
            Self::always_continues() ==> r,
    {
        true
    }

    fn visit_map_insert(&mut self, expr: &'a SymbolicExpression, name: &'a ClarityName, key: &Vec<(Option<&'a ClarityName>, &'a SymbolicExpression)>, value: &Vec<(Option<&'a ClarityName>, &'a SymbolicExpression)>) -> (r: bool)
        requires
            old(self).inv(),
        ensures
            final(self).inv(),
            final(self).frame() == old(self).frame(),
            Self::always_continues() ==> r,
    {
        true
    }

    fn visit_map_delete(&mut self, expr: &'a SymbolicExpression, name: &'a ClarityName, key: &Vec<(Option<&'a ClarityName>, &'a SymbolicExpression)>) -> (r: bool)
        requires
            old(self).inv(),
        ensures
            final(self).inv(),
            final(self).frame() == old(self).frame(),
            Self::always_continues() ==> r,
    {
        true
    }

    fn visit_tuple(&mut self, expr: &'a SymbolicExpression, values: &Vec<(Option<&'a ClarityName>, &'a SymbolicExpression)>) -> (r: bool)
        requires
            old(self).inv(),
        ensures
            final(self).inv(),
            final(self).frame() == old(self).frame(),
            Self::always_continues() ==> r,
    {
        true
    }

    fn visit_get(&mut self, expr: &'a SymbolicExpression, key: &'a ClarityName, tuple: &'a SymbolicExpression) -> (r: bool)
        requires
            old(self).inv(),
        ensures
            final(self).inv(),
            final(self).frame() == old(self).frame(),
            Self::always_continues() ==> r,
    {
        true
    }

    fn visit_merge(&mut self, expr: &'a SymbolicExpression, tuple1: &'a SymbolicExpression, tuple2: &'a SymbolicExpression) -> (r: bool)
        requires
            old(self).inv(),
        ensures
            final(self).inv(),
            final(self).frame() == old(self).frame(),
            Self::always_continues() ==> r,
    {
        true
    }

    fn visit_begin(&mut self, expr: &'a SymbolicExpression, statements: &'a [SymbolicExpression]) -> (r: bool)
        requires
            old(self).inv(),
        ensures
            final(self).inv(),
            final(self).frame() == old(self).frame(),
            Self::always_continues() ==> r,
    {
        true
    }

    fn visit_hash(&mut self, expr: &'a SymbolicExpression, func: NativeFunctions, value: &'a SymbolicExpression) -> (r: bool)
        requires
            old(self).inv(),
        ensures
            final(self).inv(),
            final(self).frame() == old(self).frame(),
            Self::always_continues() ==> r,
    {
        true
    }

    fn visit_secp256k1_recover(&mut self, expr: &'a SymbolicExpression, hash: &'a SymbolicExpression, signature: &'a SymbolicExpression) -> (r: bool)
        requires
            old(self).inv(),
        ensures
            final(self).inv(),
            final(self).frame() == old(self).frame(),
            Self::always_continues() ==> r,
    {
        true
    }

    fn visit_secp256k1_verify(&mut self, expr: &'a SymbolicExpression, hash: &'a SymbolicExpression, signature: &'a SymbolicExpression, public_key: &'a SymbolicExpression) -> (r: bool)
        requires
            old(self).inv(),
        ensures
            final(self).inv(),
            final(self).frame() == old(self).frame(),
            Self::always_continues() ==> r,
    {
        true
    }

    fn visit_print(&mut self, expr: &'a SymbolicExpression, value: &'a SymbolicExpression) -> (r: bool)
        requires
            old(self).inv(),
        ensures
            final(self).inv(),
            final(self).frame() == old(self).frame(),
            Self::always_continues() ==> r,
    {
        true
    }

    fn visit_static_contract_call(&mut self, expr: &'a SymbolicExpression, contract_identifier: &'a QualifiedContractIdentifier, function_name: &'a ClarityName, args: &'a [SymbolicExpression]) -> (r: bool)
        requires
            old(self).inv(),
        ensures
            final(self).inv(),
            final(self).frame() == old(self).frame(),
            Self::always_continues() ==> r,
    {
        true
    }

    fn visit_dynamic_contract_call(&mut self, expr: &'a SymbolicExpression, trait_ref: &'a SymbolicExpression, function_name: &'a ClarityName, args: &'a [SymbolicExpression]) -> (r: bool)
        requires
            old(self).inv(),
        ensures
            final(self).inv(),
            final(self).frame() == old(self).frame(),
            Self::always_continues() ==> r,
    {
        true
    }

    fn visit_as_contract(&mut self, expr: &'a SymbolicExpression, inner: &'a SymbolicExpression) -> (r: bool)
        requires
            old(self).inv(),
        ensures
            final(self).inv(),
            final(self).frame() == old(self).frame(),
            Self::always_continues() ==> r,
    {
        true
    }

    fn visit_contract_of(&mut self, expr: &'a SymbolicExpression, name: &'a SymbolicExpression) -> (r: bool)
        requires
            old(self).inv(),
        ensures
            final(self).inv(),
            final(self).frame() == old(self).frame(),
            Self::always_continues() ==> r,
    {
        true
    }

    fn visit_principal_of(&mut self, expr: &'a SymbolicExpression, public_key: &'a SymbolicExpression) -> (r: bool)
        requires
            old(self).inv(),
        ensures
            final(self).inv(),
            final(self).frame() == old(self).frame(),
            Self::always_continues() ==> r,
    {
        true
    }

    fn visit_at_block(&mut self, expr: &'a SymbolicExpression, block: &'a SymbolicExpression, inner: &'a SymbolicExpression) -> (r: bool)
        requires
            old(self).inv(),
        ensures
            final(self).inv(),
            final(self).frame() == old(self).frame(),
            Self::always_continues() ==> r,
    {
        true
    }

    fn visit_get_block_info(&mut self, expr: &'a SymbolicExpression, prop_name: &'a ClarityName, block: &'a SymbolicExpression) -> (r: bool)
        requires
            old(self).inv(),
        ensures
            final(self).inv(),
            final(self).frame() == old(self).frame(),
            Self::always_continues() ==> r,
    {
        true
    }

    fn visit_err(&mut self, expr: &'a SymbolicExpression, value: &'a SymbolicExpression) -> (r: bool)
        requires
            old(self).inv(),
        ensures
            final(self).inv(),
            final(self).frame() == old(self).frame(),
            Self::always_continues() ==> r,
    {
        true
    }

    fn visit_ok(&mut self, expr: &'a SymbolicExpression, value: &'a SymbolicExpression) -> (r: bool)
        requires
            old(self).inv(),
        ensures
            final(self).inv(),
            final(self).frame() == old(self).frame(),
            Self::always_continues() ==> r,
    {
        true
    }

    fn visit_some(&mut self, expr: &'a SymbolicExpression, value: &'a SymbolicExpression) -> (r: bool)
        requires
            old(self).inv(),
        ensures
            final(self).inv(),
            final(self).frame() == old(self).frame(),
            Self::always_continues() ==> r,
    {
        true
    }

    fn visit_default_to(&mut self, expr: &'a SymbolicExpression, default: &'a SymbolicExpression, value: &'a SymbolicExpression) -> (r: bool)
        requires
            old(self).inv(),
        ensures
            final(self).inv(),
            final(self).frame() == old(self).frame(),
            Self::always_continues() ==> r,
    {
        true
    }

    fn visit_unwrap(&mut self, expr: &'a SymbolicExpression, input: &'a SymbolicExpression, throws: &'a SymbolicExpression) -> (r: bool)
        requires
            old(self).inv(),
        ensures
            final(self).inv(),
            final(self).frame() == old(self).frame(),
            Self::always_continues() ==> r,
    {
        true
    }

    fn visit_unwrap_err(&mut self, expr: &'a SymbolicExpression, input: &'a SymbolicExpression, throws: &'a SymbolicExpression) -> (r: bool)
        requires
            old(self).inv(),
        ensures
            final(self).inv(),
            final(self).frame() == old(self).frame(),
            Self::always_continues() ==> r,
    {
        true
    }

    fn visit_is_ok(&mut self, expr: &'a SymbolicExpression, value: &'a SymbolicExpression) -> (r: bool)
        requires
            old(self).inv(),
        ensures
            final(self).inv(),
            final(self).frame() == old(self).frame(),
            Self::always_continues() ==> r,
    {
        true
    }

    fn visit_is_none(&mut self, expr: &'a SymbolicExpression, value: &'a SymbolicExpression) -> (r: bool)
        requires
            old(self).inv(),
        ensures
            final(self).inv(),
            final(self).frame() == old(self).frame(),
            Self::always_continues() ==> r,
    {
        true
    }

    fn visit_is_err(&mut self, expr: &'a SymbolicExpression, value: &'a SymbolicExpression) -> (r: bool)
        requires
            old(self).inv(),
        ensures
            final(self).inv(),
            final(self).frame() == old(self).frame(),
            Self::always_continues() ==> r,
    {
        true
    }

    fn visit_is_some(&mut self, expr: &'a SymbolicExpression, value: &'a SymbolicExpression) -> (r: bool)
        requires
            old(self).inv(),
        ensures
            final(self).inv(),
            final(self).frame() == old(self).frame(),
            Self::always_continues() ==> r,
    {
        true
    }

    fn visit_filter(&mut self, expr: &'a SymbolicExpression, func: &'a ClarityName, sequence: &'a SymbolicExpression) -> (r: bool)
        requires
            old(self).inv(),
        ensures
            final(self).inv(),
            final(self).frame() == old(self).frame(),
            Self::always_continues() ==> r,
    {
        true
    }

    fn visit_unwrap_panic(&mut self, expr: &'a SymbolicExpression, input: &'a SymbolicExpression) -> (r: bool)
        requires
            old(self).inv(),
        ensures
            final(self).inv(),
            final(self).frame() == old(self).frame(),
            Self::always_continues() ==> r,
    {
        true
    }

    fn visit_unwrap_err_panic(&mut self, expr: &'a SymbolicExpression, input: &'a SymbolicExpression) -> (r: bool)
        requires
            old(self).inv(),
        ensures
            final(self).inv(),
            final(self).frame() == old(self).frame(),
            Self::always_continues() ==> r,
    {
        true
    }

    fn visit_match_option(&mut self, expr: &'a SymbolicExpression, input: &'a SymbolicExpression, some_name: &'a ClarityName, some_branch: &'a SymbolicExpression, none_branch: &'a SymbolicExpression) -> (r: bool)
        requires
            old(self).inv(),
        ensures
            final(self).inv(),
            final(self).frame() == old(self).frame(),
            Self::always_continues() ==> r,
    {
        true
    }

    fn visit_match_response(&mut self, expr: &'a SymbolicExpression, input: &'a SymbolicExpression, ok_name: &'a ClarityName, ok_branch: &'a SymbolicExpression, err_name: &'a ClarityName, err_branch: &'a SymbolicExpression) -> (r: bool)
        requires
            old(self).inv(),
        ensures
            final(self).inv(),
            final(self).frame() == old(self).frame(),
            Self::always_continues() ==> r,
    {
        true
    }

    fn visit_try(&mut self, expr: &'a SymbolicExpression, input: &'a SymbolicExpression) -> (r: bool)
        requires
            old(self).inv(),
        ensures
            final(self).inv(),
            final(self).frame() == old(self).frame(),
            Self::always_continues() ==> r,
    {
        true
    }

    fn visit_asserts(&mut self, expr: &'a SymbolicExpression, cond: &'a SymbolicExpression, thrown: &'a SymbolicExpression) -> (r: bool)
        requires
            old(self).inv(),
        ensures
            final(self).inv(),
            final(self).frame() == old(self).frame(),
            Self::always_continues() ==> r,
    {
        true
    }

    fn visit_stx_burn(&mut self, expr: &'a SymbolicExpression, amount: &'a SymbolicExpression, sender: &'a SymbolicExpression) -> (r: bool)
        requires
            old(self).inv(),
        ensures
            final(self).inv(),
            final(self).frame() == old(self).frame(),
            Self::always_continues() ==> r,
    {
        true
    }

    fn visit_stx_transfer(&mut self, expr: &'a SymbolicExpression, amount: &'a SymbolicExpression, sender: &'a SymbolicExpression, recipient: &'a SymbolicExpression) -> (r: bool)
        requires
            old(self).inv(),
        ensures
            final(self).inv(),
            final(self).frame() == old(self).frame(),
            Self::always_continues() ==> r,
    {
        true
    }

    fn visit_stx_get_balance(&mut self, expr: &'a SymbolicExpression, owner: &'a SymbolicExpression) -> (r: bool)
        requires
            old(self).inv(),
        ensures
            final(self).inv(),
            final(self).frame() == old(self).frame(),
            Self::always_continues() ==> r,
    {
        true
    }

    fn visit_ft_burn(&mut self, expr: &'a SymbolicExpression, token: &'a ClarityName, amount: &'a SymbolicExpression, sender: &'a SymbolicExpression) -> (r: bool)
        requires
            old(self).inv(),
        ensures
            final(self).inv(),
            final(self).frame() == old(self).frame(),
            Self::always_continues() ==> r,
    {
        true
    }

    fn visit_ft_transfer(&mut self, expr: &'a SymbolicExpression, token: &'a ClarityName, amount: &'a SymbolicExpression, sender: &'a SymbolicExpression, recipient: &'a SymbolicExpression) -> (r: bool)
        requires
            old(self).inv(),
        ensures
            final(self).inv(),
            final(self).frame() == old(self).frame(),
            Self::always_continues() ==> r,
    {
        true
    }

    fn visit_ft_get_balance(&mut self, expr: &'a SymbolicExpression, token: &'a ClarityName, owner: &'a SymbolicExpression) -> (r: bool)
        requires
            old(self).inv(),
        ensures
            final(self).inv(),
            final(self).frame() == old(self).frame(),
            Self::always_continues() ==> r,
    {
        true
    }

    fn visit_ft_get_supply(&mut self, expr: &'a SymbolicExpression, token: &'a ClarityName) -> (r: bool)
        requires
            old(self).inv(),
        ensures
            final(self).inv(),
            final(self).frame() == old(self).frame(),
            Self::always_continues() ==> r,
    {
        true
    }

    fn visit_ft_mint(&mut self, expr: &'a SymbolicExpression, token: &'a ClarityName, amount: &'a SymbolicExpression, recipient: &'a SymbolicExpression) -> (r: bool)
        requires
            old(self).inv(),
        ensures
            final(self).inv(),
            final(self).frame() == old(self).frame(),
            Self::always_continues() ==> r,
    {
        true
    }

    fn visit_nft_burn(&mut self, expr: &'a SymbolicExpression, token: &'a ClarityName, identifier: &'a SymbolicExpression, sender: &'a SymbolicExpression) -> (r: bool)
        requires
            old(self).inv(),
        ensures
            final(self).inv(),
            final(self).frame() == old(self).frame(),
            Self::always_continues() ==> r,
    {
        true
    }

    fn visit_nft_transfer(&mut self, expr: &'a SymbolicExpression, token: &'a ClarityName, identifier: &'a SymbolicExpression, sender: &'a SymbolicExpression, recipient: &'a SymbolicExpression) -> (r: bool)
        requires
            old(self).inv(),
        ensures
            final(self).inv(),
            final(self).frame() == old(self).frame(),
            Self::always_continues() ==> r,
    {
        true
    }

    fn visit_nft_mint(&mut self, expr: &'a SymbolicExpression, token: &'a ClarityName, identifier: &'a SymbolicExpression, recipient: &'a SymbolicExpression) -> (r: bool)
        requires
            old(self).inv(),
        ensures
            final(self).inv(),
            final(self).frame() == old(self).frame(),
            Self::always_continues() ==> r,
    {
        true
    }

    fn visit_nft_get_owner(&mut self, expr: &'a SymbolicExpression, token: &'a ClarityName, identifier: &'a SymbolicExpression) -> (r: bool)
        requires
            old(self).inv(),
        ensures
            final(self).inv(),
            final(self).frame() == old(self).frame(),
            Self::always_continues() ==> r,
    {
        true
    }

    fn visit_let(&mut self, expr: &'a SymbolicExpression, bindings: &Vec<(&'a ClarityName, &'a SymbolicExpression)>, body: &'a [SymbolicExpression]) -> (r: bool)
        requires
            old(self).inv(),
        ensures
            final(self).inv(),
            final(self).frame() == old(self).frame(),
            Self::always_continues() ==> r,
    {
        true
    }

    fn visit_map(&mut self, expr: &'a SymbolicExpression, func: &'a ClarityName, sequences: &'a [SymbolicExpression]) -> (r: bool)
        requires
            old(self).inv(),
        ensures
            final(self).inv(),
            final(self).frame() == old(self).frame(),
            Self::always_continues() ==> r,
    {
        true
    }

    fn visit_fold(&mut self, expr: &'a SymbolicExpression, func: &'a ClarityName, sequence: &'a SymbolicExpression, initial: &'a SymbolicExpression) -> (r: bool)
        requires
            old(self).inv(),
        ensures
            final(self).inv(),
            final(self).frame() == old(self).frame(),
            Self::always_continues() ==> r,
    {
        true
    }

    fn visit_append(&mut self, expr: &'a SymbolicExpression, list: &'a SymbolicExpression, value: &'a SymbolicExpression) -> (r: bool)
        requires
            old(self).inv(),
        ensures
            final(self).inv(),
            final(self).frame() == old(self).frame(),
            Self::always_continues() ==> r,
    {
        true
    }

    fn visit_concat(&mut self, expr: &'a SymbolicExpression, lhs: &'a SymbolicExpression, rhs: &'a SymbolicExpression) -> (r: bool)
        requires
            old(self).inv(),
        ensures
            final(self).inv(),
            final(self).frame() == old(self).frame(),
            Self::always_continues() ==> r,
    {
        true
    }

    fn visit_as_max_len(&mut self, expr: &'a SymbolicExpression, sequence: &'a SymbolicExpression, length: u128) -> (r: bool)
        requires
            old(self).inv(),
        ensures
            final(self).inv(),
            final(self).frame() == old(self).frame(),
            Self::always_continues() ==> r,
    {
        true
    }

    fn visit_len(&mut self, expr: &'a SymbolicExpression, sequence: &'a SymbolicExpression) -> (r: bool)
        requires
            old(self).inv(),
        ensures
            final(self).inv(),
            final(self).frame() == old(self).frame(),
            Self::always_continues() ==> r,
    {
        true
    }

    fn visit_element_at(&mut self, expr: &'a SymbolicExpression, sequence: &'a SymbolicExpression, index: &'a SymbolicExpression) -> (r: bool)
        requires
            old(self).inv(),
        ensures
            final(self).inv(),
            final(self).frame() == old(self).frame(),
            Self::always_continues() ==> r,
    {
        true
    }

    fn visit_index_of(&mut self, expr: &'a SymbolicExpression, sequence: &'a SymbolicExpression, item: &'a SymbolicExpression) -> (r: bool)
        requires
            old(self).inv(),
        ensures
            final(self).inv(),
            final(self).frame() == old(self).frame(),
            Self::always_continues() ==> r,
    {
        true
    }

    fn visit_list_cons(&mut self, expr: &'a SymbolicExpression, args: &'a [SymbolicExpression]) -> (r: bool)
        requires
            old(self).inv(),
        ensures
            final(self).inv(),
            final(self).frame() == old(self).frame(),
            Self::always_continues() ==> r,
    {
        true
    }

    fn visit_call_user_defined(&mut self, expr: &'a SymbolicExpression, name: &'a ClarityName, args: &'a [SymbolicExpression]) -> (r: bool)
        requires
            old(self).inv(),
        ensures
            final(self).inv(),
            final(self).frame() == old(self).frame(),
            Self::always_continues() ==> r,
    {
        true
    }

}

/// Traverses the sub-expressions of a `define-constant` construct, then calls its hook.
pub fn traverse_define_constant<'a, V: ASTVisitor<'a>>(v: &mut V, expr: &'a SymbolicExpression, name: &'a ClarityName, value: &'a SymbolicExpression) -> (r: bool)
    requires
        old(v).inv(),
        wf_expr(*value),
        decreases_to!(expr => value),
    ensures
        final(v).inv(),
        final(v).frame() == old(v).frame(),
        V::always_continues() && signatures_ok(*value) ==> r,
    decreases expr, 1nat,
{
    traverse_expr(v, value) && v.visit_define_constant(expr, name, value)
}

/// Traverses the sub-expressions of a `define-private` construct, then calls its hook.
pub fn traverse_define_private<'a, V: ASTVisitor<'a>>(v: &mut V, expr: &'a SymbolicExpression, name: &'a ClarityName, parameters: Option<Vec<TypedVar<'a>>>, body: &'a SymbolicExpression) -> (r: bool)
    requires
        old(v).inv(),
        wf_expr(*body),
        decreases_to!(expr => body),
    ensures
        final(v).inv(),
        final(v).frame() == old(v).frame(),
        V::always_continues() && signatures_ok(*body) ==> r,
    decreases expr, 1nat,
{
    v.enter_define_private(expr, name, &parameters);
    let r = traverse_expr(v, body) && v.visit_define_private(expr, name, parameters, body);
    v.leave_define_function();
    r
}

/// Traverses the sub-expressions of a `define-read-only` construct, then calls its hook.
pub fn traverse_define_read_only<'a, V: ASTVisitor<'a>>(v: &mut V, expr: &'a SymbolicExpression, name: &'a ClarityName, parameters: Option<Vec<TypedVar<'a>>>, body: &'a SymbolicExpression) -> (r: bool)
    requires
        old(v).inv(),
        wf_expr(*body),
        decreases_to!(expr => body),
    ensures
        final(v).inv(),
        final(v).frame() == old(v).frame(),
        V::always_continues() && signatures_ok(*body) ==> r,
    decreases expr, 1nat,
{
    v.enter_define_read_only(expr, name, &parameters);
    let r = traverse_expr(v, body) && v.visit_define_read_only(expr, name, parameters, body);
    v.leave_define_function();
    r
}

/// Traverses the sub-expressions of a `define-public` construct, then calls its hook.
pub fn traverse_define_public<'a, V: ASTVisitor<'a>>(v: &mut V, expr: &'a SymbolicExpression, name: &'a ClarityName, parameters: Option<Vec<TypedVar<'a>>>, body: &'a SymbolicExpression) -> (r: bool)
    requires
        old(v).inv(),
        wf_expr(*body),
        decreases_to!(expr => body),
    ensures
        final(v).inv(),
        final(v).frame() == old(v).frame(),
        V::always_continues() && signatures_ok(*body) ==> r,
    decreases expr, 1nat,
{
    v.enter_define_public(expr, name, &parameters);
    let r = traverse_expr(v, body) && v.visit_define_public(expr, name, parameters, body);
    v.leave_define_function();
    r
}

/// Traverses the sub-expressions of a `define-nft` construct, then calls its hook.
pub fn traverse_define_nft<'a, V: ASTVisitor<'a>>(v: &mut V, expr: &'a SymbolicExpression, name: &'a ClarityName, nft_type: &'a SymbolicExpression) -> (r: bool)
    requires
        old(v).inv(),
    ensures
        final(v).inv(),
        final(v).frame() == old(v).frame(),
        V::always_continues() ==> r,
    decreases expr, 1nat,
{
    v.visit_define_nft(expr, name, nft_type)
}

/// Traverses the sub-expressions of a `define-ft` construct, then calls its hook.
pub fn traverse_define_ft<'a, V: ASTVisitor<'a>>(v: &mut V, expr: &'a SymbolicExpression, name: &'a ClarityName, supply: Option<&'a SymbolicExpression>) -> (r: bool)
    requires
        old(v).inv(),
        supply matches Some(s) ==> wf_expr(*s) && decreases_to!(expr => s),
    ensures
        final(v).inv(),
        final(v).frame() == old(v).frame(),
        V::always_continues() && (supply matches Some(s) ==> signatures_ok(*s)) ==> r,
    decreases expr, 1nat,
{
    if let Some(supply_expr) = supply {
        if !traverse_expr(v, supply_expr) {
            return false;
        }
    }
    v.visit_define_ft(expr, name, supply)
}

/// Traverses the sub-expressions of a `define-map` construct, then calls its hook.
pub fn traverse_define_map<'a, V: ASTVisitor<'a>>(v: &mut V, expr: &'a SymbolicExpression, name: &'a ClarityName, key_type: &'a SymbolicExpression, value_type: &'a SymbolicExpression) -> (r: bool)
    requires
        old(v).inv(),
    ensures
        final(v).inv(),
        final(v).frame() == old(v).frame(),
        V::always_continues() ==> r,
    decreases expr, 1nat,
{
    v.visit_define_map(expr, name, key_type, value_type)
}

/// Traverses the sub-expressions of a `define-data-var` construct, then calls its hook.
pub fn traverse_define_data_var<'a, V: ASTVisitor<'a>>(v: &mut V, expr: &'a SymbolicExpression, name: &'a ClarityName, data_type: &'a SymbolicExpression, initial: &'a SymbolicExpression) -> (r: bool)
    requires
        old(v).inv(),
        wf_expr(*initial),
        decreases_to!(expr => initial),
    ensures
        final(v).inv(),
        final(v).frame() == old(v).frame(),
        V::always_continues() && signatures_ok(*initial) ==> r,
    decreases expr, 1nat,
{
    traverse_expr(v, initial) && v.visit_define_data_var(expr, name, data_type, initial)
}

/// Traverses the sub-expressions of a `define-trait` construct, then calls its hook.
pub fn traverse_define_trait<'a, V: ASTVisitor<'a>>(v: &mut V, expr: &'a SymbolicExpression, name: &'a ClarityName, functions: &'a [SymbolicExpression]) -> (r: bool)
    requires
        old(v).inv(),
    ensures
        final(v).inv(),
        final(v).frame() == old(v).frame(),
        V::always_continues() ==> r,
    decreases expr, 1nat,
{
    v.visit_define_trait(expr, name, functions)
}

/// Traverses the sub-expressions of a `use-trait` construct, then calls its hook.
pub fn traverse_use_trait<'a, V: ASTVisitor<'a>>(v: &mut V, expr: &'a SymbolicExpression, name: &'a ClarityName, trait_identifier: &'a TraitIdentifier) -> (r: bool)
    requires
        old(v).inv(),
    ensures
        final(v).inv(),
        final(v).frame() == old(v).frame(),
        V::always_continues() ==> r,
    decreases expr, 1nat,
{
    v.visit_use_trait(expr, name, trait_identifier)
}

/// Traverses the sub-expressions of a `impl-trait` construct, then calls its hook.
pub fn traverse_impl_trait<'a, V: ASTVisitor<'a>>(v: &mut V, expr: &'a SymbolicExpression, trait_identifier: &'a TraitIdentifier) -> (r: bool)
    requires
        old(v).inv(),
    ensures
        final(v).inv(),
        final(v).frame() == old(v).frame(),
        V::always_continues() ==> r,
    decreases expr, 1nat,
{
    v.visit_impl_trait(expr, trait_identifier)
}

/// Traverses the sub-expressions of a `arithmetic` construct, then calls its hook.
pub fn traverse_arithmetic<'a, V: ASTVisitor<'a>>(v: &mut V, expr: &'a SymbolicExpression, func: NativeFunctions, operands: &'a [SymbolicExpression]) -> (r: bool)
    requires
        old(v).inv(),
        forall|i: int| 0 <= i < operands@.len() ==> wf_expr(#[trigger] operands@[i]) && decreases_to!(expr => operands@[i]),
    ensures
        final(v).inv(),
        final(v).frame() == old(v).frame(),
        V::always_continues() && (forall|i: int| 0 <= i < operands@.len() ==> signatures_ok(#[trigger] operands@[i])) ==> r,
    decreases expr, 1nat,
{
    let mut i: usize = 0;
    while i < operands.len()
        invariant
            v.inv(),
            v.frame() == old(v).frame(),
            forall|j: int| 0 <= j < operands@.len() ==> wf_expr(#[trigger] operands@[j]) && decreases_to!(expr => operands@[j]),
        decreases operands.len() - i,
    {
        if !traverse_expr(v, &operands[i]) {
            return false;
        }
        i = i + 1;
    }
    v.visit_arithmetic(expr, func, operands)
}

/// Traverses the sub-expressions of a `binary-bitwise` construct, then calls its hook.
pub fn traverse_binary_bitwise<'a, V: ASTVisitor<'a>>(v: &mut V, expr: &'a SymbolicExpression, func: NativeFunctions, lhs: &'a SymbolicExpression, rhs: &'a SymbolicExpression) -> (r: bool)
    requires
        old(v).inv(),
        wf_expr(*lhs),
        decreases_to!(expr => lhs),
        wf_expr(*rhs),
        decreases_to!(expr => rhs),
    ensures
        final(v).inv(),
        final(v).frame() == old(v).frame(),
        V::always_continues() && signatures_ok(*lhs) && signatures_ok(*rhs) ==> r,
    decreases expr, 1nat,
{
    traverse_expr(v, lhs) && traverse_expr(v, rhs) && v.visit_binary_bitwise(expr, func, lhs, rhs)
}

/// Traverses the sub-expressions of a `comparison` construct, then calls its hook.
pub fn traverse_comparison<'a, V: ASTVisitor<'a>>(v: &mut V, expr: &'a SymbolicExpression, func: NativeFunctions, operands: &'a [SymbolicExpression]) -> (r: bool)
    requires
        old(v).inv(),
        forall|i: int| 0 <= i < operands@.len() ==> wf_expr(#[trigger] operands@[i]) && decreases_to!(expr => operands@[i]),
    ensures
        final(v).inv(),
        final(v).frame() == old(v).frame(),
        V::always_continues() && (forall|i: int| 0 <= i < operands@.len() ==> signatures_ok(#[trigger] operands@[i])) ==> r,
    decreases expr, 1nat,
{
    let mut i: usize = 0;
    while i < operands.len()
        invariant
            v.inv(),
            v.frame() == old(v).frame(),
            forall|j: int| 0 <= j < operands@.len() ==> wf_expr(#[trigger] operands@[j]) && decreases_to!(expr => operands@[j]),
        decreases operands.len() - i,
    {
        if !traverse_expr(v, &operands[i]) {
            return false;
        }
        i = i + 1;
    }
    v.visit_comparison(expr, func, operands)
}

/// Traverses the sub-expressions of a `lazy-logical` construct, then calls its hook.
pub fn traverse_lazy_logical<'a, V: ASTVisitor<'a>>(v: &mut V, expr: &'a SymbolicExpression, function: NativeFunctions, operands: &'a [SymbolicExpression]) -> (r: bool)
    requires
        old(v).inv(),
        forall|i: int| 0 <= i < operands@.len() ==> wf_expr(#[trigger] operands@[i]) && decreases_to!(expr => operands@[i]),
    ensures
        final(v).inv(),
        final(v).frame() == old(v).frame(),
        V::always_continues() && (forall|i: int| 0 <= i < operands@.len() ==> signatures_ok(#[trigger] operands@[i])) ==> r,
    decreases expr, 1nat,
{
    let mut i: usize = 0;
    while i < operands.len()
        invariant
            v.inv(),
            v.frame() == old(v).frame(),
            forall|j: int| 0 <= j < operands@.len() ==> wf_expr(#[trigger] operands@[j]) && decreases_to!(expr => operands@[j]),
        decreases operands.len() - i,
    {
        if !traverse_expr(v, &operands[i]) {
            return false;
        }
        if !v.visit_lazy_operand(expr, &operands[i]) {
            return false;
        }
        i = i + 1;
    }
    v.visit_lazy_logical(expr, function, operands)
}

/// Traverses the sub-expressions of a `logical` construct, then calls its hook.
pub fn traverse_logical<'a, V: ASTVisitor<'a>>(v: &mut V, expr: &'a SymbolicExpression, function: NativeFunctions, operands: &'a [SymbolicExpression]) -> (r: bool)
    requires
        old(v).inv(),
        forall|i: int| 0 <= i < operands@.len() ==> wf_expr(#[trigger] operands@[i]) && decreases_to!(expr => operands@[i]),
    ensures
        final(v).inv(),
        final(v).frame() == old(v).frame(),
        V::always_continues() && (forall|i: int| 0 <= i < operands@.len() ==> signatures_ok(#[trigger] operands@[i])) ==> r,
    decreases expr, 1nat,
{
    let mut i: usize = 0;
    while i < operands.len()
        invariant
            v.inv(),
            v.frame() == old(v).frame(),
            forall|j: int| 0 <= j < operands@.len() ==> wf_expr(#[trigger] operands@[j]) && decreases_to!(expr => operands@[j]),
        decreases operands.len() - i,
    {
        if !traverse_expr(v, &operands[i]) {
            return false;
        }
        i = i + 1;
    }
    v.visit_logical(expr, function, operands)
}

/// Traverses the sub-expressions of a `int-cast` construct, then calls its hook.
pub fn traverse_int_cast<'a, V: ASTVisitor<'a>>(v: &mut V, expr: &'a SymbolicExpression, input: &'a SymbolicExpression) -> (r: bool)
    requires
        old(v).inv(),
        wf_expr(*input),
        decreases_to!(expr => input),
    ensures
        final(v).inv(),
        final(v).frame() == old(v).frame(),
        V::always_continues() && signatures_ok(*input) ==> r,
    decreases expr, 1nat,
{
    traverse_expr(v, input) && v.visit_int_cast(expr, input)
}

/// Traverses the sub-expressions of a `if` construct, then calls its hook.
pub fn traverse_if<'a, V: ASTVisitor<'a>>(v: &mut V, expr: &'a SymbolicExpression, cond: &'a SymbolicExpression, then_expr: &'a SymbolicExpression, else_expr: &'a SymbolicExpression) -> (r: bool)
    requires
        old(v).inv(),
        wf_expr(*cond),
        decreases_to!(expr => cond),
        wf_expr(*then_expr),
        decreases_to!(expr => then_expr),
        wf_expr(*else_expr),
        decreases_to!(expr => else_expr),
    ensures
        final(v).inv(),
        final(v).frame() == old(v).frame(),
        V::always_continues() && signatures_ok(*cond) && signatures_ok(*then_expr) && signatures_ok(*else_expr) ==> r,
    decreases expr, 1nat,
{
    traverse_expr(v, cond) && v.visit_if_condition(expr, cond) && traverse_expr(v, then_expr)
        && traverse_expr(v, else_expr) && v.visit_if(expr, cond, then_expr, else_expr)
}

/// Traverses the sub-expressions of a `var-get` construct, then calls its hook.
pub fn traverse_var_get<'a, V: ASTVisitor<'a>>(v: &mut V, expr: &'a SymbolicExpression, name: &'a ClarityName) -> (r: bool)
    requires
        old(v).inv(),
    ensures
        final(v).inv(),
        final(v).frame() == old(v).frame(),
        V::always_continues() ==> r,
    decreases expr, 1nat,
{
    v.visit_var_get(expr, name)
}

/// Traverses the sub-expressions of a `var-set` construct, then calls its hook.
pub fn traverse_var_set<'a, V: ASTVisitor<'a>>(v: &mut V, expr: &'a SymbolicExpression, name: &'a ClarityName, value: &'a SymbolicExpression) -> (r: bool)
    requires
        old(v).inv(),
        wf_expr(*value),
        decreases_to!(expr => value),
    ensures
        final(v).inv(),
        final(v).frame() == old(v).frame(),
        V::always_continues() && signatures_ok(*value) ==> r,
    decreases expr, 1nat,
{
    traverse_expr(v, value) && v.visit_var_set(expr, name, value)
}

/// Traverses the sub-expressions of a `map-get` construct, then calls its hook.
pub fn traverse_map_get<'a, V: ASTVisitor<'a>>(v: &mut V, expr: &'a SymbolicExpression, name: &'a ClarityName, key: &Vec<(Option<&'a ClarityName>, &'a SymbolicExpression)>) -> (r: bool)
    requires
        old(v).inv(),
        forall|i: int| 0 <= i < key@.len() ==> wf_expr(*(#[trigger] key@[i]).1) && decreases_to!(expr => key@[i].1),
    ensures
        final(v).inv(),
        final(v).frame() == old(v).frame(),
        V::always_continues() && (forall|i: int| 0 <= i < key@.len() ==> signatures_ok(*(#[trigger] key@[i]).1)) ==> r,
    decreases expr, 1nat,
{
    let mut i: usize = 0;
    while i < key.len()
        invariant
            v.inv(),
            v.frame() == old(v).frame(),
            forall|j: int| 0 <= j < key@.len() ==> wf_expr(*(#[trigger] key@[j]).1) && decreases_to!(expr => key@[j].1),
        decreases key.len() - i,
    {
        if !traverse_expr(v, key[i].1) {
            return false;
        }
        i = i + 1;
    }
    v.visit_map_get(expr, name, key)
}

/// Traverses the sub-expressions of a `map-set` construct, then calls its hook.
pub fn traverse_map_set<'a, V: ASTVisitor<'a>>(v: &mut V, expr: &'a SymbolicExpression, name: &'a ClarityName, key: &Vec<(Option<&'a ClarityName>, &'a SymbolicExpression)>, value: &Vec<(Option<&'a ClarityName>, &'a SymbolicExpression)>) -> (r: bool)
    requires
        old(v).inv(),
        forall|i: int| 0 <= i < key@.len() ==> wf_expr(*(#[trigger] key@[i]).1) && decreases_to!(expr => key@[i].1),
        forall|i: int| 0 <= i < value@.len() ==> wf_expr(*(#[trigger] value@[i]).1) && decreases_to!(expr => value@[i].1),
    ensures
        final(v).inv(),
        final(v).frame() == old(v).frame(),
        V::always_continues() && (forall|i: int| 0 <= i < key@.len() ==> signatures_ok(*(#[trigger] key@[i]).1)) && (forall|i: int| 0 <= i < value@.len() ==> signatures_ok(*(#[trigger] value@[i]).1)) ==> r,
    decreases expr, 1nat,
{
    let mut i: usize = 0;
    while i < key.len()
        invariant
            v.inv(),
            v.frame() == old(v).frame(),
            forall|j: int| 0 <= j < key@.len() ==> wf_expr(*(#[trigger] key@[j]).1) && decreases_to!(expr => key@[j].1),
        decreases key.len() - i,
    {
        if !traverse_expr(v, key[i].1) {
            return false;
        }
        i = i + 1;
    }
    let mut i: usize = 0;
    while i < value.len()
        invariant
            v.inv(),
            v.frame() == old(v).frame(),
            forall|j: int| 0 <= j < value@.len() ==> wf_expr(*(#[trigger] value@[j]).1) && decreases_to!(expr => value@[j].1),
        decreases value.len() - i,
    {
        if !traverse_expr(v, value[i].1) {
            return false;
        }
        i = i + 1;
    }
    v.visit_map_set(expr, name, key, value)
}

/// Traverses the sub-expressions of a `map-insert` construct, then calls its hook.
pub fn traverse_map_insert<'a, V: ASTVisitor<'a>>(v: &mut V, expr: &'a SymbolicExpression, name: &'a ClarityName, key: &Vec<(Option<&'a ClarityName>, &'a SymbolicExpression)>, value: &Vec<(Option<&'a ClarityName>, &'a SymbolicExpression)>) -> (r: bool)
    requires
        old(v).inv(),
        forall|i: int| 0 <= i < key@.len() ==> wf_expr(*(#[trigger] key@[i]).1) && decreases_to!(expr => key@[i].1),
        forall|i: int| 0 <= i < value@.len() ==> wf_expr(*(#[trigger] value@[i]).1) && decreases_to!(expr => value@[i].1),
    ensures
        final(v).inv(),
        final(v).frame() == old(v).frame(),
        V::always_continues() && (forall|i: int| 0 <= i < key@.len() ==> signatures_ok(*(#[trigger] key@[i]).1)) && (forall|i: int| 0 <= i < value@.len() ==> signatures_ok(*(#[trigger] value@[i]).1)) ==> r,
    decreases expr, 1nat,
{
    let mut i: usize = 0;
    while i < key.len()
        invariant
            v.inv(),
            v.frame() == old(v).frame(),
            forall|j: int| 0 <= j < key@.len() ==> wf_expr(*(#[trigger] key@[j]).1) && decreases_to!(expr => key@[j].1),
        decreases key.len() - i,
    {
        if !traverse_expr(v, key[i].1) {
            return false;
        }
        i = i + 1;
    }
    let mut i: usize = 0;
    while i < value.len()
        invariant
            v.inv(),
            v.frame() == old(v).frame(),
            forall|j: int| 0 <= j < value@.len() ==> wf_expr(*(#[trigger] value@[j]).1) && decreases_to!(expr => value@[j].1),
        decreases value.len() - i,
    {
        if !traverse_expr(v, value[i].1) {
            return false;
        }
        i = i + 1;
    }
    v.visit_map_insert(expr, name, key, value)
}

/// Traverses the sub-expressions of a `map-delete` construct, then calls its hook.
pub fn traverse_map_delete<'a, V: ASTVisitor<'a>>(v: &mut V, expr: &'a SymbolicExpression, name: &'a ClarityName, key: &Vec<(Option<&'a ClarityName>, &'a SymbolicExpression)>) -> (r: bool)
    requires
        old(v).inv(),
        forall|i: int| 0 <= i < key@.len() ==> wf_expr(*(#[trigger] key@[i]).1) && decreases_to!(expr => key@[i].1),
    ensures
        final(v).inv(),
        final(v).frame() == old(v).frame(),
        V::always_continues() && (forall|i: int| 0 <= i < key@.len() ==> signatures_ok(*(#[trigger] key@[i]).1)) ==> r,
    decreases expr, 1nat,
{
    let mut i: usize = 0;
    while i < key.len()
        invariant
            v.inv(),
            v.frame() == old(v).frame(),
            forall|j: int| 0 <= j < key@.len() ==> wf_expr(*(#[trigger] key@[j]).1) && decreases_to!(expr => key@[j].1),
        decreases key.len() - i,
    {
        if !traverse_expr(v, key[i].1) {
            return false;
        }
        i = i + 1;
    }
    v.visit_map_delete(expr, name, key)
}

/// Traverses the sub-expressions of a `tuple` construct, then calls its hook.
pub fn traverse_tuple<'a, V: ASTVisitor<'a>>(v: &mut V, expr: &'a SymbolicExpression, values: &Vec<(Option<&'a ClarityName>, &'a SymbolicExpression)>) -> (r: bool)
    requires
        old(v).inv(),
        forall|i: int| 0 <= i < values@.len() ==> wf_expr(*(#[trigger] values@[i]).1) && decreases_to!(expr => values@[i].1),
    ensures
        final(v).inv(),
        final(v).frame() == old(v).frame(),
        V::always_continues() && (forall|i: int| 0 <= i < values@.len() ==> signatures_ok(*(#[trigger] values@[i]).1)) ==> r,
    decreases expr, 1nat,
{
    let mut i: usize = 0;
    while i < values.len()
        invariant
            v.inv(),
            v.frame() == old(v).frame(),
            forall|j: int| 0 <= j < values@.len() ==> wf_expr(*(#[trigger] values@[j]).1) && decreases_to!(expr => values@[j].1),
        decreases values.len() - i,
    {
        if !traverse_expr(v, values[i].1) {
            return false;
        }
        i = i + 1;
    }
    v.visit_tuple(expr, values)
}

/// Traverses the sub-expressions of a `get` construct, then calls its hook.
pub fn traverse_get<'a, V: ASTVisitor<'a>>(v: &mut V, expr: &'a SymbolicExpression, key: &'a ClarityName, tuple: &'a SymbolicExpression) -> (r: bool)
    requires
        old(v).inv(),
        wf_expr(*tuple),
        decreases_to!(expr => tuple),
    ensures
        final(v).inv(),
        final(v).frame() == old(v).frame(),
        V::always_continues() && signatures_ok(*tuple) ==> r,
    decreases expr, 1nat,
{
    traverse_expr(v, tuple) && v.visit_get(expr, key, tuple)
}

/// Traverses the sub-expressions of a `merge` construct, then calls its hook.
pub fn traverse_merge<'a, V: ASTVisitor<'a>>(v: &mut V, expr: &'a SymbolicExpression, tuple1: &'a SymbolicExpression, tuple2: &'a SymbolicExpression) -> (r: bool)
    requires
        old(v).inv(),
        wf_expr(*tuple1),
        decreases_to!(expr => tuple1),
        wf_expr(*tuple2),
        decreases_to!(expr => tuple2),
    ensures
        final(v).inv(),
        final(v).frame() == old(v).frame(),
        V::always_continues() && signatures_ok(*tuple1) && signatures_ok(*tuple2) ==> r,
    decreases expr, 1nat,
{
    traverse_expr(v, tuple1) && traverse_expr(v, tuple2) && v.visit_merge(expr, tuple1, tuple2)
}

/// Traverses the sub-expressions of a `begin` construct, then calls its hook.
pub fn traverse_begin<'a, V: ASTVisitor<'a>>(v: &mut V, expr: &'a SymbolicExpression, statements: &'a [SymbolicExpression]) -> (r: bool)
    requires
        old(v).inv(),
        forall|i: int| 0 <= i < statements@.len() ==> wf_expr(#[trigger] statements@[i]) && decreases_to!(expr => statements@[i]),
    ensures
        final(v).inv(),
        final(v).frame() == old(v).frame(),
        V::always_continues() && (forall|i: int| 0 <= i < statements@.len() ==> signatures_ok(#[trigger] statements@[i])) ==> r,
    decreases expr, 1nat,
{
    let mut i: usize = 0;
    while i < statements.len()
        invariant
            v.inv(),
            v.frame() == old(v).frame(),
            forall|j: int| 0 <= j < statements@.len() ==> wf_expr(#[trigger] statements@[j]) && decreases_to!(expr => statements@[j]),
        decreases statements.len() - i,
    {
        if !traverse_expr(v, &statements[i]) {
            return false;
        }
        i = i + 1;
    }
    v.visit_begin(expr, statements)
}

/// Traverses the sub-expressions of a `hash` construct, then calls its hook.
pub fn traverse_hash<'a, V: ASTVisitor<'a>>(v: &mut V, expr: &'a SymbolicExpression, func: NativeFunctions, value: &'a SymbolicExpression) -> (r: bool)
    requires
        old(v).inv(),
        wf_expr(*value),
        decreases_to!(expr => value),
    ensures
        final(v).inv(),
        final(v).frame() == old(v).frame(),
        V::always_continues() && signatures_ok(*value) ==> r,
    decreases expr, 1nat,
{
    traverse_expr(v, value) && v.visit_hash(expr, func, value)
}

/// Traverses the sub-expressions of a `secp256k1-recover` construct, then calls its hook.
pub fn traverse_secp256k1_recover<'a, V: ASTVisitor<'a>>(v: &mut V, expr: &'a SymbolicExpression, hash: &'a SymbolicExpression, signature: &'a SymbolicExpression) -> (r: bool)
    requires
        old(v).inv(),
        wf_expr(*hash),
        decreases_to!(expr => hash),
        wf_expr(*signature),
        decreases_to!(expr => signature),
    ensures
        final(v).inv(),
        final(v).frame() == old(v).frame(),
        V::always_continues() && signatures_ok(*hash) && signatures_ok(*signature) ==> r,
    decreases expr, 1nat,
{
    traverse_expr(v, hash) && traverse_expr(v, signature) && v.visit_secp256k1_recover(expr, hash, signature)
}

/// Traverses the sub-expressions of a `secp256k1-verify` construct, then calls its hook.
pub fn traverse_secp256k1_verify<'a, V: ASTVisitor<'a>>(v: &mut V, expr: &'a SymbolicExpression, hash: &'a SymbolicExpression, signature: &'a SymbolicExpression, public_key: &'a SymbolicExpression) -> (r: bool)
    requires
        old(v).inv(),
        wf_expr(*hash),
        decreases_to!(expr => hash),
        wf_expr(*signature),
        decreases_to!(expr => signature),
    ensures
        final(v).inv(),
        final(v).frame() == old(v).frame(),
        V::always_continues() && signatures_ok(*hash) && signatures_ok(*signature) ==> r,
    decreases expr, 1nat,
{
    traverse_expr(v, hash) && traverse_expr(v, signature) && v.visit_secp256k1_verify(expr, hash, signature, public_key)
}

/// Traverses the sub-expressions of a `print` construct, then calls its hook.
pub fn traverse_print<'a, V: ASTVisitor<'a>>(v: &mut V, expr: &'a SymbolicExpression, value: &'a SymbolicExpression) -> (r: bool)
    requires
        old(v).inv(),
        wf_expr(*value),
        decreases_to!(expr => value),
    ensures
        final(v).inv(),
        final(v).frame() == old(v).frame(),
        V::always_continues() && signatures_ok(*value) ==> r,
    decreases expr, 1nat,
{
    traverse_expr(v, value) && v.visit_print(expr, value)
}

/// Traverses the sub-expressions of a `static-contract-call` construct, then calls its hook.
pub fn traverse_static_contract_call<'a, V: ASTVisitor<'a>>(v: &mut V, expr: &'a SymbolicExpression, contract_identifier: &'a QualifiedContractIdentifier, function_name: &'a ClarityName, args: &'a [SymbolicExpression]) -> (r: bool)
    requires
        old(v).inv(),
        forall|i: int| 0 <= i < args@.len() ==> wf_expr(#[trigger] args@[i]) && decreases_to!(expr => args@[i]),
    ensures
        final(v).inv(),
        final(v).frame() == old(v).frame(),
        V::always_continues() && (forall|i: int| 0 <= i < args@.len() ==> signatures_ok(#[trigger] args@[i])) ==> r,
    decreases expr, 1nat,
{
    let mut i: usize = 0;
    while i < args.len()
        invariant
            v.inv(),
            v.frame() == old(v).frame(),
            forall|j: int| 0 <= j < args@.len() ==> wf_expr(#[trigger] args@[j]) && decreases_to!(expr => args@[j]),
        decreases args.len() - i,
    {
        if !traverse_expr(v, &args[i]) {
            return false;
        }
        i = i + 1;
    }
    v.visit_static_contract_call(expr, contract_identifier, function_name, args)
}

/// Traverses the sub-expressions of a `dynamic-contract-call` construct, then calls its hook.
pub fn traverse_dynamic_contract_call<'a, V: ASTVisitor<'a>>(v: &mut V, expr: &'a SymbolicExpression, trait_ref: &'a SymbolicExpression, function_name: &'a ClarityName, args: &'a [SymbolicExpression]) -> (r: bool)
    requires
        old(v).inv(),
        wf_expr(*trait_ref),
        decreases_to!(expr => trait_ref),
        forall|i: int| 0 <= i < args@.len() ==> wf_expr(#[trigger] args@[i]) && decreases_to!(expr => args@[i]),
        wf_expr(*trait_ref),
        decreases_to!(expr => trait_ref),
    ensures
        final(v).inv(),
        final(v).frame() == old(v).frame(),
        V::always_continues() && signatures_ok(*trait_ref) && (forall|i: int| 0 <= i < args@.len() ==> signatures_ok(#[trigger] args@[i])) ==> r,
    decreases expr, 1nat,
{
    let _ = traverse_expr(v, trait_ref);
    let mut i: usize = 0;
    while i < args.len()
        invariant
            v.inv(),
            v.frame() == old(v).frame(),
            forall|j: int| 0 <= j < args@.len() ==> wf_expr(#[trigger] args@[j]) && decreases_to!(expr => args@[j]),
        decreases args.len() - i,
    {
        if !traverse_expr(v, &args[i]) {
            return false;
        }
        i = i + 1;
    }
    v.visit_dynamic_contract_call(expr, trait_ref, function_name, args)
}

/// Traverses the sub-expressions of a `as-contract` construct, then calls its hook.
pub fn traverse_as_contract<'a, V: ASTVisitor<'a>>(v: &mut V, expr: &'a SymbolicExpression, inner: &'a SymbolicExpression) -> (r: bool)
    requires
        old(v).inv(),
        wf_expr(*inner),
        decreases_to!(expr => inner),
    ensures
        final(v).inv(),
        final(v).frame() == old(v).frame(),
        V::always_continues() && signatures_ok(*inner) ==> r,
    decreases expr, 1nat,
{
    traverse_expr(v, inner) && v.visit_as_contract(expr, inner)
}

/// Traverses the sub-expressions of a `contract-of` construct, then calls its hook.
pub fn traverse_contract_of<'a, V: ASTVisitor<'a>>(v: &mut V, expr: &'a SymbolicExpression, name: &'a SymbolicExpression) -> (r: bool)
    requires
        old(v).inv(),
        wf_expr(*name),
        decreases_to!(expr => name),
    ensures
        final(v).inv(),
        final(v).frame() == old(v).frame(),
        V::always_continues() && signatures_ok(*name) ==> r,
    decreases expr, 1nat,
{
    traverse_expr(v, name) && v.visit_contract_of(expr, name)
}

/// Traverses the sub-expressions of a `principal-of` construct, then calls its hook.
pub fn traverse_principal_of<'a, V: ASTVisitor<'a>>(v: &mut V, expr: &'a SymbolicExpression, public_key: &'a SymbolicExpression) -> (r: bool)
    requires
        old(v).inv(),
        wf_expr(*public_key),
        decreases_to!(expr => public_key),
    ensures
        final(v).inv(),
        final(v).frame() == old(v).frame(),
        V::always_continues() && signatures_ok(*public_key) ==> r,
    decreases expr, 1nat,
{
    traverse_expr(v, public_key) && v.visit_principal_of(expr, public_key)
}

/// Traverses the sub-expressions of a `at-block` construct, then calls its hook.
pub fn traverse_at_block<'a, V: ASTVisitor<'a>>(v: &mut V, expr: &'a SymbolicExpression, block: &'a SymbolicExpression, inner: &'a SymbolicExpression) -> (r: bool)
    requires
        old(v).inv(),
        wf_expr(*block),
        decreases_to!(expr => block),
        wf_expr(*inner),
        decreases_to!(expr => inner),
    ensures
        final(v).inv(),
        final(v).frame() == old(v).frame(),
        V::always_continues() && signatures_ok(*block) && signatures_ok(*inner) ==> r,
    decreases expr, 1nat,
{
    traverse_expr(v, block) && traverse_expr(v, inner) && v.visit_at_block(expr, block, inner)
}

/// Traverses the sub-expressions of a `get-block-info` construct, then calls its hook.
pub fn traverse_get_block_info<'a, V: ASTVisitor<'a>>(v: &mut V, expr: &'a SymbolicExpression, prop_name: &'a ClarityName, block: &'a SymbolicExpression) -> (r: bool)
    requires
        old(v).inv(),
        wf_expr(*block),
        decreases_to!(expr => block),
    ensures
        final(v).inv(),
        final(v).frame() == old(v).frame(),
        V::always_continues() && signatures_ok(*block) ==> r,
    decreases expr, 1nat,
{
    traverse_expr(v, block) && v.visit_get_block_info(expr, prop_name, block)
}

/// Traverses the sub-expressions of a `err` construct, then calls its hook.
pub fn traverse_err<'a, V: ASTVisitor<'a>>(v: &mut V, expr: &'a SymbolicExpression, value: &'a SymbolicExpression) -> (r: bool)
    requires
        old(v).inv(),
        wf_expr(*value),
        decreases_to!(expr => value),
    ensures
        final(v).inv(),
        final(v).frame() == old(v).frame(),
        V::always_continues() && signatures_ok(*value) ==> r,
    decreases expr, 1nat,
{
    traverse_expr(v, value) && v.visit_err(expr, value)
}

/// Traverses the sub-expressions of a `ok` construct, then calls its hook.
pub fn traverse_ok<'a, V: ASTVisitor<'a>>(v: &mut V, expr: &'a SymbolicExpression, value: &'a SymbolicExpression) -> (r: bool)
    requires
        old(v).inv(),
        wf_expr(*value),
        decreases_to!(expr => value),
    ensures
        final(v).inv(),
        final(v).frame() == old(v).frame(),
        V::always_continues() && signatures_ok(*value) ==> r,
    decreases expr, 1nat,
{
    traverse_expr(v, value) && v.visit_ok(expr, value)
}

/// Traverses the sub-expressions of a `some` construct, then calls its hook.
pub fn traverse_some<'a, V: ASTVisitor<'a>>(v: &mut V, expr: &'a SymbolicExpression, value: &'a SymbolicExpression) -> (r: bool)
    requires
        old(v).inv(),
        wf_expr(*value),
        decreases_to!(expr => value),
    ensures
        final(v).inv(),
        final(v).frame() == old(v).frame(),
        V::always_continues() && signatures_ok(*value) ==> r,
    decreases expr, 1nat,
{
    traverse_expr(v, value) && v.visit_some(expr, value)
}

/// Traverses the sub-expressions of a `default-to` construct, then calls its hook.
pub fn traverse_default_to<'a, V: ASTVisitor<'a>>(v: &mut V, expr: &'a SymbolicExpression, default: &'a SymbolicExpression, value: &'a SymbolicExpression) -> (r: bool)
    requires
        old(v).inv(),
        wf_expr(*default),
        decreases_to!(expr => default),
        wf_expr(*value),
        decreases_to!(expr => value),
    ensures
        final(v).inv(),
        final(v).frame() == old(v).frame(),
        V::always_continues() && signatures_ok(*default) && signatures_ok(*value) ==> r,
    decreases expr, 1nat,
{
    traverse_expr(v, default) && traverse_expr(v, value) && v.visit_default_to(expr, default, value)
}

/// Traverses the sub-expressions of a `unwrap` construct, then calls its hook.
pub fn traverse_unwrap<'a, V: ASTVisitor<'a>>(v: &mut V, expr: &'a SymbolicExpression, input: &'a SymbolicExpression, throws: &'a SymbolicExpression) -> (r: bool)
    requires
        old(v).inv(),
        wf_expr(*input),
        decreases_to!(expr => input),
        wf_expr(*throws),
        decreases_to!(expr => throws),
    ensures
        final(v).inv(),
        final(v).frame() == old(v).frame(),
        V::always_continues() && signatures_ok(*input) && signatures_ok(*throws) ==> r,
    decreases expr, 1nat,
{
    traverse_expr(v, input) && traverse_expr(v, throws) && v.visit_unwrap(expr, input, throws)
}

/// Traverses the sub-expressions of a `unwrap-err` construct, then calls its hook.
pub fn traverse_unwrap_err<'a, V: ASTVisitor<'a>>(v: &mut V, expr: &'a SymbolicExpression, input: &'a SymbolicExpression, throws: &'a SymbolicExpression) -> (r: bool)
    requires
        old(v).inv(),
        wf_expr(*input),
        decreases_to!(expr => input),
        wf_expr(*throws),
        decreases_to!(expr => throws),
    ensures
        final(v).inv(),
        final(v).frame() == old(v).frame(),
        V::always_continues() && signatures_ok(*input) && signatures_ok(*throws) ==> r,
    decreases expr, 1nat,
{
    traverse_expr(v, input) && traverse_expr(v, throws) && v.visit_unwrap_err(expr, input, throws)
}

/// Traverses the sub-expressions of a `is-ok` construct, then calls its hook.
pub fn traverse_is_ok<'a, V: ASTVisitor<'a>>(v: &mut V, expr: &'a SymbolicExpression, value: &'a SymbolicExpression) -> (r: bool)
    requires
        old(v).inv(),
        wf_expr(*value),
        decreases_to!(expr => value),
    ensures
        final(v).inv(),
        final(v).frame() == old(v).frame(),
        V::always_continues() && signatures_ok(*value) ==> r,
    decreases expr, 1nat,
{
    traverse_expr(v, value) && v.visit_is_ok(expr, value)
}

/// Traverses the sub-expressions of a `is-none` construct, then calls its hook.
pub fn traverse_is_none<'a, V: ASTVisitor<'a>>(v: &mut V, expr: &'a SymbolicExpression, value: &'a SymbolicExpression) -> (r: bool)
    requires
        old(v).inv(),
        wf_expr(*value),
        decreases_to!(expr => value),
    ensures
        final(v).inv(),
        final(v).frame() == old(v).frame(),
        V::always_continues() && signatures_ok(*value) ==> r,
    decreases expr, 1nat,
{
    traverse_expr(v, value) && v.visit_is_none(expr, value)
}

/// Traverses the sub-expressions of a `is-err` construct, then calls its hook.
pub fn traverse_is_err<'a, V: ASTVisitor<'a>>(v: &mut V, expr: &'a SymbolicExpression, value: &'a SymbolicExpression) -> (r: bool)
    requires
        old(v).inv(),
        wf_expr(*value),
        decreases_to!(expr => value),
    ensures
        final(v).inv(),
        final(v).frame() == old(v).frame(),
        V::always_continues() && signatures_ok(*value) ==> r,
    decreases expr, 1nat,
{
    traverse_expr(v, value) && v.visit_is_err(expr, value)
}

/// Traverses the sub-expressions of a `is-some` construct, then calls its hook.
pub fn traverse_is_some<'a, V: ASTVisitor<'a>>(v: &mut V, expr: &'a SymbolicExpression, value: &'a SymbolicExpression) -> (r: bool)
    requires
        old(v).inv(),
        wf_expr(*value),
        decreases_to!(expr => value),
    ensures
        final(v).inv(),
        final(v).frame() == old(v).frame(),
        V::always_continues() && signatures_ok(*value) ==> r,
    decreases expr, 1nat,
{
    traverse_expr(v, value) && v.visit_is_some(expr, value)
}

/// Traverses the sub-expressions of a `filter` construct, then calls its hook.
pub fn traverse_filter<'a, V: ASTVisitor<'a>>(v: &mut V, expr: &'a SymbolicExpression, func: &'a ClarityName, sequence: &'a SymbolicExpression) -> (r: bool)
    requires
        old(v).inv(),
        wf_expr(*sequence),
        decreases_to!(expr => sequence),
    ensures
        final(v).inv(),
        final(v).frame() == old(v).frame(),
        V::always_continues() && signatures_ok(*sequence) ==> r,
    decreases expr, 1nat,
{
    traverse_expr(v, sequence) && v.visit_filter(expr, func, sequence)
}

/// Traverses the sub-expressions of a `unwrap-panic` construct, then calls its hook.
pub fn traverse_unwrap_panic<'a, V: ASTVisitor<'a>>(v: &mut V, expr: &'a SymbolicExpression, input: &'a SymbolicExpression) -> (r: bool)
    requires
        old(v).inv(),
        wf_expr(*input),
        decreases_to!(expr => input),
    ensures
        final(v).inv(),
        final(v).frame() == old(v).frame(),
        V::always_continues() && signatures_ok(*input) ==> r,
    decreases expr, 1nat,
{
    traverse_expr(v, input) && v.visit_unwrap_panic(expr, input)
}

/// Traverses the sub-expressions of a `unwrap-err-panic` construct, then calls its hook.
pub fn traverse_unwrap_err_panic<'a, V: ASTVisitor<'a>>(v: &mut V, expr: &'a SymbolicExpression, input: &'a SymbolicExpression) -> (r: bool)
    requires
        old(v).inv(),
        wf_expr(*input),
        decreases_to!(expr => input),
    ensures
        final(v).inv(),
        final(v).frame() == old(v).frame(),
        V::always_continues() && signatures_ok(*input) ==> r,
    decreases expr, 1nat,
{
    traverse_expr(v, input) && v.visit_unwrap_err_panic(expr, input)
}

/// Traverses the sub-expressions of a `match-option` construct, then calls its hook.
pub fn traverse_match_option<'a, V: ASTVisitor<'a>>(v: &mut V, expr: &'a SymbolicExpression, input: &'a SymbolicExpression, some_name: &'a ClarityName, some_branch: &'a SymbolicExpression, none_branch: &'a SymbolicExpression) -> (r: bool)
    requires
        old(v).inv(),
        wf_expr(*input),
        decreases_to!(expr => input),
        wf_expr(*some_branch),
        decreases_to!(expr => some_branch),
        wf_expr(*none_branch),
        decreases_to!(expr => none_branch),
    ensures
        final(v).inv(),
        final(v).frame() == old(v).frame(),
        V::always_continues() && signatures_ok(*input) && signatures_ok(*some_branch) && signatures_ok(*none_branch) ==> r,
    decreases expr, 1nat,
{
    traverse_expr(v, input) && traverse_expr(v, some_branch) && traverse_expr(v, none_branch) && v.visit_match_option(expr, input, some_name, some_branch, none_branch)
}

/// Traverses the sub-expressions of a `match-response` construct, then calls its hook.
pub fn traverse_match_response<'a, V: ASTVisitor<'a>>(v: &mut V, expr: &'a SymbolicExpression, input: &'a SymbolicExpression, ok_name: &'a ClarityName, ok_branch: &'a SymbolicExpression, err_name: &'a ClarityName, err_branch: &'a SymbolicExpression) -> (r: bool)
    requires
        old(v).inv(),
        wf_expr(*input),
        decreases_to!(expr => input),
        wf_expr(*ok_branch),
        decreases_to!(expr => ok_branch),
        wf_expr(*err_branch),
        decreases_to!(expr => err_branch),
    ensures
        final(v).inv(),
        final(v).frame() == old(v).frame(),
        V::always_continues() && signatures_ok(*input) && signatures_ok(*ok_branch) && signatures_ok(*err_branch) ==> r,
    decreases expr, 1nat,
{
    traverse_expr(v, input) && traverse_expr(v, ok_branch) && traverse_expr(v, err_branch) && v.visit_match_response(expr, input, ok_name, ok_branch, err_name, err_branch)
}

/// Traverses the sub-expressions of a `try` construct, then calls its hook.
pub fn traverse_try<'a, V: ASTVisitor<'a>>(v: &mut V, expr: &'a SymbolicExpression, input: &'a SymbolicExpression) -> (r: bool)
    requires
        old(v).inv(),
        wf_expr(*input),
        decreases_to!(expr => input),
    ensures
        final(v).inv(),
        final(v).frame() == old(v).frame(),
        V::always_continues() && signatures_ok(*input) ==> r,
    decreases expr, 1nat,
{
    traverse_expr(v, input) && v.visit_try(expr, input)
}

/// Traverses the sub-expressions of a `asserts` construct, then calls its hook.
pub fn traverse_asserts<'a, V: ASTVisitor<'a>>(v: &mut V, expr: &'a SymbolicExpression, cond: &'a SymbolicExpression, thrown: &'a SymbolicExpression) -> (r: bool)
    requires
        old(v).inv(),
        wf_expr(*cond),
        decreases_to!(expr => cond),
        wf_expr(*thrown),
        decreases_to!(expr => thrown),
    ensures
        final(v).inv(),
        final(v).frame() == old(v).frame(),
        V::always_continues() && signatures_ok(*cond) && signatures_ok(*thrown) ==> r,
    decreases expr, 1nat,
{
    traverse_expr(v, cond) && traverse_expr(v, thrown) && v.visit_asserts(expr, cond, thrown)
}

/// Traverses the sub-expressions of a `stx-burn` construct, then calls its hook.
pub fn traverse_stx_burn<'a, V: ASTVisitor<'a>>(v: &mut V, expr: &'a SymbolicExpression, amount: &'a SymbolicExpression, sender: &'a SymbolicExpression) -> (r: bool)
    requires
        old(v).inv(),
        wf_expr(*amount),
        decreases_to!(expr => amount),
        wf_expr(*sender),
        decreases_to!(expr => sender),
    ensures
        final(v).inv(),
        final(v).frame() == old(v).frame(),
        V::always_continues() && signatures_ok(*amount) && signatures_ok(*sender) ==> r,
    decreases expr, 1nat,
{
    traverse_expr(v, amount) && traverse_expr(v, sender) && v.visit_stx_burn(expr, amount, sender)
}

/// Traverses the sub-expressions of a `stx-transfer` construct, then calls its hook.
pub fn traverse_stx_transfer<'a, V: ASTVisitor<'a>>(v: &mut V, expr: &'a SymbolicExpression, amount: &'a SymbolicExpression, sender: &'a SymbolicExpression, recipient: &'a SymbolicExpression) -> (r: bool)
    requires
        old(v).inv(),
        wf_expr(*amount),
        decreases_to!(expr => amount),
        wf_expr(*sender),
        decreases_to!(expr => sender),
        wf_expr(*recipient),
        decreases_to!(expr => recipient),
    ensures
        final(v).inv(),
        final(v).frame() == old(v).frame(),
        V::always_continues() && signatures_ok(*amount) && signatures_ok(*sender) && signatures_ok(*recipient) ==> r,
    decreases expr, 1nat,
{
    traverse_expr(v, amount) && traverse_expr(v, sender) && traverse_expr(v, recipient) && v.visit_stx_transfer(expr, amount, sender, recipient)
}

/// Traverses the sub-expressions of a `stx-get-balance` construct, then calls its hook.
pub fn traverse_stx_get_balance<'a, V: ASTVisitor<'a>>(v: &mut V, expr: &'a SymbolicExpression, owner: &'a SymbolicExpression) -> (r: bool)
    requires
        old(v).inv(),
        wf_expr(*owner),
        decreases_to!(expr => owner),
    ensures
        final(v).inv(),
        final(v).frame() == old(v).frame(),
        V::always_continues() && signatures_ok(*owner) ==> r,
    decreases expr, 1nat,
{
    traverse_expr(v, owner) && v.visit_stx_get_balance(expr, owner)
}

/// Traverses the sub-expressions of a `ft-burn` construct, then calls its hook.
pub fn traverse_ft_burn<'a, V: ASTVisitor<'a>>(v: &mut V, expr: &'a SymbolicExpression, token: &'a ClarityName, amount: &'a SymbolicExpression, sender: &'a SymbolicExpression) -> (r: bool)
    requires
        old(v).inv(),
        wf_expr(*amount),
        decreases_to!(expr => amount),
        wf_expr(*sender),
        decreases_to!(expr => sender),
    ensures
        final(v).inv(),
        final(v).frame() == old(v).frame(),
        V::always_continues() && signatures_ok(*amount) && signatures_ok(*sender) ==> r,
    decreases expr, 1nat,
{
    traverse_expr(v, amount) && traverse_expr(v, sender) && v.visit_ft_burn(expr, token, amount, sender)
}

/// Traverses the sub-expressions of a `ft-transfer` construct, then calls its hook.
pub fn traverse_ft_transfer<'a, V: ASTVisitor<'a>>(v: &mut V, expr: &'a SymbolicExpression, token: &'a ClarityName, amount: &'a SymbolicExpression, sender: &'a SymbolicExpression, recipient: &'a SymbolicExpression) -> (r: bool)
    requires
        old(v).inv(),
        wf_expr(*amount),
        decreases_to!(expr => amount),
        wf_expr(*sender),
        decreases_to!(expr => sender),
        wf_expr(*recipient),
        decreases_to!(expr => recipient),
    ensures
        final(v).inv(),
        final(v).frame() == old(v).frame(),
        V::always_continues() && signatures_ok(*amount) && signatures_ok(*sender) && signatures_ok(*recipient) ==> r,
    decreases expr, 1nat,
{
    traverse_expr(v, amount) && traverse_expr(v, sender) && traverse_expr(v, recipient) && v.visit_ft_transfer(expr, token, amount, sender, recipient)
}

/// Traverses the sub-expressions of a `ft-get-balance` construct, then calls its hook.
pub fn traverse_ft_get_balance<'a, V: ASTVisitor<'a>>(v: &mut V, expr: &'a SymbolicExpression, token: &'a ClarityName, owner: &'a SymbolicExpression) -> (r: bool)
    requires
        old(v).inv(),
        wf_expr(*owner),
        decreases_to!(expr => owner),
    ensures
        final(v).inv(),
        final(v).frame() == old(v).frame(),
        V::always_continues() && signatures_ok(*owner) ==> r,
    decreases expr, 1nat,
{
    traverse_expr(v, owner) && v.visit_ft_get_balance(expr, token, owner)
}

/// Traverses the sub-expressions of a `ft-get-supply` construct, then calls its hook.
pub fn traverse_ft_get_supply<'a, V: ASTVisitor<'a>>(v: &mut V, expr: &'a SymbolicExpression, token: &'a ClarityName) -> (r: bool)
    requires
        old(v).inv(),
    ensures
        final(v).inv(),
        final(v).frame() == old(v).frame(),
        V::always_continues() ==> r,
    decreases expr, 1nat,
{
    v.visit_ft_get_supply(expr, token)
}

/// Traverses the sub-expressions of a `ft-mint` construct, then calls its hook.
pub fn traverse_ft_mint<'a, V: ASTVisitor<'a>>(v: &mut V, expr: &'a SymbolicExpression, token: &'a ClarityName, amount: &'a SymbolicExpression, recipient: &'a SymbolicExpression) -> (r: bool)
    requires
        old(v).inv(),
        wf_expr(*amount),
        decreases_to!(expr => amount),
        wf_expr(*recipient),
        decreases_to!(expr => recipient),
    ensures
        final(v).inv(),
        final(v).frame() == old(v).frame(),
        V::always_continues() && signatures_ok(*amount) && signatures_ok(*recipient) ==> r,
    decreases expr, 1nat,
{
    traverse_expr(v, amount) && traverse_expr(v, recipient) && v.visit_ft_mint(expr, token, amount, recipient)
}

/// Traverses the sub-expressions of a `nft-burn` construct, then calls its hook.
pub fn traverse_nft_burn<'a, V: ASTVisitor<'a>>(v: &mut V, expr: &'a SymbolicExpression, token: &'a ClarityName, identifier: &'a SymbolicExpression, sender: &'a SymbolicExpression) -> (r: bool)
    requires
        old(v).inv(),
        wf_expr(*identifier),
        decreases_to!(expr => identifier),
        wf_expr(*sender),
        decreases_to!(expr => sender),
    ensures
        final(v).inv(),
        final(v).frame() == old(v).frame(),
        V::always_continues() && signatures_ok(*identifier) && signatures_ok(*sender) ==> r,
    decreases expr, 1nat,
{
    traverse_expr(v, identifier) && traverse_expr(v, sender) && v.visit_nft_burn(expr, token, identifier, sender)
}

/// Traverses the sub-expressions of a `nft-transfer` construct, then calls its hook.
pub fn traverse_nft_transfer<'a, V: ASTVisitor<'a>>(v: &mut V, expr: &'a SymbolicExpression, token: &'a ClarityName, identifier: &'a SymbolicExpression, sender: &'a SymbolicExpression, recipient: &'a SymbolicExpression) -> (r: bool)
    requires
        old(v).inv(),
        wf_expr(*identifier),
        decreases_to!(expr => identifier),
        wf_expr(*sender),
        decreases_to!(expr => sender),
        wf_expr(*recipient),
        decreases_to!(expr => recipient),
    ensures
        final(v).inv(),
        final(v).frame() == old(v).frame(),
        V::always_continues() && signatures_ok(*identifier) && signatures_ok(*sender) && signatures_ok(*recipient) ==> r,
    decreases expr, 1nat,
{
    traverse_expr(v, identifier) && traverse_expr(v, sender) && traverse_expr(v, recipient) && v.visit_nft_transfer(expr, token, identifier, sender, recipient)
}

/// Traverses the sub-expressions of a `nft-mint` construct, then calls its hook.
pub fn traverse_nft_mint<'a, V: ASTVisitor<'a>>(v: &mut V, expr: &'a SymbolicExpression, token: &'a ClarityName, identifier: &'a SymbolicExpression, recipient: &'a SymbolicExpression) -> (r: bool)
    requires
        old(v).inv(),
        wf_expr(*identifier),
        decreases_to!(expr => identifier),
        wf_expr(*recipient),
        decreases_to!(expr => recipient),
    ensures
        final(v).inv(),
        final(v).frame() == old(v).frame(),
        V::always_continues() && signatures_ok(*identifier) && signatures_ok(*recipient) ==> r,
    decreases expr, 1nat,
{
    traverse_expr(v, identifier) && traverse_expr(v, recipient) && v.visit_nft_mint(expr, token, identifier, recipient)
}

/// Traverses the sub-expressions of a `nft-get-owner` construct, then calls its hook.
pub fn traverse_nft_get_owner<'a, V: ASTVisitor<'a>>(v: &mut V, expr: &'a SymbolicExpression, token: &'a ClarityName, identifier: &'a SymbolicExpression) -> (r: bool)
    requires
        old(v).inv(),
        wf_expr(*identifier),
        decreases_to!(expr => identifier),
    ensures
        final(v).inv(),
        final(v).frame() == old(v).frame(),
        V::always_continues() && signatures_ok(*identifier) ==> r,
    decreases expr, 1nat,
{
    traverse_expr(v, identifier) && v.visit_nft_get_owner(expr, token, identifier)
}

/// Traverses the sub-expressions of a `let` construct, then calls its hook.
pub fn traverse_let<'a, V: ASTVisitor<'a>>(v: &mut V, expr: &'a SymbolicExpression, bindings: &Vec<(&'a ClarityName, &'a SymbolicExpression)>, body: &'a [SymbolicExpression]) -> (r: bool)
    requires
        old(v).inv(),
        forall|j: int| 0 <= j < bindings@.len() ==> wf_expr(*(#[trigger] bindings@[j]).1) && decreases_to!(expr => bindings@[j].1),
        forall|i: int| 0 <= i < body@.len() ==> wf_expr(#[trigger] body@[i]) && decreases_to!(expr => body@[i]),
    ensures
        final(v).inv(),
        final(v).frame() == old(v).frame(),
        V::always_continues() && (forall|j: int| 0 <= j < bindings@.len() ==> signatures_ok(*(#[trigger] bindings@[j]).1)) && (forall|i: int| 0 <= i < body@.len() ==> signatures_ok(#[trigger] body@[i])) ==> r,
    decreases expr, 1nat,
{
    let mut i: usize = 0;
    while i < bindings.len()
        invariant
            v.inv(),
            v.frame() == old(v).frame(),
            forall|j: int| 0 <= j < bindings@.len() ==> wf_expr(*(#[trigger] bindings@[j]).1) && decreases_to!(expr => bindings@[j].1),
        decreases bindings.len() - i,
    {
        let (entry_name, entry_value) = bindings[i];
        if !traverse_expr(v, entry_value) {
            return false;
        }
        if !v.visit_let_binding(expr, entry_name, entry_value) {
            return false;
        }
        i = i + 1;
    }
    let mut i: usize = 0;
    while i < body.len()
        invariant
            v.inv(),
            v.frame() == old(v).frame(),
            forall|j: int| 0 <= j < body@.len() ==> wf_expr(#[trigger] body@[j]) && decreases_to!(expr => body@[j]),
        decreases body.len() - i,
    {
        if !traverse_expr(v, &body[i]) {
            return false;
        }
        i = i + 1;
    }
    v.visit_let(expr, bindings, body)
}

/// Traverses the sub-expressions of a `map` construct, then calls its hook.
pub fn traverse_map<'a, V: ASTVisitor<'a>>(v: &mut V, expr: &'a SymbolicExpression, func: &'a ClarityName, sequences: &'a [SymbolicExpression]) -> (r: bool)
    requires
        old(v).inv(),
        forall|i: int| 0 <= i < sequences@.len() ==> wf_expr(#[trigger] sequences@[i]) && decreases_to!(expr => sequences@[i]),
    ensures
        final(v).inv(),
        final(v).frame() == old(v).frame(),
        V::always_continues() && (forall|i: int| 0 <= i < sequences@.len() ==> signatures_ok(#[trigger] sequences@[i])) ==> r,
    decreases expr, 1nat,
{
    let mut i: usize = 0;
    while i < sequences.len()
        invariant
            v.inv(),
            v.frame() == old(v).frame(),
            forall|j: int| 0 <= j < sequences@.len() ==> wf_expr(#[trigger] sequences@[j]) && decreases_to!(expr => sequences@[j]),
        decreases sequences.len() - i,
    {
        if !traverse_expr(v, &sequences[i]) {
            return false;
        }
        i = i + 1;
    }
    v.visit_map(expr, func, sequences)
}

/// Traverses the sub-expressions of a `fold` construct, then calls its hook.
pub fn traverse_fold<'a, V: ASTVisitor<'a>>(v: &mut V, expr: &'a SymbolicExpression, func: &'a ClarityName, sequence: &'a SymbolicExpression, initial: &'a SymbolicExpression) -> (r: bool)
    requires
        old(v).inv(),
        wf_expr(*sequence),
        decreases_to!(expr => sequence),
        wf_expr(*initial),
        decreases_to!(expr => initial),
    ensures
        final(v).inv(),
        final(v).frame() == old(v).frame(),
        V::always_continues() && signatures_ok(*sequence) && signatures_ok(*initial) ==> r,
    decreases expr, 1nat,
{
    traverse_expr(v, sequence) && traverse_expr(v, initial) && v.visit_fold(expr, func, sequence, initial)
}

/// Traverses the sub-expressions of a `append` construct, then calls its hook.
pub fn traverse_append<'a, V: ASTVisitor<'a>>(v: &mut V, expr: &'a SymbolicExpression, list: &'a SymbolicExpression, value: &'a SymbolicExpression) -> (r: bool)
    requires
        old(v).inv(),
        wf_expr(*list),
        decreases_to!(expr => list),
        wf_expr(*value),
        decreases_to!(expr => value),
    ensures
        final(v).inv(),
        final(v).frame() == old(v).frame(),
        V::always_continues() && signatures_ok(*list) && signatures_ok(*value) ==> r,
    decreases expr, 1nat,
{
    traverse_expr(v, list) && traverse_expr(v, value) && v.visit_append(expr, list, value)
}

/// Traverses the sub-expressions of a `concat` construct, then calls its hook.
pub fn traverse_concat<'a, V: ASTVisitor<'a>>(v: &mut V, expr: &'a SymbolicExpression, lhs: &'a SymbolicExpression, rhs: &'a SymbolicExpression) -> (r: bool)
    requires
        old(v).inv(),
        wf_expr(*lhs),
        decreases_to!(expr => lhs),
        wf_expr(*rhs),
        decreases_to!(expr => rhs),
    ensures
        final(v).inv(),
        final(v).frame() == old(v).frame(),
        V::always_continues() && signatures_ok(*lhs) && signatures_ok(*rhs) ==> r,
    decreases expr, 1nat,
{
    traverse_expr(v, lhs) && traverse_expr(v, rhs) && v.visit_concat(expr, lhs, rhs)
}

/// Traverses the sub-expressions of a `as-max-len` construct, then calls its hook.
pub fn traverse_as_max_len<'a, V: ASTVisitor<'a>>(v: &mut V, expr: &'a SymbolicExpression, sequence: &'a SymbolicExpression, length: u128) -> (r: bool)
    requires
        old(v).inv(),
        wf_expr(*sequence),
        decreases_to!(expr => sequence),
    ensures
        final(v).inv(),
        final(v).frame() == old(v).frame(),
        V::always_continues() && signatures_ok(*sequence) ==> r,
    decreases expr, 1nat,
{
    traverse_expr(v, sequence) && v.visit_as_max_len(expr, sequence, length)
}

/// Traverses the sub-expressions of a `len` construct, then calls its hook.
pub fn traverse_len<'a, V: ASTVisitor<'a>>(v: &mut V, expr: &'a SymbolicExpression, sequence: &'a SymbolicExpression) -> (r: bool)
    requires
        old(v).inv(),
        wf_expr(*sequence),
        decreases_to!(expr => sequence),
    ensures
        final(v).inv(),
        final(v).frame() == old(v).frame(),
        V::always_continues() && signatures_ok(*sequence) ==> r,
    decreases expr, 1nat,
{
    traverse_expr(v, sequence) && v.visit_len(expr, sequence)
}

/// Traverses the sub-expressions of a `element-at` construct, then calls its hook.
pub fn traverse_element_at<'a, V: ASTVisitor<'a>>(v: &mut V, expr: &'a SymbolicExpression, sequence: &'a SymbolicExpression, index: &'a SymbolicExpression) -> (r: bool)
    requires
        old(v).inv(),
        wf_expr(*sequence),
        decreases_to!(expr => sequence),
        wf_expr(*index),
        decreases_to!(expr => index),
    ensures
        final(v).inv(),
        final(v).frame() == old(v).frame(),
        V::always_continues() && signatures_ok(*sequence) && signatures_ok(*index) ==> r,
    decreases expr, 1nat,
{
    traverse_expr(v, sequence) && traverse_expr(v, index) && v.visit_element_at(expr, sequence, index)
}

/// Traverses the sub-expressions of a `index-of` construct, then calls its hook.
pub fn traverse_index_of<'a, V: ASTVisitor<'a>>(v: &mut V, expr: &'a SymbolicExpression, sequence: &'a SymbolicExpression, item: &'a SymbolicExpression) -> (r: bool)
    requires
        old(v).inv(),
        wf_expr(*sequence),
        decreases_to!(expr => sequence),
        wf_expr(*item),
        decreases_to!(expr => item),
    ensures
        final(v).inv(),
        final(v).frame() == old(v).frame(),
        V::always_continues() && signatures_ok(*sequence) && signatures_ok(*item) ==> r,
    decreases expr, 1nat,
{
    traverse_expr(v, sequence) && traverse_expr(v, item) && v.visit_element_at(expr, sequence, item)
}

/// Traverses the sub-expressions of a `list-cons` construct, then calls its hook.
pub fn traverse_list_cons<'a, V: ASTVisitor<'a>>(v: &mut V, expr: &'a SymbolicExpression, args: &'a [SymbolicExpression]) -> (r: bool)
    requires
        old(v).inv(),
        forall|i: int| 0 <= i < args@.len() ==> wf_expr(#[trigger] args@[i]) && decreases_to!(expr => args@[i]),
    ensures
        final(v).inv(),
        final(v).frame() == old(v).frame(),
        V::always_continues() && (forall|i: int| 0 <= i < args@.len() ==> signatures_ok(#[trigger] args@[i])) ==> r,
    decreases expr, 1nat,
{
    let mut i: usize = 0;
    while i < args.len()
        invariant
            v.inv(),
            v.frame() == old(v).frame(),
            forall|j: int| 0 <= j < args@.len() ==> wf_expr(#[trigger] args@[j]) && decreases_to!(expr => args@[j]),
        decreases args.len() - i,
    {
        if !traverse_expr(v, &args[i]) {
            return false;
        }
        i = i + 1;
    }
    v.visit_list_cons(expr, args)
}

/// Traverses the sub-expressions of a `call-user-defined` construct, then calls its hook.
pub fn traverse_call_user_defined<'a, V: ASTVisitor<'a>>(v: &mut V, expr: &'a SymbolicExpression, name: &'a ClarityName, args: &'a [SymbolicExpression]) -> (r: bool)
    requires
        old(v).inv(),
        forall|i: int| 0 <= i < args@.len() ==> wf_expr(#[trigger] args@[i]) && decreases_to!(expr => args@[i]),
    ensures
        final(v).inv(),
        final(v).frame() == old(v).frame(),
        V::always_continues() && (forall|i: int| 0 <= i < args@.len() ==> signatures_ok(#[trigger] args@[i])) ==> r,
    decreases expr, 1nat,
{
    let mut i: usize = 0;
    while i < args.len()
        invariant
            v.inv(),
            v.frame() == old(v).frame(),
            forall|j: int| 0 <= j < args@.len() ==> wf_expr(#[trigger] args@[j]) && decreases_to!(expr => args@[j]),
        decreases args.len() - i,
    {
        if !traverse_expr(v, &args[i]) {
            return false;
        }
        i = i + 1;
    }
    v.visit_call_user_defined(expr, name, args)
}

/// Traverses an expression: lists by their form, other nodes by their hook.
pub fn traverse_expr<'a, V: ASTVisitor<'a>>(v: &mut V, expr: &'a SymbolicExpression) -> (r: bool)
    requires
        old(v).inv(),
        wf_expr(*expr),
    ensures
        final(v).inv(),
        final(v).frame() == old(v).frame(),
        V::always_continues() && signatures_ok(*expr) ==> r,
    decreases expr, 4nat,
{
    if v.skip_expr(expr) {
        return true;
    }
    match &expr.expr {
        SymbolicExpressionType::AtomValue(value) => v.visit_atom_value(expr, value),
        SymbolicExpressionType::Atom(name) => v.visit_atom(expr, name),
        SymbolicExpressionType::List(exprs) => traverse_list(v, expr, exprs),
        SymbolicExpressionType::LiteralValue(value) => v.visit_literal_value(expr, value),
        SymbolicExpressionType::Field(field) => v.visit_field(expr, field),
        SymbolicExpressionType::TraitReference(name, trait_def) => v.visit_trait_reference(
            expr,
            name,
            trait_def,
        ),
    }
}

/// Traverses a list by its form (definition, built-in call or user call), then calls
/// `visit_list` if the traversal went on.
pub fn traverse_list<'a, V: ASTVisitor<'a>>(
    v: &mut V,
    expr: &'a SymbolicExpression,
    list: &'a Vec<SymbolicExpression>,
) -> (r: bool)
    requires
        old(v).inv(),
        wf_expr(*expr),
        expr.expr == SymbolicExpressionType::List(*list),
    ensures
        final(v).inv(),
        final(v).frame() == old(v).frame(),
        V::always_continues() && signatures_ok(*expr) ==> r,
    decreases expr, 3nat,
{
    let mut rv = true;
    if list.len() > 0 {
        if let Some(function_name) = list[0].match_atom() {
            let (_, args) = list.as_slice().split_at(1);
            if let Some(define_function) = DefineFunctions::lookup_by_name(function_name.as_str()) {
                rv = traverse_define_form(v, expr, define_function, list, args);
            } else if let Some(native_function) = NativeFunctions::lookup_by_name(
                function_name.as_str(),
            ) {
                rv = traverse_native_form(v, expr, native_function, list, args);
            } else {
                proof {
                    lemma_list_facts(*expr);
                    assert forall|i: int| 0 <= i < args@.len() implies wf_expr(#[trigger] args@[i])
                        && decreases_to!(expr => args@[i]) by {
                        assert(args@[i] == expr.list()[i + 1]);
                        assert(arg_traversed(expr.list(), i + 1));
                    }
                }
                rv = traverse_call_user_defined(v, expr, function_name, args);
            }
        }
    }
    rv && v.visit_list(expr, list.as_slice())
}

/// Traverses a definition by its kind.
pub fn traverse_define_form<'a, V: ASTVisitor<'a>>(
    v: &mut V,
    expr: &'a SymbolicExpression,
    define_function: DefineFunctions,
    list: &'a Vec<SymbolicExpression>,
    args: &'a [SymbolicExpression],
) -> (r: bool)
    requires
        old(v).inv(),
        wf_expr(*expr),
        expr.expr == SymbolicExpressionType::List(*list),
        list@.len() >= 1,
        args@ == list@.subrange(1, list@.len() as int),
        list_form(list@) == ListForm::Define(define_function),
    ensures
        final(v).inv(),
        final(v).frame() == old(v).frame(),
        V::always_continues() && signatures_ok(*expr) ==> r,
    decreases expr, 2nat,
{
    proof {
        lemma_list_facts(*expr);
        assert forall|i: int| 0 <= i < args@.len() implies #[trigger] args@[i] == list@[i + 1]
            && decreases_to!(expr => args@[i]) by {}
    }
    match define_function {
        DefineFunctions::Constant => {
            proof { assert(arg_traversed(list@, 2)); }
            traverse_define_constant(v, expr, args[0].match_atom().unwrap(), &args[1])
        },
        DefineFunctions::PrivateFunction => {
            match args[0].match_list() {
                Some(signature) => {
                    proof {
                        assert(arg_traversed(list@, 2));
                    }
                    let name = signature[0].match_atom().unwrap();
                    let params = if signature.len() == 1 {
                        None
                    } else {
                        let (_, rest) = signature.as_slice().split_at(1);
                        match_pairs(rest)
                    };
                    let _ = traverse_define_private(v, expr, name, params, &args[1]);
                },
                _ => {},
            }
            true
        },
        DefineFunctions::ReadOnlyFunction => match args[0].match_list() {
            Some(signature) => {
                proof {
                    assert(arg_traversed(list@, 2));
                }
                let name = signature[0].match_atom().unwrap();
                let params = if signature.len() == 1 {
                    None
                } else {
                    let (_, rest) = signature.as_slice().split_at(1);
                    match_pairs(rest)
                };
                traverse_define_read_only(v, expr, name, params, &args[1])
            },
            _ => false,
        },
        DefineFunctions::PublicFunction => match args[0].match_list() {
            Some(signature) => {
                proof {
                    assert(arg_traversed(list@, 2));
                }
                let name = signature[0].match_atom().unwrap();
                let params = if signature.len() == 1 {
                    None
                } else {
                    let (_, rest) = signature.as_slice().split_at(1);
                    match_pairs(rest)
                };
                traverse_define_public(v, expr, name, params, &args[1])
            },
            _ => false,
        },
        DefineFunctions::NonFungibleToken => traverse_define_nft(
            v,
            expr,
            args[0].match_atom().unwrap(),
            &args[1],
        ),
        DefineFunctions::FungibleToken => {
            proof { assert(arg_traversed(list@, 2)); }
            let supply = if args.len() > 1 {
                Some(&args[1])
            } else {
                None
            };
            traverse_define_ft(v, expr, args[0].match_atom().unwrap(), supply)
        },
        DefineFunctions::DataMap => traverse_define_map(
            v,
            expr,
            args[0].match_atom().unwrap(),
            &args[1],
            &args[2],
        ),
        DefineFunctions::PersistedVariable => {
            proof { assert(arg_traversed(list@, 3)); }
            traverse_define_data_var(v, expr, args[0].match_atom().unwrap(), &args[1], &args[2])
        },
        DefineFunctions::Trait => {
            let (_, functions) = args.split_at(1);
            traverse_define_trait(v, expr, args[0].match_atom().unwrap(), functions)
        },
        DefineFunctions::UseTrait => traverse_use_trait(
            v,
            expr,
            args[0].match_atom().unwrap(),
            args[1].match_field().unwrap(),
        ),
        DefineFunctions::ImplTrait => traverse_impl_trait(v, expr, args[0].match_field().unwrap()),
    }
}

/// The key or value of a map operation: the entries of a tuple constructor, or else the
/// expression itself, unnamed.
pub fn map_entries<'a>(arg: &'a SymbolicExpression) -> (r: Vec<(Option<&'a ClarityName>, &'a SymbolicExpression)>)
    requires
        wf_expr(*arg),
    ensures
        forall|j: int|
            0 <= j < r@.len() ==> wf_expr(*(#[trigger] r@[j]).1) && (*r@[j].1 == *arg
                || decreases_to!(arg => r@[j].1)),
        (arg.is_list() && list_form(arg.list()) == ListForm::Native(NativeFunctions::TupleCons))
            ==> {
            &&& r@.len() == arg.list().len() - 1
            &&& forall|j: int|
                0 <= j < r@.len() ==> {
                    &&& *(#[trigger] r@[j]).1 == arg.list()[j + 1].list()[1]
                    &&& (r@[j].0 is Some <==> arg.list()[j + 1].list()[0].is_atom())
                    &&& (r@[j].0 matches Some(n) ==> *n == arg.list()[j + 1].list()[0].atom())
                }
        },
        !(arg.is_list() && list_form(arg.list()) == ListForm::Native(NativeFunctions::TupleCons))
            ==> r@.len() == 1 && r@[0].0 is None && *r@[0].1 == *arg,
        signatures_ok(*arg) ==> forall|j: int| 0 <= j < r@.len() ==> signatures_ok(*(#[trigger] r@[j]).1),
{
    match arg.match_tuple() {
        Some(entries) => {
            proof {
                if signatures_ok(*arg) {
                    assert forall|j: int| 0 <= j < entries@.len() implies signatures_ok(*(#[trigger] entries@[j]).1) by {
                        lemma_signatures_grandchild(*arg, j + 1, 1);
                    }
                }
            }
            entries
        },
        None => {
            let mut single = Vec::new();
            single.push((None, arg));
            single
        },
    }
}

/// Traverses a call of a built-in function by the function.
pub fn traverse_native_form<'a, V: ASTVisitor<'a>>(
    v: &mut V,
    expr: &'a SymbolicExpression,
    native_function: NativeFunctions,
    list: &'a Vec<SymbolicExpression>,
    args: &'a [SymbolicExpression],
) -> (r: bool)
    requires
        old(v).inv(),
        wf_expr(*expr),
        expr.expr == SymbolicExpressionType::List(*list),
        list@.len() >= 1,
        args@ == list@.subrange(1, list@.len() as int),
        list_form(list@) == ListForm::Native(native_function),
    ensures
        final(v).inv(),
        final(v).frame() == old(v).frame(),
        V::always_continues() && signatures_ok(*expr) ==> r,
    decreases expr, 2nat,
{
    proof {
        lemma_list_facts(*expr);
        assert forall|i: int| 0 <= i < args@.len() implies #[trigger] args@[i] == list@[i + 1]
            && decreases_to!(expr => args@[i]) by {}
    }
    proof {
        if signatures_ok(*expr) {
            lemma_signatures_list(*expr);
            assert forall|i: int| 0 <= i < args@.len() implies signatures_ok(#[trigger] args@[i]) by {
                assert(args@[i] == list@[i + 1]);
            }
        }
    }
    match native_function {
        NativeFunctions::Add | NativeFunctions::Subtract | NativeFunctions::Multiply | NativeFunctions::Divide | NativeFunctions::Modulo | NativeFunctions::Power | NativeFunctions::Sqrti | NativeFunctions::Log2 => {
            proof {
                assert forall|i: int| 0 <= i < args@.len() implies wf_expr(#[trigger] args@[i])
                    && decreases_to!(expr => args@[i]) by {
                    assert(arg_traversed(list@, i + 1));
                }
            }
            traverse_arithmetic(v, expr, native_function, args)
        },
        NativeFunctions::BitwiseXOR => {
            proof {
                assert(arg_traversed(list@, 1));
                assert(arg_traversed(list@, 2));
            }
            traverse_binary_bitwise(v, expr, native_function, &args[0], &args[1])
        },
        NativeFunctions::CmpLess | NativeFunctions::CmpLeq | NativeFunctions::CmpGreater | NativeFunctions::CmpGeq | NativeFunctions::Equals => {
            proof {
                assert forall|i: int| 0 <= i < args@.len() implies wf_expr(#[trigger] args@[i])
                    && decreases_to!(expr => args@[i]) by {
                    assert(arg_traversed(list@, i + 1));
                }
            }
            traverse_comparison(v, expr, native_function, args)
        },
        NativeFunctions::And | NativeFunctions::Or => {
            proof {
                assert forall|i: int| 0 <= i < args@.len() implies wf_expr(#[trigger] args@[i])
                    && decreases_to!(expr => args@[i]) by {
                    assert(arg_traversed(list@, i + 1));
                }
            }
            traverse_lazy_logical(v, expr, native_function, args)
        },
        NativeFunctions::Not => {
            proof {
                assert forall|i: int| 0 <= i < args@.len() implies wf_expr(#[trigger] args@[i])
                    && decreases_to!(expr => args@[i]) by {
                    assert(arg_traversed(list@, i + 1));
                }
            }
            traverse_logical(v, expr, native_function, args)
        },
        NativeFunctions::ToInt | NativeFunctions::ToUInt => {
            proof {
                assert(arg_traversed(list@, 1));
            }
            traverse_int_cast(v, expr, &args[0])
        },
        NativeFunctions::If => {
            proof {
                assert(arg_traversed(list@, 1));
                assert(arg_traversed(list@, 2));
                assert(arg_traversed(list@, 3));
            }
            traverse_if(v, expr, &args[0], &args[1], &args[2])
        },
        NativeFunctions::Let => {
            let bindings = args[0].match_pairs().unwrap();
            proof {
                assert forall|j: int| 0 <= j < bindings@.len() implies wf_expr(*(#[trigger] bindings@[j]).1)
                    && decreases_to!(expr => bindings@[j].1) by {
                    lemma_let_binding(*expr, j);
                }
                if signatures_ok(*expr) {
                    assert forall|j: int| 0 <= j < bindings@.len() implies signatures_ok(*(#[trigger] bindings@[j]).1) by {
                        lemma_signatures_grandchild(list@[1], j, 1);
                    }
                }
            }
            let (_, body) = args.split_at(1);
            proof {
                assert forall|i: int| 0 <= i < body@.len() implies wf_expr(#[trigger] body@[i])
                    && decreases_to!(expr => body@[i]) by {
                    assert(body@[i] == list@[i + 2]);
                    assert(arg_traversed(list@, i + 2));
                }
            }
            traverse_let(v, expr, &bindings, body)
        },
        NativeFunctions::ElementAt => {
            proof {
                assert(arg_traversed(list@, 1));
                assert(arg_traversed(list@, 2));
            }
            traverse_element_at(v, expr, &args[0], &args[1])
        },
        NativeFunctions::IndexOf => {
            proof {
                assert(arg_traversed(list@, 1));
                assert(arg_traversed(list@, 2));
            }
            traverse_index_of(v, expr, &args[0], &args[1])
        },
        NativeFunctions::SequenceMap => {
            let (_, sequences) = args.split_at(1);
            proof {
                assert forall|i: int| 0 <= i < sequences@.len() implies wf_expr(#[trigger] sequences@[i])
                    && decreases_to!(expr => sequences@[i]) by {
                    assert(sequences@[i] == list@[i + 2]);
                    assert(arg_traversed(list@, i + 2));
                }
            }
            traverse_map(v, expr, args[0].match_atom().unwrap(), sequences)
        },
        NativeFunctions::Fold => {
            proof {
                assert(arg_traversed(list@, 2));
                assert(arg_traversed(list@, 3));
            }
            traverse_fold(v, expr, args[0].match_atom().unwrap(), &args[1], &args[2])
        },
        NativeFunctions::Append => {
            proof {
                assert(arg_traversed(list@, 1));
                assert(arg_traversed(list@, 2));
            }
            traverse_append(v, expr, &args[0], &args[1])
        },
        NativeFunctions::Concat => {
            proof {
                assert(arg_traversed(list@, 1));
                assert(arg_traversed(list@, 2));
            }
            traverse_concat(v, expr, &args[0], &args[1])
        },
        NativeFunctions::AsMaxLen => {
            proof {
                assert(arg_traversed(list@, 1));
            }
            match args[1].match_literal_value() {
            Some(Value::UInt(length)) => traverse_as_max_len(v, expr, &args[0], *length),
            _ => true,
        }
        },
        NativeFunctions::Len => {
            proof {
                assert(arg_traversed(list@, 1));
            }
            traverse_len(v, expr, &args[0])
        },
        NativeFunctions::ListCons => {
            proof {
                assert forall|i: int| 0 <= i < args@.len() implies wf_expr(#[trigger] args@[i])
                    && decreases_to!(expr => args@[i]) by {
                    assert(arg_traversed(list@, i + 1));
                }
            }
            traverse_list_cons(v, expr, args)
        },
        NativeFunctions::FetchVar => traverse_var_get(v, expr, args[0].match_atom().unwrap()),
        NativeFunctions::SetVar => {
            proof {
                assert(arg_traversed(list@, 2));
            }
            traverse_var_set(v, expr, args[0].match_atom().unwrap(), &args[1])
        },
        NativeFunctions::FetchEntry => {
            proof {
                assert(arg_traversed(list@, 2));
            }
            {
            let key = map_entries(&args[1]);
            traverse_map_get(v, expr, args[0].match_atom().unwrap(), &key)
        }
        },
        NativeFunctions::SetEntry => {
            proof {
                assert(arg_traversed(list@, 2));
                assert(arg_traversed(list@, 3));
            }
            {
            let key = map_entries(&args[1]);
            let value = map_entries(&args[2]);
            traverse_map_set(v, expr, args[0].match_atom().unwrap(), &key, &value)
        }
        },
        NativeFunctions::InsertEntry => {
            proof {
                assert(arg_traversed(list@, 2));
                assert(arg_traversed(list@, 3));
            }
            {
            let key = map_entries(&args[1]);
            let value = map_entries(&args[2]);
            traverse_map_insert(v, expr, args[0].match_atom().unwrap(), &key, &value)
        }
        },
        NativeFunctions::DeleteEntry => {
            proof {
                assert(arg_traversed(list@, 2));
            }
            {
            let key = map_entries(&args[1]);
            traverse_map_delete(v, expr, args[0].match_atom().unwrap(), &key)
        }
        },
        NativeFunctions::TupleCons => {
            let values = expr.match_tuple().unwrap();
            proof {
                if signatures_ok(*expr) {
                    assert forall|j: int| 0 <= j < values@.len() implies signatures_ok(*(#[trigger] values@[j]).1) by {
                        lemma_signatures_grandchild(*expr, j + 1, 1);
                    }
                }
            }
            traverse_tuple(v, expr, &values)
        },
        NativeFunctions::TupleGet => {
            proof {
                assert(arg_traversed(list@, 2));
            }
            traverse_get(v, expr, args[0].match_atom().unwrap(), &args[1])
        },
        NativeFunctions::TupleMerge => {
            proof {
                assert(arg_traversed(list@, 1));
                assert(arg_traversed(list@, 2));
            }
            traverse_merge(v, expr, &args[0], &args[1])
        },
        NativeFunctions::Begin => {
            proof {
                assert forall|i: int| 0 <= i < args@.len() implies wf_expr(#[trigger] args@[i])
                    && decreases_to!(expr => args@[i]) by {
                    assert(arg_traversed(list@, i + 1));
                }
            }
            traverse_begin(v, expr, args)
        },
        NativeFunctions::Hash160 | NativeFunctions::Sha256 | NativeFunctions::Sha512 | NativeFunctions::Sha512Trunc256 | NativeFunctions::Keccak256 => {
            proof {
                assert(arg_traversed(list@, 1));
            }
            traverse_hash(v, expr, native_function, &args[0])
        },
        NativeFunctions::Secp256k1Recover => {
            proof {
                assert(arg_traversed(list@, 1));
                assert(arg_traversed(list@, 2));
            }
            traverse_secp256k1_recover(v, expr, &args[0], &args[1])
        },
        NativeFunctions::Secp256k1Verify => {
            proof {
                assert(arg_traversed(list@, 1));
                assert(arg_traversed(list@, 2));
            }
            traverse_secp256k1_verify(v, expr, &args[0], &args[1], &args[2])
        },
        NativeFunctions::Print => {
            proof {
                assert(arg_traversed(list@, 1));
            }
            traverse_print(v, expr, &args[0])
        },
        NativeFunctions::ContractCall => {
            let function_name = args[1].match_atom().unwrap();
            let (_, call_args) = args.split_at(2);
            proof {
                assert forall|i: int| 0 <= i < call_args@.len() implies wf_expr(#[trigger] call_args@[i])
                    && decreases_to!(expr => call_args@[i]) by {
                    assert(call_args@[i] == list@[i + 3]);
                    assert(arg_traversed(list@, i + 3));
                }
            }
            match args[0].match_contract_literal() {
                Some(contract_identifier) => traverse_static_contract_call(
                    v,
                    expr,
                    contract_identifier,
                    function_name,
                    call_args,
                ),
                None => traverse_dynamic_contract_call(v, expr, &args[0], function_name, call_args),
            }
        },
        NativeFunctions::AsContract => {
            proof {
                assert(arg_traversed(list@, 1));
            }
            traverse_as_contract(v, expr, &args[0])
        },
        NativeFunctions::ContractOf => {
            proof {
                assert(arg_traversed(list@, 1));
            }
            traverse_contract_of(v, expr, &args[0])
        },
        NativeFunctions::PrincipalOf => {
            proof {
                assert(arg_traversed(list@, 1));
            }
            traverse_principal_of(v, expr, &args[0])
        },
        NativeFunctions::AtBlock => {
            proof {
                assert(arg_traversed(list@, 1));
                assert(arg_traversed(list@, 2));
            }
            traverse_at_block(v, expr, &args[0], &args[1])
        },
        NativeFunctions::GetBlockInfo => {
            proof {
                assert(arg_traversed(list@, 2));
            }
            traverse_get_block_info(v, expr, args[0].match_atom().unwrap(), &args[1])
        },
        NativeFunctions::ConsError => {
            proof {
                assert(arg_traversed(list@, 1));
            }
            traverse_err(v, expr, &args[0])
        },
        NativeFunctions::ConsOkay => {
            proof {
                assert(arg_traversed(list@, 1));
            }
            traverse_ok(v, expr, &args[0])
        },
        NativeFunctions::ConsSome => {
            proof {
                assert(arg_traversed(list@, 1));
            }
            traverse_some(v, expr, &args[0])
        },
        NativeFunctions::DefaultTo => {
            proof {
                assert(arg_traversed(list@, 1));
                assert(arg_traversed(list@, 2));
            }
            traverse_default_to(v, expr, &args[0], &args[1])
        },
        NativeFunctions::Asserts => {
            proof {
                assert(arg_traversed(list@, 1));
                assert(arg_traversed(list@, 2));
            }
            traverse_asserts(v, expr, &args[0], &args[1])
        },
        NativeFunctions::UnwrapRet => {
            proof {
                assert(arg_traversed(list@, 1));
                assert(arg_traversed(list@, 2));
            }
            traverse_unwrap(v, expr, &args[0], &args[1])
        },
        NativeFunctions::Unwrap => {
            proof {
                assert(arg_traversed(list@, 1));
            }
            traverse_unwrap_panic(v, expr, &args[0])
        },
        NativeFunctions::IsOkay => {
            proof {
                assert(arg_traversed(list@, 1));
            }
            traverse_is_ok(v, expr, &args[0])
        },
        NativeFunctions::IsNone => {
            proof {
                assert(arg_traversed(list@, 1));
            }
            traverse_is_none(v, expr, &args[0])
        },
        NativeFunctions::IsErr => {
            proof {
                assert(arg_traversed(list@, 1));
            }
            traverse_is_err(v, expr, &args[0])
        },
        NativeFunctions::IsSome => {
            proof {
                assert(arg_traversed(list@, 1));
            }
            traverse_is_some(v, expr, &args[0])
        },
        NativeFunctions::Filter => {
            proof {
                assert(arg_traversed(list@, 2));
            }
            traverse_filter(v, expr, args[0].match_atom().unwrap(), &args[1])
        },
        NativeFunctions::UnwrapErrRet | NativeFunctions::UnwrapErr => {
            proof {
                assert(arg_traversed(list@, 1));
                assert(arg_traversed(list@, 2));
            }
            traverse_unwrap_err(v, expr, &args[0], &args[1])
        },
        NativeFunctions::Match => if args.len() == 4 {
            proof {
                assert(arg_traversed(list@, 3));
                assert(arg_traversed(list@, 4));
            }
            traverse_match_option(
                v,
                expr,
                &args[0],
                args[1].match_atom().unwrap(),
                &args[2],
                &args[3],
            )
        } else {
            proof {
                assert(arg_traversed(list@, 3));
                assert(arg_traversed(list@, 5));
            }
            traverse_match_response(
                v,
                expr,
                &args[0],
                args[1].match_atom().unwrap(),
                &args[2],
                args[3].match_atom().unwrap(),
                &args[4],
            )
        },
        NativeFunctions::TryRet => {
            proof {
                assert(arg_traversed(list@, 1));
            }
            traverse_try(v, expr, &args[0])
        },
        NativeFunctions::StxBurn => {
            proof {
                assert(arg_traversed(list@, 1));
                assert(arg_traversed(list@, 2));
            }
            traverse_stx_burn(v, expr, &args[0], &args[1])
        },
        NativeFunctions::StxTransfer => {
            proof {
                assert(arg_traversed(list@, 1));
                assert(arg_traversed(list@, 2));
                assert(arg_traversed(list@, 3));
            }
            traverse_stx_transfer(v, expr, &args[0], &args[1], &args[2])
        },
        NativeFunctions::GetStxBalance => {
            proof {
                assert(arg_traversed(list@, 1));
            }
            traverse_stx_get_balance(v, expr, &args[0])
        },
        NativeFunctions::BurnToken => {
            proof {
                assert(arg_traversed(list@, 2));
                assert(arg_traversed(list@, 3));
            }
            traverse_ft_burn(v, expr, args[0].match_atom().unwrap(), &args[1], &args[2])
        },
        NativeFunctions::TransferToken => {
            proof {
                assert(arg_traversed(list@, 2));
                assert(arg_traversed(list@, 3));
                assert(arg_traversed(list@, 4));
            }
            traverse_ft_transfer(v, expr, args[0].match_atom().unwrap(), &args[1], &args[2], &args[3])
        },
        NativeFunctions::GetTokenBalance => {
            proof {
                assert(arg_traversed(list@, 2));
            }
            traverse_ft_get_balance(v, expr, args[0].match_atom().unwrap(), &args[1])
        },
        NativeFunctions::GetTokenSupply => traverse_ft_get_supply(v, expr, args[0].match_atom().unwrap()),
        NativeFunctions::MintToken => {
            proof {
                assert(arg_traversed(list@, 2));
                assert(arg_traversed(list@, 3));
            }
            traverse_ft_mint(v, expr, args[0].match_atom().unwrap(), &args[1], &args[2])
        },
        NativeFunctions::BurnAsset => {
            proof {
                assert(arg_traversed(list@, 2));
                assert(arg_traversed(list@, 3));
            }
            traverse_nft_burn(v, expr, args[0].match_atom().unwrap(), &args[1], &args[2])
        },
        NativeFunctions::TransferAsset => {
            proof {
                assert(arg_traversed(list@, 2));
                assert(arg_traversed(list@, 3));
                assert(arg_traversed(list@, 4));
            }
            traverse_nft_transfer(v, expr, args[0].match_atom().unwrap(), &args[1], &args[2], &args[3])
        },
        NativeFunctions::MintAsset => {
            proof {
                assert(arg_traversed(list@, 2));
                assert(arg_traversed(list@, 3));
            }
            traverse_nft_mint(v, expr, args[0].match_atom().unwrap(), &args[1], &args[2])
        },
        NativeFunctions::GetAssetOwner => {
            proof {
                assert(arg_traversed(list@, 2));
            }
            traverse_nft_get_owner(v, expr, args[0].match_atom().unwrap(), &args[1])
        },
    }
}

/// Traverses a sequence of top-level expressions, in order, until a hook stops it.
pub fn traverse<'a, V: ASTVisitor<'a>>(visitor: &mut V, exprs: &'a [SymbolicExpression]) -> (r: bool)
    requires
        old(visitor).inv(),
        forall|i: int| 0 <= i < exprs@.len() ==> wf_expr(#[trigger] exprs@[i]),
    ensures
        final(visitor).inv(),
        final(visitor).frame() == old(visitor).frame(),
        V::always_continues() && (forall|i: int| 0 <= i < exprs@.len() ==> signatures_ok(#[trigger] exprs@[i])) ==> r,
{
    let mut i: usize = 0;
    while i < exprs.len()
        invariant
            visitor.inv(),
            visitor.frame() == old(visitor).frame(),
            forall|j: int| 0 <= j < exprs@.len() ==> wf_expr(#[trigger] exprs@[j]),
        decreases exprs.len() - i,
    {
        if !traverse_expr(visitor, &exprs[i]) {
            return false;
        }
        i = i + 1;
    }
    true
}
} // verus!
