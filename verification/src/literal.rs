use vstd::prelude::*;
use crate::representations::{ClarityName, SymbolicExpression, SymbolicExpressionType, Value, copy_string, str_equals};
use crate::text::{str_lt, string_lt, lemma_str_lt_transitive, lemma_str_lt_irreflexive};
use crate::value_codec::copy_bytes;

verus! {

broadcast use vstd::std_specs::vec::group_vec_axioms;

/// Whether `v` is the value that the literal `x` writes: an integer, a boolean, a buffer or
/// an ASCII string with the same contents.
pub open spec fn same_scalar(x: Value, v: Value) -> bool {
    match x {
        Value::Int(a) => v == Value::Int(a),
        Value::UInt(a) => v == Value::UInt(a),
        Value::Bool(a) => v == Value::Bool(a),
        Value::Buffer(a) => v is Buffer && v->Buffer_0@ == a@,
        Value::StringAscii(a) => v is StringAscii && v->StringAscii_0@ == a@,
        _ => false,
    }
}

/// Whether the names of `fields` strictly increase.
pub open spec fn names_increasing(fields: Seq<(ClarityName, Value)>) -> bool {
    forall|j: int, k: int| 0 <= j < k < fields.len() ==> str_lt(#[trigger] fields[j].0@, #[trigger] fields[k].0@)
}

/// Whether `p` is a pair `(name x)` of a tuple literal, with `name` its first part.
pub open spec fn pair_named(p: SymbolicExpression, name: Seq<char>) -> bool {
    &&& p.expr is List
    &&& p.list().len() == 2
    &&& p.list()[0].is_atom()
    &&& p.list()[0].atom()@ == name
}

/// The first place, from 1 and before `k`, of a pair of `xs` named `name`; -1 where there is
/// none.
pub open spec fn pair_of(xs: Seq<SymbolicExpression>, name: Seq<char>, k: int) -> int
    decreases k,
{
    if k <= 1 || k > xs.len() {
        -1
    } else {
        let r = pair_of(xs, name, k - 1);
        if r != -1 {
            r
        } else if pair_named(xs[k - 1], name) {
            k - 1
        } else {
            -1
        }
    }
}

/// Whether the field `f` is written by the pair at `k` of `xs`, the first named as it is
/// before `lim`.
pub open spec fn field_from(xs: Seq<SymbolicExpression>, f: (ClarityName, Value), k: int, lim: int) -> bool {
    1 <= k < lim && lim <= xs.len() && pair_of(xs, f.0@, lim) == k && pair_named(xs[k], f.0@) && evaluates(xs[k].expr->List_0@[1], f.1)
}

/// Where `pair_of` finds a place, a pair of that name stands there; where it finds none,
/// no pair before `k` has that name.
pub proof fn lemma_pair_of(xs: Seq<SymbolicExpression>, name: Seq<char>, k: int)
    requires
        k <= xs.len(),
    ensures
        pair_of(xs, name, k) != -1 ==> 1 <= pair_of(xs, name, k) < k && pair_named(xs[pair_of(xs, name, k)], name),
        pair_of(xs, name, k) == -1 ==> forall|m: int| 1 <= m < k ==> !pair_named(#[trigger] xs[m], name),
    decreases k,
{
    if k > 1 {
        lemma_pair_of(xs, name, k - 1);
    }
}

/// Whether the expression `e` writes the value `v` out of literals alone: a literal
/// integer, boolean, buffer or ASCII string; `true`, `false` or `none`; `(some x)`,
/// `(ok x)`, `(err x)` and `(list x ..)` of such expressions; a tuple `(tuple (name x) ..)`,
/// whose fields are those pairs in increasing order of their names, no name twice.
pub open spec fn evaluates(e: SymbolicExpression, v: Value) -> bool
    decreases e,
{
    match e.expr {
        SymbolicExpressionType::LiteralValue(x) => same_scalar(x, v),
        SymbolicExpressionType::Atom(n) => (n@ == "true"@ && v == Value::Bool(true)) || (n@ == "false"@ && v
            == Value::Bool(false)) || (n@ == "none"@ && v == Value::OptionalNone),
        SymbolicExpressionType::List(xs) => {
            &&& xs@.len() >= 1
            &&& xs@[0].is_atom()
            &&& {
                let h = xs@[0].atom()@;
                if h == "some"@ {
                    xs@.len() == 2 && v is OptionalSome && evaluates(xs@[1], *v->OptionalSome_0)
                } else if h == "ok"@ {
                    xs@.len() == 2 && v is ResponseOk && evaluates(xs@[1], *v->ResponseOk_0)
                } else if h == "err"@ {
                    xs@.len() == 2 && v is ResponseErr && evaluates(xs@[1], *v->ResponseErr_0)
                } else if h == "list"@ {
                    &&& v is List
                    &&& v->List_0@.len() == xs@.len() - 1
                    &&& forall|i: int| 1 <= i < xs@.len() ==> evaluates(#[trigger] xs@[i], v->List_0@[i - 1])
                } else if h == "tuple"@ {
                    &&& v is Tuple
                    &&& v->Tuple_0@.len() == xs@.len() - 1
                    &&& names_increasing(v->Tuple_0@)
                    &&& forall|j: int|
                        #![trigger v->Tuple_0@[j]]
                        0 <= j < v->Tuple_0@.len() ==> {
                            let k = pair_of(xs@, v->Tuple_0@[j].0@, xs@.len() as int);
                            1 <= k < xs@.len() && pair_named(xs@[k], v->Tuple_0@[j].0@) && evaluates(xs@[k].expr->List_0@[1], v->Tuple_0@[j].1)
                        }
                } else {
                    false
                }
            }
        },
        _ => false,
    }
}

fn scalar_copy(x: &Value) -> (r: Option<Value>)
    ensures
        r matches Some(v) ==> same_scalar(*x, v),
{
    match x {
        Value::Int(a) => Some(Value::Int(*a)),
        Value::UInt(a) => Some(Value::UInt(*a)),
        Value::Bool(a) => Some(Value::Bool(*a)),
        Value::Buffer(b) => {
            let c = copy_bytes(b, 0, b.len());
            proof {
                assert(c@ =~= b@);
            }
            Some(Value::Buffer(c))
        },
        Value::StringAscii(b) => {
            let c = copy_bytes(b, 0, b.len());
            proof {
                assert(c@ =~= b@);
            }
            Some(Value::StringAscii(c))
        },
        _ => None,
    }
}

/// The value that `e` writes out of literals alone, as `evaluates` says; `None` where `e` is
/// no such expression.
pub fn eval_literal(e: &SymbolicExpression) -> (r: Option<Value>)
    ensures
        r matches Some(v) ==> evaluates(*e, v),
    decreases e,
{
    match &e.expr {
        SymbolicExpressionType::LiteralValue(x) => scalar_copy(x),
        SymbolicExpressionType::Atom(n) => {
            if str_equals(n.as_str(), "true") {
                Some(Value::Bool(true))
            } else if str_equals(n.as_str(), "false") {
                Some(Value::Bool(false))
            } else if str_equals(n.as_str(), "none") {
                Some(Value::OptionalNone)
            } else {
                None
            }
        },
        SymbolicExpressionType::List(xs) => {
            if xs.len() == 0 {
                return None;
            }
            let h = match xs[0].match_atom() {
                Some(h) => h,
                None => return None,
            };
            if str_equals(h.as_str(), "some") || str_equals(h.as_str(), "ok") || str_equals(h.as_str(), "err") {
                if xs.len() != 2 {
                    return None;
                }
                proof {
                    assert(decreases_to!(*e => e.expr));
                    assert(decreases_to!(e.expr => e.expr->List_0));
                    assert(decreases_to!(e.expr->List_0 => e.expr->List_0@));
                    assert(decreases_to!(e.expr->List_0@ => e.expr->List_0@[1]));
                }
                let x = match eval_literal(&xs[1]) {
                    Some(x) => x,
                    None => return None,
                };
                if str_equals(h.as_str(), "some") {
                    Some(Value::OptionalSome(Box::new(x)))
                } else if str_equals(h.as_str(), "ok") {
                    Some(Value::ResponseOk(Box::new(x)))
                } else {
                    Some(Value::ResponseErr(Box::new(x)))
                }
            } else if str_equals(h.as_str(), "list") {
                let mut items: Vec<Value> = Vec::new();
                let mut i: usize = 1;
                while i < xs.len()
                    invariant
                        1 <= i <= xs@.len(),
                        e.expr == SymbolicExpressionType::List(*xs),
                        items@.len() == i - 1,
                        forall|k: int| 1 <= k < i ==> evaluates(#[trigger] xs@[k], items@[k - 1]),
                    decreases xs.len() - i,
                {
                    proof {
                        assert(decreases_to!(*e => e.expr));
                        assert(decreases_to!(e.expr => e.expr->List_0));
                        assert(decreases_to!(e.expr->List_0 => e.expr->List_0@));
                        assert(decreases_to!(e.expr->List_0@ => e.expr->List_0@[i as int]));
                    }
                    let x = match eval_literal(&xs[i]) {
                        Some(x) => x,
                        None => return None,
                    };
                    items.push(x);
                    i = i + 1;
                }
                let v = Value::List(items);
                proof {
                    assert(forall|k: int| 1 <= k < xs@.len() ==> evaluates(#[trigger] xs@[k], v->List_0@[k - 1]));
                }
                Some(v)
            } else if str_equals(h.as_str(), "tuple") {
                let mut fields: Vec<(ClarityName, Value)> = Vec::new();
                let mut i: usize = 1;
                let ghost mut src: Seq<int> = Seq::empty();
                let ghost mut dst: Seq<int> = seq![0int];
                while i < xs.len()
                    invariant
                        1 <= i <= xs@.len(),
                        e.expr == SymbolicExpressionType::List(*xs),
                        fields@.len() == i - 1,
                        names_increasing(fields@),
                        src.len() == fields@.len(),
                        forall|j: int| 0 <= j < fields@.len() ==> #[trigger] field_from(xs@, fields@[j], src[j], i as int),
                        dst.len() == i,
                        forall|k: int|
                            1 <= k < i ==> 0 <= #[trigger] dst[k] < fields@.len() && pair_named(xs@[k], fields@[dst[k]].0@),
                    decreases xs.len() - i,
                {
                    let pair = match xs[i].match_list() {
                        Some(p) => p,
                        None => return None,
                    };
                    if pair.len() != 2 {
                        return None;
                    }
                    let name = match pair[0].match_atom() {
                        Some(n) => n,
                        None => return None,
                    };
                    proof {
                        assert(decreases_to!(*e => e.expr));
                        assert(decreases_to!(e.expr => e.expr->List_0));
                        assert(decreases_to!(e.expr->List_0 => e.expr->List_0@));
                        assert(decreases_to!(e.expr->List_0@ => e.expr->List_0@[i as int]));
                        assert(decreases_to!(e.expr->List_0@[i as int] => e.expr->List_0@[i as int].expr));
                        assert(decreases_to!(e.expr->List_0@[i as int].expr => e.expr->List_0@[i as int].expr->List_0));
                        assert(decreases_to!(e.expr->List_0@[i as int].expr->List_0 => e.expr->List_0@[i as int].expr->List_0@));
                        assert(decreases_to!(e.expr->List_0@[i as int].expr->List_0@ => pair@[1]));
                    }
                    let x = match eval_literal(&pair[1]) {
                        Some(x) => x,
                        None => return None,
                    };
                    let ghost k_new = i as int;
                    proof {
                        assert(pair_named(xs@[k_new], name@));
                    }
                    // The place of the new field: after every name below it.
                    let mut p: usize = 0;
                    while p < fields.len() && string_lt(fields[p].0.as_str(), name.as_str())
                        invariant
                            p <= fields@.len(),
                            forall|j: int| 0 <= j < p ==> str_lt(#[trigger] fields@[j].0@, name@),
                        decreases fields.len() - p,
                    {
                        p = p + 1;
                    }
                    if p < fields.len() && str_equals(fields[p].0.as_str(), name.as_str()) {
                        return None;
                    }
                    let ghost old_fields = fields@;
                    proof {
                        if p < old_fields.len() {
                            crate::text::lemma_str_lt_total(old_fields[p as int].0@, name@);
                        }
                        // No field, and so no pair before this one, has its name.
                        assert forall|j: int| 0 <= j < old_fields.len() implies #[trigger] old_fields[j].0@ != name@ by {
                            if j < p {
                                lemma_str_lt_irreflexive(name@);
                            } else if j > p {
                                lemma_str_lt_transitive(name@, old_fields[p as int].0@, old_fields[j].0@);
                                lemma_str_lt_irreflexive(name@);
                            }
                        }
                        lemma_pair_of(xs@, name@, i as int);
                        if pair_of(xs@, name@, i as int) != -1 {
                            let r = pair_of(xs@, name@, i as int);
                            assert(pair_named(xs@[r], old_fields[dst[r]].0@));
                            assert(old_fields[dst[r]].0@ == name@);
                        }
                        assert(pair_of(xs@, name@, i + 1) == i);
                    }
                    fields.insert(p, (copy_string(name), x));
                    proof {
                        let nf = fields@;
                        assert forall|a: int, b: int| 0 <= a < b < nf.len() implies str_lt(
                            #[trigger] nf[a].0@,
                            #[trigger] nf[b].0@,
                        ) by {
                            if b < p {
                                assert(nf[a] == old_fields[a] && nf[b] == old_fields[b]);
                            } else if b == p {
                                assert(nf[a] == old_fields[a]);
                            } else if a < p {
                                assert(nf[a] == old_fields[a] && nf[b] == old_fields[b - 1]);
                            } else if a == p {
                                assert(nf[b] == old_fields[b - 1]);
                                if b - 1 > p {
                                    lemma_str_lt_transitive(name@, old_fields[p as int].0@, old_fields[b - 1].0@);
                                }
                            } else {
                                assert(nf[a] == old_fields[a - 1] && nf[b] == old_fields[b - 1]);
                            }
                        }
                    }
                    let ghost old_src = src;
                    let ghost old_dst = dst;
                    proof {
                        src = src.insert(p as int, k_new);
                        dst = Seq::new(
                            (i + 1) as nat,
                            |k: int|
                                if k == i {
                                    p as int
                                } else if old_dst[k] >= p {
                                    old_dst[k] + 1
                                } else {
                                    old_dst[k]
                                },
                        );
                    }
                    i = i + 1;
                    proof {
                        let nf = fields@;
                        assert forall|j: int| 0 <= j < fields@.len() implies #[trigger] field_from(xs@, fields@[j], src[j], i as int) by {
                            if j < p {
                                assert(nf[j] == old_fields[j]);
                                assert(field_from(xs@, old_fields[j], old_src[j], i - 1));
                            } else if j == p {
                                assert(xs@[k_new].expr->List_0@[1] == pair@[1]);
                            } else {
                                assert(nf[j] == old_fields[j - 1]);
                                assert(field_from(xs@, old_fields[j - 1], old_src[j - 1], i - 1));
                            }
                        }
                        assert forall|k: int| 1 <= k < i implies 0 <= #[trigger] dst[k] < fields@.len() && pair_named(
                            xs@[k],
                            fields@[dst[k]].0@,
                        ) by {
                            if k < i - 1 {
                                assert(pair_named(xs@[k], old_fields[old_dst[k]].0@));
                                if old_dst[k] >= p {
                                    assert(nf[old_dst[k] + 1] == old_fields[old_dst[k]]);
                                } else {
                                    assert(nf[old_dst[k]] == old_fields[old_dst[k]]);
                                }
                            }
                        }
                    }
                }
                let ghost fv = fields@;
                let v = Value::Tuple(fields);
                proof {
                    assert forall|j: int| #![trigger v->Tuple_0@[j]] 0 <= j < v->Tuple_0@.len() implies {
                        let k = pair_of(xs@, v->Tuple_0@[j].0@, xs@.len() as int);
                        1 <= k < xs@.len() && pair_named(xs@[k], v->Tuple_0@[j].0@) && evaluates(xs@[k].expr->List_0@[1], v->Tuple_0@[j].1)
                    } by {
                        assert(fv[j] == v->Tuple_0@[j]);
                        assert(field_from(xs@, fv[j], src[j], i as int));
                    }
                    assert(evaluates(*e, v));
                }
                Some(v)
            } else {
                None
            }
        },
        _ => None,
    }
}

} // verus!
