use vstd::prelude::*;
use crate::representations::{ClarityName, Value};
use crate::diagnostic::{decimal, decimal_string};
use crate::hex::{hex_of, to_hex};
use crate::value_codec::{
    ascii_text, be_bytes, fields_serializable, fields_serialization, items_serializable, items_serialization,
    lemma_be_injective, lemma_be_len, lemma_fields_serializable_each, lemma_fields_serializable_each_name,
    lemma_first_byte, lemma_items_serializable_each, lemma_name_bytes_injective, lemma_pow256_16, lemma_pow256_4,
    lemma_twos_below, lemma_twos_injective, name_bytes, serializable, serialization, starts_with_value,
    twos_complement,
};

verus! {

broadcast use vstd::std_specs::vec::group_vec_axioms;

/// The text of the byte `b` in a quoted ASCII string: printable characters as they are
/// (quotes and backslashes escaped), tab, return and newline by their letter, any other
/// byte as `\x` and two hexadecimal digits.
pub open spec fn escaped_byte(b: u8) -> Seq<char> {
    if b == 9 {
        "\\t"@
    } else if b == 13 {
        "\\r"@
    } else if b == 10 {
        "\\n"@
    } else if b == 92 {
        "\\\\"@
    } else if b == 39 {
        "\\'"@
    } else if b == 34 {
        "\\\""@
    } else if 32 <= b <= 126 {
        seq![b as char]
    } else {
        "\\x"@ + hex_of(seq![b])
    }
}

/// The escaped text of the bytes of an ASCII string.
pub open spec fn escaped(bytes: Seq<u8>) -> Seq<char>
    decreases bytes.len(),
{
    if bytes.len() == 0 {
        Seq::empty()
    } else {
        escaped(bytes.drop_last()) + escaped_byte(bytes.last())
    }
}

/// The text of an integer: its decimal digits, after a minus sign where it is negative.
pub open spec fn int_text(i: int) -> Seq<char> {
    if i < 0 {
        "-"@ + decimal((-i) as nat)
    } else {
        decimal(i as nat)
    }
}

/// The text of a value as the REPL shows it: `42`, `u42`, `true`, `0x..` for a buffer, a
/// quoted ASCII string, `none`, `(some x)`, `(ok x)`, `(err x)`, a list as `(a b)` and a
/// tuple as `{name: value, name: value}`.
pub open spec fn shown(v: Value) -> Seq<char>
    decreases v, 0nat,
{
    match v {
        Value::Int(i) => int_text(i as int),
        Value::UInt(u) => "u"@ + decimal(u as nat),
        Value::Bool(t) => if t {
            "true"@
        } else {
            "false"@
        },
        Value::Buffer(b) => "0x"@ + hex_of(b@),
        Value::StringAscii(b) => "\""@ + escaped(b@) + "\""@,
        Value::OptionalNone => "none"@,
        Value::OptionalSome(x) => "(some "@ + shown(*x) + ")"@,
        Value::ResponseOk(x) => "(ok "@ + shown(*x) + ")"@,
        Value::ResponseErr(x) => "(err "@ + shown(*x) + ")"@,
        Value::List(l) => "("@ + shown_items(l@, l@.len() as int) + ")"@,
        Value::Tuple(f) => "{"@ + shown_fields(f@, f@.len() as int) + "}"@,
        _ => Seq::empty(),
    }
}

/// The texts of the first `n` items, a space between two of them.
pub open spec fn shown_items(items: Seq<Value>, n: int) -> Seq<char>
    decreases items, n,
{
    if n <= 0 || n > items.len() {
        Seq::empty()
    } else if n == 1 {
        shown(items[0])
    } else {
        shown_items(items, n - 1) + " "@ + shown(items[n - 1])
    }
}

/// The first `n` fields as `name: value`, a comma and a space between two of them.
pub open spec fn shown_fields(fields: Seq<(ClarityName, Value)>, n: int) -> Seq<char>
    decreases fields, n,
{
    if n <= 0 || n > fields.len() {
        Seq::empty()
    } else if n == 1 {
        fields[0].0@ + ": "@ + shown(fields[0].1)
    } else {
        shown_fields(fields, n - 1) + ", "@ + fields[n - 1].0@ + ": "@ + shown(fields[n - 1].1)
    }
}

fn escape_byte(b: u8) -> (r: String)
    ensures
        r@ == escaped_byte(b),
{
    if b == 9 {
        String::from_str("\\t")
    } else if b == 13 {
        String::from_str("\\r")
    } else if b == 10 {
        String::from_str("\\n")
    } else if b == 92 {
        String::from_str("\\\\")
    } else if b == 39 {
        String::from_str("\\'")
    } else if b == 34 {
        String::from_str("\\\"")
    } else if 32 <= b && b <= 126 {
        String::from_str(ascii_text(b))
    } else {
        let mut s = String::from_str("\\x");
        let one = vec![b];
        let h = to_hex(&one);
        proof {
            assert(one@ =~= seq![b]);
        }
        s.append(h.as_str());
        s
    }
}

/// The text of a value, as `shown` gives it.
pub fn show_value(v: &Value) -> (r: String)
    requires
        serializable(*v),
    ensures
        r@ == shown(*v),
    decreases v, 0nat,
{
    match v {
        Value::Int(i) => {
            if *i < 0 {
                let m: u128 = (-(*i + 1)) as u128 + 1;
                let mut s = String::from_str("-");
                let d = decimal_string(m);
                s.append(d.as_str());
                s
            } else {
                decimal_string(*i as u128)
            }
        },
        Value::UInt(u) => {
            let mut s = String::from_str("u");
            let d = decimal_string(*u);
            s.append(d.as_str());
            s
        },
        Value::Bool(t) => if *t {
            String::from_str("true")
        } else {
            String::from_str("false")
        },
        Value::Buffer(b) => {
            let mut s = String::from_str("0x");
            let h = to_hex(b);
            s.append(h.as_str());
            s
        },
        Value::StringAscii(b) => {
            let mut s = String::from_str("\"");
            let mut i: usize = 0;
            proof {
                assert(b@.subrange(0, 0) =~= Seq::<u8>::empty());
            }
            while i < b.len()
                invariant
                    i <= b@.len(),
                    s@ == "\""@ + escaped(b@.subrange(0, i as int)),
                decreases b.len() - i,
            {
                let e = escape_byte(b[i]);
                s.append(e.as_str());
                proof {
                    assert(b@.subrange(0, i + 1).drop_last() =~= b@.subrange(0, i as int));
                }
                i = i + 1;
            }
            s.append("\"");
            proof {
                assert(b@.subrange(0, b@.len() as int) =~= b@);
            }
            s
        },
        Value::OptionalNone => String::from_str("none"),
        Value::OptionalSome(x) => wrapped("(some ", x),
        Value::ResponseOk(x) => wrapped("(ok ", x),
        Value::ResponseErr(x) => wrapped("(err ", x),
        Value::List(l) => {
            let mut s = String::from_str("(");
            let mut i: usize = 0;
            while i < l.len()
                invariant
                    i <= l@.len(),
                    *v == Value::List(*l),
                    serializable(*v),
                    s@ == "("@ + shown_items(l@, i as int),
                decreases l.len() - i,
            {
                proof {
                    assert(decreases_to!(*v => v->List_0));
                    assert(decreases_to!(v->List_0 => v->List_0@));
                    assert(decreases_to!(v->List_0@ => v->List_0@[i as int]));
                    assert(decreases_to!(*v => l@[i as int]));
                    lemma_items_serializable_each(l@, l@.len() as int, i as int);
                }
                if i > 0 {
                    s.append(" ");
                }
                let t = show_value(&l[i]);
                s.append(t.as_str());
                i = i + 1;
            }
            s.append(")");
            s
        },
        Value::Tuple(f) => {
            let mut s = String::from_str("{");
            let mut i: usize = 0;
            while i < f.len()
                invariant
                    i <= f@.len(),
                    *v == Value::Tuple(*f),
                    serializable(*v),
                    s@ == "{"@ + shown_fields(f@, i as int),
                decreases f.len() - i,
            {
                proof {
                    assert(decreases_to!(*v => v->Tuple_0));
                    assert(decreases_to!(v->Tuple_0 => v->Tuple_0@));
                    assert(decreases_to!(v->Tuple_0@ => v->Tuple_0@[i as int]));
                    assert(decreases_to!(v->Tuple_0@[i as int] => v->Tuple_0@[i as int].1));
                    assert(decreases_to!(*v => f@[i as int].1));
                    lemma_fields_serializable_each(f@, f@.len() as int, i as int);
                }
                if i > 0 {
                    s.append(", ");
                }
                s.append(f[i].0.as_str());
                s.append(": ");
                let t = show_value(&f[i].1);
                s.append(t.as_str());
                i = i + 1;
            }
            s.append("}");
            s
        },
        Value::Principal(_) => String::new(),
        Value::StringUtf8(_) => String::new(),
    }
}

fn wrapped(open: &str, x: &Box<Value>) -> (r: String)
    requires
        serializable(**x),
    ensures
        r@ == open@ + shown(**x) + ")"@,
    decreases **x, 1nat,
{
    let mut s = String::from_str(open);
    let t = show_value(&**x);
    s.append(t.as_str());
    s.append(")");
    s
}


/// A part of bytes that start with `s` is the same part of `s`.
proof fn lemma_part(b: Seq<u8>, pos: int, s: Seq<u8>, a: int, m: int)
    requires
        0 <= pos,
        pos + s.len() <= b.len(),
        b.subrange(pos, pos + s.len()) == s,
        0 <= a,
        0 <= m,
        a + m <= s.len(),
    ensures
        b.subrange(pos + a, pos + a + m) == s.subrange(a, a + m),
{
    assert forall|k: int| 0 <= k < m implies #[trigger] b.subrange(pos + a, pos + a + m)[k] == s.subrange(a, a + m)[k] by {
        assert(b[pos + a + k] == b.subrange(pos, pos + s.len())[a + k]);
    }
    assert(b.subrange(pos + a, pos + a + m) =~= s.subrange(a, a + m));
}

/// Two values whose serializations both start the bytes at `pos` have the same
/// serialization and are shown alike: a serialization is read in one way only.
pub proof fn lemma_serialization_determines(v: Value, w: Value, b: Seq<u8>, pos: int)
    requires
        starts_with_value(b, pos, v),
        starts_with_value(b, pos, w),
    ensures
        serialization(v) == serialization(w),
        shown(v) == shown(w),
    decreases v, 1nat, 0int,
{
    lemma_first_byte(v);
    lemma_first_byte(w);
    let sv = serialization(v);
    let sw = serialization(w);
    assert(sv[0] == b[pos]);
    assert(sw[0] == b[pos]);
    match v {
        Value::Int(i) => {
            let j = w->Int_0;
            lemma_be_len(twos_complement(i), 16);
            lemma_be_len(twos_complement(j), 16);
            lemma_part(b, pos, sv, 1, 16);
            lemma_part(b, pos, sw, 1, 16);
            assert(sv.subrange(1, 17) =~= be_bytes(twos_complement(i), 16));
            assert(sw.subrange(1, 17) =~= be_bytes(twos_complement(j), 16));
            lemma_twos_below(i);
            lemma_twos_below(j);
            lemma_be_injective(twos_complement(i), twos_complement(j), 16);
            lemma_twos_injective(i, j);
        },
        Value::UInt(u) => {
            let x = w->UInt_0;
            lemma_be_len(u as nat, 16);
            lemma_be_len(x as nat, 16);
            lemma_part(b, pos, sv, 1, 16);
            lemma_part(b, pos, sw, 1, 16);
            assert(sv.subrange(1, 17) =~= be_bytes(u as nat, 16));
            assert(sw.subrange(1, 17) =~= be_bytes(x as nat, 16));
            lemma_pow256_16();
            lemma_be_injective(u as nat, x as nat, 16);
        },
        Value::Buffer(c) => {
            let d = w->Buffer_0;
            lemma_be_len(c@.len(), 4);
            lemma_be_len(d@.len(), 4);
            assert(sv == seq![2u8] + be_bytes(c@.len(), 4) + c@);
            assert(sw == seq![2u8] + be_bytes(d@.len(), 4) + d@);
            lemma_bytes_determined(c@, d@, b, pos, 2);
        },
        Value::StringAscii(c) => {
            let d = w->StringAscii_0;
            lemma_be_len(c@.len(), 4);
            lemma_be_len(d@.len(), 4);
            assert(sv == seq![13u8] + be_bytes(c@.len(), 4) + c@);
            assert(sw == seq![13u8] + be_bytes(d@.len(), 4) + d@);
            lemma_bytes_determined(c@, d@, b, pos, 13);
        },
        Value::Bool(t) => {},
        Value::OptionalNone => {},
        Value::OptionalSome(x) => {
            let y = *w->OptionalSome_0;
            lemma_inner_starts(b, pos, v, *x);
            lemma_inner_starts(b, pos, w, y);
            lemma_serialization_determines(*x, y, b, pos + 1);
        },
        Value::ResponseOk(x) => {
            let y = *w->ResponseOk_0;
            lemma_inner_starts(b, pos, v, *x);
            lemma_inner_starts(b, pos, w, y);
            lemma_serialization_determines(*x, y, b, pos + 1);
        },
        Value::ResponseErr(x) => {
            let y = *w->ResponseErr_0;
            lemma_inner_starts(b, pos, v, *x);
            lemma_inner_starts(b, pos, w, y);
            lemma_serialization_determines(*x, y, b, pos + 1);
        },
        Value::List(l) => {
            let m = w->List_0;
            let n1 = l@.len();
            let n2 = m@.len();
            lemma_be_len(n1, 4);
            lemma_be_len(n2, 4);
            lemma_part(b, pos, sv, 1, 4);
            lemma_part(b, pos, sw, 1, 4);
            assert(sv.subrange(1, 5) =~= be_bytes(n1, 4));
            assert(sw.subrange(1, 5) =~= be_bytes(n2, 4));
            lemma_pow256_4();
            lemma_be_injective(n1, n2, 4);
            let i1 = items_serialization(l@, n1 as int);
            let i2 = items_serialization(m@, n1 as int);
            assert(sv == seq![11u8] + be_bytes(n1, 4) + i1);
            assert(sw == seq![11u8] + be_bytes(n1, 4) + i2);
            lemma_part(b, pos, sv, 5, i1.len() as int);
            lemma_part(b, pos, sw, 5, i2.len() as int);
            assert(sv.subrange(5, 5 + i1.len() as int) =~= i1);
            assert(sw.subrange(5, 5 + i2.len() as int) =~= i2);
            lemma_items_determined(v, l@, m@, n1 as int, b, pos + 5);
        },
        Value::Tuple(f) => {
            let g = w->Tuple_0;
            let n1 = f@.len();
            let n2 = g@.len();
            lemma_be_len(n1, 4);
            lemma_be_len(n2, 4);
            lemma_part(b, pos, sv, 1, 4);
            lemma_part(b, pos, sw, 1, 4);
            assert(sv.subrange(1, 5) =~= be_bytes(n1, 4));
            assert(sw.subrange(1, 5) =~= be_bytes(n2, 4));
            lemma_pow256_4();
            lemma_be_injective(n1, n2, 4);
            let i1 = fields_serialization(f@, n1 as int);
            let i2 = fields_serialization(g@, n1 as int);
            assert(sv == seq![12u8] + be_bytes(n1, 4) + i1);
            assert(sw == seq![12u8] + be_bytes(n1, 4) + i2);
            lemma_part(b, pos, sv, 5, i1.len() as int);
            lemma_part(b, pos, sw, 5, i2.len() as int);
            assert(sv.subrange(5, 5 + i1.len() as int) =~= i1);
            assert(sw.subrange(5, 5 + i2.len() as int) =~= i2);
            lemma_fields_determined(v, f@, g@, n1 as int, b, pos + 5);
        },
        _ => {},
    }
}

/// The items of two lists whose serializations both start the bytes at `pos`.
proof fn lemma_items_determined(v: Value, l1: Seq<Value>, l2: Seq<Value>, n: int, b: Seq<u8>, pos: int)
    requires
        v is List && v->List_0@ == l1,
        0 <= n <= l1.len(),
        n <= l2.len(),
        items_serializable(l1, n),
        items_serializable(l2, n),
        0 <= pos,
        pos + items_serialization(l1, n).len() <= b.len(),
        pos + items_serialization(l2, n).len() <= b.len(),
        b.subrange(pos, pos + items_serialization(l1, n).len()) == items_serialization(l1, n),
        b.subrange(pos, pos + items_serialization(l2, n).len()) == items_serialization(l2, n),
    ensures
        items_serialization(l1, n) == items_serialization(l2, n),
        shown_items(l1, n) == shown_items(l2, n),
    decreases v, 0nat, n,
{
    if n > 0 {
        let s1 = items_serialization(l1, n);
        let s2 = items_serialization(l2, n);
        let a1 = items_serialization(l1, n - 1);
        let a2 = items_serialization(l2, n - 1);
        let x = l1[n - 1];
        let y = l2[n - 1];
        assert(s1 == a1 + serialization(x));
        assert(s2 == a2 + serialization(y));
        lemma_part(b, pos, s1, 0, a1.len() as int);
        lemma_part(b, pos, s2, 0, a2.len() as int);
        assert(s1.subrange(0, a1.len() as int) =~= a1);
        assert(s2.subrange(0, a2.len() as int) =~= a2);
        lemma_items_determined(v, l1, l2, n - 1, b, pos);
        lemma_items_serializable_each(l1, n, n - 1);
        lemma_items_serializable_each(l2, n, n - 1);
        lemma_part(b, pos, s1, a1.len() as int, serialization(x).len() as int);
        lemma_part(b, pos, s2, a1.len() as int, serialization(y).len() as int);
        assert(s1.subrange(a1.len() as int, a1.len() as int + serialization(x).len()) =~= serialization(x));
        assert(s2.subrange(a1.len() as int, a1.len() as int + serialization(y).len()) =~= serialization(y));
        assert(starts_with_value(b, pos + a1.len(), x));
        assert(starts_with_value(b, pos + a1.len(), y));
        assert(decreases_to!(v => v->List_0));
        assert(decreases_to!(v->List_0 => v->List_0@));
        assert(decreases_to!(v->List_0@ => v->List_0@[n - 1]));
        lemma_serialization_determines(x, y, b, pos + a1.len());
    }
}

/// The fields of two tuples whose serializations both start the bytes at `pos`.
proof fn lemma_fields_determined(v: Value, f1: Seq<(ClarityName, Value)>, f2: Seq<(ClarityName, Value)>, n: int, b: Seq<u8>, pos: int)
    requires
        v is Tuple && v->Tuple_0@ == f1,
        0 <= n <= f1.len(),
        n <= f2.len(),
        fields_serializable(f1, n),
        fields_serializable(f2, n),
        0 <= pos,
        pos + fields_serialization(f1, n).len() <= b.len(),
        pos + fields_serialization(f2, n).len() <= b.len(),
        b.subrange(pos, pos + fields_serialization(f1, n).len()) == fields_serialization(f1, n),
        b.subrange(pos, pos + fields_serialization(f2, n).len()) == fields_serialization(f2, n),
    ensures
        fields_serialization(f1, n) == fields_serialization(f2, n),
        shown_fields(f1, n) == shown_fields(f2, n),
    decreases v, 0nat, n,
{
    if n > 0 {
        let a1 = fields_serialization(f1, n - 1);
        let a2 = fields_serialization(f2, n - 1);
        let p = f1[n - 1];
        let q = f2[n - 1];
        let s1 = fields_serialization(f1, n);
        let s2 = fields_serialization(f2, n);
        assert(s1 == a1 + seq![p.0@.len() as u8] + name_bytes(p.0@) + serialization(p.1));
        assert(s2 == a2 + seq![q.0@.len() as u8] + name_bytes(q.0@) + serialization(q.1));
        lemma_part(b, pos, s1, 0, a1.len() as int);
        lemma_part(b, pos, s2, 0, a2.len() as int);
        assert(s1.subrange(0, a1.len() as int) =~= a1);
        assert(s2.subrange(0, a2.len() as int) =~= a2);
        lemma_fields_determined(v, f1, f2, n - 1, b, pos);
        lemma_fields_serializable_each_name(f1, n, n - 1);
        lemma_fields_serializable_each_name(f2, n, n - 1);
        let al = a1.len() as int;
        let at = pos + al;
        assert(b[at] == s1[al]);
        assert(b[at] == s2[al]);
        assert(name_bytes(p.0@).len() == p.0@.len());
        assert(name_bytes(q.0@).len() == q.0@.len());
        assert(p.0@.len() == q.0@.len());
        let nl = p.0@.len() as int;
        lemma_part(b, pos, s1, al + 1, nl);
        lemma_part(b, pos, s2, al + 1, nl);
        assert(s1.subrange(al + 1, al + 1 + nl) =~= name_bytes(p.0@));
        assert(s2.subrange(al + 1, al + 1 + nl) =~= name_bytes(q.0@));
        lemma_name_bytes_injective(p.0@, q.0@);
        let xl = serialization(p.1).len() as int;
        let yl = serialization(q.1).len() as int;
        lemma_part(b, pos, s1, al + 1 + nl, xl);
        lemma_part(b, pos, s2, al + 1 + nl, yl);
        assert(s1.subrange(al + 1 + nl, al + 1 + nl + xl) =~= serialization(p.1));
        assert(s2.subrange(al + 1 + nl, al + 1 + nl + yl) =~= serialization(q.1));
        assert(starts_with_value(b, at + 1 + nl, p.1));
        assert(starts_with_value(b, at + 1 + nl, q.1));
        assert(decreases_to!(v => v->Tuple_0));
        assert(decreases_to!(v->Tuple_0 => v->Tuple_0@));
        assert(decreases_to!(v->Tuple_0@ => v->Tuple_0@[n - 1]));
        assert(decreases_to!(v->Tuple_0@[n - 1] => v->Tuple_0@[n - 1].1));
        lemma_serialization_determines(p.1, q.1, b, at + 1 + nl);
    }
}

/// Two buffers or strings of the kind `prefix` whose serializations both start the bytes
/// at `pos` hold the same bytes.
proof fn lemma_bytes_determined(c: Seq<u8>, d: Seq<u8>, b: Seq<u8>, pos: int, prefix: u8)
    requires
        0 <= pos,
        c.len() <= u32::MAX,
        d.len() <= u32::MAX,
        pos + (seq![prefix] + be_bytes(c.len(), 4) + c).len() <= b.len(),
        pos + (seq![prefix] + be_bytes(d.len(), 4) + d).len() <= b.len(),
        b.subrange(pos, pos + (seq![prefix] + be_bytes(c.len(), 4) + c).len()) == seq![prefix] + be_bytes(c.len(), 4) + c,
        b.subrange(pos, pos + (seq![prefix] + be_bytes(d.len(), 4) + d).len()) == seq![prefix] + be_bytes(d.len(), 4) + d,
    ensures
        c == d,
{
    let sc = seq![prefix] + be_bytes(c.len(), 4) + c;
    let sd = seq![prefix] + be_bytes(d.len(), 4) + d;
    lemma_be_len(c.len(), 4);
    lemma_be_len(d.len(), 4);
    lemma_part(b, pos, sc, 1, 4);
    lemma_part(b, pos, sd, 1, 4);
    assert(sc.subrange(1, 5) =~= be_bytes(c.len(), 4));
    assert(sd.subrange(1, 5) =~= be_bytes(d.len(), 4));
    lemma_pow256_4();
    lemma_be_injective(c.len(), d.len(), 4);
    lemma_part(b, pos, sc, 5, c.len() as int);
    lemma_part(b, pos, sd, 5, d.len() as int);
    assert(sc.subrange(5, 5 + c.len() as int) =~= c);
    assert(sd.subrange(5, 5 + d.len() as int) =~= d);
}

/// The serialization of the value inside an `ok`, an `err` or a `some` starts one byte later.
proof fn lemma_inner_starts(b: Seq<u8>, pos: int, v: Value, x: Value)
    requires
        starts_with_value(b, pos, v),
        (v is OptionalSome && *v->OptionalSome_0 == x) || (v is ResponseOk && *v->ResponseOk_0 == x) || (v is ResponseErr
            && *v->ResponseErr_0 == x),
    ensures
        starts_with_value(b, pos + 1, x),
{
    let sv = serialization(v);
    assert(sv =~= seq![sv[0]] + serialization(x));
    lemma_part(b, pos, sv, 1, serialization(x).len() as int);
    assert(sv.subrange(1, 1 + serialization(x).len() as int) =~= serialization(x));
}


/// The text of the first `n` items depends only on those items.
proof fn lemma_items_prefix(a: Seq<Value>, b: Seq<Value>, n: int)
    requires
        0 <= n <= a.len(),
        n <= b.len(),
        forall|i: int| 0 <= i < n ==> a[i] == b[i],
    ensures
        shown_items(a, n) == shown_items(b, n),
    decreases n,
{
    if n > 1 {
        lemma_items_prefix(a, b, n - 1);
    }
}

/// The items of a list are shown apart by single spaces: cut anywhere between two items,
/// the text is that of the items before the cut, one space, and that of the items after.
pub proof fn list_items_are_spaced(items: Seq<Value>, k: int, n: int)
    requires
        1 <= k < n <= items.len(),
    ensures
        shown_items(items, n) == shown_items(items, k) + " "@ + shown_items(items.subrange(k, n), n - k),
    decreases n,
{
    let sub = items.subrange(k, n);
    if n == k + 1 {
        assert(sub[0] == items[k]);
    } else {
        list_items_are_spaced(items, k, n - 1);
        let sub1 = items.subrange(k, n - 1);
        lemma_items_prefix(sub, sub1, n - k - 1);
        assert(sub[n - k - 1] == items[n - 1]);
        assert(shown_items(sub, n - k) == shown_items(sub, n - k - 1) + " "@ + shown(sub[n - k - 1]));
        assert(shown_items(items, n) == shown_items(items, n - 1) + " "@ + shown(items[n - 1]));
        assert(shown_items(items, n) =~= shown_items(items, k) + " "@ + shown_items(sub, n - k));
    }
}

/// The text of a list is its items shown apart by single spaces, in brackets.
pub proof fn list_text_is_spaced(l: Vec<Value>, k: int)
    requires
        1 <= k < l@.len(),
    ensures
        shown(Value::List(l)) == "("@ + shown_items(l@, k) + " "@ + shown_items(l@.subrange(k, l@.len() as int), l@.len() - k)
            + ")"@,
{
    list_items_are_spaced(l@, k, l@.len() as int);
    assert(shown(Value::List(l)) == "("@ + shown_items(l@, l@.len() as int) + ")"@);
    assert(shown(Value::List(l)) =~= "("@ + shown_items(l@, k) + " "@ + shown_items(l@.subrange(k, l@.len() as int), l@.len() - k) + ")"@);
}


/// The text of the first `n` fields depends only on those fields.
proof fn lemma_fields_prefix(a: Seq<(ClarityName, Value)>, b: Seq<(ClarityName, Value)>, n: int)
    requires
        0 <= n <= a.len(),
        n <= b.len(),
        forall|i: int| 0 <= i < n ==> a[i] == b[i],
    ensures
        shown_fields(a, n) == shown_fields(b, n),
    decreases n,
{
    if n > 1 {
        lemma_fields_prefix(a, b, n - 1);
    }
}

/// The fields of a tuple are shown apart by a comma and a space: cut anywhere between two
/// fields, the text is that of the fields before the cut, `, `, and that of the fields after.
pub proof fn tuple_fields_are_separated(fields: Seq<(ClarityName, Value)>, k: int, n: int)
    requires
        1 <= k < n <= fields.len(),
    ensures
        shown_fields(fields, n) == shown_fields(fields, k) + ", "@ + shown_fields(fields.subrange(k, n), n - k),
    decreases n,
{
    let sub = fields.subrange(k, n);
    if n == k + 1 {
        assert(sub[0] == fields[k]);
    } else {
        tuple_fields_are_separated(fields, k, n - 1);
        let sub1 = fields.subrange(k, n - 1);
        lemma_fields_prefix(sub, sub1, n - k - 1);
        assert(sub[n - k - 1] == fields[n - 1]);
        assert(shown_fields(fields, n) =~= shown_fields(fields, k) + ", "@ + shown_fields(sub, n - k));
    }
}

} // verus!
