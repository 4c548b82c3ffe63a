use vstd::prelude::*;
use crate::representations::{ClarityName, Value};
use crate::diagnostic::{decimal, decimal_string};
use crate::hex::{hex_of, to_hex};

verus! {

broadcast use vstd::std_specs::vec::group_vec_axioms;

/// The `k` bytes, most significant first, of `x` modulo `256^k`.
pub open spec fn be_bytes(x: nat, k: nat) -> Seq<u8>
    decreases k,
{
    if k == 0 {
        Seq::empty()
    } else {
        be_bytes(x / 256, (k - 1) as nat).push((x % 256) as u8)
    }
}

/// The two's complement of `i` on 128 bits, as a natural number.
pub open spec fn twos_complement(i: i128) -> nat {
    if i < 0 {
        (i + 0x1_0000_0000_0000_0000_0000_0000_0000_0000int) as nat
    } else {
        i as nat
    }
}

/// The bytes of a name made of characters below 128.
pub open spec fn name_bytes(name: Seq<char>) -> Seq<u8> {
    name.map_values(|c: char| (c as u32) as u8)
}

/// Whether `name` can stand in a serialized tuple: at most 128 characters, each below 128.
pub open spec fn name_ok(name: Seq<char>) -> bool {
    name.len() <= 128 && forall|i: int| 0 <= i < name.len() ==> (#[trigger] name[i] as u32) < 128
}

/// Whether this library serializes `v`: principals and UTF-8 strings aside, every value
/// whose lengths fit in 32 bits and whose tuple field names are short ASCII names.
pub open spec fn serializable(v: Value) -> bool
    decreases v, 0nat,
{
    match v {
        Value::Principal(_) | Value::StringUtf8(_) => false,
        Value::Buffer(b) => b@.len() <= u32::MAX,
        Value::StringAscii(b) => b@.len() <= u32::MAX,
        Value::OptionalSome(x) => serializable(*x),
        Value::ResponseOk(x) => serializable(*x),
        Value::ResponseErr(x) => serializable(*x),
        Value::List(l) => l@.len() <= u32::MAX && items_serializable(l@, l@.len() as int),
        Value::Tuple(f) => f@.len() <= u32::MAX && fields_serializable(f@, f@.len() as int),
        _ => true,
    }
}

/// Whether the first `n` of `items` are serializable.
pub open spec fn items_serializable(items: Seq<Value>, n: int) -> bool
    decreases items, n,
{
    if n <= 0 || n > items.len() {
        true
    } else {
        items_serializable(items, n - 1) && serializable(items[n - 1])
    }
}

/// Whether the first `n` of the tuple fields `fields` are serializable.
pub open spec fn fields_serializable(fields: Seq<(ClarityName, Value)>, n: int) -> bool
    decreases fields, n,
{
    if n <= 0 || n > fields.len() {
        true
    } else {
        fields_serializable(fields, n - 1) && name_ok(fields[n - 1].0@) && serializable(fields[n - 1].1)
    }
}

/// The consensus serialization of `v`: a type prefix, then its content.
pub open spec fn serialization(v: Value) -> Seq<u8>
    decreases v, 0nat,
{
    match v {
        Value::Int(i) => seq![0u8] + be_bytes(twos_complement(i), 16),
        Value::UInt(u) => seq![1u8] + be_bytes(u as nat, 16),
        Value::Buffer(b) => seq![2u8] + be_bytes(b@.len(), 4) + b@,
        Value::Bool(t) => seq![if t { 3u8 } else { 4u8 }],
        Value::ResponseOk(x) => seq![7u8] + serialization(*x),
        Value::ResponseErr(x) => seq![8u8] + serialization(*x),
        Value::OptionalNone => seq![9u8],
        Value::OptionalSome(x) => seq![10u8] + serialization(*x),
        Value::List(l) => seq![11u8] + be_bytes(l@.len(), 4) + items_serialization(l@, l@.len() as int),
        Value::Tuple(f) => seq![12u8] + be_bytes(f@.len(), 4) + fields_serialization(f@, f@.len() as int),
        Value::StringAscii(b) => seq![13u8] + be_bytes(b@.len(), 4) + b@,
        _ => Seq::empty(),
    }
}

/// The serializations of the first `n` of `items`, one after the other.
pub open spec fn items_serialization(items: Seq<Value>, n: int) -> Seq<u8>
    decreases items, n,
{
    if n <= 0 || n > items.len() {
        Seq::empty()
    } else {
        items_serialization(items, n - 1) + serialization(items[n - 1])
    }
}

/// The serializations of the first `n` tuple fields: the length of the name, the name,
/// then the value.
pub open spec fn fields_serialization(fields: Seq<(ClarityName, Value)>, n: int) -> Seq<u8>
    decreases fields, n,
{
    if n <= 0 || n > fields.len() {
        Seq::empty()
    } else {
        fields_serialization(fields, n - 1) + seq![fields[n - 1].0@.len() as u8] + name_bytes(fields[n - 1].0@)
            + serialization(fields[n - 1].1)
    }
}

/// Appends the `k` bytes, most significant first, of `x`.
fn push_be(out: &mut Vec<u8>, x: u128, k: usize)
    requires
        k <= 16,
    ensures
        final(out)@ == old(out)@ + be_bytes(x as nat, k as nat),
    decreases k,
{
    if k > 0 {
        push_be(out, x / 256, k - 1);
        let ghost mid = out@;
        out.push((x % 256) as u8);
        proof {
            assert(out@ =~= old(out)@ + be_bytes(x as nat, k as nat));
        }
    } else {
        proof {
            assert(out@ =~= old(out)@ + be_bytes(x as nat, k as nat));
        }
    }
}

/// The two's complement of `i` on 128 bits.
fn twos_complement_of(i: i128) -> (r: u128)
    ensures
        r as nat == twos_complement(i),
{
    if i < 0 {
        let m: i128 = i + 1;
        let a: u128 = (-m) as u128;
        proof {
            assert(a == -(i + 1));
        }
        u128::MAX - a
    } else {
        i as u128
    }
}

/// Appends the serialization of `v` to `out`, where this library serializes `v`; gives
/// whether it does.
pub fn write_value(v: &Value, out: &mut Vec<u8>) -> (ok: bool)
    ensures
        ok == serializable(*v),
        ok ==> final(out)@ == old(out)@ + serialization(*v),
    decreases v, 0nat,
{
    match v {
        Value::Int(i) => {
            out.push(0u8);
            let ghost mid = out@;
            push_be(out, twos_complement_of(*i), 16);
            proof {
                assert(out@ =~= old(out)@ + serialization(*v));
            }
            true
        },
        Value::UInt(u) => {
            out.push(1u8);
            push_be(out, *u, 16);
            proof {
                assert(out@ =~= old(out)@ + serialization(*v));
            }
            true
        },
        Value::Bool(t) => {
            out.push(if *t { 3u8 } else { 4u8 });
            proof {
                assert(out@ =~= old(out)@ + serialization(*v));
            }
            true
        },
        Value::Buffer(b) => {
            if b.len() > 0xffff_ffff {
                return false;
            }
            out.push(2u8);
            push_be(out, b.len() as u128, 4);
            write_bytes(b, out);
            proof {
                assert(out@ =~= old(out)@ + serialization(*v));
            }
            true
        },
        Value::StringAscii(b) => {
            if b.len() > 0xffff_ffff {
                return false;
            }
            out.push(13u8);
            push_be(out, b.len() as u128, 4);
            write_bytes(b, out);
            proof {
                assert(out@ =~= old(out)@ + serialization(*v));
            }
            true
        },
        Value::OptionalNone => {
            out.push(9u8);
            proof {
                assert(out@ =~= old(out)@ + serialization(*v));
            }
            true
        },
        Value::OptionalSome(x) => write_wrapped(10u8, x, out),
        Value::ResponseOk(x) => write_wrapped(7u8, x, out),
        Value::ResponseErr(x) => write_wrapped(8u8, x, out),
        Value::List(l) => {
            if l.len() > 0xffff_ffff {
                return false;
            }
            out.push(11u8);
            push_be(out, l.len() as u128, 4);
            let ghost head = out@;
            let mut i: usize = 0;
            while i < l.len()
                invariant
                    i <= l@.len(),
                    out@ == head + items_serialization(l@, i as int),
                    *v == Value::List(*l),
                    head == old(out)@ + seq![11u8] + be_bytes(l@.len(), 4),
                    items_serializable(l@, i as int),
                decreases l.len() - i,
            {
                proof {
                    assert(decreases_to!(*v => v->List_0));
                    assert(decreases_to!(v->List_0 => v->List_0@));
                    assert(decreases_to!(v->List_0@ => v->List_0@[i as int]));
                    assert(decreases_to!(*v => l@[i as int]));
                }
                let ok = write_value(&l[i], out);
                if !ok {
                    proof {
                        assert(!items_serializable(l@, i + 1));
                        if items_serializable(l@, l@.len() as int) {
                            lemma_items_serializable_prefix(l@, i + 1, l@.len() as int);
                        }
                    }
                    return false;
                }
                proof {
                    assert(out@ =~= head + items_serialization(l@, i + 1));
                }
                i = i + 1;
            }
            proof {
                assert(out@ =~= old(out)@ + serialization(*v));
            }
            true
        },
        Value::Tuple(f) => {
            if f.len() > 0xffff_ffff {
                return false;
            }
            out.push(12u8);
            push_be(out, f.len() as u128, 4);
            let ghost head = out@;
            let mut i: usize = 0;
            while i < f.len()
                invariant
                    i <= f@.len(),
                    out@ == head + fields_serialization(f@, i as int),
                    *v == Value::Tuple(*f),
                    head == old(out)@ + seq![12u8] + be_bytes(f@.len(), 4),
                    fields_serializable(f@, i as int),
                decreases f.len() - i,
            {
                let name = &f[i].0;
                if !write_name(name, out) {
                    proof {
                        assert(!fields_serializable(f@, i + 1));
                        if fields_serializable(f@, f@.len() as int) {
                            lemma_fields_serializable_prefix(f@, i + 1, f@.len() as int);
                        }
                    }
                    return false;
                }
                proof {
                    assert(decreases_to!(*v => v->Tuple_0));
                    assert(decreases_to!(v->Tuple_0 => v->Tuple_0@));
                    assert(decreases_to!(v->Tuple_0@ => v->Tuple_0@[i as int]));
                    assert(decreases_to!(v->Tuple_0@[i as int] => v->Tuple_0@[i as int].1));
                    assert(decreases_to!(*v => f@[i as int].1));
                }
                let ghost mid = out@;
                let ok = write_value(&f[i].1, out);
                if !ok {
                    proof {
                        assert(!fields_serializable(f@, i + 1));
                        if fields_serializable(f@, f@.len() as int) {
                            lemma_fields_serializable_prefix(f@, i + 1, f@.len() as int);
                        }
                    }
                    return false;
                }
                proof {
                    assert(out@ =~= head + fields_serialization(f@, i + 1));
                }
                i = i + 1;
            }
            proof {
                assert(out@ =~= old(out)@ + serialization(*v));
            }
            true
        },
        Value::Principal(_) => false,
        Value::StringUtf8(_) => false,
    }
}

/// A serializable list of values has serializable prefixes.
proof fn lemma_items_serializable_prefix(items: Seq<Value>, n: int, m: int)
    requires
        0 <= n <= m <= items.len(),
        items_serializable(items, m),
    ensures
        items_serializable(items, n),
    decreases m - n,
{
    if n < m {
        lemma_items_serializable_prefix(items, n, m - 1);
    }
}

/// Serializable tuple fields have serializable prefixes.
proof fn lemma_fields_serializable_prefix(fields: Seq<(ClarityName, Value)>, n: int, m: int)
    requires
        0 <= n <= m <= fields.len(),
        fields_serializable(fields, m),
    ensures
        fields_serializable(fields, n),
    decreases m - n,
{
    if n < m {
        lemma_fields_serializable_prefix(fields, n, m - 1);
    }
}

/// Appends the bytes `b`.
fn write_bytes(b: &Vec<u8>, out: &mut Vec<u8>)
    ensures
        final(out)@ == old(out)@ + b@,
{
    let mut i: usize = 0;
    while i < b.len()
        invariant
            i <= b@.len(),
            out@ == old(out)@ + b@.subrange(0, i as int),
        decreases b.len() - i,
    {
        out.push(b[i]);
        proof {
            assert(out@ =~= old(out)@ + b@.subrange(0, i + 1));
        }
        i = i + 1;
    }
    proof {
        assert(b@.subrange(0, b@.len() as int) =~= b@);
    }
}

/// Appends the length and the bytes of a tuple field name, where it can stand in a
/// serialized tuple; gives whether it can.
fn write_name(name: &ClarityName, out: &mut Vec<u8>) -> (ok: bool)
    ensures
        ok == name_ok(name@),
        ok ==> final(out)@ == old(out)@ + seq![name@.len() as u8] + name_bytes(name@),
        !ok ==> final(out)@ == old(out)@,
{
    let n = name.unicode_len();
    if n > 128 {
        return false;
    }
    let mut k: usize = 0;
    while k < n
        invariant
            k <= n,
            n == name@.len(),
            forall|j: int| 0 <= j < k ==> (#[trigger] name@[j] as u32) < 128,
        decreases n - k,
    {
        if (name.get_char(k) as u32) >= 128 {
            return false;
        }
        k = k + 1;
    }
    out.push(n as u8);
    let ghost head = out@;
    let mut i: usize = 0;
    while i < n
        invariant
            i <= n,
            n == name@.len(),
            name_ok(name@),
            out@ == head + name_bytes(name@).subrange(0, i as int),
        decreases n - i,
    {
        let c = name.get_char(i);
        proof {
            assert((c as u32) < 128);
        }
        out.push((c as u32) as u8);
        proof {
            assert(out@ =~= head + name_bytes(name@).subrange(0, i + 1));
        }
        i = i + 1;
    }
    proof {
        assert(name_bytes(name@).subrange(0, n as int) =~= name_bytes(name@));
        assert(out@ =~= old(out)@ + seq![name@.len() as u8] + name_bytes(name@));
    }
    true
}

/// Appends the prefix `prefix` and the serialization of `x`; gives whether `x` is
/// serializable.
fn write_wrapped(prefix: u8, x: &Box<Value>, out: &mut Vec<u8>) -> (ok: bool)
    ensures
        ok == serializable(**x),
        ok ==> final(out)@ == old(out)@ + seq![prefix] + serialization(**x),
    decreases **x, 1nat,
{
    out.push(prefix);
    let ghost head = out@;
    let ok = write_value(&**x, out);
    proof {
        if ok {
            assert(out@ =~= old(out)@ + seq![prefix] + serialization(**x));
        }
    }
    ok
}


/// Putting a byte after `k` bytes multiplies by 256 and adds it.
proof fn lemma_be_push(x: nat, d: nat, k: nat)
    requires
        d < 256,
    ensures
        be_bytes(x * 256 + d, k + 1) == be_bytes(x, k).push(d as u8),
{
    let y = x * 256 + d;
    assert(y / 256 == x && y % 256 == d) by (nonlinear_arith)
        requires
            y == x * 256 + d,
            d < 256,
    ;
}

/// Reads the number written by the `k` bytes at `pos`, most significant first.
fn read_be(b: &Vec<u8>, pos: usize, k: usize) -> (r: Option<u128>)
    requires
        k <= 16,
    ensures
        r is Some <==> pos + k <= b@.len(),
        r matches Some(x) ==> be_bytes(x as nat, k as nat) == b@.subrange(pos as int, pos + k) && x < pow256(
            k as nat,
        ),
{
    if k > b.len() || pos > b.len() - k {
        return None;
    }
    let mut x: u128 = 0;
    let mut i: usize = 0;
    proof {
        assert(b@.subrange(pos as int, pos as int) =~= be_bytes(0, 0));
    }
    while i < k
        invariant
            i <= k,
            k <= 16,
            pos + k <= b.len(),
            be_bytes(x as nat, i as nat) == b@.subrange(pos as int, pos + i),
            x < pow256(i as nat),
        decreases k - i,
    {
        let d = b[pos + i];
        proof {
            lemma_pow256_bound(i as nat);
            assert(x * 256 + d < pow256((i + 1) as nat)) by (nonlinear_arith)
                requires
                    x < pow256(i as nat),
                    d < 256,
                    pow256((i + 1) as nat) == pow256(i as nat) * 256,
            ;
            lemma_be_push(x as nat, d as nat, i as nat);
            assert(b@.subrange(pos as int, pos + i + 1) =~= b@.subrange(pos as int, pos + i).push(d));
        }
        x = x * 256 + d as u128;
        i = i + 1;
    }
    Some(x)
}

/// `256^k`.
pub open spec fn pow256(k: nat) -> nat
    decreases k,
{
    if k == 0 {
        1
    } else {
        pow256((k - 1) as nat) * 256
    }
}

/// `256^k` grows with `k`.
proof fn lemma_pow256_mono(k: nat, m: nat)
    requires
        k <= m,
    ensures
        pow256(k) <= pow256(m),
    decreases m - k,
{
    if k < m {
        lemma_pow256_mono(k, (m - 1) as nat);
    }
}

/// `256^k`, for `k` up to 15, times 256 is at most `2^128`.
proof fn lemma_pow256_bound(k: nat)
    requires
        k <= 15,
    ensures
        pow256(k) * 256 <= 0x1_0000_0000_0000_0000_0000_0000_0000_0000,
        pow256((k + 1) as nat) == pow256(k) * 256,
{
    lemma_pow256_mono(k, 15);
    reveal_with_fuel(pow256, 16);
    assert(pow256(15) * 256 == 0x1_0000_0000_0000_0000_0000_0000_0000_0000);
}

/// The one-character text of the ASCII character `b`.
pub fn ascii_text(b: u8) -> (r: &'static str)
    requires
        b < 128,
    ensures
        r@ == seq![b as char],
{
    let t = "\u{0}\u{1}\u{2}\u{3}\u{4}\u{5}\u{6}\u{7}\u{8}\u{9}\u{a}\u{b}\u{c}\u{d}\u{e}\u{f}\u{10}\u{11}\u{12}\u{13}\u{14}\u{15}\u{16}\u{17}\u{18}\u{19}\u{1a}\u{1b}\u{1c}\u{1d}\u{1e}\u{1f}\u{20}\u{21}\u{22}\u{23}\u{24}\u{25}\u{26}\u{27}\u{28}\u{29}\u{2a}\u{2b}\u{2c}\u{2d}\u{2e}\u{2f}\u{30}\u{31}\u{32}\u{33}\u{34}\u{35}\u{36}\u{37}\u{38}\u{39}\u{3a}\u{3b}\u{3c}\u{3d}\u{3e}\u{3f}\u{40}\u{41}\u{42}\u{43}\u{44}\u{45}\u{46}\u{47}\u{48}\u{49}\u{4a}\u{4b}\u{4c}\u{4d}\u{4e}\u{4f}\u{50}\u{51}\u{52}\u{53}\u{54}\u{55}\u{56}\u{57}\u{58}\u{59}\u{5a}\u{5b}\u{5c}\u{5d}\u{5e}\u{5f}\u{60}\u{61}\u{62}\u{63}\u{64}\u{65}\u{66}\u{67}\u{68}\u{69}\u{6a}\u{6b}\u{6c}\u{6d}\u{6e}\u{6f}\u{70}\u{71}\u{72}\u{73}\u{74}\u{75}\u{76}\u{77}\u{78}\u{79}\u{7a}\u{7b}\u{7c}\u{7d}\u{7e}\u{7f}";
    proof {
        reveal_strlit("\u{0}\u{1}\u{2}\u{3}\u{4}\u{5}\u{6}\u{7}\u{8}\u{9}\u{a}\u{b}\u{c}\u{d}\u{e}\u{f}\u{10}\u{11}\u{12}\u{13}\u{14}\u{15}\u{16}\u{17}\u{18}\u{19}\u{1a}\u{1b}\u{1c}\u{1d}\u{1e}\u{1f}\u{20}\u{21}\u{22}\u{23}\u{24}\u{25}\u{26}\u{27}\u{28}\u{29}\u{2a}\u{2b}\u{2c}\u{2d}\u{2e}\u{2f}\u{30}\u{31}\u{32}\u{33}\u{34}\u{35}\u{36}\u{37}\u{38}\u{39}\u{3a}\u{3b}\u{3c}\u{3d}\u{3e}\u{3f}\u{40}\u{41}\u{42}\u{43}\u{44}\u{45}\u{46}\u{47}\u{48}\u{49}\u{4a}\u{4b}\u{4c}\u{4d}\u{4e}\u{4f}\u{50}\u{51}\u{52}\u{53}\u{54}\u{55}\u{56}\u{57}\u{58}\u{59}\u{5a}\u{5b}\u{5c}\u{5d}\u{5e}\u{5f}\u{60}\u{61}\u{62}\u{63}\u{64}\u{65}\u{66}\u{67}\u{68}\u{69}\u{6a}\u{6b}\u{6c}\u{6d}\u{6e}\u{6f}\u{70}\u{71}\u{72}\u{73}\u{74}\u{75}\u{76}\u{77}\u{78}\u{79}\u{7a}\u{7b}\u{7c}\u{7d}\u{7e}\u{7f}");
        assert(t@.len() == 128);
    }
    let r = t.substring_char(b as usize, b as usize + 1);
    proof {
        assert(r@ =~= seq![t@[b as int]]);
        assert(t@[b as int] == b as char);
    }
    r
}

/// The name spelled by the `len` bytes at `from`, where each is below 128.
fn read_name(b: &Vec<u8>, from: usize, len: usize) -> (r: Option<String>)
    requires
        from + len <= b@.len(),
        len <= 128,
    ensures
        r matches Some(s) ==> name_ok(s@) && s@.len() == len && name_bytes(s@) == b@.subrange(
            from as int,
            from + len,
        ),
        r is None ==> exists|j: int| from <= j < from + len && #[trigger] b@[j] >= 128,
{
    let mut s = String::new();
    let mut i: usize = 0;
    while i < len
        invariant
            i <= len,
            len <= 128,
            from + len <= b.len(),
            s@.len() == i,
            forall|j: int| 0 <= j < i ==> (#[trigger] s@[j] as u32) < 128 && ((s@[j] as u32) as u8) == b@[from + j],
        decreases len - i,
    {
        let c = b[from + i];
        if c >= 128 {
            proof {
                assert(b@[from + i as int] >= 128);
            }
            return None;
        }
        let ghost before = s@;
        s.append(ascii_text(c));
        proof {
            assert(s@ =~= before.push(c as char));
        }
        i = i + 1;
    }
    proof {
        assert(name_bytes(s@) =~= b@.subrange(from as int, from + len));
    }
    Some(s)
}

/// The integer whose two's complement on 128 bits is `x`.
fn from_twos_complement(x: u128) -> (r: i128)
    ensures
        twos_complement(r) == x as nat,
{
    if x > 0x7fff_ffff_ffff_ffff_ffff_ffff_ffff_ffff {
        let a: u128 = u128::MAX - x;
        let m: i128 = a as i128;
        -m - 1
    } else {
        x as i128
    }
}

/// The bytes `from .. to` of `b`.
pub(crate) fn copy_bytes(b: &Vec<u8>, from: usize, to: usize) -> (r: Vec<u8>)
    requires
        from <= to <= b@.len(),
    ensures
        r@ == b@.subrange(from as int, to as int),
{
    let mut r: Vec<u8> = Vec::new();
    let mut i = from;
    while i < to
        invariant
            from <= i <= to,
            to <= b@.len(),
            r@ == b@.subrange(from as int, i as int),
        decreases to - i,
    {
        r.push(b[i]);
        proof {
            assert(r@ =~= b@.subrange(from as int, i + 1));
        }
        i = i + 1;
    }
    r
}

/// Whether `p` is a type prefix that this library reads.
pub open spec fn read_prefix(p: u8) -> bool {
    p <= 4 || (7 <= p <= 13)
}

/// Reads the value serialized at `pos` in `b`: the value and where its serialization ends.
/// `None` where the bytes there are no serialization that this library reads; a value read
/// serializes to exactly the bytes it was read from, and where the bytes start with the
/// serialization of a value, it is read, to the end of that serialization.
#[verifier::spinoff_prover]
#[verifier::rlimit(60)]
pub fn read_value(b: &Vec<u8>, pos: usize) -> (r: Option<(Value, usize)>)
    ensures
        r matches Some((v, e)) ==> pos < e <= b@.len() && serializable(v) && b@.subrange(pos as int, e as int)
            == serialization(v),
        pos < b@.len() && !read_prefix(b@[pos as int]) ==> r is None,
        forall|v: Value|
            #[trigger] starts_with_value(b@, pos as int, v) ==> (r matches Some((w, e)) && e == pos + serialization(
                v,
            ).len()),
    decreases b@.len() - pos,
{
    proof {
        assert forall|v: Value| #[trigger] starts_with_value(b@, pos as int, v) implies pos < b@.len() && b@[pos as int]
            == value_prefix(v) by {
            lemma_first_byte(v);
            assert(b@[pos as int] == b@.subrange(pos as int, pos + serialization(v).len())[0]);
        }
    }
    if pos >= b.len() {
        return None;
    }
    let p = b[pos];
    if p == 0 || p == 1 {
        proof {
            assert forall|v: Value| #[trigger] starts_with_value(b@, pos as int, v) implies pos + 17 <= b@.len()
                && serialization(v).len() == 17 by {
                lemma_be_bound(0, 16);
                match v {
                    Value::Int(i) => lemma_be_bound(twos_complement(i), 16),
                    Value::UInt(u) => lemma_be_bound(u as nat, 16),
                    _ => {},
                }
            }
        }
        match read_be(b, pos + 1, 16) {
            Some(x) => {
                let v = if p == 0 {
                    Value::Int(from_twos_complement(x))
                } else {
                    Value::UInt(x)
                };
                proof {
                    assert(b@.subrange(pos as int, pos + 17) =~= seq![p] + b@.subrange(pos + 1, pos + 17));
                }
                Some((v, pos + 17))
            },
            None => None,
        }
    } else if p == 2 || p == 13 {
        match read_be(b, pos + 1, 4) {
            Some(n) => {
                proof {
                    lemma_pow256_mono(4, 4);
                    reveal_with_fuel(pow256, 5);
                    lemma_be_bound(n as nat, 4);
                    assert forall|v: Value| #[trigger] starts_with_value(b@, pos as int, v) implies (v is Buffer
                        || v is StringAscii) && n == serialization(v).len() - 5 by {
                        let bytes = if v is Buffer {
                            v->Buffer_0@
                        } else {
                            v->StringAscii_0@
                        };
                        let sv = serialization(v);
                        lemma_be_bound(bytes.len(), 4);
                        assert(sv =~= seq![p] + be_bytes(bytes.len(), 4) + bytes);
                        assert(b@.subrange(pos + 1, pos + 5) =~= sv.subrange(1, 5));
                        assert(sv.subrange(1, 5) =~= be_bytes(bytes.len(), 4));
                        lemma_be_injective(n as nat, bytes.len(), 4);
                    }
                }
                if n > (b.len() - (pos + 5)) as u128 {
                    return None;
                }
                let end = pos + 5 + n as usize;
                let bytes = copy_bytes(b, pos + 5, end);
                proof {
                    assert(b@.subrange(pos as int, end as int) =~= seq![p] + b@.subrange(pos + 1, pos + 5) + bytes@);
                }
                let v = if p == 2 {
                    Value::Buffer(bytes)
                } else {
                    Value::StringAscii(bytes)
                };
                Some((v, end))
            },
            None => {
                proof {
                    assert forall|v: Value| #[trigger] starts_with_value(b@, pos as int, v) implies false by {
                        let bytes = if v is Buffer {
                            v->Buffer_0@
                        } else {
                            v->StringAscii_0@
                        };
                        lemma_be_bound(bytes.len(), 4);
                        assert(serialization(v) =~= seq![p] + be_bytes(bytes.len(), 4) + bytes);
                        assert(serialization(v).len() >= 5);
                    }
                }
                None
            },
        }
    } else if p == 3 || p == 4 {
        proof {
            assert(b@.subrange(pos as int, pos + 1) =~= seq![p]);
        }
        Some((Value::Bool(p == 3), pos + 1))
    } else if p == 9 {
        proof {
            assert(b@.subrange(pos as int, pos + 1) =~= seq![p]);
        }
        Some((Value::OptionalNone, pos + 1))
    } else if p == 7 || p == 8 || p == 10 {
        let inner = read_value(b, pos + 1);
        proof {
            assert forall|v: Value| #[trigger] starts_with_value(b@, pos as int, v) implies (inner matches Some((w, e))
                && e == pos + serialization(v).len()) by {
                let x = if v is ResponseOk {
                    *v->ResponseOk_0
                } else if v is ResponseErr {
                    *v->ResponseErr_0
                } else {
                    *v->OptionalSome_0
                };
                let sv = serialization(v);
                assert(sv =~= seq![p] + serialization(x));
                assert(b@.subrange(pos + 1, pos + 1 + serialization(x).len()) =~= sv.subrange(1, sv.len() as int));
                assert(serializable(x));
                assert(pos + 1 + serialization(x).len() <= b@.len());
                assert(sv.subrange(1, sv.len() as int) =~= serialization(x));
                assert(starts_with_value(b@, pos + 1, x));
            }
        }
        match inner {
            Some((x, e)) => {
                proof {
                    assert(b@.subrange(pos as int, e as int) =~= seq![p] + b@.subrange(pos + 1, e as int));
                }
                let v = if p == 7 {
                    Value::ResponseOk(Box::new(x))
                } else if p == 8 {
                    Value::ResponseErr(Box::new(x))
                } else {
                    Value::OptionalSome(Box::new(x))
                };
                Some((v, e))
            },
            None => None,
        }
    } else if p == 11 {
        let n = match read_be(b, pos + 1, 4) {
            Some(n) => n,
            None => {
                proof {
                    assert forall|v: Value| #[trigger] starts_with_value(b@, pos as int, v) implies false by {
                        let l = v->List_0@;
                        lemma_be_bound(l.len(), 4);
                        assert(serialization(v) =~= seq![11u8] + be_bytes(l.len(), 4) + items_serialization(l, l.len() as int));
                    }
                }
                return None;
            },
        };
        proof {
            lemma_be_bound(n as nat, 4);
            reveal_with_fuel(pow256, 5);
            assert(pow256(4) == 0x1_0000_0000);
            assert forall|v: Value| #[trigger] starts_with_value(b@, pos as int, v) implies v is List && n == v->List_0@.len() by {
                let l = v->List_0@;
                let sv = serialization(v);
                lemma_be_bound(l.len(), 4);
                assert(sv =~= seq![11u8] + be_bytes(l.len(), 4) + items_serialization(l, l.len() as int));
                assert(b@.subrange(pos + 1, pos + 5) =~= sv.subrange(1, 5));
                assert(sv.subrange(1, 5) =~= be_bytes(l.len(), 4));
                lemma_be_injective(n as nat, l.len(), 4);
            }
        }
        let mut items: Vec<Value> = Vec::new();
        let mut at = pos + 5;
        let mut i: u128 = 0;
        while i < n
            invariant
                i <= n,
                n < 0x1_0000_0000,
                pos + 5 <= at <= b@.len(),
                items@.len() == i,
                items_serializable(items@, i as int),
                b@.subrange(pos + 5, at as int) == items_serialization(items@, i as int),
                forall|v: Value|
                    #[trigger] starts_with_value(b@, pos as int, v) ==> v is List && n == v->List_0@.len() && at == pos
                        + 5 + items_serialization(v->List_0@, i as int).len(),
            decreases n - i,
        {
            let next = read_value(b, at);
            proof {
                assert forall|v: Value| #[trigger] starts_with_value(b@, pos as int, v) implies (next matches Some((w, e))
                    && e == at + serialization(v->List_0@[i as int]).len()) by {
                    let l = v->List_0@;
                    let sv = serialization(v);
                    lemma_be_bound(l.len(), 4);
                    lemma_items_serialization_prefix(l, i as int, i + 1);
                    lemma_items_serialization_prefix(l, i + 1, l.len() as int);
                    lemma_items_serializable_each(l, l.len() as int, i as int);
                    let a = items_serialization(l, i as int);
                    let x = l[i as int];
                    let whole = items_serialization(l, l.len() as int);
                    let al = a.len() as int;
                    let xl = serialization(x).len() as int;
                    assert(sv =~= seq![11u8] + be_bytes(l.len(), 4) + whole);
                    assert(items_serialization(l, i + 1) == a + serialization(x));
                    assert(whole.subrange(al, al + xl) =~= serialization(x)) by {
                        assert(whole.subrange(0, al + xl) == a + serialization(x));
                        assert(whole.subrange(al, al + xl) =~= whole.subrange(
                            0,
                            al + xl,
                        ).subrange(al, al + xl));
                    }
                    assert(sv.subrange(5 + al, 5 + al + xl) =~= whole.subrange(al, al + xl));
                    assert(serializable(x));
                    assert(al + xl <= whole.len());
                    assert(at == pos + 5 + al);
                    assert(at + xl <= b@.len());
                    assert(b@.subrange(at as int, at + xl) =~= sv.subrange(5 + al, 5 + al + xl));
                    assert(b@.subrange(at as int, at + xl) =~= serialization(x));
                    assert(starts_with_value(b@, at as int, x));
                }
            }
            match next {
                Some((x, e)) => {
                    let ghost before = items@;
                    items.push(x);
                    proof {
                        assert(items@.subrange(0, i as int) =~= before);
                        lemma_items_push(before, x);
                        assert(b@.subrange(pos + 5, e as int) =~= b@.subrange(pos + 5, at as int) + b@.subrange(
                            at as int,
                            e as int,
                        ));
                        assert forall|v: Value| #[trigger] starts_with_value(b@, pos as int, v) implies e == pos + 5
                            + items_serialization(v->List_0@, i + 1).len() by {
                            let l = v->List_0@;
                            assert(items_serialization(l, i + 1) == items_serialization(l, i as int) + serialization(
                                l[i as int],
                            ));
                        }
                    }
                    at = e;
                },
                None => return None,
            }
            i = i + 1;
        }
        proof {
            assert(b@.subrange(pos as int, at as int) =~= seq![11u8] + b@.subrange(pos + 1, pos + 5) + b@.subrange(
                pos + 5,
                at as int,
            ));
            assert forall|v: Value| #[trigger] starts_with_value(b@, pos as int, v) implies at == pos + serialization(
                v,
            ).len() by {
                let l = v->List_0@;
                lemma_be_bound(l.len(), 4);
                assert(serialization(v) =~= seq![11u8] + be_bytes(l.len(), 4) + items_serialization(l, l.len() as int));
            }
        }
        Some((Value::List(items), at))
    } else if p == 12 {
        let n = match read_be(b, pos + 1, 4) {
            Some(n) => n,
            None => {
                proof {
                    assert forall|v: Value| #[trigger] starts_with_value(b@, pos as int, v) implies false by {
                        let f = v->Tuple_0@;
                        lemma_be_bound(f.len(), 4);
                        assert(serialization(v) =~= seq![12u8] + be_bytes(f.len(), 4) + fields_serialization(f, f.len() as int));
                        assert(serialization(v).len() >= 5);
                    }
                }
                return None;
            },
        };
        proof {
            lemma_be_bound(n as nat, 4);
            reveal_with_fuel(pow256, 5);
            assert(pow256(4) == 0x1_0000_0000);
            assert forall|v: Value| #[trigger] starts_with_value(b@, pos as int, v) implies v is Tuple && n == v->Tuple_0@.len() by {
                let f = v->Tuple_0@;
                let sv = serialization(v);
                lemma_be_bound(f.len(), 4);
                assert(sv =~= seq![12u8] + be_bytes(f.len(), 4) + fields_serialization(f, f.len() as int));
                assert(b@.subrange(pos + 1, pos + 5) =~= sv.subrange(1, 5));
                assert(sv.subrange(1, 5) =~= be_bytes(f.len(), 4));
                lemma_be_injective(n as nat, f.len(), 4);
            }
        }
        let mut fields: Vec<(ClarityName, Value)> = Vec::new();
        let mut at = pos + 5;
        let mut i: u128 = 0;
        while i < n
            invariant
                i <= n,
                n < 0x1_0000_0000,
                pos + 5 <= at <= b@.len(),
                fields@.len() == i,
                fields_serializable(fields@, i as int),
                b@.subrange(pos + 5, at as int) == fields_serialization(fields@, i as int),
                forall|v: Value|
                    #[trigger] starts_with_value(b@, pos as int, v) ==> v is Tuple && n == v->Tuple_0@.len() && at == pos
                        + 5 + fields_serialization(v->Tuple_0@, i as int).len(),
            decreases n - i,
        {
            let ghost at0 = at;
            proof {
                assert forall|v: Value| #[trigger] starts_with_value(b@, pos as int, v) implies ({
                    let fd = v->Tuple_0@[i as int];
                    let nb = name_bytes(fd.0@);
                    &&& name_ok(fd.0@)
                    &&& at + 1 + nb.len() <= b@.len()
                    &&& b@[at as int] == fd.0@.len() as u8
                    &&& nb.len() == fd.0@.len()
                    &&& b@.subrange(at + 1, at + 1 + nb.len()) == nb
                    &&& starts_with_value(b@, at + 1 + nb.len(), fd.1)
                }) by {
                    let f = v->Tuple_0@;
                    let sv = serialization(v);
                    let fd = f[i as int];
                    let nb = name_bytes(fd.0@);
                    lemma_be_bound(f.len(), 4);
                    lemma_fields_serialization_prefix(f, i as int, i + 1);
                    lemma_fields_serialization_prefix(f, i + 1, f.len() as int);
                    lemma_fields_serializable_each_name(f, f.len() as int, i as int);
                    let a = fields_serialization(f, i as int);
                    let piece = seq![fd.0@.len() as u8] + nb + serialization(fd.1);
                    let whole = fields_serialization(f, f.len() as int);
                    let al = a.len() as int;
                    let pl = piece.len() as int;
                    let nl = nb.len() as int;
                    let sl = serialization(fd.1).len() as int;
                    assert(sv =~= seq![12u8] + be_bytes(f.len(), 4) + whole);
                    assert(fields_serialization(f, i + 1) =~= a + piece);
                    assert(whole.subrange(al, al + pl) =~= piece) by {
                        assert(whole.subrange(0, al + pl) == a + piece);
                        assert(whole.subrange(al, al + pl) =~= whole.subrange(
                            0,
                            al + pl,
                        ).subrange(al, al + pl));
                    }
                    assert(b@.subrange(at as int, at + pl) =~= sv.subrange(5 + al, 5 + al + pl));
                    assert(sv.subrange(5 + al, 5 + al + pl) =~= whole.subrange(al, al + pl));
                    assert(b@.subrange(at as int, at + pl) =~= piece);
                    assert(b@[at as int] == piece[0]);
                    assert(b@.subrange(at + 1, at + 1 + nl) =~= piece.subrange(1, 1 + nl));
                    assert(piece.subrange(1, 1 + nl) =~= nb);
                    assert(b@.subrange(at + 1 + nl, at + 1 + nl + sl) =~= piece.subrange(
                        1 + nl,
                        pl,
                    ));
                    assert(piece.subrange(1 + nl, pl) =~= serialization(fd.1));
                }
            }
            if at >= b.len() {
                return None;
            }
            let len = b[at] as usize;
            if len > 128 || len > b.len() - (at + 1) {
                return None;
            }
            let name = match read_name(b, at + 1, len) {
                Some(s) => s,
                None => {
                    proof {
                        assert forall|v: Value| #[trigger] starts_with_value(b@, pos as int, v) implies false by {
                            let fd = v->Tuple_0@[i as int];
                            let nb = name_bytes(fd.0@);
                            let jj = choose|jj: int| at + 1 <= jj < at + 1 + len && #[trigger] b@[jj] >= 128;
                            let j = jj - (at + 1);
                            assert(b@[jj] == b@.subrange(at + 1, at + 1 + nb.len())[j]);
                            let w: u32 = fd.0@[j] as u32;
                            assert(nb[j] == w as u8);
                            assert(w < 128);
                            assert((w as u8) < 128) by (bit_vector)
                                requires
                                    w < 128,
                            ;
                        }
                    }
                    return None;
                },
            };
            let after_name = at + 1 + len;
            let next = read_value(b, after_name);
            proof {
                assert forall|v: Value| #[trigger] starts_with_value(b@, pos as int, v) implies (next matches Some((w, e))
                    && e == after_name + serialization(v->Tuple_0@[i as int].1).len()) by {
                    let fd = v->Tuple_0@[i as int];
                    assert(starts_with_value(b@, at + 1 + name_bytes(fd.0@).len(), fd.1));
                }
            }
            match next {
                Some((x, e)) => {
                    let ghost before = fields@;
                    let ghost nv = name@;
                    fields.push((name, x));
                    proof {
                        assert(fields@.subrange(0, i as int) =~= before);
                        lemma_fields_push(before, fields@[i as int]);
                        assert(b@.subrange(pos + 5, e as int) =~= b@.subrange(pos + 5, at as int) + seq![b@[at as int]]
                            + b@.subrange(at + 1, after_name as int) + b@.subrange(after_name as int, e as int));
                        assert(b@[at as int] == nv.len() as u8);
                        assert forall|v: Value| #[trigger] starts_with_value(b@, pos as int, v) implies e == pos + 5
                            + fields_serialization(v->Tuple_0@, i + 1).len() by {
                            let f = v->Tuple_0@;
                            let fd = f[i as int];
                            assert(fields_serialization(f, i + 1) =~= fields_serialization(f, i as int) + seq![
                                fd.0@.len() as u8,
                            ] + name_bytes(fd.0@) + serialization(fd.1));
                        }
                    }
                    at = e;
                },
                None => return None,
            }
            i = i + 1;
        }
        proof {
            assert(b@.subrange(pos as int, at as int) =~= seq![12u8] + b@.subrange(pos + 1, pos + 5) + b@.subrange(
                pos + 5,
                at as int,
            ));
            assert forall|v: Value| #[trigger] starts_with_value(b@, pos as int, v) implies at == pos + serialization(
                v,
            ).len() by {
                let f = v->Tuple_0@;
                lemma_be_bound(f.len(), 4);
                assert(serialization(v) =~= seq![12u8] + be_bytes(f.len(), 4) + fields_serialization(f, f.len() as int));
            }
        }
        Some((Value::Tuple(fields), at))
    } else {
        None
    }
}

/// The type prefix that the serialization of `v` starts with.
pub open spec fn value_prefix(v: Value) -> u8 {
    match v {
        Value::Int(_) => 0,
        Value::UInt(_) => 1,
        Value::Buffer(_) => 2,
        Value::Bool(t) => if t {
            3
        } else {
            4
        },
        Value::ResponseOk(_) => 7,
        Value::ResponseErr(_) => 8,
        Value::OptionalNone => 9,
        Value::OptionalSome(_) => 10,
        Value::List(_) => 11,
        Value::Tuple(_) => 12,
        Value::StringAscii(_) => 13,
        _ => 255,
    }
}

/// The serialization of a serializable value starts with its type prefix, one that is read.
pub proof fn lemma_first_byte(v: Value)
    requires
        serializable(v),
    ensures
        serialization(v).len() >= 1,
        serialization(v)[0] == value_prefix(v),
        read_prefix(value_prefix(v)),
{
}

/// Each of the first `n` fields of a serializable tuple has a name that can stand in it.
pub(crate) proof fn lemma_fields_serializable_each_name(fields: Seq<(ClarityName, Value)>, n: int, i: int)
    requires
        fields_serializable(fields, n),
        0 <= i < n <= fields.len(),
    ensures
        name_ok(fields[i].0@),
        serializable(fields[i].1),
    decreases n,
{
    if i < n - 1 {
        lemma_fields_serializable_each_name(fields, n - 1, i);
    }
}

/// The bytes of a number below `256^k`.
proof fn lemma_be_bound(x: nat, k: nat)
    ensures
        be_bytes(x, k).len() == k,
    decreases k,
{
    if k > 0 {
        lemma_be_bound(x / 256, (k - 1) as nat);
    }
}

/// Adding an item to a list adds its serialization.
proof fn lemma_items_push(items: Seq<Value>, x: Value)
    ensures
        items_serialization(items.push(x), (items.len() + 1) as int) == items_serialization(items, items.len() as int)
            + serialization(x),
        items_serializable(items.push(x), (items.len() + 1) as int) == (items_serializable(items, items.len() as int)
            && serializable(x)),
{
    lemma_items_prefix_same(items, items.push(x), items.len() as int);
}

/// The first `n` items of two sequences that agree on them serialize alike.
proof fn lemma_items_prefix_same(a: Seq<Value>, b: Seq<Value>, n: int)
    requires
        0 <= n <= a.len(),
        n <= b.len(),
        forall|j: int| 0 <= j < n ==> a[j] == b[j],
    ensures
        items_serialization(a, n) == items_serialization(b, n),
        items_serializable(a, n) == items_serializable(b, n),
    decreases n,
{
    if n > 0 {
        lemma_items_prefix_same(a, b, n - 1);
    }
}

/// Adding a field to a tuple adds its serialization.
proof fn lemma_fields_push(fields: Seq<(ClarityName, Value)>, f: (ClarityName, Value))
    ensures
        fields_serialization(fields.push(f), (fields.len() + 1) as int) == fields_serialization(fields, fields.len() as int)
            + seq![f.0@.len() as u8] + name_bytes(f.0@) + serialization(f.1),
        fields_serializable(fields.push(f), (fields.len() + 1) as int) == (fields_serializable(fields, fields.len() as int)
            && name_ok(f.0@) && serializable(f.1)),
{
    lemma_fields_prefix_same(fields, fields.push(f), fields.len() as int);
}

/// The first `n` fields of two sequences that agree on them serialize alike.
proof fn lemma_fields_prefix_same(a: Seq<(ClarityName, Value)>, b: Seq<(ClarityName, Value)>, n: int)
    requires
        0 <= n <= a.len(),
        n <= b.len(),
        forall|j: int| 0 <= j < n ==> a[j] == b[j],
    ensures
        fields_serialization(a, n) == fields_serialization(b, n),
        fields_serializable(a, n) == fields_serializable(b, n),
    decreases n,
{
    if n > 0 {
        lemma_fields_prefix_same(a, b, n - 1);
    }
}

/// Each of the first `n` items of a serializable list is serializable.
pub(crate) proof fn lemma_items_serializable_each(items: Seq<Value>, n: int, i: int)
    requires
        items_serializable(items, n),
        0 <= i < n <= items.len(),
    ensures
        serializable(items[i]),
    decreases n,
{
    if i < n - 1 {
        lemma_items_serializable_each(items, n - 1, i);
    }
}

/// Each of the first `n` fields of a serializable tuple holds a serializable value.
pub(crate) proof fn lemma_fields_serializable_each(fields: Seq<(ClarityName, Value)>, n: int, i: int)
    requires
        fields_serializable(fields, n),
        0 <= i < n <= fields.len(),
    ensures
        serializable(fields[i].1),
    decreases n,
{
    if i < n - 1 {
        lemma_fields_serializable_each(fields, n - 1, i);
    }
}


/// Whether the bytes of `b` at `pos` start with the serialization of `v`, a value that this
/// library serializes.
pub open spec fn starts_with_value(b: Seq<u8>, pos: int, v: Value) -> bool {
    &&& serializable(v)
    &&& 0 <= pos
    &&& pos + serialization(v).len() <= b.len()
    &&& b.subrange(pos, pos + serialization(v).len()) == serialization(v)
}

/// Two numbers below `256^k` with the same `k` bytes are equal.
pub(crate) proof fn lemma_be_injective(x: nat, y: nat, k: nat)
    requires
        x < pow256(k),
        y < pow256(k),
        be_bytes(x, k) == be_bytes(y, k),
    ensures
        x == y,
    decreases k,
{
    if k == 0 {
    } else {
        let bx = be_bytes(x, k);
        let by = be_bytes(y, k);
        assert(bx.last() == by.last());
        assert(bx.drop_last() =~= be_bytes(x / 256, (k - 1) as nat));
        assert(by.drop_last() =~= be_bytes(y / 256, (k - 1) as nat));
        assert(x / 256 < pow256((k - 1) as nat) && y / 256 < pow256((k - 1) as nat)) by (nonlinear_arith)
            requires
                x < pow256((k - 1) as nat) * 256,
                y < pow256((k - 1) as nat) * 256,
        ;
        lemma_be_injective(x / 256, y / 256, (k - 1) as nat);
        assert(x % 256 == y % 256);
        assert(x == 256 * (x / 256) + x % 256 && y == 256 * (y / 256) + y % 256) by (nonlinear_arith);
    }
}

/// The serializations of the first `m` items start those of the first `n`.
proof fn lemma_items_serialization_prefix(items: Seq<Value>, m: int, n: int)
    requires
        0 <= m <= n <= items.len(),
    ensures
        items_serialization(items, m).len() <= items_serialization(items, n).len(),
        items_serialization(items, n).subrange(0, items_serialization(items, m).len() as int) == items_serialization(
            items,
            m,
        ),
    decreases n,
{
    if m < n {
        lemma_items_serialization_prefix(items, m, n - 1);
        let a = items_serialization(items, m);
        let c = items_serialization(items, n - 1);
        assert(items_serialization(items, n).subrange(0, a.len() as int) =~= c.subrange(0, a.len() as int));
    } else {
        assert(items_serialization(items, n).subrange(0, items_serialization(items, n).len() as int) =~= items_serialization(items, n));
    }
}

/// The serializations of the first `m` fields start those of the first `n`.
proof fn lemma_fields_serialization_prefix(fields: Seq<(ClarityName, Value)>, m: int, n: int)
    requires
        0 <= m <= n <= fields.len(),
    ensures
        fields_serialization(fields, m).len() <= fields_serialization(fields, n).len(),
        fields_serialization(fields, n).subrange(0, fields_serialization(fields, m).len() as int)
            == fields_serialization(fields, m),
    decreases n,
{
    if m < n {
        lemma_fields_serialization_prefix(fields, m, n - 1);
        let a = fields_serialization(fields, m);
        let c = fields_serialization(fields, n - 1);
        assert(fields_serialization(fields, n).subrange(0, a.len() as int) =~= c.subrange(0, a.len() as int));
    } else {
        assert(fields_serialization(fields, n).subrange(0, fields_serialization(fields, n).len() as int) =~= fields_serialization(fields, n));
    }
}


/// The `k` bytes of a number are `k` bytes.
pub(crate) proof fn lemma_be_len(x: nat, k: nat)
    ensures
        be_bytes(x, k).len() == k,
{
    lemma_be_bound(x, k);
}

pub(crate) proof fn lemma_pow256_4()
    ensures
        pow256(4) == 0x1_0000_0000,
{
    reveal_with_fuel(pow256, 5);
}

pub(crate) proof fn lemma_pow256_16()
    ensures
        pow256(16) == 0x1_0000_0000_0000_0000_0000_0000_0000_0000,
{
    lemma_pow256_bound(15);
    reveal_with_fuel(pow256, 16);
}


/// The two's complement of a 128-bit integer is below `2^128`.
pub(crate) proof fn lemma_twos_below(i: i128)
    ensures
        twos_complement(i) < pow256(16),
{
    lemma_pow256_16();
}

/// Different integers have different two's complements.
pub(crate) proof fn lemma_twos_injective(i: i128, j: i128)
    requires
        twos_complement(i) == twos_complement(j),
    ensures
        i == j,
{
}


/// Names of characters below 128 with the same bytes are the same.
pub(crate) proof fn lemma_name_bytes_injective(a: Seq<char>, b: Seq<char>)
    requires
        name_ok(a),
        name_ok(b),
        name_bytes(a) == name_bytes(b),
    ensures
        a == b,
{
    assert(a.len() == name_bytes(a).len());
    assert forall|i: int| 0 <= i < a.len() implies a[i] == b[i] by {
        let x: u32 = a[i] as u32;
        let y: u32 = b[i] as u32;
        assert(name_bytes(a)[i] == x as u8);
        assert(name_bytes(b)[i] == y as u8);
        assert(x < 128 && y < 128);
        assert(x == y) by (bit_vector)
            requires
                x < 128,
                y < 128,
                x as u8 == y as u8,
        ;
        vstd::utf8::char_u32_cast(a[i], x);
        vstd::utf8::char_u32_cast(b[i], y);
    }
    assert(a =~= b);
}

} // verus!
