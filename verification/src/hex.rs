use vstd::prelude::*;
use vstd::string::*;
use crate::parser::{chars_of, hex_value, is_space, char_is_space};

verus! {

broadcast use vstd::std_specs::vec::group_vec_axioms;

/// The value of a hexadecimal digit (either case).
pub open spec fn hex_digit_value(c: char) -> Option<u8> {
    if '0' <= c && c <= '9' {
        Some(((c as u32) - 48) as u8)
    } else if 'a' <= c && c <= 'f' {
        Some(((c as u32) - 87) as u8)
    } else if 'A' <= c && c <= 'F' {
        Some(((c as u32) - 55) as u8)
    } else {
        None
    }
}

/// The lowercase hexadecimal digit of a value below 16.
pub open spec fn hex_digit(v: u8) -> char {
    if v < 10 {
        ((v + 48) as u32) as char
    } else {
        ((v + 87) as u32) as char
    }
}

/// Two lowercase hexadecimal digits per byte.
pub open spec fn hex_of(bytes: Seq<u8>) -> Seq<char>
    decreases bytes.len(),
{
    if bytes.len() == 0 {
        Seq::empty()
    } else {
        hex_of(bytes.drop_last()) + seq![hex_digit(bytes.last() / 16), hex_digit(bytes.last() % 16)]
    }
}

/// Whether `chars` are pairs of hexadecimal digits that spell `bytes`.
pub open spec fn spells_bytes(chars: Seq<char>, bytes: Seq<u8>) -> bool {
    &&& chars.len() == 2 * bytes.len()
    &&& forall|i: int|
        0 <= i < bytes.len() ==> hex_digit_value(chars[2 * i]) is Some && hex_digit_value(chars[2 * i + 1]) is Some
            && #[trigger] bytes[i] == 16 * hex_digit_value(chars[2 * i])->0 + hex_digit_value(chars[2 * i + 1])->0
}

/// Whether every character of `chars` is a hexadecimal digit.
pub open spec fn all_hex(chars: Seq<char>) -> bool {
    forall|i: int| 0 <= i < chars.len() ==> hex_digit_value(#[trigger] chars[i]) is Some
}

fn hex_char(v: u8) -> (r: &'static str)
    requires
        v < 16,
    ensures
        r@ == seq![hex_digit(v)],
{
    proof {
        reveal_strlit("0");
        reveal_strlit("1");
        reveal_strlit("2");
        reveal_strlit("3");
        reveal_strlit("4");
        reveal_strlit("5");
        reveal_strlit("6");
        reveal_strlit("7");
        reveal_strlit("8");
        reveal_strlit("9");
        reveal_strlit("a");
        reveal_strlit("b");
        reveal_strlit("c");
        reveal_strlit("d");
        reveal_strlit("e");
        reveal_strlit("f");
    }
    if v == 0 {
        "0"
    } else if v == 1 {
        "1"
    } else if v == 2 {
        "2"
    } else if v == 3 {
        "3"
    } else if v == 4 {
        "4"
    } else if v == 5 {
        "5"
    } else if v == 6 {
        "6"
    } else if v == 7 {
        "7"
    } else if v == 8 {
        "8"
    } else if v == 9 {
        "9"
    } else if v == 10 {
        "a"
    } else if v == 11 {
        "b"
    } else if v == 12 {
        "c"
    } else if v == 13 {
        "d"
    } else if v == 14 {
        "e"
    } else {
        "f"
    }
}

/// The lowercase hexadecimal text of `bytes`.
pub fn to_hex(bytes: &Vec<u8>) -> (r: String)
    ensures
        r@ == hex_of(bytes@),
{
    let mut r = String::new();
    let mut i: usize = 0;
    while i < bytes.len()
        invariant
            i <= bytes@.len(),
            r@ == hex_of(bytes@.subrange(0, i as int)),
        decreases bytes.len() - i,
    {
        let b = bytes[i];
        r.append(hex_char(b / 16));
        r.append(hex_char(b % 16));
        proof {
            let s = bytes@.subrange(0, i + 1);
            assert(s.drop_last() =~= bytes@.subrange(0, i as int));
            assert(s.last() == b);
        }
        i = i + 1;
    }
    proof {
        assert(bytes@.subrange(0, bytes@.len() as int) =~= bytes@);
    }
    r
}

/// Why hexadecimal text could not be read.
#[derive(Debug, Clone, Copy, PartialEq, Eq, Structural)]
pub enum DecodeHexError {
    /// A character is not a hexadecimal digit.
    InvalidDigit,
    /// The text has an odd number of digits.
    OddLength,
}

impl DecodeHexError {
    /// The message that tells a user what went wrong.
    pub fn message(&self) -> (r: String)
        ensures
            *self == DecodeHexError::InvalidDigit ==> r@ == "invalid digit found in string"@,
            *self == DecodeHexError::OddLength ==> r@ == "odd number of hex digits"@,
    {
        match self {
            DecodeHexError::InvalidDigit => String::from_str("invalid digit found in string"),
            DecodeHexError::OddLength => String::from_str("odd number of hex digits"),
        }
    }
}

/// Reads pairs of hexadecimal digits as bytes.
pub fn hex_chars_to_bytes(chars: &Vec<char>) -> (r: Result<Vec<u8>, DecodeHexError>)
    ensures
        r matches Ok(v) ==> spells_bytes(chars@, v@),
        r is Ok <==> chars@.len() % 2 == 0 && all_hex(chars@),
        r matches Err(e) ==> (e == DecodeHexError::OddLength <==> chars@.len() % 2 != 0),
{
    let n = chars.len();
    if n % 2 != 0 {
        return Err(DecodeHexError::OddLength);
    }
    let mut bytes: Vec<u8> = Vec::new();
    let mut i: usize = 0;
    while i < n
        invariant
            n == chars@.len(),
            n % 2 == 0,
            i % 2 == 0,
            i <= n,
            bytes@.len() * 2 == i,
            spells_bytes(chars@.subrange(0, i as int), bytes@),
            all_hex(chars@.subrange(0, i as int)),
        decreases n - i,
    {
        let hi = hex_value(chars[i]);
        let lo = hex_value(chars[i + 1]);
        match (hi, lo) {
            (Some(h), Some(l)) => {
                let ghost before = bytes@;
                bytes.push(h * 16 + l);
                proof {
                    let c2 = chars@.subrange(0, i + 2);
                    assert forall|k: int| 0 <= k < bytes@.len() implies hex_digit_value(c2[2 * k]) is Some
                        && hex_digit_value(c2[2 * k + 1]) is Some && #[trigger] bytes@[k] == 16 * hex_digit_value(
                        c2[2 * k],
                    )->0 + hex_digit_value(c2[2 * k + 1])->0 by {
                        if k < before.len() {
                            assert(c2[2 * k] == chars@.subrange(0, i as int)[2 * k]);
                            assert(c2[2 * k + 1] == chars@.subrange(0, i as int)[2 * k + 1]);
                        }
                    }
                    assert forall|k: int| 0 <= k < c2.len() implies hex_digit_value(#[trigger] c2[k]) is Some by {
                        if k < i {
                            assert(c2[k] == chars@.subrange(0, i as int)[k]);
                        }
                    }
                }
            },
            _ => {
                proof {
                    if hi is None {
                        assert(hex_digit_value(chars@[i as int]) is None);
                    } else {
                        assert(hex_digit_value(chars@[i + 1]) is None);
                    }
                }
                return Err(DecodeHexError::InvalidDigit);
            },
        }
        i = i + 2;
    }
    proof {
        assert(chars@.subrange(0, n as int) =~= chars@);
    }
    Ok(bytes)
}

/// Reads hexadecimal text as bytes.
pub fn hex_bytes(s: &str) -> (r: Result<Vec<u8>, DecodeHexError>)
    ensures
        r matches Ok(v) ==> spells_bytes(s@, v@),
        r is Ok <==> s@.len() % 2 == 0 && all_hex(s@),
{
    let chars = chars_of(s);
    hex_chars_to_bytes(&chars)
}

/// The characters that `char::is_whitespace` accepts: those of the Unicode property
/// White_Space.
pub open spec fn is_whitespace(c: char) -> bool {
    ||| '\t' <= c <= '\r'
    ||| c == ' '
    ||| c == '\u{85}'
    ||| c == '\u{a0}'
    ||| c == '\u{1680}'
    ||| '\u{2000}' <= c <= '\u{200a}'
    ||| c == '\u{2028}'
    ||| c == '\u{2029}'
    ||| c == '\u{202f}'
    ||| c == '\u{205f}'
    ||| c == '\u{3000}'
}

pub fn char_is_whitespace(c: char) -> (r: bool)
    ensures
        r == is_whitespace(c),
{
    ('\t' <= c && c <= '\r') || c == ' ' || c == '\u{85}' || c == '\u{a0}' || c == '\u{1680}' || ('\u{2000}' <= c
        && c <= '\u{200a}') || c == '\u{2028}' || c == '\u{2029}' || c == '\u{202f}' || c == '\u{205f}' || c
        == '\u{3000}'
}

/// The characters of `s` other than white space, in order.
pub open spec fn without_whitespace(s: Seq<char>) -> Seq<char>
    decreases s.len(),
{
    if s.len() == 0 {
        Seq::empty()
    } else if is_whitespace(s.last()) {
        without_whitespace(s.drop_last())
    } else {
        without_whitespace(s.drop_last()).push(s.last())
    }
}

/// The digits of a hexadecimal text: without a leading `0x`, and without white space.
pub open spec fn hex_digits_of(s: Seq<char>) -> Seq<char> {
    without_whitespace(
        if s.len() >= 2 && s[0] == '0' && s[1] == 'x' {
            s.skip(2)
        } else {
            s
        },
    )
}

/// The number of bytes of a character in UTF-8.
pub open spec fn utf8_width(c: char) -> nat {
    if (c as u32) < 0x80 {
        1
    } else if (c as u32) < 0x800 {
        2
    } else if (c as u32) < 0x10000 {
        3
    } else {
        4
    }
}

/// The number of bytes of `s` in UTF-8.
pub open spec fn utf8_len(s: Seq<char>) -> nat
    decreases s.len(),
{
    if s.len() == 0 {
        0
    } else {
        utf8_len(s.drop_last()) + utf8_width(s.last())
    }
}

/// Whether every character of `s` is ASCII.
pub open spec fn all_ascii(s: Seq<char>) -> bool {
    forall|i: int| 0 <= i < s.len() ==> (#[trigger] s[i] as u32) < 0x80
}

/// The byte that a pair of characters writes, as `u8::from_str_radix(pair, 16)` reads it:
/// two hexadecimal digits, or `+` and one.
pub open spec fn radix16_pair(c0: char, c1: char) -> Option<u8> {
    if c0 == '+' {
        hex_digit_value(c1)
    } else {
        match (hex_digit_value(c0), hex_digit_value(c1)) {
            (Some(h), Some(l)) => Some((16 * h + l) as u8),
            _ => None,
        }
    }
}

/// Whether `bytes` are what the pairs of `d` write, one byte per pair.
pub open spec fn pairs_spell(d: Seq<char>, bytes: Seq<u8>) -> bool {
    &&& d.len() == 2 * bytes.len()
    &&& forall|k: int| 0 <= k < bytes.len() ==> radix16_pair(d[2 * k], d[2 * k + 1]) == Some(#[trigger] bytes[k])
}

/// Whether each pair of `d` writes a byte.
pub open spec fn pairs_ok(d: Seq<char>) -> bool {
    &&& d.len() % 2 == 0
    &&& forall|k: int| 0 <= k < d.len() / 2 ==> (#[trigger] radix16_pair(d[2 * k], d[2 * k + 1])) is Some
}

fn pair_value(c0: char, c1: char) -> (r: Option<u8>)
    ensures
        r == radix16_pair(c0, c1),
{
    if c0 == '+' {
        hex_value(c1)
    } else {
        match (hex_value(c0), hex_value(c1)) {
            (Some(h), Some(l)) => Some(h * 16 + l),
            _ => None,
        }
    }
}

/// Reads the bytes of a hexadecimal text that may start with `0x` and may hold white
/// space anywhere: a text whose digits take an odd number of bytes is refused as such,
/// and one with a pair that is no hexadecimal number as holding an invalid digit.
pub fn decode_hex(byte_string: &str) -> (r: Result<Vec<u8>, DecodeHexError>)
    ensures
        ({
            let d = hex_digits_of(byte_string@);
            &&& utf8_len(d) % 2 == 1 ==> r == Err::<Vec<u8>, DecodeHexError>(DecodeHexError::OddLength)
            &&& utf8_len(d) % 2 == 0 && !all_ascii(d) ==> r == Err::<Vec<u8>, DecodeHexError>(
                DecodeHexError::InvalidDigit,
            )
            &&& utf8_len(d) % 2 == 0 && all_ascii(d) ==> {
                &&& r is Ok <==> pairs_ok(d)
                &&& r matches Ok(v) ==> pairs_spell(d, v@)
                &&& r is Err ==> r == Err::<Vec<u8>, DecodeHexError>(DecodeHexError::InvalidDigit)
            }
        }),
{
    let all = chars_of(byte_string);
    let n = all.len();
    let start: usize = if n >= 2 && all[0] == '0' && all[1] == 'x' {
        2
    } else {
        0
    };
    let ghost rest = if byte_string@.len() >= 2 && byte_string@[0] == '0' && byte_string@[1] == 'x' {
        byte_string@.skip(2)
    } else {
        byte_string@
    };
    proof {
        assert(rest =~= all@.skip(start as int));
    }
    let mut digits: Vec<char> = Vec::new();
    let mut odd = false;
    let mut ascii = true;
    let mut i = start;
    proof {
        assert(rest.take(0) =~= Seq::<char>::empty());
    }
    while i < n
        invariant
            start <= i <= n,
            n == all@.len(),
            rest == all@.skip(start as int),
            digits@ == without_whitespace(rest.take(i - start)),
            odd == (utf8_len(digits@) % 2 == 1),
            ascii == all_ascii(digits@),
        decreases n - i,
    {
        let c = all[i];
        proof {
            let u = rest.take(i + 1 - start);
            assert(u.drop_last() =~= rest.take(i - start));
            assert(u.last() == c);
        }
        if !char_is_whitespace(c) {
            let ghost before = digits@;
            digits.push(c);
            let code = c as u32;
            let width_odd = code < 0x80 || (code >= 0x800 && code < 0x10000);
            if width_odd {
                odd = !odd;
            }
            if code >= 0x80 {
                ascii = false;
            }
            proof {
                assert(digits@.drop_last() =~= before);
                assert forall|k: int| 0 <= k < digits@.len() implies (#[trigger] digits@[k] as u32) < 0x80 <== ascii by {
                    if k < before.len() {
                        assert(digits@[k] == before[k]);
                    }
                }
                if !ascii && code < 0x80 {
                    let w = choose|k: int| 0 <= k < before.len() && !((before[k] as u32) < 0x80);
                    assert(digits@[w] == before[w]);
                }
            }
        }
        i = i + 1;
    }
    proof {
        assert(rest.take(n - start) =~= rest);
    }
    if odd {
        return Err(DecodeHexError::OddLength);
    }
    if !ascii {
        return Err(DecodeHexError::InvalidDigit);
    }
    let m = digits.len();
    proof {
        lemma_ascii_utf8_len(digits@);
    }
    let mut bytes: Vec<u8> = Vec::new();
    let mut k: usize = 0;
    while k < m
        invariant
            m == digits@.len(),
            digits@ == hex_digits_of(byte_string@),
            all_ascii(digits@),
            utf8_len(digits@) % 2 == 0,
            m % 2 == 0,
            k % 2 == 0,
            k <= m,
            bytes@.len() * 2 == k,
            forall|j: int| 0 <= j < bytes@.len() ==> radix16_pair(digits@[2 * j], digits@[2 * j + 1]) == Some(
                #[trigger] bytes@[j],
            ),
        decreases m - k,
    {
        match pair_value(digits[k], digits[k + 1]) {
            Some(b) => {
                bytes.push(b);
            },
            None => {
                proof {
                    let j = (k / 2) as int;
                    assert(2 * j == k);
                    assert(radix16_pair(digits@[2 * j], digits@[2 * j + 1]) is None);
                    assert(0 <= j < m / 2);
                    assert(!pairs_ok(digits@));
                }
                return Err(DecodeHexError::InvalidDigit);
            },
        }
        k = k + 2;
    }
    proof {
        assert forall|j: int| 0 <= j < m / 2 implies (#[trigger] radix16_pair(digits@[2 * j], digits@[2 * j + 1])) is Some by {
            assert(radix16_pair(digits@[2 * j], digits@[2 * j + 1]) == Some(bytes@[j]));
        }
    }
    Ok(bytes)
}

pub proof fn lemma_ascii_utf8_len(s: Seq<char>)
    requires
        all_ascii(s),
    ensures
        utf8_len(s) == s.len(),
    decreases s.len(),
{
    if s.len() > 0 {
        assert((s[s.len() - 1] as u32) < 0x80);
        assert(all_ascii(s.drop_last())) by {
            assert forall|i: int| 0 <= i < s.drop_last().len() implies (#[trigger] s.drop_last()[i] as u32) < 0x80 by {
                assert(s.drop_last()[i] == s[i]);
            }
        }
        lemma_ascii_utf8_len(s.drop_last());
    }
}

proof fn lemma_hex_digit(v: u8)
    requires
        v < 16,
    ensures
        hex_digit_value(hex_digit(v)) == Some(v),
        (hex_digit(v) as u32) < 0x80,
        !is_whitespace(hex_digit(v)),
        hex_digit(v) != 'x',
        hex_digit(v) != '+',
{
    let c = hex_digit(v);
    if v < 10 {
        assert(c as u32 == v + 48);
    } else {
        assert(c as u32 == v + 87);
    }
}

proof fn lemma_no_whitespace(s: Seq<char>)
    requires
        forall|i: int| 0 <= i < s.len() ==> !is_whitespace(#[trigger] s[i]),
    ensures
        without_whitespace(s) == s,
    decreases s.len(),
{
    if s.len() > 0 {
        assert forall|i: int| 0 <= i < s.drop_last().len() implies !is_whitespace(#[trigger] s.drop_last()[i]) by {
            assert(s.drop_last()[i] == s[i]);
        }
        lemma_no_whitespace(s.drop_last());
        assert(s.drop_last().push(s.last()) =~= s);
    }
}

proof fn lemma_hex_of_shape(bytes: Seq<u8>)
    ensures
        hex_of(bytes).len() == 2 * bytes.len(),
        pairs_spell(hex_of(bytes), bytes),
        forall|i: int| 0 <= i < hex_of(bytes).len() ==> exists|v: u8| v < 16 && #[trigger] hex_of(bytes)[i] == hex_digit(v),
    decreases bytes.len(),
{
    if bytes.len() > 0 {
        let b = bytes.drop_last();
        let x = bytes.last();
        lemma_hex_of_shape(b);
        let h0 = hex_of(b);
        let h = hex_of(bytes);
        let hi = (x / 16) as u8;
        let lo = (x % 16) as u8;
        assert(h == h0 + seq![hex_digit(hi), hex_digit(lo)]);
        lemma_hex_digit(hi);
        lemma_hex_digit(lo);
        assert(16 * hi + lo == x) by (nonlinear_arith)
            requires
                hi == x / 16,
                lo == x % 16,
        ;
        assert forall|k: int| 0 <= k < bytes.len() implies radix16_pair(h[2 * k], h[2 * k + 1]) == Some(#[trigger] bytes[k]) by {
            if k < b.len() {
                assert(h[2 * k] == h0[2 * k]);
                assert(h[2 * k + 1] == h0[2 * k + 1]);
                assert(bytes[k] == b[k]);
                assert(radix16_pair(h0[2 * k], h0[2 * k + 1]) == Some(b[k]));
            } else {
                assert(h[2 * k] == hex_digit(hi));
                assert(h[2 * k + 1] == hex_digit(lo));
            }
        }
        assert forall|i: int| 0 <= i < h.len() implies exists|v: u8| v < 16 && #[trigger] h[i] == hex_digit(v) by {
            if i < h0.len() {
                assert(h[i] == h0[i]);
                let v = choose|v: u8| v < 16 && h0[i] == hex_digit(v);
                assert(h[i] == hex_digit(v));
            } else if i == h0.len() {
                assert(h[i] == hex_digit(hi));
            } else {
                assert(h[i] == hex_digit(lo));
            }
        }
    }
}

/// The hexadecimal text of bytes reads back as the same bytes: `decode_hex` of what
/// `to_hex` writes gives the bytes written.
pub proof fn hex_reads_back(bytes: Seq<u8>)
    ensures
        hex_digits_of(hex_of(bytes)) == hex_of(bytes),
        all_ascii(hex_of(bytes)),
        utf8_len(hex_of(bytes)) % 2 == 0,
        pairs_ok(hex_of(bytes)),
        pairs_spell(hex_of(bytes), bytes),
        forall|v: Seq<u8>| pairs_spell(hex_of(bytes), v) ==> v == bytes,
{
    let h = hex_of(bytes);
    lemma_hex_of_shape(bytes);
    assert forall|i: int| 0 <= i < h.len() implies !is_whitespace(#[trigger] h[i]) && (h[i] as u32) < 0x80 && h[i]
        != 'x' by {
        let v = choose|v: u8| v < 16 && h[i] == hex_digit(v);
        lemma_hex_digit(v);
    }
    assert(all_ascii(h));
    lemma_no_whitespace(h);
    if h.len() >= 2 {
        assert(h[1] != 'x');
    }
    lemma_ascii_utf8_len(h);
    assert forall|k: int| 0 <= k < h.len() / 2 implies (#[trigger] radix16_pair(h[2 * k], h[2 * k + 1])) is Some by {
        assert(radix16_pair(h[2 * k], h[2 * k + 1]) == Some(bytes[k]));
    }
    assert forall|v: Seq<u8>| pairs_spell(h, v) implies v == bytes by {
        assert forall|k: int| 0 <= k < v.len() implies v[k] == bytes[k] by {
            assert(radix16_pair(h[2 * k], h[2 * k + 1]) == Some(v[k]));
            assert(radix16_pair(h[2 * k], h[2 * k + 1]) == Some(bytes[k]));
        }
        assert(v =~= bytes);
    }
}


/// The number of bytes of `c` in UTF-8.
pub fn char_utf8_width(c: char) -> (r: usize)
    ensures
        r == utf8_width(c),
{
    if (c as u32) < 0x80 {
        1
    } else if (c as u32) < 0x800 {
        2
    } else if (c as u32) < 0x10000 {
        3
    } else {
        4
    }
}

/// Whether byte `b` of `s` in UTF-8 starts a character: the characters before it take
/// exactly `b` bytes.
pub open spec fn byte_boundary(s: Seq<char>, b: nat) -> bool {
    exists|k: int| 0 <= k <= s.len() && utf8_len(#[trigger] s.take(k)) == b
}

/// The number of characters that take the first `b` bytes of `s`, where that is a whole
/// number of characters.
pub open spec fn chars_in_bytes(s: Seq<char>, b: nat) -> int {
    choose|k: int| 0 <= k <= s.len() && utf8_len(#[trigger] s.take(k)) == b
}

pub proof fn lemma_utf8_len_grows(s: Seq<char>, j: int, k: int)
    requires
        0 <= j < k <= s.len(),
    ensures
        utf8_len(s.take(j)) < utf8_len(s.take(k)),
    decreases k - j,
{
    assert(s.take(k).drop_last() =~= s.take(k - 1));
    if j < k - 1 {
        lemma_utf8_len_grows(s, j, k - 1);
    }
}

/// The characters after byte `b` of `s`: what `split_off(b)` leaves behind, where `b` starts
/// a character.
pub fn split_off_bytes(s: &str, b: usize) -> (r: String)
    requires
        byte_boundary(s@, b as nat),
    ensures
        r@ == s@.skip(chars_in_bytes(s@, b as nat)),
{
    let ghost k = chars_in_bytes(s@, b as nat);
    let n = s.unicode_len();
    let mut i: usize = 0;
    let mut acc: usize = 0;
    proof {
        assert(s@.take(0) =~= Seq::<char>::empty());
    }
    while acc < b
        invariant
            i <= n,
            n == s@.len(),
            0 <= k <= n,
            utf8_len(s@.take(k)) == b,
            acc == utf8_len(s@.take(i as int)),
            acc <= b,
            i <= k,
        decreases n - i,
    {
        proof {
            if i == k {
                assert(false);
            }
            if i >= n {
                assert(false);
            }
        }
        let w = char_utf8_width(s.get_char(i));
        proof {
            assert(s@.take(i + 1).drop_last() =~= s@.take(i as int));
            assert(s@.take(i + 1).last() == s@[i as int]);
            if i + 1 > k {
                assert(false);
            } else if i + 1 < k {
                lemma_utf8_len_grows(s@, i + 1, k);
            }
        }
        acc = acc + w;
        i = i + 1;
    }
    proof {
        if i < k {
            lemma_utf8_len_grows(s@, i as int, k);
        }
        assert(i == k);
    }
    let rest = s.substring_char(i, n);
    proof {
        assert(rest@ =~= s@.skip(k));
    }
    String::from_str(rest)
}


/// What `decode_hex` gives for the text `s`.
pub open spec fn hex_decoded(s: Seq<char>) -> Result<Seq<u8>, DecodeHexError> {
    let d = hex_digits_of(s);
    if utf8_len(d) % 2 == 1 {
        Err(DecodeHexError::OddLength)
    } else if !all_ascii(d) || !pairs_ok(d) {
        Err(DecodeHexError::InvalidDigit)
    } else {
        Ok(Seq::new((d.len() / 2) as nat, |k: int| radix16_pair(d[2 * k], d[2 * k + 1])->0))
    }
}

/// The message of a hexadecimal decoding error.
pub open spec fn hex_error_text(e: DecodeHexError) -> Seq<char> {
    match e {
        DecodeHexError::InvalidDigit => "invalid digit found in string"@,
        DecodeHexError::OddLength => "odd number of hex digits"@,
    }
}

/// Reads the bytes of a hexadecimal text, as `decode_hex` does, with its outcome stated as
/// one value.
pub fn read_hex(s: &str) -> (r: Result<Vec<u8>, DecodeHexError>)
    ensures
        match r {
            Ok(v) => hex_decoded(s@) == Ok::<Seq<u8>, DecodeHexError>(v@),
            Err(e) => hex_decoded(s@) == Err::<Seq<u8>, DecodeHexError>(e),
        },
{
    let r = decode_hex(s);
    proof {
        let d = hex_digits_of(s@);
        if r is Ok {
            let v = r->Ok_0;
            assert(pairs_spell(d, v@));
            assert(v@ =~= Seq::new((d.len() / 2) as nat, |k: int| radix16_pair(d[2 * k], d[2 * k + 1])->0));
            assert(pairs_ok(d)) by {
                assert forall|k: int| 0 <= k < d.len() / 2 implies (#[trigger] radix16_pair(d[2 * k], d[2 * k + 1])) is Some by {
                    assert(radix16_pair(d[2 * k], d[2 * k + 1]) == Some(v@[k]));
                }
            }
        }
    }
    r
}


/// Hexadecimal text spells at most one sequence of bytes.
pub proof fn lemma_spells_unique(chars: Seq<char>, a: Seq<u8>, b: Seq<u8>)
    requires
        spells_bytes(chars, a),
        spells_bytes(chars, b),
    ensures
        a == b,
{
    assert forall|i: int| 0 <= i < a.len() implies a[i] == b[i] by {
        assert(a[i] == 16 * hex_digit_value(chars[2 * i])->0 + hex_digit_value(chars[2 * i + 1])->0);
        assert(b[i] == 16 * hex_digit_value(chars[2 * i])->0 + hex_digit_value(chars[2 * i + 1])->0);
    }
    assert(a =~= b);
}

} // verus!
