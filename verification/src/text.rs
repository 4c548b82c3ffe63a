use vstd::prelude::*;
use vstd::string::*;
use crate::diagnostic::{decimal, digit_char};
use crate::parser::{chars_of, is_space, char_is_space};

verus! {

broadcast use vstd::std_specs::vec::group_vec_axioms;

/// Whether `p` is a prefix of `s`.
pub open spec fn has_prefix(s: Seq<char>, p: Seq<char>) -> bool {
    p.len() <= s.len() && s.subrange(0, p.len() as int) == p
}

/// Whether `p` is a suffix of `s`.
pub open spec fn has_suffix(s: Seq<char>, p: Seq<char>) -> bool {
    p.len() <= s.len() && s.subrange(s.len() - p.len(), s.len() as int) == p
}

/// Whether `s` starts with `p`; the rest of `s` when it does.
pub fn strip_prefix(s: &str, p: &str) -> (r: Option<String>)
    ensures
        r is Some <==> has_prefix(s@, p@),
        r matches Some(t) ==> t@ == s@.subrange(p@.len() as int, s@.len() as int),
{
    let n = s.unicode_len();
    let m = p.unicode_len();
    if m > n {
        return None;
    }
    let mut i: usize = 0;
    while i < m
        invariant
            i <= m <= n,
            n == s@.len(),
            m == p@.len(),
            forall|k: int| 0 <= k < i ==> s@[k] == p@[k],
        decreases m - i,
    {
        if s.get_char(i) != p.get_char(i) {
            proof {
                assert(s@.subrange(0, m as int)[i as int] != p@[i as int]);
            }
            return None;
        }
        i = i + 1;
    }
    assert(s@.subrange(0, m as int) =~= p@);
    Some(String::from_str(s.substring_char(m, n)))
}

/// Whether `s` ends with `p`; the rest of `s` when it does.
pub fn strip_suffix(s: &str, p: &str) -> (r: Option<String>)
    ensures
        r is Some <==> has_suffix(s@, p@),
        r matches Some(t) ==> t@ == s@.subrange(0, s@.len() - p@.len()),
{
    let n = s.unicode_len();
    let m = p.unicode_len();
    if m > n {
        return None;
    }
    let mut i: usize = 0;
    while i < m
        invariant
            i <= m <= n,
            n == s@.len(),
            m == p@.len(),
            forall|k: int| 0 <= k < i ==> s@[n - m + k] == p@[k],
        decreases m - i,
    {
        if s.get_char(n - m + i) != p.get_char(i) {
            proof {
                assert(s@.subrange(n - m, n as int)[i as int] != p@[i as int]);
            }
            return None;
        }
        i = i + 1;
    }
    assert(s@.subrange(n - m, n as int) =~= p@);
    Some(String::from_str(s.substring_char(0, n - m)))
}

/// The position of the first `c` in `s`.
pub fn find_char(s: &str, c: char) -> (r: Option<usize>)
    ensures
        r matches Some(i) ==> i < s@.len() && s@[i as int] == c && forall|k: int| 0 <= k < i ==> s@[k] != c,
        r is None ==> forall|k: int| 0 <= k < s@.len() ==> s@[k] != c,
{
    let n = s.unicode_len();
    let mut i: usize = 0;
    while i < n
        invariant
            i <= n,
            n == s@.len(),
            forall|k: int| 0 <= k < i ==> s@[k] != c,
        decreases n - i,
    {
        if s.get_char(i) == c {
            return Some(i);
        }
        i = i + 1;
    }
    None
}

/// Whether `a .. b` is what is left of `s` without its leading and trailing white space.
pub open spec fn trim_bounds(s: Seq<char>, a: int, b: int) -> bool {
    &&& 0 <= a <= b <= s.len()
    &&& forall|k: int| 0 <= k < a ==> is_space(#[trigger] s[k])
    &&& forall|k: int| b <= k < s.len() ==> is_space(#[trigger] s[k])
    &&& a < b ==> !is_space(s[a]) && !is_space(s[b - 1])
}

/// `s` without its leading and trailing white space.
pub open spec fn trimmed(s: Seq<char>) -> Seq<char> {
    let (a, b) = choose|a: int, b: int| trim_bounds(s, a, b);
    s.subrange(a, b)
}

/// What is left of `s` without its leading and trailing white space is one sequence.
pub proof fn lemma_trim_unique(s: Seq<char>, a: int, b: int, c: int, d: int)
    requires
        trim_bounds(s, a, b),
        trim_bounds(s, c, d),
    ensures
        s.subrange(a, b) == s.subrange(c, d),
{
    if a < b && c < d {
        if a < c {
            assert(is_space(s[a]));
        }
        if c < a {
            assert(is_space(s[c]));
        }
        if b < d {
            assert(is_space(s[d - 1]));
        }
        if d < b {
            assert(is_space(s[b - 1]));
        }
    } else if a < b {
        if a < c {
            assert(is_space(s[a]));
        } else {
            assert(is_space(s[a]));
        }
    } else if c < d {
        if c < a {
            assert(is_space(s[c]));
        } else {
            assert(is_space(s[c]));
        }
    } else {
        assert(s.subrange(a, b) =~= s.subrange(c, d));
    }
}

/// `s` without its leading and trailing white space.
pub fn trim(s: &str) -> (r: String)
    ensures
        r@ == trimmed(s@),
        exists|a: int, b: int|
            0 <= a <= b <= s@.len() && r@ == s@.subrange(a, b) && (forall|k: int| 0 <= k < a ==> is_space(#[trigger] s@[k]))
                && (forall|k: int| b <= k < s@.len() ==> is_space(#[trigger] s@[k])) && (a < b ==> !is_space(s@[a])
                && !is_space(s@[b - 1])),
{
    let n = s.unicode_len();
    let mut a: usize = 0;
    while a < n && char_is_space(s.get_char(a))
        invariant
            a <= n,
            n == s@.len(),
            forall|k: int| 0 <= k < a ==> is_space(#[trigger] s@[k]),
        decreases n - a,
    {
        a = a + 1;
    }
    let mut b: usize = n;
    while b > a && char_is_space(s.get_char(b - 1))
        invariant
            a <= b <= n,
            n == s@.len(),
            forall|k: int| b <= k < n ==> is_space(#[trigger] s@[k]),
        decreases b - a,
    {
        b = b - 1;
    }
    let r = String::from_str(s.substring_char(a, b));
    proof {
        assert(0 <= a <= b <= s@.len() && r@ == s@.subrange(a as int, b as int));
        assert(trim_bounds(s@, a as int, b as int));
        let (c, d) = choose|c: int, d: int| trim_bounds(s@, c, d);
        lemma_trim_unique(s@, a as int, b as int, c, d);
    }
    r
}

/// The characters of each string of `s`.
pub open spec fn views(s: Seq<String>) -> Seq<Seq<char>> {
    s.map_values(|x: String| x@)
}

/// The pieces of `s` between the occurrences of `c`, as `str::split` gives them: one more
/// piece than `s` has occurrences of `c`, empty pieces included.
pub open spec fn split_on(s: Seq<char>, c: char) -> Seq<Seq<char>>
    decreases s.len(),
{
    if s.len() == 0 {
        seq![Seq::empty()]
    } else {
        let p = split_on(s.drop_last(), c);
        if s.last() == c {
            p.push(Seq::empty())
        } else {
            p.update(p.len() - 1, p.last().push(s.last()))
        }
    }
}

pub proof fn lemma_split_on_nonempty(s: Seq<char>, c: char)
    ensures
        split_on(s, c).len() >= 1,
    decreases s.len(),
{
    if s.len() > 0 {
        lemma_split_on_nonempty(s.drop_last(), c);
    }
}

/// The pieces of `s` between the occurrences of `c`.
pub fn split_char(s: &str, c: char) -> (r: Vec<String>)
    ensures
        views(r@) == split_on(s@, c),
{
    let n = s.unicode_len();
    let mut pieces: Vec<String> = Vec::new();
    let mut start: usize = 0;
    let mut i: usize = 0;
    proof {
        assert(s@.take(0) =~= Seq::<char>::empty());
        assert(views(pieces@).push(s@.subrange(0, 0)) =~= seq![Seq::<char>::empty()]);
    }
    while i < n
        invariant
            start <= i <= n,
            n == s@.len(),
            split_on(s@.take(i as int), c) == views(pieces@).push(s@.subrange(start as int, i as int)),
        decreases n - i,
    {
        let ghost before = s@.take(i as int);
        let ghost after = s@.take(i + 1);
        proof {
            assert(after.drop_last() =~= before);
            assert(after.last() == s@[i as int]);
            lemma_split_on_nonempty(before, c);
        }
        if s.get_char(i) == c {
            let piece = String::from_str(s.substring_char(start, i));
            proof {
                assert(views(pieces@.push(piece)) =~= views(pieces@).push(piece@));
                assert(s@.subrange(i + 1, i + 1) =~= Seq::<char>::empty());
            }
            pieces.push(piece);
            start = i + 1;
        } else {
            proof {
                assert(s@.subrange(start as int, i as int).push(s@[i as int]) =~= s@.subrange(start as int, i + 1));
                let p = views(pieces@).push(s@.subrange(start as int, i as int));
                assert(p.update(p.len() - 1, p.last().push(s@[i as int])) =~= views(pieces@).push(
                    s@.subrange(start as int, i + 1),
                ));
            }
        }
        i = i + 1;
    }
    let last = String::from_str(s.substring_char(start, n));
    proof {
        assert(s@.take(n as int) =~= s@);
        assert(views(pieces@.push(last)) =~= views(pieces@).push(last@));
    }
    pieces.push(last);
    pieces
}

/// The characters that `char::is_ascii_whitespace` accepts.
pub open spec fn is_ascii_space(c: char) -> bool {
    c == ' ' || c == '\t' || c == '\n' || c == '\r' || c == '\u{0c}'
}

/// The words of `s`, as `str::split_ascii_whitespace` gives them: the nonempty runs of
/// characters other than ASCII white space.
pub open spec fn words(s: Seq<char>) -> Seq<Seq<char>>
    decreases s.len(),
{
    if s.len() == 0 {
        Seq::empty()
    } else {
        let w = words(s.drop_last());
        let c = s.last();
        if is_ascii_space(c) {
            w
        } else if s.len() >= 2 && !is_ascii_space(s[s.len() - 2]) {
            w.update(w.len() - 1, w.last().push(c))
        } else {
            w.push(seq![c])
        }
    }
}

/// The words of `s`, split at runs of ASCII white space.
pub fn split_words(s: &str) -> (r: Vec<String>)
    ensures
        views(r@) == words(s@),
{
    let n = s.unicode_len();
    let mut pieces: Vec<String> = Vec::new();
    let mut start: usize = 0;
    let mut in_word = false;
    let mut i: usize = 0;
    proof {
        assert(s@.take(0) =~= Seq::<char>::empty());
        assert(views(pieces@) =~= Seq::<Seq<char>>::empty());
    }
    while i < n
        invariant
            start <= i <= n,
            n == s@.len(),
            in_word == (i > 0 && !is_ascii_space(s@[i - 1])),
            in_word ==> start < i && words(s@.take(i as int)) == views(pieces@).push(
                s@.subrange(start as int, i as int),
            ),
            !in_word ==> words(s@.take(i as int)) == views(pieces@),
        decreases n - i,
    {
        let ghost before = s@.take(i as int);
        let ghost after = s@.take(i + 1);
        proof {
            assert(after.drop_last() =~= before);
            assert(after.last() == s@[i as int]);
            if i > 0 {
                assert(after[after.len() - 2] == s@[i - 1]);
            }
        }
        let ch = s.get_char(i);
        if ch == ' ' || ch == '\t' || ch == '\n' || ch == '\r' || ch == '\u{0c}' {
            if in_word {
                let piece = String::from_str(s.substring_char(start, i));
                proof {
                    assert(views(pieces@.push(piece)) =~= views(pieces@).push(piece@));
                }
                pieces.push(piece);
            }
            in_word = false;
        } else {
            if in_word {
                proof {
                    assert(s@.subrange(start as int, i as int).push(s@[i as int]) =~= s@.subrange(start as int, i + 1));
                    let p = views(pieces@).push(s@.subrange(start as int, i as int));
                    assert(p.update(p.len() - 1, p.last().push(s@[i as int])) =~= views(pieces@).push(
                        s@.subrange(start as int, i + 1),
                    ));
                }
            } else {
                proof {
                    assert(s@.subrange(i as int, i + 1) =~= seq![s@[i as int]]);
                }
                start = i;
                in_word = true;
            }
        }
        i = i + 1;
    }
    proof {
        assert(s@.take(n as int) =~= s@);
    }
    if in_word {
        let piece = String::from_str(s.substring_char(start, n));
        proof {
            assert(views(pieces@.push(piece)) =~= views(pieces@).push(piece@));
        }
        pieces.push(piece);
    }
    pieces
}

/// A line without the `\r` of a `\r\n` ending.
pub open spec fn without_cr(l: Seq<char>) -> Seq<char> {
    if l.len() > 0 && l.last() == '\r' {
        l.drop_last()
    } else {
        l
    }
}

/// The lines of `s`, as `str::lines` gives them: split at each `\n`, with the `\r` of a
/// `\r\n` ending removed, and with no empty last line after a final line ending.
pub open spec fn lines(s: Seq<char>) -> Seq<Seq<char>> {
    let p = split_on(s, '\n');
    let q = if p.last().len() == 0 {
        p.drop_last()
    } else {
        p
    };
    Seq::new(q.len(), |i: int| if i < p.len() - 1 { without_cr(q[i]) } else { q[i] })
}

/// The lines of `s`.
pub fn lines_of(s: &str) -> (r: Vec<String>)
    ensures
        views(r@) == lines(s@),
{
    let p = split_char(s, '\n');
    proof {
        lemma_split_on_nonempty(s@, '\n');
    }
    let k = p.len();
    let m = if p[k - 1].unicode_len() == 0 {
        k - 1
    } else {
        k
    };
    let ghost q = if p@[k - 1]@.len() == 0 {
        views(p@).drop_last()
    } else {
        views(p@)
    };
    let mut r: Vec<String> = Vec::new();
    let mut i: usize = 0;
    while i < m
        invariant
            i <= m <= k,
            k == p@.len(),
            views(p@) == split_on(s@, '\n'),
            q.len() == m,
            forall|j: int| 0 <= j < m ==> q[j] == p@[j]@,
            r@.len() == i,
            forall|j: int| 0 <= j < i ==> (#[trigger] r@[j])@ == (if j < k - 1 { without_cr(q[j]) } else { q[j] }),
        decreases m - i,
    {
        let line = &p[i];
        let len = line.unicode_len();
        let piece = if i + 1 < k && len > 0 && line.get_char(len - 1) == '\r' {
            String::from_str(line.as_str().substring_char(0, len - 1))
        } else {
            line.clone()
        };
        proof {
            assert(q[i as int] == p@[i as int]@);
            if i + 1 < k && len > 0 && line@[len - 1] == '\r' {
                assert(piece@ =~= without_cr(q[i as int]));
            }
        }
        r.push(piece);
        i = i + 1;
    }
    proof {
        assert(views(r@) =~= lines(s@));
    }
    r
}

/// Whether every character of `s` is a decimal digit.
pub open spec fn all_digits(s: Seq<char>) -> bool {
    forall|k: int| 0 <= k < s.len() ==> '0' <= #[trigger] s[k] <= '9'
}

/// The number that the decimal digits `s` write.
pub open spec fn digits_value(s: Seq<char>) -> nat
    decreases s.len(),
{
    if s.len() == 0 {
        0
    } else {
        digits_value(s.drop_last()) * 10 + ((s.last() as nat) - ('0' as nat)) as nat
    }
}

/// The number that `s` writes as `str::parse` reads an unsigned integer: an optional `+`
/// and then one digit or more.
pub open spec fn unsigned_value(s: Seq<char>) -> Option<nat> {
    let t = if s.len() > 0 && s[0] == '+' {
        s.drop_first()
    } else {
        s
    };
    if t.len() > 0 && all_digits(t) {
        Some(digits_value(t))
    } else {
        None
    }
}

proof fn lemma_digits_value_grows(s: Seq<char>, j: int)
    requires
        0 <= j <= s.len(),
        all_digits(s),
    ensures
        digits_value(s.take(j)) <= digits_value(s),
    decreases s.len() - j,
{
    if j < s.len() {
        let t = s.take(j + 1);
        assert(t.drop_last() =~= s.take(j));
        assert('0' <= t.last() <= '9');
        lemma_digits_value_grows(s, j + 1);
    } else {
        assert(s.take(j) =~= s);
    }
}

/// The unsigned integer that `s` writes, where it is at most `max`: what `str::parse` gives
/// for an integer type whose largest value is `max`.
pub fn parse_unsigned(s: &str, max: u64) -> (r: Option<u64>)
    ensures
        r matches Some(v) ==> unsigned_value(s@) == Some(v as nat) && v <= max,
        r is None ==> match unsigned_value(s@) {
            Some(v) => v > max,
            None => true,
        },
{
    let n = s.unicode_len();
    let mut i: usize = 0;
    if n > 0 && s.get_char(0) == '+' {
        i = 1;
    }
    let ghost t = if s@.len() > 0 && s@[0] == '+' {
        s@.drop_first()
    } else {
        s@
    };
    let first = i;
    proof {
        assert(t =~= s@.subrange(first as int, n as int));
        assert(unsigned_value(s@) == (if t.len() > 0 && all_digits(t) {
            Some(digits_value(t))
        } else {
            None
        }));
    }
    if first == n {
        return None;
    }
    let mut acc: u64 = 0;
    while i < n
        invariant
            first <= i <= n,
            n == s@.len(),
            first <= 1,
            t == s@.subrange(first as int, n as int),
            t.len() > 0,
            unsigned_value(s@) == (if all_digits(t) {
                Some(digits_value(t))
            } else {
                None
            }),
            all_digits(s@.subrange(first as int, i as int)),
            acc as nat == digits_value(t.take(i - first)),
            acc <= max,
        decreases n - i,
    {
        let c = s.get_char(i);
        if c < '0' || c > '9' {
            proof {
                assert(t[i - first] == c);
                assert(!all_digits(t));
                assert(unsigned_value(s@) is None);
            }
            return None;
        }
        let d = (c as u32 - '0' as u32) as u64;
        let ghost u = t.take(i + 1 - first);
        proof {
            assert(u.drop_last() =~= t.take(i - first));
            assert(u.last() == c);
            assert(all_digits(s@.subrange(first as int, i + 1))) by {
                assert forall|k: int| 0 <= k < i + 1 - first implies '0' <= #[trigger] s@.subrange(first as int, i + 1)[k] <= '9' by {
                    if k < i - first {
                        assert(s@.subrange(first as int, i + 1)[k] == s@.subrange(first as int, i as int)[k]);
                    }
                }
            }
        }
        if d > max || acc > (max - d) / 10 {
            proof {
                // Every further digit only makes the number larger.
                assert(acc * 10 + d > max) by (nonlinear_arith)
                    requires
                        d > max || acc > (max - d) / 10,
                        d <= 9,
                ;
                assert(digits_value(u) == acc * 10 + d);
                if all_digits(t) {
                    lemma_digits_value_grows(t, i + 1 - first);
                }
            }
            return None;
        }
        acc = acc * 10 + d;
        i = i + 1;
    }
    proof {
        assert(t.take(n - first) =~= t);
        assert(s@.subrange(first as int, n as int) =~= t);
    }
    Some(acc)
}

/// The pieces `pieces` with `c` between each two.
pub open spec fn join(pieces: Seq<Seq<char>>, c: char) -> Seq<char>
    decreases pieces.len(),
{
    if pieces.len() == 0 {
        Seq::empty()
    } else if pieces.len() == 1 {
        pieces[0]
    } else {
        join(pieces.drop_last(), c).push(c) + pieces.last()
    }
}

/// Splitting a text at a character and joining the pieces with it gives back the text;
/// no piece holds the character.
pub proof fn split_then_join(s: Seq<char>, c: char)
    ensures
        join(split_on(s, c), c) == s,
        forall|i: int| 0 <= i < split_on(s, c).len() ==> !(#[trigger] split_on(s, c)[i]).contains(c),
    decreases s.len(),
{
    if s.len() == 0 {
        assert(split_on(s, c) =~= seq![Seq::<char>::empty()]);
        assert(s =~= Seq::<char>::empty());
    } else {
        let t = s.drop_last();
        let x = s.last();
        split_then_join(t, c);
        lemma_split_on_nonempty(t, c);
        let p = split_on(t, c);
        let q = split_on(s, c);
        if x == c {
            assert(q == p.push(Seq::empty()));
            assert(q.drop_last() =~= p);
            assert(join(q, c) =~= t.push(c));
            assert(t.push(c) =~= s);
            assert forall|i: int| 0 <= i < q.len() implies !(#[trigger] q[i]).contains(c) by {
                if i < p.len() {
                    assert(q[i] == p[i]);
                } else {
                    assert(q[i] =~= Seq::<char>::empty());
                }
            }
        } else {
            let last = p.last().push(x);
            assert(q == p.update(p.len() - 1, last));
            if p.len() == 1 {
                assert(join(q, c) == q[0]);
                assert(join(p, c) == p[0]);
                assert(q[0] =~= t.push(x));
            } else {
                assert(q.drop_last() =~= p.drop_last());
                assert(join(q, c) =~= join(p.drop_last(), c).push(c) + last);
                assert(join(p, c) =~= join(p.drop_last(), c).push(c) + p.last());
                assert(join(q, c) =~= join(p, c).push(x));
            }
            assert(t.push(x) =~= s);
            assert forall|i: int| 0 <= i < q.len() implies !(#[trigger] q[i]).contains(c) by {
                if i < p.len() - 1 {
                    assert(q[i] == p[i]);
                } else {
                    assert(q[i] == last);
                    assert(!p[p.len() - 1].contains(c));
                    if last.contains(c) {
                        let k = choose|k: int| 0 <= k < last.len() && last[k] == c;
                        if k < p.last().len() {
                            assert(p.last()[k] == c);
                        }
                    }
                }
            }
        }
    }
}

/// Reading back the decimal digits of a number gives the number: an identifier that the
/// debugger prints is read back as the same identifier.
pub proof fn decimal_reads_back(n: nat)
    ensures
        all_digits(decimal(n)),
        decimal(n).len() >= 1,
        decimal(n)[0] != '+',
        digits_value(decimal(n)) == n,
        unsigned_value(decimal(n)) == Some(n),
    decreases n,
{
    if n < 10 {
        let d = decimal(n);
        assert(d == seq![digit_char(n)]);
        assert(d.drop_last() =~= Seq::<char>::empty());
        assert((digit_char(n) as nat) - ('0' as nat) == n);
        assert(digits_value(d) == digits_value(d.drop_last()) * 10 + ((d.last() as nat) - ('0' as nat)) as nat);
        assert(digits_value(d) == n);
        assert('0' <= d[0] <= '9');
    } else {
        decimal_reads_back(n / 10);
        let p = decimal(n / 10);
        let d = decimal(n);
        let x = digit_char(n % 10);
        assert(d == p + seq![x]);
        assert(d.drop_last() =~= p);
        assert(d.last() == x);
        assert((x as nat) - ('0' as nat) == n % 10);
        assert(digits_value(d) == digits_value(p) * 10 + n % 10);
        assert((n / 10) * 10 + n % 10 == n) by (nonlinear_arith);
        assert(d[0] == p[0]);
        assert forall|k: int| 0 <= k < d.len() implies '0' <= #[trigger] d[k] <= '9' by {
            if k < p.len() {
                assert(d[k] == p[k]);
            }
        }
    }
}

/// The order of `String`: lexicographic by character, a prefix before its extensions.
pub open spec fn str_lt(a: Seq<char>, b: Seq<char>) -> bool
    decreases a.len(),
{
    if a.len() == 0 {
        b.len() > 0
    } else if b.len() == 0 {
        false
    } else if a[0] != b[0] {
        a[0] < b[0]
    } else {
        str_lt(a.drop_first(), b.drop_first())
    }
}

pub proof fn lemma_str_lt_irreflexive(a: Seq<char>)
    ensures
        !str_lt(a, a),
    decreases a.len(),
{
    if a.len() > 0 {
        lemma_str_lt_irreflexive(a.drop_first());
    }
}

pub proof fn lemma_str_lt_transitive(a: Seq<char>, b: Seq<char>, c: Seq<char>)
    requires
        str_lt(a, b),
        str_lt(b, c),
    ensures
        str_lt(a, c),
    decreases a.len(),
{
    if a.len() > 0 && b.len() > 0 && c.len() > 0 && a[0] == b[0] && b[0] == c[0] {
        lemma_str_lt_transitive(a.drop_first(), b.drop_first(), c.drop_first());
    }
}

pub proof fn lemma_str_lt_total(a: Seq<char>, b: Seq<char>)
    ensures
        str_lt(a, b) || str_lt(b, a) || a == b,
    decreases a.len(),
{
    if a.len() > 0 && b.len() > 0 {
        if a[0] == b[0] {
            lemma_str_lt_total(a.drop_first(), b.drop_first());
            if a.drop_first() == b.drop_first() {
                assert(a =~= seq![a[0]] + a.drop_first());
                assert(b =~= seq![b[0]] + b.drop_first());
            }
        }
    } else if a.len() == 0 && b.len() == 0 {
        assert(a =~= b);
    }
}

/// Whether `a` comes before `b` in the order of `String`.
pub fn string_lt(a: &str, b: &str) -> (r: bool)
    ensures
        r == str_lt(a@, b@),
{
    let n = a.unicode_len();
    let m = b.unicode_len();
    let mut i: usize = 0;
    proof {
        assert(a@.skip(0) =~= a@);
        assert(b@.skip(0) =~= b@);
    }
    while i < n && i < m
        invariant
            i <= n,
            i <= m,
            n == a@.len(),
            m == b@.len(),
            str_lt(a@, b@) == str_lt(a@.skip(i as int), b@.skip(i as int)),
        decreases n - i,
    {
        let x = a.get_char(i);
        let y = b.get_char(i);
        proof {
            assert(a@.skip(i as int)[0] == x);
            assert(b@.skip(i as int)[0] == y);
            assert(a@.skip(i as int).drop_first() =~= a@.skip(i + 1));
            assert(b@.skip(i as int).drop_first() =~= b@.skip(i + 1));
        }
        if x != y {
            return x < y;
        }
        i = i + 1;
    }
    i == n && i < m
}


/// `s` with every occurrence of `p` taken out, the leftmost first: what replacing `p` by
/// nothing gives.
pub open spec fn removed(s: Seq<char>, p: Seq<char>) -> Seq<char>
    decreases s.len(),
{
    if p.len() == 0 || s.len() < p.len() {
        s
    } else if s.subrange(0, p.len() as int) == p {
        removed(s.subrange(p.len() as int, s.len() as int), p)
    } else {
        seq![s[0]] + removed(s.subrange(1, s.len() as int), p)
    }
}

/// Whether `p` stands in `s` at position `i`.
fn occurs_at(s: &str, i: usize, p: &str) -> (r: bool)
    requires
        i <= s@.len(),
    ensures
        r == (i + p@.len() <= s@.len() && s@.subrange(i as int, i + p@.len()) == p@),
{
    let n = s.unicode_len();
    let m = p.unicode_len();
    if m > n - i {
        return false;
    }
    let mut k: usize = 0;
    while k < m
        invariant
            k <= m,
            i + m <= n,
            n == s@.len(),
            m == p@.len(),
            forall|j: int| 0 <= j < k ==> s@[i + j] == p@[j],
        decreases m - k,
    {
        if s.get_char(i + k) != p.get_char(k) {
            proof {
                assert(s@.subrange(i as int, i + m)[k as int] != p@[k as int]);
            }
            return false;
        }
        k = k + 1;
    }
    assert(s@.subrange(i as int, i + m) =~= p@);
    true
}

/// `s` with every occurrence of `p` taken out.
pub fn remove_all(s: &str, p: &str) -> (r: String)
    requires
        p@.len() > 0,
    ensures
        r@ == removed(s@, p@),
{
    let n = s.unicode_len();
    let m = p.unicode_len();
    let mut out = String::new();
    let mut i: usize = 0;
    proof {
        assert(s@.subrange(0, n as int) =~= s@);
        assert(out@ =~= Seq::<char>::empty());
    }
    while i < n
        invariant
            i <= n,
            n == s@.len(),
            m == p@.len(),
            m > 0,
            removed(s@, p@) == out@ + removed(s@.subrange(i as int, n as int), p@),
        decreases n - i,
    {
        let ghost t = s@.subrange(i as int, n as int);
        if occurs_at(s, i, p) {
            proof {
                assert(t.subrange(0, m as int) =~= s@.subrange(i as int, i + m));
                assert(t.subrange(m as int, t.len() as int) =~= s@.subrange(i + m, n as int));
            }
            i = i + m;
        } else {
            proof {
                if m <= t.len() {
                    assert(t.subrange(0, m as int) =~= s@.subrange(i as int, i + m));
                }
                assert(t.subrange(1, t.len() as int) =~= s@.subrange(i + 1, n as int));
                assert(t[0] == s@[i as int]);
            }
            let c = s.substring_char(i, i + 1);
            proof {
                assert(c@ =~= seq![t[0]]);
            }
            let ghost before = out@;
            out.append(c);
            proof {
                assert(out@ + removed(s@.subrange(i + 1, n as int), p@) =~= before + (seq![t[0]] + removed(
                    t.subrange(1, t.len() as int),
                    p@,
                )));
            }
            i = i + 1;
        }
    }
    proof {
        assert(s@.subrange(n as int, n as int) =~= Seq::<char>::empty());
        assert(out@ + Seq::<char>::empty() =~= out@);
    }
    out
}


/// What follows the first `c` in `s`, where there is one.
pub open spec fn after_first(s: Seq<char>, c: char) -> Option<Seq<char>>
    decreases s.len(),
{
    if s.len() == 0 {
        None
    } else if s[0] == c {
        Some(s.drop_first())
    } else {
        after_first(s.drop_first(), c)
    }
}

/// What follows the first `c` in `s`: the second half of `split_once`.
pub fn split_once_after(s: &str, c: char) -> (r: Option<String>)
    ensures
        r matches Some(t) ==> after_first(s@, c) == Some(t@),
        r is None <==> after_first(s@, c) is None,
{
    let n = s.unicode_len();
    let mut i: usize = 0;
    proof {
        assert(s@.skip(0) =~= s@);
    }
    while i < n
        invariant
            i <= n,
            n == s@.len(),
            after_first(s@, c) == after_first(s@.skip(i as int), c),
        decreases n - i,
    {
        proof {
            assert(s@.skip(i as int)[0] == s@[i as int]);
            assert(s@.skip(i as int).drop_first() =~= s@.skip(i + 1));
        }
        if s.get_char(i) == c {
            let rest = s.substring_char(i + 1, n);
            proof {
                assert(rest@ =~= s@.skip(i + 1));
            }
            return Some(String::from_str(rest));
        }
        i = i + 1;
    }
    None
}


/// The strings of `v`, one per line.
pub fn join_lines(v: &Vec<String>) -> (r: String)
    ensures
        r@ == join(views(v@), '\n'),
{
    let mut r = String::new();
    let mut i: usize = 0;
    proof {
        assert(views(v@).take(0) =~= Seq::<Seq<char>>::empty());
    }
    while i < v.len()
        invariant
            i <= v@.len(),
            r@ == join(views(v@).take(i as int), '\n'),
        decreases v.len() - i,
    {
        let ghost t = views(v@).take(i + 1);
        proof {
            assert(t.drop_last() =~= views(v@).take(i as int));
            assert(t.last() == v@[i as int]@);
        }
        if i > 0 {
            let ghost before = r@;
            r.append("\n");
            proof {
                reveal_strlit("\n");
                assert(r@ =~= before.push('\n'));
            }
        }
        r.append(v[i].as_str());
        proof {
            if i == 0 {
                assert(t.len() == 1);
                assert(r@ =~= t[0]);
            }
        }
        i = i + 1;
    }
    proof {
        assert(views(v@).take(i as int) =~= views(v@));
    }
    r
}


/// The pieces `pieces` with `sep` between each two.
pub open spec fn join_by(pieces: Seq<Seq<char>>, sep: Seq<char>) -> Seq<char>
    decreases pieces.len(),
{
    if pieces.len() == 0 {
        Seq::empty()
    } else if pieces.len() == 1 {
        pieces[0]
    } else {
        join_by(pieces.drop_last(), sep) + sep + pieces.last()
    }
}

/// The strings of `v` with `sep` between each two.
pub fn join_strings(v: &Vec<String>, sep: &str) -> (r: String)
    ensures
        r@ == join_by(views(v@), sep@),
{
    let mut r = String::new();
    let mut i: usize = 0;
    proof {
        assert(views(v@).take(0) =~= Seq::<Seq<char>>::empty());
    }
    while i < v.len()
        invariant
            i <= v@.len(),
            r@ == join_by(views(v@).take(i as int), sep@),
        decreases v.len() - i,
    {
        let ghost t = views(v@).take(i + 1);
        proof {
            assert(t.drop_last() =~= views(v@).take(i as int));
            assert(t.last() == v@[i as int]@);
        }
        if i > 0 {
            r.append(sep);
        }
        r.append(v[i].as_str());
        proof {
            if i == 0 {
                assert(t.len() == 1);
                assert(r@ =~= t[0]);
            }
        }
        i = i + 1;
    }
    proof {
        assert(views(v@).take(i as int) =~= views(v@));
    }
    r
}

} // verus!
