use vstd::prelude::*;
use vstd::string::*;
use crate::text::views;
use crate::representations::{
    ClarityName, PrincipalData, QualifiedContractIdentifier, Span, StandardPrincipalData,
    SymbolicExpression, SymbolicExpressionType, TraitDefinition, TraitIdView, TraitIdentifier, Value,
    copy_string, name_is, str_equals,
};

verus! {

broadcast use vstd::std_specs::vec::group_vec_axioms;

/// A syntax error, with the place where it was found.
#[derive(Debug)]
pub struct ParseError {
    pub message: String,
    pub span: Span,
}

/// The lexical units of Clarity source.
#[derive(Debug)]
pub enum TokenKind {
    LParen,
    RParen,
    LBrace,
    RBrace,
    Colon,
    Comma,
    Literal(Value),
    Atom(ClarityName),
    TraitRef(ClarityName),
    Field(TraitIdentifier),
}

/// A lexical unit and the place it covers.
#[derive(Debug)]
pub struct Token {
    pub kind: TokenKind,
    pub span: Span,
}

/// The largest source that spans can describe.
pub const MAX_SOURCE_LEN: usize = 0x3fff_ffff;

pub open spec fn is_space(c: char) -> bool {
    c == ' ' || c == '\t' || c == '\r' || c == '\n'
}

/// Characters that end a name or a number.
pub open spec fn is_delimiter(c: char) -> bool {
    is_space(c) || c == '(' || c == ')' || c == '{' || c == '}' || c == ':' || c == ','
        || c == ';' || c == '"' || c == '\''
}

pub open spec fn is_digit(c: char) -> bool {
    '0' <= c && c <= '9'
}

pub open spec fn is_letter(c: char) -> bool {
    ('a' <= c && c <= 'z') || ('A' <= c && c <= 'Z')
}

/// Characters of a contract or trait name.
pub open spec fn is_name_char(c: char) -> bool {
    is_letter(c) || is_digit(c) || c == '-' || c == '_'
}

pub fn char_is_space(c: char) -> (r: bool)
    ensures
        r == is_space(c),
{
    c == ' ' || c == '\t' || c == '\r' || c == '\n'
}

pub fn char_is_delimiter(c: char) -> (r: bool)
    ensures
        r == is_delimiter(c),
{
    char_is_space(c) || c == '(' || c == ')' || c == '{' || c == '}' || c == ':' || c == ','
        || c == ';' || c == '"' || c == '\''
}

pub fn char_is_digit(c: char) -> (r: bool)
    ensures
        r == is_digit(c),
{
    '0' <= c && c <= '9'
}

pub fn char_is_letter(c: char) -> (r: bool)
    ensures
        r == is_letter(c),
{
    ('a' <= c && c <= 'z') || ('A' <= c && c <= 'Z')
}

pub fn char_is_name_char(c: char) -> (r: bool)
    ensures
        r == is_name_char(c),
{
    char_is_letter(c) || char_is_digit(c) || c == '-' || c == '_'
}

/// The value of a decimal digit.
pub fn digit_value(c: char) -> (r: u8)
    requires
        is_digit(c),
    ensures
        r < 10,
        r == (c as u32) - ('0' as u32),
{
    let v: u32 = c as u32;
    (v - 48) as u8
}

/// The value of a hexadecimal digit, if `c` is one.
pub fn hex_value(c: char) -> (r: Option<u8>)
    ensures
        r matches Some(v) ==> v < 16,
        r is Some <==> (is_digit(c) || ('a' <= c && c <= 'f') || ('A' <= c && c <= 'F')),
        r == crate::hex::hex_digit_value(c),
{
    let v: u32 = c as u32;
    if '0' <= c && c <= '9' {
        Some((v - 48) as u8)
    } else if 'a' <= c && c <= 'f' {
        Some((v - 87) as u8)
    } else if 'A' <= c && c <= 'F' {
        Some((v - 55) as u8)
    } else {
        None
    }
}

/// The byte of an ASCII character.
pub fn ascii_byte(c: char) -> (r: Option<u8>)
    ensures
        r matches Some(b) ==> b < 128 && b == c as u32,
        r is Some <==> (c as u32) < 128,
{
    let v: u32 = c as u32;
    if v < 128 {
        Some(v as u8)
    } else {
        None
    }
}

/// A string holding the characters of a literal message.
pub fn text(s: &str) -> (r: String)
    ensures
        r@ == s@,
{
    String::from_str(s)
}

/// A parse error at `span`.
pub fn parse_error(message: &str, span: Span) -> (r: ParseError)
    ensures
        r.message@ == message@,
        r.span == span,
{
    ParseError { message: text(message), span }
}

/// The span of the characters `from ..= to` of a line.
pub fn line_span(line: u32, from: u32, to: u32) -> (r: Span)
    ensures
        r.start_line == line && r.end_line == line && r.start_column == from && r.end_column == to,
{
    Span { start_line: line, start_column: from, end_line: line, end_column: to }
}

/// The characters of `s`, in order.
pub fn chars_of(s: &str) -> (r: Vec<char>)
    ensures
        r@ == s@,
{
    let n = s.unicode_len();
    let mut r: Vec<char> = Vec::new();
    let mut i: usize = 0;
    while i < n
        invariant
            i <= n,
            n == s@.len(),
            r@ == s@.subrange(0, i as int),
        decreases n - i,
    {
        r.push(s.get_char(i));
        i = i + 1;
    }
    r
}

/// The end of the run of characters from `start` that satisfy `name_char` (or, when it
/// is false, that are not delimiters).
fn scan_run(chars: &Vec<char>, start: usize, name_chars: bool) -> (r: usize)
    requires
        start <= chars@.len(),
    ensures
        start <= r <= chars@.len(),
        forall|k: int| start <= k < r ==> if name_chars {
            is_name_char(#[trigger] chars@[k])
        } else {
            !is_delimiter(chars@[k])
        },
        r < chars@.len() ==> if name_chars {
            !is_name_char(chars@[r as int])
        } else {
            is_delimiter(chars@[r as int])
        },
{
    let mut i = start;
    while i < chars.len()
        invariant
            start <= i <= chars@.len(),
            forall|k: int| start <= k < i ==> if name_chars {
                is_name_char(#[trigger] chars@[k])
            } else {
                !is_delimiter(chars@[k])
            },
        decreases chars.len() - i,
    {
        let c = chars[i];
        let keep = if name_chars {
            char_is_name_char(c)
        } else {
            !char_is_delimiter(c)
        };
        if !keep {
            return i;
        }
        i = i + 1;
    }
    i
}

/// The text of the characters `from .. to` of `input`.
fn slice_text(input: &str, from: usize, to: usize) -> (r: String)
    requires
        from <= to <= input@.len(),
    ensures
        r@ == input@.subrange(from as int, to as int),
{
    String::from_str(input.substring_char(from, to))
}

/// The number that the decimal digits `from .. to` of `chars` write.
pub open spec fn digits_value(chars: Seq<char>, from: int, to: int) -> nat
    decreases to - from,
{
    if to <= from {
        0
    } else {
        digits_value(chars, from, to - 1) * 10 + ((chars[to - 1] as u32) - ('0' as u32)) as nat
    }
}

/// A longer run of digits writes a number at least as large.
proof fn lemma_digits_value_grows(chars: Seq<char>, from: int, i: int, to: int)
    requires
        from <= i <= to,
        forall|k: int| from <= k < to ==> is_digit(#[trigger] chars[k]),
    ensures
        digits_value(chars, from, i) <= digits_value(chars, from, to),
    decreases to - i,
{
    if i < to {
        lemma_digits_value_grows(chars, from, i, to - 1);
        assert(is_digit(chars[to - 1]));
    }
}

/// Reads a decimal magnitude from the digits `from .. to`; `None` on overflow.
fn read_magnitude(chars: &Vec<char>, from: usize, to: usize) -> (r: Option<u128>)
    requires
        from <= to <= chars@.len(),
        forall|k: int| from <= k < to ==> is_digit(#[trigger] chars@[k]),
    ensures
        r is Some <==> digits_value(chars@, from as int, to as int) <= u128::MAX,
        r matches Some(v) ==> v == digits_value(chars@, from as int, to as int),
{
    let mut value: u128 = 0;
    let mut i = from;
    while i < to
        invariant
            from <= i <= to,
            to <= chars@.len(),
            forall|k: int| from <= k < to ==> is_digit(#[trigger] chars@[k]),
            value == digits_value(chars@, from as int, i as int),
        decreases to - i,
    {
        let d = digit_value(chars[i]);
        proof {
            assert(digits_value(chars@, from as int, i + 1) == value * 10 + d);
            lemma_digits_value_grows(chars@, from as int, i + 1, to as int);
        }
        value = match value.checked_mul(10) {
            Some(v) => match v.checked_add(d as u128) {
                Some(v) => v,
                None => return None,
            },
            None => return None,
        };
        i = i + 1;
    }
    Some(value)
}

/// Splits Clarity source into tokens. `issuer` is the deployer that `.name` refers to.
pub fn lex(input: &str, issuer: &StandardPrincipalData) -> (r: Result<Vec<Token>, ParseError>)
    requires
        input@.len() <= MAX_SOURCE_LEN,
    ensures
        r matches Ok(tokens) ==> forall|k: int|
            0 <= k < tokens@.len() ==> (#[trigger] tokens@[k]).span.start_line >= 1
                && tokens@[k].span.start_column >= 1,
{
    let chars = chars_of(input);
    let n = chars.len();
    let mut tokens: Vec<Token> = Vec::new();
    let mut i: usize = 0;
    let mut line: u32 = 1;
    let mut col: u32 = 1;
    while i < n
        invariant
            n == chars@.len(),
            chars@ == input@,
            n <= MAX_SOURCE_LEN,
            i <= n,
            1 <= line <= i + 1,
            1 <= col <= i + 1,
            forall|k: int|
                0 <= k < tokens@.len() ==> (#[trigger] tokens@[k]).span.start_line >= 1
                    && tokens@[k].span.start_column >= 1,
        decreases n - i,
    {
        let c = chars[i];
        if c == '\n' {
            line = line + 1;
            col = 1;
            i = i + 1;
        } else if char_is_space(c) {
            col = col + 1;
            i = i + 1;
        } else if c == ';' {
            i = i + 1;
            col = col + 1;
            let ghost i1 = i;
            while i < n && chars[i] != '\n'
                invariant
                    i1 <= i <= n,
                    n == chars@.len(),
                    n <= MAX_SOURCE_LEN,
                    1 <= col <= i + 1,
                    1 <= line <= i + 1,
                decreases n - i,
            {
                i = i + 1;
                col = col + 1;
            }
        } else if c == '(' || c == ')' || c == '{' || c == '}' || c == ':' || c == ',' {
            let kind = if c == '(' {
                TokenKind::LParen
            } else if c == ')' {
                TokenKind::RParen
            } else if c == '{' {
                TokenKind::LBrace
            } else if c == '}' {
                TokenKind::RBrace
            } else if c == ':' {
                TokenKind::Colon
            } else {
                TokenKind::Comma
            };
            tokens.push(Token { kind, span: line_span(line, col, col) });
            col = col + 1;
            i = i + 1;
        } else if c == '"' || (c == 'u' && i + 1 < n && chars[i + 1] == '"') {
            let utf8 = c == 'u';
            let start_col = col;
            let mut j: usize = if utf8 {
                i + 2
            } else {
                i + 1
            };
            let mut bytes: Vec<u8> = Vec::new();
            let mut uchars: Vec<char> = Vec::new();
            let mut closed = false;
            while j < n && !closed
                invariant
                    i < j <= n,
                    n == chars@.len(),
                decreases n - j,
            {
                let d = chars[j];
                if d == '"' {
                    closed = true;
                    j = j + 1;
                } else if d == '\n' {
                    return Err(parse_error("unterminated string literal", line_span(line, start_col, start_col)));
                } else {
                    let mut e = d;
                    if d == '\\' {
                        if j + 1 >= n {
                            return Err(parse_error("unterminated string literal", line_span(line, start_col, start_col)));
                        }
                        let x = chars[j + 1];
                        e = if x == 'n' {
                            '\n'
                        } else if x == 't' {
                            '\t'
                        } else if x == 'r' {
                            '\r'
                        } else if x == '0' {
                            '\0'
                        } else if x == '\\' || x == '"' {
                            x
                        } else {
                            return Err(parse_error("illegal escape character", line_span(line, start_col, start_col)));
                        };
                        j = j + 1;
                    }
                    if utf8 {
                        uchars.push(e);
                    } else {
                        match ascii_byte(e) {
                            Some(b) => bytes.push(b),
                            None => {
                                return Err(parse_error("invalid character in ASCII string", line_span(line, start_col, start_col)));
                            },
                        }
                    }
                    j = j + 1;
                }
            }
            if !closed {
                return Err(parse_error("unterminated string literal", line_span(line, start_col, start_col)));
            }
            let width = j - i;
            let value = if utf8 {
                Value::StringUtf8(uchars)
            } else {
                Value::StringAscii(bytes)
            };
            tokens.push(Token { kind: TokenKind::Literal(value), span: line_span(line, start_col, start_col + (width - 1) as u32) });
            col = col + width as u32;
            i = j;
        } else if c == '0' && i + 1 < n && chars[i + 1] == 'x' {
            let end = scan_run(&chars, i + 2, false);
            let mut bytes: Vec<u8> = Vec::new();
            let mut j = i + 2;
            if (end - j) % 2 != 0 {
                return Err(parse_error("expected an even number of hex digits", line_span(line, col, col)));
            }
            while j + 1 < end
                invariant
                    i + 2 <= j <= end,
                    end <= n,
                    n == chars@.len(),
                    n <= MAX_SOURCE_LEN,
                decreases end - j,
            {
                let hi = hex_value(chars[j]);
                let lo = hex_value(chars[j + 1]);
                match (hi, lo) {
                    (Some(h), Some(l)) => bytes.push(h * 16 + l),
                    _ => {
                        return Err(parse_error("invalid hex digit in buffer literal", line_span(line, col, col)));
                    },
                }
                j = j + 2;
            }
            let width = end - i;
            tokens.push(Token { kind: TokenKind::Literal(Value::Buffer(bytes)), span: line_span(line, col, col + (width - 1) as u32) });
            col = col + width as u32;
            i = end;
        } else if char_is_digit(c) || (c == '-' && i + 1 < n && char_is_digit(chars[i + 1])) || (c == 'u' && i + 1 < n
            && char_is_digit(chars[i + 1])) {
            let first = if char_is_digit(c) {
                i
            } else {
                i + 1
            };
            let end = scan_run(&chars, first, false);
            proof {
                if end == first {
                    assert(is_delimiter(chars@[first as int]));
                }
            }
            let mut k = first;
            while k < end
                invariant
                    first <= k <= end,
                    end <= n,
                    n == chars@.len(),
                    forall|q: int| first <= q < k ==> is_digit(#[trigger] chars@[q]),
                decreases end - k,
            {
                if !char_is_digit(chars[k]) {
                    return Err(parse_error("invalid integer literal", line_span(line, col, col)));
                }
                k = k + 1;
            }
            let width = end - i;
            let span = line_span(line, col, col + (width - 1) as u32);
            let magnitude = match read_magnitude(&chars, first, end) {
                Some(m) => m,
                None => return Err(parse_error("integer literal out of range", span)),
            };
            let value = if c == 'u' {
                Value::UInt(magnitude)
            } else if c == '-' {
                if magnitude <= 0x7fff_ffff_ffff_ffff_ffff_ffff_ffff_ffff {
                    Value::Int(-(magnitude as i128))
                } else if magnitude == 0x8000_0000_0000_0000_0000_0000_0000_0000 {
                    Value::Int(i128::MIN)
                } else {
                    return Err(parse_error("integer literal out of range", span));
                }
            } else {
                if magnitude <= 0x7fff_ffff_ffff_ffff_ffff_ffff_ffff_ffff {
                    Value::Int(magnitude as i128)
                } else {
                    return Err(parse_error("integer literal out of range", span));
                }
            };
            tokens.push(Token { kind: TokenKind::Literal(value), span });
            col = col + width as u32;
            i = end;
        } else if c == '\'' || c == '.' {
            // A principal: 'ADDRESS, 'ADDRESS.contract, 'ADDRESS.contract.trait, .contract
            // or .contract.trait (the last two of the current deployer).
            let start = i;
            let mut address = issuer.address.clone();
            let mut j = i + 1;
            if c == '\'' {
                let end = scan_run(&chars, i + 1, true);
                if end == i + 1 {
                    return Err(parse_error("invalid principal literal", line_span(line, col, col)));
                }
                address = slice_text(input, i + 1, end);
                j = end;
            }
            let mut contract: Option<String> = None;
            let mut trait_name: Option<String> = None;
            if c == '.' || (j < n && chars[j] == '.') {
                let from = if c == '.' {
                    i + 1
                } else {
                    j + 1
                };
                if from > n {
                    return Err(parse_error("invalid principal literal", line_span(line, col, col)));
                }
                let end = scan_run(&chars, from, true);
                if end == from || !char_is_letter(chars[from]) {
                    return Err(parse_error("invalid contract name", line_span(line, col, col)));
                }
                contract = Some(slice_text(input, from, end));
                j = end;
                if j < n && chars[j] == '.' {
                    let tend = scan_run(&chars, j + 1, true);
                    if tend == j + 1 || !char_is_letter(chars[j + 1]) {
                        return Err(parse_error("invalid trait name", line_span(line, col, col)));
                    }
                    trait_name = Some(slice_text(input, j + 1, tend));
                    j = tend;
                }
            }
            if j < n && !char_is_delimiter(chars[j]) {
                return Err(parse_error("invalid principal literal", line_span(line, col, col)));
            }
            let width = j - start;
            let span = line_span(line, col, col + (width - 1) as u32);
            let issuer_data = StandardPrincipalData { address };
            let kind = match contract {
                None => TokenKind::Literal(Value::Principal(PrincipalData::Standard(issuer_data))),
                Some(name) => {
                    let contract_identifier = QualifiedContractIdentifier { issuer: issuer_data, name };
                    match trait_name {
                        None => TokenKind::Literal(Value::Principal(PrincipalData::Contract(contract_identifier))),
                        Some(t) => TokenKind::Field(TraitIdentifier { name: t, contract_identifier }),
                    }
                },
            };
            tokens.push(Token { kind, span });
            col = col + width as u32;
            i = j;
        } else if c == '<' && i + 1 < n && char_is_letter(chars[i + 1]) {
            let end = scan_run(&chars, i + 1, true);
            if end < n && chars[end] == '>' && (end + 1 == n || char_is_delimiter(chars[end + 1])) {
                let width = end + 1 - i;
                let name = slice_text(input, i + 1, end);
                tokens.push(Token { kind: TokenKind::TraitRef(name), span: line_span(line, col, col + (width - 1) as u32) });
                col = col + width as u32;
                i = end + 1;
            } else {
                let aend = scan_run(&chars, i, false);
                proof {
                    if aend == i {
                        assert(is_delimiter(chars@[i as int]));
                    }
                }
                let width = aend - i;
                let name = slice_text(input, i, aend);
                tokens.push(Token { kind: TokenKind::Atom(name), span: line_span(line, col, col + (width - 1) as u32) });
                col = col + width as u32;
                i = aend;
            }
        } else {
            let end = scan_run(&chars, i, false);
            if end == i {
                return Err(parse_error("unexpected character", line_span(line, col, col)));
            }
            let width = end - i;
            let name = slice_text(input, i, end);
            tokens.push(Token { kind: TokenKind::Atom(name), span: line_span(line, col, col + (width - 1) as u32) });
            col = col + width as u32;
            i = end;
        }
    }
    Ok(tokens)
}

/// An element of a list or tuple being read: an expression or a tuple separator.
pub enum Item {
    Expr(SymbolicExpression),
    Colon(Span),
    Comma(Span),
}

/// A list or tuple whose closing bracket has not been read yet (`kind` 0 for the top
/// level, 1 for `(`, 2 for `{`).
pub struct Frame {
    pub kind: u8,
    pub items: Vec<Item>,
    pub start: Span,
}

/// The span from the start of `a` to the end of `b`.
pub fn join_spans(a: &Span, b: &Span) -> (r: Span)
    ensures
        r.start_line == a.start_line && r.start_column == a.start_column,
        r.end_line == b.end_line && r.end_column == b.end_column,
{
    Span { start_line: a.start_line, start_column: a.start_column, end_line: b.end_line, end_column: b.end_column }
}

/// The place of an item.
pub open spec fn item_span_spec(item: Item) -> Span {
    match item {
        Item::Expr(e) => e.span,
        Item::Colon(s) => s,
        Item::Comma(s) => s,
    }
}

fn item_span(item: &Item) -> (r: Span)
    ensures
        r == item_span_spec(*item),
{
    match item {
        Item::Expr(e) => e.span,
        Item::Colon(s) => *s,
        Item::Comma(s) => *s,
    }
}

/// A fresh expression identifier.
fn fresh_id(next_id: &mut u64) -> (r: u64)
    ensures
        r == *old(next_id),
        *old(next_id) < u64::MAX ==> *final(next_id) == *old(next_id) + 1,
{
    let r = *next_id;
    if *next_id < u64::MAX {
        *next_id = *next_id + 1;
    }
    r
}

/// The elements of `v` in reverse order.
pub fn reversed<T>(v: Vec<T>) -> (r: Vec<T>)
    ensures
        r@ == v@.reverse(),
{
    let mut v = v;
    let ghost orig = v@;
    let mut r: Vec<T> = Vec::new();
    while v.len() > 0
        invariant
            v@ == orig.subrange(0, v@.len() as int),
            r@ == orig.subrange(v@.len() as int, orig.len() as int).reverse(),
            v@.len() <= orig.len(),
        decreases v@.len(),
    {
        let x = v.pop().unwrap();
        r.push(x);
        proof {
            assert(r@ =~= orig.subrange(v@.len() as int, orig.len() as int).reverse());
        }
    }
    proof {
        assert(orig.subrange(0, orig.len() as int) =~= orig);
    }
    r
}

/// The expressions of a list, in order; a tuple separator there is an error.
fn items_to_exprs(items: Vec<Item>) -> (r: Result<Vec<SymbolicExpression>, ParseError>)
    ensures
        r is Ok <==> forall|i: int| 0 <= i < items@.len() ==> (#[trigger] items@[i]) is Expr,
        r matches Ok(exprs) ==> exprs@.len() == items@.len() && forall|i: int|
            0 <= i < items@.len() ==> #[trigger] exprs@[i] == items@[i]->Expr_0,
        r matches Err(e) ==> exists|i: int| {
            &&& 0 <= i < items@.len()
            &&& !(#[trigger] items@[i] is Expr)
            &&& forall|j: int| 0 <= j < i ==> (#[trigger] items@[j]) is Expr
            &&& e.span == item_span_spec(items@[i])
        },
{
    let n = items.len();
    let ghost orig = items@;
    let mut rev = reversed(items);
    let mut exprs: Vec<SymbolicExpression> = Vec::new();
    while rev.len() > 0
        invariant
            exprs@.len() + rev@.len() == n,
            n == orig.len(),
            orig == items@,
            forall|k: int| 0 <= k < rev@.len() ==> #[trigger] rev@[k] == orig[n - 1 - k],
            forall|i: int| 0 <= i < exprs@.len() ==> (#[trigger] orig[i]) is Expr && exprs@[i] == orig[i]->Expr_0,
        decreases rev@.len(),
    {
        let ghost at = exprs@.len() as int;
        let ghost before = rev@;
        let item = rev.pop().unwrap();
        proof {
            assert(item == orig[at]);
            assert forall|k: int| 0 <= k < rev@.len() implies #[trigger] rev@[k] == orig[n - 1 - k] by {
                assert(rev@[k] == before[k]);
            }
        }
        proof {
            if !(item is Expr) {
                assert(!(items@[at] is Expr));
                assert(forall|j: int| 0 <= j < at ==> (#[trigger] items@[j]) is Expr);
                assert(item_span_spec(items@[at]) == item_span_spec(item));
            }
        }
        match item {
            Item::Expr(e) => exprs.push(e),
            Item::Colon(span) => return Err(parse_error("unexpected ':'", span)),
            Item::Comma(span) => return Err(parse_error("unexpected ','", span)),
        }
    }
    Ok(exprs)
}

/// Whether `items` read `key: value, key: value, ...`, a comma after the last pair being
/// allowed.
pub open spec fn tuple_items_ok(items: Seq<Item>) -> bool {
    forall|g: int| 0 <= g && 4 * g < items.len() ==> #[trigger] tuple_group_ok(items, g)
}

/// Whether the pair `g` of the tuple items `items` reads `key: value`, followed by a comma
/// unless it ends them.
pub open spec fn tuple_group_ok(items: Seq<Item>, g: int) -> bool {
    &&& 4 * g + 2 < items.len()
    &&& items[4 * g] is Expr
    &&& items[4 * g + 1] is Colon
    &&& items[4 * g + 2] is Expr
    &&& 4 * g + 3 < items.len() ==> items[4 * g + 3] is Comma
}

/// The number of pairs of the tuple items `items`.
pub open spec fn tuple_pairs(items: Seq<Item>) -> int {
    ((items.len() + 3) / 4) as int
}

/// The `(tuple (key value) ...)` list that the braces `{key: value, ...}` stand for.
fn items_to_tuple(items: Vec<Item>, open: Span, close: Span, next_id: &mut u64) -> (r: Result<Vec<SymbolicExpression>, ParseError>)
    ensures
        r is Ok <==> tuple_items_ok(items@),
        r matches Ok(exprs) ==> {
            &&& exprs@.len() == 1 + tuple_pairs(items@)
            &&& exprs@[0].is_atom() && exprs@[0].atom()@ == "tuple"@
            &&& exprs@[0].span == open
            &&& forall|g: int| 0 <= g < tuple_pairs(items@) ==> {
                &&& (#[trigger] exprs@[g + 1]).is_list()
                &&& exprs@[g + 1].list() == seq![items@[4 * g]->Expr_0, items@[4 * g + 2]->Expr_0]
            }
        },
{
    let ghost orig = items@;
    let n = items.len();
    let mut rev = reversed(items);
    let mut exprs: Vec<SymbolicExpression> = Vec::new();
    let tuple_id = fresh_id(next_id);
    exprs.push(SymbolicExpression { expr: SymbolicExpressionType::Atom(text("tuple")), id: tuple_id, span: open });
    let ghost mut p: int = 0;
    while rev.len() > 0
        invariant
            orig == items@,
            n == orig.len(),
            p >= 0,
            (4 * p <= n && n - rev@.len() == 4 * p) || (rev@.len() == 0 && 4 * p == n + 1),
            forall|k: int| 0 <= k < rev@.len() ==> #[trigger] rev@[k] == orig[n - 1 - k],
            forall|g: int| 0 <= g < p ==> #[trigger] tuple_group_ok(orig, g),
            exprs@.len() == 1 + p,
            exprs@[0].is_atom() && exprs@[0].atom()@ == "tuple"@,
            exprs@[0].span == open,
            forall|g: int| 0 <= g < p ==> {
                &&& (#[trigger] exprs@[g + 1]).is_list()
                &&& exprs@[g + 1].list() == seq![orig[4 * g]->Expr_0, orig[4 * g + 2]->Expr_0]
            },
        decreases rev@.len(),
    {
        let ghost g0 = p;
        let ghost b0 = rev@;
        let key = match rev.pop().unwrap() {
            Item::Expr(e) => e,
            Item::Colon(span) => {
                proof {
                    assert(!(orig[4 * g0] is Expr));
                    assert(!tuple_group_ok(orig, g0));
                    assert(!tuple_items_ok(orig));
                }
                return Err(parse_error("expected key in tuple", span));
            },
            Item::Comma(span) => {
                proof {
                    assert(!(orig[4 * g0] is Expr));
                    assert(!tuple_group_ok(orig, g0));
                    assert(!tuple_items_ok(orig));
                }
                return Err(parse_error("expected key in tuple", span));
            },
        };
        proof {
            assert(b0[b0.len() - 1] == orig[4 * g0]);
            assert(key == orig[4 * g0]->Expr_0);
        }
        let ghost b1 = rev@;
        let colon = rev.pop();
        match colon {
            Some(Item::Colon(_)) => {},
            Some(other) => {
                proof {
                    assert(b1[b1.len() - 1] == orig[4 * g0 + 1]);
                    assert(!tuple_group_ok(orig, g0));
                    assert(!tuple_items_ok(orig));
                }
                return Err(parse_error("expected ':' after key in tuple", item_span(&other)));
            },
            None => {
                proof {
                    assert(!(4 * g0 + 2 < orig.len()));
                    assert(!tuple_group_ok(orig, g0));
                    assert(!tuple_items_ok(orig));
                }
                return Err(parse_error("expected ':' after key in tuple", close));
            },
        }
        proof {
            assert(b1[b1.len() - 1] == orig[4 * g0 + 1]);
        }
        let ghost b2 = rev@;
        let value = match rev.pop() {
            Some(Item::Expr(e)) => e,
            Some(other) => {
                proof {
                    assert(b2[b2.len() - 1] == orig[4 * g0 + 2]);
                    assert(!tuple_group_ok(orig, g0));
                    assert(!tuple_items_ok(orig));
                }
                return Err(parse_error("expected value expression for tuple", item_span(&other)));
            },
            None => {
                proof {
                    assert(!(4 * g0 + 2 < orig.len()));
                    assert(!tuple_group_ok(orig, g0));
                    assert(!tuple_items_ok(orig));
                }
                return Err(parse_error("expected value expression for tuple", close));
            },
        };
        proof {
            assert(b2[b2.len() - 1] == orig[4 * g0 + 2]);
            assert(value == orig[4 * g0 + 2]->Expr_0);
        }
        if rev.len() > 0 {
            let ghost b3 = rev@;
            match rev.pop().unwrap() {
                Item::Comma(_) => {
                    proof {
                        assert(b3[b3.len() - 1] == orig[4 * g0 + 3]);
                    }
                },
                other => {
                    proof {
                        assert(b3[b3.len() - 1] == orig[4 * g0 + 3]);
                        assert(!tuple_group_ok(orig, g0));
                    assert(!tuple_items_ok(orig));
                    }
                    return Err(parse_error("expected ',' separating key-value pairs in tuple", item_span(&other)));
                },
            }
        }
        let span = join_spans(&key.span, &value.span);
        let mut pair: Vec<SymbolicExpression> = Vec::new();
        pair.push(key);
        pair.push(value);
        let pair_id = fresh_id(next_id);
        let ghost pv = pair@;
        exprs.push(SymbolicExpression { expr: SymbolicExpressionType::List(pair), id: pair_id, span });
        proof {
            assert(pv == seq![orig[4 * g0]->Expr_0, orig[4 * g0 + 2]->Expr_0]);
            assert forall|k: int| 0 <= k < rev@.len() implies #[trigger] rev@[k] == orig[n - 1 - k] by {
                assert(rev@[k] == b0[k]);
            }
            p = p + 1;
        }
    }
    proof {
        assert(tuple_items_ok(orig)) by {
            assert forall|g: int| 0 <= g && 4 * g < orig.len() implies #[trigger] tuple_group_ok(orig, g) by {
                assert(g < p);
            }
        }
        assert(tuple_pairs(orig) == p) by (nonlinear_arith)
            requires
                (4 * p == n && n == orig.len()) || (4 * p == n + 1 && n == orig.len()),
                tuple_pairs(orig) == (orig.len() + 3) / 4,
        ;
    }
    Ok(exprs)
}

/// Adds an item to the innermost open list.
fn push_item(stack: &mut Vec<Frame>, item: Item)
    requires
        old(stack)@.len() > 0,
    ensures
        final(stack)@.len() == old(stack)@.len(),
        final(stack)@[0].kind == old(stack)@[0].kind,
        forall|k: int| 0 <= k < final(stack)@.len() ==> (#[trigger] final(stack)@[k]).kind == old(stack)@[k].kind,
        forall|k: int| 0 <= k < final(stack)@.len() - 1 ==> #[trigger] final(stack)@[k] == old(stack)@[k],
        final(stack)@.last().start == old(stack)@.last().start,
        final(stack)@.last().items@ == old(stack)@.last().items@.push(item),
{
    let mut top = stack.pop().unwrap();
    top.items.push(item);
    stack.push(top);
    proof {
        assert forall|k: int| 0 <= k < stack@.len() implies (#[trigger] stack@[k]).kind == old(stack)@[k].kind by {
            if k < stack@.len() - 1 {
                assert(stack@[k] == old(stack)@[k]);
            }
        }
    }
}

/// The nesting depth of brackets before the token `k` of `tokens` (an unmatched closing
/// bracket leaves it at 0).
pub open spec fn depth_before(tokens: Seq<Token>, k: int) -> nat
    decreases k,
{
    if k <= 0 {
        0
    } else {
        let d = depth_before(tokens, k - 1);
        match tokens[k - 1].kind {
            TokenKind::LParen | TokenKind::LBrace => if d < usize::MAX {
                (d + 1) as nat
            } else {
                d
            },
            TokenKind::RParen | TokenKind::RBrace => if d > 0 {
                (d - 1) as nat
            } else {
                0
            },
            _ => d,
        }
    }
}

/// Whether the token `k` of `tokens` opens a top-level list whose form is `form` and
/// whose next element is the name `name`.
pub open spec fn top_level_form(tokens: Seq<Token>, k: int, form: Seq<char>, name: Seq<char>) -> bool {
    &&& 0 <= k && k + 2 < tokens.len()
    &&& depth_before(tokens, k) == 0
    &&& (tokens[k].kind is LParen || tokens[k].kind is LBrace)
    &&& tokens[k + 1].kind matches TokenKind::Atom(f) && f@ == form
    &&& tokens[k + 2].kind matches TokenKind::Atom(n) && n@ == name
}

/// The traits that the top-level `define-trait` forms among the first `k` tokens define.
pub open spec fn defined_traits_in(tokens: Seq<Token>, k: int) -> Seq<Seq<char>>
    decreases k,
{
    if k <= 0 {
        Seq::empty()
    } else {
        defined_traits_in(tokens, k - 1) + if k + 1 < tokens.len() && tokens[k + 1].kind is Atom
            && top_level_form(tokens, k - 1, "define-trait"@, tokens[k + 1].kind->Atom_0@) {
            seq![tokens[k + 1].kind->Atom_0@]
        } else {
            Seq::empty()
        }
    }
}

/// The traits that the top-level `use-trait` forms among the first `k` tokens import,
/// with the names they are imported under.
pub open spec fn imported_traits_in(tokens: Seq<Token>, k: int) -> Seq<(Seq<char>, TraitIdView)>
    decreases k,
{
    if k <= 0 {
        Seq::empty()
    } else {
        imported_traits_in(tokens, k - 1) + if k + 2 < tokens.len() && tokens[k + 1].kind is Atom
            && top_level_form(tokens, k - 1, "use-trait"@, tokens[k + 1].kind->Atom_0@)
            && tokens[k + 2].kind is Field {
            seq![(tokens[k + 1].kind->Atom_0@, tokens[k + 2].kind->Field_0@)]
        } else {
            Seq::empty()
        }
    }
}

/// The trait names that the top-level `define-trait` and `use-trait` of `tokens` declare.
fn declared_traits(tokens: &Vec<Token>) -> (r: (Vec<ClarityName>, Vec<(ClarityName, TraitIdentifier)>))
    ensures
        views(r.0@) == defined_traits_in(tokens@, tokens@.len() as int),
        r.1@.map_values(|e: (ClarityName, TraitIdentifier)| (e.0@, e.1@)) == imported_traits_in(
            tokens@,
            tokens@.len() as int,
        ),
{
    let mut defined: Vec<ClarityName> = Vec::new();
    let mut imported: Vec<(ClarityName, TraitIdentifier)> = Vec::new();
    let mut depth: usize = 0;
    let mut k: usize = 0;
    proof {
        assert(views(defined@) =~= Seq::<Seq<char>>::empty());
        assert(imported@.map_values(|e: (ClarityName, TraitIdentifier)| (e.0@, e.1@)) =~= Seq::<(Seq<char>, TraitIdView)>::empty());
    }
    while k < tokens.len()
        invariant
            k <= tokens@.len(),
            depth == depth_before(tokens@, k as int),
            views(defined@) == defined_traits_in(tokens@, k as int),
            imported@.map_values(|e: (ClarityName, TraitIdentifier)| (e.0@, e.1@)) == imported_traits_in(
                tokens@,
                k as int,
            ),
        decreases tokens.len() - k,
    {
        match &tokens[k].kind {
            TokenKind::LParen | TokenKind::LBrace => {
                if depth == 0 && tokens.len() - k > 2 {
                    if let (TokenKind::Atom(form), TokenKind::Atom(name)) = (&tokens[k + 1].kind, &tokens[k + 2].kind) {
                        if name_is(form, "define-trait") {
                            defined.push(copy_string(name));
                        } else if name_is(form, "use-trait") && tokens.len() - k > 3 {
                            if let TokenKind::Field(t) = &tokens[k + 3].kind {
                                imported.push((copy_string(name), t.copy()));
                            }
                        }
                    }
                }
                if depth < usize::MAX {
                    depth = depth + 1;
                }
            },
            TokenKind::RParen | TokenKind::RBrace => {
                if depth > 0 {
                    depth = depth - 1;
                }
            },
            _ => {},
        }
        proof {
            let ts = tokens@;
            let j = k as int;
            let before_d = defined_traits_in(ts, j);
            let before_i = imported_traits_in(ts, j);
            assert(defined_traits_in(ts, j + 1) == before_d + if j + 2 < ts.len() && ts[j + 2].kind is Atom
                && top_level_form(ts, j, "define-trait"@, ts[j + 2].kind->Atom_0@) {
                seq![ts[j + 2].kind->Atom_0@]
            } else {
                Seq::<Seq<char>>::empty()
            });
            assert(views(defined@) =~= defined_traits_in(ts, j + 1));
            reveal_strlit("define-trait");
            reveal_strlit("use-trait");
            assert("define-trait"@ != "use-trait"@) by {
                assert("define-trait"@[0] != "use-trait"@[0]);
            }
            assert(imported_traits_in(ts, j + 1) == before_i + if j + 3 < ts.len() && ts[j + 2].kind is Atom
                && top_level_form(ts, j, "use-trait"@, ts[j + 2].kind->Atom_0@) && ts[j + 3].kind is Field {
                seq![(ts[j + 2].kind->Atom_0@, ts[j + 3].kind->Field_0@)]
            } else {
                Seq::<(Seq<char>, TraitIdView)>::empty()
            });
            assert(imported@.map_values(|e: (ClarityName, TraitIdentifier)| (e.0@, e.1@)) =~= imported_traits_in(ts, j + 1));
        }
        k = k + 1;
    }
    (defined, imported)
}

/// Resolves `<name>` to the trait that the contract defines or imports under that name.
fn resolve_trait(
    name: ClarityName,
    span: Span,
    contract_identifier: &QualifiedContractIdentifier,
    defined: &Vec<ClarityName>,
    imported: &Vec<(ClarityName, TraitIdentifier)>,
) -> (r: Result<SymbolicExpressionType, ParseError>)
    ensures
        r matches Ok(e) ==> e is TraitReference,
        r is Ok <==> (exists|i: int| 0 <= i < defined@.len() && (#[trigger] defined@[i])@ == name@) || exists|j: int|
            0 <= j < imported@.len() && (#[trigger] imported@[j]).0@ == name@,
        r matches Ok(e) ==> e->TraitReference_0@ == name@,
        r matches Err(e) ==> e.span == span,
{
    let mut i: usize = 0;
    while i < defined.len()
        invariant
            forall|k: int| 0 <= k < i ==> (#[trigger] defined@[k])@ != name@,
            i <= defined@.len(),
        decreases defined.len() - i,
    {
        if str_equals(defined[i].as_str(), name.as_str()) {
            let identifier = TraitIdentifier { name: name.clone(), contract_identifier: contract_identifier.copy() };
            return Ok(SymbolicExpressionType::TraitReference(name, TraitDefinition::Defined(identifier)));
        }
        i = i + 1;
    }
    let mut j: usize = 0;
    while j < imported.len()
        invariant
            forall|k: int| 0 <= k < defined@.len() ==> (#[trigger] defined@[k])@ != name@,
            forall|k: int| 0 <= k < j ==> (#[trigger] imported@[k]).0@ != name@,
            j <= imported@.len(),
        decreases imported.len() - j,
    {
        if str_equals(imported[j].0.as_str(), name.as_str()) {
            let identifier = imported[j].1.copy();
            return Ok(SymbolicExpressionType::TraitReference(name, TraitDefinition::Imported(identifier)));
        }
        j = j + 1;
    }
    let mut message = text("use of undeclared trait <");
    message.append(name.as_str());
    message.append(">");
    Err(ParseError { message, span })
}

/// Builds the syntax trees of a token sequence: lists, tuples (from braces), and trait
/// references resolved against the traits the contract declares.
pub fn parse_tokens(tokens: Vec<Token>, contract_identifier: &QualifiedContractIdentifier) -> (r: Result<Vec<SymbolicExpression>, ParseError>)
{
    let (defined, imported) = declared_traits(&tokens);
    let mut rev = reversed(tokens);
    let mut stack: Vec<Frame> = Vec::new();
    stack.push(Frame { kind: 0, items: Vec::new(), start: Span::zero() });
    let mut next_id: u64 = 1;
    while rev.len() > 0
        invariant
            stack@.len() > 0,
            stack@[0].kind == 0,
            forall|k: int| 0 < k < stack@.len() ==> (#[trigger] stack@[k]).kind != 0,
        decreases rev@.len(),
    {
        let token = rev.pop().unwrap();
        let span = token.span;
        match token.kind {
            TokenKind::LParen => {
                stack.push(Frame { kind: 1, items: Vec::new(), start: span });
            },
            TokenKind::LBrace => {
                stack.push(Frame { kind: 2, items: Vec::new(), start: span });
            },
            TokenKind::RParen | TokenKind::RBrace => {
                let closing: u8 = match token.kind {
                    TokenKind::RParen => 1,
                    _ => 2,
                };
                if stack.len() == 1 {
                    return Err(parse_error("Tried to close list which isn't open.", span));
                }
                let frame = stack.pop().unwrap();
                if frame.kind != closing {
                    if closing == 1 {
                        return Err(parse_error("expected '}' to close the tuple", span));
                    } else {
                        return Err(parse_error("expected ')' to close the list", span));
                    }
                }
                let full = join_spans(&frame.start, &span);
                let exprs = if closing == 1 {
                    items_to_exprs(frame.items)
                } else {
                    items_to_tuple(frame.items, frame.start, span, &mut next_id)
                };
                let exprs = match exprs {
                    Ok(exprs) => exprs,
                    Err(e) => return Err(e),
                };
                let id = fresh_id(&mut next_id);
                push_item(&mut stack, Item::Expr(SymbolicExpression { expr: SymbolicExpressionType::List(exprs), id, span: full }));
            },
            TokenKind::Colon => push_item(&mut stack, Item::Colon(span)),
            TokenKind::Comma => push_item(&mut stack, Item::Comma(span)),
            TokenKind::Literal(value) => {
                let id = fresh_id(&mut next_id);
                push_item(&mut stack, Item::Expr(SymbolicExpression { expr: SymbolicExpressionType::LiteralValue(value), id, span }));
            },
            TokenKind::Atom(name) => {
                let id = fresh_id(&mut next_id);
                push_item(&mut stack, Item::Expr(SymbolicExpression { expr: SymbolicExpressionType::Atom(name), id, span }));
            },
            TokenKind::Field(t) => {
                let id = fresh_id(&mut next_id);
                push_item(&mut stack, Item::Expr(SymbolicExpression { expr: SymbolicExpressionType::Field(t), id, span }));
            },
            TokenKind::TraitRef(name) => {
                let expr = match resolve_trait(name, span, contract_identifier, &defined, &imported) {
                    Ok(expr) => expr,
                    Err(e) => return Err(e),
                };
                let id = fresh_id(&mut next_id);
                push_item(&mut stack, Item::Expr(SymbolicExpression { expr, id, span }));
            },
        }
    }
    if stack.len() > 1 {
        let frame = stack.pop().unwrap();
        return Err(parse_error("List expressions (..) left opened.", frame.start));
    }
    let top = stack.pop().unwrap();
    items_to_exprs(top.items)
}

/// Parses the source of a contract into its top-level expressions.
pub fn parse(input: &str, contract_identifier: &QualifiedContractIdentifier) -> (r: Result<Vec<SymbolicExpression>, ParseError>)
    requires
        input@.len() <= MAX_SOURCE_LEN,
{
    let tokens = match lex(input, &contract_identifier.issuer) {
        Ok(tokens) => tokens,
        Err(e) => return Err(e),
    };
    parse_tokens(tokens, contract_identifier)
}

} // verus!
