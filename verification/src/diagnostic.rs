use vstd::prelude::*;
use vstd::string::*;
use crate::representations::Span;
use crate::text::views;

verus! {

broadcast use vstd::std_specs::vec::group_vec_axioms;

/// How serious a diagnostic is.
#[derive(Debug, Clone, Copy, PartialEq, Eq, Structural)]
pub enum Level {
    Note,
    Warning,
    Error,
}

/// A message about a place in a contract's source.
#[derive(Debug)]
pub struct Diagnostic {
    pub level: Level,
    pub message: String,
    pub spans: Vec<Span>,
    pub suggestion: Option<String>,
}

/// The ANSI escape sequence that starts bold text of a colour: red, green, yellow, blue
/// and black are 31 to 34 and 30.
pub open spec fn colour_code(colour: u8) -> Seq<char> {
    if colour == 1 {
        "\u{1b}[1;31m"@
    } else if colour == 2 {
        "\u{1b}[1;32m"@
    } else if colour == 3 {
        "\u{1b}[1;33m"@
    } else if colour == 4 {
        "\u{1b}[1;34m"@
    } else {
        "\u{1b}[1;30m"@
    }
}

pub open spec fn painted(colour: u8, s: Seq<char>) -> Seq<char> {
    colour_code(colour) + s + "\u{1b}[0m"@
}

/// `s` in bold of the colour `colour` (1 red, 2 green, 3 yellow, 4 blue, other black), as
/// a terminal shows it.
pub fn paint(colour: u8, s: &str) -> (r: String)
    ensures
        r@ == painted(colour, s@),
{
    let mut r = if colour == 1 {
        String::from_str("\u{1b}[1;31m")
    } else if colour == 2 {
        String::from_str("\u{1b}[1;32m")
    } else if colour == 3 {
        String::from_str("\u{1b}[1;33m")
    } else if colour == 4 {
        String::from_str("\u{1b}[1;34m")
    } else {
        String::from_str("\u{1b}[1;30m")
    };
    r.append(s);
    r.append("\u{1b}[0m");
    r
}

pub fn red(s: &str) -> (r: String)
    ensures
        r@ == painted(1, s@),
{
    paint(1, s)
}

pub fn green(s: &str) -> (r: String)
    ensures
        r@ == painted(2, s@),
{
    paint(2, s)
}

pub fn yellow(s: &str) -> (r: String)
    ensures
        r@ == painted(3, s@),
{
    paint(3, s)
}

pub fn blue(s: &str) -> (r: String)
    ensures
        r@ == painted(4, s@),
{
    paint(4, s)
}

/// The decimal digits of `n`.
pub open spec fn decimal(n: nat) -> Seq<char>
    decreases n,
{
    if n < 10 {
        seq![digit_char(n)]
    } else {
        decimal(n / 10) + seq![digit_char(n % 10)]
    }
}

pub open spec fn digit_char(d: nat) -> char {
    if d == 0 {
        '0'
    } else if d == 1 {
        '1'
    } else if d == 2 {
        '2'
    } else if d == 3 {
        '3'
    } else if d == 4 {
        '4'
    } else if d == 5 {
        '5'
    } else if d == 6 {
        '6'
    } else if d == 7 {
        '7'
    } else if d == 8 {
        '8'
    } else {
        '9'
    }
}

fn digit_str(d: u128) -> (r: &'static str)
    requires
        d < 10,
    ensures
        r@ == seq![digit_char(d as nat)],
{
    proof {
        reveal_strlit("0");
        reveal_strlit("1");
        reveal_strlit("2");
        reveal_strlit("3");
        reveal_strlit("4");
        reveal_strlit("5");
        reveal_strlit("6");
        reveal_strlit("7");
        reveal_strlit("8");
        reveal_strlit("9");
    }
    if d == 0 {
        "0"
    } else if d == 1 {
        "1"
    } else if d == 2 {
        "2"
    } else if d == 3 {
        "3"
    } else if d == 4 {
        "4"
    } else if d == 5 {
        "5"
    } else if d == 6 {
        "6"
    } else if d == 7 {
        "7"
    } else if d == 8 {
        "8"
    } else {
        "9"
    }
}

/// The decimal text of `n`.
pub fn decimal_string(n: u128) -> (r: String)
    ensures
        r@ == decimal(n as nat),
    decreases n,
{
    if n < 10 {
        String::from_str(digit_str(n))
    } else {
        let mut r = decimal_string(n / 10);
        r.append(digit_str(n % 10));
        r
    }
}

/// The text of a level as a terminal shows it.
pub fn level_text(level: Level) -> (r: String)
    ensures
        level == Level::Error ==> r@ == painted(1, "error"@),
        level == Level::Warning ==> r@ == painted(3, "warning"@),
        level == Level::Note ==> r@ == painted(4, "note"@),
{
    match level {
        Level::Error => red("error"),
        Level::Warning => yellow("warning"),
        Level::Note => blue("note"),
    }
}

/// `n` spaces.
fn spaces(n: u32) -> (r: String)
    ensures
        r@ == Seq::new(n as nat, |i: int| ' '),
{
    let mut r = String::new();
    let mut i: u32 = 0;
    proof {
        reveal_strlit(" ");
    }
    while i < n
        invariant
            i <= n,
            r@ == Seq::new(i as nat, |k: int| ' '),
        decreases n - i,
    {
        r.append(" ");
        proof {
            reveal_strlit(" ");
        }
        i = i + 1;
        assert(r@ =~= Seq::new(i as nat, |k: int| ' '));
    }
    r
}

/// `n` tildes.
fn tildes(n: u32) -> (r: String)
    ensures
        r@ == Seq::new(n as nat, |i: int| '~'),
{
    let mut r = String::new();
    let mut i: u32 = 0;
    proof {
        reveal_strlit("~");
    }
    while i < n
        invariant
            i <= n,
            r@ == Seq::new(i as nat, |k: int| '~'),
        decreases n - i,
    {
        r.append("~");
        proof {
            reveal_strlit("~");
        }
        i = i + 1;
        assert(r@ =~= Seq::new(i as nat, |k: int| '~'));
    }
    r
}

/// The first line of a diagnostic: `name:line:column: level: message`, or
/// `level: message` when it has no place.
pub open spec fn headline(d: Diagnostic, name: Seq<char>, level: Seq<char>) -> Seq<char> {
    if d.spans@.len() > 0 {
        name + ":"@ + decimal(d.spans@[0].start_line as nat) + ":"@ + decimal(d.spans@[0].start_column as nat)
            + ": "@ + level + ": "@ + d.message@
    } else {
        level + ": "@ + d.message@
    }
}

/// The marker under a place: spaces up to its first column, a caret, and a tilde for each
/// further column where the place lies on one line.
pub open spec fn marker(span: Span) -> Seq<char> {
    Seq::new(
        if span.start_column >= 1 {
            (span.start_column - 1) as nat
        } else {
            0
        },
        |i: int| ' ',
    ) + "^"@ + if span.start_line == span.end_line && span.end_column > span.start_column {
        Seq::new((span.end_column - span.start_column) as nat, |i: int| '~')
    } else {
        Seq::empty()
    }
}

/// The lines that show `d` to a user, where the source of contract `name` has the lines
/// `lines`: the headline, then the source line of its first place and the marker under
/// the place, where that line exists.
pub open spec fn diagnostic_lines(d: Diagnostic, name: Seq<char>, lines: Seq<Seq<char>>) -> Seq<Seq<char>> {
    seq![headline(d, name, level_text_spec(d.level))] + if d.spans@.len() > 0 && d.spans@[0].start_line >= 1
        && d.spans@[0].start_line - 1 < lines.len() {
        seq![lines[d.spans@[0].start_line - 1], marker(d.spans@[0])]
    } else {
        Seq::empty()
    }
}

/// The lines that show each diagnostic of `ds`, in order.
pub open spec fn diagnostics_lines(ds: Seq<Diagnostic>, name: Seq<char>, lines: Seq<Seq<char>>) -> Seq<Seq<char>>
    decreases ds.len(),
{
    if ds.len() == 0 {
        Seq::empty()
    } else {
        diagnostics_lines(ds.drop_last(), name, lines) + diagnostic_lines(ds.last(), name, lines)
    }
}

impl Diagnostic {
    /// The lines that show the diagnostic to a user: the headline, then the source line
    /// of its first place with a marker under the place.
    pub fn output(&self, name: &str, lines: &Vec<String>) -> (r: Vec<String>)
        ensures
            views(r@) == diagnostic_lines(*self, name@, views(lines@)),
    {
        let level = level_text(self.level);
        let mut out: Vec<String> = Vec::new();
        if self.spans.len() > 0 {
            let span = self.spans[0];
            let mut head = String::from_str(name);
            head.append(":");
            let l = decimal_string(span.start_line as u128);
            head.append(l.as_str());
            head.append(":");
            let c = decimal_string(span.start_column as u128);
            head.append(c.as_str());
            head.append(": ");
            head.append(level.as_str());
            head.append(": ");
            head.append(self.message.as_str());
            out.push(head);
            proof {
                assert(out@[0]@ =~= headline(*self, name@, level_text_spec(self.level)));
            }
            if span.start_line >= 1 && ((span.start_line - 1) as u64) < (lines.len() as u64) {
                let line = &lines[(span.start_line - 1) as usize];
                out.push(line.clone());
                let mut pointer = spaces(if span.start_column >= 1 {
                    span.start_column - 1
                } else {
                    0
                });
                pointer.append("^");
                if span.start_line == span.end_line && span.end_column > span.start_column {
                    let t = tildes(span.end_column - span.start_column);
                    pointer.append(t.as_str());
                }
                out.push(pointer);
                proof {
                    assert(views(lines@)[span.start_line - 1] == lines@[span.start_line - 1]@);
                    assert(views(out@) =~= diagnostic_lines(*self, name@, views(lines@)));
                }
            } else {
                proof {
                    assert(views(out@) =~= diagnostic_lines(*self, name@, views(lines@)));
                }
            }
        } else {
            let mut head = level;
            head.append(": ");
            head.append(self.message.as_str());
            out.push(head);
            proof {
                assert(out@[0]@ =~= headline(*self, name@, level_text_spec(self.level)));
                assert(views(out@) =~= diagnostic_lines(*self, name@, views(lines@)));
            }
        }
        out
    }
}

/// The text of a level as a terminal shows it.
pub open spec fn level_text_spec(level: Level) -> Seq<char> {
    match level {
        Level::Error => painted(1, "error"@),
        Level::Warning => painted(3, "warning"@),
        Level::Note => painted(4, "note"@),
    }
}

} // verus!
