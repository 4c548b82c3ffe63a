use vstd::prelude::*;
use vstd::string::*;
use crate::representations::{Span, str_equals};

verus! {

broadcast use vstd::std_specs::vec::group_vec_axioms;

/// The kinds of warning that an annotation can silence.
#[derive(Debug, Clone, Copy, PartialEq, Eq, Structural)]
pub enum WarningKind {
    UncheckedData,
    UncheckedParams,
}

/// What an annotation asks of the checkers.
#[derive(Debug, Clone, Copy, PartialEq, Eq, Structural)]
pub enum AnnotationKind {
    Allow(WarningKind),
}

/// An annotation `;; #[kind]` found in a contract, with the place it was written.
#[derive(Debug)]
pub struct Annotation {
    pub kind: AnnotationKind,
    pub span: Span,
}

/// The pattern of an annotation: a word, optionally followed by a value in parentheses.
pub const ANNOTATION_PATTERN: &'static str = "([[:word:]]+)(\\(([^)]+)\\))?";

/// The warning kind that `s` names, if any.
pub open spec fn warning_kind_of(s: Seq<char>) -> Option<WarningKind> {
    if s == "unchecked_data"@ {
        Some(WarningKind::UncheckedData)
    } else if s == "unchecked_params"@ {
        Some(WarningKind::UncheckedParams)
    } else {
        None
    }
}

/// The message for a string that names no warning kind.
pub open spec fn invalid_warning_message(s: Seq<char>) -> Seq<char> {
    "'"@ + s + "' is not a valid warning identifier"@
}

/// Reads a warning kind.
pub fn parse_warning_kind(s: &str) -> (r: Result<WarningKind, String>)
    ensures
        r matches Ok(k) ==> warning_kind_of(s@) == Some(k),
        r matches Err(m) ==> warning_kind_of(s@) is None && m@ == invalid_warning_message(s@),
        r is Ok <==> warning_kind_of(s@) is Some,
{
    if str_equals(s, "unchecked_data") {
        Ok(WarningKind::UncheckedData)
    } else if str_equals(s, "unchecked_params") {
        Ok(WarningKind::UncheckedParams)
    } else {
        let mut m = String::from_str("'");
        m.append(s);
        m.append("' is not a valid warning identifier");
        Err(m)
    }
}

impl std::str::FromStr for WarningKind {
    type Err = String;

    fn from_str(s: &str) -> Result<Self, Self::Err> {
        parse_warning_kind(s)
    }
}

/// The groups of the first match of `pattern` in `text`, as the regex crate finds them:
/// `None` when nothing matches; otherwise one entry per group (the whole match first),
/// `None` for a group that took no part in the match.
pub uninterp spec fn regex_captures(pattern: Seq<char>, text: Seq<char>) -> Option<Seq<Option<Seq<char>>>>;

/// The views of the groups of a match.
pub open spec fn groups_view(g: Seq<Option<String>>) -> Seq<Option<Seq<char>>> {
    g.map_values(|o: Option<String>| match o {
        Some(s) => Some(s@),
        None => None,
    })
}

/// Whether `Regex::new` of the regex crate accepts `pattern`: a function of the pattern alone.
pub uninterp spec fn regex_compiles(pattern: Seq<char>) -> bool;

/// Matches `pattern` against `text` with the regex crate (`Regex::new`, then
/// `Regex::captures`). `Err` exactly when the pattern does not compile; otherwise the groups
/// of the first match, as `regex_captures` names them; the whole match is always there.
#[verifier::external_body]
fn captures_of(pattern: &str, text: &str) -> (r: Result<Option<Vec<Option<String>>>, ()>)
    ensures
        r is Ok <==> regex_compiles(pattern@),
        r matches Ok(c) ==> match c {
            Some(g) => regex_captures(pattern@, text@) == Some(groups_view(g@)) && g@.len() >= 1 && g@[0] is Some,
            None => regex_captures(pattern@, text@) is None,
        },
{
    let re = match regex::Regex::new(pattern) {
        Ok(re) => re,
        Err(_) => return Err(()),
    };
    Ok(re.captures(text).map(|c| c.iter().map(|m| m.map(|m| m.as_str().to_string())).collect()))
}

/// The group `i` of a match, if it took part.
pub open spec fn group(g: Seq<Option<Seq<char>>>, i: int) -> Option<Seq<char>> {
    if 0 <= i < g.len() {
        g[i]
    } else {
        None
    }
}

/// What an annotation says, from the groups of its match against `ANNOTATION_PATTERN`:
/// the word is the annotation's name, the text in parentheses its value.
pub open spec fn annotation_kind_of(caps: Option<Seq<Option<Seq<char>>>>) -> Result<AnnotationKind, Seq<char>> {
    match caps {
        None => Err("malformed annotation"@),
        Some(g) => {
            let base = match group(g, 1) {
                Some(b) => b,
                None => Seq::empty(),
            };
            let value = match (group(g, 1), group(g, 3)) {
                (Some(_), Some(v)) => v,
                _ => Seq::empty(),
            };
            if base == "allow"@ {
                match warning_kind_of(value) {
                    Some(k) => Ok(AnnotationKind::Allow(k)),
                    None => Err("missing value for 'allow' annotation"@),
                }
            } else {
                Err("unrecognized annotation"@)
            }
        },
    }
}

/// The group `i` of a match, if it took part.
fn group_at(g: &Vec<Option<String>>, i: usize) -> (r: Option<&String>)
    ensures
        r matches Some(s) ==> group(groups_view(g@), i as int) == Some(s@),
        r is None ==> group(groups_view(g@), i as int) is None,
{
    if i < g.len() {
        match &g[i] {
            Some(s) => Some(s),
            None => None,
        }
    } else {
        None
    }
}

/// Reads an annotation from the groups of its match against `ANNOTATION_PATTERN`.
pub fn annotation_kind_from_captures(caps: Option<Vec<Option<String>>>) -> (r: Result<AnnotationKind, String>)
    ensures
        r matches Ok(k) ==> annotation_kind_of(
            match caps {
                Some(g) => Some(groups_view(g@)),
                None => None,
            },
        ) == Ok::<AnnotationKind, Seq<char>>(k),
        r matches Err(m) ==> annotation_kind_of(
            match caps {
                Some(g) => Some(groups_view(g@)),
                None => None,
            },
        ) == Err::<AnnotationKind, Seq<char>>(m@),
{
    let g = match caps {
        Some(g) => g,
        None => return Err(String::from_str("malformed annotation")),
    };
    let base_group = group_at(&g, 1);
    let value_group = group_at(&g, 3);
    let empty = String::new();
    let base: &String = match base_group {
        Some(b) => b,
        None => &empty,
    };
    let value: &String = match (base_group, value_group) {
        (Some(_), Some(v)) => v,
        _ => &empty,
    };
    if str_equals(base.as_str(), "allow") {
        match parse_warning_kind(value.as_str()) {
            Ok(kind) => Ok(AnnotationKind::Allow(kind)),
            Err(_) => Err(String::from_str("missing value for 'allow' annotation")),
        }
    } else {
        Err(String::from_str("unrecognized annotation"))
    }
}

/// Reads an annotation such as `allow(unchecked_data)`.
pub fn parse_annotation_kind(s: &str) -> (r: Result<AnnotationKind, String>)
    ensures
        r matches Ok(k) ==> annotation_kind_of(regex_captures(ANNOTATION_PATTERN@, s@)) == Ok::<AnnotationKind, Seq<char>>(k),
        regex_compiles(ANNOTATION_PATTERN@) ==> (r matches Err(m) ==> annotation_kind_of(
            regex_captures(ANNOTATION_PATTERN@, s@),
        ) == Err::<AnnotationKind, Seq<char>>(m@)),
        !regex_compiles(ANNOTATION_PATTERN@) ==> (r matches Err(m) && m@ == "malformed annotation"@),
{
    match captures_of(ANNOTATION_PATTERN, s) {
        Ok(caps) => annotation_kind_from_captures(caps),
        Err(_) => Err(String::from_str("malformed annotation")),
    }
}

impl std::str::FromStr for AnnotationKind {
    type Err = String;

    fn from_str(s: &str) -> Result<Self, Self::Err> {
        parse_annotation_kind(s)
    }
}

} // verus!
