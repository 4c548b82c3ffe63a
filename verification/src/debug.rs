use vstd::prelude::*;
use vstd::string::*;
use crate::analysis_db::contract_id_text;
use crate::diagnostic::{blue, decimal, decimal_string, green, paint, painted, red, yellow};
use crate::parser::{MAX_SOURCE_LEN, parse};
use crate::text::{
    all_digits, find_char, lines, lines_of, parse_unsigned, split_char, split_on, split_words, unsigned_value,
    views, words,
};
use crate::functions::NativeFunctions;
use crate::representations::{
    ContractIdView, QualifiedContractIdentifier, Span, StandardPrincipalData, SymbolicExpression,
    SymbolicExpressionType, copy_string, str_equals,
};

verus! {

broadcast use vstd::std_specs::vec::group_vec_axioms;

/// The text `address.name` of a contract identifier.
pub open spec fn id_text(id: ContractIdView) -> Seq<char> {
    id.0 + "."@ + id.1
}

/// The contract that a breakpoint is set in.
pub struct Source {
    pub name: QualifiedContractIdentifier,
}

impl Source {
    /// The source as the debugger shows it: the contract's identifier.
    pub fn to_string(&self) -> (r: String)
        ensures
            r@ == id_text(self.name@),
    {
        contract_id_text(&self.name)
    }
}

/// A breakpoint or a watchpoint: an identifier, where it is set, and what it waits for.
pub struct Breakpoint {
    pub id: usize,
    pub verified: bool,
    pub data: BreakpointData,
    pub source: Source,
    pub span: Option<Span>,
}

/// What a breakpoint waits for: a place in the source, a function, or an access to data.
pub enum BreakpointData {
    Source(SourceBreakpoint),
    Function(FunctionBreakpoint),
    Data(DataBreakpoint),
}

/// A breakpoint at a line, and at a column of it where one is given.
pub struct SourceBreakpoint {
    pub line: u32,
    pub column: Option<u32>,
    pub log_message: Option<String>,
}

/// The accesses to a variable or a map that a watchpoint waits for.
#[derive(Clone, Copy, Debug, PartialEq, Eq, Structural)]
pub enum AccessType {
    Read,
    Write,
    ReadWrite,
}

/// A watchpoint on a data variable or a map.
pub struct DataBreakpoint {
    pub name: String,
    pub access_type: AccessType,
}

/// A breakpoint at the start of a function.
pub struct FunctionBreakpoint {
    pub name: String,
}

pub open spec fn source_breakpoint_text(b: SourceBreakpoint) -> Seq<char> {
    ":"@ + decimal(b.line as nat) + match b.column {
        Some(c) => ":"@ + decimal(c as nat),
        None => Seq::empty(),
    }
}

pub open spec fn access_text(a: AccessType) -> Seq<char> {
    match a {
        AccessType::Read => "(r)"@,
        AccessType::Write => "(w)"@,
        AccessType::ReadWrite => "(rw)"@,
    }
}

pub open spec fn data_breakpoint_text(d: DataBreakpoint) -> Seq<char> {
    "."@ + d.name@ + " "@ + access_text(d.access_type)
}

pub open spec fn breakpoint_data_text(d: BreakpointData) -> Seq<char> {
    match d {
        BreakpointData::Source(s) => source_breakpoint_text(s),
        BreakpointData::Function(f) => "."@ + f.name@,
        BreakpointData::Data(d) => data_breakpoint_text(d),
    }
}

/// A breakpoint as the debugger lists it: `id: contract` and then what it waits for.
pub open spec fn breakpoint_text(b: Breakpoint) -> Seq<char> {
    decimal(b.id as nat) + ": "@ + id_text(b.source.name@) + breakpoint_data_text(b.data)
}

impl SourceBreakpoint {
    pub fn to_string(&self) -> (r: String)
        ensures
            r@ == source_breakpoint_text(*self),
    {
        let mut r = String::from_str(":");
        let line = decimal_string(self.line as u128);
        r.append(line.as_str());
        if let Some(c) = self.column {
            r.append(":");
            let col = decimal_string(c as u128);
            r.append(col.as_str());
        }
        proof {
            assert(r@ =~= source_breakpoint_text(*self));
        }
        r
    }
}

impl AccessType {
    pub fn to_string(&self) -> (r: String)
        ensures
            r@ == access_text(*self),
    {
        match self {
            AccessType::Read => String::from_str("(r)"),
            AccessType::Write => String::from_str("(w)"),
            AccessType::ReadWrite => String::from_str("(rw)"),
        }
    }
}

impl DataBreakpoint {
    pub fn to_string(&self) -> (r: String)
        ensures
            r@ == data_breakpoint_text(*self),
    {
        let mut r = String::from_str(".");
        r.append(self.name.as_str());
        r.append(" ");
        let a = self.access_type.to_string();
        r.append(a.as_str());
        r
    }
}

impl FunctionBreakpoint {
    pub fn to_string(&self) -> (r: String)
        ensures
            r@ == "."@ + self.name@,
    {
        let mut r = String::from_str(".");
        r.append(self.name.as_str());
        r
    }
}

impl BreakpointData {
    pub fn to_string(&self) -> (r: String)
        ensures
            r@ == breakpoint_data_text(*self),
    {
        match self {
            BreakpointData::Source(s) => s.to_string(),
            BreakpointData::Function(f) => f.to_string(),
            BreakpointData::Data(d) => d.to_string(),
        }
    }
}

impl Breakpoint {
    pub fn to_string(&self) -> (r: String)
        ensures
            r@ == breakpoint_text(*self),
    {
        let mut r = decimal_string(self.id as u128);
        r.append(": ");
        let source = self.source.to_string();
        r.append(source.as_str());
        let data = self.data.to_string();
        r.append(data.as_str());
        proof {
            assert(r@ =~= breakpoint_text(*self));
        }
        r
    }
}

/// What the debugger is doing: waiting to start, running on, stepping over the expression
/// with the given identifier, stepping into the next one, running until the expression with
/// the given identifier finishes, stopped at a break, or no longer debugging.
#[derive(Clone, Copy, Debug, PartialEq, Eq, Structural)]
pub enum State {
    Start,
    Continue,
    StepOver(u64),
    StepIn,
    Finish(u64),
    Break,
    Quit,
}

/// An expression under evaluation, and the breakpoints that it set off.
pub struct ExprState {
    pub id: u64,
    pub active_breakpoints: Vec<usize>,
}

impl ExprState {
    pub fn new(id: u64) -> (r: ExprState)
        ensures
            r.id == id,
            r.active_breakpoints@.len() == 0,
    {
        ExprState { id, active_breakpoints: Vec::new() }
    }
}

/// Two expression states are the same when they are about the same expression.
impl PartialEq for ExprState {
    fn eq(&self, other: &Self) -> (r: bool) {
        self.id == other.id
    }
}

impl vstd::std_specs::cmp::PartialEqSpecImpl for ExprState {
    open spec fn obeys_eq_spec() -> bool {
        true
    }

    open spec fn eq_spec(&self, other: &Self) -> bool {
        self.id == other.id
    }
}

/// Whether the identifiers of `s` increase strictly and lie in `1..=bound`.
pub open spec fn ids_increasing(s: Seq<Breakpoint>, bound: usize) -> bool {
    &&& forall|i: int, j: int| 0 <= i < j < s.len() ==> s[i].id < s[j].id
    &&& forall|i: int| 0 <= i < s.len() ==> 1 <= #[trigger] s[i].id <= bound
}

/// Whether `s` has an entry with identifier `id`.
pub open spec fn has_id(s: Seq<Breakpoint>, id: usize) -> bool {
    exists|i: int| 0 <= i < s.len() && #[trigger] s[i].id == id
}

/// The variable or map that `expr` reads or writes, and how: a `var-get`, `var-set`,
/// `map-get?`, `map-set`, `map-insert` or `map-delete` whose first argument is a name.
pub open spec fn data_access(expr: SymbolicExpression) -> Option<(Seq<char>, AccessType)> {
    if expr.is_list() && expr.list().len() >= 2 && expr.list()[0].is_atom() && expr.list()[1].is_atom() {
        let name = expr.list()[1].atom()@;
        match NativeFunctions::spec_lookup(expr.list()[0].atom()@) {
            Some(NativeFunctions::FetchVar) => Some((name, AccessType::Read)),
            Some(NativeFunctions::SetVar) => Some((name, AccessType::Write)),
            Some(NativeFunctions::FetchEntry) => Some((name, AccessType::Read)),
            Some(NativeFunctions::SetEntry) => Some((name, AccessType::Write)),
            Some(NativeFunctions::InsertEntry) => Some((name, AccessType::Write)),
            Some(NativeFunctions::DeleteEntry) => Some((name, AccessType::Write)),
            _ => None,
        }
    } else {
        None
    }
}

proof fn lemma_lookup_var_get()
    ensures
        NativeFunctions::spec_lookup("var-get"@) == Some(NativeFunctions::FetchVar),
{
    reveal_strlit("var-get");
    reveal_strlit("+");
    assert("var-get"@ != "+"@) by {
        assert("var-get"@.len() != "+"@.len());
    }
    reveal_strlit("-");
    assert("var-get"@ != "-"@) by {
        assert("var-get"@.len() != "-"@.len());
    }
    reveal_strlit("*");
    assert("var-get"@ != "*"@) by {
        assert("var-get"@.len() != "*"@.len());
    }
    reveal_strlit("/");
    assert("var-get"@ != "/"@) by {
        assert("var-get"@.len() != "/"@.len());
    }
    reveal_strlit(">=");
    assert("var-get"@ != ">="@) by {
        assert("var-get"@.len() != ">="@.len());
    }
    reveal_strlit("<=");
    assert("var-get"@ != "<="@) by {
        assert("var-get"@.len() != "<="@.len());
    }
    reveal_strlit("<");
    assert("var-get"@ != "<"@) by {
        assert("var-get"@.len() != "<"@.len());
    }
    reveal_strlit(">");
    assert("var-get"@ != ">"@) by {
        assert("var-get"@.len() != ">"@.len());
    }
    reveal_strlit("to-int");
    assert("var-get"@ != "to-int"@) by {
        assert("var-get"@.len() != "to-int"@.len());
    }
    reveal_strlit("to-uint");
    assert("var-get"@ != "to-uint"@) by {
        assert("var-get"@[0] != "to-uint"@[0]);
    }
    reveal_strlit("mod");
    assert("var-get"@ != "mod"@) by {
        assert("var-get"@.len() != "mod"@.len());
    }
    reveal_strlit("pow");
    assert("var-get"@ != "pow"@) by {
        assert("var-get"@.len() != "pow"@.len());
    }
    reveal_strlit("sqrti");
    assert("var-get"@ != "sqrti"@) by {
        assert("var-get"@.len() != "sqrti"@.len());
    }
    reveal_strlit("log2");
    assert("var-get"@ != "log2"@) by {
        assert("var-get"@.len() != "log2"@.len());
    }
    reveal_strlit("xor");
    assert("var-get"@ != "xor"@) by {
        assert("var-get"@.len() != "xor"@.len());
    }
    reveal_strlit("and");
    assert("var-get"@ != "and"@) by {
        assert("var-get"@.len() != "and"@.len());
    }
    reveal_strlit("or");
    assert("var-get"@ != "or"@) by {
        assert("var-get"@.len() != "or"@.len());
    }
    reveal_strlit("not");
    assert("var-get"@ != "not"@) by {
        assert("var-get"@.len() != "not"@.len());
    }
    reveal_strlit("is-eq");
    assert("var-get"@ != "is-eq"@) by {
        assert("var-get"@.len() != "is-eq"@.len());
    }
    reveal_strlit("if");
    assert("var-get"@ != "if"@) by {
        assert("var-get"@.len() != "if"@.len());
    }
    reveal_strlit("let");
    assert("var-get"@ != "let"@) by {
        assert("var-get"@.len() != "let"@.len());
    }
    reveal_strlit("map");
    assert("var-get"@ != "map"@) by {
        assert("var-get"@.len() != "map"@.len());
    }
    reveal_strlit("fold");
    assert("var-get"@ != "fold"@) by {
        assert("var-get"@.len() != "fold"@.len());
    }
    reveal_strlit("append");
    assert("var-get"@ != "append"@) by {
        assert("var-get"@.len() != "append"@.len());
    }
    reveal_strlit("concat");
    assert("var-get"@ != "concat"@) by {
        assert("var-get"@.len() != "concat"@.len());
    }
    reveal_strlit("as-max-len?");
    assert("var-get"@ != "as-max-len?"@) by {
        assert("var-get"@.len() != "as-max-len?"@.len());
    }
    reveal_strlit("len");
    assert("var-get"@ != "len"@) by {
        assert("var-get"@.len() != "len"@.len());
    }
    reveal_strlit("element-at");
    assert("var-get"@ != "element-at"@) by {
        assert("var-get"@.len() != "element-at"@.len());
    }
    reveal_strlit("index-of");
    assert("var-get"@ != "index-of"@) by {
        assert("var-get"@.len() != "index-of"@.len());
    }
    reveal_strlit("list");
    assert("var-get"@ != "list"@) by {
        assert("var-get"@.len() != "list"@.len());
    }
}

proof fn lemma_lookup_var_set()
    ensures
        NativeFunctions::spec_lookup("var-set"@) == Some(NativeFunctions::SetVar),
{
    reveal_strlit("var-set");
    reveal_strlit("+");
    assert("var-set"@ != "+"@) by {
        assert("var-set"@.len() != "+"@.len());
    }
    reveal_strlit("-");
    assert("var-set"@ != "-"@) by {
        assert("var-set"@.len() != "-"@.len());
    }
    reveal_strlit("*");
    assert("var-set"@ != "*"@) by {
        assert("var-set"@.len() != "*"@.len());
    }
    reveal_strlit("/");
    assert("var-set"@ != "/"@) by {
        assert("var-set"@.len() != "/"@.len());
    }
    reveal_strlit(">=");
    assert("var-set"@ != ">="@) by {
        assert("var-set"@.len() != ">="@.len());
    }
    reveal_strlit("<=");
    assert("var-set"@ != "<="@) by {
        assert("var-set"@.len() != "<="@.len());
    }
    reveal_strlit("<");
    assert("var-set"@ != "<"@) by {
        assert("var-set"@.len() != "<"@.len());
    }
    reveal_strlit(">");
    assert("var-set"@ != ">"@) by {
        assert("var-set"@.len() != ">"@.len());
    }
    reveal_strlit("to-int");
    assert("var-set"@ != "to-int"@) by {
        assert("var-set"@.len() != "to-int"@.len());
    }
    reveal_strlit("to-uint");
    assert("var-set"@ != "to-uint"@) by {
        assert("var-set"@[0] != "to-uint"@[0]);
    }
    reveal_strlit("mod");
    assert("var-set"@ != "mod"@) by {
        assert("var-set"@.len() != "mod"@.len());
    }
    reveal_strlit("pow");
    assert("var-set"@ != "pow"@) by {
        assert("var-set"@.len() != "pow"@.len());
    }
    reveal_strlit("sqrti");
    assert("var-set"@ != "sqrti"@) by {
        assert("var-set"@.len() != "sqrti"@.len());
    }
    reveal_strlit("log2");
    assert("var-set"@ != "log2"@) by {
        assert("var-set"@.len() != "log2"@.len());
    }
    reveal_strlit("xor");
    assert("var-set"@ != "xor"@) by {
        assert("var-set"@.len() != "xor"@.len());
    }
    reveal_strlit("and");
    assert("var-set"@ != "and"@) by {
        assert("var-set"@.len() != "and"@.len());
    }
    reveal_strlit("or");
    assert("var-set"@ != "or"@) by {
        assert("var-set"@.len() != "or"@.len());
    }
    reveal_strlit("not");
    assert("var-set"@ != "not"@) by {
        assert("var-set"@.len() != "not"@.len());
    }
    reveal_strlit("is-eq");
    assert("var-set"@ != "is-eq"@) by {
        assert("var-set"@.len() != "is-eq"@.len());
    }
    reveal_strlit("if");
    assert("var-set"@ != "if"@) by {
        assert("var-set"@.len() != "if"@.len());
    }
    reveal_strlit("let");
    assert("var-set"@ != "let"@) by {
        assert("var-set"@.len() != "let"@.len());
    }
    reveal_strlit("map");
    assert("var-set"@ != "map"@) by {
        assert("var-set"@.len() != "map"@.len());
    }
    reveal_strlit("fold");
    assert("var-set"@ != "fold"@) by {
        assert("var-set"@.len() != "fold"@.len());
    }
    reveal_strlit("append");
    assert("var-set"@ != "append"@) by {
        assert("var-set"@.len() != "append"@.len());
    }
    reveal_strlit("concat");
    assert("var-set"@ != "concat"@) by {
        assert("var-set"@.len() != "concat"@.len());
    }
    reveal_strlit("as-max-len?");
    assert("var-set"@ != "as-max-len?"@) by {
        assert("var-set"@.len() != "as-max-len?"@.len());
    }
    reveal_strlit("len");
    assert("var-set"@ != "len"@) by {
        assert("var-set"@.len() != "len"@.len());
    }
    reveal_strlit("element-at");
    assert("var-set"@ != "element-at"@) by {
        assert("var-set"@.len() != "element-at"@.len());
    }
    reveal_strlit("index-of");
    assert("var-set"@ != "index-of"@) by {
        assert("var-set"@.len() != "index-of"@.len());
    }
    reveal_strlit("list");
    assert("var-set"@ != "list"@) by {
        assert("var-set"@.len() != "list"@.len());
    }
    reveal_strlit("var-get");
    assert("var-set"@ != "var-get"@) by {
        assert("var-set"@[4] != "var-get"@[4]);
    }
}

proof fn lemma_lookup_map_get()
    ensures
        NativeFunctions::spec_lookup("map-get?"@) == Some(NativeFunctions::FetchEntry),
{
    reveal_strlit("map-get?");
    reveal_strlit("+");
    assert("map-get?"@ != "+"@) by {
        assert("map-get?"@.len() != "+"@.len());
    }
    reveal_strlit("-");
    assert("map-get?"@ != "-"@) by {
        assert("map-get?"@.len() != "-"@.len());
    }
    reveal_strlit("*");
    assert("map-get?"@ != "*"@) by {
        assert("map-get?"@.len() != "*"@.len());
    }
    reveal_strlit("/");
    assert("map-get?"@ != "/"@) by {
        assert("map-get?"@.len() != "/"@.len());
    }
    reveal_strlit(">=");
    assert("map-get?"@ != ">="@) by {
        assert("map-get?"@.len() != ">="@.len());
    }
    reveal_strlit("<=");
    assert("map-get?"@ != "<="@) by {
        assert("map-get?"@.len() != "<="@.len());
    }
    reveal_strlit("<");
    assert("map-get?"@ != "<"@) by {
        assert("map-get?"@.len() != "<"@.len());
    }
    reveal_strlit(">");
    assert("map-get?"@ != ">"@) by {
        assert("map-get?"@.len() != ">"@.len());
    }
    reveal_strlit("to-int");
    assert("map-get?"@ != "to-int"@) by {
        assert("map-get?"@.len() != "to-int"@.len());
    }
    reveal_strlit("to-uint");
    assert("map-get?"@ != "to-uint"@) by {
        assert("map-get?"@.len() != "to-uint"@.len());
    }
    reveal_strlit("mod");
    assert("map-get?"@ != "mod"@) by {
        assert("map-get?"@.len() != "mod"@.len());
    }
    reveal_strlit("pow");
    assert("map-get?"@ != "pow"@) by {
        assert("map-get?"@.len() != "pow"@.len());
    }
    reveal_strlit("sqrti");
    assert("map-get?"@ != "sqrti"@) by {
        assert("map-get?"@.len() != "sqrti"@.len());
    }
    reveal_strlit("log2");
    assert("map-get?"@ != "log2"@) by {
        assert("map-get?"@.len() != "log2"@.len());
    }
    reveal_strlit("xor");
    assert("map-get?"@ != "xor"@) by {
        assert("map-get?"@.len() != "xor"@.len());
    }
    reveal_strlit("and");
    assert("map-get?"@ != "and"@) by {
        assert("map-get?"@.len() != "and"@.len());
    }
    reveal_strlit("or");
    assert("map-get?"@ != "or"@) by {
        assert("map-get?"@.len() != "or"@.len());
    }
    reveal_strlit("not");
    assert("map-get?"@ != "not"@) by {
        assert("map-get?"@.len() != "not"@.len());
    }
    reveal_strlit("is-eq");
    assert("map-get?"@ != "is-eq"@) by {
        assert("map-get?"@.len() != "is-eq"@.len());
    }
    reveal_strlit("if");
    assert("map-get?"@ != "if"@) by {
        assert("map-get?"@.len() != "if"@.len());
    }
    reveal_strlit("let");
    assert("map-get?"@ != "let"@) by {
        assert("map-get?"@.len() != "let"@.len());
    }
    reveal_strlit("map");
    assert("map-get?"@ != "map"@) by {
        assert("map-get?"@.len() != "map"@.len());
    }
    reveal_strlit("fold");
    assert("map-get?"@ != "fold"@) by {
        assert("map-get?"@.len() != "fold"@.len());
    }
    reveal_strlit("append");
    assert("map-get?"@ != "append"@) by {
        assert("map-get?"@.len() != "append"@.len());
    }
    reveal_strlit("concat");
    assert("map-get?"@ != "concat"@) by {
        assert("map-get?"@.len() != "concat"@.len());
    }
    reveal_strlit("as-max-len?");
    assert("map-get?"@ != "as-max-len?"@) by {
        assert("map-get?"@.len() != "as-max-len?"@.len());
    }
    reveal_strlit("len");
    assert("map-get?"@ != "len"@) by {
        assert("map-get?"@.len() != "len"@.len());
    }
    reveal_strlit("element-at");
    assert("map-get?"@ != "element-at"@) by {
        assert("map-get?"@.len() != "element-at"@.len());
    }
    reveal_strlit("index-of");
    assert("map-get?"@ != "index-of"@) by {
        assert("map-get?"@[0] != "index-of"@[0]);
    }
    reveal_strlit("list");
    assert("map-get?"@ != "list"@) by {
        assert("map-get?"@.len() != "list"@.len());
    }
    reveal_strlit("var-get");
    assert("map-get?"@ != "var-get"@) by {
        assert("map-get?"@.len() != "var-get"@.len());
    }
    reveal_strlit("var-set");
    assert("map-get?"@ != "var-set"@) by {
        assert("map-get?"@.len() != "var-set"@.len());
    }
}

proof fn lemma_lookup_map_set()
    ensures
        NativeFunctions::spec_lookup("map-set"@) == Some(NativeFunctions::SetEntry),
{
    reveal_strlit("map-set");
    reveal_strlit("+");
    assert("map-set"@ != "+"@) by {
        assert("map-set"@.len() != "+"@.len());
    }
    reveal_strlit("-");
    assert("map-set"@ != "-"@) by {
        assert("map-set"@.len() != "-"@.len());
    }
    reveal_strlit("*");
    assert("map-set"@ != "*"@) by {
        assert("map-set"@.len() != "*"@.len());
    }
    reveal_strlit("/");
    assert("map-set"@ != "/"@) by {
        assert("map-set"@.len() != "/"@.len());
    }
    reveal_strlit(">=");
    assert("map-set"@ != ">="@) by {
        assert("map-set"@.len() != ">="@.len());
    }
    reveal_strlit("<=");
    assert("map-set"@ != "<="@) by {
        assert("map-set"@.len() != "<="@.len());
    }
    reveal_strlit("<");
    assert("map-set"@ != "<"@) by {
        assert("map-set"@.len() != "<"@.len());
    }
    reveal_strlit(">");
    assert("map-set"@ != ">"@) by {
        assert("map-set"@.len() != ">"@.len());
    }
    reveal_strlit("to-int");
    assert("map-set"@ != "to-int"@) by {
        assert("map-set"@.len() != "to-int"@.len());
    }
    reveal_strlit("to-uint");
    assert("map-set"@ != "to-uint"@) by {
        assert("map-set"@[0] != "to-uint"@[0]);
    }
    reveal_strlit("mod");
    assert("map-set"@ != "mod"@) by {
        assert("map-set"@.len() != "mod"@.len());
    }
    reveal_strlit("pow");
    assert("map-set"@ != "pow"@) by {
        assert("map-set"@.len() != "pow"@.len());
    }
    reveal_strlit("sqrti");
    assert("map-set"@ != "sqrti"@) by {
        assert("map-set"@.len() != "sqrti"@.len());
    }
    reveal_strlit("log2");
    assert("map-set"@ != "log2"@) by {
        assert("map-set"@.len() != "log2"@.len());
    }
    reveal_strlit("xor");
    assert("map-set"@ != "xor"@) by {
        assert("map-set"@.len() != "xor"@.len());
    }
    reveal_strlit("and");
    assert("map-set"@ != "and"@) by {
        assert("map-set"@.len() != "and"@.len());
    }
    reveal_strlit("or");
    assert("map-set"@ != "or"@) by {
        assert("map-set"@.len() != "or"@.len());
    }
    reveal_strlit("not");
    assert("map-set"@ != "not"@) by {
        assert("map-set"@.len() != "not"@.len());
    }
    reveal_strlit("is-eq");
    assert("map-set"@ != "is-eq"@) by {
        assert("map-set"@.len() != "is-eq"@.len());
    }
    reveal_strlit("if");
    assert("map-set"@ != "if"@) by {
        assert("map-set"@.len() != "if"@.len());
    }
    reveal_strlit("let");
    assert("map-set"@ != "let"@) by {
        assert("map-set"@.len() != "let"@.len());
    }
    reveal_strlit("map");
    assert("map-set"@ != "map"@) by {
        assert("map-set"@.len() != "map"@.len());
    }
    reveal_strlit("fold");
    assert("map-set"@ != "fold"@) by {
        assert("map-set"@.len() != "fold"@.len());
    }
    reveal_strlit("append");
    assert("map-set"@ != "append"@) by {
        assert("map-set"@.len() != "append"@.len());
    }
    reveal_strlit("concat");
    assert("map-set"@ != "concat"@) by {
        assert("map-set"@.len() != "concat"@.len());
    }
    reveal_strlit("as-max-len?");
    assert("map-set"@ != "as-max-len?"@) by {
        assert("map-set"@.len() != "as-max-len?"@.len());
    }
    reveal_strlit("len");
    assert("map-set"@ != "len"@) by {
        assert("map-set"@.len() != "len"@.len());
    }
    reveal_strlit("element-at");
    assert("map-set"@ != "element-at"@) by {
        assert("map-set"@.len() != "element-at"@.len());
    }
    reveal_strlit("index-of");
    assert("map-set"@ != "index-of"@) by {
        assert("map-set"@.len() != "index-of"@.len());
    }
    reveal_strlit("list");
    assert("map-set"@ != "list"@) by {
        assert("map-set"@.len() != "list"@.len());
    }
    reveal_strlit("var-get");
    assert("map-set"@ != "var-get"@) by {
        assert("map-set"@[0] != "var-get"@[0]);
    }
    reveal_strlit("var-set");
    assert("map-set"@ != "var-set"@) by {
        assert("map-set"@[0] != "var-set"@[0]);
    }
    reveal_strlit("map-get?");
    assert("map-set"@ != "map-get?"@) by {
        assert("map-set"@.len() != "map-get?"@.len());
    }
}

proof fn lemma_lookup_map_insert()
    ensures
        NativeFunctions::spec_lookup("map-insert"@) == Some(NativeFunctions::InsertEntry),
{
    reveal_strlit("map-insert");
    reveal_strlit("+");
    assert("map-insert"@ != "+"@) by {
        assert("map-insert"@.len() != "+"@.len());
    }
    reveal_strlit("-");
    assert("map-insert"@ != "-"@) by {
        assert("map-insert"@.len() != "-"@.len());
    }
    reveal_strlit("*");
    assert("map-insert"@ != "*"@) by {
        assert("map-insert"@.len() != "*"@.len());
    }
    reveal_strlit("/");
    assert("map-insert"@ != "/"@) by {
        assert("map-insert"@.len() != "/"@.len());
    }
    reveal_strlit(">=");
    assert("map-insert"@ != ">="@) by {
        assert("map-insert"@.len() != ">="@.len());
    }
    reveal_strlit("<=");
    assert("map-insert"@ != "<="@) by {
        assert("map-insert"@.len() != "<="@.len());
    }
    reveal_strlit("<");
    assert("map-insert"@ != "<"@) by {
        assert("map-insert"@.len() != "<"@.len());
    }
    reveal_strlit(">");
    assert("map-insert"@ != ">"@) by {
        assert("map-insert"@.len() != ">"@.len());
    }
    reveal_strlit("to-int");
    assert("map-insert"@ != "to-int"@) by {
        assert("map-insert"@.len() != "to-int"@.len());
    }
    reveal_strlit("to-uint");
    assert("map-insert"@ != "to-uint"@) by {
        assert("map-insert"@.len() != "to-uint"@.len());
    }
    reveal_strlit("mod");
    assert("map-insert"@ != "mod"@) by {
        assert("map-insert"@.len() != "mod"@.len());
    }
    reveal_strlit("pow");
    assert("map-insert"@ != "pow"@) by {
        assert("map-insert"@.len() != "pow"@.len());
    }
    reveal_strlit("sqrti");
    assert("map-insert"@ != "sqrti"@) by {
        assert("map-insert"@.len() != "sqrti"@.len());
    }
    reveal_strlit("log2");
    assert("map-insert"@ != "log2"@) by {
        assert("map-insert"@.len() != "log2"@.len());
    }
    reveal_strlit("xor");
    assert("map-insert"@ != "xor"@) by {
        assert("map-insert"@.len() != "xor"@.len());
    }
    reveal_strlit("and");
    assert("map-insert"@ != "and"@) by {
        assert("map-insert"@.len() != "and"@.len());
    }
    reveal_strlit("or");
    assert("map-insert"@ != "or"@) by {
        assert("map-insert"@.len() != "or"@.len());
    }
    reveal_strlit("not");
    assert("map-insert"@ != "not"@) by {
        assert("map-insert"@.len() != "not"@.len());
    }
    reveal_strlit("is-eq");
    assert("map-insert"@ != "is-eq"@) by {
        assert("map-insert"@.len() != "is-eq"@.len());
    }
    reveal_strlit("if");
    assert("map-insert"@ != "if"@) by {
        assert("map-insert"@.len() != "if"@.len());
    }
    reveal_strlit("let");
    assert("map-insert"@ != "let"@) by {
        assert("map-insert"@.len() != "let"@.len());
    }
    reveal_strlit("map");
    assert("map-insert"@ != "map"@) by {
        assert("map-insert"@.len() != "map"@.len());
    }
    reveal_strlit("fold");
    assert("map-insert"@ != "fold"@) by {
        assert("map-insert"@.len() != "fold"@.len());
    }
    reveal_strlit("append");
    assert("map-insert"@ != "append"@) by {
        assert("map-insert"@.len() != "append"@.len());
    }
    reveal_strlit("concat");
    assert("map-insert"@ != "concat"@) by {
        assert("map-insert"@.len() != "concat"@.len());
    }
    reveal_strlit("as-max-len?");
    assert("map-insert"@ != "as-max-len?"@) by {
        assert("map-insert"@.len() != "as-max-len?"@.len());
    }
    reveal_strlit("len");
    assert("map-insert"@ != "len"@) by {
        assert("map-insert"@.len() != "len"@.len());
    }
    reveal_strlit("element-at");
    assert("map-insert"@ != "element-at"@) by {
        assert("map-insert"@[0] != "element-at"@[0]);
    }
    reveal_strlit("index-of");
    assert("map-insert"@ != "index-of"@) by {
        assert("map-insert"@.len() != "index-of"@.len());
    }
    reveal_strlit("list");
    assert("map-insert"@ != "list"@) by {
        assert("map-insert"@.len() != "list"@.len());
    }
    reveal_strlit("var-get");
    assert("map-insert"@ != "var-get"@) by {
        assert("map-insert"@.len() != "var-get"@.len());
    }
    reveal_strlit("var-set");
    assert("map-insert"@ != "var-set"@) by {
        assert("map-insert"@.len() != "var-set"@.len());
    }
    reveal_strlit("map-get?");
    assert("map-insert"@ != "map-get?"@) by {
        assert("map-insert"@.len() != "map-get?"@.len());
    }
    reveal_strlit("map-set");
    assert("map-insert"@ != "map-set"@) by {
        assert("map-insert"@.len() != "map-set"@.len());
    }
}

proof fn lemma_lookup_map_delete()
    ensures
        NativeFunctions::spec_lookup("map-delete"@) == Some(NativeFunctions::DeleteEntry),
{
    reveal_strlit("map-delete");
    reveal_strlit("+");
    assert("map-delete"@ != "+"@) by {
        assert("map-delete"@.len() != "+"@.len());
    }
    reveal_strlit("-");
    assert("map-delete"@ != "-"@) by {
        assert("map-delete"@.len() != "-"@.len());
    }
    reveal_strlit("*");
    assert("map-delete"@ != "*"@) by {
        assert("map-delete"@.len() != "*"@.len());
    }
    reveal_strlit("/");
    assert("map-delete"@ != "/"@) by {
        assert("map-delete"@.len() != "/"@.len());
    }
    reveal_strlit(">=");
    assert("map-delete"@ != ">="@) by {
        assert("map-delete"@.len() != ">="@.len());
    }
    reveal_strlit("<=");
    assert("map-delete"@ != "<="@) by {
        assert("map-delete"@.len() != "<="@.len());
    }
    reveal_strlit("<");
    assert("map-delete"@ != "<"@) by {
        assert("map-delete"@.len() != "<"@.len());
    }
    reveal_strlit(">");
    assert("map-delete"@ != ">"@) by {
        assert("map-delete"@.len() != ">"@.len());
    }
    reveal_strlit("to-int");
    assert("map-delete"@ != "to-int"@) by {
        assert("map-delete"@.len() != "to-int"@.len());
    }
    reveal_strlit("to-uint");
    assert("map-delete"@ != "to-uint"@) by {
        assert("map-delete"@.len() != "to-uint"@.len());
    }
    reveal_strlit("mod");
    assert("map-delete"@ != "mod"@) by {
        assert("map-delete"@.len() != "mod"@.len());
    }
    reveal_strlit("pow");
    assert("map-delete"@ != "pow"@) by {
        assert("map-delete"@.len() != "pow"@.len());
    }
    reveal_strlit("sqrti");
    assert("map-delete"@ != "sqrti"@) by {
        assert("map-delete"@.len() != "sqrti"@.len());
    }
    reveal_strlit("log2");
    assert("map-delete"@ != "log2"@) by {
        assert("map-delete"@.len() != "log2"@.len());
    }
    reveal_strlit("xor");
    assert("map-delete"@ != "xor"@) by {
        assert("map-delete"@.len() != "xor"@.len());
    }
    reveal_strlit("and");
    assert("map-delete"@ != "and"@) by {
        assert("map-delete"@.len() != "and"@.len());
    }
    reveal_strlit("or");
    assert("map-delete"@ != "or"@) by {
        assert("map-delete"@.len() != "or"@.len());
    }
    reveal_strlit("not");
    assert("map-delete"@ != "not"@) by {
        assert("map-delete"@.len() != "not"@.len());
    }
    reveal_strlit("is-eq");
    assert("map-delete"@ != "is-eq"@) by {
        assert("map-delete"@.len() != "is-eq"@.len());
    }
    reveal_strlit("if");
    assert("map-delete"@ != "if"@) by {
        assert("map-delete"@.len() != "if"@.len());
    }
    reveal_strlit("let");
    assert("map-delete"@ != "let"@) by {
        assert("map-delete"@.len() != "let"@.len());
    }
    reveal_strlit("map");
    assert("map-delete"@ != "map"@) by {
        assert("map-delete"@.len() != "map"@.len());
    }
    reveal_strlit("fold");
    assert("map-delete"@ != "fold"@) by {
        assert("map-delete"@.len() != "fold"@.len());
    }
    reveal_strlit("append");
    assert("map-delete"@ != "append"@) by {
        assert("map-delete"@.len() != "append"@.len());
    }
    reveal_strlit("concat");
    assert("map-delete"@ != "concat"@) by {
        assert("map-delete"@.len() != "concat"@.len());
    }
    reveal_strlit("as-max-len?");
    assert("map-delete"@ != "as-max-len?"@) by {
        assert("map-delete"@.len() != "as-max-len?"@.len());
    }
    reveal_strlit("len");
    assert("map-delete"@ != "len"@) by {
        assert("map-delete"@.len() != "len"@.len());
    }
    reveal_strlit("element-at");
    assert("map-delete"@ != "element-at"@) by {
        assert("map-delete"@[0] != "element-at"@[0]);
    }
    reveal_strlit("index-of");
    assert("map-delete"@ != "index-of"@) by {
        assert("map-delete"@.len() != "index-of"@.len());
    }
    reveal_strlit("list");
    assert("map-delete"@ != "list"@) by {
        assert("map-delete"@.len() != "list"@.len());
    }
    reveal_strlit("var-get");
    assert("map-delete"@ != "var-get"@) by {
        assert("map-delete"@.len() != "var-get"@.len());
    }
    reveal_strlit("var-set");
    assert("map-delete"@ != "var-set"@) by {
        assert("map-delete"@.len() != "var-set"@.len());
    }
    reveal_strlit("map-get?");
    assert("map-delete"@ != "map-get?"@) by {
        assert("map-delete"@.len() != "map-get?"@.len());
    }
    reveal_strlit("map-set");
    assert("map-delete"@ != "map-set"@) by {
        assert("map-delete"@.len() != "map-set"@.len());
    }
    reveal_strlit("map-insert");
    assert("map-delete"@ != "map-insert"@) by {
        assert("map-delete"@[4] != "map-insert"@[4]);
    }
}

/// How each data function touches the variable or map named by its first argument:
/// `var-get` and `map-get?` read it; `var-set`, `map-set`, `map-insert` and `map-delete`
/// write it.
pub proof fn data_functions_read_or_write(expr: SymbolicExpression)
    requires
        expr.is_list(),
        expr.list().len() >= 2,
        expr.list()[0].is_atom(),
        expr.list()[1].is_atom(),
    ensures
        expr.list()[0].atom()@ == "var-get"@ || expr.list()[0].atom()@ == "map-get?"@ ==> data_access(expr)
            == Some((expr.list()[1].atom()@, AccessType::Read)),
        expr.list()[0].atom()@ == "var-set"@ || expr.list()[0].atom()@ == "map-set"@ || expr.list()[0].atom()@
            == "map-insert"@ || expr.list()[0].atom()@ == "map-delete"@ ==> data_access(expr) == Some(
            (expr.list()[1].atom()@, AccessType::Write),
        ),
{
    lemma_lookup_var_get();
    lemma_lookup_var_set();
    lemma_lookup_map_get();
    lemma_lookup_map_set();
    lemma_lookup_map_insert();
    lemma_lookup_map_delete();
}

/// Whether `expr` is a call of one of the data functions that a watchpoint can catch.
pub open spec fn is_data_call(expr: SymbolicExpression) -> bool {
    expr.is_list() && expr.list().len() >= 1 && expr.list()[0].is_atom() && match NativeFunctions::spec_lookup(
        expr.list()[0].atom()@,
    ) {
        Some(NativeFunctions::FetchVar) | Some(NativeFunctions::SetVar) | Some(NativeFunctions::FetchEntry) | Some(
            NativeFunctions::SetEntry,
        ) | Some(NativeFunctions::InsertEntry) | Some(NativeFunctions::DeleteEntry) => true,
        _ => false,
    }
}

/// A data call names its variable or map by an atom in its first argument: the checker
/// has seen to that before anything is evaluated.
pub open spec fn data_call_ok(expr: SymbolicExpression) -> bool {
    is_data_call(expr) ==> expr.list().len() >= 2 && expr.list()[1].is_atom()
}

/// Whether a watchpoint waiting for `watched` catches an access of kind `access`.
pub open spec fn catches(watched: AccessType, access: AccessType) -> bool {
    ||| watched == access && access != AccessType::ReadWrite
    ||| watched == AccessType::ReadWrite && access != AccessType::ReadWrite
}

/// What each kind of watchpoint catches: a read watchpoint reads, a write watchpoint
/// writes, a read-write watchpoint both, and no watchpoint anything else.
pub proof fn watchpoints_catch_their_kind(watched: AccessType, access: AccessType)
    ensures
        access != AccessType::ReadWrite ==> (catches(watched, access) <==> (watched == access
            || watched == AccessType::ReadWrite)),
        access == AccessType::ReadWrite ==> !catches(watched, access),
{
}

/// Whether watchpoint `w` catches the access `access` to `name` in contract `contract`.
pub open spec fn watch_catches(w: Breakpoint, contract: ContractIdView, name: Seq<char>, access: AccessType) -> bool {
    &&& w.source.name@ == contract
    &&& w.data matches BreakpointData::Data(d) && d.name@ == name && catches(d.access_type, access)
}

/// Whether breakpoint `b` is set at `span` of contract `contract`: at its line, and at its
/// column unless the breakpoint gives none.
pub open spec fn breaks_at(b: Breakpoint, contract: ContractIdView, span: Span) -> bool {
    &&& b.source.name@ == contract
    &&& b.span matches Some(s) && s.start_line == span.start_line && (s.start_column == 0 || s.start_column
        == span.start_column)
}

/// The debugger: its breakpoints and watchpoints (each in increasing order of their
/// identifiers, which one counter hands out), the breakpoints that the expressions under
/// evaluation have set off, what it is doing, and the stack of those expressions.
pub struct DebugState {
    breakpoints: Vec<Breakpoint>,
    watchpoints: Vec<Breakpoint>,
    active_breakpoints: Vec<usize>,
    state: State,
    stack: Vec<ExprState>,
    unique_id: usize,
}

/// Whether `new` is `old` with `b` added as breakpoint `id`, the next identifier.
pub open spec fn added_breakpoint(old: DebugState, new: DebugState, b: Breakpoint, id: usize) -> bool {
    &&& id == old.last_id() + 1
    &&& new.last_id() == id
    &&& new.breakpoints().len() == old.breakpoints().len() + 1
    &&& new.breakpoints().drop_last() == old.breakpoints()
    &&& new.breakpoints().last().id == id
    &&& new.breakpoints().last().verified == b.verified
    &&& new.breakpoints().last().data == b.data
    &&& new.breakpoints().last().source == b.source
    &&& new.breakpoints().last().span == b.span
    &&& new.watchpoints() == old.watchpoints()
    &&& new.active() == old.active()
    &&& new.state() == old.state()
    &&& new.stack() == old.stack()
}

/// Whether `new` is `old` without its breakpoint `id`, and `found` says whether it had one.
pub open spec fn deleted_breakpoint(old: DebugState, new: DebugState, id: usize, found: bool) -> bool {
    &&& found == has_id(old.breakpoints(), id)
    &&& found ==> exists|i: int|
        0 <= i < old.breakpoints().len() && old.breakpoints()[i].id == id && new.breakpoints()
            == old.breakpoints().remove(i)
    &&& !found ==> new.breakpoints() == old.breakpoints()
    &&& new.watchpoints() == old.watchpoints()
    &&& new.last_id() == old.last_id()
    &&& new.active() == old.active()
    &&& new.state() == old.state()
    &&& new.stack() == old.stack()
}

/// Deleting a breakpoint just added, by the identifier it was given, finds it and leaves
/// the breakpoints as they were before.
pub proof fn delete_undoes_add(s0: DebugState, s1: DebugState, s2: DebugState, b: Breakpoint, id: usize, found: bool)
    requires
        s0.wf(),
        added_breakpoint(s0, s1, b, id),
        deleted_breakpoint(s1, s2, id, found),
    ensures
        found,
        s2.breakpoints() == s0.breakpoints(),
{
    let p = s1.breakpoints();
    let n = p.len() - 1;
    assert(p[n].id == id);
    assert(has_id(p, id));
    let i = choose|i: int| 0 <= i < p.len() && p[i].id == id && s2.breakpoints() == p.remove(i);
    if i < n {
        assert(p[i] == s0.breakpoints()[i]);
        s0.lemma_ids_bounded(i);
    }
    assert(i == n);
    assert(p.remove(n) =~= p.drop_last());
}

impl DebugState {
    pub closed spec fn breakpoints(&self) -> Seq<Breakpoint> {
        self.breakpoints@
    }

    pub closed spec fn watchpoints(&self) -> Seq<Breakpoint> {
        self.watchpoints@
    }

    pub closed spec fn active(&self) -> Seq<usize> {
        self.active_breakpoints@
    }

    pub closed spec fn state(&self) -> State {
        self.state
    }

    pub closed spec fn stack(&self) -> Seq<ExprState> {
        self.stack@
    }

    /// The last identifier handed out.
    pub closed spec fn last_id(&self) -> usize {
        self.unique_id
    }

    /// The identifier of each breakpoint is one handed out.
    pub proof fn lemma_ids_bounded(&self, i: int)
        requires
            self.wf(),
            0 <= i < self.breakpoints().len(),
        ensures
            1 <= self.breakpoints()[i].id <= self.last_id(),
    {
    }

    pub closed spec fn wf(&self) -> bool {
        &&& ids_increasing(self.breakpoints@, self.unique_id)
        &&& ids_increasing(self.watchpoints@, self.unique_id)
        &&& forall|i: int| 0 <= i < self.watchpoints@.len() ==> (#[trigger] self.watchpoints@[i]).data is Data
    }

    pub fn new() -> (r: DebugState)
        ensures
            r.wf(),
            r.breakpoints().len() == 0,
            r.watchpoints().len() == 0,
            r.active().len() == 0,
            r.state() == State::Start,
            r.stack().len() == 0,
            r.last_id() == 0,
    {
        DebugState {
            breakpoints: Vec::new(),
            watchpoints: Vec::new(),
            active_breakpoints: Vec::new(),
            state: State::Start,
            stack: Vec::new(),
            unique_id: 0,
        }
    }

    /// Whether another identifier can be handed out.
    pub fn can_add(&self) -> (r: bool)
        ensures
            r == (self.last_id() < usize::MAX),
    {
        self.unique_id < usize::MAX
    }

    pub fn get_state(&self) -> (r: State)
        ensures
            r == self.state(),
    {
        self.state
    }

    pub fn stack_depth(&self) -> (r: usize)
        ensures
            r == self.stack().len(),
    {
        self.stack.len()
    }

    fn get_unique_id(&mut self) -> (r: usize)
        requires
            old(self).unique_id < usize::MAX,
        ensures
            r == old(self).unique_id + 1,
            final(self).unique_id == r,
            final(self).breakpoints == old(self).breakpoints,
            final(self).watchpoints == old(self).watchpoints,
            final(self).active_breakpoints == old(self).active_breakpoints,
            final(self).state == old(self).state,
            final(self).stack == old(self).stack,
    {
        self.unique_id = self.unique_id + 1;
        self.unique_id
    }

    /// Adds `breakpoint` under a fresh identifier, which it returns.
    pub fn add_breakpoint(&mut self, breakpoint: Breakpoint) -> (r: usize)
        requires
            old(self).wf(),
            old(self).last_id() < usize::MAX,
        ensures
            final(self).wf(),
            added_breakpoint(*old(self), *final(self), breakpoint, r),
    {
        let id = self.get_unique_id();
        let mut b = breakpoint;
        b.id = id;
        self.breakpoints.push(b);
        proof {
            assert(self.breakpoints@.drop_last() =~= old(self).breakpoints@);
        }
        id
    }

    /// Runs on until the next break.
    pub fn continue_execution(&mut self)
        requires
            old(self).wf(),
        ensures
            final(self).wf(),
            moved_to(*old(self), *final(self), State::Continue),
    {
        self.state = State::Continue;
    }

    /// Steps over the expression with identifier `id`.
    pub fn step_over(&mut self, id: u64)
        requires
            old(self).wf(),
        ensures
            final(self).wf(),
            moved_to(*old(self), *final(self), State::StepOver(id)),
    {
        self.state = State::StepOver(id);
    }

    /// Steps into the next expression.
    pub fn step_in(&mut self)
        requires
            old(self).wf(),
        ensures
            final(self).wf(),
            moved_to(*old(self), *final(self), State::StepIn),
    {
        self.state = State::StepIn;
    }

    /// Runs until the expression that holds the current one finishes; with no such
    /// expression, runs on.
    pub fn finish(&mut self)
        requires
            old(self).wf(),
        ensures
            final(self).wf(),
            moved_to(
                *old(self),
                *final(self),
                if old(self).stack().len() >= 2 {
                    State::Finish(old(self).stack()[old(self).stack().len() - 2].id)
                } else {
                    State::Continue
                },
            ),
    {
        if self.stack.len() >= 2 {
            self.state = State::Finish(self.stack[self.stack.len() - 2].id);
        } else {
            self.state = State::Continue;
        }
    }

    /// Stops debugging.
    pub fn quit(&mut self)
        requires
            old(self).wf(),
        ensures
            final(self).wf(),
            moved_to(*old(self), *final(self), State::Quit),
    {
        self.state = State::Quit;
    }

    /// Removes every breakpoint.
    pub fn delete_all_breakpoints(&mut self)
        requires
            old(self).wf(),
        ensures
            final(self).wf(),
            final(self).breakpoints().len() == 0,
            final(self).watchpoints() == old(self).watchpoints(),
            final(self).last_id() == old(self).last_id(),
            final(self).active() == old(self).active(),
            final(self).state() == old(self).state(),
            final(self).stack() == old(self).stack(),
    {
        self.breakpoints = Vec::new();
    }

    /// Removes every watchpoint.
    pub fn delete_all_watchpoints(&mut self)
        requires
            old(self).wf(),
        ensures
            final(self).wf(),
            final(self).watchpoints().len() == 0,
            final(self).breakpoints() == old(self).breakpoints(),
            final(self).last_id() == old(self).last_id(),
            final(self).active() == old(self).active(),
            final(self).state() == old(self).state(),
            final(self).stack() == old(self).stack(),
    {
        self.watchpoints = Vec::new();
    }

    /// Sets a breakpoint at each place that `requested` gives (line, column where one is
    /// given, and the message to log) in the source of `contract`, as a debug adapter asks
    /// for a source file. Gives, for each, its identifier with the place and the message, in
    /// order: what the adapter answers.
    pub fn set_source_breakpoints(
        &mut self,
        contract: &QualifiedContractIdentifier,
        requested: &Vec<(u32, Option<u32>, Option<String>)>,
    ) -> (r: Vec<(usize, u32, Option<u32>, Option<String>)>)
        requires
            old(self).wf(),
            old(self).last_id() + requested@.len() <= usize::MAX,
        ensures
            final(self).wf(),
            r@.len() == requested@.len(),
            final(self).last_id() == old(self).last_id() + requested@.len(),
            final(self).breakpoints().len() == old(self).breakpoints().len() + requested@.len(),
            final(self).breakpoints().take(old(self).breakpoints().len() as int) == old(self).breakpoints(),
            forall|i: int|
                0 <= i < requested@.len() ==> {
                    let b = #[trigger] final(self).breakpoints()[old(self).breakpoints().len() + i];
                    let q = requested@[i];
                    let column = match q.1 {
                        Some(c) => c,
                        None => 0,
                    };
                    &&& b.id == old(self).last_id() + i + 1
                    &&& b.verified
                    &&& b.data == BreakpointData::Source(SourceBreakpoint { line: q.0, column: q.1, log_message: None })
                    &&& b.source.name@ == contract@
                    &&& b.span == Some(Span { start_line: q.0, start_column: column, end_line: q.0, end_column: column })
                    &&& r@[i].0 == b.id && r@[i].1 == q.0 && r@[i].2 == q.1
                    &&& crate::links::text_option(r@[i].3) == crate::links::text_option(q.2)
                },
            final(self).watchpoints() == old(self).watchpoints(),
            final(self).active() == old(self).active(),
            final(self).state() == old(self).state(),
            final(self).stack() == old(self).stack(),
    {
        let mut results: Vec<(usize, u32, Option<u32>, Option<String>)> = Vec::new();
        let mut i: usize = 0;
        let ghost n0 = self.breakpoints().len();
        while i < requested.len()
            invariant
                self.wf(),
                i <= requested@.len(),
                old(self).last_id() + requested@.len() <= usize::MAX,
                n0 == old(self).breakpoints().len(),
                results@.len() == i,
                self.last_id() == old(self).last_id() + i,
                self.breakpoints().len() == n0 + i,
                self.breakpoints().take(n0 as int) == old(self).breakpoints(),
                forall|k: int|
                    0 <= k < i ==> {
                        let b = #[trigger] self.breakpoints()[n0 + k];
                        let q = requested@[k];
                        let column = match q.1 {
                            Some(c) => c,
                            None => 0,
                        };
                        &&& b.id == old(self).last_id() + k + 1
                        &&& b.verified
                        &&& b.data == BreakpointData::Source(SourceBreakpoint { line: q.0, column: q.1, log_message: None })
                        &&& b.source.name@ == contract@
                        &&& b.span == Some(Span { start_line: q.0, start_column: column, end_line: q.0, end_column: column })
                        &&& results@[k].0 == b.id && results@[k].1 == q.0 && results@[k].2 == q.1
                        &&& crate::links::text_option(results@[k].3) == crate::links::text_option(q.2)
                    },
                self.watchpoints() == old(self).watchpoints(),
                self.active() == old(self).active(),
                self.state() == old(self).state(),
                self.stack() == old(self).stack(),
            decreases requested.len() - i,
        {
            let line = requested[i].0;
            let column = requested[i].1;
            let at = match column {
                Some(c) => c,
                None => 0,
            };
            let b = Breakpoint {
                id: 0,
                verified: true,
                data: BreakpointData::Source(SourceBreakpoint { line, column, log_message: None }),
                source: Source { name: contract.copy() },
                span: Some(Span { start_line: line, start_column: at, end_line: line, end_column: at }),
            };
            let ghost before = self.breakpoints();
            let id = self.add_breakpoint(b);
            let message = match &requested[i].2 {
                Some(m) => Some(copy_string(m)),
                None => None,
            };
            results.push((id, line, column, message));
            proof {
                assert(self.breakpoints().drop_last() == before);
                assert(self.breakpoints().take(n0 as int) =~= before.take(n0 as int));
                assert forall|k: int| 0 <= k < i + 1 implies {
                    let b = #[trigger] self.breakpoints()[n0 + k];
                    let q = requested@[k];
                    let column = match q.1 {
                        Some(c) => c,
                        None => 0,
                    };
                    &&& b.id == old(self).last_id() + k + 1
                    &&& b.verified
                    &&& b.data == BreakpointData::Source(SourceBreakpoint { line: q.0, column: q.1, log_message: None })
                    &&& b.source.name@ == contract@
                    &&& b.span == Some(Span { start_line: q.0, start_column: column, end_line: q.0, end_column: column })
                    &&& results@[k].0 == b.id && results@[k].1 == q.0 && results@[k].2 == q.1
                    &&& crate::links::text_option(results@[k].3) == crate::links::text_option(q.2)
                } by {
                    if k < i {
                        assert(self.breakpoints()[n0 + k] == before[n0 + k]);
                    }
                }
            }
            i = i + 1;
        }
        results
    }

    /// Removes the breakpoint with identifier `id`; whether there was one.
    pub fn delete_breakpoint(&mut self, id: usize) -> (r: bool)
        requires
            old(self).wf(),
        ensures
            final(self).wf(),
            deleted_breakpoint(*old(self), *final(self), id, r),
    {
        match find_id(&self.breakpoints, id) {
            Some(i) => {
                self.breakpoints.remove(i);
                true
            },
            None => false,
        }
    }

    /// Adds the watchpoint `breakpoint` under a fresh identifier, which it returns.
    pub fn add_watchpoint(&mut self, breakpoint: Breakpoint) -> (r: usize)
        requires
            old(self).wf(),
            old(self).last_id() < usize::MAX,
            breakpoint.data is Data,
        ensures
            final(self).wf(),
            r == old(self).last_id() + 1,
            final(self).last_id() == r,
            final(self).watchpoints().len() == old(self).watchpoints().len() + 1,
            final(self).watchpoints().drop_last() == old(self).watchpoints(),
            final(self).watchpoints().last().id == r,
            final(self).watchpoints().last().verified == breakpoint.verified,
            final(self).watchpoints().last().data == breakpoint.data,
            final(self).watchpoints().last().source == breakpoint.source,
            final(self).watchpoints().last().span == breakpoint.span,
            final(self).breakpoints() == old(self).breakpoints(),
            final(self).active() == old(self).active(),
            final(self).state() == old(self).state(),
            final(self).stack() == old(self).stack(),
    {
        let id = self.get_unique_id();
        let mut b = breakpoint;
        b.id = id;
        self.watchpoints.push(b);
        proof {
            assert(self.watchpoints@.drop_last() =~= old(self).watchpoints@);
        }
        id
    }

    /// Removes the watchpoint with identifier `id`; whether there was one.
    pub fn delete_watchpoint(&mut self, id: usize) -> (r: bool)
        requires
            old(self).wf(),
        ensures
            final(self).wf(),
            r == has_id(old(self).watchpoints(), id),
            r ==> exists|i: int|
                0 <= i < old(self).watchpoints().len() && old(self).watchpoints()[i].id == id
                    && final(self).watchpoints() == old(self).watchpoints().remove(i),
            !r ==> final(self).watchpoints() == old(self).watchpoints(),
            final(self).breakpoints() == old(self).breakpoints(),
            final(self).last_id() == old(self).last_id(),
            final(self).active() == old(self).active(),
            final(self).state() == old(self).state(),
            final(self).stack() == old(self).stack(),
    {
        match find_id(&self.watchpoints, id) {
            Some(i) => {
                self.watchpoints.remove(i);
                true
            },
            None => false,
        }
    }

    /// A breakpoint set at `span` of `contract_id` that no expression under evaluation
    /// has set off yet, if there is one.
    pub fn did_hit_source_breakpoint(&self, contract_id: &QualifiedContractIdentifier, span: &Span) -> (r: Option<
        usize,
    >)
        ensures
            r matches Some(id) ==> exists|i: int|
                0 <= i < self.breakpoints().len() && (#[trigger] self.breakpoints()[i]).id == id && breaks_at(
                    self.breakpoints()[i],
                    contract_id@,
                    *span,
                ) && !self.active().contains(id),
            r is None ==> forall|i: int|
                0 <= i < self.breakpoints().len() && breaks_at(#[trigger] self.breakpoints()[i], contract_id@, *span)
                    ==> self.active().contains(self.breakpoints()[i].id),
    {
        let mut i: usize = 0;
        while i < self.breakpoints.len()
            invariant
                i <= self.breakpoints@.len(),
                forall|k: int|
                    0 <= k < i && breaks_at(#[trigger] self.breakpoints@[k], contract_id@, *span)
                        ==> self.active_breakpoints@.contains(self.breakpoints@[k].id),
            decreases self.breakpoints.len() - i,
        {
            let b = &self.breakpoints[i];
            if !contains_usize(&self.active_breakpoints, b.id) && b.source.name.same(contract_id) {
                if let Some(s) = &b.span {
                    if s.start_line == span.start_line && (s.start_column == 0 || s.start_column == span.start_column) {
                        return Some(b.id);
                    }
                }
            }
            i = i + 1;
        }
        None
    }

    /// A watchpoint that catches the access that `expr` makes to data of `contract_id`, if
    /// it makes one and there is such a watchpoint.
    pub fn did_hit_data_breakpoint(&self, contract_id: &QualifiedContractIdentifier, expr: &SymbolicExpression) -> (r:
        Option<usize>)
        requires
            data_call_ok(*expr),
        ensures
            data_access(*expr) is None ==> r is None,
            data_access(*expr) matches Some((name, access)) ==> {
                &&& r matches Some(id) ==> exists|i: int|
                    0 <= i < self.watchpoints().len() && (#[trigger] self.watchpoints()[i]).id == id && watch_catches(
                        self.watchpoints()[i],
                        contract_id@,
                        name,
                        access,
                    )
                &&& r is None ==> forall|i: int|
                    0 <= i < self.watchpoints().len() ==> !watch_catches(
                        #[trigger] self.watchpoints()[i],
                        contract_id@,
                        name,
                        access,
                    )
            },
    {
        let access = match data_access_of(expr) {
            Some(a) => a,
            None => {
                return None;
            },
        };
        let (name, access_type) = access;
        let mut i: usize = 0;
        while i < self.watchpoints.len()
            invariant
                i <= self.watchpoints@.len(),
                data_access(*expr) == Some((name@, access_type)),
                forall|k: int|
                    0 <= k < i ==> !watch_catches(#[trigger] self.watchpoints@[k], contract_id@, name@, access_type),
            decreases self.watchpoints.len() - i,
        {
            let w = &self.watchpoints[i];
            if w.source.name.same(contract_id) {
                if let BreakpointData::Data(data) = &w.data {
                    let hit = match (data.access_type, access_type) {
                        (AccessType::Read, AccessType::Read) | (AccessType::Write, AccessType::Write) | (
                            AccessType::ReadWrite,
                            AccessType::Read,
                        ) | (AccessType::ReadWrite, AccessType::Write) => true,
                        _ => false,
                    };
                    if hit && str_eq(&data.name, &name) {
                        proof {
                            assert(catches(data.access_type, access_type));
                            assert(watch_catches(self.watchpoints()[i as int], contract_id@, name@, access_type));
                            assert(self.watchpoints()[i as int].id == w.id);
                        }
                        return Some(w.id);
                    }
                }
            }
            i = i + 1;
        }
        None
    }
}

fn str_eq(a: &String, b: &String) -> (r: bool)
    ensures
        r == (a@ == b@),
{
    crate::representations::str_equals(a.as_str(), b.as_str())
}

/// Whether `v` holds `x`.
pub fn contains_usize(v: &Vec<usize>, x: usize) -> (r: bool)
    ensures
        r == v@.contains(x),
{
    let mut i: usize = 0;
    while i < v.len()
        invariant
            i <= v@.len(),
            forall|k: int| 0 <= k < i ==> v@[k] != x,
        decreases v.len() - i,
    {
        if v[i] == x {
            return true;
        }
        i = i + 1;
    }
    false
}

/// The position of the entry with identifier `id`.
fn find_id(s: &Vec<Breakpoint>, id: usize) -> (r: Option<usize>)
    ensures
        r matches Some(i) ==> i < s@.len() && s@[i as int].id == id,
        r is None <==> !has_id(s@, id),
{
    let mut i: usize = 0;
    while i < s.len()
        invariant
            i <= s@.len(),
            forall|k: int| 0 <= k < i ==> s@[k].id != id,
        decreases s.len() - i,
    {
        if s[i].id == id {
            return Some(i);
        }
        i = i + 1;
    }
    None
}

/// The variable or map that `expr` reads or writes, and how.
fn data_access_of(expr: &SymbolicExpression) -> (r: Option<(String, AccessType)>)
    requires
        data_call_ok(*expr),
    ensures
        r matches Some((name, access)) ==> data_access(*expr) == Some((name@, access)),
        r is None ==> data_access(*expr) is None,
{
    let list = match &expr.expr {
        SymbolicExpressionType::List(list) => list,
        _ => {
            return None;
        },
    };
    if list.len() == 0 {
        return None;
    }
    let function_name = match list[0].match_atom() {
        Some(name) => name,
        None => {
            return None;
        },
    };
    let access = match NativeFunctions::lookup_by_name(function_name.as_str()) {
        Some(NativeFunctions::FetchVar) => AccessType::Read,
        Some(NativeFunctions::SetVar) => AccessType::Write,
        Some(NativeFunctions::FetchEntry) => AccessType::Read,
        Some(NativeFunctions::SetEntry) => AccessType::Write,
        Some(NativeFunctions::InsertEntry) => AccessType::Write,
        Some(NativeFunctions::DeleteEntry) => AccessType::Write,
        _ => {
            return None;
        },
    };
    let name = match list[1].match_atom() {
        Some(name) => copy_string(name),
        None => {
            return None;
        },
    };
    Some((name, access))
}

/// Whether `expr` meets what `did_hit_data_breakpoint` and `begin_eval` ask of it.
pub fn check_data_call(expr: &SymbolicExpression) -> (r: bool)
    ensures
        r == data_call_ok(*expr),
{
    let list = match &expr.expr {
        SymbolicExpressionType::List(list) => list,
        _ => {
            return true;
        },
    };
    if list.len() == 0 {
        return true;
    }
    let function_name = match list[0].match_atom() {
        Some(name) => name,
        None => {
            return true;
        },
    };
    let is_data = match NativeFunctions::lookup_by_name(function_name.as_str()) {
        Some(NativeFunctions::FetchVar) | Some(NativeFunctions::SetVar) | Some(NativeFunctions::FetchEntry) | Some(
            NativeFunctions::SetEntry,
        ) | Some(NativeFunctions::InsertEntry) | Some(NativeFunctions::DeleteEntry) => true,
        _ => false,
    };
    if !is_data {
        return true;
    }
    list.len() >= 2 && list[1].match_atom().is_some()
}


/// What the debugger reads of a deployed contract: its source, the span of the body of
/// each of its functions, and the names of its data variables and maps.
pub struct ContractInfo {
    pub contract_identifier: QualifiedContractIdentifier,
    pub source: Option<String>,
    pub functions: Vec<(String, Span)>,
    pub variables: Vec<String>,
    pub maps: Vec<String>,
}

/// What the debugger reads of the evaluation it stops: the contract being evaluated and the
/// contracts deployed.
pub struct DebugEnv {
    pub contract_identifier: QualifiedContractIdentifier,
    pub contracts: Vec<ContractInfo>,
}

/// The position of the first contract of `cs` with identifier `c`.
pub open spec fn find_contract(cs: Seq<ContractInfo>, c: ContractIdView) -> Option<int>
    decreases cs.len(),
{
    if cs.len() == 0 {
        None
    } else {
        match find_contract(cs.drop_last(), c) {
            Some(i) => Some(i),
            None => if cs.last().contract_identifier@ == c {
                Some(cs.len() - 1)
            } else {
                None
            },
        }
    }
}

/// The position of the first function of `fs` named `name`.
pub open spec fn find_function(fs: Seq<(String, Span)>, name: Seq<char>) -> Option<int>
    decreases fs.len(),
{
    if fs.len() == 0 {
        None
    } else {
        match find_function(fs.drop_last(), name) {
            Some(i) => Some(i),
            None => if fs.last().0@ == name {
                Some(fs.len() - 1)
            } else {
                None
            },
        }
    }
}

proof fn lemma_find_contract_range(cs: Seq<ContractInfo>, c: ContractIdView)
    ensures
        find_contract(cs, c) matches Some(i) ==> 0 <= i < cs.len() && cs[i].contract_identifier@ == c,
    decreases cs.len(),
{
    if cs.len() > 0 {
        lemma_find_contract_range(cs.drop_last(), c);
    }
}

proof fn lemma_find_function_range(fs: Seq<(String, Span)>, name: Seq<char>)
    ensures
        find_function(fs, name) matches Some(i) ==> 0 <= i < fs.len() && fs[i].0@ == name,
    decreases fs.len(),
{
    if fs.len() > 0 {
        lemma_find_function_range(fs.drop_last(), name);
    }
}

/// The position of the contract `c` among `cs`.
pub fn contract_position(cs: &Vec<ContractInfo>, c: &QualifiedContractIdentifier) -> (r: Option<usize>)
    ensures
        r matches Some(i) ==> find_contract(cs@, c@) == Some(i as int) && i < cs@.len(),
        r is None ==> find_contract(cs@, c@) is None,
{
    let mut i: usize = 0;
    while i < cs.len()
        invariant
            i <= cs@.len(),
            find_contract(cs@.take(i as int), c@) is None,
        decreases cs.len() - i,
    {
        proof {
            assert(cs@.take(i + 1).drop_last() =~= cs@.take(i as int));
        }
        if cs[i].contract_identifier.same(c) {
            proof {
                lemma_find_prefix_contract(cs@, c@, i + 1);
            }
            return Some(i);
        }
        i = i + 1;
    }
    proof {
        assert(cs@.take(i as int) =~= cs@);
    }
    None
}

proof fn lemma_find_prefix_contract(cs: Seq<ContractInfo>, c: ContractIdView, k: int)
    requires
        0 < k <= cs.len(),
        find_contract(cs.take(k - 1), c) is None,
        cs[k - 1].contract_identifier@ == c,
    ensures
        find_contract(cs, c) == Some(k - 1),
    decreases cs.len() - k,
{
    assert(cs.take(k).drop_last() =~= cs.take(k - 1));
    if k == cs.len() {
        assert(cs.take(k) =~= cs);
    } else {
        lemma_find_prefix_contract_more(cs, c, k, k + 1);
        assert(cs.take(cs.len() as int) =~= cs);
    }
}

proof fn lemma_find_prefix_contract_more(cs: Seq<ContractInfo>, c: ContractIdView, k: int, m: int)
    requires
        0 < k < m <= cs.len(),
        find_contract(cs.take(k), c) == Some(k - 1),
    ensures
        find_contract(cs.take(cs.len() as int), c) == Some(k - 1),
    decreases cs.len() - m,
{
    assert(cs.take(m).drop_last() =~= cs.take(m - 1));
    if m - 1 > k {
        lemma_find_prefix_contract_step(cs, c, k, m - 1);
    }
    lemma_find_prefix_contract_step(cs, c, k, m);
    if m < cs.len() {
        lemma_find_prefix_contract_more(cs, c, k, m + 1);
    }
}

proof fn lemma_find_prefix_contract_step(cs: Seq<ContractInfo>, c: ContractIdView, k: int, m: int)
    requires
        0 < k <= m <= cs.len(),
        find_contract(cs.take(k), c) == Some(k - 1),
    ensures
        find_contract(cs.take(m), c) == Some(k - 1),
    decreases m - k,
{
    if m > k {
        lemma_find_prefix_contract_step(cs, c, k, m - 1);
        assert(cs.take(m).drop_last() =~= cs.take(m - 1));
    }
}

/// The position of the function `name` among `fs`.
pub fn function_position(fs: &Vec<(String, Span)>, name: &str) -> (r: Option<usize>)
    ensures
        r matches Some(i) ==> find_function(fs@, name@) == Some(i as int),
        r is None ==> find_function(fs@, name@) is None,
{
    let mut i: usize = 0;
    while i < fs.len()
        invariant
            i <= fs@.len(),
            find_function(fs@.take(i as int), name@) is None,
        decreases fs.len() - i,
    {
        proof {
            assert(fs@.take(i + 1).drop_last() =~= fs@.take(i as int));
        }
        if str_equals(fs[i].0.as_str(), name) {
            proof {
                lemma_find_function_step(fs@, name@, i + 1, i + 1);
                assert(fs@.take(fs@.len() as int) =~= fs@);
                if i + 1 < fs@.len() {
                    lemma_find_function_step(fs@, name@, i + 1, fs@.len() as int);
                }
            }
            return Some(i);
        }
        i = i + 1;
    }
    proof {
        assert(fs@.take(i as int) =~= fs@);
    }
    None
}

proof fn lemma_find_function_step(fs: Seq<(String, Span)>, name: Seq<char>, k: int, m: int)
    requires
        0 < k <= m <= fs.len(),
        find_function(fs.take(k - 1), name) is None,
        fs[k - 1].0@ == name,
    ensures
        find_function(fs.take(m), name) == Some(k - 1),
    decreases m - k,
{
    if m > k {
        lemma_find_function_step(fs, name, k, m - 1);
        assert(fs.take(m).drop_last() =~= fs.take(m - 1));
    } else {
        assert(fs.take(k).drop_last() =~= fs.take(k - 1));
    }
}

/// Whether `c` is an ASCII letter or digit.
pub open spec fn is_alphanumeric(c: char) -> bool {
    ('a' <= c <= 'z') || ('A' <= c <= 'Z') || ('0' <= c <= '9')
}

/// Whether `n` is a valid contract name: a letter and then at most 39 letters, digits,
/// `-` or `_`; or the name of the transient contract.
pub open spec fn contract_name_ok(n: Seq<char>) -> bool {
    ||| n == "__transient"@
    ||| {
        &&& 1 <= n.len() <= 40
        &&& ('a' <= n[0] <= 'z' || 'A' <= n[0] <= 'Z')
        &&& forall|k: int| 1 <= k < n.len() ==> is_alphanumeric(#[trigger] n[k]) || n[k] == '-' || n[k] == '_'
    }
}

/// Whether `a` can be the address of a principal: letters and digits, at least one.
pub open spec fn address_ok(a: Seq<char>) -> bool {
    a.len() >= 1 && forall|k: int| 0 <= k < a.len() ==> is_alphanumeric(#[trigger] a[k])
}

/// The contract identifier that `s` writes as `address.name`.
pub open spec fn parse_contract_id(s: Seq<char>) -> Option<ContractIdView> {
    let p = split_on(s, '.');
    if p.len() == 2 && address_ok(p[0]) && contract_name_ok(p[1]) {
        Some((p[0], p[1]))
    } else {
        None
    }
}

pub fn check_contract_name(n: &str) -> (r: bool)
    ensures
        r == contract_name_ok(n@),
{
    if str_equals(n, "__transient") {
        return true;
    }
    let len = n.unicode_len();
    if len < 1 || len > 40 {
        return false;
    }
    let c0 = n.get_char(0);
    if !(('a' <= c0 && c0 <= 'z') || ('A' <= c0 && c0 <= 'Z')) {
        return false;
    }
    let mut i: usize = 1;
    while i < len
        invariant
            1 <= i <= len,
            len == n@.len(),
            n@ != "__transient"@,
            forall|k: int| 1 <= k < i ==> is_alphanumeric(#[trigger] n@[k]) || n@[k] == '-' || n@[k] == '_',
        decreases len - i,
    {
        let c = n.get_char(i);
        if !(('a' <= c && c <= 'z') || ('A' <= c && c <= 'Z') || ('0' <= c && c <= '9') || c == '-' || c == '_') {
            return false;
        }
        i = i + 1;
    }
    true
}

pub fn check_address(a: &str) -> (r: bool)
    ensures
        r == address_ok(a@),
{
    let len = a.unicode_len();
    if len < 1 {
        return false;
    }
    let mut i: usize = 0;
    while i < len
        invariant
            i <= len,
            len == a@.len(),
            forall|k: int| 0 <= k < i ==> is_alphanumeric(#[trigger] a@[k]),
        decreases len - i,
    {
        let c = a.get_char(i);
        if !(('a' <= c && c <= 'z') || ('A' <= c && c <= 'Z') || ('0' <= c && c <= '9')) {
            return false;
        }
        i = i + 1;
    }
    true
}

/// The contract identifier that `s` writes as `address.name`.
pub fn parse_contract_identifier(s: &str) -> (r: Option<QualifiedContractIdentifier>)
    ensures
        r matches Some(q) ==> parse_contract_id(s@) == Some(q@),
        r is None ==> parse_contract_id(s@) is None,
{
    let p = split_char(s, '.');
    proof {
        assert(views(p@).len() == p@.len());
    }
    if p.len() != 2 {
        return None;
    }
    proof {
        assert(views(p@)[0] == p@[0]@ && views(p@)[1] == p@[1]@);
    }
    if !check_address(p[0].as_str()) || !check_contract_name(p[1].as_str()) {
        return None;
    }
    Some(
        QualifiedContractIdentifier {
            issuer: StandardPrincipalData { address: p[0].clone() },
            name: p[1].clone(),
        },
    )
}

/// A request of a `break` or `watch` command.
pub enum PointRequest {
    /// Refused: an error message, and the help text after it.
    Invalid(Seq<char>),
    List,
    Delete(usize),
    /// The identifier to delete could not be read.
    BadId,
    /// A breakpoint at a line of a contract, and at a column of it unless that is 0.
    Place(ContractIdView, u32, u32),
    /// A breakpoint at a function, or a watchpoint on a variable or map, of a contract.
    Named(ContractIdView, Seq<char>),
}

/// The identifier that `w` writes, as `str::parse::<usize>` reads it.
pub open spec fn id_value(w: Seq<char>) -> Option<usize> {
    match unsigned_value(w) {
        Some(v) => if v <= usize::MAX {
            Some(v as usize)
        } else {
            None
        },
        None => None,
    }
}

/// The number that `w` writes, as `str::parse::<u32>` reads it.
pub open spec fn u32_value(w: Seq<char>) -> Option<u32> {
    match unsigned_value(w) {
        Some(v) => if v <= u32::MAX {
            Some(v as u32)
        } else {
            None
        },
        None => None,
    }
}

/// What `break args` asks for, where the current contract is `current`.
pub open spec fn break_request(args: Seq<char>, current: ContractIdView) -> PointRequest {
    let w = words(args);
    if args.len() == 0 {
        PointRequest::Invalid("invalid break command"@)
    } else if w[0] == "l"@ || w[0] == "list"@ {
        PointRequest::List
    } else if w[0] == "del"@ || w[0] == "delete"@ {
        match id_value(w[1]) {
            Some(id) => PointRequest::Delete(id),
            None => PointRequest::BadId,
        }
    } else if w.len() != 1 {
        PointRequest::Invalid("invalid break command"@)
    } else if args.contains(':') {
        place_request(args, current)
    } else {
        named_request(args, current, true)
    }
}

/// What `watch args` asks for, where the current contract is `current`.
pub open spec fn watch_request(args: Seq<char>, current: ContractIdView) -> PointRequest {
    let w = words(args);
    if args.len() == 0 {
        PointRequest::Invalid("invalid watch command"@)
    } else if w[0] == "l"@ || w[0] == "list"@ {
        PointRequest::List
    } else if w[0] == "del"@ || w[0] == "delete"@ {
        match id_value(w[1]) {
            Some(id) => PointRequest::Delete(id),
            None => PointRequest::BadId,
        }
    } else if w.len() != 1 {
        PointRequest::Invalid("invalid watch command"@)
    } else {
        named_request(args, current, false)
    }
}

/// A source breakpoint `contract:line:column`, `contract:line`, `:line:column` or `:line`,
/// where `contract` is `address.name` or `.name` (a contract of the current deployer).
pub open spec fn place_request(args: Seq<char>, current: ContractIdView) -> PointRequest {
    let parts = split_on(args, ':');
    let cp = split_on(parts[0], '.');
    if parts.len() < 2 || parts.len() > 3 {
        PointRequest::Invalid("invalid breakpoint format"@)
    } else if parts[0].len() > 0 && cp.len() != 2 {
        PointRequest::Invalid("invalid breakpoint format"@)
    } else if parts[0].len() > 0 && cp[0].len() > 0 && parse_contract_id(parts[0]) is None {
        PointRequest::Invalid("unable to parse breakpoint contract identifier: invalid contract identifier"@)
    } else if u32_value(parts[1]) is None {
        PointRequest::Invalid("invalid breakpoint format"@)
    } else if parts.len() == 3 && u32_value(parts[2]) is None {
        PointRequest::Invalid("invalid breakpoint format"@)
    } else {
        let contract = if parts[0].len() == 0 {
            current
        } else if cp[0].len() == 0 {
            (current.0, cp[1])
        } else {
            parse_contract_id(parts[0])->0
        };
        let column = if parts.len() == 3 {
            u32_value(parts[2])->0
        } else {
            0
        };
        PointRequest::Place(contract, u32_value(parts[1])->0, column)
    }
}

/// A function or data name `address.contract.name`, `.contract.name` or `name`.
pub open spec fn named_request(args: Seq<char>, current: ContractIdView, is_break: bool) -> PointRequest {
    let parts = split_on(args, '.');
    if parts.len() == 1 {
        PointRequest::Named(current, parts[0])
    } else if parts.len() == 3 {
        if parts[0].len() == 0 {
            PointRequest::Named((current.0, parts[1]), parts[2])
        } else {
            match parse_contract_id(parts[0] + "."@ + parts[1]) {
                Some(c) => PointRequest::Named(c, parts[2]),
                None => if is_break {
                    PointRequest::Invalid("unable to parse breakpoint contract identifier: invalid contract identifier"@)
                } else {
                    PointRequest::Invalid("unable to parse watchpoint contract identifier: invalid contract identifier"@)
                },
            }
        }
    } else if is_break {
        PointRequest::Invalid("invalid breakpoint format"@)
    } else {
        PointRequest::Invalid("invalid watchpoint format"@)
    }
}

/// Whether `args` is a `break` or `watch` argument that the debugger can take: one that
/// has a word where it has text, an identifier after `del`, and a valid contract name
/// after a leading `.`.
pub open spec fn point_args_ok(args: Seq<char>, is_break: bool) -> bool {
    let w = words(args);
    let parts = split_on(args, ':');
    let cp = split_on(parts[0], '.');
    let dp = split_on(args, '.');
    &&& args.len() > 0 ==> w.len() >= 1
    &&& args.len() > 0 && (w[0] == "del"@ || w[0] == "delete"@) ==> w.len() >= 2
    &&& (args.len() > 0 && w.len() == 1 && !(w[0] == "l"@ || w[0] == "list"@ || w[0] == "del"@ || w[0] == "delete"@))
        ==> if is_break && args.contains(':') {
        (2 <= parts.len() <= 3 && parts[0].len() > 0 && cp.len() == 2 && cp[0].len() == 0) ==> contract_name_ok(cp[1])
    } else {
        (dp.len() == 3 && dp[0].len() == 0) ==> contract_name_ok(dp[1])
    }
}

/// A `break` or `watch` command, read.
pub enum PointCommand {
    Invalid(String),
    List,
    Delete(usize),
    BadId,
    Place(QualifiedContractIdentifier, u32, u32),
    Named(QualifiedContractIdentifier, String),
}

impl PointCommand {
    pub open spec fn view(self) -> PointRequest {
        match self {
            PointCommand::Invalid(m) => PointRequest::Invalid(m@),
            PointCommand::List => PointRequest::List,
            PointCommand::Delete(id) => PointRequest::Delete(id),
            PointCommand::BadId => PointRequest::BadId,
            PointCommand::Place(c, l, k) => PointRequest::Place(c@, l, k),
            PointCommand::Named(c, n) => PointRequest::Named(c@, n@),
        }
    }
}

fn invalid_command(is_break: bool) -> (r: String)
    ensures
        is_break ==> r@ == "invalid break command"@,
        !is_break ==> r@ == "invalid watch command"@,
{
    if is_break {
        String::from_str("invalid break command")
    } else {
        String::from_str("invalid watch command")
    }
}

fn word_is(w: &Vec<String>, i: usize, lit: &str) -> (r: bool)
    requires
        i < w@.len(),
    ensures
        r == (w@[i as int]@ == lit@),
{
    str_equals(w[i].as_str(), lit)
}

/// Reads the arguments of a `break` command (`is_break`) or a `watch` command.
pub fn read_point_command(args: &str, current: &QualifiedContractIdentifier, is_break: bool) -> (r: PointCommand)
    requires
        point_args_ok(args@, is_break),
    ensures
        is_break ==> r.view() == break_request(args@, current@),
        !is_break ==> r.view() == watch_request(args@, current@),
{
    if args.unicode_len() == 0 {
        return PointCommand::Invalid(invalid_command(is_break));
    }
    let w = split_words(args);
    proof {
        assert(views(w@).len() == w@.len());
        assert forall|k: int| 0 <= k < w@.len() implies views(w@)[k] == w@[k]@ by {}
    }
    if word_is(&w, 0, "l") || word_is(&w, 0, "list") {
        return PointCommand::List;
    }
    if word_is(&w, 0, "del") || word_is(&w, 0, "delete") {
        return match parse_unsigned(w[1].as_str(), u64::MAX) {
            Some(id) => if (id as u128) <= (usize::MAX as u128) {
                PointCommand::Delete(id as usize)
            } else {
                PointCommand::BadId
            },
            None => PointCommand::BadId,
        };
    }
    if w.len() != 1 {
        return PointCommand::Invalid(invalid_command(is_break));
    }
    if is_break && find_char(args, ':').is_some() {
        read_place(args, current)
    } else {
        proof {
            if !is_break || !args@.contains(':') {
            } else {
                let k = choose|k: int| 0 <= k < args@.len() && args@[k] == ':';
                assert(args@[k] == ':');
            }
        }
        read_named(args, current, is_break)
    }
}

fn read_place(args: &str, current: &QualifiedContractIdentifier) -> (r: PointCommand)
    requires
        args@.contains(':'),
        words(args@).len() == 1,
        !(words(args@)[0] == "l"@ || words(args@)[0] == "list"@ || words(args@)[0] == "del"@ || words(args@)[0]
            == "delete"@),
        point_args_ok(args@, true),
    ensures
        r.view() == place_request(args@, current@),
{
    let parts = split_char(args, ':');
    proof {
        assert(views(parts@).len() == parts@.len());
        assert forall|k: int| 0 <= k < parts@.len() implies views(parts@)[k] == parts@[k]@ by {}
        crate::text::lemma_split_on_nonempty(args@, ':');
    }
    if parts.len() < 2 || parts.len() > 3 {
        return PointCommand::Invalid(String::from_str("invalid breakpoint format"));
    }
    let cp = split_char(parts[0].as_str(), '.');
    proof {
        assert(views(cp@).len() == cp@.len());
        assert forall|k: int| 0 <= k < cp@.len() implies views(cp@)[k] == cp@[k]@ by {}
        crate::text::lemma_split_on_nonempty(parts@[0]@, '.');
    }
    let contract = if parts[0].unicode_len() == 0 {
        current.copy()
    } else {
        if cp.len() != 2 {
            return PointCommand::Invalid(String::from_str("invalid breakpoint format"));
        }
        if cp[0].unicode_len() == 0 {
            QualifiedContractIdentifier { issuer: current.issuer.copy(), name: cp[1].clone() }
        } else {
            match parse_contract_identifier(parts[0].as_str()) {
                Some(c) => c,
                None => {
                    return PointCommand::Invalid(
                        String::from_str("unable to parse breakpoint contract identifier: invalid contract identifier"),
                    );
                },
            }
        }
    };
    let line = match parse_unsigned(parts[1].as_str(), 0xffff_ffffu64) {
        Some(l) => l as u32,
        None => {
            return PointCommand::Invalid(String::from_str("invalid breakpoint format"));
        },
    };
    let column = if parts.len() == 3 {
        match parse_unsigned(parts[2].as_str(), 0xffff_ffffu64) {
            Some(c) => c as u32,
            None => {
                return PointCommand::Invalid(String::from_str("invalid breakpoint format"));
            },
        }
    } else {
        0
    };
    PointCommand::Place(contract, line, column)
}

fn read_named(args: &str, current: &QualifiedContractIdentifier, is_break: bool) -> (r: PointCommand)
    requires
        words(args@).len() == 1,
        point_args_ok(args@, is_break),
        !(words(args@)[0] == "l"@ || words(args@)[0] == "list"@ || words(args@)[0] == "del"@ || words(args@)[0]
            == "delete"@),
        is_break ==> !args@.contains(':'),
    ensures
        r.view() == named_request(args@, current@, is_break),
{
    let parts = split_char(args, '.');
    proof {
        assert(views(parts@).len() == parts@.len());
        assert forall|k: int| 0 <= k < parts@.len() implies views(parts@)[k] == parts@[k]@ by {}
    }
    if parts.len() == 1 {
        return PointCommand::Named(current.copy(), parts[0].clone());
    }
    if parts.len() == 3 {
        if parts[0].unicode_len() == 0 {
            return PointCommand::Named(
                QualifiedContractIdentifier { issuer: current.issuer.copy(), name: parts[1].clone() },
                parts[2].clone(),
            );
        }
        let mut prefix = parts[0].clone();
        prefix.append(".");
        prefix.append(parts[1].as_str());
        return match parse_contract_identifier(prefix.as_str()) {
            Some(c) => PointCommand::Named(c, parts[2].clone()),
            None => if is_break {
                PointCommand::Invalid(
                    String::from_str("unable to parse breakpoint contract identifier: invalid contract identifier"),
                )
            } else {
                PointCommand::Invalid(
                    String::from_str("unable to parse watchpoint contract identifier: invalid contract identifier"),
                )
            },
        };
    }
    if is_break {
        PointCommand::Invalid(String::from_str("invalid breakpoint format"))
    } else {
        PointCommand::Invalid(String::from_str("invalid watchpoint format"))
    }
}

/// The help text of the debugger.
pub open spec fn help_main_text() -> Seq<char> {
    "Debugger commands:\n  aw | awatch      -- Read/write watchpoint, see `help watch' for details)\n  b | breakpoint   -- Commands for operating on breakpoints (see 'help b' for details)\n  c | continue     -- Continue execution until next breakpoint or completion\n  f | finish       -- Continue execution until returning from the current expression\n  n | next         -- Single step, stepping over sub-expressions\n  p | print <expr> -- Evaluate an expression and print the result\n  q | quit         -- Quit the debugger\n  r | run          -- Begin execution\n  rw | rwatch      -- Read watchpoint, see `help watch' for details)\n  s | step         -- Single step, stepping into sub-expressions\n  w | watch        -- Commands for operating on watchpoints (see 'help w' for details)\n"@
}

/// The help text of the `break` command.
pub open spec fn help_breakpoint_text() -> Seq<char> {
    "Set a breakpoint using 'b' or 'break' and one of these formats\n  b <principal?>.<contract>:<linenum>:<colnum>\n    SP000000000000000000002Q6VF78.bns:604:9\n        Break at line 604, column 9 of the bns contract deployed by \n          SP000000000000000000002Q6VF78\n\n  b <principal?>.<contract>:<linenum>\n    .my-contract:193\n        Break at line 193 of the my-contract contract deployed by the current\n          tx-sender\n\n  b :<linenum>:<colnum>\n    :12:4\n        Break at line 12, column 4 of the current contract\n\n  b :<linenum>\n    :12\n        Break at line 12 of the current contract\n\n  b <principal>.<contract>.<function>\n    SP000000000000000000002Q6VF78.bns.name-preorder\n        Break at the function name-preorder from the bns contract deployed by\n          SP000000000000000000002Q6VF78\n\n  b .<contract>.<function>\n    .foo.do-something\n        Break at the function 'do-something from the 'foo' contract deployed by\n          the current principal\n\n  b <function>\n    take-action\n        Break at the function 'take-action' current contract\n\nList current breakpoints\n  b list\n  b l\n\nDelete a breakpoint using its identifier\n  b delete <breakpoint-id>\n  b del <breakpoint-id>\n"@
}

/// The help text of the `watch` command.
pub open spec fn help_watchpoint_text() -> Seq<char> {
    "Set a watchpoint using 'w' or 'watch' and one of these formats\n  w <principal>.<contract>.<name>\n    SP000000000000000000002Q6VF78.bns.owner-name\n        Break on writes to the map 'owner-name' from the 'bns' contract\n          deployed by SP000000000000000000002Q6VF78\n  w .<contract>.<name>\n    .foo.bar\n        Break on writes to the variable 'bar' from the 'foo' contract\n          deployed by the current principal\n  w <name>\n    something\n        Watch the variable 'something' from the current contract\n\nDefault watchpoints break when the variable or map is written. Using the same\nformats, the command 'rwatch' sets a read watchpoint to break when the variable\nor map is read, and 'awatch' sets a read/write watchpoint to break on read or\nwrite.\n\nList current watchpoints\n  w list\n  w l\n\nDelete a watchpoint using its identifier\n  w delete <watchpoint-id>\n  w del <watchpoint-id>\n"@
}

pub fn help_main() -> (r: String)
    ensures
        r@ == help_main_text(),
{
    String::from_str("Debugger commands:\n  aw | awatch      -- Read/write watchpoint, see `help watch' for details)\n  b | breakpoint   -- Commands for operating on breakpoints (see 'help b' for details)\n  c | continue     -- Continue execution until next breakpoint or completion\n  f | finish       -- Continue execution until returning from the current expression\n  n | next         -- Single step, stepping over sub-expressions\n  p | print <expr> -- Evaluate an expression and print the result\n  q | quit         -- Quit the debugger\n  r | run          -- Begin execution\n  rw | rwatch      -- Read watchpoint, see `help watch' for details)\n  s | step         -- Single step, stepping into sub-expressions\n  w | watch        -- Commands for operating on watchpoints (see 'help w' for details)\n")
}

pub fn help_breakpoint() -> (r: String)
    ensures
        r@ == help_breakpoint_text(),
{
    String::from_str("Set a breakpoint using 'b' or 'break' and one of these formats\n  b <principal?>.<contract>:<linenum>:<colnum>\n    SP000000000000000000002Q6VF78.bns:604:9\n        Break at line 604, column 9 of the bns contract deployed by \n          SP000000000000000000002Q6VF78\n\n  b <principal?>.<contract>:<linenum>\n    .my-contract:193\n        Break at line 193 of the my-contract contract deployed by the current\n          tx-sender\n\n  b :<linenum>:<colnum>\n    :12:4\n        Break at line 12, column 4 of the current contract\n\n  b :<linenum>\n    :12\n        Break at line 12 of the current contract\n\n  b <principal>.<contract>.<function>\n    SP000000000000000000002Q6VF78.bns.name-preorder\n        Break at the function name-preorder from the bns contract deployed by\n          SP000000000000000000002Q6VF78\n\n  b .<contract>.<function>\n    .foo.do-something\n        Break at the function 'do-something from the 'foo' contract deployed by\n          the current principal\n\n  b <function>\n    take-action\n        Break at the function 'take-action' current contract\n\nList current breakpoints\n  b list\n  b l\n\nDelete a breakpoint using its identifier\n  b delete <breakpoint-id>\n  b del <breakpoint-id>\n")
}

pub fn help_watchpoint() -> (r: String)
    ensures
        r@ == help_watchpoint_text(),
{
    String::from_str("Set a watchpoint using 'w' or 'watch' and one of these formats\n  w <principal>.<contract>.<name>\n    SP000000000000000000002Q6VF78.bns.owner-name\n        Break on writes to the map 'owner-name' from the 'bns' contract\n          deployed by SP000000000000000000002Q6VF78\n  w .<contract>.<name>\n    .foo.bar\n        Break on writes to the variable 'bar' from the 'foo' contract\n          deployed by the current principal\n  w <name>\n    something\n        Watch the variable 'something' from the current contract\n\nDefault watchpoints break when the variable or map is written. Using the same\nformats, the command 'rwatch' sets a read watchpoint to break when the variable\nor map is read, and 'awatch' sets a read/write watchpoint to break on read or\nwrite.\n\nList current watchpoints\n  w list\n  w l\n\nDelete a watchpoint using its identifier\n  w delete <watchpoint-id>\n  w del <watchpoint-id>\n")
}

/// The help that `help args` prints.
pub open spec fn help_text(args: Seq<char>) -> Seq<char> {
    if args == "b"@ || args == "breakpoint"@ {
        help_breakpoint_text()
    } else {
        help_main_text()
    }
}

pub fn print_help(args: &str) -> (r: String)
    ensures
        r@ == help_text(args@),
{
    if str_equals(args, "b") || str_equals(args, "breakpoint") {
        help_breakpoint()
    } else {
        help_main()
    }
}

/// An error line: `error` in red, then the message.
pub open spec fn err_line(m: Seq<char>) -> Seq<char> {
    painted(1, "error"@) + ": "@ + m
}

pub fn error_line(m: &str) -> (r: String)
    ensures
        r@ == err_line(m@),
{
    let mut r = red("error");
    r.append(": ");
    r.append(m);
    r
}

/// The message for a contract that is not deployed.
pub open spec fn unresolved_text(c: ContractIdView) -> Seq<char> {
    "use of unresolved contract '"@ + id_text(c) + "'"@
}

/// The lines that list `points`, or `none` where there are none.
pub open spec fn listing(points: Seq<Breakpoint>, none: Seq<char>) -> Seq<Seq<char>> {
    if points.len() == 0 {
        seq![none]
    } else {
        points.map_values(|b: Breakpoint| breakpoint_text(b))
    }
}

fn list_points(points: &Vec<Breakpoint>, none: &str) -> (r: Vec<String>)
    ensures
        views(r@) == listing(points@, none@),
{
    let mut r: Vec<String> = Vec::new();
    if points.len() == 0 {
        r.push(String::from_str(none));
        proof {
            assert(views(r@) =~= listing(points@, none@));
        }
        return r;
    }
    let mut i: usize = 0;
    while i < points.len()
        invariant
            i <= points@.len(),
            points@.len() > 0,
            r@.len() == i,
            forall|k: int| 0 <= k < i ==> (#[trigger] r@[k])@ == breakpoint_text(points@[k]),
        decreases points.len() - i,
    {
        r.push(points[i].to_string());
        i = i + 1;
    }
    proof {
        assert(views(r@) =~= listing(points@, none@));
    }
    r
}

/// Whether `new` holds the breakpoints and watchpoints of `old` and what they wait for.
pub open spec fn same_points(old: DebugState, new: DebugState) -> bool {
    &&& new.breakpoints() == old.breakpoints()
    &&& new.watchpoints() == old.watchpoints()
    &&& new.last_id() == old.last_id()
}

/// Whether `new` is `old` in what evaluation goes through: the breakpoints set off, what
/// the debugger is doing, and the stack.
pub open spec fn same_run(old: DebugState, new: DebugState) -> bool {
    &&& new.active() == old.active()
    &&& new.state() == old.state()
    &&& new.stack() == old.stack()
}

/// Whether `new` is `old` with one more point at the end of `points`, whose identifier is
/// the next one.
pub open spec fn added_point(old_points: Seq<Breakpoint>, new_points: Seq<Breakpoint>, old: DebugState, new: DebugState) -> bool {
    &&& new.last_id() == old.last_id() + 1
    &&& new_points.len() == old_points.len() + 1
    &&& new_points.drop_last() == old_points
    &&& new_points.last().id == new.last_id()
    &&& new_points.last().verified
}

/// What `break args` does, where `env` is what the debugger reads of the evaluation: the
/// lines `out` it prints, and the debugger `new` it leaves of `old`.
pub open spec fn break_effect(old: DebugState, new: DebugState, out: Seq<Seq<char>>, args: Seq<char>, env: DebugEnv) -> bool {
    &&& new.watchpoints() == old.watchpoints()
    &&& same_run(old, new)
    &&& match break_request(args, env.contract_identifier@) {
        PointRequest::Invalid(m) => same_points(old, new) && out == seq![err_line(m), help_breakpoint_text()],
        PointRequest::List => same_points(old, new) && out == listing(old.breakpoints(), "No breakpoints set."@),
        PointRequest::Delete(id) => new.last_id() == old.last_id() && if has_id(old.breakpoints(), id) {
            &&& exists|i: int|
                0 <= i < old.breakpoints().len() && old.breakpoints()[i].id == id && new.breakpoints()
                    == old.breakpoints().remove(i)
            &&& out == seq!["breakpoint deleted"@]
        } else {
            &&& new.breakpoints() == old.breakpoints()
            &&& out == seq![err_line("'"@ + decimal(id as nat) + "' is not a currently valid breakpoint id"@)]
        },
        PointRequest::BadId => same_points(old, new) && out == seq![err_line("unable to parse breakpoint identifier"@)],
        PointRequest::Place(c, line, column) => {
            &&& added_point(old.breakpoints(), new.breakpoints(), old, new)
            &&& new.breakpoints().last().source.name@ == c
            &&& new.breakpoints().last().data == BreakpointData::Source(
                SourceBreakpoint {
                    line,
                    column: if column == 0 {
                        None
                    } else {
                        Some(column)
                    },
                    log_message: None,
                },
            )
            &&& new.breakpoints().last().span == Some(
                Span { start_line: line, start_column: column, end_line: line, end_column: column },
            )
            &&& out.len() == 0
        },
        PointRequest::Named(c, name) => match find_contract(env.contracts@, c) {
            None => same_points(old, new) && out == seq![err_line(unresolved_text(c))],
            Some(i) => match find_function(env.contracts@[i].functions@, name) {
                None => same_points(old, new) && out == seq![err_line("no such function"@)],
                Some(j) => {
                    &&& added_point(old.breakpoints(), new.breakpoints(), old, new)
                    &&& new.breakpoints().last().source.name@ == c
                    &&& new.breakpoints().last().data matches BreakpointData::Function(f) && f.name@ == name
                    &&& new.breakpoints().last().span == Some(env.contracts@[i].functions@[j].1)
                    &&& out.len() == 0
                },
            },
        },
    }
}

/// Whether `name` is a data variable or a map of contract `info`.
pub open spec fn has_data(info: ContractInfo, name: Seq<char>) -> bool {
    views(info.variables@).contains(name) || views(info.maps@).contains(name)
}

/// What `watch args` does for accesses of kind `access`.
pub open spec fn watch_effect(
    old: DebugState,
    new: DebugState,
    out: Seq<Seq<char>>,
    args: Seq<char>,
    env: DebugEnv,
    access: AccessType,
) -> bool {
    &&& new.breakpoints() == old.breakpoints()
    &&& same_run(old, new)
    &&& match watch_request(args, env.contract_identifier@) {
        PointRequest::Invalid(m) => same_points(old, new) && out == seq![err_line(m), help_watchpoint_text()],
        PointRequest::List => same_points(old, new) && out == listing(old.watchpoints(), "No watchpoints set."@),
        PointRequest::Delete(id) => new.last_id() == old.last_id() && if has_id(old.watchpoints(), id) {
            &&& exists|i: int|
                0 <= i < old.watchpoints().len() && old.watchpoints()[i].id == id && new.watchpoints()
                    == old.watchpoints().remove(i)
            &&& out == seq!["watchpoint deleted"@]
        } else {
            &&& new.watchpoints() == old.watchpoints()
            &&& out == seq![err_line("'"@ + decimal(id as nat) + "' is not a currently valid watchpoint id"@)]
        },
        PointRequest::BadId => same_points(old, new) && out == seq![err_line("unable to parse watchpoint identifier"@)],
        PointRequest::Place(..) => same_points(old, new) && out.len() == 0,
        PointRequest::Named(c, name) => match find_contract(env.contracts@, c) {
            None => same_points(old, new) && out == seq![err_line(unresolved_text(c))],
            Some(i) => if !has_data(env.contracts@[i], name) {
                same_points(old, new) && out == seq![err_line("no such variable: "@ + id_text(c) + "."@ + name)]
            } else {
                &&& added_point(old.watchpoints(), new.watchpoints(), old, new)
                &&& new.watchpoints().last().source.name@ == c
                &&& new.watchpoints().last().data matches BreakpointData::Data(d) && d.name@ == name && d.access_type
                    == access
                &&& new.watchpoints().last().span is None
                &&& out.len() == 0
            },
        },
    }
}

fn one_line(a: String) -> (r: Vec<String>)
    ensures
        views(r@) == seq![a@],
        r@.len() == 1,
{
    let mut r = Vec::new();
    r.push(a);
    proof {
        assert(views(r@) =~= seq![a@]);
    }
    r
}

fn two_lines(a: String, b: String) -> (r: Vec<String>)
    ensures
        views(r@) == seq![a@, b@],
{
    let mut r = Vec::new();
    r.push(a);
    r.push(b);
    proof {
        assert(views(r@) =~= seq![a@, b@]);
    }
    r
}

fn not_valid_id(id: usize, is_break: bool) -> (r: String)
    ensures
        is_break ==> r@ == "'"@ + decimal(id as nat) + "' is not a currently valid breakpoint id"@,
        !is_break ==> r@ == "'"@ + decimal(id as nat) + "' is not a currently valid watchpoint id"@,
{
    let mut r = String::from_str("'");
    let d = decimal_string(id as u128);
    r.append(d.as_str());
    if is_break {
        r.append("' is not a currently valid breakpoint id");
    } else {
        r.append("' is not a currently valid watchpoint id");
    }
    r
}

fn unresolved(c: &QualifiedContractIdentifier) -> (r: String)
    ensures
        r@ == unresolved_text(c@),
{
    let mut r = String::from_str("use of unresolved contract '");
    let t = contract_id_text(c);
    r.append(t.as_str());
    r.append("'");
    r
}

/// Whether `s` holds a string with the characters `name`.
fn contains_name(s: &Vec<String>, name: &str) -> (r: bool)
    ensures
        r == views(s@).contains(name@),
{
    let mut i: usize = 0;
    while i < s.len()
        invariant
            i <= s@.len(),
            forall|k: int| 0 <= k < i ==> s@[k]@ != name@,
        decreases s.len() - i,
    {
        if str_equals(s[i].as_str(), name) {
            proof {
                assert(views(s@)[i as int] == name@);
            }
            return true;
        }
        i = i + 1;
    }
    proof {
        if views(s@).contains(name@) {
            let k = choose|k: int| 0 <= k < views(s@).len() && views(s@)[k] == name@;
            assert(s@[k]@ == name@);
        }
    }
    false
}

/// Whether `args` can follow `break` (`is_break`) or `watch` without the debugger failing.
pub fn check_point_args(args: &str, is_break: bool) -> (r: bool)
    ensures
        r == point_args_ok(args@, is_break),
{
    let w = split_words(args);
    proof {
        assert(views(w@).len() == w@.len());
        assert forall|k: int| 0 <= k < w@.len() implies views(w@)[k] == w@[k]@ by {}
    }
    let parts = split_char(args, ':');
    proof {
        assert(views(parts@).len() == parts@.len());
        assert forall|k: int| 0 <= k < parts@.len() implies views(parts@)[k] == parts@[k]@ by {}
        crate::text::lemma_split_on_nonempty(args@, ':');
    }
    let cp = split_char(parts[0].as_str(), '.');
    proof {
        assert(views(cp@).len() == cp@.len());
        assert forall|k: int| 0 <= k < cp@.len() implies views(cp@)[k] == cp@[k]@ by {}
    }
    let dp = split_char(args, '.');
    proof {
        assert(views(dp@).len() == dp@.len());
        assert forall|k: int| 0 <= k < dp@.len() implies views(dp@)[k] == dp@[k]@ by {}
    }
    let n = args.unicode_len();
    if n == 0 {
        return true;
    }
    if w.len() == 0 {
        return false;
    }
    let is_del = word_is(&w, 0, "del") || word_is(&w, 0, "delete");
    if is_del && w.len() < 2 {
        return false;
    }
    let is_list = word_is(&w, 0, "l") || word_is(&w, 0, "list");
    if w.len() == 1 && !is_list && !is_del {
        let has_colon = find_char(args, ':').is_some();
        proof {
            if args@.contains(':') {
                let k = choose|k: int| 0 <= k < args@.len() && args@[k] == ':';
                assert(args@[k] == ':');
            }
        }
        if is_break && has_colon {
            if 2 <= parts.len() && parts.len() <= 3 && parts[0].unicode_len() > 0 && cp.len() == 2 && cp[0].unicode_len()
                == 0 {
                return check_contract_name(cp[1].as_str());
            }
        } else {
            if dp.len() == 3 && dp[0].unicode_len() == 0 {
                return check_contract_name(dp[1].as_str());
            }
        }
    }
    true
}

/// The first position of `c` in `s`.
pub open spec fn first_index_of(s: Seq<char>, c: char) -> Option<int>
    decreases s.len(),
{
    if s.len() == 0 {
        None
    } else if s[0] == c {
        Some(0)
    } else {
        match first_index_of(s.drop_first(), c) {
            Some(i) => Some(i + 1),
            None => None,
        }
    }
}

proof fn lemma_first_index_of(s: Seq<char>, c: char, i: int)
    requires
        0 <= i <= s.len(),
        forall|k: int| 0 <= k < i ==> s[k] != c,
        i < s.len() ==> s[i] == c,
    ensures
        i < s.len() ==> first_index_of(s, c) == Some(i),
        i == s.len() ==> first_index_of(s, c) is None,
    decreases i,
{
    if i > 0 {
        lemma_first_index_of(s.drop_first(), c, i - 1);
    }
}

/// A command's first word, before the first space, and the rest after that space.
pub open spec fn command_parts(command: Seq<char>) -> (Seq<char>, Seq<char>) {
    match first_index_of(command, ' ') {
        Some(i) => (command.take(i), command.skip(i + 1)),
        None => (command, Seq::empty()),
    }
}

/// What the debugger does for a command.
pub enum Reply {
    /// Evaluation goes on.
    Resume,
    /// The debugger prints these lines and waits for another command.
    Wait(Vec<String>),
    /// The debugger evaluates this expression where evaluation stopped, prints its value,
    /// and waits for another command.
    Evaluate(SymbolicExpression),
}

/// Whether the debugger can take `command` without failing.
pub open spec fn command_ok(command: Seq<char>) -> bool {
    let (cmd, args) = command_parts(command);
    &&& (cmd == "b"@ || cmd == "break"@) ==> point_args_ok(args, true)
    &&& (cmd == "w"@ || cmd == "watch"@ || cmd == "rw"@ || cmd == "rwatch"@ || cmd == "aw"@ || cmd == "awatch"@)
        ==> point_args_ok(args, false)
    &&& args.len() <= MAX_SOURCE_LEN
}

/// The transient contract, in which the debugger reads an expression to print.
pub fn transient_contract() -> (r: QualifiedContractIdentifier)
    ensures
        r.name@ == "__transient"@,
{
    QualifiedContractIdentifier {
        issuer: StandardPrincipalData { address: String::from_str("S1G2081040G2081040G2081040G208105NK8PE5") },
        name: String::from_str("__transient"),
    }
}

/// Whether `new` is `old` with its state set to `state`.
pub open spec fn moved_to(old: DebugState, new: DebugState, state: State) -> bool {
    &&& same_points(old, new)
    &&& new.active() == old.active()
    &&& new.stack() == old.stack()
    &&& new.state() == state
}

/// The spaces that pad text to a width.
pub open spec fn spaces(n: nat) -> Seq<char> {
    Seq::new(n, |i: int| ' ')
}

/// `s` followed by spaces up to width `w`, as `format!("{: <w$}", s)` writes it.
pub open spec fn pad_right(s: Seq<char>, w: nat) -> Seq<char> {
    if s.len() < w {
        s + spaces((w - s.len()) as nat)
    } else {
        s
    }
}

pub fn space_string(n: usize) -> (r: String)
    ensures
        r@ == spaces(n as nat),
{
    let mut r = String::new();
    let mut i: usize = 0;
    proof {
        assert(r@ =~= spaces(0));
    }
    while i < n
        invariant
            i <= n,
            r@ == spaces(i as nat),
        decreases n - i,
    {
        r.append(" ");
        proof {
            reveal_strlit(" ");
            assert(r@ =~= spaces((i + 1) as nat));
        }
        i = i + 1;
    }
    r
}

/// The source of the contract under evaluation, where the debugger has it.
pub open spec fn current_source(env: DebugEnv) -> Option<String> {
    match find_contract(env.contracts@, env.contract_identifier@) {
        Some(i) => env.contracts@[i].source,
        None => None,
    }
}

/// The line at index `l` of a listing of `ls` around line `line` (counted from 1).
pub open spec fn listing_line(ls: Seq<Seq<char>>, l: int, line: u32) -> Seq<char> {
    (if l == line - 1 {
        painted(4, "-> "@)
    } else {
        "   "@
    }) + painted(0, pad_right(decimal((l + 1) as nat), 6)) + " "@ + ls[l]
}

/// The caret under column `column`.
pub open spec fn caret_line(column: u32) -> Seq<char> {
    painted(4, spaces(10) + spaces((column - 1) as nat) + "^"@)
}

/// The lines that show the lines `first..last` of `ls`, with the caret under `line:column`.
pub open spec fn source_lines(ls: Seq<Seq<char>>, first: int, last: int, line: u32, column: u32) -> Seq<Seq<char>>
    decreases last - first,
{
    if last <= first {
        Seq::empty()
    } else {
        source_lines(ls, first, last - 1, line, column) + seq![listing_line(ls, last - 1, line)] + if last - 1 == line - 1 {
            seq![caret_line(column)]
        } else {
            Seq::empty()
        }
    }
}

/// What the debugger shows of the source around `span` of the contract under evaluation.
pub open spec fn source_view(env: DebugEnv, span: Span) -> Seq<Seq<char>> {
    let c = env.contract_identifier@;
    if span.start_line == 0 {
        seq![painted(3, "source information unknown"@)]
    } else {
        match current_source(env) {
            None => seq![
                painted(3, "source not found"@),
                id_text(c) + ":"@ + decimal(span.start_line as nat) + ":"@ + decimal(span.start_column as nat),
            ],
            Some(src) => {
                let ls = lines(src@);
                let first = if span.start_line - 1 >= 3 {
                    span.start_line - 1 - 3
                } else {
                    0
                };
                let last = if ls.len() - 1 < span.start_line + 3 {
                    ls.len() - 1
                } else {
                    span.start_line + 3
                };
                seq![painted(4, id_text(c)) + ":"@ + decimal(span.start_line as nat) + ":"@ + decimal(
                    span.start_column as nat,
                )] + source_lines(ls, first, last, span.start_line, span.start_column)
            },
        }
    }
}

/// Whether the debugger can show the source around `span`: a span in the source has a
/// column, and a source it shows has a line.
pub open spec fn source_view_ok(env: DebugEnv, span: Span) -> bool {
    &&& span.start_line != 0 ==> span.start_column >= 1
    &&& span.start_line != 0 && current_source(env) is Some ==> lines(current_source(env)->0@).len() >= 1
}

fn position_line(id: &QualifiedContractIdentifier, span: &Span, coloured: bool) -> (r: String)
    ensures
        coloured ==> r@ == painted(4, id_text(id@)) + ":"@ + decimal(span.start_line as nat) + ":"@ + decimal(
            span.start_column as nat,
        ),
        !coloured ==> r@ == id_text(id@) + ":"@ + decimal(span.start_line as nat) + ":"@ + decimal(
            span.start_column as nat,
        ),
{
    let t = contract_id_text(id);
    let mut r = if coloured {
        blue(t.as_str())
    } else {
        t
    };
    r.append(":");
    let l = decimal_string(span.start_line as u128);
    r.append(l.as_str());
    r.append(":");
    let c = decimal_string(span.start_column as u128);
    r.append(c.as_str());
    r
}

fn show_line(ls: &Vec<String>, l: usize, line: u32) -> (r: String)
    requires
        l < ls@.len(),
    ensures
        r@ == listing_line(views(ls@), l as int, line),
{
    let mut r = if (l as u128) + 1 == line as u128 {
        blue("-> ")
    } else {
        String::from_str("   ")
    };
    let number = decimal_string((l as u128) + 1);
    let mut padded = number.clone();
    let width = number.unicode_len();
    if width < 6 {
        let pad = space_string(6 - width);
        padded.append(pad.as_str());
    }
    let black = paint(0, padded.as_str());
    r.append(black.as_str());
    r.append(" ");
    r.append(ls[l].as_str());
    proof {
        assert(views(ls@)[l as int] == ls@[l as int]@);
        assert(padded@ == pad_right(decimal((l + 1) as nat), 6));
    }
    r
}

impl DebugState {
    /// The lines that show the source around `span` of the contract under evaluation.
    pub fn print_source(&self, env: &DebugEnv, span: &Span) -> (r: Vec<String>)
        requires
            source_view_ok(*env, *span),
        ensures
            views(r@) == source_view(*env, *span),
    {
        let mut out: Vec<String> = Vec::new();
        if span.start_line == 0 {
            out.push(yellow("source information unknown"));
            proof {
                assert(views(out@) =~= source_view(*env, *span));
            }
            return out;
        }
        let source = match contract_position(&env.contracts, &env.contract_identifier) {
            Some(i) => match &env.contracts[i].source {
                Some(s) => Some(s),
                None => None,
            },
            None => None,
        };
        match source {
            None => {
                out.push(yellow("source not found"));
                out.push(position_line(&env.contract_identifier, span, false));
                proof {
                    assert(views(out@) =~= source_view(*env, *span));
                }
                out
            },
            Some(src) => {
                out.push(position_line(&env.contract_identifier, span, true));
                let ls = lines_of(src.as_str());
                let line = span.start_line;
                let first: usize = if line - 1 >= 3 {
                    (line - 1 - 3) as usize
                } else {
                    0
                };
                let last: usize = if ((ls.len() - 1) as u64) < (line as u64) + 3 {
                    ls.len() - 1
                } else {
                    ((line as u64) + 3) as usize
                };
                let ghost lsv = views(ls@);
                let ghost head = out@;
                let mut l = first;
                proof {
                    assert(views(out@) =~= views(head) + source_lines(lsv, first as int, first as int, line, span.start_column));
                }
                while l < last
                    invariant
                        first <= l <= last || last < first,
                        last < first ==> l == first,
                        last <= ls@.len(),
                        lsv == views(ls@),
                        views(out@) == views(head) + source_lines(lsv, first as int, l as int, line, span.start_column),
                        span.start_column >= 1,
                    decreases last - l,
                {
                    let ghost before = views(out@);
                    let text = show_line(&ls, l, line);
                    let ghost text_view = text@;
                    out.push(text);
                    proof {
                        assert(views(out@) =~= before + seq![text_view]);
                    }
                    if (l as u128) + 1 == line as u128 {
                        let mut caret = space_string(10);
                        let pad = space_string((span.start_column - 1) as usize);
                        caret.append(pad.as_str());
                        caret.append("^");
                        let caret = blue(caret.as_str());
                        let ghost caret_view = caret@;
                        out.push(caret);
                        proof {
                            assert(caret_view == caret_line(span.start_column));
                            assert(views(out@) =~= before + seq![text_view] + seq![caret_view]);
                        }
                    }
                    proof {
                        assert(source_lines(lsv, first as int, l + 1, line, span.start_column) == source_lines(
                            lsv,
                            first as int,
                            l as int,
                            line,
                            span.start_column,
                        ) + seq![listing_line(lsv, l as int, line)] + if l == line - 1 {
                            seq![caret_line(span.start_column)]
                        } else {
                            Seq::empty()
                        });
                        assert(views(out@) =~= views(head) + source_lines(lsv, first as int, l + 1, line, span.start_column));
                    }
                    l = l + 1;
                }
                proof {
                    assert(views(out@) =~= source_view(*env, *span));
                }
                out
            },
        }
    }
}

impl DebugState {
    /// Carries out `break args`: lists, deletes or sets a breakpoint. Returns the lines to
    /// print.
    pub fn break_command(&mut self, args: &str, env: &DebugEnv) -> (out: Vec<String>)
        requires
            old(self).wf(),
            old(self).last_id() < usize::MAX,
            point_args_ok(args@, true),
        ensures
            final(self).wf(),
            break_effect(*old(self), *final(self), views(out@), args@, *env),
    {
        match read_point_command(args, &env.contract_identifier, true) {
            PointCommand::Invalid(m) => two_lines(error_line(m.as_str()), help_breakpoint()),
            PointCommand::List => list_points(&self.breakpoints, "No breakpoints set."),
            PointCommand::Delete(id) => {
                if self.delete_breakpoint(id) {
                    one_line(String::from_str("breakpoint deleted"))
                } else {
                    let m = not_valid_id(id, true);
                    one_line(error_line(m.as_str()))
                }
            },
            PointCommand::BadId => one_line(error_line("unable to parse breakpoint identifier")),
            PointCommand::Place(contract, line, column) => {
                let b = Breakpoint {
                    id: 0,
                    verified: true,
                    data: BreakpointData::Source(
                        SourceBreakpoint {
                            line,
                            column: if column == 0 {
                                None
                            } else {
                                Some(column)
                            },
                            log_message: None,
                        },
                    ),
                    source: Source { name: contract },
                    span: Some(Span { start_line: line, start_column: column, end_line: line, end_column: column }),
                };
                self.add_breakpoint(b);
                Vec::new()
            },
            PointCommand::Named(contract, name) => {
                let i = match contract_position(&env.contracts, &contract) {
                    Some(i) => i,
                    None => {
                        let m = unresolved(&contract);
                        return one_line(error_line(m.as_str()));
                    },
                };
                let j = match function_position(&env.contracts[i].functions, name.as_str()) {
                    Some(j) => j,
                    None => {
                        return one_line(error_line("no such function"));
                    },
                };
                proof {
                    lemma_find_function_range(env.contracts@[i as int].functions@, name@);
                }
                let body = env.contracts[i].functions[j].1;
                let b = Breakpoint {
                    id: 0,
                    verified: true,
                    data: BreakpointData::Function(FunctionBreakpoint { name }),
                    source: Source { name: contract },
                    span: Some(body),
                };
                self.add_breakpoint(b);
                Vec::new()
            },
        }
    }

    /// Carries out `watch args` for accesses of kind `access_type`: lists, deletes or sets a
    /// watchpoint. Returns the lines to print.
    pub fn watch_command(&mut self, args: &str, env: &DebugEnv, access_type: AccessType) -> (out: Vec<String>)
        requires
            old(self).wf(),
            old(self).last_id() < usize::MAX,
            point_args_ok(args@, false),
        ensures
            final(self).wf(),
            watch_effect(*old(self), *final(self), views(out@), args@, *env, access_type),
    {
        match read_point_command(args, &env.contract_identifier, false) {
            PointCommand::Invalid(m) => two_lines(error_line(m.as_str()), help_watchpoint()),
            PointCommand::List => list_points(&self.watchpoints, "No watchpoints set."),
            PointCommand::Delete(id) => {
                if self.delete_watchpoint(id) {
                    one_line(String::from_str("watchpoint deleted"))
                } else {
                    let m = not_valid_id(id, false);
                    one_line(error_line(m.as_str()))
                }
            },
            PointCommand::BadId => one_line(error_line("unable to parse watchpoint identifier")),
            PointCommand::Place(..) => Vec::new(),
            PointCommand::Named(contract, name) => {
                let i = match contract_position(&env.contracts, &contract) {
                    Some(i) => i,
                    None => {
                        let m = unresolved(&contract);
                        return one_line(error_line(m.as_str()));
                    },
                };
                let info = &env.contracts[i];
                if !contains_name(&info.variables, name.as_str()) && !contains_name(&info.maps, name.as_str()) {
                    let mut m = String::from_str("no such variable: ");
                    let t = contract_id_text(&contract);
                    m.append(t.as_str());
                    m.append(".");
                    m.append(name.as_str());
                    return one_line(error_line(m.as_str()));
                }
                let b = Breakpoint {
                    id: 0,
                    verified: true,
                    data: BreakpointData::Data(DataBreakpoint { name, access_type }),
                    source: Source { name: contract },
                    span: None,
                };
                self.add_watchpoint(b);
                Vec::new()
            },
        }
    }

    /// Carries out a debugger command, read while evaluation stands before (`finish`
    /// false) or after (`finish` true) the expression with identifier `expr_id`.
    pub fn handle_command(&mut self, command: &str, env: &DebugEnv, expr_id: u64, finish: bool) -> (r: Reply)
        requires
            old(self).wf(),
            old(self).last_id() < usize::MAX,
            command_ok(command@),
        ensures
            final(self).wf(),
            ({
                let (cmd, args) = command_parts(command@);
                if cmd == "h"@ || cmd == "help"@ {
                    moved_to(*old(self), *final(self), old(self).state()) && (r matches Reply::Wait(out) && views(out@)
                        == seq![help_text(args)])
                } else if cmd == "r"@ || cmd == "run"@ || cmd == "c"@ || cmd == "continue"@ {
                    moved_to(*old(self), *final(self), State::Continue) && r is Resume
                } else if cmd == "n"@ || cmd == "next"@ {
                    moved_to(*old(self), *final(self), if finish { State::StepIn } else { State::StepOver(expr_id) })
                        && r is Resume
                } else if cmd == "s"@ || cmd == "step"@ {
                    moved_to(*old(self), *final(self), State::StepIn) && r is Resume
                } else if cmd == "f"@ || cmd == "finish"@ {
                    moved_to(*old(self), *final(self), finish_target(old(self).stack(), finish)) && r is Resume
                } else if cmd == "b"@ || cmd == "break"@ {
                    r matches Reply::Wait(out) && break_effect(*old(self), *final(self), views(out@), args, *env)
                } else if cmd == "w"@ || cmd == "watch"@ {
                    r matches Reply::Wait(out) && watch_effect(*old(self), *final(self), views(out@), args, *env, AccessType::Write)
                } else if cmd == "rw"@ || cmd == "rwatch"@ {
                    r matches Reply::Wait(out) && watch_effect(*old(self), *final(self), views(out@), args, *env, AccessType::Read)
                } else if cmd == "aw"@ || cmd == "awatch"@ {
                    r matches Reply::Wait(out) && watch_effect(*old(self), *final(self), views(out@), args, *env, AccessType::ReadWrite)
                } else if cmd == "p"@ || cmd == "print"@ {
                    moved_to(*old(self), *final(self), old(self).state()) && (r is Evaluate || (r matches Reply::Wait(out)
                        && out@.len() == 1))
                } else if cmd == "q"@ || cmd == "quit"@ {
                    moved_to(*old(self), *final(self), State::Quit) && r is Resume
                } else {
                    moved_to(*old(self), *final(self), old(self).state()) && (r matches Reply::Wait(out) && views(out@)
                        == seq!["Unknown command"@, help_main_text()])
                }
            }),
    {
        let (cmd, args) = split_command(command);
        proof {
            reveal_strlit("h");
            reveal_strlit("help");
            reveal_strlit("r");
            reveal_strlit("run");
            reveal_strlit("c");
            reveal_strlit("continue");
            reveal_strlit("n");
            reveal_strlit("next");
            reveal_strlit("s");
            reveal_strlit("step");
            reveal_strlit("f");
            reveal_strlit("finish");
            reveal_strlit("b");
            reveal_strlit("break");
            reveal_strlit("w");
            reveal_strlit("watch");
            reveal_strlit("rw");
            reveal_strlit("rwatch");
            reveal_strlit("aw");
            reveal_strlit("awatch");
            reveal_strlit("p");
            reveal_strlit("print");
            reveal_strlit("q");
            reveal_strlit("quit");
        }
        if str_equals(cmd.as_str(), "h") || str_equals(cmd.as_str(), "help") {
            return Reply::Wait(one_line(print_help(args.as_str())));
        }
        if str_equals(cmd.as_str(), "r") || str_equals(cmd.as_str(), "run") || str_equals(cmd.as_str(), "c")
            || str_equals(cmd.as_str(), "continue") {
            self.state = State::Continue;
            return Reply::Resume;
        }
        if str_equals(cmd.as_str(), "n") || str_equals(cmd.as_str(), "next") {
            // Once an expression has been evaluated, `next` steps like `step`.
            if finish {
                self.state = State::StepIn;
            } else {
                self.state = State::StepOver(expr_id);
            }
            return Reply::Resume;
        }
        if str_equals(cmd.as_str(), "s") || str_equals(cmd.as_str(), "step") {
            self.state = State::StepIn;
            return Reply::Resume;
        }
        if str_equals(cmd.as_str(), "f") || str_equals(cmd.as_str(), "finish") {
            // Run until the parent expression completes: after an evaluation the current
            // expression has left the stack, so the parent is its last entry; before one,
            // the parent is the entry below the last.
            let len = self.stack.len();
            if finish {
                if len >= 1 {
                    self.state = State::Finish(self.stack[len - 1].id);
                } else {
                    self.state = State::Continue;
                }
            } else {
                if len >= 2 {
                    self.state = State::Finish(self.stack[len - 2].id);
                } else {
                    self.state = State::Continue;
                }
            }
            return Reply::Resume;
        }
        if str_equals(cmd.as_str(), "b") || str_equals(cmd.as_str(), "break") {
            return Reply::Wait(self.break_command(args.as_str(), env));
        }
        if str_equals(cmd.as_str(), "w") || str_equals(cmd.as_str(), "watch") {
            return Reply::Wait(self.watch_command(args.as_str(), env, AccessType::Write));
        }
        if str_equals(cmd.as_str(), "rw") || str_equals(cmd.as_str(), "rwatch") {
            return Reply::Wait(self.watch_command(args.as_str(), env, AccessType::Read));
        }
        if str_equals(cmd.as_str(), "aw") || str_equals(cmd.as_str(), "awatch") {
            return Reply::Wait(self.watch_command(args.as_str(), env, AccessType::ReadWrite));
        }
        if str_equals(cmd.as_str(), "p") || str_equals(cmd.as_str(), "print") {
            let contract_id = transient_contract();
            return match parse(args.as_str(), &contract_id) {
                Ok(exprs) => {
                    if exprs.len() != 1 {
                        Reply::Wait(one_line(error_line("expected a single expression")))
                    } else {
                        let mut exprs = exprs;
                        Reply::Evaluate(exprs.pop().unwrap())
                    }
                },
                Err(e) => Reply::Wait(one_line(error_line(e.message.as_str()))),
            };
        }
        if str_equals(cmd.as_str(), "q") || str_equals(cmd.as_str(), "quit") {
            self.state = State::Quit;
            return Reply::Resume;
        }
        Reply::Wait(two_lines(String::from_str("Unknown command"), help_main()))
    }
}

/// Where `finish` runs to: the end of the parent of the current expression, or to the end
/// where there is no parent.
pub open spec fn finish_target(stack: Seq<ExprState>, finish: bool) -> State {
    if finish {
        if stack.len() >= 1 {
            State::Finish(stack.last().id)
        } else {
            State::Continue
        }
    } else {
        if stack.len() >= 2 {
            State::Finish(stack[stack.len() - 2].id)
        } else {
            State::Continue
        }
    }
}

/// A command's first word and the rest after the first space.
pub fn split_command(command: &str) -> (r: (String, String))
    ensures
        r.0@ == command_parts(command@).0,
        r.1@ == command_parts(command@).1,
{
    let n = command.unicode_len();
    match find_char(command, ' ') {
        Some(i) => {
            proof {
                lemma_first_index_of(command@, ' ', i as int);
            }
            (String::from_str(command.substring_char(0, i)), String::from_str(command.substring_char(i + 1, n)))
        },
        None => {
            proof {
                lemma_first_index_of(command@, ' ', n as int);
            }
            (String::from_str(command), String::new())
        },
    }
}

/// Whether `command` can be handed to `handle_command`.
pub fn check_command(command: &str) -> (r: bool)
    ensures
        r == command_ok(command@),
{
    let (cmd, args) = split_command(command);
    proof {
        reveal_strlit("b");
        reveal_strlit("break");
        reveal_strlit("w");
        reveal_strlit("watch");
        reveal_strlit("rw");
        reveal_strlit("rwatch");
        reveal_strlit("aw");
        reveal_strlit("awatch");
    }
    if args.unicode_len() > MAX_SOURCE_LEN {
        return false;
    }
    let c = cmd.as_str();
    let is_break = str_equals(c, "b") || str_equals(c, "break");
    let is_watch = str_equals(c, "w") || str_equals(c, "watch") || str_equals(c, "rw") || str_equals(c, "rwatch")
        || str_equals(c, "aw") || str_equals(c, "awatch");
    let break_ok = if is_break {
        check_point_args(args.as_str(), true)
    } else {
        true
    };
    let watch_ok = if is_watch {
        check_point_args(args.as_str(), false)
    } else {
        true
    };
    break_ok && watch_ok
}

/// The line that reports a breakpoint or watchpoint set off.
pub open spec fn hit_line(what: Seq<char>, id: usize) -> Seq<char> {
    painted(0, "*"@) + " hit "@ + what + " "@ + decimal(id as nat)
}

fn hit_text(breakpoint: bool, id: usize) -> (r: String)
    ensures
        breakpoint ==> r@ == hit_line("breakpoint"@, id),
        !breakpoint ==> r@ == hit_line("watchpoint"@, id),
{
    let mut r = paint(0, "*");
    if breakpoint {
        r.append(" hit breakpoint ");
        proof {
            reveal_strlit(" hit breakpoint ");
            reveal_strlit(" hit ");
            reveal_strlit("breakpoint");
            reveal_strlit(" ");
        }
    } else {
        r.append(" hit watchpoint ");
        proof {
            reveal_strlit(" hit watchpoint ");
            reveal_strlit(" hit ");
            reveal_strlit("watchpoint");
            reveal_strlit(" ");
        }
    }
    let d = decimal_string(id as u128);
    r.append(d.as_str());
    proof {
        assert(r@ =~= if breakpoint {
            hit_line("breakpoint"@, id)
        } else {
            hit_line("watchpoint"@, id)
        });
    }
    r
}

/// Whether `w` is what the watchpoints of `d` say of the data access of `expr` to contract
/// `c`: a watchpoint that catches it, or none where none does.
pub open spec fn watch_hit(d: DebugState, c: ContractIdView, expr: SymbolicExpression, w: Option<usize>) -> bool {
    match data_access(expr) {
        None => w is None,
        Some((name, access)) => {
            &&& w matches Some(id) ==> exists|i: int|
                0 <= i < d.watchpoints().len() && (#[trigger] d.watchpoints()[i]).id == id && watch_catches(
                    d.watchpoints()[i],
                    c,
                    name,
                    access,
                )
            &&& w is None ==> forall|i: int|
                0 <= i < d.watchpoints().len() ==> !watch_catches(#[trigger] d.watchpoints()[i], c, name, access)
        },
    }
}

/// Whether the debugger stops for a command in state `state`, with `stack` under evaluation:
/// not while running on or finishing, nor while stepping over an expression still on the
/// stack.
pub open spec fn stops(state: State, stack: Seq<ExprState>) -> bool {
    match state {
        State::Continue | State::Quit | State::Finish(_) => false,
        State::StepOver(id) => !(exists|k: int| 0 <= k < stack.len() && (#[trigger] stack[k]).id == id),
        _ => true,
    }
}

/// What `begin_eval` does when the debugger is not quitting.
pub open spec fn begin_effect(
    old: DebugState,
    new: DebugState,
    out: Seq<Seq<char>>,
    prompt: bool,
    env: DebugEnv,
    expr: SymbolicExpression,
) -> bool {
    let hits = new.stack().last().active_breakpoints@;
    let c = env.contract_identifier@;
    let bp_out = if hits.len() == 1 {
        seq![hit_line("breakpoint"@, hits[0])]
    } else {
        Seq::empty()
    };
    &&& hits.len() <= 1
    &&& hits.len() == 1 ==> {
        &&& exists|i: int|
            0 <= i < old.breakpoints().len() && (#[trigger] old.breakpoints()[i]).id == hits[0] && breaks_at(
                old.breakpoints()[i],
                c,
                expr.span,
            )
        &&& !old.active().contains(hits[0])
        &&& new.active() == old.active().push(hits[0])
    }
    &&& hits.len() == 0 ==> {
        &&& forall|i: int|
            0 <= i < old.breakpoints().len() && breaks_at(#[trigger] old.breakpoints()[i], c, expr.span)
                ==> old.active().contains(old.breakpoints()[i].id)
        &&& new.active() == old.active()
    }
    &&& if !expr.is_list() {
        &&& new.state() == (if hits.len() == 1 {
            State::Break
        } else {
            old.state()
        })
        &&& out == bp_out
        &&& !prompt
    } else {
        exists|w: Option<usize>|
            #![trigger watch_hit(old, c, expr, w)]
            {
                let state = if hits.len() == 1 || w is Some {
                    State::Break
                } else {
                    old.state()
                };
                let w_out = match w {
                    Some(id) => seq![hit_line("watchpoint"@, id)],
                    None => Seq::empty(),
                };
                &&& watch_hit(old, c, expr, w)
                &&& new.state() == state
                &&& prompt == stops(state, new.stack())
                &&& out == bp_out + w_out + if prompt {
                    source_view(env, expr.span)
                } else {
                    Seq::empty()
                }
            }
    }
}

/// The line that shows what an expression gave: its value or its error.
pub open spec fn result_line(result: Result<String, String>) -> Seq<char> {
    match result {
        Ok(v) => painted(2, "Return value"@) + ": "@ + painted(0, v@),
        Err(e) => painted(1, "error"@) + ": "@ + e@,
    }
}

/// `v` without any `x`.
fn remove_all(v: &mut Vec<usize>, x: usize)
    ensures
        forall|y: usize| final(v)@.contains(y) <==> old(v)@.contains(y) && y != x,
        !old(v)@.contains(x) ==> final(v)@ == old(v)@,
{
    if !contains_usize(v, x) {
        return;
    }
    let mut kept: Vec<usize> = Vec::new();
    let mut i: usize = 0;
    while i < v.len()
        invariant
            i <= v@.len(),
            forall|y: usize| kept@.contains(y) <==> v@.take(i as int).contains(y) && y != x,
        decreases v.len() - i,
    {
        proof {
            assert(v@.take(i + 1) =~= v@.take(i as int).push(v@[i as int]));
        }
        let ghost kept_before = kept@;
        if v[i] != x {
            kept.push(v[i]);
        }
        proof {
            broadcast use vstd::seq_lib::lemma_seq_contains_after_push;
            assert forall|y: usize| kept@.contains(y) <==> v@.take(i + 1).contains(y) && y != x by {
                if v[i as int] != x {
                    assert(kept@ == kept_before.push(v@[i as int]));
                } else {
                    assert(kept@ == kept_before);
                }
            }
        }
        i = i + 1;
    }
    proof {
        assert(v@.take(i as int) =~= v@);
    }
    *v = kept;
}

impl DebugState {
    /// What the debugger does as evaluation reaches `expr`: it notes the expression, reports
    /// a breakpoint or watchpoint that `expr` sets off, and says whether to stop for a
    /// command, with the source around `expr` shown. Returns the lines to print and whether
    /// to stop.
    pub fn begin_eval(&mut self, env: &DebugEnv, expr: &SymbolicExpression) -> (r: (Vec<String>, bool))
        requires
            old(self).wf(),
            data_call_ok(*expr),
            source_view_ok(*env, expr.span),
        ensures
            final(self).wf(),
            same_points(*old(self), *final(self)),
            final(self).stack().len() == old(self).stack().len() + 1,
            final(self).stack().drop_last() == old(self).stack(),
            final(self).stack().last().id == expr.id,
            old(self).state() == State::Quit ==> {
                &&& final(self).state() == State::Quit
                &&& final(self).active() == old(self).active()
                &&& final(self).stack().last().active_breakpoints@.len() == 0
                &&& r.0@.len() == 0
                &&& !r.1
            },
            old(self).state() != State::Quit ==> begin_effect(*old(self), *final(self), views(r.0@), r.1, *env, *expr),
    {
        self.stack.push(ExprState::new(expr.id));
        let mut out: Vec<String> = Vec::new();
        // A debugging session that was quit goes on evaluating and does nothing else.
        if self.state == State::Quit {
            proof {
                assert(self.stack@.drop_last() =~= old(self).stack@);
            }
            return (out, false);
        }
        if let Some(breakpoint) = self.did_hit_source_breakpoint(&env.contract_identifier, &expr.span) {
            self.active_breakpoints.push(breakpoint);
            let last = self.stack.len() - 1;
            let mut top = self.stack.pop().unwrap();
            top.active_breakpoints.push(breakpoint);
            self.stack.push(top);
            out.push(hit_text(true, breakpoint));
            self.state = State::Break;
            proof {
                assert(self.stack@.last().active_breakpoints@ =~= seq![breakpoint]);
            }
        }
        proof {
            assert(self.stack@.drop_last() =~= old(self).stack@);
        }
        let ghost hits = self.stack@.last().active_breakpoints@;
        let ghost bp_out = views(out@);
        proof {
            assert(bp_out =~= if hits.len() == 1 {
                seq![hit_line("breakpoint"@, hits[0])]
            } else {
                Seq::empty()
            });
        }
        // Values are stepped over.
        if !matches!(expr.expr, SymbolicExpressionType::List(_)) {
            return (out, false);
        }
        let w = self.did_hit_data_breakpoint(&env.contract_identifier, expr);
        if let Some(watchpoint) = w {
            out.push(hit_text(false, watchpoint));
            self.state = State::Break;
        }
        proof {
            assert(watch_hit(*old(self), env.contract_identifier@, *expr, w));
        }
        let ghost after_hits = views(out@);
        let prompt = match self.state {
            State::Continue | State::Quit | State::Finish(_) => false,
            State::StepOver(step_over_id) => {
                // Still inside the expression to step over: evaluation goes on.
                !stack_has(&self.stack, step_over_id)
            },
            State::Start | State::StepIn | State::Break => true,
        };
        if prompt {
            let source = self.print_source(env, &expr.span);
            let mut k: usize = 0;
            while k < source.len()
                invariant
                    k <= source@.len(),
                    views(out@) == after_hits + views(source@).take(k as int),
                decreases source.len() - k,
            {
                let ghost before = views(out@);
                let line = source[k].clone();
                let ghost line_view = line@;
                out.push(line);
                proof {
                    assert(views(out@) =~= before.push(line_view));
                    assert(line_view == views(source@)[k as int]);
                    assert(views(source@).take(k + 1) =~= views(source@).take(k as int).push(source@[k as int]@));
                    assert(views(out@) =~= after_hits + views(source@).take(k + 1));
                }
                k = k + 1;
            }
            proof {
                assert(views(source@).take(k as int) =~= views(source@));
            }
        }
        proof {
            let c = env.contract_identifier@;
            assert(views(out@) =~= bp_out + (match w {
                Some(id) => seq![hit_line("watchpoint"@, id)],
                None => Seq::<Seq<char>>::empty(),
            }) + if prompt {
                source_view(*env, expr.span)
            } else {
                Seq::empty()
            });
        }
        (out, prompt)
    }

    /// What the debugger does as evaluation of `expr` ends with `result` (a value's text, or
    /// an error's): it forgets the breakpoints that `expr` set off and, where a `finish`
    /// waited for `expr`, shows the result and the source and stops for a command. Returns
    /// the lines to print and whether to stop.
    pub fn finish_eval(&mut self, env: &DebugEnv, expr: &SymbolicExpression, result: &Result<String, String>) -> (r: (
        Vec<String>,
        bool,
    ))
        requires
            old(self).wf(),
            old(self).stack().len() >= 1,
            old(self).stack().last().id == expr.id,
            source_view_ok(*env, expr.span),
        ensures
            final(self).wf(),
            same_points(*old(self), *final(self)),
            final(self).stack() == old(self).stack().drop_last(),
            final(self).state() == old(self).state(),
            forall|x: usize|
                final(self).active().contains(x) <==> old(self).active().contains(x) && !old(
                    self,
                ).stack().last().active_breakpoints@.contains(x),
            old(self).state() == State::Finish(expr.id) ==> r.1 && views(r.0@) == seq![result_line(*result)]
                + source_view(*env, expr.span),
            old(self).state() != State::Finish(expr.id) ==> !r.1 && r.0@.len() == 0,
    {
        let state = self.stack.pop().unwrap();
        let mut k: usize = 0;
        while k < state.active_breakpoints.len()
            invariant
                k <= state.active_breakpoints@.len(),
                self.breakpoints == old(self).breakpoints,
                self.watchpoints == old(self).watchpoints,
                self.unique_id == old(self).unique_id,
                self.state == old(self).state,
                self.stack@ == old(self).stack@.drop_last(),
                state == old(self).stack@.last(),
                forall|x: usize|
                    self.active_breakpoints@.contains(x) <==> old(self).active_breakpoints@.contains(x)
                        && !state.active_breakpoints@.take(k as int).contains(x),
            decreases state.active_breakpoints.len() - k,
        {
            proof {
                assert(state.active_breakpoints@.take(k + 1) =~= state.active_breakpoints@.take(k as int).push(
                    state.active_breakpoints@[k as int],
                ));
            }
            remove_all(&mut self.active_breakpoints, state.active_breakpoints[k]);
            proof {
                broadcast use vstd::seq_lib::lemma_seq_contains_after_push;
            }
            k = k + 1;
        }
        proof {
            assert(state.active_breakpoints@.take(k as int) =~= state.active_breakpoints@);
        }
        // Only the end of the expression that a `finish` waits for shows its result.
        let resolves = match self.state {
            State::Finish(finish_id) => finish_id == state.id,
            _ => false,
        };
        if !resolves {
            return (Vec::new(), false);
        }
        let mut first = match result {
            Ok(value) => {
                let mut l = green("Return value");
                l.append(": ");
                let v = paint(0, value.as_str());
                l.append(v.as_str());
                l
            },
            Err(e) => error_line(e.as_str()),
        };
        let mut out = one_line(first);
        let ghost head = views(out@);
        let source = self.print_source(env, &expr.span);
        let mut k: usize = 0;
        while k < source.len()
            invariant
                k <= source@.len(),
                views(out@) == head + views(source@).take(k as int),
            decreases source.len() - k,
        {
            let ghost before = views(out@);
            let line = source[k].clone();
            let ghost line_view = line@;
            out.push(line);
            proof {
                assert(views(out@) =~= before.push(line_view));
                assert(line_view == views(source@)[k as int]);
                assert(views(source@).take(k + 1) =~= views(source@).take(k as int).push(source@[k as int]@));
                assert(views(out@) =~= head + views(source@).take(k + 1));
            }
            k = k + 1;
        }
        proof {
            assert(views(source@).take(k as int) =~= views(source@));
        }
        (out, true)
    }
}

/// Whether an expression with identifier `id` is on `stack`.
fn stack_has(stack: &Vec<ExprState>, id: u64) -> (r: bool)
    ensures
        r == exists|k: int| 0 <= k < stack@.len() && (#[trigger] stack@[k]).id == id,
{
    let mut i: usize = 0;
    while i < stack.len()
        invariant
            i <= stack@.len(),
            forall|k: int| 0 <= k < i ==> (#[trigger] stack@[k]).id != id,
        decreases stack.len() - i,
    {
        if stack[i].id == id {
            return true;
        }
        i = i + 1;
    }
    false
}
} // verus!
