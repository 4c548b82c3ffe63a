use vstd::prelude::*;
use vstd::string::*;

verus! {

/// A position range in a Clarity source snippet. Lines and columns start at 1;
/// `end_column` is the column of the last character covered.
#[derive(Clone, Copy, Debug, PartialEq, Eq, Hash)]
pub struct Span {
    pub start_line: u32,
    pub start_column: u32,
    pub end_line: u32,
    pub end_column: u32,
}

/// The lexicographic order on spans (start line, start column, end line, end column).
pub open spec fn span_less(a: Span, b: Span) -> bool {
    ||| a.start_line < b.start_line
    ||| a.start_line == b.start_line && a.start_column < b.start_column
    ||| a.start_line == b.start_line && a.start_column == b.start_column && a.end_line < b.end_line
    ||| a.start_line == b.start_line && a.start_column == b.start_column && a.end_line == b.end_line
        && a.end_column < b.end_column
}

/// Strict lexicographic comparison of two spans.
pub fn span_lt(a: &Span, b: &Span) -> (r: bool)
    ensures
        r == span_less(*a, *b),
{
    if a.start_line != b.start_line {
        a.start_line < b.start_line
    } else if a.start_column != b.start_column {
        a.start_column < b.start_column
    } else if a.end_line != b.end_line {
        a.end_line < b.end_line
    } else {
        a.end_column < b.end_column
    }
}

impl Span {
    /// The span that covers nothing.
    pub fn zero() -> (s: Span)
        ensures
            s.start_line == 0 && s.start_column == 0 && s.end_line == 0 && s.end_column == 0,
    {
        Span { start_line: 0, start_column: 0, end_line: 0, end_column: 0 }
    }
}

/// The name of a variable, function, map, token or trait.
pub type ClarityName = String;

/// A standard principal, held as the address text that names it.
#[derive(Clone, Debug, PartialEq, Eq, Hash)]
pub struct StandardPrincipalData {
    pub address: String,
}

/// A contract principal: its deployer and its name.
#[derive(Clone, Debug, PartialEq, Eq, Hash)]
pub struct QualifiedContractIdentifier {
    pub issuer: StandardPrincipalData,
    pub name: String,
}

/// The abstract value of a contract identifier: (deployer address, contract name).
pub type ContractIdView = (Seq<char>, Seq<char>);

impl View for QualifiedContractIdentifier {
    type V = ContractIdView;

    open spec fn view(&self) -> ContractIdView {
        (self.issuer.address@, self.name@)
    }
}

/// Whether two strings hold the same characters.
pub fn str_equals(a: &str, b: &str) -> (r: bool)
    ensures
        r == (a@ == b@),
{
    let n = a.unicode_len();
    let m = b.unicode_len();
    if n != m {
        return false;
    }
    let mut i: usize = 0;
    while i < n
        invariant
            n == a@.len(),
            m == b@.len(),
            n == m,
            i <= n,
            forall|j: int| 0 <= j < i ==> a@[j] == b@[j],
        decreases n - i,
    {
        if a.get_char(i) != b.get_char(i) {
            return false;
        }
        i = i + 1;
    }
    assert(a@ =~= b@);
    true
}

/// Whether `s` spells the literal `lit`.
pub fn name_is(s: &String, lit: &str) -> (r: bool)
    ensures
        r == (s@ == lit@),
{
    str_equals(s.as_str(), lit)
}

/// A copy of a string with the same characters.
pub fn copy_string(s: &String) -> (r: String)
    ensures
        r@ == s@,
{
    s.clone()
}

impl StandardPrincipalData {
    pub fn copy(&self) -> (r: Self)
        ensures
            r.address@ == self.address@,
    {
        StandardPrincipalData { address: copy_string(&self.address) }
    }
}

impl QualifiedContractIdentifier {
    /// A copy with the same deployer and name.
    pub fn copy(&self) -> (r: Self)
        ensures
            r@ == self@,
    {
        QualifiedContractIdentifier { issuer: self.issuer.copy(), name: copy_string(&self.name) }
    }

    /// Whether two identifiers name the same contract.
    pub fn same(&self, other: &Self) -> (r: bool)
        ensures
            r == (self@ == other@),
    {
        str_equals(self.issuer.address.as_str(), other.issuer.address.as_str()) && str_equals(
            self.name.as_str(),
            other.name.as_str(),
        )
    }
}

/// A trait, named by the contract that defines it and its name in that contract.
#[derive(Clone, Debug, PartialEq, Eq, Hash)]
pub struct TraitIdentifier {
    pub name: ClarityName,
    pub contract_identifier: QualifiedContractIdentifier,
}

/// The abstract value of a trait identifier: (defining contract, trait name).
pub type TraitIdView = (ContractIdView, Seq<char>);

impl View for TraitIdentifier {
    type V = TraitIdView;

    open spec fn view(&self) -> TraitIdView {
        (self.contract_identifier@, self.name@)
    }
}

impl TraitIdentifier {
    pub fn copy(&self) -> (r: Self)
        ensures
            r@ == self@,
    {
        TraitIdentifier {
            name: copy_string(&self.name),
            contract_identifier: self.contract_identifier.copy(),
        }
    }

    pub fn same(&self, other: &Self) -> (r: bool)
        ensures
            r == (self@ == other@),
    {
        str_equals(self.name.as_str(), other.name.as_str()) && self.contract_identifier.same(
            &other.contract_identifier,
        )
    }
}

/// Where a trait reference `<name>` was resolved: in this contract or through `use-trait`.
#[derive(Clone, Debug, PartialEq, Eq)]
pub enum TraitDefinition {
    Defined(TraitIdentifier),
    Imported(TraitIdentifier),
}

impl TraitDefinition {
    pub open spec fn trait_id(self) -> TraitIdentifier {
        match self {
            TraitDefinition::Defined(t) => t,
            TraitDefinition::Imported(t) => t,
        }
    }
}

/// A principal: a standard account or a contract.
#[derive(Clone, Debug, PartialEq, Eq)]
pub enum PrincipalData {
    Standard(StandardPrincipalData),
    Contract(QualifiedContractIdentifier),
}

/// A Clarity value.
#[derive(Debug)]
pub enum Value {
    Int(i128),
    UInt(u128),
    Bool(bool),
    Buffer(Vec<u8>),
    StringAscii(Vec<u8>),
    StringUtf8(Vec<char>),
    Principal(PrincipalData),
    OptionalNone,
    OptionalSome(Box<Value>),
    ResponseOk(Box<Value>),
    ResponseErr(Box<Value>),
    List(Vec<Value>),
    /// Fields of a tuple, in increasing order of their names.
    Tuple(Vec<(ClarityName, Value)>),
}

/// The kinds of node of a Clarity syntax tree.
#[derive(Debug)]
pub enum SymbolicExpressionType {
    AtomValue(Value),
    Atom(ClarityName),
    List(Vec<SymbolicExpression>),
    LiteralValue(Value),
    Field(TraitIdentifier),
    TraitReference(ClarityName, TraitDefinition),
}

/// A node of a Clarity syntax tree, with its unique identifier and its place in the source.
#[derive(Debug)]
pub struct SymbolicExpression {
    pub expr: SymbolicExpressionType,
    pub id: u64,
    pub span: Span,
}

/// A parsed contract: its identifier and its top-level expressions, in source order.
#[derive(Debug)]
pub struct ContractAST {
    pub contract_identifier: QualifiedContractIdentifier,
    pub expressions: Vec<SymbolicExpression>,
}

impl SymbolicExpression {
    pub open spec fn is_atom(self) -> bool {
        self.expr is Atom
    }

    pub open spec fn atom(self) -> ClarityName
        recommends
            self.expr is Atom,
    {
        self.expr->Atom_0
    }

    pub open spec fn is_list(self) -> bool {
        self.expr is List
    }

    pub open spec fn list(self) -> Seq<SymbolicExpression>
        recommends
            self.expr is List,
    {
        self.expr->List_0@
    }

    pub open spec fn is_field(self) -> bool {
        self.expr is Field
    }

    /// The contract named by a literal contract principal, if this is one.
    pub open spec fn contract_literal(self) -> Option<QualifiedContractIdentifier> {
        match self.expr {
            SymbolicExpressionType::LiteralValue(Value::Principal(PrincipalData::Contract(c))) => Some(c),
            _ => None,
        }
    }

    pub fn match_atom(&self) -> (r: Option<&ClarityName>)
        ensures
            r is Some <==> self.is_atom(),
            r matches Some(n) ==> *n == self.atom(),
    {
        match &self.expr {
            SymbolicExpressionType::Atom(name) => Some(name),
            _ => None,
        }
    }

    pub fn match_list(&self) -> (r: Option<&Vec<SymbolicExpression>>)
        ensures
            r is Some <==> self.is_list(),
            r matches Some(l) ==> l@ == self.list() && self.expr == SymbolicExpressionType::List(*l),
    {
        match &self.expr {
            SymbolicExpressionType::List(list) => Some(list),
            _ => None,
        }
    }

    pub fn match_literal_value(&self) -> (r: Option<&Value>)
        ensures
            r is Some <==> self.expr is LiteralValue,
            r matches Some(v) ==> self.expr == SymbolicExpressionType::LiteralValue(*v),
    {
        match &self.expr {
            SymbolicExpressionType::LiteralValue(value) => Some(value),
            _ => None,
        }
    }

    pub fn match_field(&self) -> (r: Option<&TraitIdentifier>)
        ensures
            r is Some <==> self.is_field(),
            r matches Some(f) ==> self.expr == SymbolicExpressionType::Field(*f),
    {
        match &self.expr {
            SymbolicExpressionType::Field(field) => Some(field),
            _ => None,
        }
    }

    /// The contract named by this expression when it is a literal contract principal.
    pub fn match_contract_literal(&self) -> (r: Option<&QualifiedContractIdentifier>)
        ensures
            r matches Some(c) ==> self.contract_literal() == Some(*c),
            r is None ==> self.contract_literal() is None,
    {
        match &self.expr {
            SymbolicExpressionType::LiteralValue(Value::Principal(PrincipalData::Contract(c))) => Some(c),
            _ => None,
        }
    }

    /// Whether this expression is the atom `tx-sender`.
    pub fn match_tx_sender(&self) -> (r: bool)
        ensures
            r == (self.is_atom() && self.atom()@ == "tx-sender"@),
    {
        match &self.expr {
            SymbolicExpressionType::Atom(name) => name_is(name, "tx-sender"),
            _ => false,
        }
    }
}

} // verus!
