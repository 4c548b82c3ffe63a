use vstd::prelude::*;
use vstd::string::*;
use crate::analysis::{ContractAnalysis, analysis_passes_ok, exprs_wf, run_analysis};
use crate::analysis_db::AnalysisDatabase;
use crate::balances::{find_slot, insert_string, keys_of, keys_sorted, strings_sorted, write_entry};
use crate::analysis::named_entry;
use crate::diagnostic::{decimal, decimal_string};
use crate::text::views;
use crate::annotation::{ANNOTATION_PATTERN, Annotation, AnnotationKind, annotation_kind_of, parse_annotation_kind, regex_captures, regex_compiles};
use crate::wf_check::check_wf_exprs;
use crate::contract_call_detector;
use crate::diagnostic::{Diagnostic, Level};
use crate::parser::{MAX_SOURCE_LEN, parse};
use crate::functions::{DefineFunctions, NativeFunctions};
use crate::representations::{
    ContractAST, QualifiedContractIdentifier, Span, StandardPrincipalData, SymbolicExpression,
    SymbolicExpressionType, Value,
};
use crate::text::{find_char, lines_of, strip_prefix, strip_suffix, trim};
use crate::literal::{eval_literal, evaluates};

verus! {

broadcast use vstd::std_specs::vec::group_vec_axioms;

/// The state of a Clarity session that this library keeps: the sender of transactions,
/// the accounts and token balances seen so far, and the height of the chain.
pub struct ClarityInterpreter {
    tx_sender: StandardPrincipalData,
    accounts: Vec<String>,
    tokens: Vec<(String, Vec<(String, u128)>)>,
    costs_version: u32,
    analysis: Vec<String>,
    block_height: u32,
}

impl ClarityInterpreter {
    pub fn new(tx_sender: StandardPrincipalData, costs_version: u32, analysis: Vec<String>) -> (r: ClarityInterpreter)
        ensures
            r.tx_sender_spec() == tx_sender,
            r.block_height_spec() == 0,
            r.analysis_spec() == analysis@,
            r.accounts_spec().is_empty(),
            r.tokens_spec().is_empty(),
            forall|a: Seq<char>, t: Seq<char>| !(#[trigger] r.has_balance(a, t)) && r.balance_spec(a, t) == 0,
    {
        proof {
            assert(views(Seq::<String>::empty()).to_set() =~= Set::empty());
            assert(keys_of(Seq::<(String, Vec<(String, u128)>)>::empty()).to_set() =~= Set::empty());
        }
        ClarityInterpreter {
            tx_sender,
            accounts: Vec::new(),
            tokens: Vec::new(),
            costs_version,
            analysis,
            block_height: 0,
        }
    }

    /// The accounts and the balance tables are kept in the order of their names.
    #[verifier::type_invariant]
    closed spec fn inv(&self) -> bool {
        &&& strings_sorted(self.accounts@)
        &&& keys_sorted(self.tokens@)
        &&& forall|i: int| 0 <= i < self.tokens@.len() ==> keys_sorted((#[trigger] self.tokens@[i]).1@)
    }

    /// The balance of `account` in `token`, 0 where none was recorded.
    pub closed spec fn balance_spec(&self, account: Seq<char>, token: Seq<char>) -> u128 {
        match named_entry(self.tokens@, token) {
            Some(b) => match named_entry(b@, account) {
                Some(v) => v,
                None => 0,
            },
            None => 0,
        }
    }

    /// Whether a balance of `account` in `token` was recorded.
    pub closed spec fn has_balance(&self, account: Seq<char>, token: Seq<char>) -> bool {
        match named_entry(self.tokens@, token) {
            Some(b) => named_entry(b@, account) is Some,
            None => false,
        }
    }

    /// The accounts seen so far.
    pub closed spec fn accounts_spec(&self) -> Set<Seq<char>> {
        views(self.accounts@).to_set()
    }

    /// The tokens seen so far.
    pub closed spec fn tokens_spec(&self) -> Set<Seq<char>> {
        keys_of(self.tokens@).to_set()
    }

    pub closed spec fn tx_sender_spec(&self) -> StandardPrincipalData {
        self.tx_sender
    }

    pub closed spec fn block_height_spec(&self) -> u32 {
        self.block_height
    }

    pub fn set_tx_sender(&mut self, tx_sender: StandardPrincipalData)
        ensures
            final(self).tx_sender_spec() == tx_sender,
            final(self).block_height_spec() == old(self).block_height_spec(),
            final(self).analysis_spec() == old(self).analysis_spec(),
            same_balances(*old(self), *final(self)),
    {
        proof {
            use_type_invariant(&*self);
        }
        self.tx_sender = tx_sender;
    }

    pub fn get_tx_sender(&self) -> (r: StandardPrincipalData)
        ensures
            r.address@ == self.tx_sender_spec().address@,
    {
        self.tx_sender.copy()
    }

    /// Moves the chain tip `count` blocks forward (at most to the largest height), and
    /// gives the new height.
    pub fn advance_chain_tip(&mut self, count: u32) -> (r: u32)
        ensures
            r == final(self).block_height_spec(),
            r as int == if old(self).block_height_spec() + count <= u32::MAX {
                old(self).block_height_spec() + count
            } else {
                u32::MAX as int
            },
            final(self).tx_sender_spec() == old(self).tx_sender_spec(),
            final(self).analysis_spec() == old(self).analysis_spec(),
            same_balances(*old(self), *final(self)),
    {
        proof {
            use_type_invariant(&*self);
        }
        self.block_height = self.block_height.saturating_add(count);
        self.block_height
    }

    pub fn get_block_height(&self) -> (r: u32)
        ensures
            r == self.block_height_spec(),
    {
        self.block_height
    }

    /// Parses a contract's source into its syntax trees; a syntax error is reported as
    /// a diagnostic of the parser.
    pub fn build_ast(&self, contract_identifier: QualifiedContractIdentifier, snippet: &String) -> (r: Result<ContractAST, (String, Option<Diagnostic>)>)
        ensures
            r matches Ok(ast) ==> ast.contract_identifier == contract_identifier,
            r matches Err(e) ==> e.0@ == "Parser"@ && e.1 is Some,
            snippet@.len() > MAX_SOURCE_LEN ==> r is Err,
    {
        if snippet.unicode_len() > MAX_SOURCE_LEN {
            let mut spans = Vec::new();
            spans.push(Span::zero());
            let diagnostic = Diagnostic {
                level: Level::Error,
                message: String::from_str("contract source too large"),
                spans,
                suggestion: None,
            };
            return Err((String::from_str("Parser"), Some(diagnostic)));
        }
        match parse(snippet.as_str(), &contract_identifier) {
            Ok(expressions) => Ok(ContractAST { contract_identifier, expressions }),
            Err(e) => {
                let mut spans = Vec::new();
                spans.push(e.span);
                let diagnostic = Diagnostic { level: Level::Error, message: e.message, spans, suggestion: None };
                Err((String::from_str("Parser"), Some(diagnostic)))
            },
        }
    }

    /// Reads the annotations `;; #[kind]` of a contract, one per line; a line that starts
    /// like one but cannot be read gives a warning instead.
    pub fn collect_annotations(&self, ast: &ContractAST, snippet: &String) -> (r: (Vec<Annotation>, Vec<Diagnostic>))
        ensures
            forall|i: int| 0 <= i < r.1@.len() ==> (#[trigger] r.1@[i]).level == Level::Warning && r.1@[i].spans@.len() == 1
                && r.1@[i].suggestion is None,
            r.0@.len() + r.1@.len() == annotation_lines(
                crate::text::lines(snippet@),
                crate::text::lines(snippet@).len() as int,
            ),
            regex_compiles(ANNOTATION_PATTERN@) ==> annotation_views(r.0@) == annotations_found(
                crate::text::lines(snippet@),
                crate::text::lines(snippet@).len() as int,
            ),
            regex_compiles(ANNOTATION_PATTERN@) ==> warning_views(r.1@) == warnings_found(
                crate::text::lines(snippet@),
                crate::text::lines(snippet@).len() as int,
            ),
    {
        let mut annotations: Vec<Annotation> = Vec::new();
        let mut diagnostics: Vec<Diagnostic> = Vec::new();
        let lines = lines_of(snippet.as_str());
        let ghost ls = crate::text::lines(snippet@);
        let mut n: usize = 0;
        while n < lines.len()
            invariant
                n <= lines@.len(),
                views(lines@) == ls,
                forall|i: int| 0 <= i < diagnostics@.len() ==> (#[trigger] diagnostics@[i]).level == Level::Warning
                    && diagnostics@[i].spans@.len() == 1,
                annotations@.len() + diagnostics@.len() == annotation_lines(ls, n as int),
                forall|i: int| 0 <= i < diagnostics@.len() ==> (#[trigger] diagnostics@[i]).suggestion is None,
                regex_compiles(ANNOTATION_PATTERN@) ==> annotation_views(annotations@) == annotations_found(ls, n as int),
                regex_compiles(ANNOTATION_PATTERN@) ==> warning_views(diagnostics@) == warnings_found(ls, n as int),
            decreases lines.len() - n,
        {
            let ghost a0 = annotations@;
            let ghost d0 = diagnostics@;
            proof {
                assert(ls[n as int] == lines@[n as int]@);
            }
            let line = &lines[n];
            let trimmed = trim(line.as_str());
            if let Some(comment) = strip_prefix(trimmed.as_str(), ";;") {
                let comment_trimmed = trim(comment.as_str());
                if let Some(annotation_string) = strip_prefix(comment_trimmed.as_str(), "#[") {
                    let line_len = line.unicode_len();
                    let found = find_char(line.as_str(), '#');
                    let hash = match found {
                        Some(h) => h,
                        None => 0,
                    };
                    let line_number: u32 = if n < 0xffff_fffe {
                        (n + 1) as u32
                    } else {
                        0xffff_ffff
                    };
                    let start_column: u32 = if hash < 0xffff_fffe {
                        (hash + 1) as u32
                    } else {
                        0xffff_ffff
                    };
                    let end_column: u32 = if line_len < 0xffff_ffff {
                        line_len as u32
                    } else {
                        0xffff_ffff
                    };
                    let span = Span { start_line: line_number, start_column, end_line: line_number, end_column };
                    match strip_suffix(annotation_string.as_str(), "]") {
                        Some(inner) => {
                            let inner_trimmed = trim(inner.as_str());
                            match parse_annotation_kind(inner_trimmed.as_str()) {
                                Ok(kind) => annotations.push(Annotation { kind, span }),
                                Err(e) => {
                                    let mut spans = Vec::new();
                                    spans.push(span);
                                    diagnostics.push(Diagnostic { level: Level::Warning, message: e, spans, suggestion: None });
                                },
                            }
                        },
                        None => {
                            let mut spans = Vec::new();
                            spans.push(span);
                            diagnostics.push(
                                Diagnostic {
                                    level: Level::Warning,
                                    message: String::from_str("malformed annotation"),
                                    spans,
                                    suggestion: None,
                                },
                            );
                        },
                    }
                    proof {
                        let line_v = ls[n as int];
                        line_v.index_of_first_ensures('#');
                        match found {
                            Some(h) => {
                                assert(line_v.contains('#'));
                                let f = line_v.index_of_first('#')->0;
                                if f < h {
                                    assert(line_v[f] == '#');
                                } else if f > h {
                                    assert(line_v[h as int] == '#');
                                }
                            },
                            None => {
                                assert(!line_v.contains('#'));
                            },
                        }
                        assert(span == annotation_span(line_v, n as int));
                    }
                }
            }
            proof {
                if regex_compiles(ANNOTATION_PATTERN@) {
                    assert(annotation_views(annotations@) =~= annotations_found(ls, n + 1));
                    assert(warning_views(diagnostics@) =~= warnings_found(ls, n + 1));
                }
            }
            n = n + 1;
        }
        (annotations, diagnostics)
    }

    /// The contracts that a contract's source calls, uses or implements.
    pub fn detect_dependencies(&self, contract_identifier: QualifiedContractIdentifier, snippet: &String) -> (r: Result<Vec<QualifiedContractIdentifier>, String>)
        ensures
            r matches Ok(deps) ==> crate::contract_dependencies::ids_view(deps@).no_duplicates()
                && contract_call_detector::ids_sorted(crate::contract_dependencies::ids_view(deps@)),
    {
        let ast = match self.build_ast(contract_identifier, snippet) {
            Ok(ast) => ast,
            Err(e) => {
                let mut message = e.0;
                if let Some(d) = e.1 {
                    message.append(": ");
                    message.append(d.message.as_str());
                }
                return Err(message);
            },
        };
        let mut deps: Vec<QualifiedContractIdentifier> = Vec::new();
        proof {
            assert(crate::contract_dependencies::ids_view(deps@) =~= Seq::empty());
        }
        contract_call_detector::traverse(ast.expressions.as_slice(), &mut deps);
        proof {
            contract_call_detector::lemma_sorted_no_duplicates(crate::contract_dependencies::ids_view(deps@));
        }
        Ok(deps)
    }
}


/// `x` as a `u32`, or the largest `u32` where it does not fit.
pub open spec fn clip32(x: int) -> u32 {
    if 0 <= x < 0xffff_ffff {
        x as u32
    } else {
        0xffff_ffff
    }
}

/// The place of the annotation line `line`, the `n`-th from 0: the line, from the `#` (or
/// the start) to the end.
pub open spec fn annotation_span(line: Seq<char>, n: int) -> Span {
    let hash = match line.index_of_first('#') {
        Some(h) => h,
        None => 0,
    };
    Span { start_line: clip32(n + 1), start_column: clip32(hash + 1), end_line: clip32(n + 1), end_column: clip32(line.len() as int) }
}

/// What the line `line` gives, where it is an annotation line: the kind it asks for, or the
/// message of its warning.
pub open spec fn line_annotation(line: Seq<char>) -> Option<Result<AnnotationKind, Seq<char>>> {
    match annotation_body(line) {
        None => None,
        Some(body) => if crate::text::has_suffix(body, "]"@) {
            Some(
                annotation_kind_of(
                    regex_captures(
                        ANNOTATION_PATTERN@,
                        crate::text::trimmed(body.subrange(0, body.len() - "]"@.len())),
                    ),
                ),
            )
        } else {
            Some(Err("malformed annotation"@))
        },
    }
}

/// The annotations of the first `n` lines of `ls`, with their places.
pub open spec fn annotations_found(ls: Seq<Seq<char>>, n: int) -> Seq<(AnnotationKind, Span)>
    decreases n,
{
    if n <= 0 {
        Seq::empty()
    } else {
        annotations_found(ls, n - 1) + match line_annotation(ls[n - 1]) {
            Some(Ok(k)) => seq![(k, annotation_span(ls[n - 1], n - 1))],
            _ => Seq::empty(),
        }
    }
}

/// The warnings of the first `n` lines of `ls`: their messages and places.
pub open spec fn warnings_found(ls: Seq<Seq<char>>, n: int) -> Seq<(Seq<char>, Span)>
    decreases n,
{
    if n <= 0 {
        Seq::empty()
    } else {
        warnings_found(ls, n - 1) + match line_annotation(ls[n - 1]) {
            Some(Err(m)) => seq![(m, annotation_span(ls[n - 1], n - 1))],
            _ => Seq::empty(),
        }
    }
}

/// The kinds and places of annotations.
pub open spec fn annotation_views(a: Seq<Annotation>) -> Seq<(AnnotationKind, Span)> {
    a.map_values(|x: Annotation| (x.kind, x.span))
}

/// The messages and first places of diagnostics.
pub open spec fn warning_views(d: Seq<Diagnostic>) -> Seq<(Seq<char>, Span)> {
    d.map_values(|x: Diagnostic| (x.message@, x.spans@[0]))
}

/// The text after `#[` of an annotation line `;; #[...]`, if `line` is one.
pub open spec fn annotation_body(line: Seq<char>) -> Option<Seq<char>> {
    let t = crate::text::trimmed(line);
    if crate::text::has_prefix(t, ";;"@) {
        let c = crate::text::trimmed(t.subrange(";;"@.len() as int, t.len() as int));
        if crate::text::has_prefix(c, "#["@) {
            Some(c.subrange("#["@.len() as int, c.len() as int))
        } else {
            None
        }
    } else {
        None
    }
}

/// The number of annotation lines among the first `n` of `ls`.
pub open spec fn annotation_lines(ls: Seq<Seq<char>>, n: int) -> nat
    decreases n,
{
    if n <= 0 {
        0
    } else {
        annotation_lines(ls, n - 1) + if annotation_body(ls[n - 1]) is Some {
            1nat
        } else {
            0nat
        }
    }
}

/// What running a snippet gives: the contract it deployed, if it defines one, the value it
/// gave, the events it emitted, and the diagnostics of the checks.
pub struct ExecutionResult {
    pub contract: Option<QualifiedContractIdentifier>,
    /// The analysis of the contract, where the snippet is one.
    pub analysis: Option<crate::analysis::ContractAnalysis>,
    pub result: Option<String>,
    /// The value of the last expression of a snippet that is no contract, where it is written
    /// out of literals alone.
    pub value: Option<Value>,
    pub events: Vec<String>,
    pub diagnostics: Vec<Diagnostic>,
}

/// Whether the top-level expressions `exprs` define a function or a trait: what makes a
/// snippet a contract that is kept.
pub open spec fn defines_contract(exprs: Seq<SymbolicExpression>) -> bool {
    exists|i: int| 0 <= i < exprs.len() && is_code_definition(#[trigger] exprs[i])
}

/// Whether `e` is a `define-public`, `define-private`, `define-read-only` or `define-trait`.
pub open spec fn is_code_definition(e: SymbolicExpression) -> bool {
    e.is_list() && e.list().len() >= 1 && e.list()[0].is_atom() && match DefineFunctions::spec_lookup(
        e.list()[0].atom()@,
    ) {
        Some(DefineFunctions::PublicFunction) | Some(DefineFunctions::PrivateFunction) | Some(
            DefineFunctions::ReadOnlyFunction,
        ) | Some(DefineFunctions::Trait) => true,
        _ => false,
    }
}

fn code_definition(e: &SymbolicExpression) -> (r: bool)
    ensures
        r == is_code_definition(*e),
{
    match &e.expr {
        SymbolicExpressionType::List(v) => {
            if v.len() == 0 {
                return false;
            }
            match v[0].match_atom() {
                Some(name) => match DefineFunctions::lookup_by_name(name.as_str()) {
                    Some(DefineFunctions::PublicFunction) | Some(DefineFunctions::PrivateFunction) | Some(
                        DefineFunctions::ReadOnlyFunction,
                    ) | Some(DefineFunctions::Trait) => true,
                    _ => false,
                },
                None => false,
            }
        },
        _ => false,
    }
}

/// Whether the expressions define a function or a trait.
pub fn defines_code(exprs: &Vec<SymbolicExpression>) -> (r: bool)
    ensures
        r == defines_contract(exprs@),
{
    let mut i: usize = 0;
    while i < exprs.len()
        invariant
            i <= exprs@.len(),
            forall|k: int| 0 <= k < i ==> !is_code_definition(#[trigger] exprs@[k]),
        decreases exprs.len() - i,
    {
        if code_definition(&exprs[i]) {
            return true;
        }
        i = i + 1;
    }
    false
}

impl ClarityInterpreter {
    /// The names of the analysis passes that the interpreter runs.
    pub closed spec fn analysis_spec(&self) -> Seq<String> {
        self.analysis@
    }

    /// A balance that was never recorded reads as zero.
    pub proof fn lemma_unrecorded_balance(&self, account: Seq<char>, token: Seq<char>)
        ensures
            !self.has_balance(account, token) ==> self.balance_spec(account, token) == 0,
    {
    }

    /// Whether every analysis pass that the interpreter was set up with is known.
    pub fn passes_known(&self) -> (r: bool)
        ensures
            r == analysis_passes_ok(self.analysis_spec()),
    {
        crate::analysis::passes_of(&self.analysis).is_ok()
    }

    /// Runs the analyses on a parsed contract: a tree that the traversals cannot walk is
    /// refused as the checker refuses it, and then the contract call detector and the
    /// passes that the interpreter was set up with run, whose warnings it gives back.
    pub fn run_analysis(
        &mut self,
        contract_identifier: QualifiedContractIdentifier,
        contract_ast: ContractAST,
        annotations: &Vec<Annotation>,
    ) -> (r: Result<(ContractAnalysis, Vec<Diagnostic>), (String, Option<Diagnostic>)>)
        requires
            analysis_passes_ok(old(self).analysis_spec()),
        ensures
            final(self).tx_sender_spec() == old(self).tx_sender_spec(),
            final(self).block_height_spec() == old(self).block_height_spec(),
            final(self).analysis_spec() == old(self).analysis_spec(),
            same_balances(*old(self), *final(self)),
            r matches Ok(res) ==> res.0.contract_identifier == contract_identifier && res.0.expressions
                == contract_ast.expressions,
            r matches Err(e) ==> e.0@ == "Analysis"@,
            !exprs_wf(contract_ast.expressions@) ==> r is Err,
    {
        if !check_wf_exprs(&contract_ast.expressions) {
            let mut spans = Vec::new();
            spans.push(Span::zero());
            let diagnostic = Diagnostic {
                level: Level::Error,
                message: String::from_str("malformed expression"),
                spans,
                suggestion: None,
            };
            return Err((String::from_str("Analysis"), Some(diagnostic)));
        }
        let mut analysis_db = AnalysisDatabase::new();
        let mut contract_analysis = ContractAnalysis::new(contract_identifier, contract_ast.expressions);
        let settings = crate::analysis::AnalysisSettings { check_checker: crate::analysis::CheckCheckerSettings {  } };
        match run_analysis(&mut contract_analysis, &mut analysis_db, &self.analysis, annotations, settings) {
            Ok(Ok(diagnostics)) => Ok((contract_analysis, diagnostics)),
            Ok(Err(diagnostics)) => {
                // The last diagnostic is the error.
                let mut diagnostics = diagnostics;
                let error = diagnostics.pop();
                Err((String::from_str("Analysis"), error))
            },
            Err(_) => Err((String::from_str("Analysis"), None)),
        }
    }

    /// Runs a snippet through the checks: parses it, reads its annotations and runs the
    /// analyses. A snippet that defines a function or a trait is a contract. Evaluating the
    /// snippet is the work of the Clarity virtual machine, which this library does not hold:
    /// the result carries no value and no events.
    pub fn run(&mut self, snippet: &String, contract_identifier: QualifiedContractIdentifier, cost_track: bool) -> (r:
        Result<ExecutionResult, (String, Option<Diagnostic>)>)
        requires
            analysis_passes_ok(old(self).analysis_spec()),
        ensures
            final(self).tx_sender_spec() == old(self).tx_sender_spec(),
            final(self).block_height_spec() == old(self).block_height_spec(),
            final(self).analysis_spec() == old(self).analysis_spec(),
            same_balances(*old(self), *final(self)),
            r matches Ok(res) ==> res.result is None && res.events@.len() == 0 && (res.contract matches Some(c)
                ==> c@ == contract_identifier@) && (res.analysis is Some <==> res.contract is Some),
            r matches Ok(res) ==> (res.value matches Some(v) ==> res.contract is None && exists|e: SymbolicExpression|
                evaluates(e, v)),
            r matches Err(e) ==> e.0@ == "Parser"@ || e.0@ == "Analysis"@,
            snippet@.len() > MAX_SOURCE_LEN ==> r is Err,
    {
        let ast = match self.build_ast(contract_identifier.copy(), snippet) {
            Ok(ast) => ast,
            Err(e) => {
                return Err(e);
            },
        };
        let (annotations, mut diagnostics) = self.collect_annotations(&ast, snippet);
        let (analysis, mut analysis_diagnostics) = match self.run_analysis(contract_identifier.copy(), ast, &annotations) {
            Ok(res) => res,
            Err(e) => {
                return Err(e);
            },
        };
        diagnostics.append(&mut analysis_diagnostics);
        if let Some(i) = find_unresolved_call(&analysis.expressions) {
            let head = analysis.expressions[i].match_list().unwrap()[0].match_atom().unwrap();
            let mut message = String::from_str("use of unresolved function '");
            message.append(head.as_str());
            message.append("'");
            let mut spans = Vec::new();
            spans.push(analysis.expressions[i].span);
            let diagnostic = Diagnostic { level: Level::Error, message, spans, suggestion: None };
            return Err((String::from_str("Analysis"), Some(diagnostic)));
        }
        if defines_code(&analysis.expressions) {
            Ok(
                ExecutionResult {
                    contract: Some(contract_identifier),
                    analysis: Some(analysis),
                    result: None,
                    value: None,
                    events: Vec::new(),
                    diagnostics,
                },
            )
        } else {
            let n = analysis.expressions.len();
            let value = if n > 0 {
                eval_literal(&analysis.expressions[n - 1])
            } else {
                None
            };
            Ok(ExecutionResult { contract: None, analysis: None, result: None, value, events: Vec::new(), diagnostics })
        }
    }
}

/// Whether `e` calls, by a name that is neither a native function nor a definition form, a
/// function that a snippet cannot have defined.
pub open spec fn unresolved_call(e: SymbolicExpression) -> bool {
    &&& e.is_list()
    &&& e.list().len() > 0
    &&& e.list()[0].is_atom()
    &&& NativeFunctions::spec_lookup(e.list()[0].atom()@) is None
    &&& DefineFunctions::spec_lookup(e.list()[0].atom()@) is None
}

/// The place of the first top-level expression that makes an unresolved call.
pub fn find_unresolved_call(exprs: &Vec<SymbolicExpression>) -> (r: Option<usize>)
    ensures
        r matches Some(i) ==> i < exprs@.len() && unresolved_call(exprs@[i as int]) && forall|j: int|
            0 <= j < i ==> !unresolved_call(#[trigger] exprs@[j]),
        r is None ==> forall|j: int| 0 <= j < exprs@.len() ==> !unresolved_call(#[trigger] exprs@[j]),
{
    let mut i: usize = 0;
    while i < exprs.len()
        invariant
            i <= exprs@.len(),
            forall|j: int| 0 <= j < i ==> !unresolved_call(#[trigger] exprs@[j]),
        decreases exprs.len() - i,
    {
        if let Some(l) = exprs[i].match_list() {
            if l.len() > 0 {
                if let Some(head) = l[0].match_atom() {
                    if NativeFunctions::lookup_by_name(head.as_str()).is_none() && DefineFunctions::lookup_by_name(
                        head.as_str(),
                    ).is_none() {
                        return Some(i);
                    }
                }
            }
        }
        i = i + 1;
    }
    None
}

/// Whether `new` is `old` with the balance of `account` in `token` set to `value`, every
/// other balance kept, and the account and the token recorded.
pub open spec fn balance_written(old: ClarityInterpreter, new: ClarityInterpreter, account: Seq<char>, token: Seq<char>, value: u128) -> bool {
    &&& new.balance_spec(account, token) == value
    &&& new.has_balance(account, token)
    &&& forall|a: Seq<char>, t: Seq<char>|
        !(a == account && t == token) ==> #[trigger] new.balance_spec(a, t) == old.balance_spec(a, t) && new.has_balance(a, t)
            == old.has_balance(a, t)
    &&& new.accounts_spec() == old.accounts_spec().insert(account)
    &&& new.tokens_spec() == old.tokens_spec().insert(token)
    &&& new.tx_sender_spec() == old.tx_sender_spec()
    &&& new.block_height_spec() == old.block_height_spec()
    &&& new.analysis_spec() == old.analysis_spec()
}

/// What a credit of `value` leaves of a balance `b` (`None` where none was recorded).
pub open spec fn credited(b: Option<u128>, value: u128) -> int {
    match b {
        Some(v) => v + value,
        None => value as int,
    }
}

/// What a debit of `value` leaves of a balance `b`: where none was recorded, the debit
/// records `value` itself.
pub open spec fn debited(b: Option<u128>, value: u128) -> int {
    match b {
        Some(v) => v - value,
        None => value as int,
    }
}

/// A debit of what a credit added gives back the balance that was recorded.
pub proof fn debit_undoes_credit(b: u128, value: u128)
    requires
        b + value <= u128::MAX,
    ensures
        debited(Some(credited(Some(b), value) as u128), value) == b,
{
}

fn copy_balances(b: &Vec<(String, u128)>) -> (r: Vec<(String, u128)>)
    ensures
        r@.len() == b@.len(),
        forall|i: int| 0 <= i < b@.len() ==> (#[trigger] r@[i]).0@ == b@[i].0@ && r@[i].1 == b@[i].1,
{
    let mut r: Vec<(String, u128)> = Vec::new();
    let mut i: usize = 0;
    while i < b.len()
        invariant
            i <= b@.len(),
            r@.len() == i,
            forall|k: int| 0 <= k < i ==> (#[trigger] r@[k]).0@ == b@[k].0@ && r@[k].1 == b@[k].1,
        decreases b.len() - i,
    {
        r.push((b[i].0.clone(), b[i].1));
        i = i + 1;
    }
    r
}

/// Entries with the same names and values give the same lookups.
proof fn lemma_named_entry_same(a: Seq<(String, u128)>, b: Seq<(String, u128)>, key: Seq<char>)
    requires
        a.len() == b.len(),
        forall|i: int| 0 <= i < a.len() ==> (#[trigger] a[i]).0@ == b[i].0@ && a[i].1 == b[i].1,
    ensures
        named_entry(a, key) == named_entry(b, key),
    decreases a.len(),
{
    if a.len() > 0 {
        assert forall|i: int| 0 <= i < a.drop_first().len() implies (#[trigger] a.drop_first()[i]).0@ == b.drop_first()[i].0@
            && a.drop_first()[i].1 == b.drop_first()[i].1 by {
            assert(a.drop_first()[i] == a[i + 1]);
            assert(b.drop_first()[i] == b[i + 1]);
        }
        lemma_named_entry_same(a.drop_first(), b.drop_first(), key);
    }
}

impl ClarityInterpreter {
    /// Sets the balance of `account` in `token` to `value`.
    fn write_balance(&mut self, account: &str, token: &str, value: u128)
        ensures
            balance_written(*old(self), *final(self), account@, token@, value),
    {
        proof {
            use_type_invariant(&*self);
        }
        let mut accounts = Vec::new();
        std::mem::swap(&mut accounts, &mut self.accounts);
        insert_string(&mut accounts, account);
        self.accounts = accounts;
        let mut tokens: Vec<(String, Vec<(String, u128)>)> = Vec::new();
        std::mem::swap(&mut tokens, &mut self.tokens);
        let ghost old_tokens = tokens@;
        let (i, found) = find_slot(&tokens, token);
        let mut balances = if found {
            copy_balances(&tokens[i].1)
        } else {
            Vec::new()
        };
        proof {
            if found {
                assert(keys_sorted(tokens@[i as int].1@));
                assert forall|a: int, b: int| 0 <= a < b < balances@.len() implies crate::text::str_lt(
                    #[trigger] balances@[a].0@,
                    #[trigger] balances@[b].0@,
                ) by {
                    assert(balances@[a].0@ == tokens@[i as int].1@[a].0@);
                    assert(balances@[b].0@ == tokens@[i as int].1@[b].0@);
                }
                assert forall|key: Seq<char>| named_entry(balances@, key) == named_entry(tokens@[i as int].1@, key) by {
                    lemma_named_entry_same(balances@, tokens@[i as int].1@, key);
                }
            }
        }
        write_entry(&mut balances, account, value);
        write_entry(&mut tokens, token, balances);
        proof {
            assert forall|k: int| 0 <= k < tokens@.len() implies keys_sorted((#[trigger] tokens@[k]).1@) by {
                if tokens@[k].0@ != token@ {
                    crate::balances::lemma_entry_index_pub(tokens@, tokens@[k].0@, k);
                    let j = crate::balances::lemma_entry_index_pub(old_tokens, tokens@[k].0@, -1);
                    assert(old_tokens[j].1 == tokens@[k].1);
                } else {
                    crate::balances::lemma_entry_index_pub(tokens@, token@, k);
                }
            }
        }
        self.tokens = tokens;
        proof {
            assert forall|a: Seq<char>, t: Seq<char>| !(a == account@ && t == token@) implies #[trigger] self.balance_spec(a, t)
                == old(self).balance_spec(a, t) && self.has_balance(a, t) == old(self).has_balance(a, t) by {
                if t == token@ {
                    if found {
                        assert(named_entry(old_tokens, token@) == Some(old_tokens[i as int].1));
                    }
                }
            }
        }
    }

    /// Adds `value` to the balance of `account` in `token`, recording both.
    pub(crate) fn credit_token(&mut self, account: &str, token: &str, value: u128)
        requires
            credited(
                if old(self).has_balance(account@, token@) {
                    Some(old(self).balance_spec(account@, token@))
                } else {
                    None
                },
                value,
            ) <= u128::MAX,
        ensures
            balance_written(
                *old(self),
                *final(self),
                account@,
                token@,
                credited(
                    if old(self).has_balance(account@, token@) {
                        Some(old(self).balance_spec(account@, token@))
                    } else {
                        None
                    },
                    value,
                ) as u128,
            ),
    {
        let current = self.balance_of(account, token);
        let new_value = match current {
            Some(v) => v + value,
            None => value,
        };
        self.write_balance(account, token, new_value);
    }

    /// Takes `value` from the balance of `account` in `token`, recording both; where no
    /// balance was recorded, `value` is recorded.
    pub(crate) fn debit_token(&mut self, account: &str, token: &str, value: u128)
        requires
            debited(
                if old(self).has_balance(account@, token@) {
                    Some(old(self).balance_spec(account@, token@))
                } else {
                    None
                },
                value,
            ) >= 0,
        ensures
            balance_written(
                *old(self),
                *final(self),
                account@,
                token@,
                debited(
                    if old(self).has_balance(account@, token@) {
                        Some(old(self).balance_spec(account@, token@))
                    } else {
                        None
                    },
                    value,
                ) as u128,
            ),
    {
        let current = self.balance_of(account, token);
        let new_value = match current {
            Some(v) => v - value,
            None => value,
        };
        self.write_balance(account, token, new_value);
    }

    /// The recorded balance of `account` in `token`, if any.
    fn balance_of(&self, account: &str, token: &str) -> (r: Option<u128>)
        ensures
            r is Some <==> self.has_balance(account@, token@),
            r matches Some(v) ==> v == self.balance_spec(account@, token@),
    {
        proof {
            use_type_invariant(&*self);
        }
        let (i, found) = find_slot(&self.tokens, token);
        if !found {
            return None;
        }
        proof {
            assert(keys_sorted(self.tokens@[i as int].1@));
        }
        let (j, has) = find_slot(&self.tokens[i].1, account);
        if has {
            Some(self.tokens[i].1[j].1)
        } else {
            None
        }
    }

    /// The balance of `account` in `token`, 0 where none was recorded.
    pub fn get_balance_for_account(&self, account: &str, token: &str) -> (r: u128)
        ensures
            r == self.balance_spec(account@, token@),
            !self.has_balance(account@, token@) ==> r == 0,
    {
        proof {
            self.lemma_unrecorded_balance(account@, token@);
        }
        match self.balance_of(account, token) {
            Some(v) => v,
            None => 0,
        }
    }

    /// The tokens seen so far, in the order of their names.
    pub fn get_tokens(&self) -> (r: Vec<String>)
        ensures
            views(r@).to_set() == self.tokens_spec(),
            crate::balances::strings_sorted(r@),
    {
        proof {
            use_type_invariant(&*self);
        }
        let mut r: Vec<String> = Vec::new();
        let mut i: usize = 0;
        while i < self.tokens.len()
            invariant
                i <= self.tokens@.len(),
                keys_sorted(self.tokens@),
                r@.len() == i,
                forall|k: int| 0 <= k < i ==> (#[trigger] r@[k])@ == self.tokens@[k].0@,
            decreases self.tokens.len() - i,
        {
            r.push(self.tokens[i].0.clone());
            i = i + 1;
        }
        proof {
            assert(views(r@) =~= keys_of(self.tokens@));
            assert forall|a: int, b: int| 0 <= a < b < r@.len() implies crate::text::str_lt(#[trigger] r@[a]@, #[trigger] r@[b]@) by {
                assert(r@[a]@ == self.tokens@[a].0@);
                assert(r@[b]@ == self.tokens@[b].0@);
            }
        }
        r
    }

    /// The accounts seen so far, in the order of their names.
    pub fn get_accounts(&self) -> (r: Vec<String>)
        ensures
            views(r@).to_set() == self.accounts_spec(),
            crate::balances::strings_sorted(r@),
    {
        proof {
            use_type_invariant(&*self);
        }
        let mut r: Vec<String> = Vec::new();
        let mut i: usize = 0;
        while i < self.accounts.len()
            invariant
                i <= self.accounts@.len(),
                r@.len() == i,
                forall|k: int| 0 <= k < i ==> (#[trigger] r@[k])@ == self.accounts@[k]@,
            decreases self.accounts.len() - i,
        {
            r.push(self.accounts[i].clone());
            i = i + 1;
        }
        proof {
            assert(views(r@) =~= views(self.accounts@));
            assert forall|a: int, b: int| 0 <= a < b < r@.len() implies crate::text::str_lt(#[trigger] r@[a]@, #[trigger] r@[b]@) by {
                assert(r@[a]@ == self.accounts@[a]@);
                assert(r@[b]@ == self.accounts@[b]@);
            }
        }
        r
    }

    /// Every balance recorded: for each token in the order of its name, each account with
    /// its balance, in the order of the account's name.
    pub fn get_assets_maps(&self) -> (r: Vec<(String, Vec<(String, u128)>)>)
        ensures
            keys_sorted(r@),
            keys_of(r@).to_set() == self.tokens_spec(),
            forall|t: Seq<char>| #[trigger] named_entry(r@, t) is Some ==> keys_sorted(named_entry(r@, t)->0@),
            forall|t: Seq<char>, a: Seq<char>|
                #![trigger named_entry(named_entry(r@, t)->0@, a)]
                named_entry(r@, t) is Some ==> named_entry(named_entry(r@, t)->0@, a) == if self.has_balance(a, t) {
                    Some(self.balance_spec(a, t))
                } else {
                    None
                },
    {
        proof {
            use_type_invariant(&*self);
        }
        let mut r: Vec<(String, Vec<(String, u128)>)> = Vec::new();
        let mut i: usize = 0;
        while i < self.tokens.len()
            invariant
                i <= self.tokens@.len(),
                keys_sorted(self.tokens@),
                forall|k: int| 0 <= k < self.tokens@.len() ==> keys_sorted((#[trigger] self.tokens@[k]).1@),
                r@.len() == i,
                forall|k: int| 0 <= k < i ==> (#[trigger] r@[k]).0@ == self.tokens@[k].0@ && r@[k].1@.len()
                    == self.tokens@[k].1@.len() && forall|j: int| 0 <= j < r@[k].1@.len() ==> (#[trigger] r@[k].1@[j]).0@
                    == self.tokens@[k].1@[j].0@ && r@[k].1@[j].1 == self.tokens@[k].1@[j].1,
            decreases self.tokens.len() - i,
        {
            let b = copy_balances(&self.tokens[i].1);
            r.push((self.tokens[i].0.clone(), b));
            i = i + 1;
        }
        proof {
            crate::balances::lemma_copy_keyed(r@, self.tokens@);
        }
        r
    }

    /// Credits `amount` µSTX to `recipient` and says what its balance is now.
    pub fn mint_stx_balance(&mut self, recipient: &str, amount: u64) -> (r: Result<String, String>)
        requires
            credited(
                if old(self).has_balance(recipient@, "STX"@) {
                    Some(old(self).balance_spec(recipient@, "STX"@))
                } else {
                    None
                },
                amount as u128,
            ) <= u128::MAX,
        ensures
            balance_written(
                *old(self),
                *final(self),
                recipient@,
                "STX"@,
                credited(
                    if old(self).has_balance(recipient@, "STX"@) {
                        Some(old(self).balance_spec(recipient@, "STX"@))
                    } else {
                        None
                    },
                    amount as u128,
                ) as u128,
            ),
            r matches Ok(m) && m@ == "→ "@ + recipient@ + ": "@ + decimal(final(self).balance_spec(recipient@, "STX"@) as nat)
                + " µSTX"@,
            final(self).balance_spec(recipient@, "STX"@) == old(self).balance_spec(recipient@, "STX"@) + amount,
    {
        proof {
            old(self).lemma_unrecorded_balance(recipient@, "STX"@);
        }
        self.credit_token(recipient, "STX", amount as u128);
        let balance = self.get_balance_for_account(recipient, "STX");
        let mut m = String::from_str("→ ");
        m.append(recipient);
        m.append(": ");
        let d = decimal_string(balance);
        m.append(d.as_str());
        m.append(" µSTX");
        Ok(m)
    }
}

/// Whether `b` records the same accounts, tokens and balances as `a`.
pub open spec fn same_balances(a: ClarityInterpreter, b: ClarityInterpreter) -> bool {
    &&& b.accounts_spec() == a.accounts_spec()
    &&& b.tokens_spec() == a.tokens_spec()
    &&& forall|x: Seq<char>, t: Seq<char>| #[trigger] b.balance_spec(x, t) == a.balance_spec(x, t) && b.has_balance(x, t)
        == a.has_balance(x, t)
}

/// Keeping the same balances is transitive.
pub proof fn lemma_same_balances_trans(a: ClarityInterpreter, b: ClarityInterpreter, c: ClarityInterpreter)
    requires
        same_balances(a, b),
        same_balances(b, c),
    ensures
        same_balances(a, c),
{
    assert forall|x: Seq<char>, t: Seq<char>| #[trigger] c.balance_spec(x, t) == a.balance_spec(x, t) && c.has_balance(x, t)
        == a.has_balance(x, t) by {
        assert(b.balance_spec(x, t) == a.balance_spec(x, t));
        assert(c.balance_spec(x, t) == b.balance_spec(x, t));
    }
}
} // verus!
