use vstd::prelude::*;
use vstd::string::*;
use crate::analysis::{AnalysisPass, AnalysisResult, AnalysisSettings, ContractAnalysis, exprs_wf};
use crate::analysis_db::AnalysisDatabase;
use crate::annotation::{Annotation, AnnotationKind, WarningKind};
use crate::ast_visitor::{ASTVisitor, TypedVar, traverse};
use crate::diagnostic::{Diagnostic, Level};
use crate::functions::{DefineFunctions, NativeFunctions};
use crate::representations::{ClarityName, Span, SymbolicExpression, str_equals};
use crate::taint::{Node, NodeView, TaintState, insert_node};

use crate::parser::reversed;

verus! {

broadcast use vstd::std_specs::vec::group_vec_axioms;

/// The error the check checker reports: data from a caller used without a check.
pub struct CheckError;

impl CheckError {
    pub fn message(&self) -> (r: String)
        ensures
            r@ == "Use of potentially unchecked data"@,
    {
        String::from_str("Use of potentially unchecked data")
    }

    pub fn suggestion(&self) -> (r: Option<String>)
        ensures
            r is None,
    {
        None
    }
}

/// The message of the warning about a use of unchecked data.
pub open spec fn unchecked_message() -> Seq<char> {
    "use of potentially unchecked data"@
}

/// The message of the note about a source of unchecked data.
pub open spec fn source_message() -> Seq<char> {
    "source of untrusted input here"@
}

/// Whether `d` is a warning or a note of the check checker.
pub open spec fn is_check_diagnostic(d: Diagnostic) -> bool {
    ||| d.level == Level::Warning && d.message@ == unchecked_message()
    ||| d.level == Level::Note && d.message@ == source_message()
}

/// A diagnostic at one place.
pub fn diagnostic_at(level: Level, message: &str, span: Span) -> (r: Diagnostic)
    ensures
        r.level == level,
        r.message@ == message@,
        r.spans@ == seq![span],
        r.suggestion is None,
{
    let mut spans = Vec::new();
    spans.push(span);
    Diagnostic { level, message: String::from_str(message), spans, suggestion: None }
}

/// Finds data that public functions receive from their callers and use, without a check,
/// to move assets or to write the contract's state: the parameters of public functions
/// are tainted, taint flows through names and expressions, and a check (an `asserts!`,
/// the condition of an `if`, an operand of `and` / `or`) clears it.
pub struct CheckChecker<'a> {
    taint: TaintState<'a>,
    diagnostics: Vec<Diagnostic>,
    annotations: &'a Vec<Annotation>,
    annotation_index: usize,
    active_annotation: Option<usize>,
    public_funcs: Vec<&'a ClarityName>,
    user_funcs: Vec<(&'a ClarityName, Vec<bool>)>,
    /// Calls of functions not yet defined where they were met: the callee, and for each
    /// argument the diagnostics it gets if the callee's parameter must be checked (none for
    /// an argument that was not tainted).
    user_calls: Vec<(&'a ClarityName, Vec<Option<Vec<Diagnostic>>>)>,
}

/// Whether every diagnostic stored with the pending calls `calls` is one of the checker's.
pub open spec fn stored_ok<'a>(calls: Seq<(&'a ClarityName, Vec<Option<Vec<Diagnostic>>>)>) -> bool {
    forall|c: int, k: int|
        0 <= c < calls.len() && 0 <= k < calls[c].1@.len() ==> match #[trigger] calls[c].1@[k] {
            Some(ds) => forall|j: int| 0 <= j < ds@.len() ==> is_check_diagnostic(#[trigger] ds@[j]),
            None => true,
        }
}

/// Whether `new` differs from `old` only by diagnostics added after the old ones.
pub closed spec fn only_adds_diagnostics<'a>(old: CheckChecker<'a>, new: CheckChecker<'a>) -> bool {
    &&& new.taint == old.taint
    &&& new.annotations == old.annotations
    &&& new.annotation_index == old.annotation_index
    &&& new.active_annotation == old.active_annotation
    &&& new.public_funcs == old.public_funcs
    &&& new.user_funcs == old.user_funcs
    &&& new.user_calls == old.user_calls
    &&& new.diagnostics@.len() >= old.diagnostics@.len()
    &&& forall|k: int| 0 <= k < old.diagnostics@.len() ==> new.diagnostics@[k] == old.diagnostics@[k]
}

/// Whether `new` holds more diagnostics than `old`: something was reported.
pub closed spec fn reported<'a>(old: CheckChecker<'a>, new: CheckChecker<'a>) -> bool {
    new.diagnostics@.len() > old.diagnostics@.len()
}

/// Whether, among the diagnostics that `new` adds to those of `old`, there is a warning
/// about a use of unchecked data at exactly `span`.
pub closed spec fn warned_at<'a>(old: CheckChecker<'a>, new: CheckChecker<'a>, span: Span) -> bool {
    exists|i: int|
        old.diagnostics@.len() <= i < new.diagnostics@.len() && (#[trigger] new.diagnostics@[i]).level == Level::Warning
            && new.diagnostics@[i].message@ == unchecked_message() && new.diagnostics@[i].spans@ == seq![span]
}

/// A warning added between `b` and `c` is among those added between `a` and `d`, where `b`
/// only adds diagnostics to `a` and `d` only adds to `c`.
proof fn lemma_warned_within<'a>(a: CheckChecker<'a>, b: CheckChecker<'a>, c: CheckChecker<'a>, d: CheckChecker<'a>, span: Span)
    requires
        only_adds_diagnostics(a, b),
        warned_at(b, c, span),
        only_adds_diagnostics(c, d),
    ensures
        warned_at(a, d, span),
{
    let i = choose|i: int|
        b.diagnostics@.len() <= i < c.diagnostics@.len() && (#[trigger] c.diagnostics@[i]).level == Level::Warning
            && c.diagnostics@[i].message@ == unchecked_message() && c.diagnostics@[i].spans@ == seq![span];
    assert(d.diagnostics@[i] == c.diagnostics@[i]);
}

/// Adding diagnostics twice only adds diagnostics.
proof fn lemma_adds_trans<'a>(a: CheckChecker<'a>, b: CheckChecker<'a>, c: CheckChecker<'a>)
    requires
        only_adds_diagnostics(a, b),
        only_adds_diagnostics(b, c),
    ensures
        only_adds_diagnostics(a, c),
{
}

/// Doing nothing only adds nothing.
proof fn lemma_adds_nothing<'a>(a: CheckChecker<'a>)
    ensures
        only_adds_diagnostics(a, a),
{
}

/// Whether the value of `e` is tainted in `c`.
pub closed spec fn tainted_in<'a>(c: CheckChecker<'a>, e: SymbolicExpression) -> bool {
    c.taint.is_tainted(NodeView::Expr(e.id))
}

/// Whether the value of an entry of `entries` is tainted in `c`.
pub open spec fn entry_tainted_in<'a>(c: CheckChecker<'a>, entries: Seq<(Option<&'a ClarityName>, &'a SymbolicExpression)>) -> bool {
    exists|i: int| 0 <= i < entries.len() && tainted_in(c, *(#[trigger] entries[i]).1)
}

/// Whether `e` is the name `tx-sender`.
pub open spec fn is_tx_sender(e: SymbolicExpression) -> bool {
    e.is_atom() && e.atom()@ == "tx-sender"@
}

/// Whether the annotation `a` stands on the line just before `span`.
pub open spec fn annotates(a: Annotation, span: Span) -> bool {
    span.start_line >= 1 && a.span.start_line == span.start_line - 1
}

/// Whether `i` is the index of the first entry of `funcs` named `name`.
pub open spec fn first_named<'a>(funcs: Seq<(&'a ClarityName, Vec<bool>)>, name: Seq<char>, i: int) -> bool {
    &&& 0 <= i < funcs.len()
    &&& funcs[i].0@ == name
    &&& forall|k: int| 0 <= k < i ==> (#[trigger] funcs[k]).0@ != name
}

/// The first entry of a name is unique.
pub proof fn lemma_first_named_unique<'a>(funcs: Seq<(&'a ClarityName, Vec<bool>)>, name: Seq<char>, i: int, j: int)
    requires
        first_named(funcs, name, i),
        first_named(funcs, name, j),
    ensures
        i == j,
{
    if i < j {
        assert(funcs[i].0@ != name);
    } else if j < i {
        assert(funcs[j].0@ != name);
    }
}

/// Whether the parameter `i` of the private function recorded as `name` in `funcs` must
/// be given checked data.
pub open spec fn must_check<'a>(funcs: Seq<(&'a ClarityName, Vec<bool>)>, name: Seq<char>, i: int) -> bool {
    exists|k: int| first_named(funcs, name, k) && 0 <= i < funcs[k].1@.len() && !funcs[k].1@[i]
}

/// The diagnostics that the pending call of `name` with stored argument diagnostics
/// `found` gives for its first `n` arguments: those of a tainted argument, where the callee
/// is public or its parameter must be checked.
pub open spec fn arg_reports<'a>(
    publics: Seq<Seq<char>>,
    funcs: Seq<(&'a ClarityName, Vec<bool>)>,
    name: Seq<char>,
    found: Seq<Option<Vec<Diagnostic>>>,
    n: int,
) -> Seq<Diagnostic>
    decreases n,
{
    if n <= 0 || n > found.len() {
        Seq::empty()
    } else {
        arg_reports(publics, funcs, name, found, n - 1) + match found[n - 1] {
            Some(ds) => if publics.contains(name) || must_check(funcs, name, n - 1) {
                ds@
            } else {
                Seq::empty()
            },
            None => Seq::empty(),
        }
    }
}

/// The diagnostics that the first `n` pending `calls` give, in order.
pub open spec fn calls_reports<'a>(
    publics: Seq<Seq<char>>,
    funcs: Seq<(&'a ClarityName, Vec<bool>)>,
    calls: Seq<(&'a ClarityName, Vec<Option<Vec<Diagnostic>>>)>,
    n: int,
) -> Seq<Diagnostic>
    decreases n,
{
    if n <= 0 || n > calls.len() {
        Seq::empty()
    } else {
        calls_reports(publics, funcs, calls, n - 1) + arg_reports(
            publics,
            funcs,
            calls[n - 1].0@,
            calls[n - 1].1@,
            calls[n - 1].1@.len() as int,
        )
    }
}

/// Whether the node `m` is tainted in `c`.
pub closed spec fn tainted_node<'a>(c: CheckChecker<'a>, m: NodeView) -> bool {
    c.taint.is_tainted(m)
}

/// Whether `new` differs from `old` in its taint alone.
pub closed spec fn same_but_taint<'a>(old: CheckChecker<'a>, new: CheckChecker<'a>) -> bool {
    &&& new.diagnostics == old.diagnostics
    &&& new.annotations == old.annotations
    &&& new.annotation_index == old.annotation_index
    &&& new.active_annotation == old.active_annotation
    &&& new.public_funcs == old.public_funcs
    &&& new.user_funcs == old.user_funcs
    &&& new.user_calls == old.user_calls
}

/// The names of the public and read-only functions recorded in `c`.
pub closed spec fn public_names_of<'a>(c: CheckChecker<'a>) -> Seq<Seq<char>> {
    c.public_names()
}

/// Whether the list `l` is a definition or a `let`, whose taint is kept by other hooks.
pub open spec fn own_taint_list(l: Seq<SymbolicExpression>) -> bool {
    &&& l.len() > 0
    &&& l[0].is_atom()
    &&& (DefineFunctions::spec_lookup(l[0].atom()@) is Some || NativeFunctions::spec_lookup(l[0].atom()@)
        == Some(NativeFunctions::Let))
}

/// Whether `m` is the name of one of the parameters `params`.
pub open spec fn is_param<'a>(params: Seq<TypedVar<'a>>, m: NodeView) -> bool {
    exists|j: int| 0 <= j < params.len() && NodeView::Symbol((#[trigger] params[j]).name@) == m
}

/// The parameters up to `i + 1` are those up to `i` and the parameter `i`.
pub proof fn lemma_is_param_push<'a>(params: Seq<TypedVar<'a>>, i: int)
    requires
        0 <= i < params.len(),
    ensures
        forall|m: NodeView| is_param(params.subrange(0, i + 1), m) == (is_param(params.subrange(0, i), m)
            || m == NodeView::Symbol(params[i].name@)),
{
    let a = params.subrange(0, i);
    let b = params.subrange(0, i + 1);
    assert forall|m: NodeView| is_param(b, m) == (is_param(a, m) || m == NodeView::Symbol(params[i].name@)) by {
        assert(b[i] == params[i]);
        if is_param(a, m) {
            let w = choose|w: int| 0 <= w < a.len() && NodeView::Symbol((#[trigger] a[w]).name@) == m;
            assert(b[w] == a[w]);
        }
        if is_param(b, m) {
            let w = choose|w: int| 0 <= w < b.len() && NodeView::Symbol((#[trigger] b[w]).name@) == m;
            if w < i {
                assert(b[w] == a[w]);
            }
        }
    }
}

/// Whether one of the `bindings` binds the name `m`.
pub open spec fn bound_by<'a>(bindings: Seq<(&'a ClarityName, &'a SymbolicExpression)>, m: NodeView) -> bool {
    exists|j: int| 0 <= j < bindings.len() && NodeView::Symbol((#[trigger] bindings[j]).0@) == m
}

/// Whether the active annotation of `c` allows unchecked parameters.
pub closed spec fn allows_unchecked_params<'a>(c: CheckChecker<'a>) -> bool {
    c.active_annotation matches Some(i) && c.annotations@[i as int].kind == AnnotationKind::Allow(
        WarningKind::UncheckedParams,
    )
}

/// Whether the private function `name` is recorded in `c`.
pub closed spec fn known_callee<'a>(c: CheckChecker<'a>, name: Seq<char>) -> bool {
    has_named(c.user_funcs@, name)
}

/// Whether the parameter `i` of the private function `name` recorded in `c` must be given
/// checked data.
pub closed spec fn must_check_in<'a>(c: CheckChecker<'a>, name: Seq<char>, i: int) -> bool {
    must_check(c.user_funcs@, name, i)
}

/// Whether `new` is `old` with a call of `name` on `args` queued, to be checked once `name`
/// is defined: each argument carries diagnostics exactly where it is tainted.
pub closed spec fn queues_call<'a>(old: CheckChecker<'a>, new: CheckChecker<'a>, name: Seq<char>, args: Seq<SymbolicExpression>) -> bool {
    &&& new.diagnostics == old.diagnostics
    &&& new.taint == old.taint
    &&& new.user_funcs == old.user_funcs
    &&& new.public_funcs == old.public_funcs
    &&& new.user_calls@.len() == old.user_calls@.len() + 1
    &&& forall|c: int| 0 <= c < old.user_calls@.len() ==> new.user_calls@[c] == old.user_calls@[c]
    &&& new.user_calls@.last().0@ == name
    &&& new.user_calls@.last().1@.len() == args.len()
    &&& forall|i: int| 0 <= i < args.len() ==> ((#[trigger] new.user_calls@.last().1@[i]) is Some
        <==> tainted_in(old, args[i]))
}

/// Whether some entry of `funcs` is named `name`.
pub open spec fn has_named<'a>(funcs: Seq<(&'a ClarityName, Vec<bool>)>, name: Seq<char>) -> bool {
    exists|i: int| 0 <= i < funcs.len() && (#[trigger] funcs[i]).0@ == name
}

impl<'a> CheckChecker<'a> {
    /// The names of the public and read-only functions seen so far, in order.
    pub closed spec fn public_names(&self) -> Seq<Seq<char>> {
        self.public_funcs@.map_values(|n: &ClarityName| n@)
    }

    pub closed spec fn state_ok(&self) -> bool {
        &&& self.annotation_index <= self.annotations@.len()
        &&& self.active_annotation matches Some(i) ==> i < self.annotations@.len()
        &&& forall|i: int| 0 <= i < self.diagnostics@.len() ==> is_check_diagnostic(#[trigger] self.diagnostics@[i])
        &&& stored_ok(self.user_calls@)
    }

    pub closed spec fn diagnostics_spec(&self) -> Seq<Diagnostic> {
        self.diagnostics@
    }

    fn new(annotations: &'a Vec<Annotation>) -> (r: CheckChecker<'a>)
        ensures
            r.state_ok(),
            r.diagnostics_spec().len() == 0,
    {
        CheckChecker {
            taint: TaintState::new(),
            diagnostics: Vec::new(),
            annotations,
            annotation_index: 0,
            active_annotation: None,
            public_funcs: Vec::new(),
            user_funcs: Vec::new(),
            user_calls: Vec::new(),
        }
    }

    /// Walks the contract, then checks the calls of functions defined after their callers.
    fn run(self, expressions: &'a Vec<SymbolicExpression>) -> (r: Vec<Diagnostic>)
        requires
            self.state_ok(),
            exprs_wf(expressions@),
        ensures
            forall|i: int| 0 <= i < r@.len() ==> is_check_diagnostic(#[trigger] r@[i]),
    {
        let mut checker = self;
        traverse(&mut checker, expressions.as_slice());
        checker.check_user_calls();
        checker.diagnostics
    }

    /// Makes the annotation of the line before `span` the active one, if there is one;
    /// annotations are met in the order of the source.
    fn process_annotations(&mut self, span: &Span)
        requires
            old(self).state_ok(),
        ensures
            final(self).state_ok(),
            final(self).diagnostics == old(self).diagnostics,
            final(self).annotations == old(self).annotations,
            final(self).taint == old(self).taint,
            final(self).public_funcs == old(self).public_funcs,
            final(self).user_funcs == old(self).user_funcs,
            final(self).user_calls == old(self).user_calls,
            old(self).annotation_index <= final(self).annotation_index <= old(self).annotations@.len(),
            forall|k: int|
                old(self).annotation_index <= k < final(self).annotation_index ==> !annotates(
                    #[trigger] old(self).annotations@[k],
                    *span,
                ) && old(self).annotations@[k].span.start_line < span.start_line,
            final(self).annotation_index < old(self).annotations@.len() ==> annotates(
                old(self).annotations@[final(self).annotation_index as int],
                *span,
            ) || old(self).annotations@[final(self).annotation_index as int].span.start_line
                >= span.start_line,
            final(self).active_annotation == if final(self).annotation_index
                < old(self).annotations@.len() && annotates(
                old(self).annotations@[final(self).annotation_index as int],
                *span,
            ) {
                Some(final(self).annotation_index)
            } else {
                None
            },
    {
        self.active_annotation = None;
        while self.annotation_index < self.annotations.len()
            invariant
                self.state_ok(),
                self.diagnostics == old(self).diagnostics,
                self.annotations == old(self).annotations,
                self.taint == old(self).taint,
                self.public_funcs == old(self).public_funcs,
                self.user_funcs == old(self).user_funcs,
                self.user_calls == old(self).user_calls,
                self.active_annotation is None,
                old(self).annotation_index <= self.annotation_index <= old(self).annotations@.len(),
                forall|k: int|
                    old(self).annotation_index <= k < self.annotation_index ==> !annotates(
                        #[trigger] old(self).annotations@[k],
                        *span,
                    ) && old(self).annotations@[k].span.start_line < span.start_line,
            decreases self.annotations@.len() - self.annotation_index,
        {
            let annotation = &self.annotations[self.annotation_index];
            if span.start_line >= 1 && annotation.span.start_line == span.start_line - 1 {
                self.active_annotation = Some(self.annotation_index);
                return;
            } else if annotation.span.start_line >= span.start_line {
                return;
            }
            self.annotation_index = self.annotation_index + 1;
        }
    }

    /// Whether the active annotation allows unchecked data.
    fn allow_unchecked_data(&self) -> (r: bool)
        requires
            self.state_ok(),
        ensures
            r == (self.active_annotation matches Some(i) && self.annotations@[i as int].kind
                == AnnotationKind::Allow(WarningKind::UncheckedData)),
    {
        if let Some(idx) = self.active_annotation {
            return match self.annotations[idx].kind {
                AnnotationKind::Allow(WarningKind::UncheckedData) => true,
                _ => false,
            };
        }
        false
    }

    /// Whether the active annotation allows unchecked parameters.
    fn allow_unchecked_params(&self) -> (r: bool)
        requires
            self.state_ok(),
        ensures
            r == (self.active_annotation matches Some(i) && self.annotations@[i as int].kind
                == AnnotationKind::Allow(WarningKind::UncheckedParams)),
    {
        if let Some(idx) = self.active_annotation {
            return match self.annotations[idx].kind {
                AnnotationKind::Allow(WarningKind::UncheckedParams) => true,
                _ => false,
            };
        }
        false
    }

    /// The warning about `expr`, then a note for each source of its taint, in order.
    fn generate_diagnostics(&self, expr: &SymbolicExpression) -> (r: Vec<Diagnostic>)
        ensures
            r@.len() >= 1,
            r@[0].level == Level::Warning && r@[0].spans@ == seq![expr.span],
            r@[0].message@ == unchecked_message(),
            forall|i: int| 0 <= i < r@.len() ==> is_check_diagnostic(#[trigger] r@[i]),
    {
        let mut diagnostics: Vec<Diagnostic> = Vec::new();
        diagnostics.push(diagnostic_at(Level::Warning, "use of potentially unchecked data", expr.span));
        let spans = self.taint.source_spans(expr);
        let mut i: usize = 0;
        while i < spans.len()
            invariant
                i <= spans@.len(),
                diagnostics@.len() >= 1,
                diagnostics@[0].level == Level::Warning && diagnostics@[0].spans@ == seq![expr.span],
                forall|k: int| 0 <= k < diagnostics@.len() ==> is_check_diagnostic(#[trigger] diagnostics@[k]),
            decreases spans.len() - i,
        {
            diagnostics.push(diagnostic_at(Level::Note, "source of untrusted input here", spans[i]));
            i = i + 1;
        }
        diagnostics
    }

    /// Reports `expr` if it is tainted.
    fn taint_check(&mut self, expr: &SymbolicExpression)
        requires
            old(self).state_ok(),
        ensures
            final(self).state_ok(),
            old(self).taint.is_tainted(NodeView::Expr(expr.id)) ==> final(self).diagnostics@.len() > old(self).diagnostics@.len(),
            !old(self).taint.is_tainted(NodeView::Expr(expr.id)) ==> final(self).diagnostics == old(self).diagnostics,
            final(self).user_calls == old(self).user_calls,
            final(self).user_funcs == old(self).user_funcs,
            final(self).public_funcs == old(self).public_funcs,
            only_adds_diagnostics(*old(self), *final(self)),
            reported(*old(self), *final(self)) == tainted_in(*old(self), *expr),
            tainted_in(*old(self), *expr) ==> warned_at(*old(self), *final(self), expr.span),
    {
        if self.taint.tainted(&Node::Expr(expr.id)) {
            let mut found = self.generate_diagnostics(expr);
            let ghost before = self.diagnostics@;
            let ghost added = found@;
            self.diagnostics.append(&mut found);
            proof {
                assert(self.diagnostics@[before.len() as int] == added[0]);
                assert forall|i: int| 0 <= i < self.diagnostics@.len() implies is_check_diagnostic(#[trigger] self.diagnostics@[i]) by {
                    if i < before.len() {
                        assert(self.diagnostics@[i] == before[i]);
                    } else {
                        assert(self.diagnostics@[i] == added[i - before.len()]);
                    }
                }
            }
        }
    }

    /// Whether `name` is a public or read-only function seen so far.
    fn is_public(&self, name: &ClarityName) -> (r: bool)
        ensures
            r == self.public_names().contains(name@),
    {
        let mut i: usize = 0;
        while i < self.public_funcs.len()
            invariant
                i <= self.public_funcs@.len(),
                forall|k: int| 0 <= k < i ==> (#[trigger] self.public_funcs@[k])@ != name@,
            decreases self.public_funcs.len() - i,
        {
            if str_equals(self.public_funcs[i].as_str(), name.as_str()) {
                proof {
                    assert(self.public_names()[i as int] == name@);
                }
                return true;
            }
            i = i + 1;
        }
        proof {
            assert forall|k: int| 0 <= k < self.public_names().len() implies self.public_names()[k] != name@ by {
                assert(self.public_funcs@[k]@ != name@);
            }
        }
        false
    }

    /// Records `name` as a public or read-only function.
    fn add_public(&mut self, name: &'a ClarityName)
        requires
            old(self).state_ok(),
        ensures
            final(self).state_ok(),
            final(self).public_names() == if old(self).public_names().contains(name@) {
                old(self).public_names()
            } else {
                old(self).public_names().push(name@)
            },
            final(self).diagnostics == old(self).diagnostics,
            final(self).user_funcs == old(self).user_funcs,
            final(self).user_calls == old(self).user_calls,
            final(self).taint == old(self).taint,
    {
        if !self.is_public(name) {
            self.public_funcs.push(name);
        }
    }

    /// Which parameters of the private function `name` may take unchecked data.
    fn user_func(&self, name: &ClarityName) -> (r: Option<&Vec<bool>>)
        ensures
            r is None <==> !has_named(self.user_funcs@, name@),
            r matches Some(u) ==> exists|i: int| first_named(self.user_funcs@, name@, i) && *u == self.user_funcs@[i].1,
    {
        let mut i: usize = 0;
        while i < self.user_funcs.len()
            invariant
                i <= self.user_funcs@.len(),
                forall|k: int| 0 <= k < i ==> (#[trigger] self.user_funcs@[k]).0@ != name@,
            decreases self.user_funcs.len() - i,
        {
            if str_equals(self.user_funcs[i].0.as_str(), name.as_str()) {
                proof {
                    assert(first_named(self.user_funcs@, name@, i as int));
                }
                return Some(&self.user_funcs[i].1);
            }
            i = i + 1;
        }
        None
    }

    /// Records which parameters of the private function `name` may take unchecked data.
    fn set_user_func(&mut self, name: &'a ClarityName, unchecked: Vec<bool>)
        requires
            old(self).state_ok(),
        ensures
            final(self).state_ok(),
            has_named(old(self).user_funcs@, name@) ==> exists|i: int|
                first_named(old(self).user_funcs@, name@, i) && final(self).user_funcs@
                    == old(self).user_funcs@.update(i, (name, unchecked)),
            !has_named(old(self).user_funcs@, name@) ==> final(self).user_funcs@
                == old(self).user_funcs@.push((name, unchecked)),
            final(self).diagnostics == old(self).diagnostics,
            final(self).public_funcs == old(self).public_funcs,
            final(self).user_calls == old(self).user_calls,
            final(self).taint == old(self).taint,
    {
        let mut i: usize = 0;
        while i < self.user_funcs.len()
            invariant
                self.state_ok(),
                *self == *old(self),
                i <= self.user_funcs@.len(),
                forall|k: int| 0 <= k < i ==> (#[trigger] self.user_funcs@[k]).0@ != name@,
            decreases self.user_funcs.len() - i,
        {
            if str_equals(self.user_funcs[i].0.as_str(), name.as_str()) {
                proof {
                    assert(first_named(old(self).user_funcs@, name@, i as int));
                }
                let mut entry = (name, unchecked);
                std::mem::swap(&mut entry, &mut self.user_funcs[i]);
                return;
            }
            i = i + 1;
        }
        self.user_funcs.push((name, unchecked));
    }

    /// Checks the calls of private functions that were met before the function was
    /// defined, now that its parameters are known.
    /// Checks the calls met before their callee was defined: a tainted argument of such a
    /// call is reported where the callee is public, or where the callee's parameter must be
    /// checked.
    #[verifier::spinoff_prover]
    #[verifier::rlimit(40)]
    fn check_user_calls(&mut self)
        requires
            old(self).state_ok(),
        ensures
            final(self).state_ok(),
            final(self).user_calls@.len() == 0,
            final(self).taint == old(self).taint,
            final(self).public_funcs == old(self).public_funcs,
            final(self).user_funcs == old(self).user_funcs,
            final(self).diagnostics@ == old(self).diagnostics@ + calls_reports(
                old(self).public_names(),
                old(self).user_funcs@,
                old(self).user_calls@,
                old(self).user_calls@.len() as int,
            ),
    {
        let ghost pubs = old(self).public_names();
        let ghost funcs = old(self).user_funcs@;
        let ghost base = old(self).diagnostics@;
        let mut calls: Vec<(&'a ClarityName, Vec<Option<Vec<Diagnostic>>>)> = Vec::new();
        std::mem::swap(&mut calls, &mut self.user_calls);
        let ghost stored = calls@;
        let mut pending = reversed(calls);
        proof {
            assert forall|c: int, k: int|
                0 <= c < pending@.len() && 0 <= k < pending@[c].1@.len() implies match #[trigger] pending@[c].1@[k] {
                Some(ds) => forall|j: int| 0 <= j < ds@.len() ==> is_check_diagnostic(#[trigger] ds@[j]),
                None => true,
            } by {
                assert(pending@[c] == stored[stored.len() - 1 - c]);
            }
            assert(base + calls_reports(pubs, funcs, stored, 0) =~= base);
        }
        while pending.len() > 0
            invariant
                self.state_ok(),
                stored_ok(pending@),
                pending@.len() <= stored.len(),
                forall|c: int| 0 <= c < pending@.len() ==> #[trigger] pending@[c] == stored[stored.len() - 1 - c],
                pubs == old(self).public_names(),
                funcs == old(self).user_funcs@,
                base == old(self).diagnostics@,
                stored == old(self).user_calls@,
                self.public_funcs == old(self).public_funcs,
                self.user_funcs == old(self).user_funcs,
                self.taint == old(self).taint,
                self.user_calls@.len() == 0,
                self.diagnostics@ == base + calls_reports(pubs, funcs, stored, stored.len() - pending@.len()),
            decreases pending@.len(),
        {
            let ghost before_pop = pending@;
            let ghost processed = stored.len() - before_pop.len();
            let (name, found) = pending.pop().unwrap();
            proof {
                assert(before_pop[before_pop.len() - 1] == stored[processed]);
                assert forall|k: int| 0 <= k < found@.len() implies match #[trigger] found@[k] {
                    Some(ds) => forall|j: int| 0 <= j < ds@.len() ==> is_check_diagnostic(#[trigger] ds@[j]),
                    None => true,
                } by {
                    assert(found@[k] == before_pop[before_pop.len() - 1].1@[k]);
                }
                assert forall|c: int, k: int|
                    0 <= c < pending@.len() && 0 <= k < pending@[c].1@.len() implies match #[trigger] pending@[c].1@[k] {
                    Some(ds) => forall|j: int| 0 <= j < ds@.len() ==> is_check_diagnostic(#[trigger] ds@[j]),
                    None => true,
                } by {
                    assert(pending@[c] == before_pop[c]);
                }
                assert forall|c: int| 0 <= c < pending@.len() implies #[trigger] pending@[c] == stored[stored.len() - 1 - c] by {
                    assert(pending@[c] == before_pop[c]);
                }
            }
            let public = self.is_public(name);
            let params: Vec<bool> = if public {
                Vec::new()
            } else {
                match self.user_func(name) {
                    Some(p) => {
                        let mut copy: Vec<bool> = Vec::new();
                        let mut k: usize = 0;
                        while k < p.len()
                            invariant
                                k <= p@.len(),
                                copy@ == p@.subrange(0, k as int),
                            decreases p.len() - k,
                        {
                            copy.push(p[k]);
                            k = k + 1;
                        }
                        proof {
                            assert(p@.subrange(0, p@.len() as int) =~= p@);
                            let fk = choose|fk: int| first_named(funcs, name@, fk) && *p == funcs[fk].1;
                            assert forall|k2: int| first_named(funcs, name@, k2) implies k2 == fk by {
                                lemma_first_named_unique(funcs, name@, k2, fk);
                            }
                            assert forall|a: int| #[trigger] must_check(funcs, name@, a) == (0 <= a < copy@.len() && !copy@[a]) by {}
                        }
                        copy
                    },
                    None => Vec::new(),
                }
            };
            proof {
                assert forall|a: int| 0 <= a implies (#[trigger] must_check(funcs, name@, a) || pubs.contains(name@)) == (
                    public || (a < params@.len() && !params@[a])) by {}
            }
            let ghost found_seq = found@;
            let ghost base2 = self.diagnostics@;
            proof {
                assert(found@.len() == found.len());
                assert(base2 + arg_reports(pubs, funcs, name@, found_seq, 0) =~= base2);
            }
            let mut args = reversed(found);
            let mut i: usize = 0;
            while args.len() > 0
                invariant
                    self.state_ok(),
                    stored_ok(pending@),
                    args@.len() + i == found_seq.len(),
                    found_seq.len() <= usize::MAX,
                    forall|k: int| 0 <= k < args@.len() ==> #[trigger] args@[k] == found_seq[found_seq.len() - 1 - k],
                    forall|k: int| 0 <= k < found_seq.len() ==> match #[trigger] found_seq[k] {
                        Some(ds) => forall|j: int| 0 <= j < ds@.len() ==> is_check_diagnostic(#[trigger] ds@[j]),
                        None => true,
                    },
                    forall|a: int| 0 <= a ==> (#[trigger] must_check(funcs, name@, a) || pubs.contains(name@)) == (
                        public || (a < params@.len() && !params@[a])),
                    self.public_funcs == old(self).public_funcs,
                    self.user_funcs == old(self).user_funcs,
                    self.taint == old(self).taint,
                    self.user_calls@.len() == 0,
                    self.diagnostics@ == base2 + arg_reports(pubs, funcs, name@, found_seq, i as int),
                decreases args@.len(),
            {
                let arg = args.pop().unwrap();
                proof {
                    assert(arg == found_seq[found_seq.len() - 1 - args@.len()]);
                    assert(arg == found_seq[i as int]);
                    assert((must_check(funcs, name@, i as int) || pubs.contains(name@)) == (public || (i < params@.len()
                        && !params@[i as int])));
                }
                if let Some(mut ds) = arg {
                    if public || (i < params.len() && !params[i]) {
                        let ghost before = self.diagnostics@;
                        let ghost added = ds@;
                        self.diagnostics.append(&mut ds);
                        proof {
                            assert forall|k: int| 0 <= k < self.diagnostics@.len() implies is_check_diagnostic(
                                #[trigger] self.diagnostics@[k],
                            ) by {
                                if k < before.len() {
                                    assert(self.diagnostics@[k] == before[k]);
                                } else {
                                    assert(self.diagnostics@[k] == added[k - before.len()]);
                                }
                            }
                        }
                    }
                }
                proof {
                    assert(self.diagnostics@ =~= base2 + arg_reports(pubs, funcs, name@, found_seq, i + 1));
                }
                i = i + 1;
            }
            proof {
                assert(stored[processed].0@ == name@);
                assert(stored[processed].1@ == found_seq);
                assert(self.diagnostics@ =~= base + calls_reports(pubs, funcs, stored, processed + 1));
            }
        }
    }

    /// Taints the parameters of a function, each a source of taint where it is declared.
    fn taint_parameters(&mut self, params: &Vec<TypedVar<'a>>)
        requires
            old(self).state_ok(),
        ensures
            final(self).state_ok(),
            forall|i: int| 0 <= i < params@.len() ==> #[trigger] final(self).taint.is_tainted(NodeView::Symbol(params@[i].name@)),
            same_but_taint(*old(self), *final(self)),
            forall|m: NodeView| #[trigger] tainted_node(*final(self), m) == (tainted_node(*old(self), m)
                || is_param(params@, m)),
    {
        let mut i: usize = 0;
        while i < params.len()
            invariant
                i <= params@.len(),
                self.state_ok(),
                forall|k: int| 0 <= k < i ==> #[trigger] self.taint.is_tainted(NodeView::Symbol(params@[k].name@)),
                same_but_taint(*old(self), *self),
                forall|m: NodeView| #[trigger] tainted_node(*self, m) == (tainted_node(*old(self), m)
                    || is_param(params@.subrange(0, i as int), m)),
            decreases params.len() - i,
        {
            let ghost prev = *self;
            self.taint.add_taint_source(Node::Symbol(params[i].name), params[i].decl_span);
            proof {
                let a = params@.subrange(0, i as int);
                let b = params@.subrange(0, i + 1);
                lemma_is_param_push(params@, i as int);
                assert forall|m: NodeView| #[trigger] tainted_node(*self, m) == (tainted_node(*old(self), m) || is_param(b, m)) by {
                    assert(tainted_node(prev, m) == (tainted_node(*old(self), m) || is_param(a, m)));
                }
            }
            i = i + 1;
        }
        proof {
            assert(params@.subrange(0, params@.len() as int) =~= params@);
        }
    }
}

impl<'a> ASTVisitor<'a> for CheckChecker<'a> {
    type Frame = ();

    closed spec fn inv(&self) -> bool {
        self.state_ok()
    }

    open spec fn always_continues() -> bool {
        true
    }

    closed spec fn frame(&self) -> () {
        ()
    }

    // An expression annotated to allow unchecked data is not traversed.
    fn skip_expr(&mut self, expr: &'a SymbolicExpression) -> (r: bool) {
        self.process_annotations(&expr.span);
        self.allow_unchecked_data()
    }

    // Upon entering a public function, all parameters are tainted.
    fn enter_define_public(&mut self, expr: &'a SymbolicExpression, name: &'a ClarityName, parameters: &Option<Vec<TypedVar<'a>>>)
        ensures
            public_names_of(*final(self)) == if public_names_of(*old(self)).contains(name@) {
                public_names_of(*old(self))
            } else {
                public_names_of(*old(self)).push(name@)
            },
            final(self).diagnostics_spec() == old(self).diagnostics_spec(),
            forall|m: NodeView| #[trigger] tainted_node(*final(self), m) == match parameters {
                Some(params) => is_param(params@, m),
                None => false,
            },
    {
        self.add_public(name);
        self.taint.clear();
        if let Some(params) = parameters {
            self.taint_parameters(params);
        }
    }

    fn visit_define_read_only(&mut self, expr: &'a SymbolicExpression, name: &'a ClarityName, parameters: Option<Vec<TypedVar<'a>>>, body: &'a SymbolicExpression) -> (r: bool) {
        self.add_public(name);
        true
    }

    // Upon entering a private function, parameters are considered checked, unless the
    // function is annotated to allow unchecked parameters.
    fn enter_define_private(&mut self, expr: &'a SymbolicExpression, name: &'a ClarityName, parameters: &Option<Vec<TypedVar<'a>>>)
        ensures
            final(self).diagnostics_spec() == old(self).diagnostics_spec(),
            public_names_of(*final(self)) == public_names_of(*old(self)),
            forall|m: NodeView| #[trigger] tainted_node(*final(self), m) == match parameters {
                Some(params) => allows_unchecked_params(*old(self)) && is_param(params@, m),
                None => false,
            },
            parameters is None ==> forall|n: Seq<char>| #[trigger] known_callee(*final(self), n) == known_callee(*old(self), n),
            parameters matches Some(params) ==> known_callee(*final(self), name@) && forall|i: int|
                0 <= i < params@.len() ==> #[trigger] must_check_in(*final(self), name@, i)
                    == !allows_unchecked_params(*old(self)),
    {
        self.taint.clear();
        if let Some(params) = parameters {
            let allow = self.allow_unchecked_params();
            let ghost cleared = *self;
            let mut unchecked_params: Vec<bool> = Vec::new();
            let mut i: usize = 0;
            while i < params.len()
                invariant
                    i <= params@.len(),
                    self.state_ok(),
                    unchecked_params@.len() == i,
                    forall|k: int| 0 <= k < i ==> #[trigger] unchecked_params@[k] == allow,
                    same_but_taint(cleared, *self),
                    forall|m: NodeView| #[trigger] tainted_node(*self, m) == (allow && is_param(
                        params@.subrange(0, i as int),
                        m,
                    )),
                decreases params.len() - i,
            {
                let ghost prev = *self;
                unchecked_params.push(allow);
                if allow {
                    self.taint.add_taint_source(Node::Symbol(params[i].name), params[i].decl_span);
                }
                proof {
                    lemma_is_param_push(params@, i as int);
                    assert forall|m: NodeView| #[trigger] tainted_node(*self, m) == (allow && is_param(params@.subrange(0, i + 1), m)) by {
                        assert(tainted_node(prev, m) == (allow && is_param(params@.subrange(0, i as int), m)));
                    }
                }
                i = i + 1;
            }
            proof {
                assert(params@.subrange(0, params@.len() as int) =~= params@);
            }
            let ghost before = self.user_funcs@;
            let ghost flags = unchecked_params@;
            let ghost pre = *self;
            self.set_user_func(name, unchecked_params);
            proof {
                assert(allow == allows_unchecked_params(*old(self)));
                assert forall|m: NodeView| #[trigger] tainted_node(*self, m) == (allows_unchecked_params(*old(self))
                    && is_param(params@, m)) by {
                    assert(tainted_node(pre, m) == (allow && is_param(params@, m)));
                }
                let after = self.user_funcs@;
                if has_named(before, name@) {
                    let k = choose|k: int| first_named(before, name@, k) && after == before.update(k, (name, unchecked_params));
                    assert(first_named(after, name@, k)) by {
                        assert forall|j: int| 0 <= j < k implies (#[trigger] after[j]).0@ != name@ by {
                            assert(after[j] == before[j]);
                        }
                    }
                    assert forall|k2: int| first_named(after, name@, k2) implies k2 == k by {
                        lemma_first_named_unique(after, name@, k2, k);
                    }
                    assert(after[k].1@ == flags);
                } else {
                    let k = before.len() as int;
                    assert(first_named(after, name@, k)) by {
                        assert forall|j: int| 0 <= j < k implies (#[trigger] after[j]).0@ != name@ by {
                            assert(after[j] == before[j]);
                        }
                    }
                    assert forall|k2: int| first_named(after, name@, k2) implies k2 == k by {
                        lemma_first_named_unique(after, name@, k2, k);
                    }
                    assert(after[k].1@ == flags);
                }
                assert(known_callee(*self, name@));
            }
        }
    }

    fn visit_if_condition(&mut self, expr: &'a SymbolicExpression, cond: &'a SymbolicExpression) -> (r: bool) {
        self.taint.filter_taint(cond);
        true
    }

    fn visit_lazy_operand(&mut self, expr: &'a SymbolicExpression, operand: &'a SymbolicExpression) -> (r: bool) {
        self.taint.filter_taint(operand);
        true
    }

    // A name bound to tainted data is tainted by the same sources, and is itself a
    // source at the `let`.
    fn visit_let_binding(&mut self, expr: &'a SymbolicExpression, name: &'a ClarityName, value: &'a SymbolicExpression) -> (r: bool)
        ensures
            same_but_taint(*old(self), *final(self)),
            forall|m: NodeView| #[trigger] tainted_node(*final(self), m) == (tainted_node(*old(self), m) || (m
                == NodeView::Symbol(name@) && tainted_node(*old(self), NodeView::Expr(value.id)))),
    {
        if let Some(sources) = self.taint.sources_of(&Node::Expr(value.id)) {
            self.taint.add_taint_source(Node::Symbol(name), expr.span);
            self.taint.add_tainted(Node::Symbol(name), sources);
        }
        true
    }

    // The `let` is tainted as its last body expression is; its names go out of scope.
    fn visit_let(&mut self, expr: &'a SymbolicExpression, bindings: &Vec<(&'a ClarityName, &'a SymbolicExpression)>, body: &'a [SymbolicExpression]) -> (r: bool)
        ensures
            same_but_taint(*old(self), *final(self)),
            forall|m: NodeView| #[trigger] tainted_node(*final(self), m) == ((tainted_node(*old(self), m) || (m
                == NodeView::Expr(expr.id) && body@.len() > 0 && tainted_node(
                *old(self),
                NodeView::Expr(body@.last().id),
            ))) && !bound_by(bindings@, m)),
    {
        if body.len() > 0 {
            if let Some(sources) = self.taint.sources_of(&Node::Expr(body[body.len() - 1].id)) {
                self.taint.add_tainted_expr(expr, sources);
            }
        }
        let ghost mid = *self;
        let mut i: usize = 0;
        while i < bindings.len()
            invariant
                self.state_ok(),
                i <= bindings@.len(),
                same_but_taint(mid, *self),
                forall|m: NodeView| #[trigger] tainted_node(*self, m) == (tainted_node(mid, m) && !bound_by(
                    bindings@.subrange(0, i as int),
                    m,
                )),
            decreases bindings.len() - i,
        {
            let ghost prev = *self;
            self.taint.remove_node(&Node::Symbol(bindings[i].0));
            proof {
                let a = bindings@.subrange(0, i as int);
                let b = bindings@.subrange(0, i + 1);
                assert(b[i as int] == bindings@[i as int]);
                assert forall|m: NodeView| bound_by(b, m) == (bound_by(a, m) || m == NodeView::Symbol(bindings@[i as int].0@)) by {
                    if bound_by(a, m) {
                        let w = choose|w: int| 0 <= w < a.len() && NodeView::Symbol((#[trigger] a[w]).0@) == m;
                        assert(b[w] == a[w]);
                    }
                    if bound_by(b, m) {
                        let w = choose|w: int| 0 <= w < b.len() && NodeView::Symbol((#[trigger] b[w]).0@) == m;
                        if w < i {
                            assert(b[w] == a[w]);
                        }
                    }
                }
                assert forall|m: NodeView| #[trigger] tainted_node(*self, m) == (tainted_node(mid, m) && !bound_by(b, m)) by {
                    assert(tainted_node(prev, m) == (tainted_node(mid, m) && !bound_by(a, m)));
                    assert(bound_by(b, m) == (bound_by(a, m) || m == NodeView::Symbol(bindings@[i as int].0@)));
                }
            }
            i = i + 1;
        }
        proof {
            assert(bindings@.subrange(0, bindings@.len() as int) =~= bindings@);
        }
        true
    }

    fn visit_asserts(&mut self, expr: &'a SymbolicExpression, cond: &'a SymbolicExpression, thrown: &'a SymbolicExpression) -> (r: bool) {
        self.taint.filter_taint(cond);
        true
    }

    fn visit_atom(&mut self, expr: &'a SymbolicExpression, atom: &'a ClarityName) -> (r: bool)
        ensures
            same_but_taint(*old(self), *final(self)),
            forall|m: NodeView| #[trigger] tainted_node(*final(self), m) == (tainted_node(*old(self), m) || (m
                == NodeView::Expr(expr.id) && tainted_node(*old(self), NodeView::Symbol(atom@)))),
    {
        if let Some(sources) = self.taint.sources_of(&Node::Symbol(atom)) {
            self.taint.add_tainted_expr(expr, sources);
        }
        true
    }

    // A list is tainted by the sources of its tainted elements; definitions and `let`
    // are handled by their own hooks.
    fn visit_list(&mut self, expr: &'a SymbolicExpression, list: &'a [SymbolicExpression]) -> (r: bool)
        ensures
            same_but_taint(*old(self), *final(self)),
            own_taint_list(list@) ==> *final(self) == *old(self),
            forall|m: NodeView| m != NodeView::Expr(expr.id) ==> #[trigger] tainted_node(*final(self), m)
                == tainted_node(*old(self), m),
            tainted_node(*old(self), NodeView::Expr(expr.id)) ==> tainted_node(*final(self), NodeView::Expr(expr.id)),
            tainted_node(*final(self), NodeView::Expr(expr.id)) && !tainted_node(*old(self), NodeView::Expr(expr.id))
                ==> !own_taint_list(list@) && exists|i: int|
                0 <= i < list@.len() && tainted_node(*old(self), NodeView::Expr((#[trigger] list@[i]).id)),
    {
        if list.len() > 0 {
            if let Some(function_name) = list[0].match_atom() {
                if DefineFunctions::lookup_by_name(function_name.as_str()).is_some() {
                    return true;
                }
                if let Some(NativeFunctions::Let) = NativeFunctions::lookup_by_name(function_name.as_str()) {
                    return true;
                }
            }
        }
        let mut sources: Vec<Node<'a>> = Vec::new();
        let mut i: usize = 0;
        while i < list.len()
            invariant
                self.state_ok(),
                *self == *old(self),
                i <= list@.len(),
                sources@.len() > 0 ==> exists|j: int|
                    0 <= j < i && tainted_node(*old(self), NodeView::Expr((#[trigger] list@[j]).id)),
            decreases list.len() - i,
        {
            if let Some(child_sources) = self.taint.sources_of(&Node::Expr(list[i].id)) {
                let mut k: usize = 0;
                while k < child_sources.len()
                    invariant
                        tainted_node(*old(self), NodeView::Expr(list@[i as int].id)),
                    decreases child_sources.len() - k,
                {
                    insert_node(&mut sources, child_sources[k]);
                    k = k + 1;
                }
            }
            i = i + 1;
        }
        if sources.len() > 0 {
            self.taint.add_tainted_expr(expr, sources);
        }
        true
    }

    // Input from the sender can be used unchecked to interact with the sender's assets:
    // the sender is protected by post-conditions.
    fn visit_stx_burn(&mut self, expr: &'a SymbolicExpression, amount: &'a SymbolicExpression, sender: &'a SymbolicExpression) -> (r: bool)
        ensures
            only_adds_diagnostics(*old(self), *final(self)),
            reported(*old(self), *final(self)) == (!is_tx_sender(*sender) && (tainted_in(*old(self), *amount) || tainted_in(*old(self), *sender))),
            !is_tx_sender(*sender) && tainted_in(*old(self), *amount) ==> warned_at(*old(self), *final(self), amount.span),
            !is_tx_sender(*sender) && tainted_in(*old(self), *sender) ==> warned_at(*old(self), *final(self), sender.span),
    {
        if sender.match_tx_sender() {
            return true;
        }
        let ghost s0 = *self;
        self.taint_check(amount);
        let ghost s1 = *self;
        self.taint_check(sender);
        let ghost s2 = *self;
        proof {
            lemma_adds_nothing(s2);
            lemma_adds_trans(s1, s2, s2);
            lemma_adds_nothing(s0);
            lemma_adds_trans(s0, s1, s2);
            if tainted_in(s0, *amount) {
                lemma_warned_within(s0, s0, s1, s2, amount.span);
            }
            if tainted_in(s0, *sender) {
                lemma_warned_within(s0, s1, s2, s2, sender.span);
            }
        }
        true
    }

    fn visit_stx_transfer(&mut self, expr: &'a SymbolicExpression, amount: &'a SymbolicExpression, sender: &'a SymbolicExpression, recipient: &'a SymbolicExpression) -> (r: bool)
        ensures
            only_adds_diagnostics(*old(self), *final(self)),
            reported(*old(self), *final(self)) == (!is_tx_sender(*sender) && (tainted_in(*old(self), *amount) || tainted_in(*old(self), *sender) || tainted_in(*old(self), *recipient))),
            !is_tx_sender(*sender) && tainted_in(*old(self), *amount) ==> warned_at(*old(self), *final(self), amount.span),
            !is_tx_sender(*sender) && tainted_in(*old(self), *sender) ==> warned_at(*old(self), *final(self), sender.span),
            !is_tx_sender(*sender) && tainted_in(*old(self), *recipient) ==> warned_at(*old(self), *final(self), recipient.span),
    {
        if sender.match_tx_sender() {
            return true;
        }
        let ghost s0 = *self;
        self.taint_check(amount);
        let ghost s1 = *self;
        self.taint_check(sender);
        let ghost s2 = *self;
        self.taint_check(recipient);
        let ghost s3 = *self;
        proof {
            lemma_adds_nothing(s3);
            lemma_adds_trans(s2, s3, s3);
            lemma_adds_trans(s1, s2, s3);
            lemma_adds_nothing(s0);
            lemma_adds_trans(s0, s1, s2);
            lemma_adds_trans(s0, s2, s3);
            if tainted_in(s0, *amount) {
                lemma_warned_within(s0, s0, s1, s3, amount.span);
            }
            if tainted_in(s0, *sender) {
                lemma_warned_within(s0, s1, s2, s3, sender.span);
            }
            if tainted_in(s0, *recipient) {
                lemma_warned_within(s0, s2, s3, s3, recipient.span);
            }
        }
        true
    }

    fn visit_ft_burn(&mut self, expr: &'a SymbolicExpression, token: &'a ClarityName, amount: &'a SymbolicExpression, sender: &'a SymbolicExpression) -> (r: bool)
        ensures
            only_adds_diagnostics(*old(self), *final(self)),
            reported(*old(self), *final(self)) == (!is_tx_sender(*sender) && (tainted_in(*old(self), *amount) || tainted_in(*old(self), *sender))),
            !is_tx_sender(*sender) && tainted_in(*old(self), *amount) ==> warned_at(*old(self), *final(self), amount.span),
            !is_tx_sender(*sender) && tainted_in(*old(self), *sender) ==> warned_at(*old(self), *final(self), sender.span),
    {
        if sender.match_tx_sender() {
            return true;
        }
        let ghost s0 = *self;
        self.taint_check(amount);
        let ghost s1 = *self;
        self.taint_check(sender);
        let ghost s2 = *self;
        proof {
            lemma_adds_nothing(s2);
            lemma_adds_trans(s1, s2, s2);
            lemma_adds_nothing(s0);
            lemma_adds_trans(s0, s1, s2);
            if tainted_in(s0, *amount) {
                lemma_warned_within(s0, s0, s1, s2, amount.span);
            }
            if tainted_in(s0, *sender) {
                lemma_warned_within(s0, s1, s2, s2, sender.span);
            }
        }
        true
    }

    fn visit_ft_transfer(&mut self, expr: &'a SymbolicExpression, token: &'a ClarityName, amount: &'a SymbolicExpression, sender: &'a SymbolicExpression, recipient: &'a SymbolicExpression) -> (r: bool)
        ensures
            only_adds_diagnostics(*old(self), *final(self)),
            reported(*old(self), *final(self)) == (!is_tx_sender(*sender) && (tainted_in(*old(self), *amount) || tainted_in(*old(self), *sender) || tainted_in(*old(self), *recipient))),
            !is_tx_sender(*sender) && tainted_in(*old(self), *amount) ==> warned_at(*old(self), *final(self), amount.span),
            !is_tx_sender(*sender) && tainted_in(*old(self), *sender) ==> warned_at(*old(self), *final(self), sender.span),
            !is_tx_sender(*sender) && tainted_in(*old(self), *recipient) ==> warned_at(*old(self), *final(self), recipient.span),
    {
        if sender.match_tx_sender() {
            return true;
        }
        let ghost s0 = *self;
        self.taint_check(amount);
        let ghost s1 = *self;
        self.taint_check(sender);
        let ghost s2 = *self;
        self.taint_check(recipient);
        let ghost s3 = *self;
        proof {
            lemma_adds_nothing(s3);
            lemma_adds_trans(s2, s3, s3);
            lemma_adds_trans(s1, s2, s3);
            lemma_adds_nothing(s0);
            lemma_adds_trans(s0, s1, s2);
            lemma_adds_trans(s0, s2, s3);
            if tainted_in(s0, *amount) {
                lemma_warned_within(s0, s0, s1, s3, amount.span);
            }
            if tainted_in(s0, *sender) {
                lemma_warned_within(s0, s1, s2, s3, sender.span);
            }
            if tainted_in(s0, *recipient) {
                lemma_warned_within(s0, s2, s3, s3, recipient.span);
            }
        }
        true
    }

    fn visit_ft_mint(&mut self, expr: &'a SymbolicExpression, token: &'a ClarityName, amount: &'a SymbolicExpression, recipient: &'a SymbolicExpression) -> (r: bool)
        ensures
            only_adds_diagnostics(*old(self), *final(self)),
            reported(*old(self), *final(self)) == (tainted_in(*old(self), *amount) || tainted_in(*old(self), *recipient)),
            tainted_in(*old(self), *amount) ==> warned_at(*old(self), *final(self), amount.span),
            tainted_in(*old(self), *recipient) ==> warned_at(*old(self), *final(self), recipient.span),
    {
        let ghost s0 = *self;
        self.taint_check(amount);
        let ghost s1 = *self;
        self.taint_check(recipient);
        let ghost s2 = *self;
        proof {
            lemma_adds_nothing(s2);
            lemma_adds_trans(s1, s2, s2);
            lemma_adds_nothing(s0);
            lemma_adds_trans(s0, s1, s2);
            if tainted_in(s0, *amount) {
                lemma_warned_within(s0, s0, s1, s2, amount.span);
            }
            if tainted_in(s0, *recipient) {
                lemma_warned_within(s0, s1, s2, s2, recipient.span);
            }
        }
        true
    }

    fn visit_nft_burn(&mut self, expr: &'a SymbolicExpression, token: &'a ClarityName, identifier: &'a SymbolicExpression, sender: &'a SymbolicExpression) -> (r: bool)
        ensures
            only_adds_diagnostics(*old(self), *final(self)),
            reported(*old(self), *final(self)) == (!is_tx_sender(*sender) && (tainted_in(*old(self), *identifier) || tainted_in(*old(self), *sender))),
            !is_tx_sender(*sender) && tainted_in(*old(self), *identifier) ==> warned_at(*old(self), *final(self), identifier.span),
            !is_tx_sender(*sender) && tainted_in(*old(self), *sender) ==> warned_at(*old(self), *final(self), sender.span),
    {
        if sender.match_tx_sender() {
            return true;
        }
        let ghost s0 = *self;
        self.taint_check(identifier);
        let ghost s1 = *self;
        self.taint_check(sender);
        let ghost s2 = *self;
        proof {
            lemma_adds_nothing(s2);
            lemma_adds_trans(s1, s2, s2);
            lemma_adds_nothing(s0);
            lemma_adds_trans(s0, s1, s2);
            if tainted_in(s0, *identifier) {
                lemma_warned_within(s0, s0, s1, s2, identifier.span);
            }
            if tainted_in(s0, *sender) {
                lemma_warned_within(s0, s1, s2, s2, sender.span);
            }
        }
        true
    }

    fn visit_nft_transfer(&mut self, expr: &'a SymbolicExpression, token: &'a ClarityName, identifier: &'a SymbolicExpression, sender: &'a SymbolicExpression, recipient: &'a SymbolicExpression) -> (r: bool)
        ensures
            only_adds_diagnostics(*old(self), *final(self)),
            reported(*old(self), *final(self)) == (!is_tx_sender(*sender) && (tainted_in(*old(self), *identifier) || tainted_in(*old(self), *sender) || tainted_in(*old(self), *recipient))),
            !is_tx_sender(*sender) && tainted_in(*old(self), *identifier) ==> warned_at(*old(self), *final(self), identifier.span),
            !is_tx_sender(*sender) && tainted_in(*old(self), *sender) ==> warned_at(*old(self), *final(self), sender.span),
            !is_tx_sender(*sender) && tainted_in(*old(self), *recipient) ==> warned_at(*old(self), *final(self), recipient.span),
    {
        if sender.match_tx_sender() {
            return true;
        }
        let ghost s0 = *self;
        self.taint_check(identifier);
        let ghost s1 = *self;
        self.taint_check(sender);
        let ghost s2 = *self;
        self.taint_check(recipient);
        let ghost s3 = *self;
        proof {
            lemma_adds_nothing(s3);
            lemma_adds_trans(s2, s3, s3);
            lemma_adds_trans(s1, s2, s3);
            lemma_adds_nothing(s0);
            lemma_adds_trans(s0, s1, s2);
            lemma_adds_trans(s0, s2, s3);
            if tainted_in(s0, *identifier) {
                lemma_warned_within(s0, s0, s1, s3, identifier.span);
            }
            if tainted_in(s0, *sender) {
                lemma_warned_within(s0, s1, s2, s3, sender.span);
            }
            if tainted_in(s0, *recipient) {
                lemma_warned_within(s0, s2, s3, s3, recipient.span);
            }
        }
        true
    }

    fn visit_nft_mint(&mut self, expr: &'a SymbolicExpression, token: &'a ClarityName, identifier: &'a SymbolicExpression, recipient: &'a SymbolicExpression) -> (r: bool)
        ensures
            only_adds_diagnostics(*old(self), *final(self)),
            reported(*old(self), *final(self)) == (tainted_in(*old(self), *identifier) || tainted_in(*old(self), *recipient)),
            tainted_in(*old(self), *identifier) ==> warned_at(*old(self), *final(self), identifier.span),
            tainted_in(*old(self), *recipient) ==> warned_at(*old(self), *final(self), recipient.span),
    {
        let ghost s0 = *self;
        self.taint_check(identifier);
        let ghost s1 = *self;
        self.taint_check(recipient);
        let ghost s2 = *self;
        proof {
            lemma_adds_nothing(s2);
            lemma_adds_trans(s1, s2, s2);
            lemma_adds_nothing(s0);
            lemma_adds_trans(s0, s1, s2);
            if tainted_in(s0, *identifier) {
                lemma_warned_within(s0, s0, s1, s2, identifier.span);
            }
            if tainted_in(s0, *recipient) {
                lemma_warned_within(s0, s1, s2, s2, recipient.span);
            }
        }
        true
    }

    fn visit_var_set(&mut self, expr: &'a SymbolicExpression, name: &'a ClarityName, value: &'a SymbolicExpression) -> (r: bool)
        ensures
            only_adds_diagnostics(*old(self), *final(self)),
            reported(*old(self), *final(self)) == (tainted_in(*old(self), *value)),
            tainted_in(*old(self), *value) ==> warned_at(*old(self), *final(self), value.span),
    {
        let ghost s0 = *self;
        self.taint_check(value);
        let ghost s1 = *self;
        proof {
            lemma_adds_nothing(s1);
            lemma_adds_nothing(s0);
            if tainted_in(s0, *value) {
                lemma_warned_within(s0, s0, s1, s1, value.span);
            }
        }
        true
    }

    fn visit_map_set(&mut self, expr: &'a SymbolicExpression, name: &'a ClarityName, key: &Vec<(Option<&'a ClarityName>, &'a SymbolicExpression)>, value: &Vec<(Option<&'a ClarityName>, &'a SymbolicExpression)>) -> (r: bool)
        ensures
            only_adds_diagnostics(*old(self), *final(self)),
            reported(*old(self), *final(self)) == (entry_tainted_in(*old(self), key@) || entry_tainted_in(*old(self), value@)),
    {
        let mut i: usize = 0;
        while i < key.len()
            invariant
                self.state_ok(),
                i <= key@.len(),
                only_adds_diagnostics(*old(self), *self),
                reported(*old(self), *self) == entry_tainted_in(*old(self), key@.subrange(0, i as int)),
            decreases key.len() - i,
        {
            self.taint_check(key[i].1);
            proof {
                let a = key@.subrange(0, i as int);
                let b = key@.subrange(0, i + 1);
                assert(b[i as int] == key@[i as int]);
                if entry_tainted_in(*old(self), a) {
                    let w = choose|w: int| 0 <= w < a.len() && tainted_in(*old(self), *(#[trigger] a[w]).1);
                    assert(b[w] == a[w]);
                }
                if entry_tainted_in(*old(self), b) {
                    let w = choose|w: int| 0 <= w < b.len() && tainted_in(*old(self), *(#[trigger] b[w]).1);
                    if w < i {
                        assert(b[w] == a[w]);
                    }
                }
            }
            i = i + 1;
        }
        proof {
            assert(key@.subrange(0, key@.len() as int) =~= key@);
        }
        let ghost mid = *self;
        let mut j: usize = 0;
        while j < value.len()
            invariant
                self.state_ok(),
                j <= value@.len(),
                only_adds_diagnostics(*old(self), mid),
                only_adds_diagnostics(mid, *self),
                reported(mid, *self) == entry_tainted_in(*old(self), value@.subrange(0, j as int)),
            decreases value.len() - j,
        {
            self.taint_check(value[j].1);
            proof {
                let a = value@.subrange(0, j as int);
                let b = value@.subrange(0, j + 1);
                assert(b[j as int] == value@[j as int]);
                if entry_tainted_in(*old(self), a) {
                    let w = choose|w: int| 0 <= w < a.len() && tainted_in(*old(self), *(#[trigger] a[w]).1);
                    assert(b[w] == a[w]);
                }
                if entry_tainted_in(*old(self), b) {
                    let w = choose|w: int| 0 <= w < b.len() && tainted_in(*old(self), *(#[trigger] b[w]).1);
                    if w < j {
                        assert(b[w] == a[w]);
                    }
                }
            }
            j = j + 1;
        }
        proof {
            assert(value@.subrange(0, value@.len() as int) =~= value@);
        }
        true
    }

    fn visit_map_insert(&mut self, expr: &'a SymbolicExpression, name: &'a ClarityName, key: &Vec<(Option<&'a ClarityName>, &'a SymbolicExpression)>, value: &Vec<(Option<&'a ClarityName>, &'a SymbolicExpression)>) -> (r: bool)
        ensures
            only_adds_diagnostics(*old(self), *final(self)),
            reported(*old(self), *final(self)) == (entry_tainted_in(*old(self), key@) || entry_tainted_in(*old(self), value@)),
    {
        let mut i: usize = 0;
        while i < key.len()
            invariant
                self.state_ok(),
                i <= key@.len(),
                only_adds_diagnostics(*old(self), *self),
                reported(*old(self), *self) == entry_tainted_in(*old(self), key@.subrange(0, i as int)),
            decreases key.len() - i,
        {
            self.taint_check(key[i].1);
            proof {
                let a = key@.subrange(0, i as int);
                let b = key@.subrange(0, i + 1);
                assert(b[i as int] == key@[i as int]);
                if entry_tainted_in(*old(self), a) {
                    let w = choose|w: int| 0 <= w < a.len() && tainted_in(*old(self), *(#[trigger] a[w]).1);
                    assert(b[w] == a[w]);
                }
                if entry_tainted_in(*old(self), b) {
                    let w = choose|w: int| 0 <= w < b.len() && tainted_in(*old(self), *(#[trigger] b[w]).1);
                    if w < i {
                        assert(b[w] == a[w]);
                    }
                }
            }
            i = i + 1;
        }
        proof {
            assert(key@.subrange(0, key@.len() as int) =~= key@);
        }
        let ghost mid = *self;
        let mut j: usize = 0;
        while j < value.len()
            invariant
                self.state_ok(),
                j <= value@.len(),
                only_adds_diagnostics(*old(self), mid),
                only_adds_diagnostics(mid, *self),
                reported(mid, *self) == entry_tainted_in(*old(self), value@.subrange(0, j as int)),
            decreases value.len() - j,
        {
            self.taint_check(value[j].1);
            proof {
                let a = value@.subrange(0, j as int);
                let b = value@.subrange(0, j + 1);
                assert(b[j as int] == value@[j as int]);
                if entry_tainted_in(*old(self), a) {
                    let w = choose|w: int| 0 <= w < a.len() && tainted_in(*old(self), *(#[trigger] a[w]).1);
                    assert(b[w] == a[w]);
                }
                if entry_tainted_in(*old(self), b) {
                    let w = choose|w: int| 0 <= w < b.len() && tainted_in(*old(self), *(#[trigger] b[w]).1);
                    if w < j {
                        assert(b[w] == a[w]);
                    }
                }
            }
            j = j + 1;
        }
        proof {
            assert(value@.subrange(0, value@.len() as int) =~= value@);
        }
        true
    }

    fn visit_map_delete(&mut self, expr: &'a SymbolicExpression, name: &'a ClarityName, key: &Vec<(Option<&'a ClarityName>, &'a SymbolicExpression)>) -> (r: bool)
        ensures
            only_adds_diagnostics(*old(self), *final(self)),
            reported(*old(self), *final(self)) == (entry_tainted_in(*old(self), key@)),
    {
        let mut i: usize = 0;
        while i < key.len()
            invariant
                self.state_ok(),
                i <= key@.len(),
                only_adds_diagnostics(*old(self), *self),
                reported(*old(self), *self) == entry_tainted_in(*old(self), key@.subrange(0, i as int)),
            decreases key.len() - i,
        {
            self.taint_check(key[i].1);
            proof {
                let a = key@.subrange(0, i as int);
                let b = key@.subrange(0, i + 1);
                assert(b[i as int] == key@[i as int]);
                if entry_tainted_in(*old(self), a) {
                    let w = choose|w: int| 0 <= w < a.len() && tainted_in(*old(self), *(#[trigger] a[w]).1);
                    assert(b[w] == a[w]);
                }
                if entry_tainted_in(*old(self), b) {
                    let w = choose|w: int| 0 <= w < b.len() && tainted_in(*old(self), *(#[trigger] b[w]).1);
                    if w < i {
                        assert(b[w] == a[w]);
                    }
                }
            }
            i = i + 1;
        }
        proof {
            assert(key@.subrange(0, key@.len() as int) =~= key@);
        }
        true
    }

    fn visit_dynamic_contract_call(&mut self, expr: &'a SymbolicExpression, trait_ref: &'a SymbolicExpression, function_name: &'a ClarityName, args: &'a [SymbolicExpression]) -> (r: bool) {
        self.taint_check(trait_ref);
        true
    }

    // A call of a private function checks the arguments of the parameters that must be
    // checked; a call of a function not defined yet is checked at the end.
    fn visit_call_user_defined(&mut self, expr: &'a SymbolicExpression, name: &'a ClarityName, args: &'a [SymbolicExpression]) -> (r: bool)
        ensures
            args@.len() == 0 ==> *final(self) == *old(self),
            args@.len() > 0 && known_callee(*old(self), name@) ==> {
                &&& only_adds_diagnostics(*old(self), *final(self))
                &&& reported(*old(self), *final(self)) == exists|i: int|
                    0 <= i < args@.len() && tainted_in(*old(self), #[trigger] args@[i]) && must_check_in(
                        *old(self),
                        name@,
                        i,
                    )
            },
            args@.len() > 0 && !known_callee(*old(self), name@) ==> queues_call(
                *old(self),
                *final(self),
                name@,
                args@,
            ),
    {
        if args.len() > 0 {
            let known: Option<Vec<bool>> = match self.user_func(name) {
                Some(p) => {
                    let mut copy: Vec<bool> = Vec::new();
                    let mut k: usize = 0;
                    while k < p.len()
                        invariant
                            k <= p@.len(),
                            copy@ == p@.subrange(0, k as int),
                        decreases p.len() - k,
                    {
                        copy.push(p[k]);
                        k = k + 1;
                    }
                    proof {
                        assert(p@.subrange(0, p@.len() as int) =~= p@);
                    }
                    Some(copy)
                },
                None => None,
            };
            match known {
                Some(unchecked_args) => {
                    let ghost fk = choose|k: int| first_named(old(self).user_funcs@, name@, k) && unchecked_args@
                        == old(self).user_funcs@[k].1@;
                    proof {
                        assert forall|k2: int| first_named(old(self).user_funcs@, name@, k2) implies k2 == fk by {
                            lemma_first_named_unique(old(self).user_funcs@, name@, k2, fk);
                        }
                    }
                    let mut i: usize = 0;
                    while i < args.len()
                        invariant
                            self.state_ok(),
                            i <= args@.len(),
                            first_named(old(self).user_funcs@, name@, fk),
                            unchecked_args@ == old(self).user_funcs@[fk].1@,
                            only_adds_diagnostics(*old(self), *self),
                            reported(*old(self), *self) == exists|j: int|
                                0 <= j < i && tainted_in(*old(self), #[trigger] args@[j]) && must_check(
                                    old(self).user_funcs@,
                                    name@,
                                    j,
                                ),
                        decreases args.len() - i,
                    {
                        proof {
                            assert forall|k2: int| first_named(old(self).user_funcs@, name@, k2) implies k2 == fk by {
                                lemma_first_named_unique(old(self).user_funcs@, name@, k2, fk);
                            }
                        }
                        if i < unchecked_args.len() && !unchecked_args[i] {
                            self.taint_check(&args[i]);
                        }
                        proof {
                            assert(must_check(old(self).user_funcs@, name@, i as int) == (i < unchecked_args@.len()
                                && !unchecked_args@[i as int]));
                        }
                        i = i + 1;
                    }
                },
                None => {
                    // Record the call, with the diagnostics of its tainted arguments, to
                    // check it once the callee is defined.
                    let mut found: Vec<Option<Vec<Diagnostic>>> = Vec::new();
                    let mut i: usize = 0;
                    while i < args.len()
                        invariant
                            self.state_ok(),
                            *self == *old(self),
                            i <= args@.len(),
                            found@.len() == i,
                            forall|k: int| 0 <= k < i ==> ((#[trigger] found@[k]) is Some <==> tainted_in(*old(self), args@[k])),
                            forall|k: int| 0 <= k < found@.len() ==> match #[trigger] found@[k] {
                                Some(ds) => forall|j: int| 0 <= j < ds@.len() ==> is_check_diagnostic(#[trigger] ds@[j]),
                                None => true,
                            },
                        decreases args.len() - i,
                    {
                        if self.taint.tainted(&Node::Expr(args[i].id)) {
                            found.push(Some(self.generate_diagnostics(&args[i])));
                        } else {
                            found.push(None);
                        }
                        i = i + 1;
                    }
                    let ghost before = self.user_calls@;
                    self.user_calls.push((name, found));
                    proof {
                        assert forall|c: int, k: int|
                            0 <= c < self.user_calls@.len() && 0 <= k < self.user_calls@[c].1@.len() implies match #[trigger] self.user_calls@[c].1@[k] {
                            Some(ds) => forall|j: int| 0 <= j < ds@.len() ==> is_check_diagnostic(#[trigger] ds@[j]),
                            None => true,
                        } by {
                            if c < before.len() {
                                assert(self.user_calls@[c] == before[c]);
                            }
                        }
                    }
                },
            }
        }
        true
    }
}

impl<'a> AnalysisPass for CheckChecker<'a> {
    fn run_pass(
        contract_analysis: &mut ContractAnalysis,
        analysis_db: &mut AnalysisDatabase,
        annotations: &Vec<Annotation>,
        settings: AnalysisSettings,
    ) -> (r: AnalysisResult)
        ensures
            r matches Ok(w) && forall|i: int| 0 <= i < w@.len() ==> is_check_diagnostic(#[trigger] w@[i]),
            *final(contract_analysis) == *old(contract_analysis),
    {
        let checker = CheckChecker::new(annotations);
        Ok(checker.run(&contract_analysis.expressions))
    }
}

} // verus!
