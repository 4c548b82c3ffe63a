use vstd::prelude::*;
use vstd::string::*;
use crate::analysis::{AnalysisPass, AnalysisResult, AnalysisSettings, ContractAnalysis, exprs_wf};
use crate::analysis_db::AnalysisDatabase;
use crate::annotation::Annotation;
use crate::ast_visitor::{ASTVisitor, TypedVar, traverse};
use crate::check_checker::{bound_by, diagnostic_at, is_param, lemma_is_param_push};
use crate::diagnostic::{Diagnostic, Level};
use crate::representations::{ClarityName, Span, SymbolicExpression};
use crate::taint::{Node, NodeView, TaintState, insert_node};

verus! {

broadcast use vstd::std_specs::vec::group_vec_axioms;

/// The error the taint checker reports: tainted data used where it can do harm.
pub struct TaintError;

impl TaintError {
    pub fn message(&self) -> (r: String)
        ensures
            r@ == "Use of potentially tainted data"@,
    {
        String::from_str("Use of potentially tainted data")
    }

    pub fn suggestion(&self) -> (r: Option<String>)
        ensures
            r is None,
    {
        None
    }
}

/// Whether `d` is a warning or a note of the taint checker.
pub open spec fn is_taint_diagnostic(d: Diagnostic) -> bool {
    ||| d.level == Level::Warning && d.message@ == "use of potentially tainted data"@
    ||| d.level == Level::Note && d.message@ == "source of taint here"@
}

/// Finds tainted data used to move assets or to write the contract's state: the
/// parameters of public functions are tainted, taint flows through names and
/// expressions, and a check (an `asserts!`, the condition of an `if`, an operand of
/// `and` / `or`) clears it.
pub struct TaintChecker<'a> {
    taint: TaintState<'a>,
    diagnostics: Vec<Diagnostic>,
}

/// Whether `new` differs from `old` only by diagnostics added after the old ones.
pub closed spec fn only_adds_diagnostics<'a>(old: TaintChecker<'a>, new: TaintChecker<'a>) -> bool {
    &&& new.taint == old.taint
    &&& new.diagnostics@.len() >= old.diagnostics@.len()
    &&& forall|k: int| 0 <= k < old.diagnostics@.len() ==> new.diagnostics@[k] == old.diagnostics@[k]
}

/// Whether `new` holds more diagnostics than `old`: something was reported.
pub closed spec fn reported<'a>(old: TaintChecker<'a>, new: TaintChecker<'a>) -> bool {
    new.diagnostics@.len() > old.diagnostics@.len()
}

/// Whether the node `m` is tainted in `c`.
pub closed spec fn tainted_node<'a>(c: TaintChecker<'a>, m: NodeView) -> bool {
    c.taint.is_tainted(m)
}

/// Whether the value of `e` is tainted in `c`.
pub open spec fn tainted_in<'a>(c: TaintChecker<'a>, e: SymbolicExpression) -> bool {
    tainted_node(c, NodeView::Expr(e.id))
}

/// Whether the value of an entry of `entries` is tainted in `c`.
pub open spec fn entry_tainted_in<'a>(c: TaintChecker<'a>, entries: Seq<(Option<&'a ClarityName>, &'a SymbolicExpression)>) -> bool {
    exists|i: int| 0 <= i < entries.len() && tainted_in(c, *(#[trigger] entries[i]).1)
}

/// Whether, among the diagnostics that `new` adds to those of `old`, there is a warning
/// about a use of tainted data at exactly `span`.
pub closed spec fn warned_at<'a>(old: TaintChecker<'a>, new: TaintChecker<'a>, span: Span) -> bool {
    exists|i: int|
        old.diagnostics@.len() <= i < new.diagnostics@.len() && (#[trigger] new.diagnostics@[i]).level == Level::Warning
            && new.diagnostics@[i].message@ == "use of potentially tainted data"@ && new.diagnostics@[i].spans@ == seq![span]
}

/// A warning added between `b` and `c` is among those added between `a` and `d`, where `b`
/// only adds diagnostics to `a` and `d` only adds to `c`.
proof fn lemma_warned_within<'a>(a: TaintChecker<'a>, b: TaintChecker<'a>, c: TaintChecker<'a>, d: TaintChecker<'a>, span: Span)
    requires
        only_adds_diagnostics(a, b),
        warned_at(b, c, span),
        only_adds_diagnostics(c, d),
    ensures
        warned_at(a, d, span),
{
    let i = choose|i: int|
        b.diagnostics@.len() <= i < c.diagnostics@.len() && (#[trigger] c.diagnostics@[i]).level == Level::Warning
            && c.diagnostics@[i].message@ == "use of potentially tainted data"@ && c.diagnostics@[i].spans@ == seq![span];
    assert(d.diagnostics@[i] == c.diagnostics@[i]);
}

/// Adding diagnostics twice only adds diagnostics.
proof fn lemma_adds_trans<'a>(a: TaintChecker<'a>, b: TaintChecker<'a>, c: TaintChecker<'a>)
    requires
        only_adds_diagnostics(a, b),
        only_adds_diagnostics(b, c),
    ensures
        only_adds_diagnostics(a, c),
{
}

/// Doing nothing only adds nothing.
proof fn lemma_adds_nothing<'a>(a: TaintChecker<'a>)
    ensures
        only_adds_diagnostics(a, a),
{
}

/// Whether `new` differs from `old` in its taint alone.
pub closed spec fn same_but_taint<'a>(old: TaintChecker<'a>, new: TaintChecker<'a>) -> bool {
    new.diagnostics == old.diagnostics
}

impl<'a> TaintChecker<'a> {
    pub closed spec fn state_ok(&self) -> bool {
        forall|i: int| 0 <= i < self.diagnostics@.len() ==> is_taint_diagnostic(#[trigger] self.diagnostics@[i])
    }

    fn new() -> (r: TaintChecker<'a>)
        ensures
            r.state_ok(),
    {
        TaintChecker { taint: TaintState::new(), diagnostics: Vec::new() }
    }

    fn run(self, expressions: &'a Vec<SymbolicExpression>) -> (r: Vec<Diagnostic>)
        requires
            self.state_ok(),
            exprs_wf(expressions@),
        ensures
            forall|i: int| 0 <= i < r@.len() ==> is_taint_diagnostic(#[trigger] r@[i]),
    {
        let mut checker = self;
        traverse(&mut checker, expressions.as_slice());
        checker.diagnostics
    }

    /// Reports `expr`, with a note for each source of its taint, if it is tainted.
    fn taint_check(&mut self, expr: &SymbolicExpression)
        requires
            old(self).state_ok(),
        ensures
            final(self).state_ok(),
            old(self).taint.is_tainted(NodeView::Expr(expr.id)) ==> final(self).diagnostics@.len() > old(self).diagnostics@.len(),
            !old(self).taint.is_tainted(NodeView::Expr(expr.id)) ==> final(self).diagnostics == old(self).diagnostics,
            only_adds_diagnostics(*old(self), *final(self)),
            reported(*old(self), *final(self)) == tainted_in(*old(self), *expr),
            tainted_in(*old(self), *expr) ==> warned_at(*old(self), *final(self), expr.span),
    {
        if self.taint.tainted(&Node::Expr(expr.id)) {
            let ghost first = self.diagnostics@.len();
            self.diagnostics.push(diagnostic_at(Level::Warning, "use of potentially tainted data", expr.span));
            let spans = self.taint.source_spans(expr);
            let mut i: usize = 0;
            while i < spans.len()
                invariant
                    i <= spans@.len(),
                    self.state_ok(),
                    self.diagnostics@.len() > old(self).diagnostics@.len(),
                    self.taint == old(self).taint,
                    forall|k: int| 0 <= k < old(self).diagnostics@.len() ==> self.diagnostics@[k] == old(self).diagnostics@[k],
                    first == old(self).diagnostics@.len(),
                    first < self.diagnostics@.len(),
                    self.diagnostics@[first as int].level == Level::Warning,
                    self.diagnostics@[first as int].message@ == "use of potentially tainted data"@,
                    self.diagnostics@[first as int].spans@ == seq![expr.span],
                decreases spans.len() - i,
            {
                self.diagnostics.push(diagnostic_at(Level::Note, "source of taint here", spans[i]));
                i = i + 1;
            }
        }
    }
}

impl<'a> ASTVisitor<'a> for TaintChecker<'a> {
    type Frame = ();

    closed spec fn inv(&self) -> bool {
        self.state_ok()
    }

    open spec fn always_continues() -> bool {
        true
    }

    closed spec fn frame(&self) -> () {
        ()
    }

    // Upon entering a public function, all parameters are tainted.
    fn enter_define_public(&mut self, expr: &'a SymbolicExpression, name: &'a ClarityName, parameters: &Option<Vec<TypedVar<'a>>>)
        ensures
            same_but_taint(*old(self), *final(self)),
            forall|m: NodeView| #[trigger] tainted_node(*final(self), m) == match parameters {
                Some(params) => is_param(params@, m),
                None => false,
            },
    {
        self.taint.clear();
        if let Some(params) = parameters {
            let mut i: usize = 0;
            while i < params.len()
                invariant
                    i <= params@.len(),
                    self.state_ok(),
                    same_but_taint(*old(self), *self),
                    forall|m: NodeView| #[trigger] tainted_node(*self, m) == is_param(params@.subrange(0, i as int), m),
                decreases params.len() - i,
            {
                let ghost prev = *self;
                self.taint.add_taint_source(Node::Symbol(params[i].name), params[i].decl_span);
                proof {
                    lemma_is_param_push(params@, i as int);
                    assert forall|m: NodeView| #[trigger] tainted_node(*self, m) == is_param(params@.subrange(0, i + 1), m) by {
                        assert(tainted_node(prev, m) == is_param(params@.subrange(0, i as int), m));
                    }
                }
                i = i + 1;
            }
            proof {
                assert(params@.subrange(0, params@.len() as int) =~= params@);
            }
        }
    }

    fn visit_if_condition(&mut self, expr: &'a SymbolicExpression, cond: &'a SymbolicExpression) -> (r: bool) {
        self.taint.filter_taint(cond);
        true
    }

    fn visit_lazy_operand(&mut self, expr: &'a SymbolicExpression, operand: &'a SymbolicExpression) -> (r: bool) {
        self.taint.filter_taint(operand);
        true
    }

    fn visit_let_binding(&mut self, expr: &'a SymbolicExpression, name: &'a ClarityName, value: &'a SymbolicExpression) -> (r: bool)
        ensures
            same_but_taint(*old(self), *final(self)),
            forall|m: NodeView| #[trigger] tainted_node(*final(self), m) == (tainted_node(*old(self), m) || (m
                == NodeView::Symbol(name@) && tainted_node(*old(self), NodeView::Expr(value.id)))),
    {
        if let Some(sources) = self.taint.sources_of(&Node::Expr(value.id)) {
            self.taint.add_taint_source(Node::Symbol(name), expr.span);
            self.taint.add_tainted(Node::Symbol(name), sources);
        }
        true
    }

    // Outside the `let`, its names go out of scope.
    fn visit_let(&mut self, expr: &'a SymbolicExpression, bindings: &Vec<(&'a ClarityName, &'a SymbolicExpression)>, body: &'a [SymbolicExpression]) -> (r: bool)
        ensures
            same_but_taint(*old(self), *final(self)),
            forall|m: NodeView| #[trigger] tainted_node(*final(self), m) == (tainted_node(*old(self), m)
                && !bound_by(bindings@, m)),
    {
        let mut i: usize = 0;
        while i < bindings.len()
            invariant
                self.state_ok(),
                i <= bindings@.len(),
                same_but_taint(*old(self), *self),
                forall|m: NodeView| #[trigger] tainted_node(*self, m) == (tainted_node(*old(self), m) && !bound_by(
                    bindings@.subrange(0, i as int),
                    m,
                )),
            decreases bindings.len() - i,
        {
            let ghost prev = *self;
            self.taint.remove_node(&Node::Symbol(bindings[i].0));
            proof {
                let a = bindings@.subrange(0, i as int);
                let b = bindings@.subrange(0, i + 1);
                assert(b[i as int] == bindings@[i as int]);
                assert forall|m: NodeView| bound_by(b, m) == (bound_by(a, m) || m == NodeView::Symbol(bindings@[i as int].0@)) by {
                    if bound_by(a, m) {
                        let w = choose|w: int| 0 <= w < a.len() && NodeView::Symbol((#[trigger] a[w]).0@) == m;
                        assert(b[w] == a[w]);
                    }
                    if bound_by(b, m) {
                        let w = choose|w: int| 0 <= w < b.len() && NodeView::Symbol((#[trigger] b[w]).0@) == m;
                        if w < i {
                            assert(b[w] == a[w]);
                        }
                    }
                }
                assert forall|m: NodeView| #[trigger] tainted_node(*self, m) == (tainted_node(*old(self), m) && !bound_by(b, m)) by {
                    assert(tainted_node(prev, m) == (tainted_node(*old(self), m) && !bound_by(a, m)));
                    assert(bound_by(b, m) == (bound_by(a, m) || m == NodeView::Symbol(bindings@[i as int].0@)));
                }
            }
            i = i + 1;
        }
        proof {
            assert(bindings@.subrange(0, bindings@.len() as int) =~= bindings@);
        }
        true
    }

    fn visit_asserts(&mut self, expr: &'a SymbolicExpression, cond: &'a SymbolicExpression, thrown: &'a SymbolicExpression) -> (r: bool) {
        self.taint.filter_taint(cond);
        true
    }

    fn visit_atom(&mut self, expr: &'a SymbolicExpression, atom: &'a ClarityName) -> (r: bool)
        ensures
            same_but_taint(*old(self), *final(self)),
            forall|m: NodeView| #[trigger] tainted_node(*final(self), m) == (tainted_node(*old(self), m) || (m
                == NodeView::Expr(expr.id) && tainted_node(*old(self), NodeView::Symbol(atom@)))),
    {
        if let Some(sources) = self.taint.sources_of(&Node::Symbol(atom)) {
            self.taint.add_tainted_expr(expr, sources);
        }
        true
    }

    // A list is tainted by the sources of its tainted elements.
    fn visit_list(&mut self, expr: &'a SymbolicExpression, list: &'a [SymbolicExpression]) -> (r: bool)
        ensures
            same_but_taint(*old(self), *final(self)),
            forall|m: NodeView| m != NodeView::Expr(expr.id) ==> #[trigger] tainted_node(*final(self), m)
                == tainted_node(*old(self), m),
            tainted_node(*old(self), NodeView::Expr(expr.id)) ==> tainted_node(*final(self), NodeView::Expr(expr.id)),
            tainted_node(*final(self), NodeView::Expr(expr.id)) && !tainted_node(*old(self), NodeView::Expr(expr.id))
                ==> exists|i: int| 0 <= i < list@.len() && tainted_node(*old(self), NodeView::Expr((#[trigger] list@[i]).id)),
    {
        let mut sources: Vec<Node<'a>> = Vec::new();
        let mut i: usize = 0;
        while i < list.len()
            invariant
                self.state_ok(),
                *self == *old(self),
                i <= list@.len(),
                sources@.len() > 0 ==> exists|j: int|
                    0 <= j < i && tainted_node(*old(self), NodeView::Expr((#[trigger] list@[j]).id)),
            decreases list.len() - i,
        {
            if let Some(child_sources) = self.taint.sources_of(&Node::Expr(list[i].id)) {
                let mut k: usize = 0;
                while k < child_sources.len()
                    invariant
                        tainted_node(*old(self), NodeView::Expr(list@[i as int].id)),
                    decreases child_sources.len() - k,
                {
                    insert_node(&mut sources, child_sources[k]);
                    k = k + 1;
                }
            }
            i = i + 1;
        }
        if sources.len() > 0 {
            self.taint.add_tainted_expr(expr, sources);
        }
        true
    }

    fn visit_stx_burn(&mut self, expr: &'a SymbolicExpression, amount: &'a SymbolicExpression, sender: &'a SymbolicExpression) -> (r: bool)
        ensures
            only_adds_diagnostics(*old(self), *final(self)),
            reported(*old(self), *final(self)) == (tainted_in(*old(self), *amount) || tainted_in(*old(self), *sender)),
            tainted_in(*old(self), *amount) ==> warned_at(*old(self), *final(self), amount.span),
            tainted_in(*old(self), *sender) ==> warned_at(*old(self), *final(self), sender.span),
    {
        let ghost s0 = *self;
        self.taint_check(amount);
        let ghost s1 = *self;
        self.taint_check(sender);
        let ghost s2 = *self;
        proof {
            lemma_adds_nothing(s0);
            lemma_adds_nothing(s2);
            lemma_adds_trans(s1, s2, s2);
            if tainted_in(s0, *amount) {
                lemma_warned_within(s0, s0, s1, s2, amount.span);
            }
            if tainted_in(s0, *sender) {
                lemma_warned_within(s0, s1, s2, s2, sender.span);
            }
        }
        true
    }

    fn visit_stx_transfer(&mut self, expr: &'a SymbolicExpression, amount: &'a SymbolicExpression, sender: &'a SymbolicExpression, recipient: &'a SymbolicExpression) -> (r: bool)
        ensures
            only_adds_diagnostics(*old(self), *final(self)),
            reported(*old(self), *final(self)) == (tainted_in(*old(self), *amount) || tainted_in(*old(self), *sender) || tainted_in(*old(self), *recipient)),
            tainted_in(*old(self), *amount) ==> warned_at(*old(self), *final(self), amount.span),
            tainted_in(*old(self), *sender) ==> warned_at(*old(self), *final(self), sender.span),
            tainted_in(*old(self), *recipient) ==> warned_at(*old(self), *final(self), recipient.span),
    {
        let ghost s0 = *self;
        self.taint_check(amount);
        let ghost s1 = *self;
        self.taint_check(sender);
        let ghost s2 = *self;
        self.taint_check(recipient);
        let ghost s3 = *self;
        proof {
            lemma_adds_nothing(s0);
            lemma_adds_nothing(s3);
            lemma_adds_trans(s2, s3, s3);
            lemma_adds_trans(s1, s2, s3);
            if tainted_in(s0, *amount) {
                lemma_warned_within(s0, s0, s1, s3, amount.span);
            }
            if tainted_in(s0, *sender) {
                lemma_warned_within(s0, s1, s2, s3, sender.span);
            }
            if tainted_in(s0, *recipient) {
                lemma_warned_within(s0, s2, s3, s3, recipient.span);
            }
        }
        true
    }

    fn visit_ft_burn(&mut self, expr: &'a SymbolicExpression, token: &'a ClarityName, amount: &'a SymbolicExpression, sender: &'a SymbolicExpression) -> (r: bool)
        ensures
            only_adds_diagnostics(*old(self), *final(self)),
            reported(*old(self), *final(self)) == (tainted_in(*old(self), *amount) || tainted_in(*old(self), *sender)),
            tainted_in(*old(self), *amount) ==> warned_at(*old(self), *final(self), amount.span),
            tainted_in(*old(self), *sender) ==> warned_at(*old(self), *final(self), sender.span),
    {
        let ghost s0 = *self;
        self.taint_check(amount);
        let ghost s1 = *self;
        self.taint_check(sender);
        let ghost s2 = *self;
        proof {
            lemma_adds_nothing(s0);
            lemma_adds_nothing(s2);
            lemma_adds_trans(s1, s2, s2);
            if tainted_in(s0, *amount) {
                lemma_warned_within(s0, s0, s1, s2, amount.span);
            }
            if tainted_in(s0, *sender) {
                lemma_warned_within(s0, s1, s2, s2, sender.span);
            }
        }
        true
    }

    fn visit_ft_transfer(&mut self, expr: &'a SymbolicExpression, token: &'a ClarityName, amount: &'a SymbolicExpression, sender: &'a SymbolicExpression, recipient: &'a SymbolicExpression) -> (r: bool)
        ensures
            only_adds_diagnostics(*old(self), *final(self)),
            reported(*old(self), *final(self)) == (tainted_in(*old(self), *amount) || tainted_in(*old(self), *sender) || tainted_in(*old(self), *recipient)),
            tainted_in(*old(self), *amount) ==> warned_at(*old(self), *final(self), amount.span),
            tainted_in(*old(self), *sender) ==> warned_at(*old(self), *final(self), sender.span),
            tainted_in(*old(self), *recipient) ==> warned_at(*old(self), *final(self), recipient.span),
    {
        let ghost s0 = *self;
        self.taint_check(amount);
        let ghost s1 = *self;
        self.taint_check(sender);
        let ghost s2 = *self;
        self.taint_check(recipient);
        let ghost s3 = *self;
        proof {
            lemma_adds_nothing(s0);
            lemma_adds_nothing(s3);
            lemma_adds_trans(s2, s3, s3);
            lemma_adds_trans(s1, s2, s3);
            if tainted_in(s0, *amount) {
                lemma_warned_within(s0, s0, s1, s3, amount.span);
            }
            if tainted_in(s0, *sender) {
                lemma_warned_within(s0, s1, s2, s3, sender.span);
            }
            if tainted_in(s0, *recipient) {
                lemma_warned_within(s0, s2, s3, s3, recipient.span);
            }
        }
        true
    }

    fn visit_ft_mint(&mut self, expr: &'a SymbolicExpression, token: &'a ClarityName, amount: &'a SymbolicExpression, recipient: &'a SymbolicExpression) -> (r: bool)
        ensures
            only_adds_diagnostics(*old(self), *final(self)),
            reported(*old(self), *final(self)) == (tainted_in(*old(self), *amount) || tainted_in(*old(self), *recipient)),
            tainted_in(*old(self), *amount) ==> warned_at(*old(self), *final(self), amount.span),
            tainted_in(*old(self), *recipient) ==> warned_at(*old(self), *final(self), recipient.span),
    {
        let ghost s0 = *self;
        self.taint_check(amount);
        let ghost s1 = *self;
        self.taint_check(recipient);
        let ghost s2 = *self;
        proof {
            lemma_adds_nothing(s0);
            lemma_adds_nothing(s2);
            lemma_adds_trans(s1, s2, s2);
            if tainted_in(s0, *amount) {
                lemma_warned_within(s0, s0, s1, s2, amount.span);
            }
            if tainted_in(s0, *recipient) {
                lemma_warned_within(s0, s1, s2, s2, recipient.span);
            }
        }
        true
    }

    fn visit_nft_burn(&mut self, expr: &'a SymbolicExpression, token: &'a ClarityName, identifier: &'a SymbolicExpression, sender: &'a SymbolicExpression) -> (r: bool)
        ensures
            only_adds_diagnostics(*old(self), *final(self)),
            reported(*old(self), *final(self)) == (tainted_in(*old(self), *identifier) || tainted_in(*old(self), *sender)),
            tainted_in(*old(self), *identifier) ==> warned_at(*old(self), *final(self), identifier.span),
            tainted_in(*old(self), *sender) ==> warned_at(*old(self), *final(self), sender.span),
    {
        let ghost s0 = *self;
        self.taint_check(identifier);
        let ghost s1 = *self;
        self.taint_check(sender);
        let ghost s2 = *self;
        proof {
            lemma_adds_nothing(s0);
            lemma_adds_nothing(s2);
            lemma_adds_trans(s1, s2, s2);
            if tainted_in(s0, *identifier) {
                lemma_warned_within(s0, s0, s1, s2, identifier.span);
            }
            if tainted_in(s0, *sender) {
                lemma_warned_within(s0, s1, s2, s2, sender.span);
            }
        }
        true
    }

    fn visit_nft_transfer(&mut self, expr: &'a SymbolicExpression, token: &'a ClarityName, identifier: &'a SymbolicExpression, sender: &'a SymbolicExpression, recipient: &'a SymbolicExpression) -> (r: bool)
        ensures
            only_adds_diagnostics(*old(self), *final(self)),
            reported(*old(self), *final(self)) == (tainted_in(*old(self), *identifier) || tainted_in(*old(self), *sender) || tainted_in(*old(self), *recipient)),
            tainted_in(*old(self), *identifier) ==> warned_at(*old(self), *final(self), identifier.span),
            tainted_in(*old(self), *sender) ==> warned_at(*old(self), *final(self), sender.span),
            tainted_in(*old(self), *recipient) ==> warned_at(*old(self), *final(self), recipient.span),
    {
        let ghost s0 = *self;
        self.taint_check(identifier);
        let ghost s1 = *self;
        self.taint_check(sender);
        let ghost s2 = *self;
        self.taint_check(recipient);
        let ghost s3 = *self;
        proof {
            lemma_adds_nothing(s0);
            lemma_adds_nothing(s3);
            lemma_adds_trans(s2, s3, s3);
            lemma_adds_trans(s1, s2, s3);
            if tainted_in(s0, *identifier) {
                lemma_warned_within(s0, s0, s1, s3, identifier.span);
            }
            if tainted_in(s0, *sender) {
                lemma_warned_within(s0, s1, s2, s3, sender.span);
            }
            if tainted_in(s0, *recipient) {
                lemma_warned_within(s0, s2, s3, s3, recipient.span);
            }
        }
        true
    }

    fn visit_nft_mint(&mut self, expr: &'a SymbolicExpression, token: &'a ClarityName, identifier: &'a SymbolicExpression, recipient: &'a SymbolicExpression) -> (r: bool)
        ensures
            only_adds_diagnostics(*old(self), *final(self)),
            reported(*old(self), *final(self)) == (tainted_in(*old(self), *identifier) || tainted_in(*old(self), *recipient)),
            tainted_in(*old(self), *identifier) ==> warned_at(*old(self), *final(self), identifier.span),
            tainted_in(*old(self), *recipient) ==> warned_at(*old(self), *final(self), recipient.span),
    {
        let ghost s0 = *self;
        self.taint_check(identifier);
        let ghost s1 = *self;
        self.taint_check(recipient);
        let ghost s2 = *self;
        proof {
            lemma_adds_nothing(s0);
            lemma_adds_nothing(s2);
            lemma_adds_trans(s1, s2, s2);
            if tainted_in(s0, *identifier) {
                lemma_warned_within(s0, s0, s1, s2, identifier.span);
            }
            if tainted_in(s0, *recipient) {
                lemma_warned_within(s0, s1, s2, s2, recipient.span);
            }
        }
        true
    }

    fn visit_var_set(&mut self, expr: &'a SymbolicExpression, name: &'a ClarityName, value: &'a SymbolicExpression) -> (r: bool)
        ensures
            only_adds_diagnostics(*old(self), *final(self)),
            reported(*old(self), *final(self)) == (tainted_in(*old(self), *value)),
            tainted_in(*old(self), *value) ==> warned_at(*old(self), *final(self), value.span),
    {
        let ghost s0 = *self;
        self.taint_check(value);
        let ghost s1 = *self;
        proof {
            lemma_adds_nothing(s0);
            lemma_adds_nothing(s1);
            if tainted_in(s0, *value) {
                lemma_warned_within(s0, s0, s1, s1, value.span);
            }
        }
        true
    }

    fn visit_map_set(&mut self, expr: &'a SymbolicExpression, name: &'a ClarityName, key: &Vec<(Option<&'a ClarityName>, &'a SymbolicExpression)>, value: &Vec<(Option<&'a ClarityName>, &'a SymbolicExpression)>) -> (r: bool)
        ensures
            only_adds_diagnostics(*old(self), *final(self)),
            reported(*old(self), *final(self)) == (entry_tainted_in(*old(self), key@) || entry_tainted_in(*old(self), value@)),
    {
        let mut i: usize = 0;
        while i < key.len()
            invariant
                self.state_ok(),
                i <= key@.len(),
                only_adds_diagnostics(*old(self), *self),
                reported(*old(self), *self) == entry_tainted_in(*old(self), key@.subrange(0, i as int)),
            decreases key.len() - i,
        {
            self.taint_check(key[i].1);
            proof {
                let a = key@.subrange(0, i as int);
                let b = key@.subrange(0, i + 1);
                assert(b[i as int] == key@[i as int]);
                if entry_tainted_in(*old(self), a) {
                    let w = choose|w: int| 0 <= w < a.len() && tainted_in(*old(self), *(#[trigger] a[w]).1);
                    assert(b[w] == a[w]);
                }
                if entry_tainted_in(*old(self), b) {
                    let w = choose|w: int| 0 <= w < b.len() && tainted_in(*old(self), *(#[trigger] b[w]).1);
                    if w < i {
                        assert(b[w] == a[w]);
                    }
                }
            }
            i = i + 1;
        }
        proof {
            assert(key@.subrange(0, key@.len() as int) =~= key@);
        }
        let ghost mid = *self;
        let mut j: usize = 0;
        while j < value.len()
            invariant
                self.state_ok(),
                j <= value@.len(),
                only_adds_diagnostics(*old(self), mid),
                only_adds_diagnostics(mid, *self),
                reported(mid, *self) == entry_tainted_in(*old(self), value@.subrange(0, j as int)),
            decreases value.len() - j,
        {
            self.taint_check(value[j].1);
            proof {
                let a = value@.subrange(0, j as int);
                let b = value@.subrange(0, j + 1);
                assert(b[j as int] == value@[j as int]);
                if entry_tainted_in(*old(self), a) {
                    let w = choose|w: int| 0 <= w < a.len() && tainted_in(*old(self), *(#[trigger] a[w]).1);
                    assert(b[w] == a[w]);
                }
                if entry_tainted_in(*old(self), b) {
                    let w = choose|w: int| 0 <= w < b.len() && tainted_in(*old(self), *(#[trigger] b[w]).1);
                    if w < j {
                        assert(b[w] == a[w]);
                    }
                }
            }
            j = j + 1;
        }
        proof {
            assert(value@.subrange(0, value@.len() as int) =~= value@);
        }
        true
    }

    fn visit_map_insert(&mut self, expr: &'a SymbolicExpression, name: &'a ClarityName, key: &Vec<(Option<&'a ClarityName>, &'a SymbolicExpression)>, value: &Vec<(Option<&'a ClarityName>, &'a SymbolicExpression)>) -> (r: bool)
        ensures
            only_adds_diagnostics(*old(self), *final(self)),
            reported(*old(self), *final(self)) == (entry_tainted_in(*old(self), key@) || entry_tainted_in(*old(self), value@)),
    {
        let mut i: usize = 0;
        while i < key.len()
            invariant
                self.state_ok(),
                i <= key@.len(),
                only_adds_diagnostics(*old(self), *self),
                reported(*old(self), *self) == entry_tainted_in(*old(self), key@.subrange(0, i as int)),
            decreases key.len() - i,
        {
            self.taint_check(key[i].1);
            proof {
                let a = key@.subrange(0, i as int);
                let b = key@.subrange(0, i + 1);
                assert(b[i as int] == key@[i as int]);
                if entry_tainted_in(*old(self), a) {
                    let w = choose|w: int| 0 <= w < a.len() && tainted_in(*old(self), *(#[trigger] a[w]).1);
                    assert(b[w] == a[w]);
                }
                if entry_tainted_in(*old(self), b) {
                    let w = choose|w: int| 0 <= w < b.len() && tainted_in(*old(self), *(#[trigger] b[w]).1);
                    if w < i {
                        assert(b[w] == a[w]);
                    }
                }
            }
            i = i + 1;
        }
        proof {
            assert(key@.subrange(0, key@.len() as int) =~= key@);
        }
        let ghost mid = *self;
        let mut j: usize = 0;
        while j < value.len()
            invariant
                self.state_ok(),
                j <= value@.len(),
                only_adds_diagnostics(*old(self), mid),
                only_adds_diagnostics(mid, *self),
                reported(mid, *self) == entry_tainted_in(*old(self), value@.subrange(0, j as int)),
            decreases value.len() - j,
        {
            self.taint_check(value[j].1);
            proof {
                let a = value@.subrange(0, j as int);
                let b = value@.subrange(0, j + 1);
                assert(b[j as int] == value@[j as int]);
                if entry_tainted_in(*old(self), a) {
                    let w = choose|w: int| 0 <= w < a.len() && tainted_in(*old(self), *(#[trigger] a[w]).1);
                    assert(b[w] == a[w]);
                }
                if entry_tainted_in(*old(self), b) {
                    let w = choose|w: int| 0 <= w < b.len() && tainted_in(*old(self), *(#[trigger] b[w]).1);
                    if w < j {
                        assert(b[w] == a[w]);
                    }
                }
            }
            j = j + 1;
        }
        proof {
            assert(value@.subrange(0, value@.len() as int) =~= value@);
        }
        true
    }

    fn visit_map_delete(&mut self, expr: &'a SymbolicExpression, name: &'a ClarityName, key: &Vec<(Option<&'a ClarityName>, &'a SymbolicExpression)>) -> (r: bool)
        ensures
            only_adds_diagnostics(*old(self), *final(self)),
            reported(*old(self), *final(self)) == (entry_tainted_in(*old(self), key@)),
    {
        let mut i: usize = 0;
        while i < key.len()
            invariant
                self.state_ok(),
                i <= key@.len(),
                only_adds_diagnostics(*old(self), *self),
                reported(*old(self), *self) == entry_tainted_in(*old(self), key@.subrange(0, i as int)),
            decreases key.len() - i,
        {
            self.taint_check(key[i].1);
            proof {
                let a = key@.subrange(0, i as int);
                let b = key@.subrange(0, i + 1);
                assert(b[i as int] == key@[i as int]);
                if entry_tainted_in(*old(self), a) {
                    let w = choose|w: int| 0 <= w < a.len() && tainted_in(*old(self), *(#[trigger] a[w]).1);
                    assert(b[w] == a[w]);
                }
                if entry_tainted_in(*old(self), b) {
                    let w = choose|w: int| 0 <= w < b.len() && tainted_in(*old(self), *(#[trigger] b[w]).1);
                    if w < i {
                        assert(b[w] == a[w]);
                    }
                }
            }
            i = i + 1;
        }
        proof {
            assert(key@.subrange(0, key@.len() as int) =~= key@);
        }
        true
    }
}

impl<'a> AnalysisPass for TaintChecker<'a> {
    fn run_pass(
        contract_analysis: &mut ContractAnalysis,
        analysis_db: &mut AnalysisDatabase,
        annotations: &Vec<Annotation>,
        settings: AnalysisSettings,
    ) -> (r: AnalysisResult)
        ensures
            r matches Ok(w) && forall|i: int| 0 <= i < w@.len() ==> is_taint_diagnostic(#[trigger] w@[i]),
            *final(contract_analysis) == *old(contract_analysis),
    {
        let checker = TaintChecker::new();
        Ok(checker.run(&contract_analysis.expressions))
    }
}

} // verus!
