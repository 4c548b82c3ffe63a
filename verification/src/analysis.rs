use vstd::prelude::*;
use crate::analysis_db::AnalysisDatabase;
use crate::annotation::Annotation;
use crate::ast_dependency_detector::TraitMethods;
use crate::ast_visitor::wf_expr;
use crate::check_checker::{CheckChecker, is_check_diagnostic};
use crate::contract_call_detector;
use crate::contract_call_detector::detected_calls;
use crate::contract_dependencies::ids_view;
use crate::diagnostic::Diagnostic;
use crate::representations::{ClarityName, QualifiedContractIdentifier, SymbolicExpression, TraitIdentifier, name_is};

verus! {

broadcast use vstd::std_specs::vec::group_vec_axioms;

/// The signature of a function: its parameters with their types, and its return type,
/// each type as written.
#[derive(Debug)]
pub struct FunctionType {
    pub args: Vec<(ClarityName, String)>,
    pub returns: String,
}

/// What the analyses know of a contract: its syntax trees, the contracts it depends on,
/// and what it defines.
#[derive(Debug)]
pub struct ContractAnalysis {
    pub contract_identifier: QualifiedContractIdentifier,
    pub expressions: Vec<SymbolicExpression>,
    pub dependencies: Vec<QualifiedContractIdentifier>,
    pub public_function_types: Vec<(ClarityName, FunctionType)>,
    pub read_only_function_types: Vec<(ClarityName, FunctionType)>,
    pub defined_traits: Vec<(ClarityName, TraitMethods)>,
    pub implemented_traits: Vec<TraitIdentifier>,
    pub map_types: Vec<(ClarityName, (String, String))>,
}

/// The value of the first entry of `s` named `name`.
pub open spec fn named_entry<T>(s: Seq<(ClarityName, T)>, name: Seq<char>) -> Option<T>
    decreases s.len(),
{
    if s.len() == 0 {
        None
    } else if s[0].0@ == name {
        Some(s[0].1)
    } else {
        named_entry(s.drop_first(), name)
    }
}

/// The position of the first entry of `s` named `name`.
pub fn find_named<'b, T>(s: &'b Vec<(ClarityName, T)>, name: &str) -> (r: Option<&'b T>)
    ensures
        r matches Some(t) ==> named_entry(s@, name@) == Some(*t),
        r is None <==> named_entry(s@, name@) is None,
{
    let mut i: usize = 0;
    proof {
        assert(s@.skip(0) =~= s@);
    }
    while i < s.len()
        invariant
            i <= s@.len(),
            named_entry(s@, name@) == named_entry(s@.skip(i as int), name@),
        decreases s.len() - i,
    {
        proof {
            assert(s@.skip(i as int).drop_first() =~= s@.skip(i + 1));
            assert(s@.skip(i as int)[0] == s@[i as int]);
        }
        if name_is(&s[i].0, name) {
            return Some(&s[i].1);
        }
        i = i + 1;
    }
    proof {
        assert(s@.skip(i as int).len() == 0);
    }
    None
}

/// Whether every expression of `exprs` can be traversed.
pub open spec fn exprs_wf(exprs: Seq<SymbolicExpression>) -> bool {
    forall|i: int| 0 <= i < exprs.len() ==> wf_expr(#[trigger] exprs[i])
}

impl ContractAnalysis {
    /// The analysis of a contract before any pass ran.
    pub fn new(contract_identifier: QualifiedContractIdentifier, expressions: Vec<SymbolicExpression>) -> (r: ContractAnalysis)
        ensures
            r.contract_identifier == contract_identifier,
            r.expressions == expressions,
            r.dependencies@.len() == 0,
    {
        ContractAnalysis {
            contract_identifier,
            expressions,
            dependencies: Vec::new(),
            public_function_types: Vec::new(),
            read_only_function_types: Vec::new(),
            defined_traits: Vec::new(),
            implemented_traits: Vec::new(),
            map_types: Vec::new(),
        }
    }

    /// Records that the contract depends on `dependency`.
    pub fn add_dependency(&mut self, dependency: QualifiedContractIdentifier)
        ensures
            final(self).dependencies@ == old(self).dependencies@.push(dependency),
            final(self).expressions == old(self).expressions,
            final(self).contract_identifier == old(self).contract_identifier,
    {
        self.dependencies.push(dependency);
    }

    /// The type of the public function `name`.
    pub fn get_public_function_type(&self, name: &str) -> (r: Option<&FunctionType>)
        ensures
            r matches Some(t) ==> named_entry(self.public_function_types@, name@) == Some(*t),
            r is None <==> named_entry(self.public_function_types@, name@) is None,
    {
        find_named(&self.public_function_types, name)
    }

    /// The type of the read-only function `name`.
    pub fn get_read_only_function_type(&self, name: &str) -> (r: Option<&FunctionType>)
        ensures
            r matches Some(t) ==> named_entry(self.read_only_function_types@, name@) == Some(*t),
            r is None <==> named_entry(self.read_only_function_types@, name@) is None,
    {
        find_named(&self.read_only_function_types, name)
    }

    /// The methods of the trait `name` that the contract defines.
    pub fn get_defined_trait(&self, name: &str) -> (r: Option<&TraitMethods>)
        ensures
            r matches Some(t) ==> named_entry(self.defined_traits@, name@) == Some(*t),
            r is None <==> named_entry(self.defined_traits@, name@) is None,
    {
        find_named(&self.defined_traits, name)
    }

    /// The key and value types of the map `name`.
    pub fn get_map_type(&self, name: &str) -> (r: Option<&(String, String)>)
        ensures
            r matches Some(t) ==> named_entry(self.map_types@, name@) == Some(*t),
            r is None <==> named_entry(self.map_types@, name@) is None,
    {
        find_named(&self.map_types, name)
    }
}

/// The settings of the check checker.
#[derive(Debug, Clone, Copy, Default)]
pub struct CheckCheckerSettings {}

/// The settings of the check checker as a settings file gives them.
#[derive(Debug, Clone, Copy, Default)]
pub struct CheckCheckerSettingsFile {}

/// The settings of the analyses.
#[derive(Debug, Clone, Copy, Default)]
pub struct AnalysisSettings {
    pub check_checker: CheckCheckerSettings,
}

/// The settings of the analyses as a settings file gives them.
#[derive(Debug, Clone, Copy, Default)]
pub struct AnalysisSettingsFile {
    pub check_checker: Option<CheckCheckerSettingsFile>,
}

impl AnalysisSettings {
    /// The settings that a settings file gives: those of the check checker it names, or
    /// the defaults.
    pub fn from_file(from_file: AnalysisSettingsFile) -> (r: AnalysisSettings) {
        match from_file.check_checker {
            Some(_) => AnalysisSettings { check_checker: CheckCheckerSettings {} },
            None => AnalysisSettings { check_checker: CheckCheckerSettings {} },
        }
    }
}

/// The result of an analysis pass: the warnings it found, or the diagnostics that end in
/// an error.
pub type AnalysisResult = Result<Vec<Diagnostic>, Vec<Diagnostic>>;

/// An analysis of a contract.
pub trait AnalysisPass {
    fn run_pass(
        contract_analysis: &mut ContractAnalysis,
        analysis_db: &mut AnalysisDatabase,
        annotations: &Vec<Annotation>,
        settings: AnalysisSettings,
    ) -> (r: AnalysisResult)
        requires
            exprs_wf(old(contract_analysis).expressions@),
        ensures
            final(contract_analysis).expressions == old(contract_analysis).expressions,
            final(contract_analysis).contract_identifier == old(contract_analysis).contract_identifier,
    ;
}

/// Records in the analysis the contracts that the contract calls, uses or implements.
pub struct ContractCallDetector;

impl AnalysisPass for ContractCallDetector {
    fn run_pass(
        contract_analysis: &mut ContractAnalysis,
        analysis_db: &mut AnalysisDatabase,
        annotations: &Vec<Annotation>,
        settings: AnalysisSettings,
    ) -> (r: AnalysisResult)
        ensures
            r matches Ok(w) && w@.len() == 0,
            final(contract_analysis).dependencies@.len() >= old(contract_analysis).dependencies@.len(),
            final(contract_analysis).dependencies@.subrange(0, old(contract_analysis).dependencies@.len() as int)
                == old(contract_analysis).dependencies@,
            ids_view(final(contract_analysis).dependencies@.subrange(old(contract_analysis).dependencies@.len() as int,
                final(contract_analysis).dependencies@.len() as int)).no_duplicates(),
            contract_call_detector::ids_sorted(ids_view(final(contract_analysis).dependencies@.subrange(
                old(contract_analysis).dependencies@.len() as int,
                final(contract_analysis).dependencies@.len() as int,
            ))),
            ids_view(final(contract_analysis).dependencies@.subrange(old(contract_analysis).dependencies@.len() as int,
                final(contract_analysis).dependencies@.len() as int)).to_set()
                == detected_calls(old(contract_analysis).expressions@, 0),
    {
        let mut contract_calls: Vec<QualifiedContractIdentifier> = Vec::new();
        proof {
            assert(ids_view(contract_calls@) =~= Seq::empty());
            assert(ids_view(contract_calls@).to_set() =~= Set::empty());
        }
        contract_call_detector::traverse(contract_analysis.expressions.as_slice(), &mut contract_calls);
        let ghost calls = contract_calls@;
        proof {
            contract_call_detector::lemma_sorted_no_duplicates(ids_view(calls));
            assert(ids_view(calls).to_set() =~= detected_calls(contract_analysis.expressions@, 0));
        }
        let mut rev = crate::parser::reversed(contract_calls);
        let ghost base = contract_analysis.dependencies@;
        proof {
            assert(base + calls.subrange(0, 0) =~= base);
        }
        while rev.len() > 0
            invariant
                contract_analysis.expressions == old(contract_analysis).expressions,
                contract_analysis.contract_identifier == old(contract_analysis).contract_identifier,
                base == old(contract_analysis).dependencies@,
                rev@.len() <= calls.len(),
                forall|k: int| 0 <= k < rev@.len() ==> #[trigger] rev@[k] == calls[calls.len() - 1 - k],
                contract_analysis.dependencies@ == base + calls.subrange(0, calls.len() - rev@.len()),
            decreases rev@.len(),
        {
            let ghost before = rev@;
            let dep = rev.pop().unwrap();
            proof {
                assert(dep == before[before.len() - 1]);
                assert forall|k: int| 0 <= k < rev@.len() implies #[trigger] rev@[k] == calls[calls.len() - 1 - k] by {
                    assert(rev@[k] == before[k]);
                }
            }
            contract_analysis.add_dependency(dep);
            proof {
                assert(calls.subrange(0, calls.len() - rev@.len()) =~= calls.subrange(0, calls.len() - before.len()).push(dep));
            }
        }
        proof {
            let f = contract_analysis.dependencies@;
            assert(f.subrange(0, base.len() as int) =~= base);
            assert(f.subrange(base.len() as int, f.len() as int) =~= calls);
        }
        Ok(Vec::new())
    }
}

/// The analysis passes that can be asked for by name.
pub enum PassKind {
    CheckChecker,
}

/// Whether `name` names an analysis pass: `all` or `check_checker`.
pub open spec fn pass_name_ok(name: Seq<char>) -> bool {
    name == "all"@ || name == "check_checker"@
}

/// Whether every name of `names` names an analysis pass.
pub open spec fn analysis_passes_ok(names: Seq<String>) -> bool {
    forall|i: int| 0 <= i < names.len() ==> pass_name_ok(#[trigger] names[i]@)
}

/// The passes that the names of `pass_list` ask for: `all` and `check_checker` both ask
/// for the check checker; the error names the first name of no pass.
pub fn passes_of(pass_list: &Vec<String>) -> (r: Result<Vec<PassKind>, String>)
    ensures
        r is Ok <==> analysis_passes_ok(pass_list@),
        r matches Ok(p) ==> p@.len() == pass_list@.len(),
        r matches Err(m) ==> exists|i: int|
            0 <= i < pass_list@.len() && !pass_name_ok(#[trigger] pass_list@[i]@) && m@ == crate::diagnostic::painted(
                1,
                "error"@,
            ) + ": Unrecognized analysis pass: "@ + pass_list@[i]@,
{
    let mut passes: Vec<PassKind> = Vec::new();
    let mut i: usize = 0;
    while i < pass_list.len()
        invariant
            i <= pass_list@.len(),
            passes@.len() == i,
            forall|k: int| 0 <= k < i ==> pass_name_ok(#[trigger] pass_list@[k]@),
        decreases pass_list.len() - i,
    {
        let pass = &pass_list[i];
        if name_is(pass, "all") || name_is(pass, "check_checker") {
            passes.push(PassKind::CheckChecker);
        } else {
            let mut message = crate::diagnostic::red("error");
            message.append(": Unrecognized analysis pass: ");
            message.append(pass.as_str());
            return Err(message);
        }
        i = i + 1;
    }
    Ok(passes)
}

/// Runs the contract call detector, then the passes that `pass_list` names, in order:
/// the warnings of every pass are gathered, and the first pass that fails ends the run
/// with the diagnostics gathered so far and its own.
pub fn run_analysis(
    contract_analysis: &mut ContractAnalysis,
    analysis_db: &mut AnalysisDatabase,
    pass_list: &Vec<String>,
    annotations: &Vec<Annotation>,
    settings: AnalysisSettings,
) -> (r: Result<AnalysisResult, String>)
    requires
        exprs_wf(old(contract_analysis).expressions@),
    ensures
        final(contract_analysis).expressions == old(contract_analysis).expressions,
        final(contract_analysis).contract_identifier == old(contract_analysis).contract_identifier,
        r is Err <==> !analysis_passes_ok(pass_list@),
        analysis_passes_ok(pass_list@) ==> (r matches Ok(Ok(ws)) && forall|i: int|
            0 <= i < ws@.len() ==> is_check_diagnostic(#[trigger] ws@[i])),
        analysis_passes_ok(pass_list@) && pass_list@.len() == 0 ==> (r matches Ok(Ok(ws)) && ws@.len() == 0),
        analysis_passes_ok(pass_list@) ==> {
            let d0 = old(contract_analysis).dependencies@;
            let d1 = final(contract_analysis).dependencies@;
            &&& d1.len() >= d0.len()
            &&& d1.subrange(0, d0.len() as int) == d0
            &&& ids_view(d1.subrange(d0.len() as int, d1.len() as int)).to_set() == detected_calls(
                old(contract_analysis).expressions@,
                0,
            )
            &&& contract_call_detector::ids_sorted(ids_view(d1.subrange(d0.len() as int, d1.len() as int)))
        },
{
    let passes = match passes_of(pass_list) {
        Ok(passes) => passes,
        Err(message) => return Err(message),
    };
    let mut errors: Vec<Diagnostic> = Vec::new();
    match ContractCallDetector::run_pass(contract_analysis, analysis_db, annotations, settings) {
        Ok(mut w) => errors.append(&mut w),
        Err(mut e) => {
            errors.append(&mut e);
            return Ok(Err(errors));
        },
    }
    let ghost after_detection = *contract_analysis;
    let mut i: usize = 0;
    while i < passes.len()
        invariant
            i <= passes@.len(),
            contract_analysis.expressions == old(contract_analysis).expressions,
            contract_analysis.contract_identifier == old(contract_analysis).contract_identifier,
            *contract_analysis == after_detection,
            exprs_wf(contract_analysis.expressions@),
            analysis_passes_ok(pass_list@),
            forall|k: int| 0 <= k < errors@.len() ==> is_check_diagnostic(#[trigger] errors@[k]),
            passes@.len() == pass_list@.len(),
            i == 0 ==> errors@.len() == 0,
        decreases passes.len() - i,
    {
        let result = match passes[i] {
            PassKind::CheckChecker => CheckChecker::run_pass(contract_analysis, analysis_db, annotations, settings),
        };
        match result {
            Ok(mut w) => {
                let ghost before = errors@;
                errors.append(&mut w);
                proof {
                    assert forall|k: int| 0 <= k < errors@.len() implies is_check_diagnostic(#[trigger] errors@[k]) by {
                        if k < before.len() {
                            assert(errors@[k] == before[k]);
                        }
                    }
                }
            },
            Err(mut e) => {
                errors.append(&mut e);
                return Ok(Err(errors));
            },
        }
        i = i + 1;
    }
    Ok(Ok(errors))
}

} // verus!
