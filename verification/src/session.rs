use vstd::prelude::*;
use vstd::string::*;
use crate::analysis::{ContractAnalysis, analysis_passes_ok};
use crate::analysis_db::contract_id_text;
use crate::debug::{address_ok, id_text, parse_contract_id, parse_contract_identifier};
use crate::diagnostic::{Diagnostic, decimal, decimal_string, diagnostics_lines, green, painted};
use crate::functions::DefineFunctions;
use crate::interpreter::{ClarityInterpreter, ExecutionResult, same_balances};
use crate::literal::evaluates;
use crate::representations::{
    ContractAST, QualifiedContractIdentifier, StandardPrincipalData, SymbolicExpression, SymbolicExpressionType,
    Value, copy_string,
};
use crate::text::{lines, lines_of, split_char, split_on, views};
use crate::settings::{InitialContract, SessionSettings, burn_address, deployer_address};

verus! {

broadcast use vstd::std_specs::vec::group_vec_axioms;

/// A REPL session: its settings, the contracts deployed in it, and the interpreter state.
pub struct Session {
    pub is_interactive: bool,
    pub settings: SessionSettings,
    /// Each deployed contract with its public functions and their parameters.
    pub contracts: Vec<(String, Vec<(String, Vec<String>)>)>,
    pub interpreter: ClarityInterpreter,
    pub show_costs: bool,
    /// The documentation of each native function, by its name.
    pub api_reference: Vec<(String, String)>,
    /// The analysis, the source and the path of each initial contract deployed.
    pub initial_contracts_analysis: Vec<(ContractAnalysis, String, String)>,
}

/// How much of each resource a run used, or may use.
pub struct ExecutionCost {
    pub write_length: u64,
    pub write_count: u64,
    pub read_length: u64,
    pub read_count: u64,
    pub runtime: u64,
}

/// The costs of a run: what it used and the limits, of the resources and of memory.
pub struct CostSynthesis {
    pub total: ExecutionCost,
    pub limit: ExecutionCost,
    pub memory: u64,
    pub memory_limit: u64,
}

/// The costs of a call that a test made.
pub struct CostsReport {
    pub test_name: String,
    pub contract_id: String,
    pub method: String,
    pub args: Vec<String>,
    pub cost_result: CostSynthesis,
}

impl Session {
    /// A session whose transactions are sent by the initial deployer of the settings,
    /// or by the testnet burn address.
    pub fn new(settings: SessionSettings) -> (r: Session)
        requires
            settings.initial_deployer matches Some(a) ==> crate::debug::address_ok(a.address@),
        ensures
            r.interpreter.tx_sender_spec().address@ == deployer_address(
                match settings.initial_deployer {
                    Some(a) => Some(a.address),
                    None => None,
                },
                false,
            ),
            r.contracts@.len() == 0,
            r.interpreter.accounts_spec().is_empty(),
            r.interpreter.tokens_spec().is_empty(),
            forall|a: Seq<char>, t: Seq<char>| !(#[trigger] r.interpreter.has_balance(a, t)),
            crate::balances::keys_of(r.api_reference@) == crate::api_reference::api_keywords(),
            r.initial_contracts_analysis@.len() == 0,
            !r.show_costs,
            !r.is_interactive,
            r.interpreter.analysis_spec().len() == settings.analysis@.len(),
            forall|i: int| 0 <= i < settings.analysis@.len() ==> (#[trigger] r.interpreter.analysis_spec()[i])@ == settings.analysis@[i]@,
    {
        let address = match &settings.initial_deployer {
            Some(entry) => copy_string(&entry.address),
            None => burn_address(false),
        };
        let tx_sender = StandardPrincipalData { address };
        let costs_version = settings.costs_version;
        let mut analysis: Vec<String> = Vec::new();
        let mut i: usize = 0;
        while i < settings.analysis.len()
            invariant
                i <= settings.analysis@.len(),
                analysis@.len() == i,
                forall|k: int| 0 <= k < i ==> (#[trigger] analysis@[k])@ == settings.analysis@[k]@,
            decreases settings.analysis.len() - i,
        {
            analysis.push(copy_string(&settings.analysis[i]));
            i = i + 1;
        }
        Session {
            is_interactive: false,
            interpreter: ClarityInterpreter::new(tx_sender, costs_version, analysis),
            contracts: Vec::new(),
            api_reference: crate::api_reference::build_api_reference(),
            initial_contracts_analysis: Vec::new(),
            show_costs: false,
            settings,
        }
    }

    /// The name given to the `n`-th contract deployed without a name.
    pub open spec fn default_contract_name(n: nat) -> Seq<char> {
        "contract-"@ + decimal(n)
    }

    /// Parses a contract's source, under the name given or the next default name, with
    /// the session's sender as deployer; gives its identifier, its syntax trees and the
    /// warnings about its annotations, or the diagnostics of the syntax error.
    pub fn build_ast(&mut self, snippet: &String, name: Option<&str>) -> (r: Result<(QualifiedContractIdentifier, ContractAST, Vec<Diagnostic>), Vec<Diagnostic>>)
        ensures
            r matches Ok(res) ==> res.0@ == res.1.contract_identifier@ && res.0.issuer.address@ == old(
                self,
            ).interpreter.tx_sender_spec().address@ && res.0.name@ == match name {
                Some(n) => n@,
                None => Session::default_contract_name(old(self).contracts@.len()),
            },
            r matches Err(d) ==> d@.len() == 1,
    {
        let contract_name = match name {
            Some(n) => String::from_str(n),
            None => {
                let mut s = String::from_str("contract-");
                let count = decimal_string(self.contracts.len() as u128);
                s.append(count.as_str());
                s
            },
        };
        let contract_identifier = QualifiedContractIdentifier { issuer: self.interpreter.get_tx_sender(), name: contract_name };
        let ghost id = contract_identifier;
        match self.interpreter.build_ast(contract_identifier, snippet) {
            Ok(ast) => {
                let (_, diagnostics) = self.interpreter.collect_annotations(&ast, snippet);
                let id = ast.contract_identifier.copy();
                Ok((id, ast, diagnostics))
            },
            Err(e) => {
                let mut diagnostics = Vec::new();
                if let Some(d) = e.1 {
                    diagnostics.push(d);
                }
                Err(diagnostics)
            },
        }
    }

    /// Switches whether costs are always shown, and says so.
    pub fn toggle_costs(&mut self, output: &mut Vec<String>)
        ensures
            final(self).show_costs == !old(self).show_costs,
            final(self).interpreter == old(self).interpreter,
            final(self).contracts == old(self).contracts,
            final(self).settings == old(self).settings,
            final(self).api_reference == old(self).api_reference,
            final(self).initial_contracts_analysis == old(self).initial_contracts_analysis,
            final(self).is_interactive == old(self).is_interactive,
            views(final(output)@) == views(old(output)@).push(
                painted(
                    2,
                    "Always show costs: "@ + if final(self).show_costs {
                        "true"@
                    } else {
                        "false"@
                    },
                ),
            ),
    {
        let ghost before = views(output@);
        self.show_costs = !self.show_costs;
        let mut s = String::from_str("Always show costs: ");
        s.append(if self.show_costs {
            "true"
        } else {
            "false"
        });
        output.push(green(s.as_str()));
        proof {
            assert(views(output@) =~= before.push(output@.last()@));
        }
    }

    pub fn get_tx_sender(&self) -> (r: String)
        ensures
            r@ == self.interpreter.tx_sender_spec().address@,
    {
        self.interpreter.get_tx_sender().address
    }

    pub fn set_tx_sender(&mut self, address: String)
        requires
            address_ok(address@),
        ensures
            final(self).interpreter.tx_sender_spec().address@ == address@,
            final(self).interpreter.block_height_spec() == old(self).interpreter.block_height_spec(),
            final(self).interpreter.analysis_spec() == old(self).interpreter.analysis_spec(),
            same_balances(old(self).interpreter, final(self).interpreter),
            same_session_data(*old(self), *final(self)),
    {
        self.interpreter.set_tx_sender(StandardPrincipalData { address });
    }

    pub fn advance_chain_tip(&mut self, count: u32) -> (r: u32)
        ensures
            final(self).interpreter.tx_sender_spec() == old(self).interpreter.tx_sender_spec(),
            final(self).interpreter.analysis_spec() == old(self).interpreter.analysis_spec(),
            same_balances(old(self).interpreter, final(self).interpreter),
            same_session_data(*old(self), *final(self)),
            r == final(self).interpreter.block_height_spec(),
            r as int == if old(self).interpreter.block_height_spec() + count <= u32::MAX {
                old(self).interpreter.block_height_spec() + count
            } else {
                u32::MAX as int
            },
    {
        self.interpreter.advance_chain_tip(count)
    }
}


/// The text of an integer.
pub open spec fn int_text(i: i128) -> Seq<char> {
    if i < 0 {
        "-"@ + decimal((-i) as nat)
    } else {
        decimal(i as nat)
    }
}

/// A type as its expression writes it: names as they are, lists in brackets with their
/// items apart, integers in decimal (`u` before an unsigned one), anything else as `?`.
pub open spec fn type_text(e: SymbolicExpression) -> Seq<char>
    decreases e, 0nat,
{
    match e.expr {
        SymbolicExpressionType::Atom(n) => n@,
        SymbolicExpressionType::List(v) => "("@ + items_text(v@) + ")"@,
        SymbolicExpressionType::LiteralValue(Value::UInt(u)) => "u"@ + decimal(u as nat),
        SymbolicExpressionType::LiteralValue(Value::Int(i)) => int_text(i),
        _ => "?"@,
    }
}

/// The texts of the types `s`, a space between each two.
pub open spec fn items_text(s: Seq<SymbolicExpression>) -> Seq<char>
    decreases s, 1nat,
{
    if s.len() == 0 {
        Seq::empty()
    } else if s.len() == 1 {
        type_text(s[0])
    } else {
        items_text(s.drop_last()) + " "@ + type_text(s.last())
    }
}

fn int_string(i: i128) -> (r: String)
    ensures
        r@ == int_text(i),
{
    if i < 0 {
        let magnitude: u128 = ((-(i + 1)) as u128) + 1;
        let mut r = String::from_str("-");
        let d = decimal_string(magnitude);
        r.append(d.as_str());
        r
    } else {
        decimal_string(i as u128)
    }
}

/// The text of the type `e`.
pub fn type_string(e: &SymbolicExpression) -> (r: String)
    ensures
        r@ == type_text(*e),
    decreases e, 0nat,
{
    match &e.expr {
        SymbolicExpressionType::Atom(n) => n.clone(),
        SymbolicExpressionType::List(v) => {
            let mut r = String::from_str("(");
            let items = items_string(v);
            r.append(items.as_str());
            r.append(")");
            r
        },
        SymbolicExpressionType::LiteralValue(Value::UInt(u)) => {
            let mut r = String::from_str("u");
            let d = decimal_string(*u);
            r.append(d.as_str());
            r
        },
        SymbolicExpressionType::LiteralValue(Value::Int(i)) => int_string(*i),
        _ => String::from_str("?"),
    }
}

fn items_string(v: &Vec<SymbolicExpression>) -> (r: String)
    ensures
        r@ == items_text(v@),
    decreases v@, 1nat,
{
    let mut r = String::new();
    let mut i: usize = 0;
    proof {
        assert(r@ =~= items_text(v@.take(0)));
    }
    while i < v.len()
        invariant
            i <= v@.len(),
            r@ == items_text(v@.take(i as int)),
        decreases v.len() - i,
    {
        proof {
            assert(decreases_to!(v@ => v@[i as int]));
        }
        let t = type_string(&v[i]);
        proof {
            let u = v@.take(i + 1);
            assert(u.drop_last() =~= v@.take(i as int));
            assert(u.last() == v@[i as int]);
            if i == 0 {
                assert(u[0] == v@[0]);
            }
        }
        if i > 0 {
            r.append(" ");
        }
        r.append(t.as_str());
        proof {
            let u = v@.take(i + 1);
            if i == 0 {
                assert(r@ =~= items_text(u));
            } else {
                assert(r@ =~= items_text(u));
            }
        }
        i = i + 1;
    }
    proof {
        assert(v@.take(i as int) =~= v@);
    }
    r
}

/// The public function that `e` defines, if it is a `define-public` with a signature: its
/// name and the text `(name type)` of each parameter that is written as a pair.
pub open spec fn public_function(e: SymbolicExpression) -> Option<(Seq<char>, Seq<Seq<char>>)> {
    if e.is_list() && e.list().len() >= 2 && e.list()[0].is_atom() && DefineFunctions::spec_lookup(
        e.list()[0].atom()@,
    ) == Some(DefineFunctions::PublicFunction) && e.list()[1].is_list() && e.list()[1].list().len() >= 1
        && e.list()[1].list()[0].is_atom() {
        let sig = e.list()[1].list();
        Some((sig[0].atom()@, parameter_texts(sig.drop_first())))
    } else {
        None
    }
}

/// The texts `(name type)` of the parameters of `params` written as a name and a type.
pub open spec fn parameter_texts(params: Seq<SymbolicExpression>) -> Seq<Seq<char>>
    decreases params.len(),
{
    if params.len() == 0 {
        Seq::empty()
    } else {
        let rest = parameter_texts(params.drop_last());
        let p = params.last();
        if p.is_list() && p.list().len() == 2 && p.list()[0].is_atom() {
            rest.push("("@ + p.list()[0].atom()@ + " "@ + type_text(p.list()[1]) + ")"@)
        } else {
            rest
        }
    }
}

/// The public functions that the expressions `exprs` define, in order.
pub open spec fn public_functions(exprs: Seq<SymbolicExpression>) -> Seq<(Seq<char>, Seq<Seq<char>>)>
    decreases exprs.len(),
{
    if exprs.len() == 0 {
        Seq::empty()
    } else {
        let rest = public_functions(exprs.drop_last());
        match public_function(exprs.last()) {
            Some(f) => rest.push(f),
            None => rest,
        }
    }
}

/// The view of a list of functions with the texts of their parameters.
pub open spec fn functions_view(fs: Seq<(String, Vec<String>)>) -> Seq<(Seq<char>, Seq<Seq<char>>)> {
    fs.map_values(|f: (String, Vec<String>)| (f.0@, views(f.1@)))
}

fn parameter_strings(params: &Vec<SymbolicExpression>, from: usize) -> (r: Vec<String>)
    requires
        from <= params@.len(),
    ensures
        views(r@) == parameter_texts(params@.skip(from as int)),
{
    let mut r: Vec<String> = Vec::new();
    let mut i: usize = from;
    proof {
        assert(params@.skip(from as int).take(0) =~= Seq::<SymbolicExpression>::empty());
        assert(views(r@) =~= Seq::<Seq<char>>::empty());
    }
    while i < params.len()
        invariant
            from <= i <= params@.len(),
            views(r@) == parameter_texts(params@.skip(from as int).take(i - from)),
        decreases params.len() - i,
    {
        let ghost u = params@.skip(from as int).take(i + 1 - from);
        proof {
            assert(u.drop_last() =~= params@.skip(from as int).take(i - from));
            assert(u.last() == params@[i as int]);
        }
        let ghost before = views(r@);
        if let SymbolicExpressionType::List(pair) = &params[i].expr {
            if pair.len() == 2 {
                if let Some(name) = pair[0].match_atom() {
                    let mut t = String::from_str("(");
                    t.append(name.as_str());
                    t.append(" ");
                    let ty = type_string(&pair[1]);
                    t.append(ty.as_str());
                    t.append(")");
                    let ghost tv = t@;
                    r.push(t);
                    proof {
                        assert(views(r@) =~= before.push(tv));
                    }
                }
            }
        }
        i = i + 1;
    }
    proof {
        assert(params@.skip(from as int).take(i - from) =~= params@.skip(from as int));
    }
    r
}

fn public_function_of(e: &SymbolicExpression) -> (r: Option<(String, Vec<String>)>)
    ensures
        r matches Some(f) ==> public_function(*e) == Some((f.0@, views(f.1@))),
        r is None ==> public_function(*e) is None,
{
    let v = match &e.expr {
        SymbolicExpressionType::List(v) => v,
        _ => {
            return None;
        },
    };
    if v.len() < 2 {
        return None;
    }
    let head = match v[0].match_atom() {
        Some(h) => h,
        None => {
            return None;
        },
    };
    match DefineFunctions::lookup_by_name(head.as_str()) {
        Some(DefineFunctions::PublicFunction) => {},
        _ => {
            return None;
        },
    }
    let sig = match v[1].match_list() {
        Some(sig) => sig,
        None => {
            return None;
        },
    };
    if sig.len() < 1 {
        return None;
    }
    let name = match sig[0].match_atom() {
        Some(n) => n.clone(),
        None => {
            return None;
        },
    };
    let params = parameter_strings(sig, 1);
    proof {
        assert(sig@.skip(1) =~= sig@.drop_first());
    }
    Some((name, params))
}

/// The public functions that `exprs` define, with the texts of their parameters.
pub fn public_functions_of(exprs: &Vec<SymbolicExpression>) -> (r: Vec<(String, Vec<String>)>)
    ensures
        functions_view(r@) == public_functions(exprs@),
{
    let mut r: Vec<(String, Vec<String>)> = Vec::new();
    let mut i: usize = 0;
    proof {
        assert(exprs@.take(0) =~= Seq::<SymbolicExpression>::empty());
        assert(functions_view(r@) =~= Seq::empty());
    }
    while i < exprs.len()
        invariant
            i <= exprs@.len(),
            functions_view(r@) == public_functions(exprs@.take(i as int)),
        decreases exprs.len() - i,
    {
        let ghost u = exprs@.take(i + 1);
        proof {
            assert(u.drop_last() =~= exprs@.take(i as int));
            assert(u.last() == exprs@[i as int]);
        }
        let ghost before = functions_view(r@);
        if let Some(f) = public_function_of(&exprs[i]) {
            let ghost fv = (f.0@, views(f.1@));
            r.push(f);
            proof {
                assert(functions_view(r@) =~= before.push(fv));
            }
        }
        i = i + 1;
    }
    proof {
        assert(exprs@.take(i as int) =~= exprs@);
    }
    r
}

/// The public functions of `fs`, each name with the parameters of its last definition: what
/// a map from names to parameters holds once `fs` is inserted in order.
pub open spec fn function_map(fs: Seq<(Seq<char>, Seq<Seq<char>>)>) -> Map<Seq<char>, Seq<Seq<char>>>
    decreases fs.len(),
{
    if fs.len() == 0 {
        Map::empty()
    } else {
        function_map(fs.drop_last()).insert(fs.last().0, fs.last().1)
    }
}

/// The entries of a keyed list of functions, as a map.
pub open spec fn functions_map(r: Seq<(String, Vec<String>)>) -> Map<Seq<char>, Seq<Seq<char>>> {
    Map::new(
        |k: Seq<char>| crate::analysis::named_entry(r, k) is Some,
        |k: Seq<char>| views(crate::analysis::named_entry(r, k)->0@),
    )
}

/// The public functions that `exprs` define, sorted by name, each with the texts of the
/// parameters of its last definition.
pub fn public_function_table(exprs: &Vec<SymbolicExpression>) -> (r: Vec<(String, Vec<String>)>)
    ensures
        crate::balances::keys_sorted(r@),
        functions_map(r@) == function_map(public_functions(exprs@)),
{
    let fs = public_functions_of(exprs);
    let ghost fv = functions_view(fs@);
    let mut r: Vec<(String, Vec<String>)> = Vec::new();
    let mut i: usize = 0;
    proof {
        assert(fv.take(0) =~= Seq::<(Seq<char>, Seq<Seq<char>>)>::empty());
        assert(functions_map(r@) =~= Map::<Seq<char>, Seq<Seq<char>>>::empty());
    }
    while i < fs.len()
        invariant
            i <= fs@.len(),
            fv == functions_view(fs@),
            crate::balances::keys_sorted(r@),
            functions_map(r@) == function_map(fv.take(i as int)),
        decreases fs.len() - i,
    {
        let params = crate::links::copy_strings(&fs[i].1);
        let ghost before = r@;
        crate::balances::write_entry(&mut r, fs[i].0.as_str(), params);
        proof {
            let u = fv.take(i + 1);
            assert(u.drop_last() =~= fv.take(i as int));
            assert(u.last() == (fs@[i as int].0@, views(fs@[i as int].1@)));
            assert(functions_map(r@) =~= functions_map(before).insert(fs@[i as int].0@, views(fs@[i as int].1@)));
        }
        i = i + 1;
    }
    proof {
        assert(fv.take(i as int) =~= fv);
    }
    r
}

/// The identifier under which a snippet named `name` runs, where the sender is `sender`: a
/// name that starts with `S` is a whole identifier; another is a contract of the sender.
pub open spec fn snippet_contract(name: Seq<char>, sender: Seq<char>) -> (Seq<char>, Seq<char>) {
    if name.len() > 0 && name[0] == 'S' {
        parse_contract_id(name)->0
    } else {
        (sender, name)
    }
}

/// Whether `name` can name a snippet: one that starts with `S` is a whole identifier.
pub open spec fn snippet_name_ok(name: Seq<char>) -> bool {
    name.len() > 0 && (name[0] == 'S' ==> parse_contract_id(name) is Some)
}

impl Session {
    /// The passes that the session's interpreter runs are all known.
    pub open spec fn analysis_ok(&self) -> bool {
        analysis_passes_ok(self.interpreter.analysis_spec())
    }

    /// Runs a snippet through the checks, under the name given or the next default name; a
    /// snippet that defines a function or a trait is kept among the session's contracts,
    /// with its public functions. Gives what the run gives, or the diagnostics of the parser
    /// or the analyses that refused it.
    pub fn interpret(&mut self, snippet: String, name: Option<String>, cost_track: bool, test_name: Option<String>) -> (r:
        Result<ExecutionResult, Vec<Diagnostic>>)
        requires
            old(self).analysis_ok(),
            name matches Some(n) ==> snippet_name_ok(n@),
        ensures
            ran_snippet(
                *old(self),
                *final(self),
                match name {
                    Some(n) => n@,
                    None => Session::default_contract_name(old(self).contracts@.len()),
                },
                r is Ok && r->Ok_0.contract is Some,
            ),
            r matches Ok(res) ==> res.result is None && res.events@.len() == 0 && (res.analysis is Some
                <==> res.contract is Some),
            r matches Ok(res) ==> (res.value matches Some(v) ==> res.contract is None && exists|e: SymbolicExpression|
                evaluates(e, v)),
            r matches Ok(res) ==> (res.contract matches Some(c) ==> c@ == snippet_contract(
                match name {
                    Some(n) => n@,
                    None => Session::default_contract_name(old(self).contracts@.len()),
                },
                old(self).interpreter.tx_sender_spec().address@,
            )),
            r matches Err(d) ==> d@.len() <= 1,
    {
        let contract_name = match name {
            Some(n) => n,
            None => {
                let mut s = String::from_str("contract-");
                let count = decimal_string(self.contracts.len() as u128);
                s.append(count.as_str());
                proof {
                    reveal_strlit("contract-");
                    assert(s@[0] == 'c');
                }
                s
            },
        };
        let contract_identifier = if contract_name.unicode_len() > 0 && contract_name.get_char(0) == 'S' {
            match parse_contract_identifier(contract_name.as_str()) {
                Some(id) => id,
                None => {
                    // Ruled out by the precondition.
                    QualifiedContractIdentifier { issuer: self.interpreter.get_tx_sender(), name: contract_name }
                },
            }
        } else {
            QualifiedContractIdentifier { issuer: self.interpreter.get_tx_sender(), name: contract_name }
        };
        let ghost old_contracts = self.contracts@;
        match self.interpreter.run(&snippet, contract_identifier, cost_track) {
            Ok(result) => {
                if let Some(c) = &result.contract {
                    let ast = self.interpreter.build_ast(c.copy(), &snippet);
                    let functions = match ast {
                        Ok(ast) => public_function_table(&ast.expressions),
                        Err(_) => Vec::new(),
                    };
                    self.contracts.push((contract_id_text(c), functions));
                    proof {
                        assert(self.contracts@.drop_last() =~= old_contracts);
                    }
                }
                Ok(result)
            },
            Err(e) => {
                let mut diagnostics = Vec::new();
                if let Some(d) = e.1 {
                    diagnostics.push(d);
                }
                Err(diagnostics)
            },
        }
    }

    /// Runs a snippet as `interpret` does and gives the lines that show the outcome: each
    /// diagnostic with the source line it points at, the events, and the value; or, where
    /// the snippet was refused, the lines of the diagnostics that refused it. The contract
    /// is named `name`, or `<stdin>`.
    pub fn formatted_interpretation(&mut self, snippet: String, name: Option<String>, cost_track: bool, test_name: Option<
        String,
    >) -> (r: Result<(Vec<String>, ExecutionResult), Vec<String>>)
        requires
            old(self).analysis_ok(),
            name matches Some(n) ==> snippet_name_ok(n@),
        ensures
            ran_snippet(
                *old(self),
                *final(self),
                match name {
                    Some(n) => n@,
                    None => Session::default_contract_name(old(self).contracts@.len()),
                },
                r is Ok && r->Ok_0.1.contract is Some,
            ),
            r matches Ok(res) ==> views(res.0@) == diagnostics_lines(
                res.1.diagnostics@,
                match name {
                    Some(n) => n@,
                    None => "<stdin>"@,
                },
                lines(snippet@),
            ),
            r matches Ok(res) ==> (res.1.analysis is Some <==> res.1.contract is Some),
            r matches Ok(res) ==> (res.1.contract matches Some(c) ==> c@ == snippet_contract(
                match name {
                    Some(n) => n@,
                    None => Session::default_contract_name(old(self).contracts@.len()),
                },
                old(self).interpreter.tx_sender_spec().address@,
            )),
            r matches Err(out) ==> exists|ds: Seq<Diagnostic>|
                views(out@) == #[trigger] diagnostics_lines(ds, shown_name(name), lines(snippet@)),
    {
        let lines = lines_of(snippet.as_str());
        let contract_name = match &name {
            Some(n) => n.clone(),
            None => String::from_str("<stdin>"),
        };
        let ghost shown = shown_name(name);
        assert(contract_name@ == shown);
        let result = self.interpret(snippet, name, cost_track, test_name);
        match result {
            Ok(result) => {
                let output = format_diagnostics(&result.diagnostics, contract_name.as_str(), &lines);
                Ok((output, result))
            },
            Err(diagnostics) => {
                let output = format_diagnostics(&diagnostics, contract_name.as_str(), &lines);
                proof {
                    assert(views(output@) == diagnostics_lines(diagnostics@, shown, views(lines@)));
                }
                Err(output)
            },
        }
    }
}

/// The lines that show each diagnostic of `ds`, in order.
pub fn format_diagnostics(ds: &Vec<Diagnostic>, name: &str, lines: &Vec<String>) -> (r: Vec<String>)
    ensures
        views(r@) == diagnostics_lines(ds@, name@, views(lines@)),
{
    let mut output: Vec<String> = Vec::new();
    let mut i: usize = 0;
    proof {
        assert(ds@.take(0) =~= Seq::<Diagnostic>::empty());
        assert(views(output@) =~= Seq::<Seq<char>>::empty());
    }
    while i < ds.len()
        invariant
            i <= ds@.len(),
            views(output@) == diagnostics_lines(ds@.take(i as int), name@, views(lines@)),
        decreases ds.len() - i,
    {
        let ghost u = ds@.take(i + 1);
        proof {
            assert(u.drop_last() =~= ds@.take(i as int));
            assert(u.last() == ds@[i as int]);
        }
        let ghost before = views(output@);
        let mut more = ds[i].output(name, lines);
        let ghost mv = views(more@);
        output.append(&mut more);
        proof {
            assert(views(output@) =~= before + mv);
        }
        i = i + 1;
    }
    proof {
        assert(ds@.take(i as int) =~= ds@);
    }
    output
}

/// Whether `b` holds what `a` holds besides its interpreter: its settings, contracts and
/// reference, and whether it shows costs.
pub open spec fn same_session_data(a: Session, b: Session) -> bool {
    &&& b.is_interactive == a.is_interactive
    &&& b.settings == a.settings
    &&& b.contracts == a.contracts
    &&& b.show_costs == a.show_costs
    &&& b.api_reference == a.api_reference
    &&& b.initial_contracts_analysis == a.initial_contracts_analysis
}

/// The name under which the diagnostics of a snippet named `name` are shown.
pub open spec fn shown_name(name: Option<String>) -> Seq<char> {
    match name {
        Some(n) => n@,
        None => "<stdin>"@,
    }
}

/// What running a snippet under the name `name` leaves of a session: the state of the
/// interpreter and the session's settings are kept, and a snippet that is a contract
/// (`stored`) is added to the contracts under its identifier.
pub open spec fn ran_snippet(old: Session, new: Session, name: Seq<char>, stored: bool) -> bool {
    &&& new.interpreter.tx_sender_spec() == old.interpreter.tx_sender_spec()
    &&& new.interpreter.block_height_spec() == old.interpreter.block_height_spec()
    &&& new.interpreter.analysis_spec() == old.interpreter.analysis_spec()
    &&& same_balances(old.interpreter, new.interpreter)
    &&& new.is_interactive == old.is_interactive
    &&& new.settings == old.settings
    &&& new.show_costs == old.show_costs
    &&& new.api_reference == old.api_reference
    &&& new.initial_contracts_analysis == old.initial_contracts_analysis
    &&& if stored {
        &&& new.contracts@.len() == old.contracts@.len() + 1
        &&& new.contracts@.drop_last() == old.contracts@
        &&& new.contracts@.last().0@ == id_text(snippet_contract(name, old.interpreter.tx_sender_spec().address@))
    } else {
        new.contracts@ == old.contracts@
    }
}

/// The lines of the deployments that ran, in order: each deployment is whether it ran, the
/// lines it gave, and whether it stored a contract.
pub open spec fn deployed_lines(os: Seq<(bool, Seq<Seq<char>>, bool)>) -> Seq<Seq<char>>
    decreases os.len(),
{
    if os.len() == 0 {
        Seq::empty()
    } else {
        deployed_lines(os.drop_last()) + if os.last().0 {
            os.last().1
        } else {
            Seq::empty()
        }
    }
}

/// The lines of the deployments that were refused, in order.
pub open spec fn refused_lines(os: Seq<(bool, Seq<Seq<char>>, bool)>) -> Seq<Seq<char>>
    decreases os.len(),
{
    if os.len() == 0 {
        Seq::empty()
    } else {
        refused_lines(os.drop_last()) + if os.last().0 {
            Seq::empty()
        } else {
            os.last().1
        }
    }
}

/// The number of deployments that stored a contract.
pub open spec fn stored_count(os: Seq<(bool, Seq<Seq<char>>, bool)>) -> nat
    decreases os.len(),
{
    if os.len() == 0 {
        0
    } else {
        stored_count(os.drop_last()) + if os.last().2 {
            1nat
        } else {
            0nat
        }
    }
}

/// The source and the path of each initial contract of `cs` whose deployment stored a
/// contract, in order.
pub open spec fn stored_sources(cs: Seq<InitialContract>, os: Seq<(bool, Seq<Seq<char>>, bool)>) -> Seq<
    (Seq<char>, Seq<char>),
>
    decreases os.len(),
{
    if os.len() == 0 || cs.len() == 0 {
        Seq::empty()
    } else {
        stored_sources(cs.drop_last(), os.drop_last()) + if os.last().2 {
            seq![(cs.last().code@, cs.last().path@)]
        } else {
            Seq::empty()
        }
    }
}

/// The source and the path of each deployed contract of `cs`.
pub open spec fn sources_of(cs: Seq<(ContractAnalysis, String, String)>) -> Seq<(Seq<char>, Seq<char>)> {
    cs.map_values(|c: (ContractAnalysis, String, String)| (c.1@, c.2@))
}

/// Whether `o` is what deploying the initial contract `c` can give: a contract is stored
/// only by a deployment that ran, and the lines are those of diagnostics about its source.
pub open spec fn deployment_ok(c: InitialContract, o: (bool, Seq<Seq<char>>, bool)) -> bool {
    &&& o.2 ==> o.0
    &&& exists|ds: Seq<Diagnostic>| o.1 == #[trigger] diagnostics_lines(ds, shown_name(c.name), lines(c.code@))
}

/// Whether the initial contracts of `cs` can be deployed: each deployer is an address, and
/// each name can name a snippet.
pub open spec fn initial_contracts_ok(cs: Seq<InitialContract>) -> bool {
    forall|i: int|
        0 <= i < cs.len() ==> (#[trigger] cs[i].deployer matches Some(d) ==> address_ok(d@)) && (cs[i].name matches Some(
            n,
        ) ==> snippet_name_ok(n@))
}

/// The outcome of deploying the initial contracts, as plain values: the lines of those that
/// ran and the source and path of each contract they stored, or, where one was refused, the
/// lines of those refused.
pub open spec fn initial_outcome(
    cs: Seq<InitialContract>,
    os: Seq<(bool, Seq<Seq<char>>, bool)>,
    r: Result<(Seq<Seq<char>>, Seq<(Seq<char>, Seq<char>)>), Seq<Seq<char>>>,
) -> bool {
    &&& os.len() == cs.len()
    &&& forall|i: int| 0 <= i < os.len() ==> deployment_ok(cs[i], #[trigger] os[i])
    &&& match r {
        Ok((out, deployed)) => refused_lines(os).len() == 0 && out == deployed_lines(os) && deployed == stored_sources(
            cs,
            os,
        ),
        Err(errs) => refused_lines(os).len() > 0 && errs == refused_lines(os),
    }
}

/// The outcome of `handle_initial_contracts` as plain values.
pub open spec fn deployed_view(r: Result<(Vec<String>, Vec<(ContractAnalysis, String, String)>), Vec<String>>) -> Result<
    (Seq<Seq<char>>, Seq<(Seq<char>, Seq<char>)>),
    Seq<Seq<char>>,
> {
    match r {
        Ok((out, deployed)) => Ok((views(out@), sources_of(deployed@))),
        Err(errs) => Err(views(errs@)),
    }
}

/// The deployer and the name of a linked contract `address.name`: the first and the last
/// parts of its identifier.
pub open spec fn linked_parts(id: Seq<char>) -> (Seq<char>, Seq<char>) {
    (split_on(id, '.')[0], split_on(id, '.').last())
}

/// Whether the linked contracts can be deployed: each deployer is an address, and each
/// name can name a snippet.
pub open spec fn linked_ok(linked: Seq<(String, String)>) -> bool {
    forall|i: int|
        0 <= i < linked.len() ==> address_ok(#[trigger] linked_parts(linked[i].0@).0) && snippet_name_ok(
            linked_parts(linked[i].0@).1,
        )
}

/// Whether `o` is what deploying the linked contract `(id, code)` can give.
pub open spec fn linked_deployment_ok(l: (String, String), o: (bool, Seq<Seq<char>>, bool)) -> bool {
    &&& o.2 ==> o.0
    &&& exists|ds: Seq<Diagnostic>| o.1 == #[trigger] diagnostics_lines(ds, linked_parts(l.0@).1, lines(l.1@))
}

/// The outcome of deploying the linked contracts: they are deployed in order until one is
/// refused; the lines of those that ran, or the lines of the one refused.
pub open spec fn linked_outcome(linked: Seq<(String, String)>, os: Seq<(bool, Seq<Seq<char>>, bool)>, r: Result<
    Seq<Seq<char>>,
    Seq<Seq<char>>,
>) -> bool {
    &&& os.len() <= linked.len()
    &&& forall|i: int| 0 <= i < os.len() ==> linked_deployment_ok(linked[i], #[trigger] os[i])
    &&& forall|i: int| 0 <= i < os.len() - 1 ==> (#[trigger] os[i]).0
    &&& os.len() < linked.len() ==> os.len() > 0 && !os.last().0
    &&& match r {
        Ok(out) => refused_lines(os).len() == 0 && out == deployed_lines(os),
        Err(errs) => refused_lines(os).len() > 0 && errs == refused_lines(os),
    }
}

/// The outcome of deploying the linked contracts as plain values.
pub open spec fn lines_result(r: Result<Vec<String>, Vec<String>>) -> Result<Seq<Seq<char>>, Seq<Seq<char>>> {
    match r {
        Ok(out) => Ok(views(out@)),
        Err(errs) => Err(views(errs@)),
    }
}

impl Session {
    /// Deploys the initial contracts of the settings, each by its deployer (the burn
    /// address where it has none) and under its name; the sender is then set back. Gives
    /// the lines of the deployments and the contracts stored, or the lines of those refused.
    fn handle_initial_contracts(&mut self) -> (r: Result<(Vec<String>, Vec<(ContractAnalysis, String, String)>), Vec<String>>)
        requires
            old(self).analysis_ok(),
            initial_contracts_ok(old(self).settings.initial_contracts@),
        ensures
            final(self).analysis_ok(),
            final(self).interpreter.tx_sender_spec().address@ == old(self).interpreter.tx_sender_spec().address@,
            final(self).interpreter.block_height_spec() == old(self).interpreter.block_height_spec(),
            same_balances(old(self).interpreter, final(self).interpreter),
            final(self).settings == old(self).settings,
            final(self).show_costs == old(self).show_costs,
            final(self).api_reference == old(self).api_reference,
            final(self).is_interactive == old(self).is_interactive,
            final(self).initial_contracts_analysis == old(self).initial_contracts_analysis,
            exists|os: Seq<(bool, Seq<Seq<char>>, bool)>|
                #![trigger initial_outcome(old(self).settings.initial_contracts@, os, deployed_view(r))]
                initial_outcome(old(self).settings.initial_contracts@, os, deployed_view(r)) && final(self).contracts@.len()
                    == old(self).contracts@.len() + stored_count(os),
    {
        let ghost s0 = *self;
        let ghost cs = self.settings.initial_contracts@;
        let default_tx_sender = self.interpreter.get_tx_sender();
        let mut output: Vec<String> = Vec::new();
        let mut output_err: Vec<String> = Vec::new();
        let mut contracts: Vec<(ContractAnalysis, String, String)> = Vec::new();
        let ghost mut os: Seq<(bool, Seq<Seq<char>>, bool)> = Seq::empty();
        let mut i: usize = 0;
        proof {
            assert(views(output@) =~= Seq::<Seq<char>>::empty());
            assert(views(output_err@) =~= Seq::<Seq<char>>::empty());
            assert(sources_of(contracts@) =~= Seq::<(Seq<char>, Seq<char>)>::empty());
            assert(cs.take(0) =~= Seq::<InitialContract>::empty());
        }
        while i < self.settings.initial_contracts.len()
            invariant
                i <= cs.len(),
                self.settings == s0.settings,
                cs == s0.settings.initial_contracts@,
                initial_contracts_ok(cs),
                self.analysis_ok(),
                self.interpreter.block_height_spec() == s0.interpreter.block_height_spec(),
                self.interpreter.analysis_spec() == s0.interpreter.analysis_spec(),
                same_balances(s0.interpreter, self.interpreter),
                self.show_costs == s0.show_costs,
                self.api_reference == s0.api_reference,
                self.is_interactive == s0.is_interactive,
                self.initial_contracts_analysis == s0.initial_contracts_analysis,
                os.len() == i,
                forall|k: int| 0 <= k < os.len() ==> deployment_ok(cs[k], #[trigger] os[k]),
                views(output@) == deployed_lines(os),
                views(output_err@) == refused_lines(os),
                sources_of(contracts@) == stored_sources(cs.take(i as int), os),
                self.contracts@.len() == s0.contracts@.len() + stored_count(os),
            decreases cs.len() - i,
        {
            let code = copy_string(&self.settings.initial_contracts[i].code);
            let path = copy_string(&self.settings.initial_contracts[i].path);
            let name = match &self.settings.initial_contracts[i].name {
                Some(n) => Some(copy_string(n)),
                None => None,
            };
            let deployer = self.settings.initial_contracts[i].get_deployer_principal(false);
            let ghost c = cs[i as int];
            proof {
                assert(name matches Some(n) ==> snippet_name_ok(n@));
                assert(shown_name(name) == shown_name(c.name));
            }
            self.interpreter.set_tx_sender(deployer);
            let r = self.formatted_interpretation(code, name, true, Some(String::from_str("Deployment")));
            let ghost o: (bool, Seq<Seq<char>>, bool);
            match r {
                Ok((mut res_output, result)) => {
                    proof {
                        o = (true, views(res_output@), result.contract is Some);
                        assert(deployment_ok(c, o));
                    }
                    output.append(&mut res_output);
                    if result.contract.is_some() {
                        match result.analysis {
                            Some(analysis) => {
                                contracts.push((analysis, copy_string(&self.settings.initial_contracts[i].code), path));
                            },
                            None => {},
                        }
                    }
                },
                Err(mut res) => {
                    proof {
                        o = (false, views(res@), false);
                        let ds = choose|ds: Seq<Diagnostic>| views(res@) == diagnostics_lines(ds, shown_name(c.name), lines(c.code@));
                        assert(deployment_ok(c, o));
                    }
                    output_err.append(&mut res);
                },
            }
            proof {
                let os2 = os.push(o);
                assert(os2.drop_last() =~= os);
                assert(os2.last() == o);
                assert(cs.take(i + 1).drop_last() =~= cs.take(i as int));
                assert(cs.take(i + 1).last() == c);
                assert(views(output@) =~= deployed_lines(os2));
                assert(views(output_err@) =~= refused_lines(os2));
                assert(sources_of(contracts@) =~= stored_sources(cs.take(i + 1), os2));
                assert forall|k: int| 0 <= k < os2.len() implies deployment_ok(cs[k], #[trigger] os2[k]) by {
                    if k < os.len() {
                        assert(os2[k] == os[k]);
                    }
                }
                os = os2;
            }
            i = i + 1;
        }
        self.interpreter.set_tx_sender(default_tx_sender);
        proof {
            assert(cs.take(i as int) =~= cs);
        }
        if output_err.len() > 0 {
            let r = Err(output_err);
            proof {
                assert(initial_outcome(cs, os, deployed_view(r)));
            }
            return r;
        }
        proof {
            assert(refused_lines(os).len() == 0);
        }
        let r = Ok((output, contracts));
        proof {
            assert(initial_outcome(cs, os, deployed_view(r)));
        }
        r
    }
}

impl Session {
    /// Deploys the linked contracts, in order, each by the deployer and under the name that
    /// its identifier `address.name` gives, until one is refused; the sender is then set
    /// back. Gives the lines of the deployments, or those of the one refused.
    pub fn deploy_linked_contracts(&mut self, linked: &Vec<(String, String)>) -> (r: Result<Vec<String>, Vec<String>>)
        requires
            old(self).analysis_ok(),
            linked_ok(linked@),
        ensures
            final(self).analysis_ok(),
            final(self).interpreter.tx_sender_spec().address@ == old(self).interpreter.tx_sender_spec().address@,
            final(self).interpreter.block_height_spec() == old(self).interpreter.block_height_spec(),
            same_balances(old(self).interpreter, final(self).interpreter),
            final(self).settings == old(self).settings,
            final(self).show_costs == old(self).show_costs,
            final(self).api_reference == old(self).api_reference,
            final(self).is_interactive == old(self).is_interactive,
            final(self).initial_contracts_analysis == old(self).initial_contracts_analysis,
            exists|os: Seq<(bool, Seq<Seq<char>>, bool)>|
                #![trigger linked_outcome(linked@, os, lines_result(r))]
                linked_outcome(linked@, os, lines_result(r)) && final(self).contracts@.len() == old(self).contracts@.len()
                    + stored_count(os),
    {
        let ghost s0 = *self;
        let default_tx_sender = self.interpreter.get_tx_sender();
        let mut output: Vec<String> = Vec::new();
        let mut output_err: Vec<String> = Vec::new();
        let ghost mut os: Seq<(bool, Seq<Seq<char>>, bool)> = Seq::empty();
        let mut i: usize = 0;
        proof {
            assert(views(output@) =~= Seq::<Seq<char>>::empty());
            assert(views(output_err@) =~= Seq::<Seq<char>>::empty());
        }
        while i < linked.len()
            invariant
                i <= linked@.len(),
                s0 == *old(self),
                default_tx_sender.address@ == s0.interpreter.tx_sender_spec().address@,
                linked_ok(linked@),
                self.settings == s0.settings,
                self.analysis_ok(),
                self.interpreter.block_height_spec() == s0.interpreter.block_height_spec(),
                self.interpreter.analysis_spec() == s0.interpreter.analysis_spec(),
                same_balances(s0.interpreter, self.interpreter),
                self.show_costs == s0.show_costs,
                self.api_reference == s0.api_reference,
                self.is_interactive == s0.is_interactive,
                self.initial_contracts_analysis == s0.initial_contracts_analysis,
                os.len() == i,
                forall|k: int| 0 <= k < os.len() ==> linked_deployment_ok(linked@[k], #[trigger] os[k]),
                forall|k: int| 0 <= k < os.len() ==> (#[trigger] os[k]).0,
                views(output@) == deployed_lines(os),
                views(output_err@) == Seq::<Seq<char>>::empty(),
                refused_lines(os) == Seq::<Seq<char>>::empty(),
                self.contracts@.len() == s0.contracts@.len() + stored_count(os),
            decreases linked.len() - i,
        {
            let components = split_char(linked[i].0.as_str(), '.');
            proof {
                crate::text::lemma_split_on_nonempty(linked@[i as int].0@, '.');
                assert(views(components@).len() == components@.len());
                assert(components@[0]@ == linked_parts(linked@[i as int].0@).0);
                assert(components@[components@.len() - 1]@ == linked_parts(linked@[i as int].0@).1);
            }
            let deployer = StandardPrincipalData { address: copy_string(&components[0]) };
            let name = copy_string(&components[components.len() - 1]);
            let code = copy_string(&linked[i].1);
            let ghost l = linked@[i as int];
            let ghost nv = name@;
            self.interpreter.set_tx_sender(deployer);
            let r = self.formatted_interpretation(code, Some(name), true, None);
            match r {
                Ok((mut logs, result)) => {
                    let ghost o = (true, views(logs@), result.contract is Some);
                    proof {
                        assert(shown_name(Some(name)) == nv);
                        assert(linked_deployment_ok(l, o));
                    }
                    output.append(&mut logs);
                    proof {
                        let os2 = os.push(o);
                        assert(os2.drop_last() =~= os);
                        assert(views(output@) =~= deployed_lines(os2));
                        assert(refused_lines(os2) =~= refused_lines(os));
                        assert forall|k: int| 0 <= k < os2.len() implies linked_deployment_ok(linked@[k], #[trigger] os2[k])
                            && os2[k].0 by {
                            if k < os.len() {
                                assert(os2[k] == os[k]);
                            }
                        }
                        os = os2;
                    }
                },
                Err(mut res) => {
                    let ghost o = (false, views(res@), false);
                    proof {
                        let ds = choose|ds: Seq<Diagnostic>| views(res@) == diagnostics_lines(ds, shown_name(Some(name)), lines(l.1@));
                        assert(shown_name(Some(name)) == nv);
                        assert(linked_deployment_ok(l, o));
                    }
                    output_err.append(&mut res);
                    proof {
                        let os2 = os.push(o);
                        assert(os2.drop_last() =~= os);
                        assert(deployed_lines(os2) =~= deployed_lines(os));
                        assert(views(output_err@) =~= refused_lines(os2));
                        assert forall|k: int| 0 <= k < os2.len() implies linked_deployment_ok(linked@[k], #[trigger] os2[k]) by {
                            if k < os.len() {
                                assert(os2[k] == os[k]);
                            }
                        }
                        assert forall|k: int| 0 <= k < os2.len() - 1 implies (#[trigger] os2[k]).0 by {
                            assert(os2[k] == os[k]);
                        }
                        os = os2;
                    }
                    self.interpreter.set_tx_sender(default_tx_sender);
                    if output_err.len() > 0 {
                        let r = Err(output_err);
                        proof {
                            assert(linked_outcome(linked@, os, lines_result(r)));
                        }
                        return r;
                    } else {
                        let r = Ok(output);
                        proof {
                            assert(linked_outcome(linked@, os, lines_result(r)));
                        }
                        return r;
                    }
                },
            }
            i = i + 1;
        }
        self.interpreter.set_tx_sender(default_tx_sender);
        let r = Ok(output);
        proof {
            assert(linked_outcome(linked@, os, lines_result(r)));
        }
        r
    }

    /// Deploys, once in a session, the linked contracts (already fetched, see
    /// `Requirements`) and then the initial contracts of the settings. The analyses of the
    /// initial contracts are kept in `initial_contracts_analysis`; gives the lines of their
    /// deployments and the source and path of each contract stored, or the lines of what
    /// was refused.
    pub fn interpret_initial_contracts(&mut self, linked: &Vec<(String, String)>) -> (r: Result<
        (Vec<String>, Vec<(String, String)>),
        Vec<String>,
    >)
        requires
            old(self).analysis_ok(),
            linked_ok(linked@),
            initial_contracts_ok(old(self).settings.initial_contracts@),
        ensures
            final(self).analysis_ok(),
            final(self).interpreter.tx_sender_spec().address@ == old(self).interpreter.tx_sender_spec().address@,
            final(self).settings == old(self).settings,
            final(self).is_interactive == old(self).is_interactive,
            final(self).show_costs == old(self).show_costs,
            final(self).api_reference == old(self).api_reference,
            final(self).interpreter.block_height_spec() == old(self).interpreter.block_height_spec(),
            same_balances(old(self).interpreter, final(self).interpreter),
            old(self).initial_contracts_analysis@.len() > 0 ==> *final(self) == *old(self) && (r matches Err(e)
                && views(e@) == seq!["Initial contracts already interpreted"@]),
            old(self).initial_contracts_analysis@.len() == 0 ==> exists|ls: Seq<(bool, Seq<Seq<char>>, bool)>, lr: Result<Seq<Seq<char>>, Seq<Seq<char>>>|
                #![trigger linked_outcome(linked@, ls, lr)]
                linked_outcome(linked@, ls, lr) && match lr {
                    Err(errs) => r matches Err(e) && views(e@) == errs,
                    Ok(_) => exists|os: Seq<(bool, Seq<Seq<char>>, bool)>|
                        #![trigger initial_outcome(old(self).settings.initial_contracts@, os, outputs_view(r))]
                        initial_outcome(old(self).settings.initial_contracts@, os, outputs_view(r)) && (r is Ok ==> sources_of(
                            final(self).initial_contracts_analysis@,
                        ) == outputs_view(r)->Ok_0.1),
                },
    {
        if self.initial_contracts_analysis.len() > 0 {
            let mut e: Vec<String> = Vec::new();
            e.push(String::from_str("Initial contracts already interpreted"));
            proof {
                assert(views(e@) =~= seq!["Initial contracts already interpreted"@]);
            }
            return Err(e);
        }
        let lr = self.deploy_linked_contracts(linked);
        match lr {
            Err(e) => {
                return Err(e);
            },
            Ok(_) => {},
        }
        let ghost after_links = *self;
        let hr = self.handle_initial_contracts();
        proof {
            crate::interpreter::lemma_same_balances_trans(old(self).interpreter, after_links.interpreter, self.interpreter);
        }
        match hr {
            Err(e) => Err(e),
            Ok((output, mut contracts)) => {
                let mut sources: Vec<(String, String)> = Vec::new();
                let mut i: usize = 0;
                while i < contracts.len()
                    invariant
                        i <= contracts@.len(),
                        pairs_of(sources@) == sources_of(contracts@).take(i as int),
                    decreases contracts.len() - i,
                {
                    let ghost s0 = sources@;
                    sources.push((copy_string(&contracts[i].1), copy_string(&contracts[i].2)));
                    proof {
                        assert(sources@ =~= s0.push(sources@.last()));
                        assert(pairs_of(sources@) =~= pairs_of(s0).push((contracts@[i as int].1@, contracts@[i as int].2@)));
                        assert(sources_of(contracts@).take(i + 1) =~= sources_of(contracts@).take(i as int).push(
                            (contracts@[i as int].1@, contracts@[i as int].2@),
                        ));
                    }
                    i = i + 1;
                }
                proof {
                    assert(sources_of(contracts@).take(i as int) =~= sources_of(contracts@));
                    assert(self.initial_contracts_analysis@.len() == 0);
                }
                let ghost cv = contracts@;
                self.initial_contracts_analysis.append(&mut contracts);
                proof {
                    assert(self.initial_contracts_analysis@ =~= cv);
                }
                let r = Ok((output, sources));
                r
            },
        }
    }
}

/// A list of pairs of texts, as plain values.
pub open spec fn pairs_of(r: Seq<(String, String)>) -> Seq<(Seq<char>, Seq<char>)> {
    r.map_values(|e: (String, String)| (e.0@, e.1@))
}

/// The outcome of `interpret_initial_contracts` as plain values.
pub open spec fn outputs_view(r: Result<(Vec<String>, Vec<(String, String)>), Vec<String>>) -> Result<
    (Seq<Seq<char>>, Seq<(Seq<char>, Seq<char>)>),
    Seq<Seq<char>>,
> {
    match r {
        Ok((out, deployed)) => Ok((views(out@), pairs_of(deployed@))),
        Err(errs) => Err(views(errs@)),
    }
}

/// The identifier of the contract that a test calls: a name that starts with `S` is a whole
/// identifier; another is a contract of the sender `tx_sender`.
pub open spec fn called_contract(contract: Seq<char>, tx_sender: Seq<char>) -> Seq<char> {
    if contract.len() > 0 && contract[0] == 'S' {
        contract
    } else {
        tx_sender + "."@ + contract
    }
}

/// The snippet that calls `method` of `contract` with the arguments `args`.
pub open spec fn call_snippet(contract: Seq<char>, method: Seq<char>, args: Seq<Seq<char>>, tx_sender: Seq<char>) -> Seq<char> {
    "(contract-call? '"@ + called_contract(contract, tx_sender) + " "@ + method + " "@ + crate::text::join(args, ' ')
        + ")"@
}

/// The snippet that calls `method` of `contract` with the arguments `args`, the contract
/// being one of `tx_sender` where its name does not start with `S`.
pub fn contract_call_snippet(contract: &str, method: &str, args: &Vec<String>, tx_sender: &str) -> (r: String)
    ensures
        r@ == call_snippet(contract@, method@, views(args@), tx_sender@),
{
    let mut id = String::new();
    if contract.unicode_len() > 0 && contract.get_char(0) == 'S' {
        id.append(contract);
    } else {
        id.append(tx_sender);
        id.append(".");
        id.append(contract);
    }
    let mut joined = String::new();
    let mut i: usize = 0;
    proof {
        assert(views(args@).take(0) =~= Seq::<Seq<char>>::empty());
    }
    while i < args.len()
        invariant
            i <= args@.len(),
            joined@ == crate::text::join(views(args@).take(i as int), ' '),
        decreases args.len() - i,
    {
        let ghost t = views(args@).take(i + 1);
        proof {
            assert(t.drop_last() =~= views(args@).take(i as int));
            assert(t.last() == args@[i as int]@);
        }
        if i > 0 {
            let ghost before = joined@;
            joined.append(" ");
            proof {
                reveal_strlit(" ");
                assert(joined@ =~= before.push(' '));
            }
        }
        joined.append(args[i].as_str());
        proof {
            if i == 0 {
                assert(joined@ =~= t[0]);
            }
        }
        i = i + 1;
    }
    proof {
        assert(views(args@).take(i as int) =~= views(args@));
    }
    let mut r = String::from_str("(contract-call? '");
    r.append(id.as_str());
    r.append(" ");
    r.append(method);
    r.append(" ");
    r.append(joined.as_str());
    r.append(")");
    r
}

impl Session {
    /// Calls `method` of `contract` with the arguments `args`, sent by `sender`, as a test
    /// does: the call runs unnamed and the sender is then set back. A call that is refused
    /// leaves `sender` as the sender. The costs of a call are measured by the Clarity
    /// virtual machine, which this library does not hold, so none is reported.
    pub fn invoke_contract_call(
        &mut self,
        contract: &str,
        method: &str,
        args: &Vec<String>,
        sender: &str,
        test_name: String,
    ) -> (r: Result<ExecutionResult, Vec<Diagnostic>>)
        requires
            old(self).analysis_ok(),
            contract@.len() > 0,
            address_ok(sender@),
            address_ok(old(self).interpreter.tx_sender_spec().address@),
        ensures
            final(self).analysis_ok(),
            r is Ok ==> final(self).interpreter.tx_sender_spec().address@ == old(self).interpreter.tx_sender_spec().address@,
            r is Err ==> final(self).interpreter.tx_sender_spec().address@ == sender@,
            r matches Ok(res) ==> res.result is None && res.events@.len() == 0,
            final(self).settings == old(self).settings,
            final(self).interpreter.block_height_spec() == old(self).interpreter.block_height_spec(),
            same_balances(old(self).interpreter, final(self).interpreter),
            (r is Ok && r->Ok_0.contract is Some) ==> final(self).contracts@.len() == old(self).contracts@.len() + 1
                && final(self).contracts@.drop_last() == old(self).contracts@ && final(self).contracts@.last().0@
                == id_text((sender@, Session::default_contract_name(old(self).contracts@.len()))),
            !(r is Ok && r->Ok_0.contract is Some) ==> final(self).contracts@ == old(self).contracts@,
    {
        let initial_tx_sender = self.get_tx_sender();
        let snippet = contract_call_snippet(contract, method, args, initial_tx_sender.as_str());
        self.set_tx_sender(String::from_str(sender));
        let ghost mid = *self;
        let result = self.interpret(snippet, None, true, Some(test_name));
        proof {
            crate::interpreter::lemma_same_balances_trans(old(self).interpreter, mid.interpreter, self.interpreter);
            reveal_strlit("contract-");
            let d = Session::default_contract_name(old(self).contracts@.len());
            assert(d[0] == 'c');
            assert(snippet_contract(d, sender@) == (sender@, d));
        }
        match result {
            Ok(res) => {
                self.set_tx_sender(initial_tx_sender);
                Ok(res)
            },
            Err(e) => Err(e),
        }
    }

    /// The name of the initial account whose address is `address`.
    pub fn get_account_name(&self, address: &String) -> (r: Option<&String>)
        ensures
            r matches Some(n) ==> account_name(self.settings.initial_accounts@, address@) == Some(n@),
            r is None <==> account_name(self.settings.initial_accounts@, address@) is None,
    {
        let mut i: usize = 0;
        proof {
            assert(self.settings.initial_accounts@.skip(0) =~= self.settings.initial_accounts@);
        }
        while i < self.settings.initial_accounts.len()
            invariant
                i <= self.settings.initial_accounts@.len(),
                account_name(self.settings.initial_accounts@, address@) == account_name(
                    self.settings.initial_accounts@.skip(i as int),
                    address@,
                ),
            decreases self.settings.initial_accounts.len() - i,
        {
            proof {
                let t = self.settings.initial_accounts@.skip(i as int);
                assert(t[0] == self.settings.initial_accounts@[i as int]);
                assert(t.drop_first() =~= self.settings.initial_accounts@.skip(i + 1));
            }
            if crate::representations::str_equals(self.settings.initial_accounts[i].address.as_str(), address.as_str()) {
                return Some(&self.settings.initial_accounts[i].name);
            }
            i = i + 1;
        }
        None
    }
}


/// The name of the first account of `accounts` whose address is `address`.
pub open spec fn account_name(accounts: Seq<crate::settings::Account>, address: Seq<char>) -> Option<Seq<char>>
    decreases accounts.len(),
{
    if accounts.len() == 0 {
        None
    } else if accounts[0].address@ == address {
        Some(accounts[0].name@)
    } else {
        account_name(accounts.drop_first(), address)
    }
}
} // verus!
