use clarity_repl::ast_dependency_detector::ASTDependencyDetector;
use clarity_repl::representations::{ContractAST, QualifiedContractIdentifier};
use clarity_repl::session::Session;
use clarity_repl::settings::SessionSettings;

fn add(
    session: &mut Session,
    contracts: &mut Vec<(QualifiedContractIdentifier, ContractAST)>,
    snippet: &str,
    name: Option<&str>,
) -> QualifiedContractIdentifier {
    match session.build_ast(&snippet.to_string(), name) {
        Ok((contract_identifier, ast, _)) => {
            contracts.push((contract_identifier.clone(), ast));
            contract_identifier
        }
        Err(_) => panic!("expected success"),
    }
}

#[test]
fn ast_dependency_detector_no_deps() {
    let mut session = Session::new(SessionSettings::default());
    let snippet = "
(define-public (hello)
    (ok (print \"hello\"))
)
"
    .to_string();
    match session.build_ast(&snippet, None) {
        Ok((contract_identifier, ast, _)) => {
            let mut contracts = Vec::new();
            contracts.push((contract_identifier.clone(), ast));
            let dependencies = ASTDependencyDetector::detect_dependencies(&contracts);
            assert_eq!(dependencies.get(&contract_identifier).unwrap().len(), 0);
        }
        Err(_) => panic!("expected success"),
    }
}

#[test]
fn ast_dependency_detector_contract_call() {
    let mut session = Session::new(SessionSettings::default());
    let mut contracts = Vec::new();
    let snippet1 = "
(define-public (hello (a int))
    (ok u0)
)";
    let foo = add(&mut session, &mut contracts, snippet1, Some("foo"));
    let snippet = "
(define-public (call-foo)
    (contract-call? .foo hello 4)
)
";
    let test_identifier = add(&mut session, &mut contracts, snippet, Some("test"));
    let dependencies = ASTDependencyDetector::detect_dependencies(&contracts);
    assert_eq!(dependencies.get(&test_identifier).unwrap().len(), 1);
    assert!(dependencies.get(&test_identifier).unwrap().contains(&foo));
}

#[test]
fn ast_dependency_detector_dynamic_contract_call_remote_trait() {
    let mut session = Session::new(SessionSettings::default());
    let mut contracts = Vec::new();
    let snippet1 = "
(define-trait my-trait
    ((hello (int) (response uint uint)))
)
(define-public (hello (a int))
    (ok u0)
)";
    let bar = add(&mut session, &mut contracts, snippet1, Some("bar"));
    let snippet = "
(use-trait my-trait .bar.my-trait)
(define-trait dyn-trait
    ((call-hello (<my-trait>) (response uint uint)))
)
(define-public (call-dyn (dt <dyn-trait>))
    (contract-call? dt call-hello .bar)
)
";
    let test_identifier = add(&mut session, &mut contracts, snippet, Some("test"));
    let dependencies = ASTDependencyDetector::detect_dependencies(&contracts);
    assert_eq!(dependencies.get(&test_identifier).unwrap().len(), 1);
    assert!(dependencies.get(&test_identifier).unwrap().contains(&bar));
}

#[test]
fn ast_dependency_detector_pass_contract_local() {
    let mut session = Session::new(SessionSettings::default());
    let mut contracts = Vec::new();
    let snippet1 = "
(define-public (hello (a int))
    (ok u0)
)";
    let bar = add(&mut session, &mut contracts, snippet1, Some("bar"));
    let snippet2 = "
(define-trait my-trait
    ((hello (int) (response uint uint)))
)";
    let my_trait = add(&mut session, &mut contracts, snippet2, Some("my-trait"));
    let snippet = "
(use-trait my-trait .my-trait.my-trait)
(define-private (pass-trait (a <my-trait>))
    (print a)
)
(define-public (call-it)
    (ok (pass-trait .bar))
)
";
    let test_identifier = add(&mut session, &mut contracts, snippet, Some("test"));
    let dependencies = ASTDependencyDetector::detect_dependencies(&contracts);
    assert_eq!(dependencies.get(&test_identifier).unwrap().len(), 2);
    assert!(dependencies.get(&test_identifier).unwrap().contains(&bar));
    assert!(dependencies.get(&test_identifier).unwrap().contains(&my_trait));
}

#[test]
fn ast_dependency_detector_impl_trait() {
    let mut session = Session::new(SessionSettings::default());
    let mut contracts = Vec::new();
    let snippet1 = "
(define-trait something
    ((hello (int) (response uint uint)))
)";
    let other = add(&mut session, &mut contracts, snippet1, Some("other"));
    let snippet = "
(impl-trait .other.something)
(define-public (hello (a int))
    (ok u0)
)
";
    let test_identifier = add(&mut session, &mut contracts, snippet, Some("test"));
    let dependencies = ASTDependencyDetector::detect_dependencies(&contracts);
    assert_eq!(dependencies.get(&test_identifier).unwrap().len(), 1);
    assert!(dependencies.get(&test_identifier).unwrap().contains(&other));
}

#[test]
fn ast_dependency_detector_use_trait() {
    let mut session = Session::new(SessionSettings::default());
    let mut contracts = Vec::new();
    let snippet1 = "
(define-trait something
    ((hello (int) (response uint uint)))
)";
    let other = add(&mut session, &mut contracts, snippet1, Some("other"));
    let snippet = "
(use-trait my-trait .other.something)
;; FIXME: If there is not a second line here, the interpreter will fail.
;; See https://github.com/hirosystems/clarity-repl/issues/109.
(define-public (foo) (ok true))
";
    let test_identifier = add(&mut session, &mut contracts, snippet, Some("test"));
    let dependencies = ASTDependencyDetector::detect_dependencies(&contracts);
    assert_eq!(dependencies.get(&test_identifier).unwrap().len(), 1);
    assert!(dependencies.get(&test_identifier).unwrap().contains(&other));
}

#[test]
fn pending_call_settled_by_later_definition() {
    // The caller is traversed before the callee is defined: the trait argument is
    // found once the callee's parameters are known.
    let mut session = Session::new(SessionSettings::default());
    let mut contracts = Vec::new();
    let caller = "
(define-public (call-it)
    (contract-call? .callee take .bar)
)";
    let test_identifier = add(&mut session, &mut contracts, caller, Some("test"));
    let trait_def = "
(define-trait t ((hello (int) (response uint uint))))";
    add(&mut session, &mut contracts, trait_def, Some("traits"));
    let callee = "
(use-trait t .traits.t)
(define-public (take (x <t>))
    (ok u0)
)";
    let callee_identifier = add(&mut session, &mut contracts, callee, Some("callee"));
    let bar = add(&mut session, &mut contracts, "(define-public (hello (a int)) (ok u0))", Some("bar"));
    let dependencies = ASTDependencyDetector::detect_dependencies(&contracts);
    let deps = dependencies.get(&test_identifier).unwrap();
    assert_eq!(deps.len(), 2);
    assert!(deps.contains(&callee_identifier));
    assert!(deps.contains(&bar));
    assert_eq!(dependencies.len(), 4);
}
