use clarity_repl::interpreter::ClarityInterpreter;
use clarity_repl::representations::{QualifiedContractIdentifier, StandardPrincipalData};

const DEPLOYER: &str = "ST1PQHQKV0RJXZFY1DGX8MNSNYVE3VGZJSRTPGZGM";

fn id(name: &str) -> QualifiedContractIdentifier {
    QualifiedContractIdentifier {
        issuer: StandardPrincipalData { address: DEPLOYER.to_string() },
        name: name.to_string(),
    }
}

#[test]
fn dependencies_come_in_the_order_of_identifiers() {
    let interpreter = ClarityInterpreter::new(
        StandardPrincipalData { address: DEPLOYER.to_string() },
        1,
        vec![],
    );
    let snippet = "(define-public (f) (begin (contract-call? .zeta g) (contract-call? .alpha h) (contract-call? .zeta k)))".to_string();
    let deps = interpreter.detect_dependencies(id("caller"), &snippet).unwrap();
    let names: Vec<String> = deps.iter().map(|d| d.name.clone()).collect();
    assert_eq!(names, vec!["alpha".to_string(), "zeta".to_string()]);
}
