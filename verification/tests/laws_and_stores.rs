use clarity_repl::assets::AssetEvent;
use clarity_repl::ast_dependency_detector::{ASTDependencyDetector, OrderError};
use clarity_repl::contract_dependencies::ContractDependencies;
use clarity_repl::session::Session;
use clarity_repl::settings::SessionSettings;
use clarity_repl::analysis::ContractAnalysis;
use clarity_repl::analysis_db::{AnalysisDatabase, AnalysisDbError};
use clarity_repl::links::Requirements;
use clarity_repl::representations::{QualifiedContractIdentifier, StandardPrincipalData};
use clarity_repl::secp256k1::{Secp256k1PrivateKey, Secp256k1PublicKey};
use clarity_repl::settings::InitialLink;

fn id(name: &str) -> QualifiedContractIdentifier {
    QualifiedContractIdentifier {
        issuer: StandardPrincipalData {
            address: "ST1PQHQKV0RJXZFY1DGX8MNSNYVE3VGZJSRTPGZGM".to_string(),
        },
        name: name.to_string(),
    }
}

fn analysis(name: &str) -> ContractAnalysis {
    ContractAnalysis::new(id(name), vec![])
}

#[test]
fn read_after_write_in_the_database() {
    let mut db = AnalysisDatabase::new();
    db.begin();
    assert!(db.insert_contract(&id("a"), analysis("a")).is_ok());
    assert!(db.has_contract(&id("a")));
    assert_eq!(db.load_contract(&id("a")).unwrap().contract_identifier.name, "a");
    assert!(!db.has_contract(&id("b")));
    assert!(matches!(
        db.insert_contract(&id("a"), analysis("a")),
        Err(AnalysisDbError::ContractAlreadyExists(_))
    ));
}

#[test]
fn rollback_undoes_the_writes() {
    let mut db = AnalysisDatabase::new();
    db.begin();
    db.insert_contract(&id("a"), analysis("a")).unwrap();
    db.roll_back();
    assert!(!db.has_contract(&id("a")));
}

#[test]
fn commit_keeps_the_writes() {
    let mut db = AnalysisDatabase::new();
    db.begin();
    db.begin();
    db.insert_contract(&id("a"), analysis("a")).unwrap();
    db.commit();
    assert!(db.has_contract(&id("a")));
    db.roll_back();
    assert!(!db.has_contract(&id("a")));
}

#[test]
fn execute_keeps_or_drops_the_layer() {
    let mut db = AnalysisDatabase::new();
    let r: Result<(), ()> = db.execute(|d: &mut AnalysisDatabase| {
        d.insert_contract(&id("kept"), analysis("kept")).map_err(|_| ())
    });
    assert!(r.is_ok());
    assert!(db.has_contract(&id("kept")));
    let r: Result<(), ()> = db.execute(|d: &mut AnalysisDatabase| {
        d.insert_contract(&id("dropped"), analysis("dropped")).unwrap();
        Err(())
    });
    assert!(r.is_err());
    assert!(!db.has_contract(&id("dropped")));
}

fn link(contract_id: &str) -> InitialLink {
    InitialLink {
        contract_id: contract_id.to_string(),
        stacks_node_addr: None,
        cache: Some("cache".to_string()),
    }
}

#[test]
fn requirements_fetch_dependencies_first() {
    let mut req = Requirements::new(&vec![link("SP1.a")]);
    let first = req.next_fetch().unwrap();
    assert_eq!(first.contract_id, "SP1.a");
    req.supply(first, "code a".to_string(), vec!["SP1.b".to_string()]);
    let second = req.next_fetch().unwrap();
    assert_eq!(second.contract_id, "SP1.b");
    assert_eq!(second.cache, Some("cache".to_string()));
    req.supply(second, "code b".to_string(), vec![]);
    assert!(req.next_fetch().is_none());
    assert_eq!(
        req.linked(),
        &vec![
            ("SP1.b".to_string(), "code b".to_string()),
            ("SP1.a".to_string(), "code a".to_string()),
        ]
    );
}

#[test]
fn requirements_fetch_each_contract_once() {
    let mut req = Requirements::new(&vec![link("SP1.a"), link("SP1.b"), link("SP1.a")]);
    let a = req.next_fetch().unwrap();
    req.supply(a, "code a".to_string(), vec!["SP1.b".to_string()]);
    let b = req.next_fetch().unwrap();
    assert_eq!(b.contract_id, "SP1.b");
    req.supply(b, "code b".to_string(), vec![]);
    assert!(req.next_fetch().is_none());
    assert_eq!(req.linked().len(), 2);
}

#[test]
fn secret_key_one_gives_the_generator() {
    let k = Secp256k1PrivateKey::from_hex(
        "0000000000000000000000000000000000000000000000000000000000000001",
    )
    .unwrap();
    assert_eq!(
        k.to_hex(),
        "0000000000000000000000000000000000000000000000000000000000000001"
    );
    let p = Secp256k1PublicKey::from_private(&k);
    assert_eq!(
        p.to_hex(),
        "0479be667ef9dcbbac55a06295ce870b07029bfcdb2dce28d959f2815b16f81798483ada7726a3c4655da4fbfc0e1108a8fd17b448a68554199c47d08ffb10d4b8"
    );
    let k = Secp256k1PrivateKey::from_hex(
        "000000000000000000000000000000000000000000000000000000000000000101",
    )
    .unwrap();
    let p = Secp256k1PublicKey::from_private(&k);
    assert_eq!(
        p.to_hex(),
        "0279be667ef9dcbbac55a06295ce870b07029bfcdb2dce28d959f2815b16f81798"
    );
    assert_eq!(Secp256k1PublicKey::from_hex(&p.to_hex()).unwrap().to_hex(), p.to_hex());
}

#[test]
fn bad_keys_are_refused() {
    assert_eq!(
        Secp256k1PrivateKey::from_hex("zz").err(),
        Some("Failed to decode hex private key")
    );
    assert_eq!(
        Secp256k1PublicKey::from_hex("0211").err(),
        Some("Invalid public key hex string")
    );
}

const A: &str = "ST1PQHQKV0RJXZFY1DGX8MNSNYVE3VGZJSRTPGZGM";
const B: &str = "ST2CY5V39NHDPWSXMW9QDT3HC3GD6Q6XX4CFRK9AG";
const TOKEN: &str = "ST1PQHQKV0RJXZFY1DGX8MNSNYVE3VGZJSRTPGZGM.token::coin";

#[test]
fn events_credit_first_then_debit() {
    let mut s = Session::new(SessionSettings::default());
    s.interpreter.apply_asset_events(&vec![
        AssetEvent::FtMint { asset: TOKEN.to_string(), recipient: A.to_string(), amount: 10 },
        AssetEvent::FtTransfer {
            asset: TOKEN.to_string(),
            sender: A.to_string(),
            recipient: B.to_string(),
            amount: 4,
        },
        AssetEvent::StxTransfer { sender: B.to_string(), recipient: A.to_string(), amount: 0 },
        AssetEvent::NftMint { asset: "ST1.nft::badge".to_string(), recipient: B.to_string() },
        AssetEvent::Other,
    ]);
    assert_eq!(s.interpreter.get_balance_for_account(A, TOKEN), 6);
    assert_eq!(s.interpreter.get_balance_for_account(B, TOKEN), 4);
    assert_eq!(s.interpreter.get_balance_for_account(B, "ST1.nft::badge"), 1);
    assert_eq!(s.interpreter.get_accounts(), vec![A.to_string(), B.to_string()]);
    assert_eq!(
        s.interpreter.get_tokens(),
        vec!["ST1.nft::badge".to_string(), TOKEN.to_string(), "STX".to_string()]
    );
}

#[test]
fn burn_undoes_a_mint() {
    let mut s = Session::new(SessionSettings::default());
    s.interpreter.apply_asset_events(&vec![AssetEvent::FtMint {
        asset: TOKEN.to_string(),
        recipient: A.to_string(),
        amount: 3,
    }]);
    s.interpreter.apply_asset_events(&vec![
        AssetEvent::FtMint { asset: TOKEN.to_string(), recipient: A.to_string(), amount: 5 },
        AssetEvent::FtBurn { asset: TOKEN.to_string(), sender: A.to_string(), amount: 5 },
    ]);
    assert_eq!(s.interpreter.get_balance_for_account(A, TOKEN), 3);
}

#[test]
fn a_debit_without_a_balance_records_the_amount() {
    let mut s = Session::new(SessionSettings::default());
    s.interpreter.apply_asset_events(&vec![AssetEvent::StxBurn { sender: A.to_string(), amount: 9 }]);
    assert_eq!(s.interpreter.get_balance_for_account(A, "STX"), 9);
}

#[test]
fn contracts_without_a_cycle_are_ordered() {
    let mut deps = ContractDependencies::new();
    deps.reset_contract(&id("a"));
    deps.reset_contract(&id("b"));
    deps.reset_contract(&id("c"));
    deps.add_dependency(&id("a"), &id("b"));
    deps.add_dependency(&id("b"), &id("c"));
    deps.add_dependency(&id("a"), &id("c"));
    match ASTDependencyDetector::order_contracts(&deps) {
        Ok(order) => {
            let names: Vec<String> = order.iter().map(|c| c.name.clone()).collect();
            assert_eq!(names, vec!["c".to_string(), "b".to_string(), "a".to_string()]);
        }
        Err(_) => panic!("expected an order"),
    }
}

#[test]
fn contracts_in_a_cycle_are_refused() {
    let mut deps = ContractDependencies::new();
    deps.reset_contract(&id("a"));
    deps.reset_contract(&id("b"));
    deps.add_dependency(&id("a"), &id("b"));
    deps.add_dependency(&id("b"), &id("a"));
    match ASTDependencyDetector::order_contracts(&deps) {
        Err(OrderError::CyclingDependencies(names)) => {
            assert!(!names.is_empty());
        }
        _ => panic!("expected a cycle"),
    }
}
