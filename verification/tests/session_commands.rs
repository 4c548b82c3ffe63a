use clarity_repl::session::contract_call_snippet;
use clarity_repl::diagnostic::{blue, green, red};
use clarity_repl::session::Session;
use clarity_repl::settings::{Account, InitialContract, SessionSettings};

fn session() -> Session {
    Session::new(SessionSettings::default())
}

fn help(s: &str) -> String {
    format!("\u{1b}[33m{}\u{1b}[0m", s)
}

const ADDRESS: &str = "ST1PQHQKV0RJXZFY1DGX8MNSNYVE3VGZJSRTPGZGM";

#[test]
fn help_lists_every_command() {
    let mut s = session();
    let out = s.handle_command("::help");
    assert_eq!(out.len(), 11);
    assert_eq!(out[0], help("::help\t\t\t\t\tDisplay help"));
    assert_eq!(out[10], help("::toggle_costs\t\t\t\tDisplay cost analysis after every expression"));
}

#[test]
fn block_height_starts_at_zero() {
    let mut s = session();
    assert_eq!(s.handle_command("::get_block_height"), vec![green("Current height: 0")]);
}

#[test]
fn advance_chain_tip_moves_the_height() {
    let mut s = session();
    assert_eq!(
        s.handle_command("::advance_chain_tip 5"),
        vec![green("5 blocks simulated, new height: 5")]
    );
    assert_eq!(
        s.handle_command("::advance_chain_tip 7"),
        vec![green("7 blocks simulated, new height: 12")]
    );
    assert_eq!(s.handle_command("::get_block_height"), vec![green("Current height: 12")]);
}

#[test]
fn advance_chain_tip_errors() {
    let mut s = session();
    assert_eq!(
        s.handle_command("::advance_chain_tip"),
        vec![red("Usage: ::advance_chain_tip <count>")]
    );
    assert_eq!(
        s.handle_command("::advance_chain_tip ten"),
        vec![red("Unable to parse count")]
    );
    assert_eq!(
        s.handle_command("::advance_chain_tip 4294967296"),
        vec![red("Unable to parse count")]
    );
    assert_eq!(s.handle_command("::get_block_height"), vec![green("Current height: 0")]);
}

#[test]
fn advance_chain_tip_saturates() {
    let mut s = session();
    s.handle_command("::advance_chain_tip 4294967295");
    assert_eq!(
        s.handle_command("::advance_chain_tip 1"),
        vec![green("1 blocks simulated, new height: 4294967295")]
    );
}

#[test]
fn set_tx_sender_switches_the_sender() {
    let mut s = session();
    assert_eq!(s.get_tx_sender(), "ST000000000000000000002AMW42H");
    let out = s.handle_command(&format!("::set_tx_sender {}", ADDRESS));
    assert_eq!(out, vec![green(&format!("tx-sender switched to {}", ADDRESS))]);
    assert_eq!(s.get_tx_sender(), ADDRESS);
}

#[test]
fn set_tx_sender_errors() {
    let mut s = session();
    assert_eq!(
        s.handle_command("::set_tx_sender"),
        vec![red("Usage: ::set_tx_sender <address>")]
    );
    assert_eq!(
        s.handle_command("::set_tx_sender not-an-address"),
        vec![red("Unable to parse the address")]
    );
    assert_eq!(s.get_tx_sender(), "ST000000000000000000002AMW42H");
}

#[test]
fn mint_stx_credits_the_recipient() {
    let mut s = session();
    let out = s.handle_command(&format!("::mint_stx {} 1000", ADDRESS));
    assert_eq!(out, vec![green(&format!("→ {}: 1000 µSTX", ADDRESS))]);
    let out = s.handle_command(&format!("::mint_stx {} 500", ADDRESS));
    assert_eq!(out, vec![green(&format!("→ {}: 1500 µSTX", ADDRESS))]);
    assert_eq!(s.interpreter.get_balance_for_account(ADDRESS, "STX"), 1500);
}

#[test]
fn mint_stx_to_a_contract() {
    let mut s = session();
    let contract = format!("{}.token", ADDRESS);
    let out = s.handle_command(&format!("::mint_stx {} 42", contract));
    assert_eq!(out, vec![green(&format!("→ {}: 42 µSTX", contract))]);
}

#[test]
fn mint_stx_errors() {
    let mut s = session();
    assert_eq!(
        s.handle_command("::mint_stx"),
        vec![red("Usage: ::mint_stx <recipient address> <amount>")]
    );
    assert_eq!(
        s.handle_command("::mint_stx bad-address 10"),
        vec![red("Unable to parse the address")]
    );
    assert_eq!(
        s.handle_command(&format!("::mint_stx {} lots", ADDRESS)),
        vec![red("Unable to parse the balance")]
    );
    assert_eq!(
        s.handle_command(&format!("::mint_stx {} 18446744073709551616", ADDRESS)),
        vec![red("Unable to parse the balance")]
    );
    assert_eq!(s.interpreter.get_balance_for_account(ADDRESS, "STX"), 0);
}

#[test]
fn toggle_costs_switches_back_and_forth() {
    let mut s = session();
    assert_eq!(s.handle_command("::toggle_costs"), vec![green("Always show costs: true")]);
    assert!(s.show_costs);
    assert_eq!(s.handle_command("::toggle_costs"), vec![green("Always show costs: false")]);
    assert!(!s.show_costs);
}

#[test]
fn functions_are_listed_sorted() {
    let mut s = session();
    let index = s.get_api_reference_index();
    assert_eq!(index.len(), 102);
    for w in index.windows(2) {
        assert!(w[0] < w[1]);
    }
    for k in ["+", "define-public", "tx-sender", "contract-call?", "use-trait", "block-height"] {
        assert!(index.iter().any(|x| x == k));
        assert!(s.lookup_api_reference(k).is_some());
    }
    let listed = s.handle_command("::list_functions");
    assert_eq!(listed, vec![help(&index.join("\n"))]);
}

#[test]
fn describe_function_shows_its_documentation() {
    let mut s = session();
    assert_eq!(
        s.handle_command("::describe_function map"),
        vec![help("Native function: map")]
    );
    assert_eq!(
        s.handle_command("::describe_function  m a p "),
        vec![help("Native function: map")]
    );
    assert_eq!(
        s.handle_command("::describe_function define-public"),
        vec![help("Definition: define-public")]
    );
    assert_eq!(
        s.handle_command("::describe_function tx-sender"),
        vec![help("Native variable: tx-sender")]
    );
    assert_eq!(
        s.handle_command("::describe_function frobnicate"),
        vec![help("Function unknown")]
    );
    assert_eq!(s.lookup_api_reference("fold").map(|d| d.as_str()), Some("Native function: fold"));
    assert_eq!(s.lookup_api_reference("frobnicate"), None);
}

#[test]
fn snippet_defining_a_function_is_stored() {
    let mut s = session();
    let out = s.handle_command("(define-public (ping) (ok u1))");
    assert_eq!(
        out,
        vec![green("→ .ST000000000000000000002AMW42H.contract-0 contract successfully stored. Use (contract-call? ...) for invoking the public functions:")]
    );
    assert_eq!(s.contracts.len(), 1);
    assert_eq!(s.contracts[0].0, "ST000000000000000000002AMW42H.contract-0");
    assert_eq!(s.contracts[0].1, vec![("ping".to_string(), vec![])]);
    let out = s.handle_command("(define-read-only (two) u2)");
    assert_eq!(out.len(), 1);
    assert_eq!(s.contracts[1].0, "ST000000000000000000002AMW42H.contract-1");
    assert_eq!(
        s.handle_command("::get_contracts"),
        vec![
            "ST000000000000000000002AMW42H.contract-0".to_string(),
            "ST000000000000000000002AMW42H.contract-1".to_string()
        ]
    );
}

#[test]
fn snippet_without_definitions_is_not_stored() {
    let mut s = session();
    let out = s.handle_command("(+ 1 2)");
    assert!(out.is_empty());
    assert!(s.contracts.is_empty());
}

#[test]
fn snippet_with_a_syntax_error_shows_it() {
    let mut s = session();
    let out = s.handle_command("(+ 1 2");
    assert!(!out.is_empty());
    assert!(out[0].starts_with("<stdin>:"));
    assert!(out[0].contains(&red("error")));
    assert!(s.contracts.is_empty());
}

#[test]
fn costs_shown_run_the_snippet() {
    let mut s = session();
    s.handle_command("::toggle_costs");
    let out = s.handle_command("(define-public (ping) (ok u1))");
    assert!(out.is_empty());
    assert_eq!(s.contracts.len(), 1);
    assert!(s.handle_command("::get_costs (+ 1 2)").is_empty());
}

#[test]
fn encode_simple() {
    let mut session = Session::new(SessionSettings::default());
    let mut output: Vec<String> = Vec::new();
    session.encode(&mut output, "::encode 42");
    assert_eq!(output.len(), 1);
    assert_eq!(output[0], green("000000000000000000000000000000002a"));
}

#[test]
fn encode_map() {
    let mut session = Session::new(SessionSettings::default());
    let mut output: Vec<String> = Vec::new();
    session.encode(&mut output, "::encode { foo: \"hello\", bar: false }");
    assert_eq!(output.len(), 1);
    assert_eq!(output[0], green("0c00000002036261720403666f6f0d0000000568656c6c6f"));
}

#[test]
fn encode_error() {
    let mut session = Session::new(SessionSettings::default());
    let mut output: Vec<String> = Vec::new();
    session.encode(&mut output, "::encode { foo false }");
    assert_eq!(
        output[0],
        format!("encode:1:7: {}: expected ':' after key in tuple", red("error"))
    );

    session.encode(&mut output, "::encode (foo 1)");
    assert_eq!(
        output[4],
        format!("encode:1:1: {}: use of unresolved function 'foo'", red("error"))
    );
}

#[test]
fn encode_usage_and_other_values() {
    let mut s = session();
    let mut output: Vec<String> = Vec::new();
    s.encode(&mut output, "::encode");
    assert_eq!(output, vec![red("Usage: ::encode <expr>")]);
    let mut output: Vec<String> = Vec::new();
    s.encode(&mut output, "::encode (some u1)");
    assert_eq!(output, vec![green("0a0100000000000000000000000000000001")]);
    let mut output: Vec<String> = Vec::new();
    s.encode(&mut output, "::encode (list true none)");
    assert_eq!(output, vec![green("0b000000020309")]);
}

#[test]
fn decode_simple() {
    let mut session = Session::new(SessionSettings::default());
    let mut output: Vec<String> = Vec::new();
    session.decode(&mut output, "::decode 0000000000000000 0000000000000000 2a");
    assert_eq!(output.len(), 1);
    assert_eq!(output[0], green("42"));
}

#[test]
fn decode_map() {
    let mut session = Session::new(SessionSettings::default());
    let mut output: Vec<String> = Vec::new();
    session.decode(&mut output, "::decode 0x0c00000002036261720403666f6f0d0000000568656c6c6f");
    assert_eq!(output.len(), 1);
    assert_eq!(output[0], green("{bar: false, foo: \"hello\"}"));
}

#[test]
fn decode_shows_each_kind_of_value() {
    let s = session();
    let mut output: Vec<String> = Vec::new();
    s.decode(&mut output, "::decode 00ffffffffffffffffffffffffffffffff");
    s.decode(&mut output, "::decode 0a0100000000000000000000000000000001");
    s.decode(&mut output, "::decode 0b000000020309");
    s.decode(&mut output, "::decode 080200000002beef");
    s.decode(&mut output, "::decode 0d00000003610a22");
    s.decode(&mut output, "::decode 0d000000");
    assert_eq!(
        output,
        vec![
            green("-1"),
            green("(some u1)"),
            green("(true none)"),
            green("(err 0xbeef)"),
            green("\"a\\n\\\"\""),
            red("Failed to decode clarity value: Deserialization error: no value could be read"),
        ]
    );
}

#[test]
fn decode_error() {
    let mut session = Session::new(SessionSettings::default());
    let mut output: Vec<String> = Vec::new();
    session.decode(&mut output, "::decode 42");
    assert_eq!(output.len(), 1);
    assert_eq!(
        output[0],
        red("Failed to decode clarity value: Deserialization error: Bad type prefix")
    );

    session.decode(&mut output, "::decode 4g");
    assert_eq!(output.len(), 2);
    assert_eq!(
        output[1],
        red("Parsing error: invalid digit found in string")
    );
}

#[test]
fn decode_other_errors() {
    let mut s = session();
    assert_eq!(s.handle_command("::decode"), vec![red("Usage: ::decode <hex-bytes>")]);
    assert_eq!(
        s.handle_command("::decode 123"),
        vec![red("Parsing error: odd number of hex digits")]
    );
    assert_eq!(
        s.handle_command("::decode 0x ff 00"),
        vec![red("Failed to decode clarity value: Deserialization error: Bad type prefix")]
    );
}

fn account(address: &str, balance: u64) -> Account {
    Account {
        address: address.to_string(),
        balance,
        name: "wallet_1".to_string(),
        mnemonic: String::new(),
        derivation: String::new(),
    }
}

#[test]
fn start_credits_the_initial_accounts() {
    let mut settings = SessionSettings::default();
    settings.initial_accounts.push(account(ADDRESS, 100));
    settings.initial_accounts.push(account(ADDRESS, 50));
    let mut s = Session::new(settings);
    let (text, deployed) = s.start(&vec![], &vec![]).unwrap();
    assert_eq!(text, "");
    assert!(deployed.is_empty());
    assert_eq!(s.interpreter.get_balance_for_account(ADDRESS, "STX"), 150);
    assert_eq!(
        s.handle_command("::get_assets_maps"),
        vec![
            format!("{}: 100 (wallet_1)", ADDRESS),
            format!("{}: 50 (wallet_1)", ADDRESS)
        ]
    );
}

#[test]
fn start_reports_an_unreadable_account() {
    let mut settings = SessionSettings::default();
    settings.initial_accounts.push(account("not an address", 100));
    let mut s = Session::new(settings);
    assert_eq!(s.start(&vec![], &vec![]), Err(red("Unable to parse address to credit")));
}

#[test]
fn start_deploys_the_initial_contracts() {
    let mut settings = SessionSettings::default();
    settings.initial_contracts.push(InitialContract {
        code: "(define-read-only (get-x) u1)".to_string(),
        name: Some("counter".to_string()),
        path: "contracts/counter.clar".to_string(),
        deployer: None,
    });
    let mut s = Session::new(settings);
    s.is_interactive = true;
    let (text, deployed) = s.start(&vec![], &vec![]).unwrap();
    assert_eq!(
        text,
        format!("{}\nST000000000000000000002AMW42H.counter", blue("Contracts"))
    );
    assert_eq!(
        deployed,
        vec![(
            "(define-read-only (get-x) u1)".to_string(),
            "contracts/counter.clar".to_string()
        )]
    );
    assert_eq!(s.initial_contracts_analysis.len(), 1);
    assert_eq!(
        s.interpret_initial_contracts(&vec![]),
        Err(vec!["Initial contracts already interpreted".to_string()])
    );
}

#[test]
fn linked_contracts_are_deployed_by_their_deployer() {
    let mut s = session();
    let linked = vec![(
        format!("{}.dep", ADDRESS),
        "(define-public (f) (ok u1))".to_string(),
    )];
    let (_, deployed) = s.interpret_initial_contracts(&linked).unwrap();
    assert!(deployed.is_empty());
    assert_eq!(s.contracts[0].0, format!("{}.dep", ADDRESS));
    assert_eq!(s.get_tx_sender(), "ST000000000000000000002AMW42H");
}

#[test]
fn boot_contracts_come_from_the_sources_given() {
    let mut settings = SessionSettings::default();
    settings.include_boot_contracts.push("pox".to_string());
    let mut s = Session::new(settings);
    let sources = vec![("pox".to_string(), "(define-read-only (cycle) u0)".to_string())];
    assert!(s.start(&sources, &vec![]).is_ok());
    assert_eq!(s.contracts.len(), 2);
    assert_eq!(s.contracts[0].0, "ST000000000000000000002AMW42H.pox");
    assert_eq!(s.contracts[1].0, "SP000000000000000000002Q6VF78.pox");
    assert_eq!(s.handle_command("::get_contracts"), Vec::<String>::new());
}

#[test]
fn a_test_calls_a_contract_as_its_sender() {
    let mut s = session();
    s.handle_command("(define-public (ping) (ok u1))");
    let r = s.invoke_contract_call("contract-0", "ping", &vec![], ADDRESS, "test_ping".to_string());
    assert!(r.is_ok());
    assert_eq!(s.get_tx_sender(), "ST000000000000000000002AMW42H");
    assert_eq!(s.contracts.len(), 1);
    let r = s.invoke_contract_call("contract-0", "ping", &vec!["(".to_string()], ADDRESS, "t".to_string());
    assert!(r.is_err());
    assert_eq!(s.get_tx_sender(), ADDRESS);
}

#[test]
fn the_snippet_of_a_contract_call() {
    assert_eq!(
        contract_call_snippet("counter", "incr", &vec!["u1".to_string(), "u2".to_string()], ADDRESS),
        format!("(contract-call? '{}.counter incr u1 u2)", ADDRESS)
    );
    assert_eq!(
        contract_call_snippet("SP000000000000000000002Q6VF78.bns", "resolve", &vec![], ADDRESS),
        "(contract-call? 'SP000000000000000000002Q6VF78.bns resolve )".to_string()
    );
}

#[test]
fn commands_that_can_run() {
    let mut s = session();
    assert!(s.check_command("::get_costs (+ 1 2)"));
    assert!(!s.check_command("::get_costs"));
    assert!(s.check_command(&format!("::mint_stx {} 18446744073709551615", ADDRESS)));
    assert!(s.check_command("(+ 1 2)"));
    let mut settings = SessionSettings::default();
    settings.analysis.push("no_such_pass".to_string());
    let other = Session::new(settings);
    assert!(!other.check_command("::help"));
    s.handle_command("::toggle_costs");
    s.handle_command("::toggle_costs");
    assert!(!s.show_costs);
}

#[test]
fn account_names_by_address() {
    let mut settings = SessionSettings::default();
    settings.initial_accounts.push(account(ADDRESS, 1));
    let s = Session::new(settings);
    assert_eq!(s.get_account_name(&ADDRESS.to_string()).map(|n| n.as_str()), Some("wallet_1"));
    assert_eq!(s.get_account_name(&"ST2".to_string()), None);
}

#[test]
fn public_functions_are_kept_by_name() {
    let mut s = session();
    s.handle_command("(define-public (zeta) (ok u1)) (define-public (alpha (x uint) (y int)) (ok x)) (define-private (hidden) u0)");
    assert_eq!(
        s.contracts[0].1,
        vec![
            ("alpha".to_string(), vec!["(x uint)".to_string(), "(y int)".to_string()]),
            ("zeta".to_string(), vec![]),
        ]
    );
}

#[test]
fn table_of_contracts() {
    let mut s = session();
    s.handle_command(&format!("::set_tx_sender {}", ADDRESS));
    s.handle_command("(define-public (zeta) (ok u1)) (define-public (alpha (x uint) (y int)) (ok x)) (define-public (one (x uint)) (ok x))");
    assert_eq!(
        s.contract_rows(),
        vec![(
            format!("{}.contract-0", ADDRESS),
            "(alpha\n    (x uint)\n    (y int))\n(one (x uint))\n(zeta)".to_string()
        )]
    );
}

#[test]
fn table_of_balances() {
    let mut settings = SessionSettings::default();
    settings.initial_accounts.push(account(ADDRESS, 7));
    let mut s = Session::new(settings);
    assert!(s.asset_table().is_none());
    s.start(&vec![], &vec![]).unwrap();
    s.handle_command("::mint_stx ST2CY5V39NHDPWSXMW9QDT3HC3GD6Q6XX4CFRK9AG 3");
    let (headers, rows) = s.asset_table().unwrap();
    assert_eq!(headers, vec!["Address", "STX"]);
    assert_eq!(
        rows,
        vec![
            vec![format!("{} (wallet_1)", ADDRESS), "7".to_string()],
            vec!["ST2CY5V39NHDPWSXMW9QDT3HC3GD6Q6XX4CFRK9AG".to_string(), "3".to_string()],
        ]
    );
}

#[test]
fn decoding_an_encoding_shows_the_value() {
    let mut s = session();
    let mut encoded: Vec<String> = Vec::new();
    s.encode(&mut encoded, "::encode (ok (list u7 u8))");
    let empty = green("");
    let end = empty.find("\u{1b}[0m").unwrap();
    let hex = encoded[0][end..encoded[0].len() - (empty.len() - end)].to_string();
    let mut decoded: Vec<String> = Vec::new();
    s.decode(&mut decoded, &format!("::decode {}", hex));
    assert_eq!(decoded, vec![green("(ok (u7 u8))")]);
}

#[test]
fn start_deploys_the_boot_contracts_by_both_boot_addresses() {
    let mut settings = SessionSettings::default();
    settings.include_boot_contracts = vec!["costs-v1".to_string()];
    settings.lazy_initial_contracts_interpretation = true;
    let mut s = Session::new(settings);
    let sources = vec![("costs-v1".to_string(), "(define-read-only (cost) u1)".to_string())];
    assert!(s.start(&sources, &vec![]).is_ok());
    let keys: Vec<String> = s.contracts.iter().map(|c| c.0.clone()).collect();
    assert_eq!(
        keys,
        vec![
            "ST000000000000000000002AMW42H.costs-v1".to_string(),
            "SP000000000000000000002Q6VF78.costs-v1".to_string(),
        ]
    );
}
