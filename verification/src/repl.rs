use vstd::prelude::*;
use vstd::string::*;
use crate::analysis_db::contract_id_text;
use crate::debug::{address_ok, id_text, parse_contract_id, u32_value};
use crate::diagnostic::{decimal, decimal_string, green, painted, red};
use crate::interpreter::{ClarityInterpreter, credited, same_balances};
use crate::representations::{copy_string, str_equals};
use crate::links::contains_text;
use crate::session::Session;
use crate::text::{
    after_first, has_prefix, has_suffix, join, lines, parse_unsigned, removed, remove_all, split_char, split_on,
    split_once_after, strip_prefix, strip_suffix, unsigned_value, views,
};
use crate::analysis::{find_named, named_entry};
use crate::balances::{insert_string, keys_of, strings_sorted};
use crate::hex::{
    all_ascii, byte_boundary, chars_in_bytes, hex_decoded, hex_error_text, lemma_ascii_utf8_len, lemma_utf8_len_grows,
    read_hex, split_off_bytes, utf8_len, hex_of, to_hex,
};
use crate::diagnostic::{Diagnostic, diagnostics_lines};
use crate::session::{ran_snippet, same_session_data, snippet_contract};
use crate::representations::StandardPrincipalData;
use crate::diagnostic::blue;
use crate::representations::Value;
use crate::value_codec::{read_value, serializable, serialization, starts_with_value, write_value};
use crate::literal::evaluates;
use crate::representations::SymbolicExpression;
use crate::value_text::{show_value, shown};

verus! {

broadcast use vstd::std_specs::vec::group_vec_axioms;

/// The commands of the REPL, told apart by how a line starts.
#[derive(Clone, Copy, Debug, PartialEq, Eq, Structural)]
pub enum ReplCommand {
    Help,
    ListFunctions,
    DescribeFunction,
    MintStx,
    SetTxSender,
    GetAssetsMaps,
    GetCosts,
    GetContracts,
    GetBlockHeight,
    AdvanceChainTip,
    ToggleCosts,
    Encode,
    Decode,
    /// Anything else is Clarity code to run.
    Snippet,
}

/// The command that a line asks for.
pub open spec fn command_of(c: Seq<char>) -> ReplCommand {
    if c == "::help"@ {
        ReplCommand::Help
    } else if has_prefix(c, "::list_functions"@) {
        ReplCommand::ListFunctions
    } else if has_prefix(c, "::describe_function"@) {
        ReplCommand::DescribeFunction
    } else if has_prefix(c, "::mint_stx"@) {
        ReplCommand::MintStx
    } else if has_prefix(c, "::set_tx_sender"@) {
        ReplCommand::SetTxSender
    } else if has_prefix(c, "::get_assets_maps"@) {
        ReplCommand::GetAssetsMaps
    } else if has_prefix(c, "::get_costs"@) {
        ReplCommand::GetCosts
    } else if has_prefix(c, "::get_contracts"@) {
        ReplCommand::GetContracts
    } else if has_prefix(c, "::get_block_height"@) {
        ReplCommand::GetBlockHeight
    } else if has_prefix(c, "::advance_chain_tip"@) {
        ReplCommand::AdvanceChainTip
    } else if has_prefix(c, "::toggle_costs"@) {
        ReplCommand::ToggleCosts
    } else if has_prefix(c, "::encode"@) {
        ReplCommand::Encode
    } else if has_prefix(c, "::decode"@) {
        ReplCommand::Decode
    } else {
        ReplCommand::Snippet
    }
}

fn starts_with(s: &str, p: &str) -> (r: bool)
    ensures
        r == has_prefix(s@, p@),
{
    strip_prefix(s, p).is_some()
}

/// The command that a line asks for.
pub fn read_command(c: &str) -> (r: ReplCommand)
    ensures
        r == command_of(c@),
{
    if str_equals(c, "::help") {
        ReplCommand::Help
    } else if starts_with(c, "::list_functions") {
        ReplCommand::ListFunctions
    } else if starts_with(c, "::describe_function") {
        ReplCommand::DescribeFunction
    } else if starts_with(c, "::mint_stx") {
        ReplCommand::MintStx
    } else if starts_with(c, "::set_tx_sender") {
        ReplCommand::SetTxSender
    } else if starts_with(c, "::get_assets_maps") {
        ReplCommand::GetAssetsMaps
    } else if starts_with(c, "::get_costs") {
        ReplCommand::GetCosts
    } else if starts_with(c, "::get_contracts") {
        ReplCommand::GetContracts
    } else if starts_with(c, "::get_block_height") {
        ReplCommand::GetBlockHeight
    } else if starts_with(c, "::advance_chain_tip") {
        ReplCommand::AdvanceChainTip
    } else if starts_with(c, "::toggle_costs") {
        ReplCommand::ToggleCosts
    } else if starts_with(c, "::encode") {
        ReplCommand::Encode
    } else if starts_with(c, "::decode") {
        ReplCommand::Decode
    } else {
        ReplCommand::Snippet
    }
}

/// Text in the (plain) yellow of the help.
pub open spec fn help_colour(s: Seq<char>) -> Seq<char> {
    "\u{1b}[33m"@ + s + "\u{1b}[0m"@
}

fn help_line(s: &str) -> (r: String)
    ensures
        r@ == help_colour(s@),
{
    let mut r = String::from_str("\u{1b}[33m");
    r.append(s);
    r.append("\u{1b}[0m");
    r
}

/// The lines of `::help`.
pub open spec fn help_lines() -> Seq<Seq<char>> {
    seq![
        help_colour("::help\t\t\t\t\tDisplay help"@),
        help_colour("::list_functions\t\t\tDisplay all the native functions available in clarity"@),
        help_colour("::describe_function <function>\t\tDisplay documentation for a given native function fn-name"@),
        help_colour("::mint_stx <principal> <amount>\t\tMint STX balance for a given principal"@),
        help_colour("::set_tx_sender <principal>\t\tSet tx-sender variable to principal"@),
        help_colour("::get_assets_maps\t\t\tGet assets maps for active accounts"@),
        help_colour("::get_costs <expr>\t\t\tDisplay the cost analysis"@),
        help_colour("::get_contracts\t\t\t\tGet contracts"@),
        help_colour("::get_block_height\t\t\tGet current block height"@),
        help_colour("::advance_chain_tip <count>\t\tSimulate mining of <count> blocks"@),
        help_colour("::toggle_costs\t\t\t\tDisplay cost analysis after every expression"@),
    ]
}

/// The principal that `s` writes: a standard principal (an address) or a contract
/// (`address.name`).
pub open spec fn principal_ok(s: Seq<char>) -> bool {
    address_ok(s) || parse_contract_id(s) is Some
}

/// The recipient and the amount that `::mint_stx recipient amount` asks for.
pub open spec fn mint_request(c: Seq<char>) -> Option<(Seq<char>, u64)> {
    let args = split_on(c, ' ');
    if args.len() == 3 && principal_ok(args[1]) && unsigned_value(args[2]) is Some && unsigned_value(args[2])->0
        <= u64::MAX {
        Some((args[1], unsigned_value(args[2])->0 as u64))
    } else {
        None
    }
}

/// The contract identifiers that `::get_contracts` lists: those not of the boot contracts
/// `pox`, `bns` and `costs`.
pub open spec fn listed_contracts(cs: Seq<(String, Vec<(String, Vec<String>)>)>) -> Seq<Seq<char>>
    decreases cs.len(),
{
    if cs.len() == 0 {
        Seq::empty()
    } else {
        let rest = listed_contracts(cs.drop_last());
        let id = cs.last().0@;
        if has_suffix(id, ".pox"@) || has_suffix(id, ".bns"@) || has_suffix(id, ".costs"@) {
            rest
        } else {
            rest.push(id)
        }
    }
}

/// The lines of `::get_assets_maps`: each initial account with its balance and name.
pub open spec fn account_lines(accounts: Seq<crate::settings::Account>) -> Seq<Seq<char>> {
    accounts.map_values(
        |a: crate::settings::Account| a.address@ + ": "@ + decimal(a.balance as nat) + " ("@ + a.name@ + ")"@,
    )
}


/// What `::help` does: it adds the lines of the help and changes nothing.
pub open spec fn help_effect(old: Session, new: Session, before: Seq<Seq<char>>, after: Seq<Seq<char>>) -> bool {
    new == old && after == before + help_lines()
}

/// What `::list_functions` does: it adds the names of the native functions, sorted, one
/// per line, in the colour of the help.
pub open spec fn list_effect(old: Session, new: Session, before: Seq<Seq<char>>, after: Seq<Seq<char>>) -> bool {
    &&& new == old
    &&& exists|index: Seq<String>|
        #![trigger views(index)]
        strings_sorted(index) && views(index).to_set() == keys_of(old.api_reference@).to_set() && after
            == before.push(help_colour(join(views(index), '\n')))
}

/// The name of the function that `::describe_function name` asks about: the command
/// without `::describe_function` and without spaces.
pub open spec fn described_name(c: Seq<char>) -> Seq<char> {
    removed(removed(c, "::describe_function"@), " "@)
}

/// What `::describe_function name` shows: the documentation of `name`, or that the
/// function is unknown.
pub open spec fn describe_text(api: Seq<(String, String)>, c: Seq<char>) -> Seq<char> {
    match named_entry(api, described_name(c)) {
        Some(doc) => doc@,
        None => "Function unknown"@,
    }
}

/// What `::describe_function name` does.
pub open spec fn describe_effect(old: Session, new: Session, c: Seq<char>, before: Seq<Seq<char>>, after: Seq<Seq<char>>) -> bool {
    new == old && after == before.push(help_colour(describe_text(old.api_reference@, c)))
}

/// The balance of `account` in µSTX, where it has one.
pub open spec fn stx_balance(i: ClarityInterpreter, account: Seq<char>) -> Option<u128> {
    if i.has_balance(account, "STX"@) {
        Some(i.balance_spec(account, "STX"@))
    } else {
        None
    }
}

/// Whether a mint asked by `c` keeps the balance of its recipient within range.
pub open spec fn mint_ok(s: Session, c: Seq<char>) -> bool {
    mint_request(c) matches Some((recipient, amount)) ==> credited(stx_balance(s.interpreter, recipient), amount as u128)
        <= u128::MAX
}

/// What `::mint_stx recipient amount` does: it credits the amount to the recipient and says
/// so, or says why the command cannot be read.
pub open spec fn mint_effect(old: Session, new: Session, c: Seq<char>, before: Seq<Seq<char>>, after: Seq<Seq<char>>) -> bool {
    let args = split_on(c, ' ');
    &&& new.interpreter.tx_sender_spec() == old.interpreter.tx_sender_spec()
    &&& new.interpreter.block_height_spec() == old.interpreter.block_height_spec()
    &&& new.interpreter.analysis_spec() == old.interpreter.analysis_spec()
    &&& same_session_data(old, new)
    &&& match mint_request(c) {
        None => {
            &&& same_balances(old.interpreter, new.interpreter)
            &&& after == before.push(
                if args.len() != 3 {
                    painted(1, "Usage: ::mint_stx <recipient address> <amount>"@)
                } else if !principal_ok(args[1]) {
                    painted(1, "Unable to parse the address"@)
                } else {
                    painted(1, "Unable to parse the balance"@)
                },
            )
        },
        Some((recipient, amount)) => {
            &&& crate::interpreter::balance_written(
                old.interpreter,
                new.interpreter,
                recipient,
                "STX"@,
                credited(stx_balance(old.interpreter, recipient), amount as u128) as u128,
            )
            &&& after == before.push(
                painted(2, "→ "@ + recipient + ": "@ + decimal(new.interpreter.balance_spec(recipient, "STX"@) as nat) + " µSTX"@),
            )
        },
    }
}

/// What `::set_tx_sender address` does.
pub open spec fn sender_effect(old: Session, new: Session, c: Seq<char>, before: Seq<Seq<char>>, after: Seq<Seq<char>>) -> bool {
    let args = split_on(c, ' ');
    &&& new.interpreter.block_height_spec() == old.interpreter.block_height_spec()
    &&& new.interpreter.analysis_spec() == old.interpreter.analysis_spec()
    &&& same_balances(old.interpreter, new.interpreter)
    &&& same_session_data(old, new)
    &&& if args.len() != 2 {
        &&& after == before.push(painted(1, "Usage: ::set_tx_sender <address>"@))
        &&& new.interpreter.tx_sender_spec() == old.interpreter.tx_sender_spec()
    } else if !address_ok(args[1]) {
        &&& after == before.push(painted(1, "Unable to parse the address"@))
        &&& new.interpreter.tx_sender_spec() == old.interpreter.tx_sender_spec()
    } else {
        &&& new.interpreter.tx_sender_spec().address@ == args[1]
        &&& after == before.push(painted(2, "tx-sender switched to "@ + args[1]))
    }
}

/// What `::get_block_height` does.
pub open spec fn height_effect(old: Session, new: Session, before: Seq<Seq<char>>, after: Seq<Seq<char>>) -> bool {
    new == old && after == before.push(painted(2, "Current height: "@ + decimal(old.interpreter.block_height_spec() as nat)))
}

/// What `::advance_chain_tip count` does: it moves the tip `count` blocks forward, up to
/// the largest height.
pub open spec fn advance_effect(old: Session, new: Session, c: Seq<char>, before: Seq<Seq<char>>, after: Seq<Seq<char>>) -> bool {
    let args = split_on(c, ' ');
    &&& new.interpreter.tx_sender_spec() == old.interpreter.tx_sender_spec()
    &&& new.interpreter.analysis_spec() == old.interpreter.analysis_spec()
    &&& same_balances(old.interpreter, new.interpreter)
    &&& same_session_data(old, new)
    &&& if args.len() != 2 {
        &&& after == before.push(painted(1, "Usage: ::advance_chain_tip <count>"@))
        &&& new.interpreter.block_height_spec() == old.interpreter.block_height_spec()
    } else {
        match u32_value(args[1]) {
            None => {
                &&& after == before.push(painted(1, "Unable to parse count"@))
                &&& new.interpreter.block_height_spec() == old.interpreter.block_height_spec()
            },
            Some(count) => {
                &&& new.interpreter.block_height_spec() as int == if old.interpreter.block_height_spec() + count
                    <= u32::MAX {
                    old.interpreter.block_height_spec() + count
                } else {
                    u32::MAX as int
                }
                &&& after == before.push(
                    painted(
                        2,
                        decimal(count as nat) + " blocks simulated, new height: "@ + decimal(
                            new.interpreter.block_height_spec() as nat,
                        ),
                    ),
                )
            },
        }
    }
}

/// What `::toggle_costs` does: it switches whether costs are shown, and says so.
pub open spec fn toggle_effect(old: Session, new: Session, before: Seq<Seq<char>>, after: Seq<Seq<char>>) -> bool {
    &&& new.show_costs == !old.show_costs
    &&& new.interpreter == old.interpreter
    &&& new.contracts == old.contracts
    &&& new.settings == old.settings
    &&& new.api_reference == old.api_reference
    &&& new.initial_contracts_analysis == old.initial_contracts_analysis
    &&& new.is_interactive == old.is_interactive
    &&& after == before.push(
        painted(
            2,
            "Always show costs: "@ + if new.show_costs {
                "true"@
            } else {
                "false"@
            },
        ),
    )
}

/// What `::get_contracts` does.
pub open spec fn contracts_effect(old: Session, new: Session, before: Seq<Seq<char>>, after: Seq<Seq<char>>) -> bool {
    new == old && after == before + listed_contracts(old.contracts@)
}

/// What `::get_assets_maps` does.
pub open spec fn accounts_effect(old: Session, new: Session, before: Seq<Seq<char>>, after: Seq<Seq<char>>) -> bool {
    new == old && after == before + account_lines(old.settings.initial_accounts@)
}

/// What running `snippet` for its costs does: the snippet runs, unnamed, and the lines of
/// its diagnostics are added.
pub open spec fn costs_effect(old: Session, new: Session, snippet: Seq<char>, before: Seq<Seq<char>>, after: Seq<Seq<char>>) -> bool {
    exists|ds: Seq<Diagnostic>, stored: bool|
        #![trigger diagnostics_lines(ds, "<stdin>"@, lines(snippet)), ran_snippet(old, new, Session::default_contract_name(old.contracts@.len()), stored)]
        ran_snippet(old, new, Session::default_contract_name(old.contracts@.len()), stored) && after == before
            + diagnostics_lines(ds, "<stdin>"@, lines(snippet))
}

/// The line that tells where a snippet that is a contract was stored.
pub open spec fn stored_line(id: Seq<char>) -> Seq<char> {
    painted(
        2,
        "→ ."@ + id + " contract successfully stored. Use (contract-call? ...) for invoking the public functions:"@,
    )
}

/// What a line of Clarity code does: with costs shown, what `::get_costs` does with it;
/// else the snippet runs, unnamed, the lines of its diagnostics are added and, where it is
/// a contract, the line that says where it was stored.
pub open spec fn snippet_effect(old: Session, new: Session, c: Seq<char>, before: Seq<Seq<char>>, after: Seq<Seq<char>>) -> bool {
    if old.show_costs {
        costs_effect(old, new, c, before, after)
    } else {
        exists|ds: Seq<Diagnostic>, stored: bool|
            #![trigger diagnostics_lines(ds, "<stdin>"@, lines(c)), ran_snippet(old, new, Session::default_contract_name(old.contracts@.len()), stored)]
            ran_snippet(old, new, Session::default_contract_name(old.contracts@.len()), stored) && after == before
                + diagnostics_lines(ds, "<stdin>"@, lines(c)) + if stored {
                seq![stored_line(new.contracts@.last().0@)]
            } else {
                Seq::empty()
            }
    }
}

/// What `::encode expr` does: the expression runs, unnamed; the serialization of its value
/// is shown in hexadecimal, or that it has none, or the lines of the diagnostics that refused
/// it are added and the encoding fails.
pub open spec fn encode_effect(old: Session, new: Session, c: Seq<char>, before: Seq<Seq<char>>, after: Seq<Seq<char>>) -> bool {
    match after_first(c, ' ') {
        None => new == old && after == before.push(painted(1, "Usage: ::encode <expr>"@)),
        Some(snippet) => encoded(old, new, snippet, before, after),
    }
}

/// The line of the encoding of a value written out of literals: its serialization in
/// hexadecimal, or, for a value that is not serialized here, the refusal.
pub open spec fn encoding_line(v: Value) -> Seq<char> {
    if serializable(v) {
        painted(2, hex_of(serialization(v)))
    } else {
        painted(1, "Serialization error: principals and UTF-8 strings are not encoded here"@)
    }
}

/// What encoding `snippet` does.
pub open spec fn encoded(old: Session, new: Session, snippet: Seq<char>, before: Seq<Seq<char>>, after: Seq<Seq<char>>) -> bool {
    exists|stored: bool|
        #![trigger ran_snippet(old, new, Session::default_contract_name(old.contracts@.len()), stored)]
        ran_snippet(old, new, Session::default_contract_name(old.contracts@.len()), stored) && (after == before.push(
            "No value"@,
        ) || (!stored && encoding_failed(snippet, before, after)) || (!stored && exists|v: Value, e: SymbolicExpression|
            #![trigger evaluates(e, v)]
            evaluates(e, v) && after == before.push(encoding_line(v))))
}

/// The lines of an encoding that failed: those of the diagnostics, then the failure.
pub open spec fn encoding_failed(snippet: Seq<char>, before: Seq<Seq<char>>, after: Seq<Seq<char>>) -> bool {
    exists|ds: Seq<Diagnostic>|
        #![trigger diagnostics_lines(ds, "encode"@, split_on(snippet, '\n'))]
        after == before + diagnostics_lines(ds, "encode"@, split_on(snippet, '\n')) + seq![painted(1, "encoding failed"@)]
}

/// The line that tells that the bytes hold no value that is read here.
pub open spec fn unread_value_line() -> Seq<char> {
    painted(1, "Failed to decode clarity value: Deserialization error: no value could be read"@)
}

/// Whether `line` is what `::decode` shows of the bytes `bytes`: a refusal of a first byte
/// that is no type prefix; else, where the bytes start with the serialization of a value,
/// the text of that value; else that no value was read.
pub open spec fn decoded_line(bytes: Seq<u8>, line: Seq<char>) -> bool {
    if bytes.len() > 0 && bytes[0] > 14 {
        line == painted(1, "Failed to decode clarity value: Deserialization error: Bad type prefix"@)
    } else if exists|v: Value| #[trigger] starts_with_value(bytes, 0, v) {
        forall|v: Value| #[trigger] starts_with_value(bytes, 0, v) ==> line == painted(2, shown(v))
    } else {
        line == unread_value_line()
    }
}

/// Decoding the bytes of the serialization of a value shows that value: what `::decode`
/// reads back of what `::encode` wrote.
pub proof fn decoding_an_encoding_gives_it_back(v: Value, line: Seq<char>)
    requires
        serializable(v),
        decoded_line(serialization(v), line),
    ensures
        line == painted(2, shown(v)),
{
    let b = serialization(v);
    assert(b.subrange(0, b.len() as int) =~= b);
    assert(starts_with_value(b, 0, v));
    crate::value_codec::lemma_first_byte(v);
}

/// Whether `line` is what `::decode hex` shows: how to use the command, why the text is no
/// hexadecimal, or what the bytes hold.
pub open spec fn decode_line(c: Seq<char>, line: Seq<char>) -> bool {
    match after_first(c, ' ') {
        None => line == painted(1, "Usage: ::decode <hex-bytes>"@),
        Some(h) => match hex_decoded(h) {
            Err(e) => line == painted(1, "Parsing error: "@ + hex_error_text(e)),
            Ok(bytes) => decoded_line(bytes, line),
        },
    }
}

/// What `::decode hex` does.
pub open spec fn decode_effect(old: Session, new: Session, c: Seq<char>, before: Seq<Seq<char>>, after: Seq<Seq<char>>) -> bool {
    new == old && after.len() == before.len() + 1 && after.drop_last() == before && decode_line(c, after.last())
}

/// What `handle_command` does with `c`: what the command that `c` asks for does.
pub open spec fn command_effect(old: Session, new: Session, c: Seq<char>, out: Seq<Seq<char>>) -> bool {
    let none = Seq::<Seq<char>>::empty();
    match command_of(c) {
        ReplCommand::Help => help_effect(old, new, none, out),
        ReplCommand::ListFunctions => list_effect(old, new, none, out),
        ReplCommand::DescribeFunction => describe_effect(old, new, c, none, out),
        ReplCommand::MintStx => mint_effect(old, new, c, none, out),
        ReplCommand::SetTxSender => sender_effect(old, new, c, none, out),
        ReplCommand::GetAssetsMaps => accounts_effect(old, new, none, out),
        ReplCommand::GetCosts => costs_effect(old, new, c.skip(12), none, out),
        ReplCommand::GetContracts => contracts_effect(old, new, none, out),
        ReplCommand::GetBlockHeight => height_effect(old, new, none, out),
        ReplCommand::AdvanceChainTip => advance_effect(old, new, c, none, out),
        ReplCommand::ToggleCosts => toggle_effect(old, new, none, out),
        ReplCommand::Encode => encode_effect(old, new, c, none, out),
        ReplCommand::Decode => decode_effect(old, new, c, none, out),
        ReplCommand::Snippet => snippet_effect(old, new, c, none, out),
    }
}

/// The µSTX balance of `a`: none counts as zero.
pub open spec fn stx_value(i: ClarityInterpreter, a: Seq<char>) -> int {
    if i.has_balance(a, "STX"@) {
        i.balance_spec(a, "STX"@) as int
    } else {
        0
    }
}

/// What the initial accounts credit to `a`.
pub open spec fn credits_to(accounts: Seq<crate::settings::Account>, a: Seq<char>) -> int
    decreases accounts.len(),
{
    if accounts.len() == 0 {
        0
    } else {
        credits_to(accounts.drop_last(), a) + if accounts.last().address@ == a && principal_ok(a) {
            accounts.last().balance as int
        } else {
            0
        }
    }
}

proof fn lemma_credits_grow(accounts: Seq<crate::settings::Account>, i: int, a: Seq<char>)
    requires
        0 <= i <= accounts.len(),
    ensures
        credits_to(accounts.take(i), a) <= credits_to(accounts, a),
    decreases accounts.len() - i,
{
    if i < accounts.len() {
        lemma_credits_grow(accounts, i + 1, a);
        assert(accounts.take(i + 1).drop_last() =~= accounts.take(i));
    } else {
        assert(accounts.take(i) =~= accounts);
    }
}

/// The lines that tell of the initial accounts whose address cannot be read.
pub open spec fn account_error_lines(accounts: Seq<crate::settings::Account>) -> Seq<Seq<char>>
    decreases accounts.len(),
{
    if accounts.len() == 0 {
        Seq::empty()
    } else {
        account_error_lines(accounts.drop_last()) + if principal_ok(accounts.last().address@) {
            Seq::empty()
        } else {
            seq![painted(1, "Unable to parse address to credit"@)]
        }
    }
}

/// Whether the credits of the initial accounts keep every balance within range.
pub open spec fn mints_ok(s: Session) -> bool {
    forall|a: Seq<char>| #[trigger] stx_value(s.interpreter, a) + credits_to(s.settings.initial_accounts@, a) <= u128::MAX
}

/// The boot contracts, in the order they are deployed.
pub open spec fn boot_contract_names() -> Seq<Seq<char>> {
    seq!["pox"@, "bns"@, "costs-v1"@, "costs-v2"@]
}

/// The boot contracts that `included` asks for, in the order they are deployed.
pub open spec fn boot_list(included: Seq<Seq<char>>) -> Seq<Seq<char>> {
    boot_contract_names().filter(|n: Seq<char>| included.contains(n))
}

/// Whether `after` is `before` followed by boot contracts deployed by `sender`: each added
/// contract is named by `sender` and the name of a boot contract.
pub open spec fn boot_deployed(before: Seq<(String, Vec<(String, Vec<String>)>)>, after: Seq<(String, Vec<(String, Vec<String>)>)>, sender: Seq<char>) -> bool {
    &&& before.len() <= after.len()
    &&& after.subrange(0, before.len() as int) == before
    &&& forall|k: int|
        before.len() <= k < after.len() ==> exists|j: int|
            0 <= j < boot_contract_names().len() && (#[trigger] after[k]).0@ == id_text((sender, boot_contract_names()[j]))
}

/// Whether `key` names a boot contract deployed by the testnet or the mainnet boot address.
pub open spec fn boot_key(key: Seq<char>) -> bool {
    exists|j: int, a: Seq<char>|
        0 <= j < boot_contract_names().len() && (a == crate::settings::TESTNET_BURN_ADDRESS@ || a
            == crate::settings::MAINNET_BURN_ADDRESS@) && key == #[trigger] id_text((a, boot_contract_names()[j]))
}

/// Whether `after` is `before` followed by boot contracts deployed by the testnet or the
/// mainnet boot address.
pub open spec fn boot_contracts_added(before: Seq<(String, Vec<(String, Vec<String>)>)>, after: Seq<(String, Vec<(String, Vec<String>)>)>) -> bool {
    &&& before.len() <= after.len()
    &&& after.subrange(0, before.len() as int) == before
    &&& forall|k: int| before.len() <= k < after.len() ==> boot_key(#[trigger] after[k].0@)
}

proof fn lemma_boot_rounds(
    c0: Seq<(String, Vec<(String, Vec<String>)>)>,
    c1: Seq<(String, Vec<(String, Vec<String>)>)>,
    c2: Seq<(String, Vec<(String, Vec<String>)>)>,
)
    requires
        boot_deployed(c0, c1, crate::settings::TESTNET_BURN_ADDRESS@),
        boot_deployed(c1, c2, crate::settings::MAINNET_BURN_ADDRESS@),
    ensures
        boot_contracts_added(c0, c2),
{
    assert(c2.subrange(0, c0.len() as int) =~= c2.subrange(0, c1.len() as int).subrange(0, c0.len() as int));
    assert forall|k: int| c0.len() <= k < c2.len() implies boot_key(#[trigger] c2[k].0@) by {
        if k < c1.len() {
            assert(c2[k] == c2.subrange(0, c1.len() as int)[k]);
            assert(c2[k] == c1[k]);
            let j = choose|j: int| 0 <= j < boot_contract_names().len() && (#[trigger] c1[k]).0@ == id_text(
                (crate::settings::TESTNET_BURN_ADDRESS@, boot_contract_names()[j]),
            );
            assert(c2[k].0@ == id_text((crate::settings::TESTNET_BURN_ADDRESS@, boot_contract_names()[j])));
        } else {
            let j = choose|j: int| 0 <= j < boot_contract_names().len() && (#[trigger] c2[k]).0@ == id_text(
                (crate::settings::MAINNET_BURN_ADDRESS@, boot_contract_names()[j]),
            );
            assert(c2[k].0@ == id_text((crate::settings::MAINNET_BURN_ADDRESS@, boot_contract_names()[j])));
        }
    }
}

/// Whether a source is given for each boot contract that `included` asks for.
pub open spec fn boot_sources_ok(included: Seq<Seq<char>>, sources: Seq<(String, String)>) -> bool {
    forall|i: int| 0 <= i < boot_list(included).len() ==> named_entry(sources, #[trigger] boot_list(included)[i]) is Some
}

/// The outcome of deploying the boot contracts `names`: in order, until one is refused.
pub open spec fn boot_outcome(names: Seq<Seq<char>>, os: Seq<(bool, Seq<Seq<char>>, bool)>, r: Result<(), Seq<Seq<char>>>) -> bool {
    &&& os.len() <= names.len()
    &&& forall|i: int| 0 <= i < os.len() - 1 ==> (#[trigger] os[i]).0
    &&& forall|i: int| 0 <= i < os.len() ==> (#[trigger] os[i]).2 ==> os[i].0
    &&& match r {
        Ok(()) => os.len() == names.len() && forall|i: int| 0 <= i < os.len() ==> (#[trigger] os[i]).0,
        Err(e) => os.len() > 0 && !os.last().0 && e == os.last().1,
    }
}

pub open spec fn unit_result(r: Result<(), Vec<String>>) -> Result<(), Seq<Seq<char>>> {
    match r {
        Ok(()) => Ok(()),
        Err(e) => Err(views(e@)),
    }
}

/// The lines that a session started in the interactive mode shows: the contracts deployed
/// and the balances of the initial accounts.
pub open spec fn start_lines(s: Session) -> Seq<Seq<char>> {
    (if s.settings.initial_contracts@.len() > 0 {
        seq![painted(4, "Contracts"@)] + listed_contracts(s.contracts@)
    } else {
        Seq::empty()
    }) + if s.settings.initial_accounts@.len() > 0 {
        seq![painted(4, "Initialized balances"@)] + account_lines(s.settings.initial_accounts@)
    } else {
        Seq::empty()
    }
}

/// Switching whether costs are shown twice gives the session back as it was.
pub proof fn toggle_twice_restores(
    a: Session,
    b: Session,
    c: Session,
    out0: Seq<Seq<char>>,
    out1: Seq<Seq<char>>,
    out2: Seq<Seq<char>>,
)
    requires
        toggle_effect(a, b, out0, out1),
        toggle_effect(b, c, out1, out2),
    ensures
        c == a,
{
}

/// A public function as the table of contracts shows it: its parameters none, one on the
/// same line, or each on a line of its own.
pub open spec fn method_text(name: Seq<char>, args: Seq<Seq<char>>) -> Seq<char> {
    "("@ + name + (if args.len() == 0 {
        Seq::empty()
    } else if args.len() == 1 {
        " "@ + args[0]
    } else {
        "\n    "@ + crate::text::join_by(args, "\n    "@)
    }) + ")"@
}

/// The public functions of a contract as the table of contracts shows them, one per line.
pub open spec fn methods_text(ms: Seq<(String, Vec<String>)>) -> Seq<char> {
    crate::text::join_by(ms.map_values(|m: (String, Vec<String>)| method_text(m.0@, views(m.1@))), "\n"@)
}

/// Whether `id` is a contract of the testnet or the mainnet boot address.
pub open spec fn is_boot_contract(id: Seq<char>) -> bool {
    has_prefix(id, "ST000000000000000000002AMW42H"@) || has_prefix(id, "SP000000000000000000002Q6VF78"@)
}

/// The rows of the table of contracts: each contract but the boot contracts, with its
/// public functions.
pub open spec fn contract_rows_spec(cs: Seq<(String, Vec<(String, Vec<String>)>)>) -> Seq<(Seq<char>, Seq<char>)>
    decreases cs.len(),
{
    if cs.len() == 0 {
        Seq::empty()
    } else {
        let rest = contract_rows_spec(cs.drop_last());
        let c = cs.last();
        if is_boot_contract(c.0@) {
            rest
        } else {
            rest.push((c.0@, methods_text(c.1@)))
        }
    }
}

/// The first cell of an account's row: its address, and the name of the initial account
/// with that address, where there is one.
pub open spec fn account_cell(s: Session, account: Seq<char>) -> Seq<char> {
    match crate::session::account_name(s.settings.initial_accounts@, account) {
        Some(name) => account + " ("@ + name + ")"@,
        None => account,
    }
}

/// The row of `account` in the table of balances: its cell, then its balance in each of
/// the tokens `tokens`.
pub open spec fn account_row(s: Session, account: Seq<char>, tokens: Seq<Seq<char>>) -> Seq<Seq<char>> {
    seq![account_cell(s, account)] + tokens.map_values(|t: Seq<char>| decimal(s.interpreter.balance_spec(account, t) as nat))
}

impl Session {
    /// Whether `command` can be handed to `handle_command`: the analyses that the session
    /// runs are known, `::get_costs` is followed by a character that takes one byte, and a
    /// mint leaves the balance within range.
    pub open spec fn command_ok(&self, command: Seq<char>) -> bool {
        &&& self.analysis_ok()
        &&& command_of(command) == ReplCommand::GetCosts ==> command.len() >= 12 && (command[11] as u32) < 0x80
        &&& command_of(command) == ReplCommand::MintStx ==> mint_ok(*self, command)
    }

    /// The lines of `::help`.
    pub fn display_help(&self, output: &mut Vec<String>)
        ensures
            help_effect(*self, *self, views(old(output)@), views(final(output)@)),
    {
        let ghost before = views(output@);
        output.push(help_line("::help\t\t\t\t\tDisplay help"));
        output.push(help_line("::list_functions\t\t\tDisplay all the native functions available in clarity"));
        output.push(
            help_line("::describe_function <function>\t\tDisplay documentation for a given native function fn-name"),
        );
        output.push(help_line("::mint_stx <principal> <amount>\t\tMint STX balance for a given principal"));
        output.push(help_line("::set_tx_sender <principal>\t\tSet tx-sender variable to principal"));
        output.push(help_line("::get_assets_maps\t\t\tGet assets maps for active accounts"));
        output.push(help_line("::get_costs <expr>\t\t\tDisplay the cost analysis"));
        output.push(help_line("::get_contracts\t\t\t\tGet contracts"));
        output.push(help_line("::get_block_height\t\t\tGet current block height"));
        output.push(help_line("::advance_chain_tip <count>\t\tSimulate mining of <count> blocks"));
        output.push(help_line("::toggle_costs\t\t\t\tDisplay cost analysis after every expression"));
        proof {
            assert(views(output@) =~= before + help_lines());
        }
    }

    /// The documentation of the native function `keyword`.
    pub fn lookup_api_reference(&self, keyword: &str) -> (r: Option<&String>)
        ensures
            r matches Some(doc) ==> named_entry(self.api_reference@, keyword@) == Some(*doc),
            r is None <==> named_entry(self.api_reference@, keyword@) is None,
    {
        find_named(&self.api_reference, keyword)
    }

    /// The names of the native functions that have documentation, sorted.
    pub fn get_api_reference_index(&self) -> (r: Vec<String>)
        ensures
            strings_sorted(r@),
            views(r@).to_set() == keys_of(self.api_reference@).to_set(),
    {
        let mut keys: Vec<String> = Vec::new();
        let mut i: usize = 0;
        proof {
            assert(keys_of(self.api_reference@.take(0)) =~= Seq::<Seq<char>>::empty());
            assert(views(keys@) =~= Seq::<Seq<char>>::empty());
        }
        while i < self.api_reference.len()
            invariant
                i <= self.api_reference@.len(),
                strings_sorted(keys@),
                views(keys@).to_set() == keys_of(self.api_reference@.take(i as int)).to_set(),
            decreases self.api_reference.len() - i,
        {
            insert_string(&mut keys, self.api_reference[i].0.as_str());
            proof {
                let a = self.api_reference@;
                assert(keys_of(a.take(i + 1)) =~= keys_of(a.take(i as int)).push(a[i as int].0@));
                keys_of(a.take(i as int)).lemma_push_to_set_commute(a[i as int].0@);
            }
            i = i + 1;
        }
        proof {
            assert(self.api_reference@.take(i as int) =~= self.api_reference@);
        }
        keys
    }

    /// `::list_functions`: the names of the native functions, sorted.
    pub fn display_functions(&self, output: &mut Vec<String>)
        ensures
            list_effect(*self, *self, views(old(output)@), views(final(output)@)),
    {
        let index = self.get_api_reference_index();
        let text = crate::text::join_lines(&index);
        let ghost before = views(output@);
        output.push(help_line(text.as_str()));
        proof {
            assert(views(output@) =~= before.push(help_colour(join(views(index@), '\n'))));
        }
    }

    /// `::describe_function name`: the documentation of the native function `name`.
    pub fn display_doc(&self, output: &mut Vec<String>, command: &str)
        ensures
            describe_effect(*self, *self, command@, views(old(output)@), views(final(output)@)),
    {
        proof {
            reveal_strlit("::describe_function");
            reveal_strlit(" ");
        }
        let without_command = remove_all(command, "::describe_function");
        let keyword = remove_all(without_command.as_str(), " ");
        let ghost before = views(output@);
        let line = match self.lookup_api_reference(keyword.as_str()) {
            Some(doc) => help_line(doc.as_str()),
            None => help_line("Function unknown"),
        };
        output.push(line);
        proof {
            assert(views(output@) =~= before.push(help_colour(describe_text(self.api_reference@, command@))));
        }
    }

    /// `::get_block_height`: the height of the chain.
    pub fn get_block_height(&self, output: &mut Vec<String>)
        ensures
            height_effect(*self, *self, views(old(output)@), views(final(output)@)),
    {
        let height = self.interpreter.get_block_height();
        let mut s = String::from_str("Current height: ");
        let d = decimal_string(height as u128);
        s.append(d.as_str());
        let ghost before = views(output@);
        output.push(green(s.as_str()));
        proof {
            assert(views(output@) =~= before.push(painted(2, "Current height: "@ + decimal(height as nat))));
        }
    }

    /// `::advance_chain_tip count`: moves the tip `count` blocks forward.
    pub fn parse_and_advance_chain_tip(&mut self, output: &mut Vec<String>, command: &str)
        ensures
            advance_effect(*old(self), *final(self), command@, views(old(output)@), views(final(output)@)),
    {
        let args = split_char(command, ' ');
        proof {
            assert(views(args@).len() == args@.len());
        }
        let ghost before = views(output@);
        if args.len() != 2 {
            output.push(red("Usage: ::advance_chain_tip <count>"));
            proof {
                assert(views(output@) =~= before.push(painted(1, "Usage: ::advance_chain_tip <count>"@)));
            }
            return;
        }
        proof {
            assert(views(args@)[1] == args@[1]@);
        }
        let count = match parse_unsigned(args[1].as_str(), 0xffff_ffffu64) {
            Some(c) => c as u32,
            None => {
                output.push(red("Unable to parse count"));
                proof {
                    assert(views(output@) =~= before.push(painted(1, "Unable to parse count"@)));
                }
                return;
            },
        };
        let new_height = self.advance_chain_tip(count);
        let mut s = decimal_string(count as u128);
        s.append(" blocks simulated, new height: ");
        let d = decimal_string(new_height as u128);
        s.append(d.as_str());
        output.push(green(s.as_str()));
        proof {
            assert(views(output@) =~= before.push(
                painted(2, decimal(count as nat) + " blocks simulated, new height: "@ + decimal(new_height as nat)),
            ));
        }
    }


    /// `::set_tx_sender address`: makes `address` the sender of the transactions.
    pub fn parse_and_set_tx_sender(&mut self, output: &mut Vec<String>, command: &str)
        ensures
            sender_effect(*old(self), *final(self), command@, views(old(output)@), views(final(output)@)),
    {
        let args = split_char(command, ' ');
        proof {
            assert(views(args@).len() == args@.len());
        }
        let ghost before = views(output@);
        if args.len() != 2 {
            output.push(red("Usage: ::set_tx_sender <address>"));
            proof {
                assert(views(output@) =~= before.push(painted(1, "Usage: ::set_tx_sender <address>"@)));
            }
            return;
        }
        proof {
            assert(views(args@)[1] == args@[1]@);
        }
        if !crate::debug::check_address(args[1].as_str()) {
            output.push(red("Unable to parse the address"));
            proof {
                assert(views(output@) =~= before.push(painted(1, "Unable to parse the address"@)));
            }
            return;
        }
        let address = args[1].clone();
        let mut s = String::from_str("tx-sender switched to ");
        s.append(address.as_str());
        self.set_tx_sender(address);
        output.push(green(s.as_str()));
        proof {
            assert(views(output@) =~= before.push(painted(2, "tx-sender switched to "@ + args@[1]@)));
        }
    }


    /// `::mint_stx recipient amount`: credits `amount` µSTX to `recipient`.
    pub fn mint_stx(&mut self, output: &mut Vec<String>, command: &str)
        requires
            mint_ok(*old(self), command@),
        ensures
            mint_effect(*old(self), *final(self), command@, views(old(output)@), views(final(output)@)),
    {
        let args = split_char(command, ' ');
        proof {
            assert(views(args@).len() == args@.len());
        }
        let ghost before = views(output@);
        if args.len() != 3 {
            output.push(red("Usage: ::mint_stx <recipient address> <amount>"));
            proof {
                assert(views(output@) =~= before.push(painted(1, "Usage: ::mint_stx <recipient address> <amount>"@)));
            }
            return;
        }
        proof {
            assert(views(args@)[1] == args@[1]@);
            assert(views(args@)[2] == args@[2]@);
        }
        let recipient_ok = crate::debug::check_address(args[1].as_str()) || parse_contract_identifier_ok(
            args[1].as_str(),
        );
        if !recipient_ok {
            output.push(red("Unable to parse the address"));
            proof {
                assert(views(output@) =~= before.push(painted(1, "Unable to parse the address"@)));
            }
            return;
        }
        let amount = match parse_unsigned(args[2].as_str(), u64::MAX) {
            Some(a) => a,
            None => {
                output.push(red("Unable to parse the balance"));
                proof {
                    assert(views(output@) =~= before.push(painted(1, "Unable to parse the balance"@)));
                }
                return;
            },
        };
        let recipient = args[1].clone();
        match self.interpreter.mint_stx_balance(recipient.as_str(), amount) {
            Ok(msg) => output.push(green(msg.as_str())),
            Err(err) => output.push(red(err.as_str())),
        }
        proof {
            assert(views(output@) =~= before.push(
                painted(
                    2,
                    "→ "@ + args@[1]@ + ": "@ + decimal(self.interpreter.balance_spec(args@[1]@, "STX"@) as nat)
                        + " µSTX"@,
                ),
            ));
        }
    }


    /// `::get_contracts`: the contracts deployed, but the boot contracts.
    pub fn get_contracts(&self, output: &mut Vec<String>)
        ensures
            contracts_effect(*self, *self, views(old(output)@), views(final(output)@)),
    {
        let ghost start = views(output@);
        let mut i: usize = 0;
        proof {
            assert(self.contracts@.take(0) =~= Seq::<(String, Vec<(String, Vec<String>)>)>::empty());
            assert(views(output@) =~= start + listed_contracts(self.contracts@.take(0)));
        }
        while i < self.contracts.len()
            invariant
                i <= self.contracts@.len(),
                views(output@) == start + listed_contracts(self.contracts@.take(i as int)),
            decreases self.contracts.len() - i,
        {
            let ghost u = self.contracts@.take(i + 1);
            proof {
                assert(u.drop_last() =~= self.contracts@.take(i as int));
                assert(u.last() == self.contracts@[i as int]);
            }
            let id = self.contracts[i].0.as_str();
            let boot = strip_suffix(id, ".pox").is_some() || strip_suffix(id, ".bns").is_some() || strip_suffix(
                id,
                ".costs",
            ).is_some();
            if !boot {
                let ghost before = views(output@);
                output.push(self.contracts[i].0.clone());
                proof {
                    assert(views(output@) =~= before.push(self.contracts@[i as int].0@));
                }
            }
            i = i + 1;
        }
        proof {
            assert(self.contracts@.take(i as int) =~= self.contracts@);
        }
    }


    /// `::get_assets_maps`: each initial account with its balance and name.
    pub fn get_accounts(&self, output: &mut Vec<String>)
        ensures
            accounts_effect(*self, *self, views(old(output)@), views(final(output)@)),
    {
        let ghost start = views(output@);
        let accounts = &self.settings.initial_accounts;
        let mut i: usize = 0;
        while i < accounts.len()
            invariant
                i <= accounts@.len(),
                views(output@) == start + account_lines(accounts@.take(i as int)),
            decreases accounts.len() - i,
        {
            let mut line = accounts[i].address.clone();
            line.append(": ");
            let d = decimal_string(accounts[i].balance as u128);
            line.append(d.as_str());
            line.append(" (");
            line.append(accounts[i].name.as_str());
            line.append(")");
            let ghost before = views(output@);
            let ghost lv = line@;
            output.push(line);
            proof {
                assert(views(output@) =~= before.push(lv));
                assert(lv =~= accounts@[i as int].address@ + ": "@ + decimal(accounts@[i as int].balance as nat) + " ("@
                    + accounts@[i as int].name@ + ")"@);
                assert(accounts@.take(i + 1) =~= accounts@.take(i as int).push(accounts@[i as int]));
                assert(account_lines(accounts@.take(i + 1)) =~= account_lines(accounts@.take(i as int)).push(
                    accounts@[i as int].address@ + ": "@ + decimal(accounts@[i as int].balance as nat) + " ("@
                        + accounts@[i as int].name@ + ")"@,
                ));
                assert(views(output@) =~= start + account_lines(accounts@.take(i + 1)));
            }
            i = i + 1;
        }
        proof {
            assert(accounts@.take(i as int) =~= accounts@);
        }
    }
    /// `::get_costs expr`: runs `expr`, unnamed, and shows the lines of its diagnostics. The
    /// costs are measured by the Clarity virtual machine, which this library does not hold,
    /// so there are none to show.
    pub fn get_costs(&mut self, output: &mut Vec<String>, cmd: &str)
        requires
            old(self).analysis_ok(),
            byte_boundary(cmd@, 12),
        ensures
            final(self).analysis_ok(),
            costs_effect(
                *old(self),
                *final(self),
                cmd@.skip(chars_in_bytes(cmd@, 12)),
                views(old(output)@),
                views(final(output)@),
            ),
    {
        let snippet = split_off_bytes(cmd, 12);
        let ghost sv = snippet@;
        let ghost before = views(output@);
        let r = self.formatted_interpretation(snippet, None, true, None);
        let ghost stored = r is Ok && r->Ok_0.1.contract is Some;
        let ghost ds: Seq<Diagnostic> = if r is Ok {
            r->Ok_0.1.diagnostics@
        } else {
            choose|ds: Seq<Diagnostic>| views(r->Err_0@) == diagnostics_lines(ds, "<stdin>"@, lines(sv))
        };
        let mut result = match r {
            Ok(res) => res.0,
            Err(out) => out,
        };
        proof {
            assert(views(result@) == diagnostics_lines(ds, "<stdin>"@, lines(sv)));
        }
        output.append(&mut result);
        proof {
            assert(views(output@) =~= before + diagnostics_lines(ds, "<stdin>"@, lines(sv)));
            assert(ran_snippet(*old(self), *self, Session::default_contract_name(old(self).contracts@.len()), stored));
        }
    }

    /// `::encode expr`: runs `expr`, unnamed, to encode its value. The value is given by
    /// the Clarity virtual machine, which this library does not hold: a snippet that passes
    /// the checks has no value to encode.
    pub fn encode(&mut self, output: &mut Vec<String>, cmd: &str)
        requires
            old(self).analysis_ok(),
        ensures
            final(self).analysis_ok(),
            encode_effect(*old(self), *final(self), cmd@, views(old(output)@), views(final(output)@)),
    {
        let ghost before = views(output@);
        let snippet = match split_once_after(cmd, ' ') {
            Some(s) => s,
            None => {
                output.push(red("Usage: ::encode <expr>"));
                proof {
                    assert(views(output@) =~= before.push(painted(1, "Usage: ::encode <expr>"@)));
                    assert(encode_effect(*old(self), *self, cmd@, before, views(output@)));
                }
                return;
            },
        };
        let ghost sv = snippet@;
        let lines = split_char(snippet.as_str(), '\n');
        let result = self.interpret(snippet, None, false, None);
        match result {
            Ok(res) => {
                let stored = res.contract.is_some();
                proof {
                    assert(after_first(cmd@, ' ') == Some(sv));
                    assert(ran_snippet(*old(self), *self, Session::default_contract_name(old(self).contracts@.len()), stored));
                }
                match res.value {
                    Some(v) => {
                        let mut bytes: Vec<u8> = Vec::new();
                        if write_value(&v, &mut bytes) {
                            let h = to_hex(&bytes);
                            output.push(green(h.as_str()));
                            proof {
                                assert(bytes@ =~= serialization(v));
                            }
                        } else {
                            output.push(red("Serialization error: principals and UTF-8 strings are not encoded here"));
                        }
                        proof {
                            assert(views(output@) =~= before.push(encoding_line(v)));
                            let e = choose|e: SymbolicExpression| evaluates(e, v);
                            assert(evaluates(e, v));
                            assert(encoded(*old(self), *self, sv, before, views(output@)));
                        }
                    },
                    None => {
                        output.push(String::from_str("No value"));
                        proof {
                            assert(views(output@) =~= before.push("No value"@));
                        }
                    },
                }
                proof {
                    assert(encode_effect(*old(self), *self, cmd@, before, views(output@)));
                }
            },
            Err(diagnostics) => {
                let mut more = crate::session::format_diagnostics(&diagnostics, "encode", &lines);
                output.append(&mut more);
                output.push(red("encoding failed"));
                proof {
                    assert(after_first(cmd@, ' ') == Some(sv));
                    assert(views(output@) =~= before + diagnostics_lines(diagnostics@, "encode"@, split_on(sv, '\n'))
                        + seq![painted(1, "encoding failed"@)]);
                    assert(ran_snippet(*old(self), *self, Session::default_contract_name(old(self).contracts@.len()), false));
                    assert(encoding_failed(sv, before, views(output@)));
                    assert(encoded(*old(self), *self, sv, before, views(output@)));
                    assert(encode_effect(*old(self), *self, cmd@, before, views(output@)));
                }
            },
        }
    }

    /// Deploys the boot contracts that the settings ask for, under their names, from the
    /// sources given; stops at the first that is refused and gives its lines.
    pub fn include_boot_contracts(&mut self, sources: &Vec<(String, String)>) -> (r: Result<(), Vec<String>>)
        requires
            old(self).analysis_ok(),
            boot_sources_ok(views(old(self).settings.include_boot_contracts@), sources@),
        ensures
            final(self).analysis_ok(),
            final(self).interpreter.tx_sender_spec() == old(self).interpreter.tx_sender_spec(),
            final(self).interpreter.block_height_spec() == old(self).interpreter.block_height_spec(),
            same_balances(old(self).interpreter, final(self).interpreter),
            final(self).settings == old(self).settings,
            final(self).show_costs == old(self).show_costs,
            final(self).api_reference == old(self).api_reference,
            final(self).is_interactive == old(self).is_interactive,
            final(self).initial_contracts_analysis == old(self).initial_contracts_analysis,
            exists|os: Seq<(bool, Seq<Seq<char>>, bool)>|
                #![trigger boot_outcome(boot_list(views(old(self).settings.include_boot_contracts@)), os, unit_result(r))]
                boot_outcome(boot_list(views(old(self).settings.include_boot_contracts@)), os, unit_result(r))
                    && final(self).contracts@.len() == old(self).contracts@.len() + crate::session::stored_count(os),
            boot_deployed(old(self).contracts@, final(self).contracts@, old(self).interpreter.tx_sender_spec().address@),
    {
        let ghost s0 = *self;
        let ghost included = views(self.settings.include_boot_contracts@);
        let ghost names = boot_list(included);
        let mut all: Vec<&str> = Vec::new();
        all.push("pox");
        all.push("bns");
        all.push("costs-v1");
        all.push("costs-v2");
        proof {
            reveal_strlit("pox");
            reveal_strlit("bns");
            reveal_strlit("costs-v1");
            reveal_strlit("costs-v2");
            assert(all@.map_values(|t: &str| t@) =~= boot_contract_names());
        }
        let ghost mut os: Seq<(bool, Seq<Seq<char>>, bool)> = Seq::empty();
        proof {
            assert(self.contracts@.subrange(0, self.contracts@.len() as int) =~= self.contracts@);
        }
        let mut i: usize = 0;
        proof {
            assert(boot_contract_names().take(0).filter(|n: Seq<char>| included.contains(n)) =~= Seq::<Seq<char>>::empty());
        }
        while i < all.len()
            invariant
                i <= 4,
                all@.len() == 4,
                all@.map_values(|t: &str| t@) == boot_contract_names(),
                s0 == *old(self),
                included == views(s0.settings.include_boot_contracts@),
                names == boot_list(included),
                boot_sources_ok(included, sources@),
                self.settings == s0.settings,
                self.analysis_ok(),
                self.interpreter.tx_sender_spec() == s0.interpreter.tx_sender_spec(),
                self.interpreter.block_height_spec() == s0.interpreter.block_height_spec(),
                self.interpreter.analysis_spec() == s0.interpreter.analysis_spec(),
                same_balances(s0.interpreter, self.interpreter),
                self.show_costs == s0.show_costs,
                self.api_reference == s0.api_reference,
                self.is_interactive == s0.is_interactive,
                self.initial_contracts_analysis == s0.initial_contracts_analysis,
                os.len() == boot_contract_names().take(i as int).filter(|n: Seq<char>| included.contains(n)).len(),
                forall|k: int| 0 <= k < os.len() ==> (#[trigger] os[k]).0,
                forall|k: int| 0 <= k < os.len() ==> (#[trigger] os[k]).2 ==> os[k].0,
                self.contracts@.len() == s0.contracts@.len() + crate::session::stored_count(os),
                boot_deployed(s0.contracts@, self.contracts@, s0.interpreter.tx_sender_spec().address@),
            decreases 4 - i,
        {
            let name = all[i];
            let ghost prefix = boot_contract_names().take(i as int);
            proof {
                assert(name@ == boot_contract_names()[i as int]);
                assert(boot_contract_names().take(i + 1) =~= prefix.push(name@));
                prefix.lemma_filter_push(name@, |n: Seq<char>| included.contains(n));
            }
            if contains_text(&self.settings.include_boot_contracts, name) {
                proof {
                    lemma_boot_list_index(included, i as int, os.len() as int);
                }
                let source = match find_named(sources, name) {
                    Some(src) => copy_string(src),
                    None => String::new(),
                };
                proof {
                    reveal_strlit("pox");
                    reveal_strlit("bns");
                    reveal_strlit("costs-v1");
                    reveal_strlit("costs-v2");
                    assert(name@[0] != 'S');
                }
                let ghost before = self.contracts@;
                match self.formatted_interpretation(source, Some(String::from_str(name)), false, None) {
                    Ok((_, result)) => {
                        proof {
                            if result.contract is Some {
                                assert(self.contracts@.drop_last() == before);
                                assert forall|k: int| s0.contracts@.len() <= k < self.contracts@.len() implies exists|j: int|
                                    0 <= j < boot_contract_names().len() && (#[trigger] self.contracts@[k]).0@ == id_text(
                                        (s0.interpreter.tx_sender_spec().address@, boot_contract_names()[j]),
                                    ) by {
                                    if k < before.len() {
                                        assert(self.contracts@[k] == before[k]);
                                    } else {
                                        assert(snippet_contract(name@, s0.interpreter.tx_sender_spec().address@) == (
                                            s0.interpreter.tx_sender_spec().address@,
                                            name@,
                                        ));
                                        assert(boot_contract_names()[i as int] == name@);
                                    }
                                }
                                assert(self.contracts@.subrange(0, s0.contracts@.len() as int) =~= before.subrange(
                                    0,
                                    s0.contracts@.len() as int,
                                ));
                            }
                            let o = (true, Seq::<Seq<char>>::empty(), result.contract is Some);
                            let os2 = os.push(o);
                            assert(os2.drop_last() =~= os);
                            assert forall|k: int| 0 <= k < os2.len() implies (#[trigger] os2[k]).0 && (os2[k].2 ==> os2[k].0) by {
                                if k < os.len() {
                                    assert(os2[k] == os[k]);
                                }
                            }
                            os = os2;
                        }
                    },
                    Err(e) => {
                        let r = Err(e);
                        proof {
                            let o = (false, views(r->Err_0@), false);
                            let os2 = os.push(o);
                            assert(os2.drop_last() =~= os);
                            assert(crate::session::stored_count(os2) == crate::session::stored_count(os));
                            lemma_boot_list_bound(included, i as int);
                            assert forall|k: int| 0 <= k < os2.len() - 1 implies (#[trigger] os2[k]).0 by {
                                assert(os2[k] == os[k]);
                            }
                            assert forall|k: int| 0 <= k < os2.len() && (#[trigger] os2[k]).2 implies os2[k].0 by {
                                if k < os.len() {
                                    assert(os2[k] == os[k]);
                                }
                            }
                            assert(boot_outcome(names, os2, unit_result(r)));
                        }
                        return r;
                    },
                }
            }
            i = i + 1;
        }
        proof {
            assert(boot_contract_names().take(4) =~= boot_contract_names());
            assert(boot_outcome(names, os, unit_result(Ok(()))));
        }
        Ok(())
    }

    /// Starts the session: deploys the boot contracts that the settings ask for (from the
    /// sources given) by the testnet and then the mainnet boot address, credits the initial
    /// accounts, and, unless that is left for later, deploys the linked and the initial
    /// contracts. A session in the interactive mode then shows its contracts and balances.
    /// Gives those lines and the source and path of each initial contract stored, or the
    /// lines of what failed.
    pub fn start(&mut self, boot_sources: &Vec<(String, String)>, linked: &Vec<(String, String)>) -> (r: Result<
        (String, Vec<(String, String)>),
        String,
    >)
        requires
            old(self).analysis_ok(),
            boot_sources_ok(views(old(self).settings.include_boot_contracts@), boot_sources@),
            mints_ok(*old(self)),
            crate::session::linked_ok(linked@),
            crate::session::initial_contracts_ok(old(self).settings.initial_contracts@),
        ensures
            final(self).analysis_ok(),
            final(self).interpreter.tx_sender_spec().address@ == old(self).interpreter.tx_sender_spec().address@,
            final(self).settings == old(self).settings,
            final(self).is_interactive == old(self).is_interactive,
            r is Ok ==> forall|a: Seq<char>|
                #[trigger] stx_value(final(self).interpreter, a) == stx_value(old(self).interpreter, a) + credits_to(
                    old(self).settings.initial_accounts@,
                    a,
                ),
            account_error_lines(old(self).settings.initial_accounts@).len() > 0 ==> r is Err,
            r is Err ==> account_error_lines(old(self).settings.initial_accounts@).len() > 0
                || old(self).settings.include_boot_contracts@.len() > 0
                || !old(self).settings.lazy_initial_contracts_interpretation,
            (account_error_lines(old(self).settings.initial_accounts@).len() == 0
                && old(self).settings.include_boot_contracts@.len() == 0 && (
            old(self).settings.lazy_initial_contracts_interpretation || (linked@.len() == 0
                && old(self).settings.initial_contracts@.len() == 0
                && old(self).initial_contracts_analysis@.len() == 0))) ==> r is Ok,
            r is Ok && old(self).settings.lazy_initial_contracts_interpretation ==> boot_contracts_added(
                old(self).contracts@,
                final(self).contracts@,
            ),
            r matches Ok((text, deployed)) ==> {
                &&& text@ == join(
                    if old(self).is_interactive && !old(self).settings.lazy_initial_contracts_interpretation {
                        start_lines(*final(self))
                    } else {
                        Seq::empty()
                    },
                    '\n',
                )
                &&& old(self).settings.lazy_initial_contracts_interpretation ==> deployed@.len() == 0
                &&& !old(self).settings.lazy_initial_contracts_interpretation ==> crate::session::pairs_of(deployed@)
                    == crate::session::sources_of(final(self).initial_contracts_analysis@)
            },
    {
        let mut output_err: Vec<String> = Vec::new();
        let mut output: Vec<String> = Vec::new();
        let mut contracts: Vec<(String, String)> = Vec::new();
        let ghost s0 = *self;
        if self.settings.include_boot_contracts.len() > 0 {
            let default_tx_sender = self.interpreter.get_tx_sender();
            let ghost g0 = self.interpreter;
            self.interpreter.set_tx_sender(
                StandardPrincipalData { address: String::from_str(crate::settings::TESTNET_BURN_ADDRESS) },
            );
            let ghost g1 = self.interpreter;
            let ghost c0 = self.contracts@;
            match self.include_boot_contracts(boot_sources) {
                Err(e) => {
                    self.interpreter.set_tx_sender(default_tx_sender);
                    return Err(crate::text::join_lines(&e));
                },
                Ok(()) => {},
            }
            let ghost g2 = self.interpreter;
            self.interpreter.set_tx_sender(
                StandardPrincipalData { address: String::from_str(crate::settings::MAINNET_BURN_ADDRESS) },
            );
            let ghost g3 = self.interpreter;
            let ghost c1 = self.contracts@;
            match self.include_boot_contracts(boot_sources) {
                Err(e) => {
                    self.interpreter.set_tx_sender(default_tx_sender);
                    return Err(crate::text::join_lines(&e));
                },
                Ok(()) => {},
            }
            let ghost g4 = self.interpreter;
            self.interpreter.set_tx_sender(default_tx_sender);
            proof {
                reveal_strlit("ST000000000000000000002AMW42H");
                reveal_strlit("SP000000000000000000002Q6VF78");
                lemma_boot_rounds(c0, c1, self.contracts@);
                crate::interpreter::lemma_same_balances_trans(g0, g1, g2);
                crate::interpreter::lemma_same_balances_trans(g0, g2, g3);
                crate::interpreter::lemma_same_balances_trans(g0, g3, g4);
                crate::interpreter::lemma_same_balances_trans(g0, g4, self.interpreter);
            }
        }
        proof {
            assert forall|a: Seq<char>| #[trigger] stx_value(self.interpreter, a) == stx_value(s0.interpreter, a) by {
                assert(self.interpreter.balance_spec(a, "STX"@) == s0.interpreter.balance_spec(a, "STX"@));
            }
        }
        proof {
            if s0.settings.include_boot_contracts@.len() == 0 {
                assert(self.contracts@.subrange(0, self.contracts@.len() as int) =~= self.contracts@);
            }
            assert(boot_contracts_added(s0.contracts@, self.contracts@));
        }
        let ghost s1 = *self;
        let mut i: usize = 0;
        proof {
            assert(self.settings.initial_accounts@.take(0) =~= Seq::<crate::settings::Account>::empty());
            assert(views(output_err@) =~= Seq::<Seq<char>>::empty());
        }
        while i < self.settings.initial_accounts.len()
            invariant
                i <= s0.settings.initial_accounts@.len(),
                s0 == *old(self),
                mints_ok(s0),
                self.settings == s0.settings,
                self.analysis_ok(),
                self.interpreter.tx_sender_spec().address@ == s0.interpreter.tx_sender_spec().address@,
                self.interpreter.analysis_spec() == s1.interpreter.analysis_spec(),
                self.is_interactive == s0.is_interactive,
                self.initial_contracts_analysis == s1.initial_contracts_analysis,
                self.show_costs == s1.show_costs,
                self.api_reference == s1.api_reference,
                self.contracts == s1.contracts,
                forall|a: Seq<char>| #[trigger] stx_value(s1.interpreter, a) == stx_value(s0.interpreter, a),
                forall|a: Seq<char>|
                    #[trigger] stx_value(self.interpreter, a) == stx_value(s0.interpreter, a) + credits_to(
                        s0.settings.initial_accounts@.take(i as int),
                        a,
                    ),
                views(output_err@) == account_error_lines(s0.settings.initial_accounts@.take(i as int)),
                output@.len() == 0,
                contracts@.len() == 0,
            decreases s0.settings.initial_accounts@.len() - i,
        {
            let ghost accounts = s0.settings.initial_accounts@;
            proof {
                assert(accounts.take(i + 1).drop_last() =~= accounts.take(i as int));
                assert(accounts.take(i + 1).last() == accounts[i as int]);
            }
            let address = copy_string(&self.settings.initial_accounts[i].address);
            let amount = self.settings.initial_accounts[i].balance;
            let readable = crate::debug::check_address(address.as_str()) || parse_contract_identifier_ok(address.as_str());
            if !readable {
                let ghost before = views(output_err@);
                output_err.push(red("Unable to parse address to credit"));
                proof {
                    assert(views(output_err@) =~= before.push(painted(1, "Unable to parse address to credit"@)));
                    assert forall|a: Seq<char>| #[trigger] stx_value(self.interpreter, a) == stx_value(s0.interpreter, a)
                        + credits_to(accounts.take(i + 1), a) by {
                        assert(credits_to(accounts.take(i + 1), a) == credits_to(accounts.take(i as int), a));
                    }
                }
            } else {
                proof {
                    let a = address@;
                    lemma_credits_grow(accounts, i + 1, a);
                    assert(stx_value(s0.interpreter, a) + credits_to(accounts, a) <= u128::MAX);
                    assert(credits_to(accounts.take(i + 1), a) == credits_to(accounts.take(i as int), a) + amount);
                    assert(stx_value(self.interpreter, a) == stx_value(s0.interpreter, a) + credits_to(accounts.take(i as int), a));
                    assert(credited(stx_balance(self.interpreter, a), amount as u128) == stx_value(self.interpreter, a) + amount);
                }
                let ghost before = self.interpreter;
                let _ = self.interpreter.mint_stx_balance(address.as_str(), amount);
                proof {
                    assert(views(output_err@) =~= account_error_lines(accounts.take(i + 1)));
                    assert forall|a: Seq<char>| #[trigger] stx_value(self.interpreter, a) == stx_value(s0.interpreter, a)
                        + credits_to(accounts.take(i + 1), a) by {
                        assert(stx_value(before, a) == stx_value(s0.interpreter, a) + credits_to(accounts.take(i as int), a));
                        if a != address@ {
                            assert(self.interpreter.balance_spec(a, "STX"@) == before.balance_spec(a, "STX"@));
                            assert(stx_value(self.interpreter, a) == stx_value(before, a));
                            assert(credits_to(accounts.take(i + 1), a) == credits_to(accounts.take(i as int), a));
                        }
                    }
                }
            }
            i = i + 1;
        }
        proof {
            assert(s0.settings.initial_accounts@.take(i as int) =~= s0.settings.initial_accounts@);
        }
        let ghost s2 = *self;
        if !self.settings.lazy_initial_contracts_interpretation {
            let r0 = self.interpret_initial_contracts(linked);
            proof {
                if linked@.len() == 0 && s0.settings.initial_contracts@.len() == 0
                    && s0.initial_contracts_analysis@.len() == 0 {
                    let (ls, lr) = choose|ls: Seq<(bool, Seq<Seq<char>>, bool)>, lr: Result<Seq<Seq<char>>, Seq<Seq<char>>>|
                        crate::session::linked_outcome(linked@, ls, lr) && match lr {
                            Err(errs) => r0 matches Err(e) && views(e@) == errs,
                            Ok(_) => exists|os: Seq<(bool, Seq<Seq<char>>, bool)>|
                                #![trigger crate::session::initial_outcome(s0.settings.initial_contracts@, os, crate::session::outputs_view(r0))]
                                crate::session::initial_outcome(s0.settings.initial_contracts@, os, crate::session::outputs_view(r0)) && (r0 is Ok ==> crate::session::sources_of(
                                    self.initial_contracts_analysis@,
                                ) == crate::session::outputs_view(r0)->Ok_0.1),
                        };
                    assert(ls =~= Seq::<(bool, Seq<Seq<char>>, bool)>::empty());
                    assert(crate::session::refused_lines(ls).len() == 0);
                    assert(lr is Ok);
                    let os = choose|os: Seq<(bool, Seq<Seq<char>>, bool)>|
                        #![trigger crate::session::initial_outcome(s0.settings.initial_contracts@, os, crate::session::outputs_view(r0))]
                        crate::session::initial_outcome(s0.settings.initial_contracts@, os, crate::session::outputs_view(r0)) && (r0 is Ok ==> crate::session::sources_of(
                            self.initial_contracts_analysis@,
                        ) == crate::session::outputs_view(r0)->Ok_0.1);
                    assert(os =~= Seq::<(bool, Seq<Seq<char>>, bool)>::empty());
                    assert(crate::session::refused_lines(os).len() == 0);
                    assert(r0 is Ok);
                }
            }
            proof {
                assert forall|a: Seq<char>| #[trigger] stx_value(self.interpreter, a) == stx_value(s2.interpreter, a) by {
                    assert(self.interpreter.balance_spec(a, "STX"@) == s2.interpreter.balance_spec(a, "STX"@));
                }
            }
            match r0 {
                Ok((_, mut initial)) => {
                    if self.is_interactive {
                        proof {
                            assert(views(output@) =~= Seq::<Seq<char>>::empty());
                        }
                        let ghost part1 = if self.settings.initial_contracts@.len() > 0 {
                            seq![painted(4, "Contracts"@)] + listed_contracts(self.contracts@)
                        } else {
                            Seq::<Seq<char>>::empty()
                        };
                        if self.settings.initial_contracts.len() > 0 {
                            output.push(blue("Contracts"));
                            let ghost b1 = views(output@);
                            proof {
                                assert(b1 =~= seq![painted(4, "Contracts"@)]);
                            }
                            self.get_contracts(&mut output);
                        }
                        proof {
                            assert(views(output@) =~= part1);
                        }
                        let ghost part2 = if self.settings.initial_accounts@.len() > 0 {
                            seq![painted(4, "Initialized balances"@)] + account_lines(self.settings.initial_accounts@)
                        } else {
                            Seq::<Seq<char>>::empty()
                        };
                        if self.settings.initial_accounts.len() > 0 {
                            let ghost b2 = views(output@);
                            output.push(blue("Initialized balances"));
                            proof {
                                assert(views(output@) =~= b2.push(painted(4, "Initialized balances"@)));
                            }
                            self.get_accounts(&mut output);
                        }
                        proof {
                            assert(views(output@) =~= part1 + part2);
                            assert(views(output@) =~= start_lines(*self));
                        }
                    }
                    contracts.append(&mut initial);
                },
                Err(mut res) => {
                    output_err.append(&mut res);
                },
            }
        }
        if output_err.len() == 0 {
            proof {
                if !(s0.is_interactive && !s0.settings.lazy_initial_contracts_interpretation) {
                    assert(views(output@) =~= Seq::<Seq<char>>::empty());
                }
            }
            Ok((crate::text::join_lines(&output), contracts))
        } else {
            Err(crate::text::join_lines(&output_err))
        }
    }

    /// Whether `command` can be handed to `handle_command`.
    pub fn check_command(&self, command: &str) -> (r: bool)
        ensures
            r == self.command_ok(command@),
    {
        if !self.interpreter.passes_known() {
            return false;
        }
        match read_command(command) {
            ReplCommand::GetCosts => command.unicode_len() >= 12 && (command.get_char(11) as u32) < 0x80,
            ReplCommand::MintStx => self.mint_fits(command),
            _ => true,
        }
    }

    /// Whether the mint that `command` asks for, if any, keeps the balance within range.
    fn mint_fits(&self, command: &str) -> (r: bool)
        ensures
            r == mint_ok(*self, command@),
    {
        let args = split_char(command, ' ');
        proof {
            assert(views(args@).len() == args@.len());
        }
        if args.len() != 3 {
            return true;
        }
        proof {
            assert(views(args@)[1] == args@[1]@);
            assert(views(args@)[2] == args@[2]@);
        }
        let readable = crate::debug::check_address(args[1].as_str()) || parse_contract_identifier_ok(args[1].as_str());
        if !readable {
            return true;
        }
        match parse_unsigned(args[2].as_str(), u64::MAX) {
            None => true,
            Some(amount) => {
                let balance = self.interpreter.get_balance_for_account(args[1].as_str(), "STX");
                proof {
                    self.interpreter.lemma_unrecorded_balance(args@[1]@, "STX"@);
                    assert(credited(stx_balance(self.interpreter, args@[1]@), amount as u128) == balance + amount);
                }
                balance <= u128::MAX - (amount as u128)
            },
        }
    }

    /// The rows of the table of contracts: each contract deployed but the boot contracts,
    /// with its public functions.
    pub fn contract_rows(&self) -> (r: Vec<(String, String)>)
        ensures
            crate::session::pairs_of(r@) == contract_rows_spec(self.contracts@),
    {
        let mut rows: Vec<(String, String)> = Vec::new();
        let mut i: usize = 0;
        proof {
            assert(self.contracts@.take(0) =~= Seq::<(String, Vec<(String, Vec<String>)>)>::empty());
            assert(crate::session::pairs_of(rows@) =~= Seq::<(Seq<char>, Seq<char>)>::empty());
        }
        while i < self.contracts.len()
            invariant
                i <= self.contracts@.len(),
                crate::session::pairs_of(rows@) == contract_rows_spec(self.contracts@.take(i as int)),
            decreases self.contracts.len() - i,
        {
            let ghost u = self.contracts@.take(i + 1);
            proof {
                assert(u.drop_last() =~= self.contracts@.take(i as int));
                assert(u.last() == self.contracts@[i as int]);
                reveal_strlit("ST000000000000000000002AMW42H");
                reveal_strlit("SP000000000000000000002Q6VF78");
            }
            let id = self.contracts[i].0.as_str();
            let boot = starts_with(id, "ST000000000000000000002AMW42H") || starts_with(id, "SP000000000000000000002Q6VF78");
            if !boot {
                let methods = &self.contracts[i].1;
                let mut lines: Vec<String> = Vec::new();
                let mut j: usize = 0;
                let ghost mv = methods@.map_values(|m: (String, Vec<String>)| method_text(m.0@, views(m.1@)));
                proof {
                    assert(views(lines@) =~= mv.take(0));
                }
                while j < methods.len()
                    invariant
                        j <= methods@.len(),
                        mv == methods@.map_values(|m: (String, Vec<String>)| method_text(m.0@, views(m.1@))),
                        views(lines@) == mv.take(j as int),
                    decreases methods.len() - j,
                {
                    let args = &methods[j].1;
                    let mut t = String::from_str("(");
                    t.append(methods[j].0.as_str());
                    if args.len() == 1 {
                        t.append(" ");
                        t.append(args[0].as_str());
                        proof {
                            assert(views(args@)[0] == args@[0]@);
                        }
                    } else if args.len() > 1 {
                        t.append("\n    ");
                        let joined = crate::text::join_strings(args, "\n    ");
                        t.append(joined.as_str());
                    }
                    t.append(")");
                    proof {
                        reveal_strlit("(");
                        reveal_strlit(")");
                        reveal_strlit(" ");
                        reveal_strlit("\n    ");
                        assert(t@ =~= method_text(methods@[j as int].0@, views(methods@[j as int].1@)));
                    }
                    let ghost before = views(lines@);
                    lines.push(t);
                    proof {
                        assert(views(lines@) =~= before.push(mv[j as int]));
                        assert(mv.take(j + 1) =~= mv.take(j as int).push(mv[j as int]));
                    }
                    j = j + 1;
                }
                proof {
                    assert(mv.take(j as int) =~= mv);
                }
                let text = crate::text::join_strings(&lines, "\n");
                let ghost before = crate::session::pairs_of(rows@);
                rows.push((self.contracts[i].0.clone(), text));
                proof {
                    assert(crate::session::pairs_of(rows@) =~= before.push(
                        (self.contracts@[i as int].0@, methods_text(self.contracts@[i as int].1@)),
                    ));
                }
            }
            i = i + 1;
        }
        proof {
            assert(self.contracts@.take(i as int) =~= self.contracts@);
        }
        rows
    }

    /// The table of balances, where an account is known: the headers (`Address`, then each
    /// token in the order of its name) and, for each account in the order of its name, its
    /// row.
    pub fn asset_table(&self) -> (r: Option<(Vec<String>, Vec<Vec<String>>)>)
        ensures
            r is None <==> self.interpreter.accounts_spec().is_empty(),
            r matches Some((headers, rows)) ==> {
                let tokens = views(headers@).drop_first();
                &&& headers@.len() >= 1
                &&& headers@[0]@ == "Address"@
                &&& crate::balances::strings_sorted(headers@.drop_first())
                &&& tokens.to_set() == self.interpreter.tokens_spec()
                &&& exists|accounts: Seq<String>|
                    #![trigger crate::balances::strings_sorted(accounts)]
                    crate::balances::strings_sorted(accounts) && views(accounts).to_set() == self.interpreter.accounts_spec()
                        && accounts.len() == rows@.len() && forall|i: int|
                        0 <= i < rows@.len() ==> views((#[trigger] rows@[i])@) == account_row(*self, accounts[i]@, tokens)
            },
    {
        let accounts = self.interpreter.get_accounts();
        if accounts.len() == 0 {
            proof {
                assert(views(accounts@).to_set() =~= Set::<Seq<char>>::empty()) by {
                    assert(views(accounts@) =~= Seq::<Seq<char>>::empty());
                }
            }
            return None;
        }
        proof {
            assert(views(accounts@).to_set().contains(accounts@[0]@)) by {
                assert(views(accounts@)[0] == accounts@[0]@);
            }
        }
        let tokens = self.interpreter.get_tokens();
        let ghost tv = views(tokens@);
        let mut headers: Vec<String> = Vec::new();
        headers.push(String::from_str("Address"));
        let mut k: usize = 0;
        proof {
            assert(headers@.drop_first() =~= tokens@.take(0));
        }
        while k < tokens.len()
            invariant
                k <= tokens@.len(),
                headers@.len() == k + 1,
                headers@[0]@ == "Address"@,
                headers@.drop_first() == tokens@.take(k as int),
            decreases tokens.len() - k,
        {
            let ghost before = headers@;
            headers.push(tokens[k].clone());
            proof {
                assert(headers@.drop_first() =~= tokens@.take(k + 1)) by {
                    assert(headers@ == before.push(tokens@[k as int]));
                }
            }
            k = k + 1;
        }
        proof {
            assert(tokens@.take(k as int) =~= tokens@);
            assert(views(headers@).drop_first() =~= tv);
        }
        let mut rows: Vec<Vec<String>> = Vec::new();
        let mut i: usize = 0;
        while i < accounts.len()
            invariant
                i <= accounts@.len(),
                tv == views(tokens@),
                rows@.len() == i,
                forall|m: int| 0 <= m < i ==> views((#[trigger] rows@[m])@) == account_row(*self, accounts@[m]@, tv),
            decreases accounts.len() - i,
        {
            let mut row: Vec<String> = Vec::new();
            let cell = match self.get_account_name(&accounts[i]) {
                Some(name) => {
                    let mut c = accounts[i].clone();
                    c.append(" (");
                    c.append(name.as_str());
                    c.append(")");
                    c
                },
                None => accounts[i].clone(),
            };
            let ghost acc = accounts@[i as int]@;
            let ghost f = |t: Seq<char>| decimal(self.interpreter.balance_spec(acc, t) as nat);
            row.push(cell);
            proof {
                assert(views(row@) =~= seq![account_cell(*self, acc)] + tv.take(0).map_values(f));
            }
            let mut k: usize = 0;
            while k < tokens.len()
                invariant
                    k <= tokens@.len(),
                    tv == views(tokens@),
                    acc == accounts@[i as int]@,
                    i < accounts@.len(),
                    f == (|t: Seq<char>| decimal(self.interpreter.balance_spec(acc, t) as nat)),
                    views(row@) == seq![account_cell(*self, acc)] + tv.take(k as int).map_values(f),
                decreases tokens.len() - k,
            {
                let b = self.interpreter.get_balance_for_account(accounts[i].as_str(), tokens[k].as_str());
                let ghost before = views(row@);
                row.push(decimal_string(b));
                proof {
                    assert(tv.take(k + 1) =~= tv.take(k as int).push(tv[k as int]));
                    assert(tv.take(k + 1).map_values(f) =~= tv.take(k as int).map_values(f).push(f(tv[k as int])));
                    assert(views(row@) =~= before.push(decimal(b as nat)));
                }
                k = k + 1;
            }
            proof {
                assert(tv.take(k as int) =~= tv);
                assert(views(row@) == account_row(*self, acc, tv));
            }
            let ghost r0 = rows@;
            rows.push(row);
            proof {
                assert forall|m: int| 0 <= m < i + 1 implies views((#[trigger] rows@[m])@) == account_row(
                    *self,
                    accounts@[m]@,
                    tv,
                ) by {
                    if m < i {
                        assert(rows@[m] == r0[m]);
                    }
                }
            }
            i = i + 1;
        }
        proof {
            assert(crate::balances::strings_sorted(accounts@));
        }
        Some((headers, rows))
    }

    /// `::decode hex`: reads the bytes that `hex` writes. The value they encode is read by the
    /// Clarity virtual machine, which this library does not hold; bytes that start with no
    /// known type prefix are refused as it refuses them.
    pub fn decode(&self, output: &mut Vec<String>, cmd: &str)
        ensures
            decode_effect(*self, *self, cmd@, views(old(output)@), views(final(output)@)),
    {
        let ghost before = views(output@);
        let line = match split_once_after(cmd, ' ') {
            None => red("Usage: ::decode <hex-bytes>"),
            Some(h) => match read_hex(h.as_str()) {
                Err(e) => {
                    let mut m = String::from_str("Parsing error: ");
                    let t = e.message();
                    m.append(t.as_str());
                    proof {
                        assert(t@ == hex_error_text(e));
                    }
                    red(m.as_str())
                },
                Ok(bytes) => {
                    if bytes.len() > 0 && bytes[0] > 14 {
                        red("Failed to decode clarity value: Deserialization error: Bad type prefix")
                    } else {
                        match read_value(&bytes, 0) {
                            Some((v, e)) => {
                                let t = show_value(&v);
                                proof {
                                    assert(bytes@.subrange(0, e as int) == serialization(v));
                                    assert(starts_with_value(bytes@, 0, v));
                                    assert forall|u: Value| #[trigger] starts_with_value(bytes@, 0, u) implies painted(2, t@)
                                        == painted(2, shown(u)) by {
                                        crate::value_text::lemma_serialization_determines(v, u, bytes@, 0);
                                    }
                                    assert(decoded_line(bytes@, painted(2, t@)));
                                }
                                green(t.as_str())
                            },
                            None => red("Failed to decode clarity value: Deserialization error: no value could be read"),
                        }
                    }
                },
            },
        };
        output.push(line);
        proof {
            assert(views(output@).drop_last() =~= before);
        }
    }

    /// Runs a line of the REPL: a command, told by how the line starts, or else Clarity code.
    /// Gives the lines to show.
    pub fn handle_command(&mut self, command: &str) -> (r: Vec<String>)
        requires
            old(self).command_ok(command@),
        ensures
            final(self).analysis_ok(),
            command_effect(*old(self), *final(self), command@, views(r@)),
    {
        let mut output: Vec<String> = Vec::new();
        proof {
            assert(views(output@) =~= Seq::<Seq<char>>::empty());
        }
        match read_command(command) {
            ReplCommand::Help => self.display_help(&mut output),
            ReplCommand::ListFunctions => self.display_functions(&mut output),
            ReplCommand::DescribeFunction => self.display_doc(&mut output, command),
            ReplCommand::MintStx => self.mint_stx(&mut output, command),
            ReplCommand::SetTxSender => self.parse_and_set_tx_sender(&mut output, command),
            ReplCommand::GetAssetsMaps => self.get_accounts(&mut output),
            ReplCommand::GetCosts => {
                proof {
                    lemma_costs_cut(command@);
                }
                self.get_costs(&mut output, command);
            },
            ReplCommand::GetContracts => self.get_contracts(&mut output),
            ReplCommand::GetBlockHeight => self.get_block_height(&mut output),
            ReplCommand::AdvanceChainTip => self.parse_and_advance_chain_tip(&mut output, command),
            ReplCommand::ToggleCosts => self.toggle_costs(&mut output),
            ReplCommand::Encode => self.encode(&mut output, command),
            ReplCommand::Decode => self.decode(&mut output, command),
            ReplCommand::Snippet => {
                if self.show_costs {
                    let mut cmd = String::from_str("::get_costs ");
                    cmd.append(command);
                    proof {
                        reveal_strlit("::get_costs ");
                        reveal_strlit("::get_costs");
                        assert(cmd@.skip(12) =~= command@);
                        assert(cmd@.subrange(0, 11) =~= "::get_costs"@);
                        lemma_costs_cut(cmd@);
                    }
                    self.get_costs(&mut output, cmd.as_str());
                } else {
                    let ghost before = *self;
                    let ghost sv = command@;
                    match self.formatted_interpretation(String::from_str(command), None, true, None) {
                        Ok((mut shown, result)) => {
                            let ghost lv = views(shown@);
                            output.append(&mut shown);
                            if let Some(c) = &result.contract {
                                let mut line = String::from_str("→ .");
                                let id = crate::analysis_db::contract_id_text(c);
                                line.append(id.as_str());
                                line.append(" contract successfully stored. Use (contract-call? ...) for invoking the public functions:");
                                let ghost o = views(output@);
                                output.push(green(line.as_str()));
                                proof {
                                    assert(views(output@) =~= o.push(stored_line(self.contracts@.last().0@)));
                                    assert(views(output@) =~= Seq::<Seq<char>>::empty() + lv + seq![stored_line(self.contracts@.last().0@)]);
                                    assert(ran_snippet(before, *self, Session::default_contract_name(before.contracts@.len()), true));
                                }
                            } else {
                                proof {
                                    assert(views(output@) =~= Seq::<Seq<char>>::empty() + lv + Seq::<Seq<char>>::empty());
                                    assert(ran_snippet(before, *self, Session::default_contract_name(before.contracts@.len()), false));
                                }
                            }
                            proof {
                                assert(lv == diagnostics_lines(result.diagnostics@, "<stdin>"@, lines(sv)));
                            }
                        },
                        Err(mut shown) => {
                            let ghost lv = views(shown@);
                            output.append(&mut shown);
                            proof {
                                let ds = choose|ds: Seq<Diagnostic>| lv == diagnostics_lines(ds, "<stdin>"@, lines(sv));
                                assert(lv == diagnostics_lines(ds, "<stdin>"@, lines(sv)));
                                assert(views(output@) =~= Seq::<Seq<char>>::empty() + diagnostics_lines(ds, "<stdin>"@, lines(sv)) + Seq::<Seq<char>>::empty());
                                assert(ran_snippet(before, *self, Session::default_contract_name(before.contracts@.len()), false));
                            }
                        },
                    }
                }
            },
        }
        output
    }

}

/// Extending a prefix of the boot contracts keeps the `j`-th asked for.
proof fn lemma_boot_prefix_keeps(included: Seq<Seq<char>>, k: int, j: int, x: Seq<char>)
    requires
        0 <= k <= 4,
        boot_contract_names().take(k).filter(|n: Seq<char>| included.contains(n)).len() > j >= 0,
        boot_contract_names().take(k).filter(|n: Seq<char>| included.contains(n))[j] == x,
    ensures
        boot_list(included).len() > j,
        boot_list(included)[j] == x,
    decreases 4 - k,
{
    let f = |n: Seq<char>| included.contains(n);
    let all = boot_contract_names();
    if k == 4 {
        assert(all.take(4) =~= all);
    } else {
        all.take(k).lemma_filter_push(all[k], f);
        assert(all.take(k + 1) =~= all.take(k).push(all[k]));
        lemma_boot_prefix_keeps(included, k + 1, j, x);
    }
}

/// The boot contract at position `i` of the order, where asked for, is the `j`-th asked for,
/// `j` being the number asked for before it.
proof fn lemma_boot_list_index(included: Seq<Seq<char>>, i: int, j: int)
    requires
        0 <= i < 4,
        included.contains(boot_contract_names()[i]),
        j == boot_contract_names().take(i).filter(|n: Seq<char>| included.contains(n)).len(),
    ensures
        j < boot_list(included).len(),
        boot_list(included)[j] == boot_contract_names()[i],
{
    let f = |n: Seq<char>| included.contains(n);
    let all = boot_contract_names();
    all.take(i).lemma_filter_push(all[i], f);
    assert(all.take(i + 1) =~= all.take(i).push(all[i]));
    lemma_boot_prefix_keeps(included, i + 1, j, all[i]);
}

/// The boot contracts asked for before position `i` are fewer than those asked for.
proof fn lemma_boot_list_bound(included: Seq<Seq<char>>, i: int)
    requires
        0 <= i < 4,
        included.contains(boot_contract_names()[i]),
    ensures
        boot_contract_names().take(i).filter(|n: Seq<char>| included.contains(n)).len() + 1 <= boot_list(included).len(),
{
    let j = boot_contract_names().take(i).filter(|n: Seq<char>| included.contains(n)).len() as int;
    lemma_boot_list_index(included, i, j);
}

/// A command that starts with `::get_costs` and a one-byte character has its first twelve
/// characters in its first twelve bytes.
proof fn lemma_costs_cut(c: Seq<char>)
    requires
        has_prefix(c, "::get_costs"@),
        c.len() >= 12,
        (c[11] as u32) < 0x80,
    ensures
        byte_boundary(c, 12),
        chars_in_bytes(c, 12) == 12,
{
    reveal_strlit("::get_costs");
    let t = c.take(12);
    assert(all_ascii(t)) by {
        assert forall|i: int| 0 <= i < t.len() implies (#[trigger] t[i] as u32) < 0x80 by {
            if i < 11 {
                assert(t[i] == c.subrange(0, 11)[i]);
            }
        }
    }
    lemma_ascii_utf8_len(t);
    assert(utf8_len(c.take(12)) == 12);
    let k = chars_in_bytes(c, 12);
    if k < 12 {
        lemma_utf8_len_grows(c, k, 12);
    } else if k > 12 {
        lemma_utf8_len_grows(c, 12, k);
    }
}

/// Whether `s` writes a contract identifier `address.name`.
fn parse_contract_identifier_ok(s: &str) -> (r: bool)
    ensures
        r == (parse_contract_id(s@) is Some),
{
    crate::debug::parse_contract_identifier(s).is_some()
}

} // verus!
