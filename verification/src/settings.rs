use vstd::prelude::*;
use vstd::string::*;
use crate::representations::{QualifiedContractIdentifier, StandardPrincipalData, copy_string};

verus! {

/// The deployer of boot contracts and of contracts without one, on testnet and mainnet.
pub const TESTNET_BURN_ADDRESS: &'static str = "ST000000000000000000002AMW42H";

pub const MAINNET_BURN_ADDRESS: &'static str = "SP000000000000000000002Q6VF78";

/// The burn address of the network.
pub fn burn_address(is_mainnet: bool) -> (r: String)
    ensures
        r@ == if is_mainnet {
            MAINNET_BURN_ADDRESS@
        } else {
            TESTNET_BURN_ADDRESS@
        },
{
    if is_mainnet {
        String::from_str(MAINNET_BURN_ADDRESS)
    } else {
        String::from_str(TESTNET_BURN_ADDRESS)
    }
}

/// The address of a deployer: the one given, or the burn address of the network.
pub open spec fn deployer_address(deployer: Option<String>, is_mainnet: bool) -> Seq<char> {
    match deployer {
        Some(d) => d@,
        None => if is_mainnet {
            MAINNET_BURN_ADDRESS@
        } else {
            TESTNET_BURN_ADDRESS@
        },
    }
}

/// A contract to deploy when a session starts.
#[derive(Debug)]
pub struct InitialContract {
    pub code: String,
    pub name: Option<String>,
    pub path: String,
    pub deployer: Option<String>,
}

impl InitialContract {
    /// The identifier the contract is deployed under, when it has a name.
    pub fn get_contract_identifier(&self, is_mainnet: bool) -> (r: Option<QualifiedContractIdentifier>)
        requires
            self.deployer matches Some(d) ==> crate::debug::address_ok(d@),
        ensures
            r is Some <==> self.name is Some,
            r matches Some(id) ==> id.name@ == self.name->0@ && id.issuer.address@ == deployer_address(self.deployer, is_mainnet),
    {
        match &self.name {
            Some(name) => Some(QualifiedContractIdentifier { issuer: self.get_deployer_principal(is_mainnet), name: copy_string(name) }),
            None => None,
        }
    }

    /// The deployer of the contract: the one given, or the burn address of the network.
    pub fn get_deployer_principal(&self, is_mainnet: bool) -> (r: StandardPrincipalData)
        requires
            self.deployer matches Some(d) ==> crate::debug::address_ok(d@),
        ensures
            r.address@ == deployer_address(self.deployer, is_mainnet),
    {
        let address = match &self.deployer {
            Some(entry) => copy_string(entry),
            None => burn_address(is_mainnet),
        };
        StandardPrincipalData { address }
    }
}

/// A contract to fetch from the network, with what it depends on.
#[derive(Debug)]
pub struct InitialLink {
    pub contract_id: String,
    pub stacks_node_addr: Option<String>,
    pub cache: Option<String>,
}

/// An account to fund when a session starts.
#[derive(Debug)]
pub struct Account {
    pub address: String,
    pub balance: u64,
    pub name: String,
    pub mnemonic: String,
    pub derivation: String,
}

/// How a session is set up.
#[derive(Debug)]
pub struct SessionSettings {
    pub node: String,
    pub include_boot_contracts: Vec<String>,
    pub include_costs: bool,
    pub costs_version: u32,
    pub initial_links: Vec<InitialLink>,
    pub initial_contracts: Vec<InitialContract>,
    pub initial_accounts: Vec<Account>,
    pub initial_deployer: Option<Account>,
    pub scoping_contract: Option<String>,
    pub analysis: Vec<String>,
    pub lazy_initial_contracts_interpretation: bool,
    pub parser_version: u32,
    pub disk_cache_enabled: bool,
}

impl Default for SessionSettings {
    fn default() -> (r: Self)
        ensures
            r.node@.len() == 0,
            r.include_boot_contracts@.len() == 0,
            !r.include_costs,
            r.costs_version == 0,
            r.initial_links@.len() == 0,
            r.initial_contracts@.len() == 0,
            r.initial_accounts@.len() == 0,
            r.initial_deployer is None,
            r.scoping_contract is None,
            r.analysis@.len() == 0,
            !r.lazy_initial_contracts_interpretation,
            r.parser_version == 0,
            !r.disk_cache_enabled,
    {
        SessionSettings {
            node: String::new(),
            include_boot_contracts: Vec::new(),
            include_costs: false,
            costs_version: 0,
            initial_links: Vec::new(),
            initial_contracts: Vec::new(),
            initial_accounts: Vec::new(),
            initial_deployer: None,
            scoping_contract: None,
            analysis: Vec::new(),
            lazy_initial_contracts_interpretation: false,
            parser_version: 0,
            disk_cache_enabled: false,
        }
    }
}

} // verus!
