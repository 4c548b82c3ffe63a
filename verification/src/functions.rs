use vstd::prelude::*;
use crate::representations::str_equals;

verus! {

/// The forms that define something at the top level of a contract.
#[derive(Clone, Copy, Debug, PartialEq, Eq, Structural, Hash)]
pub enum DefineFunctions {
    Constant,
    PrivateFunction,
    ReadOnlyFunction,
    PublicFunction,
    DataMap,
    PersistedVariable,
    FungibleToken,
    NonFungibleToken,
    Trait,
    UseTrait,
    ImplTrait,
}

impl DefineFunctions {
    /// The function that the keyword `s` names, if any.
    pub open spec fn spec_lookup(s: Seq<char>) -> Option<DefineFunctions> {
        if s == "define-constant"@ {
            Some(DefineFunctions::Constant)
        } else if s == "define-private"@ {
            Some(DefineFunctions::PrivateFunction)
        } else if s == "define-read-only"@ {
            Some(DefineFunctions::ReadOnlyFunction)
        } else if s == "define-public"@ {
            Some(DefineFunctions::PublicFunction)
        } else if s == "define-map"@ {
            Some(DefineFunctions::DataMap)
        } else if s == "define-data-var"@ {
            Some(DefineFunctions::PersistedVariable)
        } else if s == "define-fungible-token"@ {
            Some(DefineFunctions::FungibleToken)
        } else if s == "define-non-fungible-token"@ {
            Some(DefineFunctions::NonFungibleToken)
        } else if s == "define-trait"@ {
            Some(DefineFunctions::Trait)
        } else if s == "use-trait"@ {
            Some(DefineFunctions::UseTrait)
        } else if s == "impl-trait"@ {
            Some(DefineFunctions::ImplTrait)
        } else {
            None
        }
    }

    pub fn lookup_by_name(s: &str) -> (r: Option<DefineFunctions>)
        ensures
            r == DefineFunctions::spec_lookup(s@),
    {
        if str_equals(s, "define-constant") {
            return Some(DefineFunctions::Constant);
        }
        if str_equals(s, "define-private") {
            return Some(DefineFunctions::PrivateFunction);
        }
        if str_equals(s, "define-read-only") {
            return Some(DefineFunctions::ReadOnlyFunction);
        }
        if str_equals(s, "define-public") {
            return Some(DefineFunctions::PublicFunction);
        }
        if str_equals(s, "define-map") {
            return Some(DefineFunctions::DataMap);
        }
        if str_equals(s, "define-data-var") {
            return Some(DefineFunctions::PersistedVariable);
        }
        if str_equals(s, "define-fungible-token") {
            return Some(DefineFunctions::FungibleToken);
        }
        if str_equals(s, "define-non-fungible-token") {
            return Some(DefineFunctions::NonFungibleToken);
        }
        if str_equals(s, "define-trait") {
            return Some(DefineFunctions::Trait);
        }
        if str_equals(s, "use-trait") {
            return Some(DefineFunctions::UseTrait);
        }
        if str_equals(s, "impl-trait") {
            return Some(DefineFunctions::ImplTrait);
        }
        None
    }
}

/// The built-in functions of Clarity.
#[derive(Clone, Copy, Debug, PartialEq, Eq, Structural, Hash)]
pub enum NativeFunctions {
    Add,
    Subtract,
    Multiply,
    Divide,
    CmpGeq,
    CmpLeq,
    CmpLess,
    CmpGreater,
    ToInt,
    ToUInt,
    Modulo,
    Power,
    Sqrti,
    Log2,
    BitwiseXOR,
    And,
    Or,
    Not,
    Equals,
    If,
    Let,
    SequenceMap,
    Fold,
    Append,
    Concat,
    AsMaxLen,
    Len,
    ElementAt,
    IndexOf,
    ListCons,
    FetchVar,
    SetVar,
    FetchEntry,
    SetEntry,
    InsertEntry,
    DeleteEntry,
    TupleCons,
    TupleGet,
    TupleMerge,
    Begin,
    Hash160,
    Sha256,
    Sha512,
    Sha512Trunc256,
    Keccak256,
    Secp256k1Recover,
    Secp256k1Verify,
    Print,
    ContractCall,
    AsContract,
    ContractOf,
    PrincipalOf,
    AtBlock,
    GetBlockInfo,
    ConsError,
    ConsOkay,
    ConsSome,
    DefaultTo,
    Asserts,
    UnwrapRet,
    UnwrapErrRet,
    Unwrap,
    UnwrapErr,
    Match,
    TryRet,
    IsOkay,
    IsNone,
    IsErr,
    IsSome,
    Filter,
    GetTokenBalance,
    GetAssetOwner,
    TransferToken,
    TransferAsset,
    MintAsset,
    MintToken,
    GetTokenSupply,
    BurnToken,
    BurnAsset,
    GetStxBalance,
    StxTransfer,
    StxBurn,
}

impl NativeFunctions {
    /// The function that the keyword `s` names, if any.
    pub open spec fn spec_lookup(s: Seq<char>) -> Option<NativeFunctions> {
        if s == "+"@ {
            Some(NativeFunctions::Add)
        } else if s == "-"@ {
            Some(NativeFunctions::Subtract)
        } else if s == "*"@ {
            Some(NativeFunctions::Multiply)
        } else if s == "/"@ {
            Some(NativeFunctions::Divide)
        } else if s == ">="@ {
            Some(NativeFunctions::CmpGeq)
        } else if s == "<="@ {
            Some(NativeFunctions::CmpLeq)
        } else if s == "<"@ {
            Some(NativeFunctions::CmpLess)
        } else if s == ">"@ {
            Some(NativeFunctions::CmpGreater)
        } else if s == "to-int"@ {
            Some(NativeFunctions::ToInt)
        } else if s == "to-uint"@ {
            Some(NativeFunctions::ToUInt)
        } else if s == "mod"@ {
            Some(NativeFunctions::Modulo)
        } else if s == "pow"@ {
            Some(NativeFunctions::Power)
        } else if s == "sqrti"@ {
            Some(NativeFunctions::Sqrti)
        } else if s == "log2"@ {
            Some(NativeFunctions::Log2)
        } else if s == "xor"@ {
            Some(NativeFunctions::BitwiseXOR)
        } else if s == "and"@ {
            Some(NativeFunctions::And)
        } else if s == "or"@ {
            Some(NativeFunctions::Or)
        } else if s == "not"@ {
            Some(NativeFunctions::Not)
        } else if s == "is-eq"@ {
            Some(NativeFunctions::Equals)
        } else if s == "if"@ {
            Some(NativeFunctions::If)
        } else if s == "let"@ {
            Some(NativeFunctions::Let)
        } else if s == "map"@ {
            Some(NativeFunctions::SequenceMap)
        } else if s == "fold"@ {
            Some(NativeFunctions::Fold)
        } else if s == "append"@ {
            Some(NativeFunctions::Append)
        } else if s == "concat"@ {
            Some(NativeFunctions::Concat)
        } else if s == "as-max-len?"@ {
            Some(NativeFunctions::AsMaxLen)
        } else if s == "len"@ {
            Some(NativeFunctions::Len)
        } else if s == "element-at"@ {
            Some(NativeFunctions::ElementAt)
        } else if s == "index-of"@ {
            Some(NativeFunctions::IndexOf)
        } else if s == "list"@ {
            Some(NativeFunctions::ListCons)
        } else if s == "var-get"@ {
            Some(NativeFunctions::FetchVar)
        } else if s == "var-set"@ {
            Some(NativeFunctions::SetVar)
        } else if s == "map-get?"@ {
            Some(NativeFunctions::FetchEntry)
        } else if s == "map-set"@ {
            Some(NativeFunctions::SetEntry)
        } else if s == "map-insert"@ {
            Some(NativeFunctions::InsertEntry)
        } else if s == "map-delete"@ {
            Some(NativeFunctions::DeleteEntry)
        } else if s == "tuple"@ {
            Some(NativeFunctions::TupleCons)
        } else if s == "get"@ {
            Some(NativeFunctions::TupleGet)
        } else if s == "merge"@ {
            Some(NativeFunctions::TupleMerge)
        } else if s == "begin"@ {
            Some(NativeFunctions::Begin)
        } else if s == "hash160"@ {
            Some(NativeFunctions::Hash160)
        } else if s == "sha256"@ {
            Some(NativeFunctions::Sha256)
        } else if s == "sha512"@ {
            Some(NativeFunctions::Sha512)
        } else if s == "sha512/256"@ {
            Some(NativeFunctions::Sha512Trunc256)
        } else if s == "keccak256"@ {
            Some(NativeFunctions::Keccak256)
        } else if s == "secp256k1-recover?"@ {
            Some(NativeFunctions::Secp256k1Recover)
        } else if s == "secp256k1-verify"@ {
            Some(NativeFunctions::Secp256k1Verify)
        } else if s == "print"@ {
            Some(NativeFunctions::Print)
        } else if s == "contract-call?"@ {
            Some(NativeFunctions::ContractCall)
        } else if s == "as-contract"@ {
            Some(NativeFunctions::AsContract)
        } else if s == "contract-of"@ {
            Some(NativeFunctions::ContractOf)
        } else if s == "principal-of?"@ {
            Some(NativeFunctions::PrincipalOf)
        } else if s == "at-block"@ {
            Some(NativeFunctions::AtBlock)
        } else if s == "get-block-info?"@ {
            Some(NativeFunctions::GetBlockInfo)
        } else if s == "err"@ {
            Some(NativeFunctions::ConsError)
        } else if s == "ok"@ {
            Some(NativeFunctions::ConsOkay)
        } else if s == "some"@ {
            Some(NativeFunctions::ConsSome)
        } else if s == "default-to"@ {
            Some(NativeFunctions::DefaultTo)
        } else if s == "asserts!"@ {
            Some(NativeFunctions::Asserts)
        } else if s == "unwrap!"@ {
            Some(NativeFunctions::UnwrapRet)
        } else if s == "unwrap-err!"@ {
            Some(NativeFunctions::UnwrapErrRet)
        } else if s == "unwrap-panic"@ {
            Some(NativeFunctions::Unwrap)
        } else if s == "unwrap-err-panic"@ {
            Some(NativeFunctions::UnwrapErr)
        } else if s == "match"@ {
            Some(NativeFunctions::Match)
        } else if s == "try!"@ {
            Some(NativeFunctions::TryRet)
        } else if s == "is-ok"@ {
            Some(NativeFunctions::IsOkay)
        } else if s == "is-none"@ {
            Some(NativeFunctions::IsNone)
        } else if s == "is-err"@ {
            Some(NativeFunctions::IsErr)
        } else if s == "is-some"@ {
            Some(NativeFunctions::IsSome)
        } else if s == "filter"@ {
            Some(NativeFunctions::Filter)
        } else if s == "ft-get-balance"@ {
            Some(NativeFunctions::GetTokenBalance)
        } else if s == "nft-get-owner?"@ {
            Some(NativeFunctions::GetAssetOwner)
        } else if s == "ft-transfer?"@ {
            Some(NativeFunctions::TransferToken)
        } else if s == "nft-transfer?"@ {
            Some(NativeFunctions::TransferAsset)
        } else if s == "nft-mint?"@ {
            Some(NativeFunctions::MintAsset)
        } else if s == "ft-mint?"@ {
            Some(NativeFunctions::MintToken)
        } else if s == "ft-get-supply"@ {
            Some(NativeFunctions::GetTokenSupply)
        } else if s == "ft-burn?"@ {
            Some(NativeFunctions::BurnToken)
        } else if s == "nft-burn?"@ {
            Some(NativeFunctions::BurnAsset)
        } else if s == "stx-get-balance"@ {
            Some(NativeFunctions::GetStxBalance)
        } else if s == "stx-transfer?"@ {
            Some(NativeFunctions::StxTransfer)
        } else if s == "stx-burn?"@ {
            Some(NativeFunctions::StxBurn)
        } else {
            None
        }
    }

    pub fn lookup_by_name(s: &str) -> (r: Option<NativeFunctions>)
        ensures
            r == NativeFunctions::spec_lookup(s@),
    {
        if str_equals(s, "+") {
            return Some(NativeFunctions::Add);
        }
        if str_equals(s, "-") {
            return Some(NativeFunctions::Subtract);
        }
        if str_equals(s, "*") {
            return Some(NativeFunctions::Multiply);
        }
        if str_equals(s, "/") {
            return Some(NativeFunctions::Divide);
        }
        if str_equals(s, ">=") {
            return Some(NativeFunctions::CmpGeq);
        }
        if str_equals(s, "<=") {
            return Some(NativeFunctions::CmpLeq);
        }
        if str_equals(s, "<") {
            return Some(NativeFunctions::CmpLess);
        }
        if str_equals(s, ">") {
            return Some(NativeFunctions::CmpGreater);
        }
        if str_equals(s, "to-int") {
            return Some(NativeFunctions::ToInt);
        }
        if str_equals(s, "to-uint") {
            return Some(NativeFunctions::ToUInt);
        }
        if str_equals(s, "mod") {
            return Some(NativeFunctions::Modulo);
        }
        if str_equals(s, "pow") {
            return Some(NativeFunctions::Power);
        }
        if str_equals(s, "sqrti") {
            return Some(NativeFunctions::Sqrti);
        }
        if str_equals(s, "log2") {
            return Some(NativeFunctions::Log2);
        }
        if str_equals(s, "xor") {
            return Some(NativeFunctions::BitwiseXOR);
        }
        if str_equals(s, "and") {
            return Some(NativeFunctions::And);
        }
        if str_equals(s, "or") {
            return Some(NativeFunctions::Or);
        }
        if str_equals(s, "not") {
            return Some(NativeFunctions::Not);
        }
        if str_equals(s, "is-eq") {
            return Some(NativeFunctions::Equals);
        }
        if str_equals(s, "if") {
            return Some(NativeFunctions::If);
        }
        if str_equals(s, "let") {
            return Some(NativeFunctions::Let);
        }
        if str_equals(s, "map") {
            return Some(NativeFunctions::SequenceMap);
        }
        if str_equals(s, "fold") {
            return Some(NativeFunctions::Fold);
        }
        if str_equals(s, "append") {
            return Some(NativeFunctions::Append);
        }
        if str_equals(s, "concat") {
            return Some(NativeFunctions::Concat);
        }
        if str_equals(s, "as-max-len?") {
            return Some(NativeFunctions::AsMaxLen);
        }
        if str_equals(s, "len") {
            return Some(NativeFunctions::Len);
        }
        if str_equals(s, "element-at") {
            return Some(NativeFunctions::ElementAt);
        }
        if str_equals(s, "index-of") {
            return Some(NativeFunctions::IndexOf);
        }
        if str_equals(s, "list") {
            return Some(NativeFunctions::ListCons);
        }
        if str_equals(s, "var-get") {
            return Some(NativeFunctions::FetchVar);
        }
        if str_equals(s, "var-set") {
            return Some(NativeFunctions::SetVar);
        }
        if str_equals(s, "map-get?") {
            return Some(NativeFunctions::FetchEntry);
        }
        if str_equals(s, "map-set") {
            return Some(NativeFunctions::SetEntry);
        }
        if str_equals(s, "map-insert") {
            return Some(NativeFunctions::InsertEntry);
        }
        if str_equals(s, "map-delete") {
            return Some(NativeFunctions::DeleteEntry);
        }
        if str_equals(s, "tuple") {
            return Some(NativeFunctions::TupleCons);
        }
        if str_equals(s, "get") {
            return Some(NativeFunctions::TupleGet);
        }
        if str_equals(s, "merge") {
            return Some(NativeFunctions::TupleMerge);
        }
        if str_equals(s, "begin") {
            return Some(NativeFunctions::Begin);
        }
        if str_equals(s, "hash160") {
            return Some(NativeFunctions::Hash160);
        }
        if str_equals(s, "sha256") {
            return Some(NativeFunctions::Sha256);
        }
        if str_equals(s, "sha512") {
            return Some(NativeFunctions::Sha512);
        }
        if str_equals(s, "sha512/256") {
            return Some(NativeFunctions::Sha512Trunc256);
        }
        if str_equals(s, "keccak256") {
            return Some(NativeFunctions::Keccak256);
        }
        if str_equals(s, "secp256k1-recover?") {
            return Some(NativeFunctions::Secp256k1Recover);
        }
        if str_equals(s, "secp256k1-verify") {
            return Some(NativeFunctions::Secp256k1Verify);
        }
        if str_equals(s, "print") {
            return Some(NativeFunctions::Print);
        }
        if str_equals(s, "contract-call?") {
            return Some(NativeFunctions::ContractCall);
        }
        if str_equals(s, "as-contract") {
            return Some(NativeFunctions::AsContract);
        }
        if str_equals(s, "contract-of") {
            return Some(NativeFunctions::ContractOf);
        }
        if str_equals(s, "principal-of?") {
            return Some(NativeFunctions::PrincipalOf);
        }
        if str_equals(s, "at-block") {
            return Some(NativeFunctions::AtBlock);
        }
        if str_equals(s, "get-block-info?") {
            return Some(NativeFunctions::GetBlockInfo);
        }
        if str_equals(s, "err") {
            return Some(NativeFunctions::ConsError);
        }
        if str_equals(s, "ok") {
            return Some(NativeFunctions::ConsOkay);
        }
        if str_equals(s, "some") {
            return Some(NativeFunctions::ConsSome);
        }
        if str_equals(s, "default-to") {
            return Some(NativeFunctions::DefaultTo);
        }
        if str_equals(s, "asserts!") {
            return Some(NativeFunctions::Asserts);
        }
        if str_equals(s, "unwrap!") {
            return Some(NativeFunctions::UnwrapRet);
        }
        if str_equals(s, "unwrap-err!") {
            return Some(NativeFunctions::UnwrapErrRet);
        }
        if str_equals(s, "unwrap-panic") {
            return Some(NativeFunctions::Unwrap);
        }
        if str_equals(s, "unwrap-err-panic") {
            return Some(NativeFunctions::UnwrapErr);
        }
        if str_equals(s, "match") {
            return Some(NativeFunctions::Match);
        }
        if str_equals(s, "try!") {
            return Some(NativeFunctions::TryRet);
        }
        if str_equals(s, "is-ok") {
            return Some(NativeFunctions::IsOkay);
        }
        if str_equals(s, "is-none") {
            return Some(NativeFunctions::IsNone);
        }
        if str_equals(s, "is-err") {
            return Some(NativeFunctions::IsErr);
        }
        if str_equals(s, "is-some") {
            return Some(NativeFunctions::IsSome);
        }
        if str_equals(s, "filter") {
            return Some(NativeFunctions::Filter);
        }
        if str_equals(s, "ft-get-balance") {
            return Some(NativeFunctions::GetTokenBalance);
        }
        if str_equals(s, "nft-get-owner?") {
            return Some(NativeFunctions::GetAssetOwner);
        }
        if str_equals(s, "ft-transfer?") {
            return Some(NativeFunctions::TransferToken);
        }
        if str_equals(s, "nft-transfer?") {
            return Some(NativeFunctions::TransferAsset);
        }
        if str_equals(s, "nft-mint?") {
            return Some(NativeFunctions::MintAsset);
        }
        if str_equals(s, "ft-mint?") {
            return Some(NativeFunctions::MintToken);
        }
        if str_equals(s, "ft-get-supply") {
            return Some(NativeFunctions::GetTokenSupply);
        }
        if str_equals(s, "ft-burn?") {
            return Some(NativeFunctions::BurnToken);
        }
        if str_equals(s, "nft-burn?") {
            return Some(NativeFunctions::BurnAsset);
        }
        if str_equals(s, "stx-get-balance") {
            return Some(NativeFunctions::GetStxBalance);
        }
        if str_equals(s, "stx-transfer?") {
            return Some(NativeFunctions::StxTransfer);
        }
        if str_equals(s, "stx-burn?") {
            return Some(NativeFunctions::StxBurn);
        }
        None
    }
}

} // verus!
