use vstd::prelude::*;
use crate::balances::keys_of;

verus! {

/// Appends the entry of `name`, a keyword of the kind `kind`.
fn push_entry(r: &mut Vec<(String, String)>, kind: &str, name: &str)
    ensures
        keys_of(final(r)@) == keys_of(old(r)@).push(name@),
{
    let mut doc = String::from_str(kind);
    doc.append(name);
    let ghost before = r@;
    r.push((String::from_str(name), doc));
    proof {
        assert(keys_of(r@) =~= keys_of(before).push(name@));
    }
}

/// Keywords 1 to 10 of the reference.
pub open spec fn keywords_part_0() -> Seq<Seq<char>> {
    seq!["+"@, "-"@, "*"@, "/"@, ">="@, "<="@, "<"@, ">"@, "to-int"@, "to-uint"@]
}

fn push_part_0(r: &mut Vec<(String, String)>)
    ensures
        keys_of(final(r)@) == keys_of(old(r)@) + keywords_part_0(),
{
    let ghost k0 = keys_of(r@);
    push_entry(r, "Native function: ", "+");
    push_entry(r, "Native function: ", "-");
    push_entry(r, "Native function: ", "*");
    push_entry(r, "Native function: ", "/");
    push_entry(r, "Native function: ", ">=");
    push_entry(r, "Native function: ", "<=");
    push_entry(r, "Native function: ", "<");
    push_entry(r, "Native function: ", ">");
    push_entry(r, "Native function: ", "to-int");
    push_entry(r, "Native function: ", "to-uint");
    proof {
        assert(keys_of(r@) =~= k0 + keywords_part_0());
    }
}

/// Keywords 11 to 20 of the reference.
pub open spec fn keywords_part_1() -> Seq<Seq<char>> {
    seq!["mod"@, "pow"@, "sqrti"@, "log2"@, "xor"@, "and"@, "or"@, "not"@, "is-eq"@, "if"@]
}

fn push_part_1(r: &mut Vec<(String, String)>)
    ensures
        keys_of(final(r)@) == keys_of(old(r)@) + keywords_part_1(),
{
    let ghost k0 = keys_of(r@);
    push_entry(r, "Native function: ", "mod");
    push_entry(r, "Native function: ", "pow");
    push_entry(r, "Native function: ", "sqrti");
    push_entry(r, "Native function: ", "log2");
    push_entry(r, "Native function: ", "xor");
    push_entry(r, "Native function: ", "and");
    push_entry(r, "Native function: ", "or");
    push_entry(r, "Native function: ", "not");
    push_entry(r, "Native function: ", "is-eq");
    push_entry(r, "Native function: ", "if");
    proof {
        assert(keys_of(r@) =~= k0 + keywords_part_1());
    }
}

/// Keywords 21 to 30 of the reference.
pub open spec fn keywords_part_2() -> Seq<Seq<char>> {
    seq!["let"@, "map"@, "fold"@, "append"@, "concat"@, "as-max-len?"@, "len"@, "element-at"@, "index-of"@, "list"@]
}

fn push_part_2(r: &mut Vec<(String, String)>)
    ensures
        keys_of(final(r)@) == keys_of(old(r)@) + keywords_part_2(),
{
    let ghost k0 = keys_of(r@);
    push_entry(r, "Native function: ", "let");
    push_entry(r, "Native function: ", "map");
    push_entry(r, "Native function: ", "fold");
    push_entry(r, "Native function: ", "append");
    push_entry(r, "Native function: ", "concat");
    push_entry(r, "Native function: ", "as-max-len?");
    push_entry(r, "Native function: ", "len");
    push_entry(r, "Native function: ", "element-at");
    push_entry(r, "Native function: ", "index-of");
    push_entry(r, "Native function: ", "list");
    proof {
        assert(keys_of(r@) =~= k0 + keywords_part_2());
    }
}

/// Keywords 31 to 40 of the reference.
pub open spec fn keywords_part_3() -> Seq<Seq<char>> {
    seq!["var-get"@, "var-set"@, "map-get?"@, "map-set"@, "map-insert"@, "map-delete"@, "tuple"@, "get"@, "merge"@, "begin"@]
}

fn push_part_3(r: &mut Vec<(String, String)>)
    ensures
        keys_of(final(r)@) == keys_of(old(r)@) + keywords_part_3(),
{
    let ghost k0 = keys_of(r@);
    push_entry(r, "Native function: ", "var-get");
    push_entry(r, "Native function: ", "var-set");
    push_entry(r, "Native function: ", "map-get?");
    push_entry(r, "Native function: ", "map-set");
    push_entry(r, "Native function: ", "map-insert");
    push_entry(r, "Native function: ", "map-delete");
    push_entry(r, "Native function: ", "tuple");
    push_entry(r, "Native function: ", "get");
    push_entry(r, "Native function: ", "merge");
    push_entry(r, "Native function: ", "begin");
    proof {
        assert(keys_of(r@) =~= k0 + keywords_part_3());
    }
}

/// Keywords 41 to 50 of the reference.
pub open spec fn keywords_part_4() -> Seq<Seq<char>> {
    seq!["hash160"@, "sha256"@, "sha512"@, "sha512/256"@, "keccak256"@, "secp256k1-recover?"@, "secp256k1-verify"@, "print"@, "contract-call?"@, "as-contract"@]
}

fn push_part_4(r: &mut Vec<(String, String)>)
    ensures
        keys_of(final(r)@) == keys_of(old(r)@) + keywords_part_4(),
{
    let ghost k0 = keys_of(r@);
    push_entry(r, "Native function: ", "hash160");
    push_entry(r, "Native function: ", "sha256");
    push_entry(r, "Native function: ", "sha512");
    push_entry(r, "Native function: ", "sha512/256");
    push_entry(r, "Native function: ", "keccak256");
    push_entry(r, "Native function: ", "secp256k1-recover?");
    push_entry(r, "Native function: ", "secp256k1-verify");
    push_entry(r, "Native function: ", "print");
    push_entry(r, "Native function: ", "contract-call?");
    push_entry(r, "Native function: ", "as-contract");
    proof {
        assert(keys_of(r@) =~= k0 + keywords_part_4());
    }
}

/// Keywords 51 to 60 of the reference.
pub open spec fn keywords_part_5() -> Seq<Seq<char>> {
    seq!["contract-of"@, "principal-of?"@, "at-block"@, "get-block-info?"@, "err"@, "ok"@, "some"@, "default-to"@, "asserts!"@, "unwrap!"@]
}

fn push_part_5(r: &mut Vec<(String, String)>)
    ensures
        keys_of(final(r)@) == keys_of(old(r)@) + keywords_part_5(),
{
    let ghost k0 = keys_of(r@);
    push_entry(r, "Native function: ", "contract-of");
    push_entry(r, "Native function: ", "principal-of?");
    push_entry(r, "Native function: ", "at-block");
    push_entry(r, "Native function: ", "get-block-info?");
    push_entry(r, "Native function: ", "err");
    push_entry(r, "Native function: ", "ok");
    push_entry(r, "Native function: ", "some");
    push_entry(r, "Native function: ", "default-to");
    push_entry(r, "Native function: ", "asserts!");
    push_entry(r, "Native function: ", "unwrap!");
    proof {
        assert(keys_of(r@) =~= k0 + keywords_part_5());
    }
}

/// Keywords 61 to 70 of the reference.
pub open spec fn keywords_part_6() -> Seq<Seq<char>> {
    seq!["unwrap-err!"@, "unwrap-panic"@, "unwrap-err-panic"@, "match"@, "try!"@, "is-ok"@, "is-none"@, "is-err"@, "is-some"@, "filter"@]
}

fn push_part_6(r: &mut Vec<(String, String)>)
    ensures
        keys_of(final(r)@) == keys_of(old(r)@) + keywords_part_6(),
{
    let ghost k0 = keys_of(r@);
    push_entry(r, "Native function: ", "unwrap-err!");
    push_entry(r, "Native function: ", "unwrap-panic");
    push_entry(r, "Native function: ", "unwrap-err-panic");
    push_entry(r, "Native function: ", "match");
    push_entry(r, "Native function: ", "try!");
    push_entry(r, "Native function: ", "is-ok");
    push_entry(r, "Native function: ", "is-none");
    push_entry(r, "Native function: ", "is-err");
    push_entry(r, "Native function: ", "is-some");
    push_entry(r, "Native function: ", "filter");
    proof {
        assert(keys_of(r@) =~= k0 + keywords_part_6());
    }
}

/// Keywords 71 to 80 of the reference.
pub open spec fn keywords_part_7() -> Seq<Seq<char>> {
    seq!["ft-get-balance"@, "nft-get-owner?"@, "ft-transfer?"@, "nft-transfer?"@, "nft-mint?"@, "ft-mint?"@, "ft-get-supply"@, "ft-burn?"@, "nft-burn?"@, "stx-get-balance"@]
}

fn push_part_7(r: &mut Vec<(String, String)>)
    ensures
        keys_of(final(r)@) == keys_of(old(r)@) + keywords_part_7(),
{
    let ghost k0 = keys_of(r@);
    push_entry(r, "Native function: ", "ft-get-balance");
    push_entry(r, "Native function: ", "nft-get-owner?");
    push_entry(r, "Native function: ", "ft-transfer?");
    push_entry(r, "Native function: ", "nft-transfer?");
    push_entry(r, "Native function: ", "nft-mint?");
    push_entry(r, "Native function: ", "ft-mint?");
    push_entry(r, "Native function: ", "ft-get-supply");
    push_entry(r, "Native function: ", "ft-burn?");
    push_entry(r, "Native function: ", "nft-burn?");
    push_entry(r, "Native function: ", "stx-get-balance");
    proof {
        assert(keys_of(r@) =~= k0 + keywords_part_7());
    }
}

/// Keywords 81 to 90 of the reference.
pub open spec fn keywords_part_8() -> Seq<Seq<char>> {
    seq!["stx-transfer?"@, "stx-burn?"@, "define-constant"@, "define-private"@, "define-read-only"@, "define-public"@, "define-map"@, "define-data-var"@, "define-fungible-token"@, "define-non-fungible-token"@]
}

fn push_part_8(r: &mut Vec<(String, String)>)
    ensures
        keys_of(final(r)@) == keys_of(old(r)@) + keywords_part_8(),
{
    let ghost k0 = keys_of(r@);
    push_entry(r, "Native function: ", "stx-transfer?");
    push_entry(r, "Native function: ", "stx-burn?");
    push_entry(r, "Definition: ", "define-constant");
    push_entry(r, "Definition: ", "define-private");
    push_entry(r, "Definition: ", "define-read-only");
    push_entry(r, "Definition: ", "define-public");
    push_entry(r, "Definition: ", "define-map");
    push_entry(r, "Definition: ", "define-data-var");
    push_entry(r, "Definition: ", "define-fungible-token");
    push_entry(r, "Definition: ", "define-non-fungible-token");
    proof {
        assert(keys_of(r@) =~= k0 + keywords_part_8());
    }
}

/// Keywords 91 to 100 of the reference.
pub open spec fn keywords_part_9() -> Seq<Seq<char>> {
    seq!["define-trait"@, "use-trait"@, "impl-trait"@, "block-height"@, "burn-block-height"@, "contract-caller"@, "false"@, "is-in-regtest"@, "none"@, "stx-liquid-supply"@]
}

fn push_part_9(r: &mut Vec<(String, String)>)
    ensures
        keys_of(final(r)@) == keys_of(old(r)@) + keywords_part_9(),
{
    let ghost k0 = keys_of(r@);
    push_entry(r, "Definition: ", "define-trait");
    push_entry(r, "Definition: ", "use-trait");
    push_entry(r, "Definition: ", "impl-trait");
    push_entry(r, "Native variable: ", "block-height");
    push_entry(r, "Native variable: ", "burn-block-height");
    push_entry(r, "Native variable: ", "contract-caller");
    push_entry(r, "Native variable: ", "false");
    push_entry(r, "Native variable: ", "is-in-regtest");
    push_entry(r, "Native variable: ", "none");
    push_entry(r, "Native variable: ", "stx-liquid-supply");
    proof {
        assert(keys_of(r@) =~= k0 + keywords_part_9());
    }
}

/// Keywords 101 to 102 of the reference.
pub open spec fn keywords_part_10() -> Seq<Seq<char>> {
    seq!["true"@, "tx-sender"@]
}

fn push_part_10(r: &mut Vec<(String, String)>)
    ensures
        keys_of(final(r)@) == keys_of(old(r)@) + keywords_part_10(),
{
    let ghost k0 = keys_of(r@);
    push_entry(r, "Native variable: ", "true");
    push_entry(r, "Native variable: ", "tx-sender");
    proof {
        assert(keys_of(r@) =~= k0 + keywords_part_10());
    }
}

/// The keywords that the reference documents: the native functions, the definition forms
/// and the native variables of Clarity, in that order.
pub open spec fn api_keywords() -> Seq<Seq<char>> {
    Seq::empty() + keywords_part_0() + keywords_part_1() + keywords_part_2() + keywords_part_3() + keywords_part_4() + keywords_part_5() + keywords_part_6() + keywords_part_7() + keywords_part_8() + keywords_part_9() + keywords_part_10()
}

/// The reference of the keywords of Clarity: each keyword with the kind of keyword it is.
pub fn build_api_reference() -> (r: Vec<(String, String)>)
    ensures
        keys_of(r@) == api_keywords(),
{
    let mut r: Vec<(String, String)> = Vec::new();
    proof {
        assert(keys_of(r@) =~= Seq::<Seq<char>>::empty());
    }
    push_part_0(&mut r);
    push_part_1(&mut r);
    push_part_2(&mut r);
    push_part_3(&mut r);
    push_part_4(&mut r);
    push_part_5(&mut r);
    push_part_6(&mut r);
    push_part_7(&mut r);
    push_part_8(&mut r);
    push_part_9(&mut r);
    push_part_10(&mut r);
    r
}

} // verus!
