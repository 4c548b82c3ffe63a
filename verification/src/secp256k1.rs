use vstd::prelude::*;
use crate::hex::{all_hex, hex_bytes, hex_of, spells_bytes, to_hex};

verus! {

broadcast use vstd::std_specs::vec::group_vec_axioms;

#[verifier::external_type_specification]
#[verifier::external_body]
pub struct ExLibRecoverableSignature(secp256k1::recovery::RecoverableSignature);

#[verifier::external_type_specification]
#[verifier::external_body]
pub struct ExLibRecoveryId(secp256k1::recovery::RecoveryId);

#[verifier::external_type_specification]
#[verifier::external_body]
pub struct ExLibError(secp256k1::Error);

/// The errors of the secp256k1 library.
#[derive(Debug, Clone, Copy, PartialEq, Eq, Structural)]
pub enum Secp256k1Error {
    IncorrectSignature,
    InvalidMessage,
    InvalidPublicKey,
    InvalidSignature,
    InvalidSecretKey,
    InvalidRecoveryId,
    InvalidTweak,
    TweakCheckFailed,
    NotEnoughMemory,
}

/// The library's error for an error of the secp256k1 crate, variant by variant.
#[verifier::external_body]
fn lib_error(e: secp256k1::Error) -> (r: Secp256k1Error) {
    match e {
        secp256k1::Error::IncorrectSignature => Secp256k1Error::IncorrectSignature,
        secp256k1::Error::InvalidMessage => Secp256k1Error::InvalidMessage,
        secp256k1::Error::InvalidPublicKey => Secp256k1Error::InvalidPublicKey,
        secp256k1::Error::InvalidSignature => Secp256k1Error::InvalidSignature,
        secp256k1::Error::InvalidSecretKey => Secp256k1Error::InvalidSecretKey,
        secp256k1::Error::InvalidRecoveryId => Secp256k1Error::InvalidRecoveryId,
        secp256k1::Error::InvalidTweak => Secp256k1Error::InvalidTweak,
        secp256k1::Error::TweakCheckFailed => Secp256k1Error::TweakCheckFailed,
        secp256k1::Error::NotEnoughMemory => Secp256k1Error::NotEnoughMemory,
    }
}

/// The number that bytes write, most significant first.
pub open spec fn be_value(bytes: Seq<u8>) -> nat
    decreases bytes.len(),
{
    if bytes.len() == 0 {
        0
    } else {
        be_value(bytes.drop_last()) * 256 + bytes.last() as nat
    }
}

/// The order of the group of the curve secp256k1.
pub open spec fn curve_order() -> nat {
    0xFFFFFFFFFFFFFFFFFFFFFFFFFFFFFFFEBAAEDCE6AF48A03BBFD25E8CD0364141int as nat
}

/// Whether 32 bytes are a secret key: a number from 1 to below the order of the group.
pub open spec fn seckey_valid(bytes: Seq<u8>) -> bool {
    bytes.len() == 32 && 0 < be_value(bytes) < curve_order()
}

/// Whether 64 bytes are a compact signature: two numbers, `r` then `s`, each below the
/// order of the group.
pub open spec fn compact_ok(bytes: Seq<u8>) -> bool {
    &&& bytes.len() == 64
    &&& be_value(bytes.subrange(0, 32)) < curve_order()
    &&& be_value(bytes.subrange(32, 64)) < curve_order()
}

/// Whether one of the two numbers of a compact signature is zero.
pub open spec fn compact_has_zero(bytes: Seq<u8>) -> bool {
    be_value(bytes.subrange(0, 32)) == 0 || be_value(bytes.subrange(32, 64)) == 0
}

/// Whether `secp256k1::PublicKey::from_slice` accepts the bytes `data`: a function of the
/// bytes alone.
pub uninterp spec fn pubkey_parses(data: Seq<u8>) -> bool;

/// The 33-byte compressed form (`serialize`) of the public key that `data` holds.
pub uninterp spec fn pubkey_compressed_form(data: Seq<u8>) -> Seq<u8>;

/// The 65-byte uncompressed form (`serialize_uncompressed`) of the public key that `data`
/// holds.
pub uninterp spec fn pubkey_uncompressed_form(data: Seq<u8>) -> Seq<u8>;

/// The compressed form of the public key of the secret key `sk`.
pub uninterp spec fn pubkey_of_secret(sk: Seq<u8>) -> Seq<u8>;

/// Whether the ECDSA signature `sig` (compact form) of the 32-byte hash `msg` checks
/// against the public key that `pk` holds.
pub uninterp spec fn ecdsa_verifies(msg: Seq<u8>, sig: Seq<u8>, pk: Seq<u8>) -> bool;

/// The compressed form of the public key recovered from the 32-byte hash `msg`, the compact
/// signature `sig` and the recovery id `recid`; `None` where there is none.
pub uninterp spec fn recovered_key(msg: Seq<u8>, sig: Seq<u8>, recid: i32) -> Option<Seq<u8>>;

/// `secp256k1::PublicKey::from_slice`, whose key is dropped: whether `data` holds a public
/// key, as `pubkey_parses` names it; an empty slice does not; a failure is
/// `InvalidPublicKey`.
#[verifier::external_body]
fn lib_pubkey_from_slice(data: &[u8]) -> (r: Result<(), Secp256k1Error>)
    ensures
        r is Ok <==> pubkey_parses(data@),
        data@.len() == 0 ==> r is Err,
        r matches Err(e) ==> e == Secp256k1Error::InvalidPublicKey,
{
    secp256k1::PublicKey::from_slice(data).map(|_k| ()).map_err(lib_error)
}

/// `secp256k1::PublicKey::serialize` of the key that `data` holds (read by `from_slice`):
/// its 33-byte compressed form, which is itself a key; a key given in that form is given
/// back unchanged.
#[verifier::external_body]
fn lib_pubkey_serialize(data: &[u8]) -> (r: Vec<u8>)
    requires
        pubkey_parses(data@),
    ensures
        r@ == pubkey_compressed_form(data@),
        r@.len() == 33,
        pubkey_parses(r@),
        data@.len() == 33 ==> r@ == data@,
{
    secp256k1::PublicKey::from_slice(data).unwrap().serialize().to_vec()
}

/// `secp256k1::PublicKey::serialize_uncompressed` of the key that `data` holds: its 65-byte
/// uncompressed form, which is itself a key; a key given in that form (first byte 4) is
/// given back unchanged.
#[verifier::external_body]
fn lib_pubkey_serialize_uncompressed(data: &[u8]) -> (r: Vec<u8>)
    requires
        pubkey_parses(data@),
    ensures
        r@ == pubkey_uncompressed_form(data@),
        r@.len() == 65,
        pubkey_parses(r@),
        data@.len() == 65 && data@[0] == 4 ==> r@ == data@,
{
    secp256k1::PublicKey::from_slice(data).unwrap().serialize_uncompressed().to_vec()
}

/// `secp256k1::PublicKey::from_secret_key` of the secret key `sk` (read by
/// `SecretKey::from_slice`), with a signing context, in its compressed form.
#[verifier::external_body]
fn lib_pubkey_from_secret_key(sk: &[u8]) -> (r: Vec<u8>)
    requires
        seckey_valid(sk@),
    ensures
        r@ == pubkey_of_secret(sk@),
        r@.len() == 33,
        pubkey_parses(r@),
{
    let secret = secp256k1::SecretKey::from_slice(sk).unwrap();
    secp256k1::PublicKey::from_secret_key(&secp256k1::Secp256k1::signing_only(), &secret).serialize().to_vec()
}

/// `secp256k1::SecretKey::from_slice`, whose key is dropped: 32 bytes that write a number
/// from 1 to below the order of the group (`secp256k1_ec_seckey_verify`); a failure is
/// `InvalidSecretKey`.
#[verifier::external_body]
fn lib_seckey_from_slice(data: &[u8]) -> (r: Result<(), Secp256k1Error>)
    ensures
        r is Ok <==> seckey_valid(data@),
        r matches Err(e) ==> e == Secp256k1Error::InvalidSecretKey,
{
    secp256k1::SecretKey::from_slice(data).map(|_k| ()).map_err(lib_error)
}

/// `secp256k1::recovery::RecoveryId::from_i32`: accepts 0 to 3, else `InvalidRecoveryId`.
#[verifier::external_body]
fn lib_recovery_id_from_i32(id: i32) -> (r: Result<secp256k1::recovery::RecoveryId, Secp256k1Error>)
    ensures
        r is Ok <==> 0 <= id <= 3,
        r matches Err(e) ==> e == Secp256k1Error::InvalidRecoveryId,
{
    secp256k1::recovery::RecoveryId::from_i32(id).map_err(lib_error)
}

/// `secp256k1::recovery::RecoveryId::to_i32`: a recovery id is 0 to 3, since `from_i32`
/// accepts only those and the library's serialization gives only those.
#[verifier::external_body]
fn lib_recovery_id_to_i32(id: secp256k1::recovery::RecoveryId) -> (r: i32)
    ensures
        0 <= r <= 3,
{
    id.to_i32()
}

/// `secp256k1::recovery::RecoverableSignature::serialize_compact`: the recovery id and
/// the 64 bytes of the signature, whose two numbers, written from the library's reduced
/// scalars (`secp256k1_scalar_get_b32`), are below the order of the group. Which bytes
/// come out of a given signature is left unsaid: the signature is opaque here.
#[verifier::external_body]
fn lib_recoverable_serialize_compact(sig: &secp256k1::recovery::RecoverableSignature) -> (r: (secp256k1::recovery::RecoveryId, Vec<u8>))
    ensures
        r.1@.len() == 64,
        compact_ok(r.1@),
{
    let (id, bytes) = sig.serialize_compact();
    (id, bytes.to_vec())
}

/// `secp256k1::recovery::RecoverableSignature::from_compact`: 64 bytes whose two numbers are
/// below the order of the group; a failure is `InvalidSignature`.
#[verifier::external_body]
fn lib_recoverable_from_compact(data: &[u8], recid: secp256k1::recovery::RecoveryId) -> (r: Result<secp256k1::recovery::RecoverableSignature, Secp256k1Error>)
    ensures
        r is Ok <==> compact_ok(data@),
        r matches Err(e) ==> e == Secp256k1Error::InvalidSignature,
{
    secp256k1::recovery::RecoverableSignature::from_compact(data, recid).map_err(lib_error)
}

/// `secp256k1::Signature::from_compact`, whose signature is dropped: 64 bytes whose two
/// numbers are below the order of the group; a failure is `InvalidSignature`.
#[verifier::external_body]
fn lib_signature_from_compact(data: &[u8]) -> (r: Result<(), Secp256k1Error>)
    ensures
        r is Ok <==> compact_ok(data@),
        r matches Err(e) ==> e == Secp256k1Error::InvalidSignature,
{
    secp256k1::Signature::from_compact(data).map(|_s| ()).map_err(lib_error)
}

/// `secp256k1::Secp256k1::recover`, with a verification context, of the hash `msg`
/// (`Message::from_slice`) and the signature `sig` with recovery id `recid`
/// (`RecoverableSignature::from_compact`), in the compressed form of the key
/// (`serialize`), as `recovered_key` names it. A signature one of whose numbers is zero
/// recovers nothing (`secp256k1_ecdsa_sig_recover`).
#[verifier::external_body]
fn lib_recover(msg: &[u8], sig: &[u8], recid: i32) -> (r: Option<Vec<u8>>)
    requires
        msg@.len() == 32,
        compact_ok(sig@),
        0 <= recid <= 3,
    ensures
        r matches Some(k) ==> recovered_key(msg@, sig@, recid) == Some(k@) && k@.len() == 33 && pubkey_parses(k@),
        r is None ==> recovered_key(msg@, sig@, recid) is None,
        compact_has_zero(sig@) ==> r is None,
{
    let m = secp256k1::Message::from_slice(msg).unwrap();
    let id = secp256k1::recovery::RecoveryId::from_i32(recid).unwrap();
    let s = secp256k1::recovery::RecoverableSignature::from_compact(sig, id).unwrap();
    secp256k1::Secp256k1::verification_only().recover(&m, &s).ok().map(|k| k.serialize().to_vec())
}

/// `secp256k1::Secp256k1::verify`, with a verification context, of the hash `msg`
/// (`Message::from_slice`), the compact signature `sig` (`Signature::from_compact`) and the
/// key that `pk` holds (`PublicKey::from_slice`), as `ecdsa_verifies` names it. A signature
/// one of whose numbers is zero never checks (`secp256k1_ecdsa_sig_verify`).
#[verifier::external_body]
fn lib_verify(msg: &[u8], sig: &[u8], pk: &[u8]) -> (r: bool)
    requires
        msg@.len() == 32,
        compact_ok(sig@),
        pubkey_parses(pk@),
    ensures
        r == ecdsa_verifies(msg@, sig@, pk@),
        compact_has_zero(sig@) ==> !r,
{
    let m = secp256k1::Message::from_slice(msg).unwrap();
    let s = secp256k1::Signature::from_compact(sig).unwrap();
    let k = secp256k1::PublicKey::from_slice(pk).unwrap();
    secp256k1::Secp256k1::verification_only().verify(&m, &s, &k).is_ok()
}

/// A recoverable signature: the recovery id, then the 64 bytes of the signature.
pub struct MessageSignature(pub [u8; 65]);

/// The size of an encoded signature.
pub const MESSAGE_SIGNATURE_ENCODED_SIZE: u32 = 65;

/// The 64 bytes of a signature after its recovery id.
pub open spec fn signature_part(sig: Seq<u8>) -> Seq<u8> {
    sig.subrange(1, 65)
}

fn copy_part(data: &[u8], from: usize, to: usize) -> (r: Vec<u8>)
    requires
        from <= to <= data@.len(),
    ensures
        r@ == data@.subrange(from as int, to as int),
{
    let mut r: Vec<u8> = Vec::new();
    let mut i = from;
    while i < to
        invariant
            from <= i <= to,
            to <= data@.len(),
            r@ == data@.subrange(from as int, i as int),
        decreases to - i,
    {
        r.push(data[i]);
        proof {
            assert(r@ =~= data@.subrange(from as int, i + 1));
        }
        i = i + 1;
    }
    r
}

impl MessageSignature {
    /// The signature whose bytes are all zero, which no key made.
    pub fn empty() -> (r: MessageSignature)
        ensures
            forall|i: int| 0 <= i < 65 ==> r.0@[i] == 0,
    {
        MessageSignature([0u8; 65])
    }

    /// The signature of the first 65 bytes of `sig`.
    pub fn from_raw(sig: &Vec<u8>) -> (r: MessageSignature)
        requires
            sig@.len() >= 65,
        ensures
            r.0@ == sig@.subrange(0, 65),
    {
        let mut buf = [0u8; 65];
        let mut i: usize = 0;
        while i < 65
            invariant
                i <= 65,
                sig@.len() >= 65,
                forall|k: int| 0 <= k < i ==> buf@[k] == sig@[k],
            decreases 65 - i,
        {
            buf[i] = sig[i];
            i = i + 1;
        }
        assert(buf@ =~= sig@.subrange(0, 65));
        MessageSignature(buf)
    }

    /// The encoding of a recoverable signature: its recovery id, then its compact form;
    /// what comes out is again a recoverable signature.
    pub fn from_secp256k1_recoverable(sig: &secp256k1::recovery::RecoverableSignature) -> (r: MessageSignature)
        ensures
            r.0@[0] <= 3,
            compact_ok(signature_part(r.0@)),
    {
        let (recid, bytes) = lib_recoverable_serialize_compact(sig);
        let mut ret_bytes = [0u8; 65];
        let id = lib_recovery_id_to_i32(recid);
        ret_bytes[0] = id as u8;
        let mut i: usize = 0;
        while i < 64
            invariant
                i <= 64,
                bytes@.len() == 64,
                ret_bytes@.len() == 65,
                ret_bytes@[0] <= 3,
                forall|j: int| 0 <= j < i ==> ret_bytes@[j + 1] == bytes@[j],
            decreases 64 - i,
        {
            ret_bytes[i + 1] = bytes[i];
            i = i + 1;
        }
        assert(ret_bytes@.subrange(1, 65) =~= bytes@);
        MessageSignature(ret_bytes)
    }

    /// The recoverable signature this encodes: there is one exactly when the recovery id is
    /// 0 to 3 and the 64 bytes after it are a compact signature.
    pub fn to_secp256k1_recoverable(&self) -> (r: Option<secp256k1::recovery::RecoverableSignature>)
        ensures
            r is Some <==> self.0@[0] <= 3 && compact_ok(signature_part(self.0@)),
    {
        let recid = match lib_recovery_id_from_i32(self.0[0] as i32) {
            Ok(rid) => rid,
            Err(_) => return None,
        };
        let sig_bytes = copy_part(&self.0, 1, 65);
        match lib_recoverable_from_compact(sig_bytes.as_slice(), recid) {
            Ok(sig) => Some(sig),
            Err(_) => None,
        }
    }
}

/// A public key, as the bytes it was read from, and whether it is shown in compressed form.
pub struct Secp256k1PublicKey {
    key: Vec<u8>,
    compressed: bool,
}

/// A secret key, as its 32 bytes, and whether its public key is shown in compressed form.
pub struct Secp256k1PrivateKey {
    key: Vec<u8>,
    compress_public: bool,
}

/// The form in which a public key held by `data` is shown.
pub open spec fn pubkey_form(data: Seq<u8>, compressed: bool) -> Seq<u8> {
    if compressed {
        pubkey_compressed_form(data)
    } else {
        pubkey_uncompressed_form(data)
    }
}

impl Secp256k1PublicKey {
    /// The key holds bytes that are a public key.
    #[verifier::type_invariant]
    closed spec fn inv(&self) -> bool {
        pubkey_parses(self.key@)
    }

    /// The bytes the key was read from.
    pub closed spec fn bytes(&self) -> Seq<u8> {
        self.key@
    }

    pub closed spec fn is_compressed(&self) -> bool {
        self.compressed
    }

    /// Reads a public key from hexadecimal text.
    pub fn from_hex(hex_string: &str) -> (r: Result<Secp256k1PublicKey, &'static str>)
        ensures
            !(hex_string@.len() % 2 == 0 && all_hex(hex_string@)) ==> (r matches Err(m) && m@ == "Failed to decode hex public key"@),
            r matches Err(m) ==> m@ == "Failed to decode hex public key"@ || m@ == "Invalid public key hex string"@,
            r matches Ok(k) ==> k.is_compressed() == (hex_string@.len() == 66) && spells_bytes(hex_string@, k.bytes()),
            (hex_string@.len() % 2 == 0 && all_hex(hex_string@)) ==> (r is Ok <==> forall|b: Seq<u8>|
                #[trigger] spells_bytes(hex_string@, b) ==> pubkey_parses(b)),
    {
        let data = match hex_bytes(hex_string) {
            Ok(data) => data,
            Err(_) => return Err("Failed to decode hex public key"),
        };
        proof {
            assert forall|b: Seq<u8>| #[trigger] spells_bytes(hex_string@, b) implies b == data@ by {
                crate::hex::lemma_spells_unique(hex_string@, b, data@);
            }
        }
        match Secp256k1PublicKey::from_slice(data.as_slice()) {
            Ok(k) => Ok(k),
            Err(_) => Err("Invalid public key hex string"),
        }
    }

    /// Reads a serialized public key; it is shown compressed when it was given so (33 bytes).
    pub fn from_slice(data: &[u8]) -> (r: Result<Secp256k1PublicKey, &'static str>)
        ensures
            r is Ok <==> pubkey_parses(data@),
            r matches Ok(k) ==> k.is_compressed() == (data@.len() == 33) && k.bytes() == data@,
            r matches Err(m) ==> m@ == "Invalid public key: failed to load"@,
            data@.len() == 0 ==> r is Err,
    {
        match lib_pubkey_from_slice(data) {
            Ok(()) => {
                let key = copy_part(data, 0, data.len());
                proof {
                    assert(key@ =~= data@);
                }
                Ok(Secp256k1PublicKey { key, compressed: data.len() == 33 })
            },
            Err(_) => Err("Invalid public key: failed to load"),
        }
    }

    /// The public key of a secret key.
    pub fn from_private(privk: &Secp256k1PrivateKey) -> (r: Secp256k1PublicKey)
        ensures
            r.is_compressed() == privk.compress_public_spec(),
            r.bytes() == pubkey_of_secret(privk.bytes()),
    {
        proof {
            use_type_invariant(privk);
        }
        Secp256k1PublicKey { key: lib_pubkey_from_secret_key(privk.key.as_slice()), compressed: privk.compress_public }
    }

    /// The hexadecimal text of the key, in the form it is shown in.
    pub fn to_hex(&self) -> (r: String)
        ensures
            r@ == hex_of(pubkey_form(self.bytes(), self.is_compressed())),
            r@.len() == if self.is_compressed() {
                66int
            } else {
                130int
            },
    {
        let bytes = self.to_bytes();
        let r = to_hex(&bytes);
        proof {
            lemma_hex_len(bytes@);
        }
        r
    }

    /// The key in its 33-byte compressed form.
    pub fn to_bytes_compressed(&self) -> (r: Vec<u8>)
        ensures
            r@ == pubkey_compressed_form(self.bytes()),
            r@.len() == 33,
            self.bytes().len() == 33 ==> r@ == self.bytes(),
    {
        proof {
            use_type_invariant(self);
        }
        lib_pubkey_serialize(self.key.as_slice())
    }

    pub fn compressed(&self) -> (r: bool)
        ensures
            r == self.is_compressed(),
    {
        self.compressed
    }

    pub fn set_compressed(&mut self, value: bool)
        ensures
            final(self).is_compressed() == value,
            final(self).bytes() == old(self).bytes(),
    {
        proof {
            use_type_invariant(&*self);
        }
        self.compressed = value;
    }

    /// The key that signed the 32-byte hash `msg`, shown compressed: the key that
    /// `recovered_key` names, from the recovery id and the 64 bytes of `sig`.
    pub fn recover_to_pubkey(msg: &[u8], sig: &MessageSignature) -> (r: Result<Secp256k1PublicKey, &'static str>)
        ensures
            msg@.len() != 32 ==> (r matches Err(m) && m@ == "Invalid message: failed to decode data hash: must be a 32-byte hash"@),
            msg@.len() == 32 && !(sig.0@[0] <= 3 && compact_ok(signature_part(sig.0@))) ==> (r matches Err(m)
                && m@ == "Invalid signature: failed to decode recoverable signature"@),
            msg@.len() == 32 && sig.0@[0] <= 3 && compact_ok(signature_part(sig.0@)) ==> match recovered_key(
                msg@,
                signature_part(sig.0@),
                sig.0@[0] as i32,
            ) {
                Some(k) => r matches Ok(p) && p.bytes() == k && p.is_compressed(),
                None => r matches Err(m) && m@ == "Invalid signature: failed to recover public key"@,
            },
    {
        if msg.len() != 32 {
            return Err("Invalid message: failed to decode data hash: must be a 32-byte hash");
        }
        if sig.to_secp256k1_recoverable().is_none() {
            return Err("Invalid signature: failed to decode recoverable signature");
        }
        let compact = copy_part(&sig.0, 1, 65);
        match lib_recover(msg, compact.as_slice(), sig.0[0] as i32) {
            Some(key) => Ok(Secp256k1PublicKey { key, compressed: true }),
            None => Err("Invalid signature: failed to recover public key"),
        }
    }

    /// The key in the form it is shown in: 33 bytes compressed, 65 uncompressed. A key read
    /// in the form it is shown in (33 bytes, or 65 whose first is 4) gives back its bytes.
    pub fn to_bytes(&self) -> (r: Vec<u8>)
        ensures
            r@ == pubkey_form(self.bytes(), self.is_compressed()),
            r@.len() == if self.is_compressed() {
                33int
            } else {
                65int
            },
            self.is_compressed() && self.bytes().len() == 33 ==> r@ == self.bytes(),
            !self.is_compressed() && self.bytes().len() == 65 && self.bytes()[0] == 4 ==> r@ == self.bytes(),
    {
        proof {
            use_type_invariant(self);
        }
        if self.compressed {
            lib_pubkey_serialize(self.key.as_slice())
        } else {
            lib_pubkey_serialize_uncompressed(self.key.as_slice())
        }
    }
}

impl Secp256k1PrivateKey {
    /// The key holds a secret key.
    #[verifier::type_invariant]
    closed spec fn inv(&self) -> bool {
        seckey_valid(self.key@)
    }

    /// The 32 bytes of the secret key.
    pub closed spec fn bytes(&self) -> Seq<u8> {
        self.key@
    }

    pub closed spec fn compress_public_spec(&self) -> bool {
        self.compress_public
    }

    /// Reads a secret key from hexadecimal text.
    pub fn from_hex(hex_string: &str) -> (r: Result<Secp256k1PrivateKey, &'static str>)
        ensures
            !(hex_string@.len() % 2 == 0 && all_hex(hex_string@)) ==> (r matches Err(m) && m@ == "Failed to decode hex private key"@),
            (hex_string@.len() % 2 == 0 && all_hex(hex_string@)) ==> (r matches Err(m) ==> m@ == "Invalid private key hex string"@),
            r matches Ok(k) ==> k.compress_public_spec() == (hex_string@.len() == 66) && forall|b: Seq<u8>|
                #[trigger] spells_bytes(hex_string@, b) ==> k.bytes() == b.subrange(0, 32),
            (hex_string@.len() % 2 == 0 && all_hex(hex_string@)) ==> (r is Ok <==> forall|b: Seq<u8>|
                #[trigger] spells_bytes(hex_string@, b) ==> private_key_bytes_ok(b)),
            hex_string@.len() != 64 && hex_string@.len() != 66 ==> r is Err,
    {
        let data = match hex_bytes(hex_string) {
            Ok(data) => data,
            Err(_) => return Err("Failed to decode hex private key"),
        };
        proof {
            assert forall|b: Seq<u8>| #[trigger] spells_bytes(hex_string@, b) implies b == data@ by {
                crate::hex::lemma_spells_unique(hex_string@, b, data@);
            }
        }
        match Secp256k1PrivateKey::from_slice(data.as_slice()) {
            Ok(k) => Ok(k),
            Err(_) => Err("Invalid private key hex string"),
        }
    }

    /// Reads a secret key: 32 bytes, or 33 whose last is the marker 1 of a key whose
    /// public key is shown compressed.
    pub fn from_slice(data: &[u8]) -> (r: Result<Secp256k1PrivateKey, &'static str>)
        ensures
            data@.len() < 32 ==> (r matches Err(m) && m@ == "Invalid private key: shorter than 32 bytes"@),
            data@.len() > 33 ==> (r matches Err(m) && m@ == "Invalid private key: greater than 33 bytes"@),
            data@.len() == 33 && data@[32] != 1 ==> (r matches Err(m) && m@ == "Invalid private key: invalid compressed byte marker"@),
            r is Ok <==> private_key_bytes_ok(data@),
            (data@.len() == 32 || (data@.len() == 33 && data@[32] == 1)) && !seckey_valid(data@.subrange(0, 32))
                ==> (r matches Err(m) && m@ == "Invalid private key: failed to load"@),
            r matches Ok(k) ==> k.compress_public_spec() == (data@.len() == 33) && k.bytes() == data@.subrange(0, 32),
    {
        if data.len() < 32 {
            return Err("Invalid private key: shorter than 32 bytes");
        }
        if data.len() > 33 {
            return Err("Invalid private key: greater than 33 bytes");
        }
        let compress_public = if data.len() == 33 {
            if data[32] != 1 {
                return Err("Invalid private key: invalid compressed byte marker");
            }
            true
        } else {
            false
        };
        let key = copy_part(data, 0, 32);
        match lib_seckey_from_slice(key.as_slice()) {
            Ok(()) => Ok(Secp256k1PrivateKey { key, compress_public }),
            Err(_) => Err("Invalid private key: failed to load"),
        }
    }

    pub fn compress_public(&self) -> (r: bool)
        ensures
            r == self.compress_public_spec(),
    {
        self.compress_public
    }

    pub fn set_compress_public(&mut self, value: bool)
        ensures
            final(self).compress_public_spec() == value,
            final(self).bytes() == old(self).bytes(),
    {
        proof {
            use_type_invariant(&*self);
        }
        self.compress_public = value;
    }

    /// The hexadecimal text of the 32 bytes of the key, then `01` where its public key is
    /// shown compressed.
    pub fn to_hex(&self) -> (r: String)
        ensures
            r@ == hex_of(self.bytes()) + if self.compress_public_spec() {
                seq!['0', '1']
            } else {
                Seq::empty()
            },
            r@.len() == if self.compress_public_spec() {
                66int
            } else {
                64int
            },
    {
        proof {
            use_type_invariant(self);
        }
        let mut bytes = copy_part(self.key.as_slice(), 0, self.key.len());
        proof {
            assert(bytes@ =~= self.key@);
        }
        if self.compress_public {
            bytes.push(1);
        }
        let r = to_hex(&bytes);
        proof {
            lemma_hex_len(bytes@);
            lemma_hex_len(self.key@);
            if self.compress_public {
                assert(bytes@.drop_last() =~= self.key@);
                lemma_hex_last(bytes@);
                assert(bytes@.last() == 1);
                assert(hex_of(bytes@) == hex_of(self.key@) + seq![
                    crate::hex::hex_digit(bytes@.last() / 16),
                    crate::hex::hex_digit(bytes@.last() % 16),
                ]);
                assert(r@.subrange(64, 66) == seq!['0', '1']);
                assert(r@ =~= hex_of(self.key@) + seq!['0', '1']);
            } else {
                assert(bytes@ =~= self.key@);
            }
        }
        r
    }
}

/// Whether bytes read as a secret key: 32 bytes, or 33 whose last is the marker 1, whose
/// first 32 are a secret key.
pub open spec fn private_key_bytes_ok(data: Seq<u8>) -> bool {
    (data.len() == 32 || (data.len() == 33 && data[32] == 1)) && seckey_valid(data.subrange(0, 32))
}

/// The hexadecimal text of `n` bytes has `2 n` digits.
proof fn lemma_hex_len(bytes: Seq<u8>)
    ensures
        hex_of(bytes).len() == 2 * bytes.len(),
    decreases bytes.len(),
{
    if bytes.len() > 0 {
        lemma_hex_len(bytes.drop_last());
    }
}

/// The last two digits of the hexadecimal text of bytes spell the last byte.
proof fn lemma_hex_last(bytes: Seq<u8>)
    requires
        bytes.len() > 0,
    ensures
        hex_of(bytes).subrange(2 * bytes.len() - 2, 2 * bytes.len() as int) == seq![
            crate::hex::hex_digit(bytes.last() / 16),
            crate::hex::hex_digit(bytes.last() % 16),
        ],
{
    lemma_hex_len(bytes.drop_last());
    let h = hex_of(bytes.drop_last());
    assert(hex_of(bytes) == h + seq![crate::hex::hex_digit(bytes.last() / 16), crate::hex::hex_digit(bytes.last() % 16)]);
    assert(hex_of(bytes).subrange(2 * bytes.len() - 2, 2 * bytes.len() as int) =~= seq![
        crate::hex::hex_digit(bytes.last() / 16),
        crate::hex::hex_digit(bytes.last() % 16),
    ]);
}

/// The compressed public key that signed the 32-byte hash `message_arr` with the
/// signature `serialized_signature_arr` (64 bytes, then the recovery id): the key that
/// `recovered_key` names.
pub fn secp256k1_recover(message_arr: &[u8], serialized_signature_arr: &[u8]) -> (r: Result<Vec<u8>, Secp256k1Error>)
    requires
        serialized_signature_arr@.len() >= 65,
    ensures
        message_arr@.len() != 32 ==> r == Err::<Vec<u8>, Secp256k1Error>(Secp256k1Error::InvalidMessage),
        message_arr@.len() == 32 && serialized_signature_arr@[64] > 3 ==> r == Err::<Vec<u8>, Secp256k1Error>(
            Secp256k1Error::InvalidRecoveryId,
        ),
        message_arr@.len() == 32 && serialized_signature_arr@[64] <= 3 && !compact_ok(
            serialized_signature_arr@.subrange(0, 64),
        ) ==> r == Err::<Vec<u8>, Secp256k1Error>(Secp256k1Error::InvalidSignature),
        message_arr@.len() == 32 && serialized_signature_arr@[64] <= 3 && compact_ok(
            serialized_signature_arr@.subrange(0, 64),
        ) ==> match recovered_key(message_arr@, serialized_signature_arr@.subrange(0, 64), serialized_signature_arr@[64] as i32) {
            None => r == Err::<Vec<u8>, Secp256k1Error>(Secp256k1Error::InvalidSignature),
            Some(k) => r matches Ok(v) && v@ == k && k.len() == 33,
        },
        compact_has_zero(serialized_signature_arr@.subrange(0, 64)) ==> r is Err,
{
    if message_arr.len() != 32 {
        return Err(Secp256k1Error::InvalidMessage);
    }
    let recid = serialized_signature_arr[64];
    if recid > 3 {
        return Err(Secp256k1Error::InvalidRecoveryId);
    }
    let compact = copy_part(serialized_signature_arr, 0, 64);
    if let Err(e) = lib_signature_from_compact(compact.as_slice()) {
        return Err(e);
    }
    match lib_recover(message_arr, compact.as_slice(), recid as i32) {
        Some(k) => Ok(k),
        None => Err(Secp256k1Error::InvalidSignature),
    }
}

/// Whether `serialized_signature_arr` (its first 64 bytes) is a signature of the 32-byte
/// hash `message_arr` by the serialized public key `pubkey_arr`: an invalid message, an
/// invalid signature, an invalid key, or, where all three read, whether the signature
/// checks (`ecdsa_verifies`).
pub fn secp256k1_verify(message_arr: &[u8], serialized_signature_arr: &[u8], pubkey_arr: &[u8]) -> (r: Result<(), Secp256k1Error>)
    requires
        serialized_signature_arr@.len() >= 64,
    ensures
        r == verify_outcome(message_arr@, serialized_signature_arr@.subrange(0, 64), pubkey_arr@),
        compact_has_zero(serialized_signature_arr@.subrange(0, 64)) ==> r is Err,
{
    if message_arr.len() != 32 {
        return Err(Secp256k1Error::InvalidMessage);
    }
    let compact = copy_part(serialized_signature_arr, 0, 64);
    if let Err(e) = lib_signature_from_compact(compact.as_slice()) {
        return Err(e);
    }
    if let Err(e) = lib_pubkey_from_slice(pubkey_arr) {
        return Err(e);
    }
    if lib_verify(message_arr, compact.as_slice(), pubkey_arr) {
        Ok(())
    } else {
        Err(Secp256k1Error::IncorrectSignature)
    }
}

/// What checking a signature gives.
pub open spec fn verify_outcome(msg: Seq<u8>, sig: Seq<u8>, pk: Seq<u8>) -> Result<(), Secp256k1Error> {
    if msg.len() != 32 {
        Err(Secp256k1Error::InvalidMessage)
    } else if !compact_ok(sig) {
        Err(Secp256k1Error::InvalidSignature)
    } else if !pubkey_parses(pk) {
        Err(Secp256k1Error::InvalidPublicKey)
    } else if ecdsa_verifies(msg, sig, pk) {
        Ok(())
    } else {
        Err(Secp256k1Error::IncorrectSignature)
    }
}

} // verus!
