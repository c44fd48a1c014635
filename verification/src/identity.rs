//! Nostr identities: a secp256k1 secret key and an optional name.

use nostr::ToBech32;
use vstd::prelude::*;

use crate::codec::{
    hex_decode_spec, hex_encode, hex_encode_spec, is_hex, lemma_hex_roundtrip, lemma_trim_hex, trim,
    trim_spec,
};
use crate::{lemma_starts_with_concat, starts_with, Error};

verus! {

/// The order of the secp256k1 group.
pub open spec fn curve_order() -> int {
    0xFFFFFFFFFFFFFFFFFFFFFFFFFFFFFFFEBAAEDCE6AF48A03BBFD25E8CD0364141int
}

/// The big-endian value of a byte string.
pub open spec fn be_value(b: Seq<u8>) -> int
    decreases b.len(),
{
    if b.len() == 0 {
        0
    } else {
        be_value(b.drop_last()) * 256 + b.last()
    }
}

/// A usable secp256k1 secret key: 32 bytes whose value lies in `1..n`.
pub open spec fn valid_secret(k: Seq<u8>) -> bool {
    &&& k.len() == 32
    &&& 0 < be_value(k) < curve_order()
}

/// The x-only public key (32 bytes) of a secret key.
pub uninterp spec fn public_key_of(secret: Seq<u8>) -> Seq<u8>;

/// The bech32 `nsec` text of a secret key.
pub uninterp spec fn nsec_encode(secret: Seq<u8>) -> Seq<char>;

/// The bech32 `npub` text of a public key.
pub uninterp spec fn npub_encode(public_key: Seq<u8>) -> Seq<char>;

/// The secret key that a bech32 `nsec` text carries, if it carries one.
pub uninterp spec fn nsec_decode(s: Seq<char>) -> Option<Seq<u8>>;

/// Exactly 64 hex digits: the hex form of a 32-byte secret.
pub open spec fn is_hex_secret(s: Seq<char>) -> bool {
    s.len() == 64 && is_hex(s)
}

/// What parsing a secret-key text yields: the hex form is tried first and
/// accepted when it names a valid key; any other text is read as an `nsec`.
pub open spec fn secret_parse(s: Seq<char>) -> Option<Seq<u8>> {
    if is_hex_secret(s) {
        if valid_secret(hex_decode_spec(s)) {
            Some(hex_decode_spec(s))
        } else {
            None
        }
    } else {
        nsec_decode(s)
    }
}

/// The message of the identity error for an unreadable secret key.
pub open spec fn invalid_secret_message() -> Seq<char> {
    "invalid secret key: Invalid secret key"@
}

pub open spec fn opt_array_view(o: Option<[u8; 32]>) -> Option<Seq<u8>> {
    match o {
        Some(a) => Some(a@),
        None => None,
    }
}

pub open spec fn opt_string_view(o: Option<String>) -> Option<Seq<char>> {
    match o {
        Some(s) => Some(s@),
        None => None,
    }
}

/// `nostr::Keys`.
#[verifier::external_type_specification]
#[verifier::external_body]
pub struct ExKeys(nostr::Keys);

/// `nostr::Keys::generate`, keeping the secret key's bytes: a fresh random
/// key, of which only its validity is known.
#[verifier::external_body]
fn generate_secret() -> (k: [u8; 32])
    ensures
        valid_secret(k@),
{
    nostr::Keys::generate().secret_key().to_secret_bytes()
}

/// `nostr::Keys::parse`, keeping the secret key's bytes. The source tries
/// `SecretKey::from_hex` (64 hex digits that name a key in `1..n`) and then
/// `SecretKey::from_bech32`; what the latter accepts is named `nsec_decode`.
#[verifier::external_body]
fn parse_secret(s: &str) -> (r: Option<[u8; 32]>)
    ensures
        is_hex_secret(s@) ==> (r is Some <==> valid_secret(hex_decode_spec(s@))),
        is_hex_secret(s@) ==> (r matches Some(k) ==> k@ == hex_decode_spec(s@)),
        !is_hex_secret(s@) ==> opt_array_view(r) == nsec_decode(s@),
        r matches Some(k) ==> valid_secret(k@),
{
    match nostr::Keys::parse(s) {
        Ok(keys) => Some(keys.secret_key().to_secret_bytes()),
        Err(_) => None,
    }
}

/// `Keys::new(..).public_key()` for a secret key given as bytes.
#[verifier::external_body]
fn derive_public_key(k: &[u8; 32]) -> (pk: [u8; 32])
    requires
        valid_secret(k@),
    ensures
        pk@ == public_key_of(k@),
{
    nostr::Keys::new(nostr::SecretKey::from_slice(k).expect("valid secret key")).public_key().to_bytes()
}

/// `SecretKey::to_bech32` (the `nsec` text), for a secret key given as bytes.
#[verifier::external_body]
fn encode_nsec(k: &[u8; 32]) -> (s: String)
    requires
        valid_secret(k@),
    ensures
        s@ == nsec_encode(k@),
{
    nostr::SecretKey::from_slice(k).expect("valid secret key").to_bech32().unwrap_or_default()
}

/// `PublicKey::to_bech32` (the `npub` text), for a public key given as bytes.
#[verifier::external_body]
pub(crate) fn encode_npub(pk: &[u8; 32]) -> (s: String)
    ensures
        s@ == npub_encode(pk@),
{
    nostr::PublicKey::from_byte_array(*pk).to_bech32().unwrap_or_default()
}

/// `Keys::new` for a secret key given as bytes.
#[verifier::external_body]
fn keys_from_secret(k: &[u8; 32]) -> (keys: nostr::Keys)
    requires
        valid_secret(k@),
{
    nostr::Keys::new(nostr::SecretKey::from_slice(k).expect("valid secret key"))
}

/// The public key that `nostr::PublicKey::parse` reads from a text (hex, an
/// `npub`, or a `nostr:` URI), if it reads one.
pub uninterp spec fn account_of(text: Seq<char>) -> Option<Seq<u8>>;

/// `nostr::PublicKey::parse`, the key as bytes; on failure the parser's
/// message.
#[verifier::external_body]
fn parse_public_key(text: &str) -> (r: Result<[u8; 32], String>)
    ensures
        r is Ok <==> account_of(text@) is Some,
        r matches Ok(k) ==> account_of(text@) == Some(k@),
{
    match nostr::PublicKey::parse(text) {
        Ok(pk) => Ok(pk.to_bytes()),
        Err(e) => Err(e.to_string()),
    }
}

/// Read an account (a public key given as an `npub` or in hex), refusing
/// text that names none.
pub fn parse_account(text: &str) -> (r: Result<[u8; 32], Error>)
    ensures
        r is Ok <==> account_of(text@) is Some,
        r matches Ok(k) ==> account_of(text@) == Some(k@),
        r matches Err(e) ==> (e matches Error::Identity(m) && starts_with(
            m@,
            "Invalid npub '"@ + text@ + "': "@,
        )),
{
    match parse_public_key(text) {
        Ok(k) => Ok(k),
        Err(detail) => {
            let mut m = String::from_str("Invalid npub '");
            m.append(text);
            m.append("': ");
            let ghost head = m@;
            m.append(detail.as_str());
            proof {
                lemma_starts_with_concat(head, detail@);
            }
            Err(Error::Identity(m))
        },
    }
}

/// A Nostr identity used by the agent.
#[derive(Debug)]
pub struct Identity {
    secret: [u8; 32],
    name: Option<String>,
}

/// What an identity is: its secret key's bytes and its name.
pub struct IdentityView {
    pub secret: Seq<u8>,
    pub name: Option<Seq<char>>,
}

impl View for Identity {
    type V = IdentityView;

    closed spec fn view(&self) -> IdentityView {
        IdentityView { secret: self.secret@, name: opt_string_view(self.name) }
    }
}

impl Identity {
    #[verifier::type_invariant]
    spec fn inv(self) -> bool {
        valid_secret(self.secret@)
    }

    /// Generate a brand-new random identity.
    pub fn generate() -> (id: Identity)
        ensures
            valid_secret(id@.secret),
            id@.name is None,
    {
        let secret = generate_secret();
        Identity { secret, name: None }
    }

    /// Generate a named identity.
    pub fn generate_named(name: String) -> (id: Identity)
        ensures
            valid_secret(id@.secret),
            id@.name == Some(name@),
    {
        let secret = generate_secret();
        Identity { secret, name: Some(name) }
    }

    /// Load from a secret key given as 64 hex digits or as an `nsec`.
    pub fn from_secret_hex(hex_str: &str) -> (r: Result<Identity, Error>)
        ensures
            r is Ok <==> secret_parse(hex_str@) is Some,
            r matches Ok(id) ==> Some(id@.secret) == secret_parse(hex_str@) && id@.name is None,
            r matches Err(e) ==> e matches Error::Identity(m) && m@ == invalid_secret_message(),
    {
        match parse_secret(hex_str) {
            Some(secret) => Ok(Identity { secret, name: None }),
            None => Err(Error::Identity(String::from_str("invalid secret key: Invalid secret key"))),
        }
    }

    /// The text of the secret-key file: the secret key in lower-case hex.
    pub fn secret_file_contents(&self) -> (s: String)
        ensures
            s@ == hex_encode_spec(self@.secret),
    {
        hex_encode(&self.secret)
    }

    /// Read an identity back from the text of its secret-key file
    /// (surrounding whitespace is ignored).
    pub fn from_secret_file(contents: &str) -> (r: Result<Identity, Error>)
        ensures
            r is Ok <==> secret_parse(trim_spec(contents@)) is Some,
            r matches Ok(id) ==> Some(id@.secret) == secret_parse(trim_spec(contents@))
                && id@.name is None,
            r matches Err(e) ==> e matches Error::Identity(m) && m@ == invalid_secret_message(),
    {
        Identity::from_secret_hex(trim(contents))
    }

    /// The identity's name, if it has one.
    pub fn name(&self) -> (r: &Option<String>)
        ensures
            opt_string_view(*r) == self@.name,
    {
        &self.name
    }

    /// Give the identity a name (or none).
    pub fn set_name(&mut self, name: Option<String>)
        ensures
            final(self)@.secret == old(self)@.secret,
            final(self)@.name == opt_string_view(name),
    {
        proof {
            use_type_invariant(&*self);
        }
        self.name = name;
    }

    /// The x-only public key.
    pub fn public_key(&self) -> (pk: [u8; 32])
        ensures
            pk@ == public_key_of(self@.secret),
    {
        proof {
            use_type_invariant(self);
        }
        derive_public_key(&self.secret)
    }

    /// The public key in lower-case hex.
    pub fn public_key_hex(&self) -> (s: String)
        ensures
            s@ == hex_encode_spec(public_key_of(self@.secret)),
    {
        let pk = self.public_key();
        hex_encode(&pk)
    }

    /// The secret key as an `nsec`.
    pub fn nsec(&self) -> (s: String)
        ensures
            s@ == nsec_encode(self@.secret),
    {
        proof {
            use_type_invariant(self);
        }
        encode_nsec(&self.secret)
    }

    /// The public key as an `npub`.
    pub fn npub(&self) -> (s: String)
        ensures
            s@ == npub_encode(public_key_of(self@.secret)),
    {
        let pk = self.public_key();
        encode_npub(&pk)
    }

    /// The key pair, for signing and encryption.
    pub fn keys(&self) -> nostr::Keys {
        proof {
            use_type_invariant(self);
        }
        keys_from_secret(&self.secret)
    }
}

impl Clone for Identity {
    fn clone(&self) -> (c: Identity)
        ensures
            c@ == self@,
    {
        proof {
            use_type_invariant(self);
        }
        let name = match &self.name {
            Some(n) => Some(n.clone()),
            None => None,
        };
        Identity { secret: self.secret, name }
    }
}

/// Saving an identity's secret-key file and loading it back gives an identity
/// with the same secret key: the text that `secret_file_contents` writes,
/// read with any surrounding whitespace, parses to the key it was written of.
pub proof fn law_identity_file_roundtrip(secret: Seq<u8>)
    requires
        valid_secret(secret),
    ensures
        secret_parse(trim_spec(hex_encode_spec(secret))) == Some(secret),
{
    lemma_trim_hex(secret);
    lemma_hex_roundtrip(secret);
}

} // verus!
