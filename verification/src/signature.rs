//! Ed25519 key pairs, signatures over byte buffers, and their base64 text.

use vstd::prelude::*;

verus! {

/// Length of an Ed25519 secret key in bytes.
pub const SECRET_KEY_LENGTH: usize = 32;

/// Length of an Ed25519 public key in bytes.
pub const PUBLIC_KEY_LENGTH: usize = 32;

/// Length of an Ed25519 signature in bytes.
pub const SIGNATURE_LENGTH: usize = 64;

/// The public key that Ed25519 derives from a secret key.
pub uninterp spec fn ed25519_public_key(secret: Seq<u8>) -> Seq<u8>;

/// The Ed25519 signature of `message` under `secret` and the public key
/// derived from it.
pub uninterp spec fn ed25519_signature(secret: Seq<u8>, message: Seq<u8>) -> Seq<u8>;

/// Whether `public` is the encoding of a point of the curve.
pub uninterp spec fn ed25519_key_is_valid(public: Seq<u8>) -> bool;

/// Whether Ed25519 verification under `public` accepts `signature` for
/// `message`.
pub uninterp spec fn ed25519_accepts(public: Seq<u8>, message: Seq<u8>, signature: Seq<u8>) -> bool;

/// The standard padded base64 text of `bytes`.
pub uninterp spec fn base64_text(bytes: Seq<u8>) -> Seq<u8>;

/// The bytes that standard padded base64 `text` stands for, if it is valid.
pub uninterp spec fn base64_bytes(text: Seq<u8>) -> Option<Seq<u8>>;

/// A letter, a digit, `+`, `/` or the padding sign `=`.
pub open spec fn is_base64_symbol(b: u8) -> bool {
    ||| 0x41 <= b <= 0x5a
    ||| 0x61 <= b <= 0x7a
    ||| 0x30 <= b <= 0x39
    ||| b == 0x2b
    ||| b == 0x2f
    ||| b == 0x3d
}

/// Length of the padded base64 text of `n` bytes.
pub open spec fn base64_length(n: nat) -> nat {
    4 * ((n + 2) / 3)
}

/// Draws a secret key from the operating system's random source with
/// `ed25519_dalek::Keypair::generate` and returns it with its public key.
/// The contract claims only what holds of every draw: the public half is the
/// one that Ed25519 derives from the secret half, and its bytes decode to a
/// key again.
#[verifier::external_body]
fn ed25519_generate() -> (pair: ([u8; 32], [u8; 32]))
    ensures
        pair.1@ == ed25519_public_key(pair.0@),
        ed25519_key_is_valid(pair.1@),
{
    let mut csprng = rand::rngs::OsRng {};
    let keypair = ed25519_dalek::Keypair::generate(&mut csprng);
    (keypair.secret.to_bytes(), keypair.public.to_bytes())
}

/// Derives the public key of a secret key with `ed25519_dalek::PublicKey::from`.
/// The contract names the result, and claims that its bytes decode to a key
/// again.
#[verifier::external_body]
fn ed25519_derive(secret: &[u8; 32]) -> (public: [u8; 32])
    ensures
        public@ == ed25519_public_key(secret@),
        ed25519_key_is_valid(public@),
{
    let secret = ed25519_dalek::SecretKey::from_bytes(secret).expect("a secret key has 32 bytes");
    ed25519_dalek::PublicKey::from(&secret).to_bytes()
}

/// Signs `message` with `ed25519_dalek::Keypair::sign`, under the key pair
/// that belongs to `secret`. The contract names the result and claims that
/// verification under the derived public key accepts it.
#[verifier::external_body]
fn ed25519_sign(secret: &[u8; 32], message: &[u8]) -> (signature: [u8; 64])
    ensures
        signature@ == ed25519_signature(secret@, message@),
        ed25519_accepts(ed25519_public_key(secret@), message@, signature@),
{
    let secret = ed25519_dalek::SecretKey::from_bytes(secret).expect("a secret key has 32 bytes");
    let public = ed25519_dalek::PublicKey::from(&secret);
    let keypair = ed25519_dalek::Keypair { secret, public };
    ed25519_dalek::Signer::sign(&keypair, message).to_bytes()
}

/// Decodes a public key with `ed25519_dalek::PublicKey::from_bytes`. The
/// contract names whether that succeeds, and claims that the key then holds
/// the bytes it was given.
#[verifier::external_body]
fn ed25519_decode_key(bytes: &[u8]) -> (key: Option<[u8; 32]>)
    ensures
        key is Some <==> ed25519_key_is_valid(bytes@),
        key matches Some(k) ==> k@ == bytes@,
{
    match ed25519_dalek::PublicKey::from_bytes(bytes) {
        Ok(public) => Some(public.to_bytes()),
        Err(_) => None,
    }
}

/// Verifies a signature with `ed25519_dalek::PublicKey::verify`, after
/// decoding the key with `PublicKey::from_bytes` and the signature with
/// `Signature::from_bytes`. The contract names the outcome: `true` when both
/// decode and verification returns `Ok`.
#[verifier::external_body]
fn ed25519_verify(public: &[u8; 32], message: &[u8], signature: &[u8]) -> (accepted: bool)
    ensures
        accepted == ed25519_accepts(public@, message@, signature@),
{
    match (
        ed25519_dalek::PublicKey::from_bytes(public),
        ed25519_dalek::Signature::from_bytes(signature),
    ) {
        (Ok(public), Ok(signature)) => {
            ed25519_dalek::Verifier::verify(&public, message, &signature).is_ok()
        },
        _ => false,
    }
}

/// Encodes bytes with `base64::Engine::encode` on the `STANDARD` engine. The
/// contract names the result and claims of it what the engine's alphabet and
/// padding give: its length, its symbols, and that decoding returns the
/// input. The input is short enough for the text's length to fit in `usize`.
#[verifier::external_body]
fn base64_encode(bytes: &[u8]) -> (text: Vec<u8>)
    requires
        base64_length(bytes@.len()) <= usize::MAX,
    ensures
        text@ == base64_text(bytes@),
        text@.len() == base64_length(bytes@.len()),
        forall|i: int| 0 <= i < text@.len() ==> is_base64_symbol(#[trigger] text@[i]),
        base64_bytes(text@) == Some(bytes@),
{
    base64::Engine::encode(&base64::engine::general_purpose::STANDARD, bytes).into_bytes()
}

/// Decodes text with `base64::Engine::decode` on the `STANDARD` engine. The
/// contract names the result: the bytes, or `None` where the engine reports
/// an error.
#[verifier::external_body]
fn base64_decode(text: &[u8]) -> (bytes: Option<Vec<u8>>)
    ensures
        bytes is Some <==> base64_bytes(text@) is Some,
        bytes matches Some(b) ==> base64_bytes(text@) == Some(b@),
{
    match base64::Engine::decode(&base64::engine::general_purpose::STANDARD, text) {
        Ok(bytes) => Some(bytes),
        Err(_) => None,
    }
}

/// Why a signature was not accepted.
#[derive(Clone, Copy, Debug, PartialEq, Eq, Structural)]
pub enum VerificationError {
    /// The signature text is not valid base64.
    InvalidEncoding,
    /// The decoded signature does not have `SIGNATURE_LENGTH` bytes.
    InvalidLength,
    /// The signature does not belong to the content under the given key.
    VerificationFailed,
}

impl VerificationError {
    /// A short description of the error.
    pub fn message(&self) -> (text: &'static str)
        ensures
            text@ == match *self {
                VerificationError::InvalidEncoding => "Invalid signature encoding"@,
                VerificationError::InvalidLength => "Invalid signature length"@,
                VerificationError::VerificationFailed => "Signature verification failed"@,
            },
    {
        match self {
            VerificationError::InvalidEncoding => "Invalid signature encoding",
            VerificationError::InvalidLength => "Invalid signature length",
            VerificationError::VerificationFailed => "Signature verification failed",
        }
    }
}

/// Why the text of a public key record was not accepted as a key.
#[derive(Clone, Copy, Debug, PartialEq, Eq, Structural)]
pub enum KeyError {
    /// The key text is not valid base64.
    InvalidEncoding,
    /// The decoded key does not have `PUBLIC_KEY_LENGTH` bytes.
    InvalidLength,
    /// The decoded bytes are not a point of the curve.
    InvalidPoint,
}

/// An Ed25519 public key: 32 bytes, as they stand in an archive.
#[derive(Clone, Copy, Debug, PartialEq, Eq)]
pub struct PublicKey {
    bytes: [u8; 32],
}

impl View for PublicKey {
    type V = Seq<u8>;

    closed spec fn view(&self) -> Seq<u8> {
        self.bytes@
    }
}

/// What decoding key bytes gives: the key with those bytes, or the reason
/// for which they are no key.
pub open spec fn key_bytes_outcome(bytes: Seq<u8>) -> Result<Seq<u8>, KeyError> {
    if bytes.len() != PUBLIC_KEY_LENGTH {
        Err(KeyError::InvalidLength)
    } else if !ed25519_key_is_valid(bytes) {
        Err(KeyError::InvalidPoint)
    } else {
        Ok(bytes)
    }
}

/// What decoding the base64 text of a key gives.
pub open spec fn key_text_outcome(text: Seq<u8>) -> Result<Seq<u8>, KeyError> {
    match base64_bytes(text) {
        None => Err(KeyError::InvalidEncoding),
        Some(bytes) => key_bytes_outcome(bytes),
    }
}

impl PublicKey {
    /// Accepts `bytes` as a public key if they are 32 bytes that encode a
    /// point of the curve.
    pub fn from_bytes(bytes: &[u8]) -> (key: Result<PublicKey, KeyError>)
        ensures
            key matches Ok(k) ==> key_bytes_outcome(bytes@) == Ok::<Seq<u8>, KeyError>(k@),
            key matches Err(e) ==> key_bytes_outcome(bytes@) == Err::<Seq<u8>, KeyError>(e),
    {
        if bytes.len() != PUBLIC_KEY_LENGTH {
            return Err(KeyError::InvalidLength);
        }
        match ed25519_decode_key(bytes) {
            Some(key) => Ok(PublicKey { bytes: key }),
            None => Err(KeyError::InvalidPoint),
        }
    }

    /// Decodes the base64 text of a key, as it stands in a key record.
    pub fn from_text(text: &[u8]) -> (key: Result<PublicKey, KeyError>)
        ensures
            key matches Ok(k) ==> key_text_outcome(text@) == Ok::<Seq<u8>, KeyError>(k@),
            key matches Err(e) ==> key_text_outcome(text@) == Err::<Seq<u8>, KeyError>(e),
    {
        match base64_decode(text) {
            None => Err(KeyError::InvalidEncoding),
            Some(bytes) => PublicKey::from_bytes(bytes.as_slice()),
        }
    }

    /// The 32 bytes of the key.
    pub fn to_bytes(&self) -> (bytes: [u8; 32])
        ensures
            bytes@ == self@,
    {
        self.bytes
    }

    /// The base64 text of the key, as it stands in a key record.
    pub fn to_text(&self) -> (text: Vec<u8>)
        ensures
            text@ == base64_text(self@),
            text@.len() == base64_length(PUBLIC_KEY_LENGTH as nat),
            forall|i: int| 0 <= i < text@.len() ==> is_base64_symbol(#[trigger] text@[i]),
            base64_bytes(text@) == Some(self@),
    {
        base64_encode(self.bytes.as_slice())
    }
}

/// An Ed25519 key pair. The public half is always the one that belongs to
/// the secret half.
pub struct KeyPair {
    secret: [u8; 32],
    public: [u8; 32],
}

impl KeyPair {
    #[verifier::type_invariant]
    closed spec fn halves_match(&self) -> bool {
        self.public@ == ed25519_public_key(self.secret@) && ed25519_key_is_valid(self.public@)
    }

    /// The secret half.
    pub closed spec fn secret(&self) -> Seq<u8> {
        self.secret@
    }

    /// The public half.
    pub closed spec fn public(&self) -> Seq<u8> {
        self.public@
    }

    /// Whether the public half belongs to the secret half and is a valid
    /// key. Every key pair that this library hands out is well formed.
    pub open spec fn wf(&self) -> bool {
        &&& self.secret().len() == SECRET_KEY_LENGTH
        &&& self.public().len() == PUBLIC_KEY_LENGTH
        &&& self.public() == ed25519_public_key(self.secret())
        &&& ed25519_key_is_valid(self.public())
    }

    /// The key pair of a given secret key.
    pub fn from_secret(secret: [u8; 32]) -> (keypair: KeyPair)
        ensures
            keypair.wf(),
            keypair.secret() == secret@,
    {
        let public = ed25519_derive(&secret);
        KeyPair { secret, public }
    }

    /// The public half as a key of its own.
    pub fn public_key(&self) -> (key: PublicKey)
        ensures
            self.wf(),
            key@ == self.public(),
    {
        proof {
            use_type_invariant(self);
        }
        PublicKey { bytes: self.public }
    }
}

/// Generates a fresh key pair from the operating system's random source.
pub fn generate_keypair() -> (keypair: KeyPair)
    ensures
        keypair.wf(),
{
    let (secret, public) = ed25519_generate();
    KeyPair { secret, public }
}

/// The verdict on a decoded signature.
pub open spec fn raw_signature_outcome(
    public: Seq<u8>,
    data: Seq<u8>,
    raw: Seq<u8>,
) -> Result<(), VerificationError> {
    if raw.len() != SIGNATURE_LENGTH {
        Err(VerificationError::InvalidLength)
    } else if ed25519_accepts(public, data, raw) {
        Ok(())
    } else {
        Err(VerificationError::VerificationFailed)
    }
}

/// The verdict on the base64 text of a signature.
pub open spec fn signature_outcome(
    public: Seq<u8>,
    data: Seq<u8>,
    text: Seq<u8>,
) -> Result<(), VerificationError> {
    match base64_bytes(text) {
        None => Err(VerificationError::InvalidEncoding),
        Some(raw) => raw_signature_outcome(public, data, raw),
    }
}

/// The text that `sign_data` returns for `data` under a key pair with the
/// given secret half.
pub open spec fn signature_text(secret: Seq<u8>, data: Seq<u8>) -> Seq<u8> {
    base64_text(ed25519_signature(secret, data))
}

/// Signs `data` and returns the signature as base64 text.
///
/// The signature covers exactly the bytes given. Verifying the text against
/// the same bytes under the pair's public key succeeds.
pub fn sign_data(keypair: &KeyPair, data: &[u8]) -> (text: Vec<u8>)
    ensures
        text@ == signature_text(keypair.secret(), data@),
        text@.len() == base64_length(SIGNATURE_LENGTH as nat),
        forall|i: int| 0 <= i < text@.len() ==> is_base64_symbol(#[trigger] text@[i]),
        signature_outcome(keypair.public(), data@, text@) == Ok::<(), VerificationError>(()),
{
    proof {
        use_type_invariant(keypair);
    }
    let raw = ed25519_sign(&keypair.secret, data);
    base64_encode(raw.as_slice())
}

/// Checks a decoded signature against `data` under `public_key`.
pub fn verify_raw_signature(public_key: &PublicKey, data: &[u8], raw: &[u8]) -> (outcome: Result<
    (),
    VerificationError,
>)
    ensures
        outcome == raw_signature_outcome(public_key@, data@, raw@),
{
    if raw.len() != SIGNATURE_LENGTH {
        return Err(VerificationError::InvalidLength);
    }
    if ed25519_verify(&public_key.bytes, data, raw) {
        Ok(())
    } else {
        Err(VerificationError::VerificationFailed)
    }
}

/// Checks the base64 text of a signature against `data` under `public_key`.
///
/// Fails with `InvalidEncoding` if the text is not valid base64, with
/// `InvalidLength` if it does not decode to `SIGNATURE_LENGTH` bytes, and
/// with `VerificationFailed` if the signature does not verify.
pub fn verify_signature(public_key: &PublicKey, data: &[u8], signature: &[u8]) -> (outcome: Result<
    (),
    VerificationError,
>)
    ensures
        outcome == signature_outcome(public_key@, data@, signature@),
{
    match base64_decode(signature) {
        None => Err(VerificationError::InvalidEncoding),
        Some(raw) => verify_raw_signature(public_key, data, raw.as_slice()),
    }
}

} // verus!
