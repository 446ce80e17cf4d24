//! Encryption of payloads between nodes, and its negotiation.
use vstd::prelude::*;
use vstd::string::*;

use aes_gcm_siv::aead::{Aead, AeadCore, KeyInit};
use aes_gcm_siv::Aes256GcmSiv;

use crate::error::{owned, EncryptionError};
#[allow(unused_imports)]
use crate::text::{decimal, push_decimal};

verus! {

/// Length in bytes of a nonce.
pub const NONCE_LEN: usize = 12;

/// Length in bytes of an authentication tag.
pub const TAG_LEN: usize = 16;

/// By how much encryption makes a payload longer.
pub const AES_256_GCM_SIV_CIPHERTEXT_EXPANSION: usize = 28;

/// Longest text that can be encrypted.
pub const PLAINTEXT_MAX: u64 = 0x10_0000_0000;

/// The error of the cipher. It says nothing but that something went wrong.
#[verifier::external_type_specification]
#[verifier::external_body]
pub struct ExCipherError(aes_gcm_siv::Error);

/// What `Aead::encrypt` of `Aes256GcmSiv` gives for a key, a nonce and a text.
pub uninterp spec fn aes_sealed(key: Seq<u8>, nonce: Seq<u8>, plain: Seq<u8>) -> Seq<u8>;

/// What `Aead::decrypt` of `Aes256GcmSiv` gives for a key, a nonce and an encrypted text, where it
/// accepts the tag.
pub uninterp spec fn aes_opened(key: Seq<u8>, nonce: Seq<u8>, sealed: Seq<u8>) -> Option<Seq<u8>>;

/// Calls `Aead::encrypt` of `Aes256GcmSiv` without associated data. It refuses only texts that are
/// too long, appends a tag of sixteen bytes, and its result is what `Aead::decrypt` opens to the
/// same text under the same key and nonce. The counter of the key stream wraps, so that a text of
/// the greatest length, which takes every value of the counter, is encrypted like any other.
#[verifier::external_body]
fn aes_encrypt(key: &[u8; 32], nonce: &[u8; 12], plain: &Vec<u8>) -> (r: Result<
    Vec<u8>,
    aes_gcm_siv::Error,
>)
    ensures
        r is Ok <==> plain@.len() <= PLAINTEXT_MAX,
        r matches Ok(c) ==> c@ == aes_sealed(key@, nonce@, plain@),
        r matches Ok(c) ==> c@.len() == plain@.len() + TAG_LEN,
        r matches Ok(c) ==> aes_opened(key@, nonce@, c@) == Some(plain@),
{
    Aes256GcmSiv::new(key.into()).encrypt(nonce.into(), plain.as_slice())
}

/// Calls `Aead::decrypt` of `Aes256GcmSiv` without associated data. It refuses whatever is shorter
/// than a tag, and takes the tag off what it accepts.
#[verifier::external_body]
fn aes_decrypt(key: &[u8; 32], nonce: &[u8; 12], sealed: &Vec<u8>) -> (r: Result<
    Vec<u8>,
    aes_gcm_siv::Error,
>)
    ensures
        match r {
            Ok(p) => aes_opened(key@, nonce@, sealed@) == Some(p@) && p@.len() + TAG_LEN
                == sealed@.len(),
            Err(_) => aes_opened(key@, nonce@, sealed@) is None,
        },
{
    Aes256GcmSiv::new(key.into()).decrypt(nonce.into(), sealed.as_slice())
}

/// Calls `AeadCore::generate_nonce` of `Aes256GcmSiv` with the generator of the running thread,
/// `rand::thread_rng`. The bytes are random, so nothing is known of them but their number.
#[verifier::external_body]
fn generate_nonce() -> (r: [u8; 12]) {
    Aes256GcmSiv::generate_nonce(&mut rand::thread_rng()).into()
}

/// Text of the error of the cipher, as its `Display` gives it. It is the same for every error.
#[verifier::external_body]
fn cipher_error_text(e: &aes_gcm_siv::Error) -> (r: String)
    ensures
        r@ == "aead::Error"@,
{
    e.to_string()
}

/// Kinds of encryption that can be negotiated.
#[derive(Clone, Copy, Debug, PartialEq, Eq, Structural)]
pub enum EncryptionType {
    Aes256GcmSiv,
}

impl EncryptionType {
    pub open spec fn name(self) -> Seq<char> {
        match self {
            EncryptionType::Aes256GcmSiv => "Aes256GcmSiv"@,
        }
    }

    /// Name under which the kind is negotiated.
    pub fn as_str(&self) -> (r: &'static str)
        ensures
            r@ == self.name(),
    {
        match self {
            EncryptionType::Aes256GcmSiv => "Aes256GcmSiv",
        }
    }
}

/// Whether payloads are encrypted at all, and whether peers that can't do so are refused.
#[derive(Clone, Copy, Debug, PartialEq, Eq, Structural)]
pub struct EncryptionFeatures {
    pub enabled: bool,
    pub strict: bool,
}

/// Encryption of the payloads of a session.
pub trait Encryption {
    /// Whether payloads are really encrypted.
    spec fn active(&self) -> bool;

    /// What a payload is decrypted to, if it is accepted.
    spec fn opens(&self, packet: Seq<u8>) -> Option<Seq<u8>>;

    /// Why a payload is not accepted.
    spec fn refusal(&self, packet: Seq<u8>) -> Seq<char>;

    /// Whether payloads of a length can be encrypted.
    spec fn seals(&self, len: nat) -> bool;

    /// Encrypts a payload. Decrypting the result gives the payload back.
    fn encrypt(&self, packet: Vec<u8>) -> (r: Result<Vec<u8>, EncryptionError>)
        ensures
            r is Ok <==> self.seals(packet@.len()),
            r matches Ok(c) ==> self.opens(c@) == Some(packet@),
    ;

    /// Decrypts a payload.
    fn decrypt(&self, packet: Vec<u8>) -> (r: Result<Vec<u8>, EncryptionError>)
        ensures
            match r {
                Ok(p) => self.opens(packet@) == Some(p@),
                Err(e) => self.opens(packet@) is None && e.text() == self.refusal(packet@),
            },
    ;

    /// Whether payloads are really encrypted.
    fn encryption_flag(&self) -> (r: bool)
        ensures
            r == self.active(),
    ;
}

/// Leaves payloads as they are.
#[derive(Clone, Copy, Debug, PartialEq, Eq, Structural)]
pub struct NullEncryption {}

impl Encryption for NullEncryption {
    open spec fn active(&self) -> bool {
        false
    }

    open spec fn opens(&self, packet: Seq<u8>) -> Option<Seq<u8>> {
        Some(packet)
    }

    open spec fn refusal(&self, packet: Seq<u8>) -> Seq<char> {
        Seq::empty()
    }

    open spec fn seals(&self, len: nat) -> bool {
        true
    }

    fn encrypt(&self, packet: Vec<u8>) -> (r: Result<Vec<u8>, EncryptionError>)
        ensures
            r == Ok::<Vec<u8>, EncryptionError>(packet),
    {
        Ok(packet)
    }

    fn decrypt(&self, packet: Vec<u8>) -> (r: Result<Vec<u8>, EncryptionError>)
        ensures
            r == Ok::<Vec<u8>, EncryptionError>(packet),
    {
        Ok(packet)
    }

    fn encryption_flag(&self) -> (r: bool) {
        false
    }
}

/// Encrypts payloads under a secret that both nodes share. A fresh nonce stands in front of each
/// encrypted payload.
#[derive(Clone, Copy)]
pub struct Aes256GcmSivEncryption {
    key: [u8; 32],
}

/// What a payload with its nonce in front is decrypted to.
pub open spec fn frame_opened(key: Seq<u8>, packet: Seq<u8>) -> Option<Seq<u8>> {
    if packet.len() < AES_256_GCM_SIV_CIPHERTEXT_EXPANSION {
        None
    } else {
        aes_opened(key, packet.take(NONCE_LEN as int), packet.skip(NONCE_LEN as int))
    }
}

impl Aes256GcmSivEncryption {
    /// The shared secret.
    pub closed spec fn secret(&self) -> Seq<u8> {
        self.key@
    }

    /// Encryption under a shared secret.
    pub fn new(shared_secret: [u8; 32]) -> (r: Self)
        ensures
            r.secret() == shared_secret@,
    {
        Aes256GcmSivEncryption { key: shared_secret }
    }

    /// Encrypts a payload with a given nonce, which is put in front of the result.
    pub fn encrypt_with_nonce(&self, nonce: [u8; 12], packet: Vec<u8>) -> (r: Result<
        Vec<u8>,
        EncryptionError,
    >)
        ensures
            match r {
                Ok(c) => packet@.len() <= PLAINTEXT_MAX && c@ == nonce@ + aes_sealed(
                    self.secret(),
                    nonce@,
                    packet@,
                ) && c@.len() == packet@.len() + AES_256_GCM_SIV_CIPHERTEXT_EXPANSION
                    && frame_opened(self.secret(), c@) == Some(packet@),
                Err(e) => packet@.len() > PLAINTEXT_MAX && e.text() == "aead::Error"@,
            },
    {
        match aes_encrypt(&self.key, &nonce, &packet) {
            Err(e) => Err(EncryptionError::Generic(cipher_error_text(&e))),
            Ok(sealed) => {
                let mut framed: Vec<u8> = Vec::new();
                let mut i: usize = 0;
                while i < 12
                    invariant
                        0 <= i <= 12,
                        framed@ == nonce@.take(i as int),
                    decreases 12 - i,
                {
                    framed.push(nonce[i]);
                    i += 1;
                    assert(framed@ =~= nonce@.take(i as int));
                }
                assert(nonce@.take(12) =~= nonce@);
                let mut j: usize = 0;
                while j < sealed.len()
                    invariant
                        0 <= j <= sealed@.len(),
                        framed@ == nonce@ + sealed@.take(j as int),
                    decreases sealed@.len() - j,
                {
                    framed.push(sealed[j]);
                    j += 1;
                    assert(framed@ =~= nonce@ + sealed@.take(j as int));
                }
                assert(sealed@.take(j as int) =~= sealed@);
                proof {
                    assert(framed@.take(12) =~= nonce@);
                    assert(framed@.skip(12) =~= sealed@);
                }
                Ok(framed)
            },
        }
    }
}

impl Encryption for Aes256GcmSivEncryption {
    open spec fn active(&self) -> bool {
        true
    }

    open spec fn opens(&self, packet: Seq<u8>) -> Option<Seq<u8>> {
        frame_opened(self.secret(), packet)
    }

    open spec fn refusal(&self, packet: Seq<u8>) -> Seq<char> {
        if packet.len() < AES_256_GCM_SIV_CIPHERTEXT_EXPANSION {
            "Encrypted payload is too short: expected at least 28 bytes, got "@ + decimal(
                packet.len(),
            )
        } else {
            "aead::Error"@
        }
    }

    open spec fn seals(&self, len: nat) -> bool {
        len <= PLAINTEXT_MAX
    }

    fn encrypt(&self, packet: Vec<u8>) -> (r: Result<Vec<u8>, EncryptionError>)
        ensures
            match r {
                Ok(c) => c@.len() == packet@.len() + AES_256_GCM_SIV_CIPHERTEXT_EXPANSION && c@.skip(
                    NONCE_LEN as int,
                ) == aes_sealed(self.secret(), c@.take(NONCE_LEN as int), packet@),
                Err(e) => e.text() == "aead::Error"@,
            },
    {
        let nonce = generate_nonce();
        let r = self.encrypt_with_nonce(nonce, packet);
        proof {
            if let Ok(ref c) = r {
                assert(c@.take(12) =~= nonce@);
                assert(c@.skip(12) =~= aes_sealed(self.secret(), nonce@, packet@));
            }
        }
        r
    }

    fn decrypt(&self, packet: Vec<u8>) -> (r: Result<Vec<u8>, EncryptionError>)
        ensures
            r matches Ok(p) ==> p@.len() + AES_256_GCM_SIV_CIPHERTEXT_EXPANSION == packet@.len(),
    {
        if packet.len() < AES_256_GCM_SIV_CIPHERTEXT_EXPANSION {
            let mut m = owned(
                "Encrypted payload is too short: expected at least 28 bytes, got ",
            );
            push_decimal(&mut m, packet.len() as u128);
            return Err(EncryptionError::Generic(m));
        }
        let mut nonce: [u8; 12] = [0u8; 12];
        let mut i: usize = 0;
        while i < 12
            invariant
                0 <= i <= 12,
                12 <= packet@.len(),
                nonce@.len() == 12,
                forall|k: int| 0 <= k < i ==> nonce@[k] == packet@[k],
            decreases 12 - i,
        {
            nonce[i] = packet[i];
            i += 1;
        }
        let mut sealed: Vec<u8> = Vec::new();
        let mut j: usize = 12;
        while j < packet.len()
            invariant
                12 <= j <= packet@.len(),
                sealed@ == packet@.subrange(12, j as int),
            decreases packet@.len() - j,
        {
            sealed.push(packet[j]);
            j += 1;
            assert(sealed@ =~= packet@.subrange(12, j as int));
        }
        proof {
            assert(nonce@ =~= packet@.take(12));
            assert(sealed@ =~= packet@.skip(12));
        }
        match aes_decrypt(&self.key, &nonce, &sealed) {
            Ok(p) => Ok(p),
            Err(e) => Err(EncryptionError::Generic(cipher_error_text(&e))),
        }
    }

    fn encryption_flag(&self) -> (r: bool) {
        true
    }
}

/// Encryption that was agreed on for a session.
#[derive(Clone, Copy)]
pub enum SessionEncryption {
    Plain(NullEncryption),
    Aes256GcmSiv(Aes256GcmSivEncryption),
}

impl Encryption for SessionEncryption {
    open spec fn active(&self) -> bool {
        match self {
            SessionEncryption::Plain(e) => e.active(),
            SessionEncryption::Aes256GcmSiv(e) => e.active(),
        }
    }

    open spec fn opens(&self, packet: Seq<u8>) -> Option<Seq<u8>> {
        match self {
            SessionEncryption::Plain(e) => e.opens(packet),
            SessionEncryption::Aes256GcmSiv(e) => e.opens(packet),
        }
    }

    open spec fn refusal(&self, packet: Seq<u8>) -> Seq<char> {
        match self {
            SessionEncryption::Plain(e) => e.refusal(packet),
            SessionEncryption::Aes256GcmSiv(e) => e.refusal(packet),
        }
    }

    open spec fn seals(&self, len: nat) -> bool {
        match self {
            SessionEncryption::Plain(e) => e.seals(len),
            SessionEncryption::Aes256GcmSiv(e) => e.seals(len),
        }
    }

    fn encrypt(&self, packet: Vec<u8>) -> (r: Result<Vec<u8>, EncryptionError>)
        ensures
            r matches Err(e) ==> e.text() == "aead::Error"@,
    {
        match self {
            SessionEncryption::Plain(e) => e.encrypt(packet),
            SessionEncryption::Aes256GcmSiv(e) => e.encrypt(packet),
        }
    }

    fn decrypt(&self, packet: Vec<u8>) -> (r: Result<Vec<u8>, EncryptionError>) {
        match self {
            SessionEncryption::Plain(e) => e.decrypt(packet),
            SessionEncryption::Aes256GcmSiv(e) => e.decrypt(packet),
        }
    }

    fn encryption_flag(&self) -> (r: bool) {
        match self {
            SessionEncryption::Plain(e) => e.encryption_flag(),
            SessionEncryption::Aes256GcmSiv(e) => e.encryption_flag(),
        }
    }
}

/// Whether a kind of encryption is named in a list.
pub open spec fn names_type(supported: Seq<String>, kind: EncryptionType) -> bool {
    exists|i: int| 0 <= i < supported.len() && (#[trigger] supported[i])@ == kind.name()
}

/// Whether encryption is agreed on: it must be enabled here, and the other party must have sent a
/// key and support the kind of encryption.
pub open spec fn negotiated(
    features: EncryptionFeatures,
    supported: Seq<String>,
    secret: Option<[u8; 32]>,
) -> bool {
    features.enabled && secret is Some && names_type(supported, EncryptionType::Aes256GcmSiv)
}

/// The encryption that comes of an agreement, or of there being none.
pub open spec fn agreed(
    features: EncryptionFeatures,
    supported: Seq<String>,
    secret: Option<[u8; 32]>,
    encryption: SessionEncryption,
) -> bool {
    if negotiated(features, supported, secret) {
        encryption matches SessionEncryption::Aes256GcmSiv(e) && e.secret() == secret->Some_0@
    } else {
        !features.strict && encryption is Plain
    }
}

/// Agrees on the encryption of a session. `secret` is what this node shares with the other party,
/// if that sent a key. Without an agreement payloads are left as they are, unless encryption is
/// required.
pub fn new(
    features: EncryptionFeatures,
    supported_encryption: &Vec<String>,
    secret: Option<[u8; 32]>,
) -> (r: Result<SessionEncryption, EncryptionError>)
    ensures
        match r {
            Ok(encryption) => agreed(features, supported_encryption@, secret, encryption),
            Err(e) => features.strict && !negotiated(features, supported_encryption@, secret)
                && e.text() == "Peer does not support required session encryption"@,
        },
{
    let encryption = match secret {
        Some(secret) if features.enabled => {
            if supports(supported_encryption, EncryptionType::Aes256GcmSiv) {
                SessionEncryption::Aes256GcmSiv(Aes256GcmSivEncryption::new(secret))
            } else {
                SessionEncryption::Plain(NullEncryption {  })
            }
        },
        _ => SessionEncryption::Plain(NullEncryption {  }),
    };
    enforce_encryption_policy(features, encryption)
}

fn supports(supported: &Vec<String>, kind: EncryptionType) -> (r: bool)
    ensures
        r == names_type(supported@, kind),
{
    let name = owned(kind.as_str());
    let mut i: usize = 0;
    while i < supported.len()
        invariant
            0 <= i <= supported@.len(),
            name@ == kind.name(),
            forall|j: int| 0 <= j < i ==> (#[trigger] supported@[j])@ != kind.name(),
        decreases supported@.len() - i,
    {
        if supported[i] == name {
            return true;
        }
        i += 1;
    }
    false
}

/// Refuses to go without encryption where it is required.
pub fn enforce_encryption_policy(
    features: EncryptionFeatures,
    encryption: SessionEncryption,
) -> (r: Result<SessionEncryption, EncryptionError>)
    ensures
        if features.strict && !encryption.active() {
            r matches Err(e) && e.text() == "Peer does not support required session encryption"@
        } else {
            r == Ok::<SessionEncryption, EncryptionError>(encryption)
        },
{
    if features.strict && !encryption.encryption_flag() {
        return Err(
            EncryptionError::Generic(owned("Peer does not support required session encryption")),
        );
    }
    Ok(encryption)
}

/// Kinds of encryption that this node offers.
pub fn supported_encryptions(features: EncryptionFeatures) -> (r: Vec<String>)
    ensures
        if features.enabled {
            r@.len() == 1 && r@[0]@ == "Aes256GcmSiv"@
        } else {
            r@.len() == 0
        },
{
    let mut r: Vec<String> = Vec::new();
    if features.enabled {
        r.push(owned(EncryptionType::Aes256GcmSiv.as_str()));
    }
    r
}

/// Two nodes that both offer encryption and share a secret agree on it.
pub proof fn lemma_offer_is_accepted(
    features: EncryptionFeatures,
    offer: Seq<String>,
    secret: Option<[u8; 32]>,
)
    requires
        features.enabled,
        offer.len() == 1,
        offer[0]@ == "Aes256GcmSiv"@,
        secret is Some,
    ensures
        negotiated(features, offer, secret),
{
    assert(offer[0]@ == EncryptionType::Aes256GcmSiv.name());
}

/// What two nodes agreed on with the same secret opens the same payloads, to the same texts.
pub proof fn lemma_shared_secret_opens_alike(
    features: EncryptionFeatures,
    supported: Seq<String>,
    other_features: EncryptionFeatures,
    other_supported: Seq<String>,
    secret: [u8; 32],
    here: SessionEncryption,
    there: SessionEncryption,
    packet: Seq<u8>,
)
    requires
        agreed(features, supported, Some(secret), here),
        agreed(other_features, other_supported, Some(secret), there),
        here.active() == there.active(),
    ensures
        here.opens(packet) == there.opens(packet),
{
}

/// A payload that is shorter than a nonce and a tag is never accepted.
pub proof fn lemma_truncated_payloads_are_refused(e: Aes256GcmSivEncryption, packet: Seq<u8>)
    requires
        packet.len() < AES_256_GCM_SIV_CIPHERTEXT_EXPANSION,
    ensures
        e.opens(packet) is None,
{
}

} // verus!
