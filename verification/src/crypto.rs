use vstd::prelude::*;

use crate::error::Error;

verus! {

// Passphrase-based authenticated encryption of opaque byte payloads.  The
// work is done by the age crate: a memory-hard scrypt derivation of the
// passphrase followed by authenticated stream encryption, with a fresh salt
// and nonce for every call.  Both wrappers pin their scrypt work factors to
// fixed constants — encryption writes stanzas with work factor 12, and
// decryption accepts stanzas up to work factor 22 — so that the outcome of
// decryption never depends on the machine or the moment: age's default
// picks these bounds by timing the current machine, which would make the
// same ciphertext open on one run and fail on another.

/// What age's passphrase decryption, capped at scrypt work factor 22,
/// yields on the given bytes: `Some(plaintext)` when the bytes form a
/// well-formed age file whose scrypt stanza is within that cap and opens
/// under `pass`, `None` otherwise.  With the cap fixed, decryption reads
/// only its two arguments, so this is a function of them.
pub uninterp spec fn decryption_of(ciphertext: Seq<u8>, pass: Seq<char>) -> Option<Seq<u8>>;

/// `ciphertext` is an encryption of `plaintext` under exactly the passphrase
/// `pass`: it opens under `pass`, and the authentication check rejects every
/// other passphrase.
pub open spec fn is_ciphertext_of(ciphertext: Seq<u8>, plaintext: Seq<u8>, pass: Seq<char>) -> bool {
    &&& decryption_of(ciphertext, pass) == Some(plaintext)
    &&& forall|other: Seq<char>| other != pass ==> decryption_of(ciphertext, other) is None
}

/// Relies on age's `scrypt::Recipient` (work factor pinned to 12, below
/// the decryption cap of 22) with `Encryptor::with_recipients` and
/// `StreamWriter`: the produced file decrypts to the written plaintext
/// under the same passphrase, and its authenticated scrypt stanza rejects
/// every other passphrase.
#[verifier::external_body]
fn age_encrypt(plaintext: &[u8], passphrase: &str) -> (r: Result<Vec<u8>, String>)
    ensures
        r matches Ok(ct) ==> is_ciphertext_of(ct@, plaintext@, passphrase@),
{
    let pass = age::secrecy::SecretString::from(passphrase.to_owned());
    let mut recipient = age::scrypt::Recipient::new(pass);
    recipient.set_work_factor(12);
    let encryptor = age::Encryptor::with_recipients(
        std::iter::once(&recipient as &dyn age::Recipient),
    ).map_err(|e| e.to_string())?;
    let mut encrypted = vec![];
    let mut writer = encryptor.wrap_output(&mut encrypted).map_err(|e| e.to_string())?;
    std::io::Write::write_all(&mut writer, plaintext).map_err(|e| e.to_string())?;
    writer.finish().map_err(|e| e.to_string())?;
    Ok(encrypted)
}

/// Relies on age's `Decryptor` with an scrypt identity whose accepted work
/// factor is pinned to 22 (not age's default, which times the current
/// machine): decryption is then a function of the ciphertext and the
/// passphrase alone, succeeding with the original plaintext exactly when
/// the file's stanza is within the cap and opens under the passphrase.
#[verifier::external_body]
fn age_decrypt(ciphertext: &[u8], passphrase: &str) -> (r: Result<Vec<u8>, String>)
    ensures
        match r {
            Ok(pt) => decryption_of(ciphertext@, passphrase@) == Some(pt@),
            Err(_) => decryption_of(ciphertext@, passphrase@) is None,
        },
{
    let pass = age::secrecy::SecretString::from(passphrase.to_owned());
    let mut id = age::scrypt::Identity::new(pass);
    id.set_max_work_factor(22);
    let decryptor = age::Decryptor::new(ciphertext).map_err(|e| e.to_string())?;
    let mut reader = decryptor
        .decrypt(std::iter::once(&id as &dyn age::Identity))
        .map_err(|e| e.to_string())?;
    let mut decrypted = vec![];
    std::io::Read::read_to_end(&mut reader, &mut decrypted).map_err(|e| e.to_string())?;
    Ok(decrypted)
}

/// Encrypt `plaintext` under `passphrase`.  A fresh random salt and nonce are
/// drawn for every call, so two encryptions of one plaintext differ; what the
/// contract pins down is that the result decrypts to `plaintext` under
/// `passphrase` and under nothing else.
pub fn encrypt(plaintext: &[u8], passphrase: &str) -> (r: Result<Vec<u8>, Error>)
    ensures
        r matches Ok(ct) ==> is_ciphertext_of(ct@, plaintext@, passphrase@),
        r matches Err(e) ==> e is Encryption,
{
    match age_encrypt(plaintext, passphrase) {
        Ok(ct) => Ok(ct),
        Err(msg) => Err(Error::Encryption(msg)),
    }
}

/// Decrypt `ciphertext` under `passphrase`.  Succeeds with the plaintext
/// exactly when the ciphertext opens under this passphrase; a wrong
/// passphrase or corrupt bytes give a `Decryption` error, never a value.
pub fn decrypt(ciphertext: &[u8], passphrase: &str) -> (r: Result<Vec<u8>, Error>)
    ensures
        match r {
            Ok(pt) => decryption_of(ciphertext@, passphrase@) == Some(pt@),
            Err(e) => decryption_of(ciphertext@, passphrase@) is None && e is Decryption,
        },
{
    match age_decrypt(ciphertext, passphrase) {
        Ok(pt) => Ok(pt),
        Err(msg) => Err(Error::Decryption(msg)),
    }
}

/// Round trip: a ciphertext produced for `plaintext` under `pass` decrypts
/// to that plaintext under `pass`, and fails to decrypt under every other
/// passphrase.  Together with the exact contract of [`decrypt`], this pins
/// the behaviour of decrypt-after-encrypt for all plaintexts and passphrase
/// pairs.
pub proof fn lemma_round_trip(
    ciphertext: Seq<u8>,
    plaintext: Seq<u8>,
    pass: Seq<char>,
    other: Seq<char>,
)
    requires
        is_ciphertext_of(ciphertext, plaintext, pass),
    ensures
        decryption_of(ciphertext, pass) == Some(plaintext),
        other != pass ==> decryption_of(ciphertext, other) is None,
{
}

} // verus!
