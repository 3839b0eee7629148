//! Decryption of a block's ciphertext: each credential is tried in order until
//! one opens the vault.

use vstd::prelude::*;
use vstd::utf8::{decode_utf8, valid_utf8};

verus! {

#[verifier::external_type_specification]
#[verifier::external_body]
pub struct ExVaultError(ansible_vault::VaultError);

/// The bytes that decrypting the vault text `data` with `password` gives, or
/// `None` when decryption fails (not a vault, bad framing, wrong password).
pub uninterp spec fn vault_plaintext_of(data: Seq<char>, password: Seq<char>) -> Option<Seq<u8>>;

/// Relies on `ansible_vault::decrypt_vault`: its result depends on the vault
/// text and the password alone (the salt is part of the text).
#[verifier::external_body]
fn decrypt_vault_text(data: &str, password: &str) -> (r: Result<Vec<u8>, ansible_vault::VaultError>)
    ensures
        r is Ok <==> vault_plaintext_of(data@, password@) is Some,
        r matches Ok(b) ==> b@ == vault_plaintext_of(data@, password@)->Some_0,
{
    ansible_vault::decrypt_vault(data.as_bytes(), password)
}

/// Relies on `String::from_utf8`: it succeeds exactly on valid UTF-8 and then
/// holds the decoded characters.
#[verifier::external_body]
fn string_from_utf8(bytes: Vec<u8>) -> (r: Option<String>)
    ensures
        r is Some <==> valid_utf8(bytes@),
        r matches Some(s) ==> s@ == decode_utf8(bytes@),
{
    String::from_utf8(bytes).ok()
}

/// Why a block could not be decrypted.
#[derive(Clone, Copy, Debug, PartialEq, Eq, Structural)]
pub enum DecryptError {
    /// No credential opened the vault.
    DecryptionFailed,
    /// The decrypted bytes are not valid UTF-8.
    EncodingInvalid,
}

/// What the first credential, from index `k` on, that opens `data` gives.
pub open spec fn decryption_from(data: Seq<char>, creds: Seq<Seq<char>>, k: int) -> Option<Seq<u8>>
    decreases creds.len() - k,
{
    if k < 0 || k >= creds.len() {
        None
    } else if vault_plaintext_of(data, creds[k]) is Some {
        vault_plaintext_of(data, creds[k])
    } else {
        decryption_from(data, creds, k + 1)
    }
}

/// What the first credential that opens `data` gives, if any does.
pub open spec fn decryption(data: Seq<char>, creds: Seq<Seq<char>>) -> Option<Seq<u8>> {
    decryption_from(data, creds, 0)
}

/// The text of a decrypted block, given the bytes that decryption gave.
pub open spec fn plaintext_of(found: Option<Seq<u8>>) -> Result<Seq<char>, DecryptError> {
    match found {
        None => Err(DecryptError::DecryptionFailed),
        Some(b) => if valid_utf8(b) {
            Ok(decode_utf8(b))
        } else {
            Err(DecryptError::EncodingInvalid)
        },
    }
}

/// The text of `data` decrypted with the first credential that opens it.
pub open spec fn decrypted_text(data: Seq<char>, creds: Seq<Seq<char>>) -> Result<
    Seq<char>,
    DecryptError,
> {
    plaintext_of(decryption(data, creds))
}

/// Tries the credentials in order; the first one that opens the vault decides
/// the result, and no later one is tried.
pub fn decrypt_data(encrypted_data: &str, credentials: &Vec<String>) -> (r: Result<
    String,
    DecryptError,
>)
    ensures
        r matches Ok(s) ==> decrypted_text(encrypted_data@, credentials.deep_view()) == Ok::<
            Seq<char>,
            DecryptError,
        >(s@),
        r matches Err(e) ==> decrypted_text(encrypted_data@, credentials.deep_view()) == Err::<
            Seq<char>,
            DecryptError,
        >(e),
{
    let ghost cs = credentials.deep_view();
    let mut k: usize = 0;
    while k < credentials.len()
        invariant
            k <= credentials.len(),
            cs == credentials.deep_view(),
            decryption(encrypted_data@, cs) == decryption_from(encrypted_data@, cs, k as int),
        decreases credentials.len() - k,
    {
        assert(cs[k as int] == credentials[k as int]@);
        match decrypt_vault_text(encrypted_data, credentials[k].as_str()) {
            Ok(bytes) => {
                return decode_plaintext(bytes);
            },
            Err(_) => {},
        }
        k = k + 1;
    }
    Err(DecryptError::DecryptionFailed)
}

/// Reads decrypted bytes as text.
pub fn decode_plaintext(bytes: Vec<u8>) -> (r: Result<String, DecryptError>)
    ensures
        r matches Ok(s) ==> plaintext_of(Some(bytes@)) == Ok::<Seq<char>, DecryptError>(s@),
        r matches Err(e) ==> plaintext_of(Some(bytes@)) == Err::<Seq<char>, DecryptError>(e),
{
    match string_from_utf8(bytes) {
        Some(s) => Ok(s),
        None => Err(DecryptError::EncodingInvalid),
    }
}

/// Credential fallback: when the credentials before index `k` all fail on
/// `data` and the one at `k` opens it, decryption gives what that one gives.
pub proof fn lemma_fallback(data: Seq<char>, creds: Seq<Seq<char>>, k: int)
    requires
        0 <= k < creds.len(),
        forall|j: int| 0 <= j < k ==> vault_plaintext_of(data, #[trigger] creds[j]) is None,
        vault_plaintext_of(data, creds[k]) is Some,
    ensures
        decryption(data, creds) == vault_plaintext_of(data, creds[k]),
{
    lemma_fallback_from(data, creds, 0, k);
}

proof fn lemma_fallback_from(data: Seq<char>, creds: Seq<Seq<char>>, i: int, k: int)
    requires
        0 <= i <= k < creds.len(),
        forall|j: int| 0 <= j < k ==> vault_plaintext_of(data, #[trigger] creds[j]) is None,
        vault_plaintext_of(data, creds[k]) is Some,
    ensures
        decryption_from(data, creds, i) == vault_plaintext_of(data, creds[k]),
    decreases k - i,
{
    if i < k {
        lemma_fallback_from(data, creds, i + 1, k);
    }
}

} // verus!
