//! The credential codec: a caller supplies an encrypted provider API key of
//! the shape `<hex-iv>:<hex-ciphertext>`, and the codec recovers the
//! plaintext key with the process-wide secret, or says exactly why it could
//! not.

use vstd::prelude::*;
use vstd::arithmetic::div_mod::lemma_fundamental_div_mod;
use vstd::slice::slice_subrange;
use vstd::string::{StringSliceAdditionalSpecFns, StrSliceExecFns, StringExecFns};
use vstd::utf8::{valid_utf8, decode_utf8, encode_utf8};
use crate::provider::CredentialError;

verus! {

pub const COLON: u8 = 58;

/// The most data the one-shot cipher calls accept: openssl's update step
/// takes the input length as a signed 32-bit count and panics beyond it.
pub const CIPHER_DATA_LIMIT: usize = 0x7fff_ffff;

pub open spec fn is_hex_byte(b: u8) -> bool {
    (48 <= b && b <= 57) || (97 <= b && b <= 102) || (65 <= b && b <= 70)
}

pub open spec fn hex_val(b: u8) -> u8
    recommends
        is_hex_byte(b),
{
    if 48 <= b && b <= 57 {
        (b - 48) as u8
    } else if 97 <= b && b <= 102 {
        (b - 87) as u8
    } else {
        (b - 55) as u8
    }
}

/// A byte string that `hex` accepts: an even number of hex digits, either
/// case.
pub open spec fn is_hex_bytes(s: Seq<u8>) -> bool {
    &&& s.len() % 2 == 0
    &&& forall|i: int| 0 <= i < s.len() ==> is_hex_byte(#[trigger] s[i])
}

pub open spec fn hex_decode_of(s: Seq<u8>) -> Seq<u8> {
    Seq::new((s.len() / 2) as nat, |i: int| (hex_val(s[2 * i]) * 16 + hex_val(s[2 * i + 1])) as u8)
}

pub open spec fn hi_nibble(v: u8) -> u8 {
    v / 16
}

pub open spec fn lo_nibble(v: u8) -> u8 {
    v % 16
}

/// The lowercase digit for one nibble.
pub open spec fn hex_digit_of(v: u8) -> u8
    recommends
        v < 16,
{
    if v < 10 {
        (48 + v) as u8
    } else {
        (87 + v) as u8
    }
}

pub open spec fn hex_encode_of(b: Seq<u8>) -> Seq<u8> {
    Seq::new(2 * b.len(), |i: int|
        if i % 2 == 0 {
            hex_digit_of(hi_nibble(b[i / 2]))
        } else {
            hex_digit_of(lo_nibble(b[i / 2]))
        })
}

/// Hex encoding loses nothing: the encoded form is itself valid hex and
/// decodes back to the original bytes.
pub proof fn lemma_hex_round_trip(b: Seq<u8>)
    ensures
        is_hex_bytes(hex_encode_of(b)),
        hex_decode_of(hex_encode_of(b)) == b,
{
    let e = hex_encode_of(b);
    assert forall|i: int| 0 <= i < e.len() implies is_hex_byte(#[trigger] e[i]) by {
        assert(hi_nibble(b[i / 2]) < 16);
        assert(lo_nibble(b[i / 2]) < 16);
    }
    assert forall|i: int| 0 <= i < b.len() implies hex_decode_of(e)[i] == b[i] by {
        assert((2 * i) / 2 == i);
        assert((2 * i + 1) / 2 == i);
        assert(e[2 * i] == hex_digit_of(hi_nibble(b[i])));
        assert(e[2 * i + 1] == hex_digit_of(lo_nibble(b[i])));
        assert(hex_val(hex_digit_of(hi_nibble(b[i]))) == hi_nibble(b[i]));
        assert(hex_val(hex_digit_of(lo_nibble(b[i]))) == lo_nibble(b[i]));
        lemma_fundamental_div_mod(b[i] as int, 16);
    }
    assert(hex_decode_of(e) =~= b);
}

/// Hex digits are never a colon, so hex halves cannot confuse the split.
pub proof fn lemma_hex_has_no_colon(s: Seq<u8>)
    requires
        is_hex_bytes(s),
    ensures
        forall|i: int| 0 <= i < s.len() ==> s[i] != COLON,
{
}

/// `i` is the one and only colon position in `s`.
pub open spec fn is_the_colon(s: Seq<u8>, i: int) -> bool {
    &&& 0 <= i < s.len()
    &&& s[i] == COLON
    &&& forall|j: int| 0 <= j < s.len() && s[j] == COLON ==> j == i
}

pub open spec fn has_single_colon(s: Seq<u8>) -> bool {
    exists|i: int| is_the_colon(s, i)
}

pub open spec fn colon_index(s: Seq<u8>) -> int {
    choose|i: int| is_the_colon(s, i)
}

/// What the cipher makes of one decryption attempt: `None` on a padding or
/// parameter mismatch, otherwise the plaintext bytes. Uninterpreted: the
/// block cipher itself is the outside crate's work.
pub uninterp spec fn cbc_decrypt_of(key: Seq<u8>, iv: Seq<u8>, data: Seq<u8>) -> Option<Seq<u8>>;

/// The ciphertext the cipher produces from key, iv and plaintext.
pub uninterp spec fn cbc_encrypt_of(key: Seq<u8>, iv: Seq<u8>, data: Seq<u8>) -> Seq<u8>;

/// Relies on hex::decode: it succeeds exactly on an even number of hex
/// digits (either case accepted) and returns the bytes they denote.
#[verifier::external_body]
fn hex_decode(s: &[u8]) -> (r: Option<Vec<u8>>)
    ensures
        r is Some <==> is_hex_bytes(s@),
        r matches Some(v) ==> v@ == hex_decode_of(s@),
{
    hex::decode(s).ok()
}

/// Relies on hex::encode: two lowercase hex digits for each input byte.
#[verifier::external_body]
fn hex_encode(b: &[u8]) -> (r: String)
    ensures
        encode_utf8(r@) == hex_encode_of(b@),
{
    hex::encode(b)
}

/// Relies on openssl::symm::decrypt with Cipher::aes_256_cbc: one-shot CBC
/// decryption with PKCS padding, an error on a bad key or iv length or a
/// padding mismatch. The outcome depends only on key, iv and data. The
/// one-shot interface panics past the signed 32-bit data length, so that
/// much is required away.
#[verifier::external_body]
fn cbc_decrypt(key: &[u8], iv: &[u8], data: &[u8]) -> (r: Option<Vec<u8>>)
    requires
        data@.len() <= CIPHER_DATA_LIMIT,
    ensures
        r matches Some(v) ==> cbc_decrypt_of(key@, iv@, data@) == Some(v@),
        r is None ==> cbc_decrypt_of(key@, iv@, data@) is None,
{
    openssl::symm::decrypt(openssl::symm::Cipher::aes_256_cbc(), key, Some(iv), data).ok()
}

/// Relies on openssl::symm::encrypt with Cipher::aes_256_cbc: deterministic
/// CBC encryption with PKCS padding, which openssl::symm::decrypt with the
/// same key and iv inverts; with a 32-byte key and a 16-byte iv the call
/// cannot fail. The one-shot interface panics past the signed 32-bit data
/// length, so that much is required away.
#[verifier::external_body]
fn cbc_encrypt(key: &[u8], iv: &[u8], data: &[u8]) -> (r: Option<Vec<u8>>)
    requires
        data@.len() <= CIPHER_DATA_LIMIT,
    ensures
        r matches Some(v) ==> v@ == cbc_encrypt_of(key@, iv@, data@)
            && cbc_decrypt_of(key@, iv@, v@) == Some(data@),
        key@.len() == 32 && iv@.len() == 16 ==> r is Some,
{
    openssl::symm::encrypt(openssl::symm::Cipher::aes_256_cbc(), key, Some(iv), data).ok()
}

/// Relies on String::from_utf8: it accepts exactly the valid UTF-8 byte
/// sequences and returns the characters they encode.
#[verifier::external_body]
fn bytes_to_string(v: Vec<u8>) -> (r: Option<String>)
    ensures
        r matches Some(s) ==> valid_utf8(v@) && s@ == decode_utf8(v@),
        r is None ==> !valid_utf8(v@),
{
    String::from_utf8(v).ok()
}

/// The whole codec as one function of the credential's bytes and the
/// secret's bytes: split on the single colon, hex-decode both halves,
/// decrypt, and read the plaintext as UTF-8.
pub open spec fn spec_decrypt(cred: Seq<u8>, key: Seq<u8>) -> Result<Seq<char>, CredentialError> {
    if !has_single_colon(cred) {
        Err(CredentialError::MalformedCredential)
    } else {
        let at = colon_index(cred);
        let iv_hex = cred.take(at);
        let ct_hex = cred.skip(at + 1);
        if !is_hex_bytes(iv_hex) || !is_hex_bytes(ct_hex) {
            Err(CredentialError::MalformedCredential)
        } else {
            match cbc_decrypt_of(key, hex_decode_of(iv_hex), hex_decode_of(ct_hex)) {
                Some(pt) => {
                    if valid_utf8(pt) {
                        Ok(decode_utf8(pt))
                    } else {
                        Err(CredentialError::DecryptionFailure)
                    }
                },
                None => Err(CredentialError::DecryptionFailure),
            }
        }
    }
}

/// Decrypts a caller credential with the process-wide secret. Pure: no
/// retries, no side effects; a bad credential is the client's error. The
/// credential must fit the cipher's one-shot size limit — the machine
/// bound, not a rule of the codec.
pub fn decrypt_credential(encrypted: &str, secret: &str) -> (r: Result<String, CredentialError>)
    requires
        encrypted.spec_bytes().len() <= CIPHER_DATA_LIMIT,
    ensures
        match spec_decrypt(encrypted.spec_bytes(), secret.spec_bytes()) {
            Ok(p) => r matches Ok(k) && k@ == p,
            Err(e) => r matches Err(e2) && e2 == e,
        },
{
    let ebv: Vec<u8> = encrypted.as_bytes_vec();
    let eb: &[u8] = ebv.as_slice();
    let n: usize = eb.len();
    let mut i: usize = 0;
    let mut found: Option<usize> = None;
    while i < n
        invariant
            eb@ == encrypted.spec_bytes(),
            n == eb@.len(),
            i <= n,
            match found {
                Option::None => forall|j: int| 0 <= j < i ==> eb@[j] != COLON,
                Option::Some(k) => k < i && eb@[k as int] == COLON
                    && (forall|j: int| 0 <= j < i && j != k ==> eb@[j] != COLON),
            },
        decreases n - i,
    {
        if eb[i] == COLON {
            match found {
                Some(k) => {
                    proof {
                        if has_single_colon(eb@) {
                            let w = choose|w: int| is_the_colon(eb@, w);
                            assert(w == k as int && w == i as int);
                        }
                        assert(!has_single_colon(eb@));
                    }
                    return Err(CredentialError::MalformedCredential);
                },
                None => {
                    found = Some(i);
                },
            }
        }
        i += 1;
    }
    let at: usize = match found {
        Some(k) => k,
        None => {
            proof {
                assert(!has_single_colon(eb@)) by {
                    if has_single_colon(eb@) {
                        let w = choose|w: int| is_the_colon(eb@, w);
                    }
                }
            }
            return Err(CredentialError::MalformedCredential);
        },
    };
    proof {
        assert(is_the_colon(eb@, at as int));
        assert(colon_index(eb@) == at as int) by {
            let c = colon_index(eb@);
            assert(is_the_colon(eb@, c));
        }
    }
    let iv_hex: &[u8] = slice_subrange(eb, 0, at);
    let ct_hex: &[u8] = slice_subrange(eb, at + 1, n);
    proof {
        assert(iv_hex@ =~= eb@.take(at as int));
        assert(ct_hex@ =~= eb@.skip(at as int + 1));
    }
    let iv = match hex_decode(iv_hex) {
        Some(v) => v,
        None => {
            return Err(CredentialError::MalformedCredential);
        },
    };
    let ct = match hex_decode(ct_hex) {
        Some(v) => v,
        None => {
            return Err(CredentialError::MalformedCredential);
        },
    };
    let sb: Vec<u8> = secret.as_bytes_vec();
    proof {
        assert(ct@.len() <= eb@.len());
    }
    let pt = match cbc_decrypt(sb.as_slice(), iv.as_slice(), ct.as_slice()) {
        Some(v) => v,
        None => {
            return Err(CredentialError::DecryptionFailure);
        },
    };
    match bytes_to_string(pt) {
        Some(s) => Ok(s),
        None => Err(CredentialError::DecryptionFailure),
    }
}

/// UTF-8 encoding of a concatenation is the concatenation of the encodings.
pub proof fn lemma_encode_utf8_concat(a: Seq<char>, b: Seq<char>)
    ensures
        encode_utf8(a + b) == encode_utf8(a) + encode_utf8(b),
    decreases a.len(),
{
    if a.len() == 0 {
        assert(a + b =~= b);
        assert(encode_utf8(a) =~= Seq::<u8>::empty());
        assert(encode_utf8(a) + encode_utf8(b) =~= encode_utf8(b));
    } else {
        assert((a + b).len() > 0);
        assert((a + b)[0] == a[0]);
        assert((a + b).drop_first() =~= a.drop_first() + b);
        lemma_encode_utf8_concat(a.drop_first(), b);
        assert(encode_utf8(a + b) =~= encode_utf8(a) + encode_utf8(b));
    }
}

/// Builds the `<hex-iv>:<hex-ciphertext>` credential for `plaintext` under
/// `secret`, with `iv` as the initialization vector. `None` only when the
/// cipher refuses the parameters: with a 32-byte secret, a 16-byte iv and a
/// plaintext within the cipher's one-shot size limit, a credential is owed.
/// Whatever credential comes back decrypts to exactly the plaintext that
/// went in: the round trip of the codec.
pub fn encrypt_credential(plaintext: &str, iv: &[u8], secret: &str) -> (r: Option<String>)
    ensures
        r matches Some(c) ==> spec_decrypt(encode_utf8(c@), secret.spec_bytes())
            == Ok::<Seq<char>, CredentialError>(plaintext@),
        (encode_utf8(secret@).len() == 32 && iv@.len() == 16 && encode_utf8(plaintext@).len()
            <= CIPHER_DATA_LIMIT) ==> r is Some,
{
    let sb: Vec<u8> = secret.as_bytes_vec();
    let pb: Vec<u8> = plaintext.as_bytes_vec();
    if pb.len() > CIPHER_DATA_LIMIT {
        return None;
    }
    let ct = match cbc_encrypt(sb.as_slice(), iv, pb.as_slice()) {
        Some(v) => v,
        None => {
            return None;
        },
    };
    let iv_hex = hex_encode(iv);
    let ct_hex = hex_encode(ct.as_slice());
    let mut cred = iv_hex;
    cred.append(":");
    cred.append(ct_hex.as_str());
    proof {
        let a = hex_encode_of(iv@);
        let b = hex_encode_of(ct@);
        reveal_strlit(":");
        vstd::utf8::is_ascii_chars_encode_utf8(":"@);
        assert(encode_utf8(":"@) =~= seq![COLON]);
        lemma_encode_utf8_concat(iv_hex@ + ":"@, ct_hex@);
        lemma_encode_utf8_concat(iv_hex@, ":"@);
        let cb = encode_utf8(cred@);
        assert(cb =~= a + seq![COLON] + b);
        lemma_hex_round_trip(iv@);
        lemma_hex_round_trip(ct@);
        lemma_hex_has_no_colon(a);
        lemma_hex_has_no_colon(b);
        assert(is_the_colon(cb, a.len() as int)) by {
            assert(cb[a.len() as int] == COLON);
            assert forall|j: int| 0 <= j < cb.len() && cb[j] == COLON implies j == a.len() as int by {
                if j < a.len() {
                    assert(cb[j] == a[j]);
                }
                if j > a.len() {
                    assert(cb[j] == b[j - a.len() - 1]);
                }
            }
        }
        assert(colon_index(cb) == a.len() as int) by {
            let c = colon_index(cb);
            assert(is_the_colon(cb, c));
        }
        assert(cb.take(a.len() as int) =~= a);
        assert(cb.skip(a.len() as int + 1) =~= b);
        vstd::utf8::encode_utf8_valid_utf8(plaintext@);
        vstd::utf8::encode_utf8_decode_utf8(plaintext@);
    }
    Some(cred)
}

} // verus!
