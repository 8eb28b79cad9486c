//! Handling of encrypted key material: the hex transport encoding is
//! decoded and validated here; the at-rest encryption itself is an
//! external collaborator and stays outside the library.

use vstd::prelude::*;

verus! {

/// Why an encrypted input could not be prepared for decryption.
#[derive(Clone, Copy, PartialEq, Eq, Structural, Debug)]
pub enum DecryptError {
    /// The ciphertext is not valid hex.
    InvalidCiphertextEncoding,
    /// The decryptor the collaborator produced is of the wrong kind:
    /// passphrase-based material was expected.
    WrongDecryptorKind,
    /// The collaborator could not decrypt the material.
    DecryptionFailed,
}

/// Whether the character is a hex digit.
pub open spec fn is_hex_digit(c: char) -> bool {
    ('0' <= c && c <= '9') || ('a' <= c && c <= 'f') || ('A' <= c && c <= 'F')
}

/// The value of a hex digit.
pub open spec fn hex_val(c: char) -> int {
    if '0' <= c && c <= '9' {
        c as int - '0' as int
    } else if 'a' <= c && c <= 'f' {
        10 + c as int - 'a' as int
    } else {
        10 + c as int - 'A' as int
    }
}

/// Whether the string is a well-formed hex encoding: even length, hex
/// digits throughout.
pub open spec fn is_hex(s: Seq<char>) -> bool {
    s.len() % 2 == 0 && forall|i: int| 0 <= i < s.len() ==> is_hex_digit(#[trigger] s[i])
}

/// The bytes a well-formed hex string encodes.
pub open spec fn hex_bytes(s: Seq<char>) -> Seq<u8> {
    Seq::new(s.len() / 2, |i: int| (hex_val(s[2 * i]) * 16 + hex_val(s[2 * i + 1])) as u8)
}

/// The value of a hex digit character.
fn hex_digit_val(c: char) -> (r: Option<u8>)
    ensures
        match r {
            Some(v) => is_hex_digit(c) && v == hex_val(c),
            None => !is_hex_digit(c),
        },
{
    let x = c as u32;
    if c >= '0' && c <= '9' {
        Some((x - '0' as u32) as u8)
    } else if c >= 'a' && c <= 'f' {
        Some((10 + x - 'a' as u32) as u8)
    } else if c >= 'A' && c <= 'F' {
        Some((10 + x - 'A' as u32) as u8)
    } else {
        None
    }
}

/// Decodes a hex string to bytes; fails exactly on an odd length or a
/// character that is no hex digit.
pub fn hex_decode(s: &str) -> (r: Option<Vec<u8>>)
    ensures
        match r {
            Some(v) => is_hex(s@) && v@ == hex_bytes(s@),
            None => !is_hex(s@),
        },
{
    let n = s.unicode_len();
    if n % 2 != 0 {
        return None;
    }
    let mut out: Vec<u8> = Vec::new();
    let mut i: usize = 0;
    while i < n
        invariant
            i <= n,
            i % 2 == 0,
            n % 2 == 0,
            n == s@.len(),
            forall|j: int| 0 <= j < i ==> is_hex_digit(#[trigger] s@[j]),
            out@.len() == i / 2,
            forall|j: int|
                0 <= j < i / 2 ==> #[trigger] out@[j] == (hex_val(s@[2 * j]) * 16 + hex_val(
                    s@[2 * j + 1],
                )) as u8,
        decreases n - i,
    {
        let hi = match hex_digit_val(s.get_char(i)) {
            Some(v) => v,
            None => {
                return None;
            },
        };
        let lo = match hex_digit_val(s.get_char(i + 1)) {
            Some(v) => v,
            None => {
                return None;
            },
        };
        out.push(hi * 16 + lo);
        i = i + 2;
    }
    proof {
        assert(out@ =~= hex_bytes(s@));
    }
    Some(out)
}

/// Prepares an encrypted input for the at-rest decryption
/// collaborator: the hex transport encoding is stripped and the raw
/// ciphertext bytes handed back.  The decryption itself happens
/// outside the library.
pub fn decode_ciphertext(encrypted: &str) -> (r: Result<Vec<u8>, DecryptError>)
    ensures
        match r {
            Ok(v) => is_hex(encrypted@) && v@ == hex_bytes(encrypted@),
            Err(e) => e == DecryptError::InvalidCiphertextEncoding && !is_hex(encrypted@),
        },
{
    match hex_decode(encrypted) {
        Some(v) => Ok(v),
        None => Err(DecryptError::InvalidCiphertextEncoding),
    }
}

} // verus!
