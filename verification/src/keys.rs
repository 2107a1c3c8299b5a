//! The signing key of a commitment and the address that it signs for.

use vstd::prelude::*;
use crate::encoding::{hex_bytes, hex_decode, is_hex};

verus! {

/// `secp256k1::Error`, carried as an opaque value.
#[verifier::external_type_specification]
#[verifier::external_body]
pub struct ExSecpError(secp256k1::Error);

/// Whether `secp256k1::SecretKey::from_slice` accepts `key` as a secret key.
pub uninterp spec fn secret_key_accepted(key: Seq<u8>) -> bool;

/// The address that `web3::signing::Key::address` gives for the secret key
/// with the bytes `key`.
pub uninterp spec fn signer_address_of(key: Seq<u8>) -> Seq<u8>;

/// Calls `secp256k1::SecretKey::from_slice` and, on the key that it returns,
/// `web3::signing::Key::address` through `web3::signing::SecretKeyRef::new`.
/// Trusted: the call fails exactly where `from_slice` refuses the bytes, which
/// it does for every length but 32; otherwise the result is the 20 bytes of
/// the address, which depend on the key's bytes alone.
#[verifier::external_body]
fn address_of_key(key: &[u8]) -> (out: Result<[u8; 20], secp256k1::Error>)
    ensures
        out.is_ok() == secret_key_accepted(key@),
        out.is_ok() ==> key@.len() == 32,
        out matches Ok(address) ==> address@ == signer_address_of(key@),
{
    let secret = secp256k1::SecretKey::from_slice(key)?;
    let signer = web3::signing::SecretKeyRef::new(&secret);
    Ok(web3::signing::Key::address(&signer).0)
}

/// Why key material was refused.
#[derive(Debug, Clone, Copy, PartialEq, Eq, Structural)]
pub enum KeyError {
    /// The text is not an even number of hexadecimal digits.
    MalformedHex,
    /// The bytes are no secret key of the curve.
    InvalidSecretKey,
}

/// A signing key together with the address that it signs for.
#[derive(Clone)]
pub struct Signer {
    key: Vec<u8>,
    address: [u8; 20],
}

impl Signer {
    /// The bytes of the secret key.
    pub closed spec fn key_bytes(&self) -> Seq<u8> {
        self.key@
    }

    /// The address.
    pub closed spec fn address_value(&self) -> [u8; 20] {
        self.address
    }

    /// The bytes of the address.
    pub open spec fn address_bytes(&self) -> Seq<u8> {
        self.address_value()@
    }

    /// A signer from a key and the address that was derived from it.
    pub fn from_parts(key: Vec<u8>, address: [u8; 20]) -> (out: Signer)
        ensures
            out.key_bytes() == key@,
            out.address_value() == address,
    {
        Signer { key, address }
    }

    /// The secret key's bytes, for signing.
    pub fn key(&self) -> (out: &[u8])
        ensures
            out@ == self.key_bytes(),
    {
        self.key.as_slice()
    }

    /// The address: the recipient of the anchoring transaction.
    pub fn address(&self) -> (out: [u8; 20])
        ensures
            out == self.address_value(),
    {
        self.address
    }
}

/// Reads a hex-encoded secret key and resolves the address that it signs
/// for. Text that is not hexadecimal and bytes that are no secret key are
/// refused, each with its own error.
pub fn resolve_signer(key_hex: &str) -> (out: Result<Signer, KeyError>)
    ensures
        !is_hex(key_hex@) ==> out == Err::<Signer, KeyError>(KeyError::MalformedHex),
        is_hex(key_hex@) && !secret_key_accepted(hex_bytes(key_hex@)) ==> out == Err::<
            Signer,
            KeyError,
        >(KeyError::InvalidSecretKey),
        is_hex(key_hex@) && secret_key_accepted(hex_bytes(key_hex@)) ==> (out matches Ok(signer)
            && signer.key_bytes() == hex_bytes(key_hex@) && signer.key_bytes().len() == 32
            && signer.address_bytes() == signer_address_of(hex_bytes(key_hex@))),
{
    let key = match hex_decode(key_hex) {
        Ok(bytes) => bytes,
        Err(_) => {
            return Err(KeyError::MalformedHex);
        },
    };
    match address_of_key(key.as_slice()) {
        Ok(address) => Ok(Signer::from_parts(key, address)),
        Err(_) => Err(KeyError::InvalidSecretKey),
    }
}

} // verus!
