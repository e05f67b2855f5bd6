//! The server's self-signed certificate for "localhost".  Generating the
//! key pair draws on the system's random source, so nothing is promised
//! about the bytes that come out; what is fixed is the name the
//! certificate is issued for, that the certificate and the key handed on
//! are the ones generated together, and how failures are reported.
use rustls::pki_types::{CertificateDer, PrivateKeyDer};
use vstd::prelude::*;

verus! {

#[verifier::external_type_specification]
#[verifier::external_body]
pub struct ExCertificateDer<'a>(CertificateDer<'a>);

#[verifier::external_type_specification]
#[verifier::external_body]
pub struct ExPrivateKeyDer<'a>(PrivateKeyDer<'a>);

#[verifier::external_type_specification]
#[verifier::external_body]
pub struct ExRcgenError(rcgen::Error);

/// `rcgen::generate_simple_self_signed`: generates a fresh key pair and a
/// certificate for `subject_alt_names` signed with it, and hands back the
/// certificate's DER and the key's DER.  The key pair is an ECDSA P-256 key
/// (`KeyPair::generate`), serialised as the PKCS#8 document it was
/// generated as (`serialize_der`); such a document is a SEQUENCE holding a
/// version INTEGER followed by an AlgorithmIdentifier SEQUENCE, so its DER is
/// one that `private_key_accepts` admits.  That is all the contract claims:
/// the key and the certificate are random.
#[verifier::external_body]
fn generate_simple_self_signed(subject_alt_names: Vec<String>) -> (r: Result<
    (CertificateDer<'static>, Vec<u8>),
    rcgen::Error,
>)
    ensures
        r matches Ok((_, k)) ==> private_key_accepts(k@),
{
    match rcgen::generate_simple_self_signed(subject_alt_names) {
        Ok(rcgen::CertifiedKey { cert, signing_key }) => Ok(
            (cert.der().clone(), signing_key.serialize_der()),
        ),
        Err(e) => Err(e),
    }
}

/// Whether `PrivateKeyDer::try_from` recognises `der` as a private key: it
/// starts with a DER SEQUENCE tag and its length (one byte below 0x80, or
/// 0x80 + n followed by n bytes), and what follows the length starts with
/// a version INTEGER `02 01` that is either followed by one byte and a
/// SEQUENCE tag (PKCS#8), or is `02 01 00` (PKCS#1) or `02 01 01` (SEC1).
pub open spec fn private_key_accepts(der: Seq<u8>) -> bool {
    &&& der.len() >= 2
    &&& der[0] == 0x30
    &&& {
        let skip: int = if der[1] < 0x80 {
            2
        } else {
            2 + (der[1] - 0x80)
        };
        let rest = der.subrange(skip, der.len() as int);
        &&& skip <= der.len()
        &&& rest.len() >= 3
        &&& rest[0] == 0x02
        &&& rest[1] == 0x01
        &&& ((rest.len() >= 4 && rest[3] == 0x30) || rest[2] == 0x00 || rest[2] == 0x01)
    }
}

/// The DER bytes a private key holds: what `PrivateKeyDer::secret_der`
/// hands back for it.
pub uninterp spec fn private_key_der(k: PrivateKeyDer<'static>) -> Seq<u8>;

/// `PrivateKeyDer::try_from(Vec<u8>)` (rustls-pki-types): recognises the
/// key's format (PKCS#1, SEC1 or PKCS#8) from its DER and wraps the very
/// bytes it was given; fails with a message when the format is not
/// recognised.  The contract claims that it succeeds exactly on the bytes
/// `private_key_accepts` describes, and that the key it makes holds those
/// bytes (`secret_der` gives them back); which of the three formats it
/// recognised is not stated.
#[verifier::external_body]
fn private_key_from_der(der: Vec<u8>) -> (r: Result<PrivateKeyDer<'static>, &'static str>)
    ensures
        (r is Ok) == private_key_accepts(der@),
        r matches Ok(k) ==> private_key_der(k) == der@,
{
    PrivateKeyDer::try_from(der)
}

/// Why the certificate could not be made.
#[derive(Debug, Clone, Copy, PartialEq, Eq, Structural)]
pub enum CertError {
    /// Key or certificate generation failed.
    Generation,
    /// The generated key's DER was not recognised.
    KeyFormat,
}

/// What `cert_from_generated` makes of the generator's answer `generated`:
/// a generation failure is `Generation`; a key whose DER is not recognised
/// is `KeyFormat`; otherwise the certificate is passed on with the
/// recognised key, which holds the generated key's bytes.
pub open spec fn cert_outcome(
    generated: Result<(CertificateDer<'static>, Vec<u8>), rcgen::Error>,
    r: Result<(CertificateDer<'static>, PrivateKeyDer<'static>), CertError>,
) -> bool {
    match generated {
        Err(_) => r == Err::<(CertificateDer<'static>, PrivateKeyDer<'static>), CertError>(
            CertError::Generation,
        ),
        Ok((cert, key)) => {
            &&& (r is Ok) == private_key_accepts(key@)
            &&& !private_key_accepts(key@) ==> r == Err::<
                (CertificateDer<'static>, PrivateKeyDer<'static>),
                CertError,
            >(CertError::KeyFormat)
            &&& r matches Ok((c, _)) ==> c == cert
            &&& r matches Ok((_, k)) ==> private_key_der(k) == key@
        },
    }
}

/// Turns what key generation handed back into the server's certificate
/// and key (see `cert_outcome`).
pub fn cert_from_generated(
    generated: Result<(CertificateDer<'static>, Vec<u8>), rcgen::Error>,
) -> (r: Result<(CertificateDer<'static>, PrivateKeyDer<'static>), CertError>)
    ensures
        cert_outcome(generated, r),
{
    match generated {
        Ok((cert, key)) => match private_key_from_der(key) {
            Ok(k) => Ok((cert, k)),
            Err(_) => Err(CertError::KeyFormat),
        },
        Err(_) => Err(CertError::Generation),
    }
}

/// The names the server's certificate is issued for: "localhost" alone.
pub fn localhost_names() -> (v: Vec<String>)
    ensures
        v@.len() == 1,
        v@[0]@ == "localhost"@,
{
    let mut names: Vec<String> = Vec::new();
    names.push(String::from_str("localhost"));
    names
}

/// Generates the server's self-signed certificate for the names of
/// `localhost_names` and its private key.  The key pair is random, so what
/// holds of the result is that it is what `cert_from_generated` makes of
/// some answer of the generator; since the generator's key is always one
/// the key parser recognises, the only failure is `Generation`.
pub fn generate_self_signed_cert() -> (r: Result<
    (CertificateDer<'static>, PrivateKeyDer<'static>),
    CertError,
>)
    ensures
        exists|generated: Result<(CertificateDer<'static>, Vec<u8>), rcgen::Error>|
            #[trigger] cert_outcome(generated, r),
        r is Ok || r == Err::<(CertificateDer<'static>, PrivateKeyDer<'static>), CertError>(
            CertError::Generation,
        ),
{
    let generated = generate_simple_self_signed(localhost_names());
    let ghost g = generated;
    let r = cert_from_generated(generated);
    assert(cert_outcome(g, r));
    r
}

} // verus!
