//! Certificates and keys in PEM files.
use vstd::prelude::*;

verus! {

/// The certificates in a PEM file, in DER form and in order; `None` where the
/// file is malformed.
pub uninterp spec fn certificates(pem: Seq<u8>) -> Option<Seq<Seq<u8>>>;

/// The first private key in a PEM file: its format and its DER form.
/// `None` where the file is malformed, `Some(None)` where it holds no key.
pub uninterp spec fn first_key(pem: Seq<u8>) -> Option<Option<(u8, Seq<u8>)>>;

/// What a list of byte strings holds.
pub open spec fn byte_views(v: Seq<Vec<u8>>) -> Seq<Seq<u8>> {
    v.map_values(|b: Vec<u8>| b@)
}

/// Wraps `rustls_pemfile::certs`, collected up to the first error: the DER
/// forms of the certificates, which depend on the file alone.
#[verifier::external_body]
pub(crate) fn read_certs(pem: &[u8]) -> (r: Result<Vec<Vec<u8>>, std::io::Error>)
    ensures
        match r {
            Ok(v) => certificates(pem@) == Some(byte_views(v@)),
            Err(_) => certificates(pem@) is None,
        },
{
    let mut reader = pem;
    rustls_pemfile::certs(&mut reader).map(|c| c.map(|der| der.to_vec())).collect()
}

/// Wraps `rustls_pemfile::private_key`: the format of the key, as 1 for PKCS#1,
/// 2 for SEC1 and 8 for PKCS#8, and its DER form. Both depend on the file
/// alone, and there are no other formats.
#[verifier::external_body]
pub(crate) fn read_key(pem: &[u8]) -> (r: Result<Option<(u8, Vec<u8>)>, std::io::Error>)
    ensures
        match r {
            Ok(Some((format, der))) => first_key(pem@) == Some(Some((format, der@))) && (format == 1
                || format == 2 || format == 8),
            Ok(None) => first_key(pem@) == Some(None::<(u8, Seq<u8>)>),
            Err(_) => first_key(pem@) is None,
        },
{
    let mut reader = pem;
    Ok(rustls_pemfile::private_key(&mut reader)?.map(|key| match key {
        rustls::pki_types::PrivateKeyDer::Pkcs1(k) => (1, k.secret_pkcs1_der().to_vec()),
        rustls::pki_types::PrivateKeyDer::Sec1(k) => (2, k.secret_sec1_der().to_vec()),
        rustls::pki_types::PrivateKeyDer::Pkcs8(k) => (8, k.secret_pkcs8_der().to_vec()),
        other => (8, other.secret_der().to_vec()),
    }))
}

/// The format of a private key.
#[derive(Debug, Clone, Copy, PartialEq, Eq, Structural)]
pub enum KeyFormat {
    Pkcs1,
    Sec1,
    Pkcs8,
}

/// A private key.
#[derive(Debug)]
pub struct PrivateKey {
    pub format: KeyFormat,
    pub der: Vec<u8>,
}

/// Why a PEM file is refused.
#[derive(Debug, Clone, Copy, PartialEq, Eq, Structural)]
pub enum PemError {
    InvalidCertificates,
    InvalidKey,
    /// The file holds no private key.
    NoKey,
}

/// The format that a number stands for.
pub open spec fn format_of(number: u8) -> KeyFormat {
    if number == 1 {
        KeyFormat::Pkcs1
    } else if number == 2 {
        KeyFormat::Sec1
    } else {
        KeyFormat::Pkcs8
    }
}

/// Reads the certificate chain out of a PEM file.
pub fn load_certs(pem: &[u8]) -> (r: Result<Vec<Vec<u8>>, PemError>)
    ensures
        match certificates(pem@) {
            Some(chain) => r matches Ok(v) && byte_views(v@) == chain,
            None => r matches Err(e) && e == PemError::InvalidCertificates,
        },
{
    match read_certs(pem) {
        Ok(chain) => Ok(chain),
        Err(_) => Err(PemError::InvalidCertificates),
    }
}

/// Decides on the outcome of looking for a private key.
pub fn choose_key(outcome: Option<Option<(u8, Vec<u8>)>>) -> (r: Result<PrivateKey, PemError>)
    ensures
        match outcome {
            None => r matches Err(e) && e == PemError::InvalidKey,
            Some(None) => r matches Err(e) && e == PemError::NoKey,
            Some(Some((number, der))) => r matches Ok(key) && key.format == format_of(number)
                && key.der@ == der@,
        },
{
    match outcome {
        None => Err(PemError::InvalidKey),
        Some(None) => Err(PemError::NoKey),
        Some(Some((number, der))) => {
            let format = match number {
                1 => KeyFormat::Pkcs1,
                2 => KeyFormat::Sec1,
                _ => KeyFormat::Pkcs8,
            };
            Ok(PrivateKey { format, der })
        },
    }
}

/// Reads the private key out of a PEM file.
pub fn load_key(pem: &[u8]) -> (r: Result<PrivateKey, PemError>)
    ensures
        match first_key(pem@) {
            None => r matches Err(e) && e == PemError::InvalidKey,
            Some(None) => r matches Err(e) && e == PemError::NoKey,
            Some(Some((number, der))) => r matches Ok(key) && key.format == format_of(number)
                && key.der@ == der,
        },
{
    match read_key(pem) {
        Ok(outcome) => choose_key(Some(outcome)),
        Err(_) => choose_key(None),
    }
}

/// Each number stands for one format.
pub proof fn lemma_formats(number: u8)
    requires
        number == 1 || number == 2 || number == 8,
    ensures
        format_of(number) == KeyFormat::Pkcs1 <==> number == 1,
        format_of(number) == KeyFormat::Sec1 <==> number == 2,
        format_of(number) == KeyFormat::Pkcs8 <==> number == 8,
{
}

} // verus!
