//! The TLS material of an HTTPS listener, read from the PEM contents of its
//! certificate and key files.

use crate::config::{single_private_key, ListenOnParseError, Protocol, ProtocolView};
use crate::text::{decimal_text, text_of};
use vstd::prelude::*;

verus! {

/// The DER certificates `rustls_pemfile::certs` reads from PEM data, or
/// nothing when it fails.
pub uninterp spec fn pem_certificates(data: Seq<u8>) -> Option<Seq<Seq<u8>>>;

/// The DER keys `rustls_pemfile::pkcs8_private_keys` reads from PEM data, or
/// nothing when it fails.
pub uninterp spec fn pem_pkcs8_keys(data: Seq<u8>) -> Option<Seq<Seq<u8>>>;

/// The DER keys `rustls_pemfile::rsa_private_keys` reads from PEM data, or
/// nothing when it fails.
pub uninterp spec fn pem_rsa_keys(data: Seq<u8>) -> Option<Seq<Seq<u8>>>;

/// The DER keys `rustls_pemfile::ec_private_keys` reads from PEM data, or
/// nothing when it fails.
pub uninterp spec fn pem_ec_keys(data: Seq<u8>) -> Option<Seq<Seq<u8>>>;

/// Relies on `rustls_pemfile::certs`: the certificates of the PEM data, in
/// order, or the reader's error; the outcome depends on the data alone.
#[verifier::external_body]
fn read_certificates(data: &Vec<u8>) -> (r: Result<Vec<Vec<u8>>, String>)
    ensures
        match r {
            Ok(v) => pem_certificates(data@) == Some(v.deep_view()),
            Err(_) => pem_certificates(data@) is None,
        },
{
    rustls_pemfile::certs(&mut std::io::Cursor::new(data.as_slice())).map_err(|e| e.to_string())
}

/// Relies on `rustls_pemfile::pkcs8_private_keys`: the PKCS#8 keys of the
/// PEM data, in order, or the reader's error; the outcome depends on the
/// data alone.
#[verifier::external_body]
fn read_pkcs8_keys(data: &Vec<u8>) -> (r: Result<Vec<Vec<u8>>, String>)
    ensures
        match r {
            Ok(v) => pem_pkcs8_keys(data@) == Some(v.deep_view()),
            Err(_) => pem_pkcs8_keys(data@) is None,
        },
{
    rustls_pemfile::pkcs8_private_keys(&mut std::io::Cursor::new(data.as_slice())).map_err(
        |e| e.to_string(),
    )
}

/// Relies on `rustls_pemfile::rsa_private_keys`: the RSA keys of the PEM
/// data, in order, or the reader's error; the outcome depends on the data
/// alone.
#[verifier::external_body]
fn read_rsa_keys(data: &Vec<u8>) -> (r: Result<Vec<Vec<u8>>, String>)
    ensures
        match r {
            Ok(v) => pem_rsa_keys(data@) == Some(v.deep_view()),
            Err(_) => pem_rsa_keys(data@) is None,
        },
{
    rustls_pemfile::rsa_private_keys(&mut std::io::Cursor::new(data.as_slice())).map_err(
        |e| e.to_string(),
    )
}

/// Relies on `rustls_pemfile::ec_private_keys`: the EC keys of the PEM
/// data, in order, or the reader's error; the outcome depends on the data
/// alone.
#[verifier::external_body]
fn read_ec_keys(data: &Vec<u8>) -> (r: Result<Vec<Vec<u8>>, String>)
    ensures
        match r {
            Ok(v) => pem_ec_keys(data@) == Some(v.deep_view()),
            Err(_) => pem_ec_keys(data@) is None,
        },
{
    rustls_pemfile::ec_private_keys(&mut std::io::Cursor::new(data.as_slice())).map_err(
        |e| e.to_string(),
    )
}

/// What the TLS material of a listener comes to: the certificate file must
/// hold at least one certificate, and the key file exactly one private key
/// among its PKCS#8, RSA and EC keys.
pub open spec fn tls_outcome(certificate_pem: Seq<u8>, key_pem: Seq<u8>) -> Option<ProtocolView> {
    match (
        pem_certificates(certificate_pem),
        pem_pkcs8_keys(key_pem),
        pem_rsa_keys(key_pem),
        pem_ec_keys(key_pem),
    ) {
        (Some(certs), Some(p), Some(r), Some(e)) => if certs.len() > 0 && (p + r + e).len() == 1 {
            Some(ProtocolView::Https { certificate: certs, key: (p + r + e)[0] })
        } else {
            None
        },
        _ => None,
    }
}

/// The HTTPS settings of a listener from the PEM contents of its
/// certificate file and key file; `certificate_file` and `key_file` name the
/// files in the error messages. Unreadable PEM or no certificate in the
/// certificate file is a certificate-file error; otherwise unreadable PEM or
/// other than exactly one key in the key file is a key-file error.
pub fn tls_protocol(
    certificate_pem: &Vec<u8>,
    key_pem: &Vec<u8>,
    certificate_file: &str,
    key_file: &str,
) -> (r: Result<Protocol, ListenOnParseError>)
    ensures
        match pem_certificates(certificate_pem@) {
            None => r matches Err(ListenOnParseError::CertificateFileReadError(_)),
            Some(certs) => if certs.len() == 0 {
                r matches Err(ListenOnParseError::CertificateFileReadError(_))
            } else {
                match tls_outcome(certificate_pem@, key_pem@) {
                    Some(p) => (r matches Ok(q) && q@ == p),
                    None => r matches Err(ListenOnParseError::KeyFileReadError(_)),
                }
            },
        },
{
    let certificate = match read_certificates(certificate_pem) {
        Ok(c) => c,
        Err(message) => {
            return Err(ListenOnParseError::CertificateFileReadError(message));
        },
    };
    if certificate.len() == 0 {
        let mut message = text_of(certificate_file);
        message.append(" contains no certificates");
        return Err(ListenOnParseError::CertificateFileReadError(message));
    }
    let pkcs8 = match read_pkcs8_keys(key_pem) {
        Ok(k) => k,
        Err(message) => {
            return Err(ListenOnParseError::KeyFileReadError(message));
        },
    };
    let rsa = match read_rsa_keys(key_pem) {
        Ok(k) => k,
        Err(message) => {
            return Err(ListenOnParseError::KeyFileReadError(message));
        },
    };
    let ec = match read_ec_keys(key_pem) {
        Ok(k) => k,
        Err(message) => {
            return Err(ListenOnParseError::KeyFileReadError(message));
        },
    };
    let ghost all = pkcs8.deep_view() + rsa.deep_view() + ec.deep_view();
    let ghost all_values = pkcs8@ + rsa@ + ec@;
    match single_private_key(pkcs8, rsa, ec) {
        Ok(key) => {
            proof {
                assert(all.len() == all_values.len());
                assert(key.deep_view() =~= key@);
                assert(all[0] == all_values[0].deep_view());
            }
            Ok(Protocol::Https { certificate, key })
        },
        Err(n) => {
            let mut message = text_of(key_file);
            message.append(" contains ");
            message.append(decimal_text(n).as_str());
            message.append(" keys whereas it should contain only 1");
            Err(ListenOnParseError::KeyFileReadError(message))
        },
    }
}

} // verus!
