//! From the two files that TLS is set up with to a TLS server
//! configuration.
//!
//! The files are read elsewhere; here their bytes are taken apart, the
//! certificate chain and the private key are chosen, and the configuration
//! is built from the two. Taking PEM apart and building the configuration
//! are the work of `rustls_pemfile` and `rustls`; what is chosen, and which
//! failure is reported, is decided here.

use rustls::ServerConfig as TlsServerConfig;
use std::sync::Arc;
use vstd::prelude::*;

verus! {

/// The configuration of a TLS server, as `rustls` holds it. Nothing is
/// known here of what is inside.
#[verifier::external_type_specification]
#[verifier::external_body]
pub struct ExTlsServerConfig(TlsServerConfig);

/// A TLS configuration that a server and its connections share.
pub type TlsContext = Arc<TlsServerConfig>;

/// The error of `rustls`. Nothing is known here of what is inside.
#[verifier::external_type_specification]
#[verifier::external_body]
pub struct ExTlsError(rustls::Error);

/// The error that a reader gives. Nothing is known here of what is inside.
#[verifier::external_type_specification]
#[verifier::external_body]
pub struct ExReadError(std::io::Error);

/// What `rustls_pemfile::certs` finds in the bytes of a PEM file: the
/// contents of its certificate sections, in order, or `None` where it
/// fails on the file.
pub uninterp spec fn pem_certificates(pem: Seq<u8>) -> Option<Seq<Seq<u8>>>;

/// What `rustls_pemfile::pkcs8_private_keys` finds in the bytes of a PEM
/// file: the contents of its PKCS#8 private key sections, in order, or
/// `None` where it fails on the file.
pub uninterp spec fn pem_pkcs8_keys(pem: Seq<u8>) -> Option<Seq<Seq<u8>>>;

/// Calls `rustls_pemfile::certs` on a reader over `pem`. Not proved: that
/// the result depends on the bytes alone. It does, since the reader is a
/// slice in memory and the function keeps no state; the contract gives
/// that result its name and says nothing of what it is.
#[verifier::external_body]
fn read_certificates(pem: &[u8]) -> (found: Result<Vec<Vec<u8>>, std::io::Error>)
    ensures
        match found {
            Ok(sections) => pem_certificates(pem@) == Some(sections.deep_view()),
            Err(_) => pem_certificates(pem@) is None,
        },
{
    let mut reader = pem;
    rustls_pemfile::certs(&mut reader)
}

/// Calls `rustls_pemfile::pkcs8_private_keys` on a reader over `pem`. Not
/// proved: that the result depends on the bytes alone, as for
/// `read_certificates`.
#[verifier::external_body]
fn read_pkcs8_keys(pem: &[u8]) -> (found: Result<Vec<Vec<u8>>, std::io::Error>)
    ensures
        match found {
            Ok(sections) => pem_pkcs8_keys(pem@) == Some(sections.deep_view()),
            Err(_) => pem_pkcs8_keys(pem@) is None,
        },
{
    let mut reader = pem;
    rustls_pemfile::pkcs8_private_keys(&mut reader)
}

/// Builds the configuration of a server with `rustls`: safe defaults, no
/// client authentication, and the one certificate chain with its private
/// key. Nothing is claimed of the result: whether the key is accepted is
/// for `rustls` to say.
#[verifier::external_body]
fn single_cert_config(chain: Vec<Vec<u8>>, key: Vec<u8>) -> Result<
    TlsServerConfig,
    rustls::Error,
> {
    TlsServerConfig::builder()
        .with_safe_defaults()
        .with_no_client_auth()
        .with_single_cert(
            chain.into_iter().map(rustls::Certificate).collect(),
            rustls::PrivateKey(key),
        )
}

/// Why TLS could not be set up.
#[derive(Debug, Clone, Copy, PartialEq, Eq, Structural)]
pub enum TlsLoadError {
    /// The certificate file could not be taken apart.
    Certificate,
    /// The key file could not be taken apart.
    PrivateKey,
    /// The key file holds no PKCS#8 private key.
    MissingPrivateKey,
    /// The private key was not accepted.
    InvalidPrivateKey,
}

impl TlsLoadError {
    /// The message for this failure.
    pub fn message(&self) -> (text: &'static str)
        ensures
            text == match *self {
                TlsLoadError::Certificate => "Failed to load certificate",
                TlsLoadError::PrivateKey => "Failed to load private key",
                TlsLoadError::MissingPrivateKey => "No private key found",
                TlsLoadError::InvalidPrivateKey => "unexpected error: invalid private key",
            },
    {
        match self {
            TlsLoadError::Certificate => "Failed to load certificate",
            TlsLoadError::PrivateKey => "Failed to load private key",
            TlsLoadError::MissingPrivateKey => "No private key found",
            TlsLoadError::InvalidPrivateKey => "unexpected error: invalid private key",
        }
    }
}

/// A certificate chain and the private key that goes with it, both as
/// they stood in their files.
#[derive(Debug, Clone)]
pub struct TlsMaterial {
    pub cert_chain: Vec<Vec<u8>>,
    pub private_key: Vec<u8>,
}

/// What is chosen from the sections of the two files: every certificate,
/// in order, as the chain, and the first private key. The certificate file
/// is judged first.
pub open spec fn chosen(
    certificates: Option<Seq<Seq<u8>>>,
    keys: Option<Seq<Seq<u8>>>,
) -> Result<(Seq<Seq<u8>>, Seq<u8>), TlsLoadError> {
    match certificates {
        None => Err(TlsLoadError::Certificate),
        Some(chain) => match keys {
            None => Err(TlsLoadError::PrivateKey),
            Some(found) => if found.len() == 0 {
                Err(TlsLoadError::MissingPrivateKey)
            } else {
                Ok((chain, found[0]))
            },
        },
    }
}

/// Chooses the chain and the key from what was found in the two files,
/// `None` standing for a file that could not be taken apart.
pub fn select_material(certificates: Option<Vec<Vec<u8>>>, keys: Option<Vec<Vec<u8>>>) -> (result:
    Result<TlsMaterial, TlsLoadError>)
    ensures
        match result {
            Ok(material) => chosen(certificates.deep_view(), keys.deep_view()) == Ok::<
                (Seq<Seq<u8>>, Seq<u8>),
                TlsLoadError,
            >((material.cert_chain.deep_view(), material.private_key@)),
            Err(e) => chosen(certificates.deep_view(), keys.deep_view()) == Err::<
                (Seq<Seq<u8>>, Seq<u8>),
                TlsLoadError,
            >(e),
        },
        result matches Ok(material) ==> Some(material.cert_chain) == certificates,
{
    match certificates {
        None => Err(TlsLoadError::Certificate),
        Some(cert_chain) => match keys {
            None => Err(TlsLoadError::PrivateKey),
            Some(mut found) => {
                if found.len() == 0 {
                    Err(TlsLoadError::MissingPrivateKey)
                } else {
                    let ghost all = found.deep_view();
                    let private_key = found.remove(0);
                    assert(private_key@ == all[0]);
                    Ok(TlsMaterial { cert_chain, private_key })
                }
            },
        },
    }
}

/// Takes the two files apart and chooses the chain and the key.
pub fn read_material(cert_pem: &[u8], key_pem: &[u8]) -> (result: Result<
    TlsMaterial,
    TlsLoadError,
>)
    ensures
        match result {
            Ok(material) => chosen(pem_certificates(cert_pem@), pem_pkcs8_keys(key_pem@)) == Ok::<
                (Seq<Seq<u8>>, Seq<u8>),
                TlsLoadError,
            >((material.cert_chain.deep_view(), material.private_key@)),
            Err(e) => chosen(pem_certificates(cert_pem@), pem_pkcs8_keys(key_pem@)) == Err::<
                (Seq<Seq<u8>>, Seq<u8>),
                TlsLoadError,
            >(e),
        },
{
    let certificates = match read_certificates(cert_pem) {
        Ok(sections) => sections,
        Err(_) => {
            return Err(TlsLoadError::Certificate);
        },
    };
    let keys = match read_pkcs8_keys(key_pem) {
        Ok(sections) => sections,
        Err(_) => {
            return Err(TlsLoadError::PrivateKey);
        },
    };
    select_material(Some(certificates), Some(keys))
}

/// Builds the server's configuration from the chain and the key. It fails
/// only where the key is not accepted.
pub fn build_config(material: TlsMaterial) -> (result: Result<
    TlsContext,
    TlsLoadError,
>)
    ensures
        result matches Err(e) ==> e == TlsLoadError::InvalidPrivateKey,
{
    shared_config(single_cert_config(material.cert_chain, material.private_key))
}

/// What is made of the outcome of building: a configuration that was built
/// is handed on as it is, shared; every failure of the building is
/// reported as a private key that was not accepted, which is the one
/// reason `rustls` has for it.
pub fn shared_config(built: Result<TlsServerConfig, rustls::Error>) -> (result: Result<
    TlsContext,
    TlsLoadError,
>)
    ensures
        match built {
            Ok(config) => result matches Ok(shared) && *shared == config,
            Err(_) => result matches Err(e) && e == TlsLoadError::InvalidPrivateKey,
        },
{
    match built {
        Ok(config) => Ok(Arc::new(config)),
        Err(_) => Err(TlsLoadError::InvalidPrivateKey),
    }
}

/// The TLS configuration for a server: none where TLS is switched off,
/// whatever the files hold; otherwise the one built from the two files.
/// Where the files do not give a chain and a key, the failure says which
/// of them was at fault; where they do, the only failure left is a key
/// that is not accepted.
pub fn load(enabled: bool, cert_pem: &[u8], key_pem: &[u8]) -> (result: Result<
    Option<TlsContext>,
    TlsLoadError,
>)
    ensures
        !enabled ==> result matches Ok(None),
        enabled ==> match chosen(pem_certificates(cert_pem@), pem_pkcs8_keys(key_pem@)) {
            Err(e) => result matches Err(f) && f == e,
            Ok(_) => match result {
                Ok(config) => config is Some,
                Err(e) => e == TlsLoadError::InvalidPrivateKey,
            },
        },
{
    if !enabled {
        return Ok(None);
    }
    match read_material(cert_pem, key_pem) {
        Err(e) => Err(e),
        Ok(material) => match build_config(material) {
            Ok(config) => Ok(Some(config)),
            Err(e) => Err(e),
        },
    }
}

} // verus!
