//! TLS settings, and the reading of certificates and private keys from PEM
//! text. Building the acceptor and the handshakes stay with the caller.

use vstd::prelude::*;

verus! {

pub struct TlsConfig {
    pub cert_path: String,
    pub key_path: String,
    pub client_auth: bool,
    pub ocsp_stapling: bool,
}

impl TlsConfig {
    pub fn new(cert_path: String, key_path: String) -> (r: Self)
        ensures
            r.cert_path == cert_path,
            r.key_path == key_path,
            !r.client_auth,
            !r.ocsp_stapling,
    {
        TlsConfig { cert_path, key_path, client_auth: false, ocsp_stapling: false }
    }

    pub fn with_client_auth(self, client_auth: bool) -> (r: Self)
        ensures
            r == (TlsConfig { client_auth, ..self }),
    {
        TlsConfig { client_auth, ..self }
    }

    pub fn with_ocsp_stapling(self, ocsp_stapling: bool) -> (r: Self)
        ensures
            r == (TlsConfig { ocsp_stapling, ..self }),
    {
        TlsConfig { ocsp_stapling, ..self }
    }
}

/// Why TLS material could not be used.
#[derive(PartialEq, Eq, Structural, Clone, Copy, Debug)]
pub enum TlsError {
    /// The certificate text could not be read.
    Certificates,
    /// No private key was found.
    NoPrivateKey,
}

/// The DER blocks of a list of blobs, as sequences.
pub open spec fn blobs(v: Seq<Vec<u8>>) -> Seq<Seq<u8>> {
    v.map_values(|b: Vec<u8>| b@)
}

/// The certificates that PEM text holds, or `None` where it cannot be read.
pub uninterp spec fn pem_certs(data: Seq<u8>) -> Option<Seq<Seq<u8>>>;

/// The PKCS#8 keys that PEM text holds, or `None` where it cannot be read.
pub uninterp spec fn pem_pkcs8_keys(data: Seq<u8>) -> Option<Seq<Seq<u8>>>;

/// The RSA keys that PEM text holds, or `None` where it cannot be read.
pub uninterp spec fn pem_rsa_keys(data: Seq<u8>) -> Option<Seq<Seq<u8>>>;

/// Relies on `rustls_pemfile::certs` over the bytes in memory: the DER of
/// each certificate section, in order.
#[verifier::external_body]
fn read_certs(data: &[u8]) -> (r: Option<Vec<Vec<u8>>>)
    ensures
        match r {
            Some(v) => pem_certs(data@) == Some(blobs(v@)),
            None => pem_certs(data@) is None,
        },
{
    rustls_pemfile::certs(&mut std::io::Cursor::new(data)).ok()
}

/// Relies on `rustls_pemfile::pkcs8_private_keys` over the bytes in memory.
#[verifier::external_body]
fn read_pkcs8_keys(data: &[u8]) -> (r: Option<Vec<Vec<u8>>>)
    ensures
        match r {
            Some(v) => pem_pkcs8_keys(data@) == Some(blobs(v@)),
            None => pem_pkcs8_keys(data@) is None,
        },
{
    rustls_pemfile::pkcs8_private_keys(&mut std::io::Cursor::new(data)).ok()
}

/// Relies on `rustls_pemfile::rsa_private_keys` over the bytes in memory.
#[verifier::external_body]
fn read_rsa_keys(data: &[u8]) -> (r: Option<Vec<Vec<u8>>>)
    ensures
        match r {
            Some(v) => pem_rsa_keys(data@) == Some(blobs(v@)),
            None => pem_rsa_keys(data@) is None,
        },
{
    rustls_pemfile::rsa_private_keys(&mut std::io::Cursor::new(data)).ok()
}

/// The certificates of PEM text.
pub fn load_certs(data: &[u8]) -> (r: Result<Vec<Vec<u8>>, TlsError>)
    ensures
        match r {
            Ok(v) => pem_certs(data@) == Some(blobs(v@)),
            Err(e) => e == TlsError::Certificates && pem_certs(data@) is None,
        },
{
    match read_certs(data) {
        Some(v) => Ok(v),
        None => Err(TlsError::Certificates),
    }
}

/// Which keys count, given what the two readers found: the PKCS#8 keys
/// when there is at least one, else the RSA keys, else none.
pub open spec fn chosen_keys(pkcs8: Option<Seq<Seq<u8>>>, rsa: Option<Seq<Seq<u8>>>) -> Seq<Seq<u8>> {
    match pkcs8 {
        Some(k) if k.len() > 0 => k,
        _ => match rsa {
            Some(k) => k,
            None => Seq::empty(),
        },
    }
}

/// Chooses among the keys that the two readers found (see `chosen_keys`).
pub fn choose_keys(pkcs8: Option<Vec<Vec<u8>>>, rsa: Option<Vec<Vec<u8>>>) -> (r: Vec<Vec<u8>>)
    ensures
        blobs(r@) == chosen_keys(
            match pkcs8 { Some(v) => Some(blobs(v@)), None => None },
            match rsa { Some(v) => Some(blobs(v@)), None => None },
        ),
{
    match pkcs8 {
        Some(k) if k.len() > 0 => k,
        _ => match rsa {
            Some(k) => k,
            None => {
                let v: Vec<Vec<u8>> = Vec::new();
                assert(blobs(v@) =~= Seq::<Seq<u8>>::empty());
                v
            },
        },
    }
}

/// The private keys of PEM text: PKCS#8 keys, or failing those RSA keys.
pub fn load_keys(data: &[u8]) -> (r: Vec<Vec<u8>>)
    ensures
        blobs(r@) == chosen_keys(pem_pkcs8_keys(data@), pem_rsa_keys(data@)),
{
    let pkcs8 = read_pkcs8_keys(data);
    let rsa = read_rsa_keys(data);
    choose_keys(pkcs8, rsa)
}

/// The key to serve with: the first one found.
pub fn first_key(keys: Vec<Vec<u8>>) -> (r: Result<Vec<u8>, TlsError>)
    ensures
        keys@.len() == 0 ==> r == Err::<Vec<u8>, TlsError>(TlsError::NoPrivateKey),
        keys@.len() > 0 ==> (r matches Ok(k) && k@ == keys@[0]@),
{
    let mut keys = keys;
    if keys.len() == 0 {
        return Err(TlsError::NoPrivateKey);
    }
    Ok(keys.remove(0))
}

pub struct TlsTerminationProxy;

impl TlsTerminationProxy {
    pub fn new() -> (r: Self) {
        TlsTerminationProxy
    }
}

} // verus!
