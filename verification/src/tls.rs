//! The certificate of the bridge, and how it comes to serve HTTPS.

use rcgen::{Certificate, CertificateParams, DistinguishedName, DnType, KeyPair};
use std::sync::Arc;
use tokio_rustls::rustls::crypto::ring;
use tokio_rustls::rustls::pki_types::{CertificateDer, PrivateKeyDer};
use tokio_rustls::rustls::ServerConfig;
use vstd::prelude::*;

use crate::error::AppError;
use crate::error::ErrorView;
use crate::text;

verus! {

// ── Certificates ──────────────────────────────────────────────────────────────

/// `rcgen`'s description of a certificate.
#[verifier::external_type_specification]
#[verifier::external_body]
pub struct ExCertificateParams(rcgen::CertificateParams);

/// `rcgen`'s certificate.
#[verifier::external_type_specification]
#[verifier::external_body]
pub struct ExCertificate(rcgen::Certificate);

/// `rcgen`'s pair of keys.
#[verifier::external_type_specification]
#[verifier::external_body]
pub struct ExKeyPair(rcgen::KeyPair);

/// `rcgen`'s name of a host: an address, or a name of the domain system.
#[verifier::external_type_specification]
#[verifier::external_body]
pub struct ExSanType(rcgen::SanType);

/// The host that a text names. Two spellings of one address name the same host.
pub uninterp spec fn host_named(s: Seq<char>) -> rcgen::SanType;

/// The hosts that a certificate is for.
pub uninterp spec fn hosts(p: rcgen::CertificateParams) -> Seq<rcgen::SanType>;

/// The common name of who a certificate is for.
pub uninterp spec fn common_name(p: rcgen::CertificateParams) -> Seq<char>;

/// The description that a certificate was made from.
pub uninterp spec fn params_of(c: rcgen::Certificate) -> rcgen::CertificateParams;

/// The public key that a certificate is for, encoded.
pub uninterp spec fn certified_key(c: rcgen::Certificate) -> Seq<u8>;

/// The public key of a pair, encoded.
pub uninterp spec fn public_key(k: rcgen::KeyPair) -> Seq<u8>;

/// Whether the private key of a pair is at hand, and so can be written down.
pub uninterp spec fn has_private_key(k: rcgen::KeyPair) -> bool;

/// A certificate as PEM text.
pub uninterp spec fn cert_text(c: rcgen::Certificate) -> Seq<char>;

/// The private key of a pair as PEM text.
pub uninterp spec fn key_text(k: rcgen::KeyPair) -> Seq<char>;

/// Whether all characters of some texts are ASCII.
pub open spec fn all_ascii(v: Seq<Seq<char>>) -> bool {
    forall|i: int, j: int| 0 <= i < v.len() && 0 <= j < v[i].len() ==> (#[trigger] v[i][j] as u32) < 128
}

/// Calls `CertificateParams::new` with the names of hosts, and sets the common name of
/// the description. It accepts all names of ASCII characters; which host each text
/// names is a function of the text.
#[verifier::external_body]
fn describe_cert(names: Vec<String>, name: &str) -> (r: Result<CertificateParams, String>)
    ensures
        all_ascii(text::texts(names@)) ==> r is Ok,
        r matches Ok(p) ==> hosts(p) == text::texts(names@).map_values(|s: Seq<char>| host_named(s)),
        r matches Ok(p) ==> common_name(p) == name@,
{
    let mut params = CertificateParams::new(names).map_err(|e| e.to_string())?;
    let mut dn = DistinguishedName::new();
    dn.push(DnType::CommonName, name);
    params.distinguished_name = dn;
    Ok(params)
}

/// Calls `KeyPair::generate`: the private key is at hand. The keys are random: nothing
/// more is said of them.
#[verifier::external_body]
fn generate_key() -> (r: Result<KeyPair, String>)
    ensures
        r matches Ok(k) ==> has_private_key(k),
{
    KeyPair::generate().map_err(|e| e.to_string())
}

/// Calls `CertificateParams::self_signed`: a certificate keeps its description, and is for
/// the public key of the pair that it is signed with. When signing fails is left open.
#[verifier::external_body]
fn sign(params: CertificateParams, key: &KeyPair) -> (r: Result<Certificate, String>)
    ensures
        r matches Ok(c) ==> params_of(c) == params,
        r matches Ok(c) ==> certified_key(c) == public_key(*key),
{
    params.self_signed(key).map_err(|e| e.to_string())
}

/// Calls `Certificate::pem`: the text is a function of the certificate.
#[verifier::external_body]
fn print_cert(cert: &Certificate) -> (r: String)
    ensures
        r@ == cert_text(*cert),
{
    cert.pem()
}

/// Calls `KeyPair::serialize_pem`: the text is a function of the keys. It panics where the
/// private key is not at hand.
#[verifier::external_body]
fn print_key(key: &KeyPair) -> (r: String)
    requires
        has_private_key(*key),
    ensures
        r@ == key_text(*key),
{
    key.serialize_pem()
}

/// Where the certificate of the bridge comes from.
#[derive(Clone, Copy, Debug, PartialEq, Eq, Structural)]
pub enum CertSource {
    /// It is read, with its key.
    Stored,
    /// It is made, and written with its key.
    Made,
}

/// Where the certificate of the bridge comes from, by whether it and its key are there.
pub open spec fn cert_source(cert_exists: bool, key_exists: bool) -> CertSource {
    if cert_exists && key_exists {
        CertSource::Stored
    } else {
        CertSource::Made
    }
}

/// Where the certificate of the bridge comes from: it is made where it, or its key, is
/// not there.
pub fn ensure_cert(cert_exists: bool, key_exists: bool) -> (r: CertSource)
    ensures
        r == cert_source(cert_exists, key_exists),
{
    if cert_exists && key_exists {
        CertSource::Stored
    } else {
        CertSource::Made
    }
}

/// Whether a certificate is the one that the bridge makes: for the local machine, under
/// its name.
pub open spec fn is_local(cert: rcgen::Certificate) -> bool {
    &&& hosts(params_of(cert)) == seq![host_named("127.0.0.1"@), host_named("localhost"@)]
    &&& common_name(params_of(cert)) == "Overfry Local"@
}

/// Whether an error is one of making a certificate.
pub open spec fn is_cert_error(e: ErrorView) -> bool {
    e matches ErrorView::Other(m) && ({
        ||| "key generation failed: "@.is_prefix_of(m)
        ||| "cert self-sign failed: "@.is_prefix_of(m)
    })
}

/// Makes a certificate for the local machine, and gives its text and that of its key.
pub fn make_cert() -> (r: Result<(String, String), AppError>)
    ensures
        match r {
            Ok((c, k)) => exists|cert: rcgen::Certificate, key: rcgen::KeyPair|
                is_local(cert) && certified_key(cert) == public_key(key) && c@ == #[trigger] cert_text(cert) && k@
                    == #[trigger] key_text(key),
            Err(e) => is_cert_error(e@),
        },
{
    let names: Vec<String> = vec!["127.0.0.1".to_owned(), "localhost".to_owned()];
    proof {
        reveal_strlit("127.0.0.1");
        reveal_strlit("localhost");
        assert(text::texts(names@) =~= seq!["127.0.0.1"@, "localhost"@]);
    }
    let ghost wanted = text::texts(names@).map_values(|s: Seq<char>| host_named(s));
    assert(wanted =~= seq![host_named("127.0.0.1"@), host_named("localhost"@)]);
    let params = match describe_cert(names, "Overfry Local") {
        Ok(p) => p,
        Err(e) => {
            return Err(AppError::Other(text::cat("cert params error: ", &e)));
        },
    };
    let key = match generate_key() {
        Ok(k) => k,
        Err(e) => {
            let m = text::cat("key generation failed: ", &e);
            proof {
                let p = "key generation failed: "@;
                assert(m@.subrange(0, p.len() as int) =~= p);
            }
            return Err(AppError::Other(m));
        },
    };
    match sign(params, &key) {
        Ok(cert) => Ok((print_cert(&cert), print_key(&key))),
        Err(e) => {
            let m = text::cat("cert self-sign failed: ", &e);
            proof {
                let p = "cert self-sign failed: "@;
                assert(m@.subrange(0, p.len() as int) =~= p);
            }
            Err(AppError::Other(m))
        },
    }
}

// ── Configuration ─────────────────────────────────────────────────────────────

/// `rustls`'s configuration of a server, carried through as it is.
#[verifier::external_type_specification]
#[verifier::external_body]
pub struct ExServerConfig(tokio_rustls::rustls::ServerConfig);

/// A certificate as `rustls` takes it.
#[verifier::external_type_specification]
#[verifier::external_body]
pub struct ExCertificateDer<'a>(tokio_rustls::rustls::pki_types::CertificateDer<'a>);

/// A private key as `rustls` takes it.
#[verifier::external_type_specification]
#[verifier::external_body]
pub struct ExPrivateKeyDer<'a>(tokio_rustls::rustls::pki_types::PrivateKeyDer<'a>);

/// The certificates in a PEM text, or the message of an error.
pub uninterp spec fn certs_in(pem: Seq<char>) -> Result<Seq<CertificateDer<'static>>, Seq<char>>;

/// The first private key in a PEM text, where there is one, or the message of an error.
pub uninterp spec fn key_in(pem: Seq<char>) -> Result<Option<PrivateKeyDer<'static>>, Seq<char>>;

/// The certificates that a server with a configuration shows.
pub uninterp spec fn served_certs(c: tokio_rustls::rustls::ServerConfig) -> Seq<CertificateDer<'static>>;

/// The public key of the key that a server with a configuration signs with, encoded.
pub uninterp spec fn served_key(c: tokio_rustls::rustls::ServerConfig) -> Seq<u8>;

/// The public key that goes with a private key, encoded.
pub uninterp spec fn public_part(key: PrivateKeyDer<'static>) -> Seq<u8>;

/// Why certificates and a key make no configuration; `None` where they make one.
pub uninterp spec fn config_refusal(
    certs: Seq<CertificateDer<'static>>,
    key: PrivateKeyDer<'static>,
) -> Option<Seq<char>>;

/// Calls `rustls_pemfile::certs`: the certificates are a function of the text.
#[verifier::external_body]
fn read_certs(pem: &str) -> (r: Result<Vec<CertificateDer<'static>>, String>)
    ensures
        match r {
            Ok(v) => certs_in(pem@) == Ok::<Seq<CertificateDer<'static>>, Seq<char>>(v@),
            Err(e) => certs_in(pem@) == Err::<Seq<CertificateDer<'static>>, Seq<char>>(e@),
        },
{
    let certs = rustls_pemfile::certs(&mut pem.as_bytes()).collect::<Result<Vec<_>, _>>();
    certs.map_err(|e| e.to_string())
}

/// Calls `rustls_pemfile::private_key`: the key is a function of the text.
#[verifier::external_body]
fn read_key(pem: &str) -> (r: Result<Option<PrivateKeyDer<'static>>, String>)
    ensures
        match r {
            Ok(k) => key_in(pem@) == Ok::<Option<PrivateKeyDer<'static>>, Seq<char>>(k),
            Err(e) => key_in(pem@) == Err::<Option<PrivateKeyDer<'static>>, Seq<char>>(e@),
        },
{
    rustls_pemfile::private_key(&mut pem.as_bytes()).map_err(|e| e.to_string())
}

/// Calls `ServerConfig::builder_with_provider` and, on the builder, `with_single_cert`.
/// Whether they accept certificates and a key, and the message where they do not, is a
/// function of these. The configuration holds the certificates, and the key itself, not
/// the form in which it was written down: so the key is told by its public part.
#[verifier::external_body]
fn build_config(certs: Vec<CertificateDer<'static>>, key: PrivateKeyDer<'static>) -> (r: Result<ServerConfig, String>)
    ensures
        match r {
            Ok(c) => {
                &&& config_refusal(certs@, key) is None
                &&& served_certs(c) == certs@
                &&& served_key(c) == public_part(key)
            },
            Err(e) => config_refusal(certs@, key) == Some(e@),
        },
{
    ServerConfig::builder_with_provider(Arc::new(ring::default_provider()))
        .with_safe_default_protocol_versions()
        .and_then(|b| b.with_no_client_auth().with_single_cert(certs, key))
        .map_err(|e| e.to_string())
}

/// Why a certificate and a key, as PEM texts, make no configuration; `None` where they
/// make one.
pub open spec fn tls_refusal(cert_pem: Seq<char>, key_pem: Seq<char>) -> Option<Seq<char>> {
    match certs_in(cert_pem) {
        Err(e) => Some(e),
        Ok(certs) => match key_in(key_pem) {
            Err(e) => Some(e),
            Ok(None) => Some("no private key"@),
            Ok(Some(key)) => config_refusal(certs, key),
        },
    }
}

/// Whether a configuration serves the certificates in a PEM text with the key in another.
pub open spec fn serves(c: ServerConfig, cert_pem: Seq<char>, key_pem: Seq<char>) -> bool {
    &&& certs_in(cert_pem) == Ok::<Seq<CertificateDer<'static>>, Seq<char>>(served_certs(c))
    &&& key_in(key_pem) matches Ok(Some(key)) && served_key(c) == public_part(key)
}

/// The configuration of a server with a certificate and its key.
pub fn make_tls_config(cert_pem: &str, key_pem: &str) -> (r: Result<ServerConfig, AppError>)
    ensures
        match r {
            Ok(c) => tls_refusal(cert_pem@, key_pem@) is None && serves(c, cert_pem@, key_pem@),
            Err(e) => tls_refusal(cert_pem@, key_pem@) matches Some(m) && e@ == ErrorView::Io(m),
        },
{
    let certs = match read_certs(cert_pem) {
        Ok(v) => v,
        Err(e) => {
            return Err(AppError::Io(e));
        },
    };
    let key = match read_key(key_pem) {
        Ok(Some(k)) => k,
        Ok(None) => {
            return Err(AppError::Io("no private key".to_owned()));
        },
        Err(e) => {
            return Err(AppError::Io(e));
        },
    };
    match build_config(certs, key) {
        Ok(c) => Ok(c),
        Err(e) => Err(AppError::Io(e)),
    }
}

// ── Startup ───────────────────────────────────────────────────────────────────

/// What the start of the bridge needs next to know whether it serves HTTPS.
pub enum TlsStep<C> {
    /// To ask the user whether a certificate may be made.
    Ask,
    /// To make a certificate, and a configuration with it.
    Setup,
    /// To tell the user that this failed, and go on without.
    Tell { message: String },
    /// To serve HTTPS with a configuration.
    Https(C),
    /// To serve HTTP.
    Http,
}

/// Goes on after the stored certificate was looked for: `None` where there is none, else
/// the configuration with it, or an error. A stored certificate that is no good is not
/// replaced.
pub fn after_stored<C>(stored: Option<Result<C, AppError>>) -> (r: TlsStep<C>)
    ensures
        r == (match stored {
            None => TlsStep::Ask,
            Some(Ok(c)) => TlsStep::Https(c),
            Some(Err(_)) => TlsStep::Http,
        }),
{
    match stored {
        None => TlsStep::Ask,
        Some(Ok(c)) => TlsStep::Https(c),
        Some(Err(_)) => TlsStep::Http,
    }
}

/// Goes on after the user was asked: without approval nothing is made.
pub fn after_consent<C>(approved: bool) -> (r: TlsStep<C>)
    ensures
        r == (if approved {
            TlsStep::<C>::Setup
        } else {
            TlsStep::<C>::Http
        }),
{
    if approved {
        TlsStep::Setup
    } else {
        TlsStep::Http
    }
}

/// What the user is told where no certificate could be made.
pub open spec fn setup_failure(e: ErrorView) -> Seq<char> {
    "HTTPS setup failed: "@ + e.message() + "\n\nThe app will use HTTP instead. Connections of web clients may not work."@
}

/// Goes on after the attempt to make a certificate.
pub fn after_setup<C>(made: Result<C, AppError>) -> (r: TlsStep<C>)
    ensures
        match made {
            Ok(c) => r == TlsStep::Https(c),
            Err(e) => r matches TlsStep::Tell { message } && message@ == setup_failure(e@),
        },
{
    match made {
        Ok(c) => TlsStep::Https(c),
        Err(e) => {
            let message = text::cat3(
                "HTTPS setup failed: ",
                &e.message(),
                "\n\nThe app will use HTTP instead. Connections of web clients may not work.",
            );
            TlsStep::Tell { message }
        },
    }
}

// ── Laws ──────────────────────────────────────────────────────────────────────

/// The certificate of the bridge is for this machine, by its number and its name.
pub proof fn certificates_are_for_this_machine(cert: rcgen::Certificate)
    requires
        is_local(cert),
    ensures
        hosts(params_of(cert)) == seq![host_named("127.0.0.1"@), host_named("localhost"@)],
        common_name(params_of(cert)) == "Overfry Local"@,
{
}

/// A certificate and a key make a configuration where both can be read and belong together;
/// without a key there is none.
pub proof fn readable_pairs_make_a_configuration(
    cert_pem: Seq<char>,
    key_pem: Seq<char>,
    certs: Seq<CertificateDer<'static>>,
    key: PrivateKeyDer<'static>,
)
    requires
        certs_in(cert_pem) == Ok::<Seq<CertificateDer<'static>>, Seq<char>>(certs),
    ensures
        key_in(key_pem) == Ok::<Option<PrivateKeyDer<'static>>, Seq<char>>(Some(key)) ==> tls_refusal(cert_pem, key_pem)
            == config_refusal(certs, key),
        key_in(key_pem) == Ok::<Option<PrivateKeyDer<'static>>, Seq<char>>(None) ==> tls_refusal(cert_pem, key_pem) == Some(
            "no private key"@,
        ),
{
}

/// The stored certificate is used where it is there with its key; otherwise one is made.
pub proof fn stored_certificates_are_used(cert_exists: bool, key_exists: bool)
    ensures
        cert_source(cert_exists, key_exists) == CertSource::Stored <==> cert_exists && key_exists,
{
}

} // verus!
