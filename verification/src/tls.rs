//! Certificates and keys for TLS.

use crate::errors::{Cause, DoHError, IoErrorKind, IoFailure};
use crate::text;
use tokio_rustls::rustls::pki_types::{
    CertificateDer, PrivateKeyDer, PrivatePkcs1KeyDer, PrivatePkcs8KeyDer,
};
use tokio_rustls::rustls::ServerConfig;
use vstd::prelude::*;
use vstd::utf8::*;

verus! {

/// A private key in one of the formats that are taken.
#[derive(Clone, Debug)]
pub enum PrivateKey {
    Pkcs8(Vec<u8>),
    Pkcs1(Vec<u8>),
}

/// What a private key is.
pub enum KeyView {
    Pkcs8(Seq<u8>),
    Pkcs1(Seq<u8>),
}

impl View for PrivateKey {
    type V = KeyView;

    open spec fn view(&self) -> KeyView {
        match *self {
            PrivateKey::Pkcs8(bytes) => KeyView::Pkcs8(bytes@),
            PrivateKey::Pkcs1(bytes) => KeyView::Pkcs1(bytes@),
        }
    }
}

/// The bytes of each item of a list.
pub open spec fn items(list: Seq<Vec<u8>>) -> Seq<Seq<u8>> {
    list.map_values(|item: Vec<u8>| item@)
}

/// The items that were read, or why they could not be.
pub open spec fn items_result(r: Result<Vec<Vec<u8>>, String>) -> Result<
    Seq<Seq<u8>>,
    Seq<char>,
> {
    match r {
        Ok(list) => Ok(items(list@)),
        Err(reason) => Err(reason@),
    }
}

/// The certificates in a PEM text, or why they cannot be read.
pub uninterp spec fn pem_certs(pem: Seq<u8>) -> Result<Seq<Seq<u8>>, Seq<char>>;

/// `rustls_pemfile::certs`, on the bytes of a file: the certificates in their order, each as its
/// bytes, or the text of the first error.
#[verifier::external_body]
fn read_certs(pem: &[u8]) -> (r: Result<Vec<Vec<u8>>, String>)
    ensures
        items_result(r) == pem_certs(pem@),
{
    rustls_pemfile::certs(&mut &pem[..])
        .map(|item| item.map(|cert| cert.to_vec()).map_err(|e| e.to_string()))
        .collect()
}

/// The PKCS#8 keys in a PEM text, or why they cannot be read.
pub uninterp spec fn pem_pkcs8_keys(pem: Seq<u8>) -> Result<Seq<Seq<u8>>, Seq<char>>;

/// `rustls_pemfile::pkcs8_private_keys`, on the bytes of a file: the PKCS#8 keys in their order,
/// each as its bytes, or the text of the first error.
#[verifier::external_body]
fn read_pkcs8_keys(pem: &[u8]) -> (r: Result<Vec<Vec<u8>>, String>)
    ensures
        items_result(r) == pem_pkcs8_keys(pem@),
{
    rustls_pemfile::pkcs8_private_keys(&mut &pem[..])
        .map(|item| item.map(|key| key.secret_pkcs8_der().to_vec()).map_err(|e| e.to_string()))
        .collect()
}

/// The RSA keys in a PEM text, or why they cannot be read.
pub uninterp spec fn pem_rsa_keys(pem: Seq<u8>) -> Result<Seq<Seq<u8>>, Seq<char>>;

/// `rustls_pemfile::rsa_private_keys`, on the bytes of a file: the RSA keys in their order, each
/// as its bytes, or the text of the first error.
#[verifier::external_body]
fn read_rsa_keys(pem: &[u8]) -> (r: Result<Vec<Vec<u8>>, String>)
    ensures
        items_result(r) == pem_rsa_keys(pem@),
{
    rustls_pemfile::rsa_private_keys(&mut &pem[..])
        .map(|item| item.map(|key| key.secret_pkcs1_der().to_vec()).map_err(|e| e.to_string()))
        .collect()
}

/// A failure with a text of the library.
pub open spec fn is_failure(e: IoFailure, kind: IoErrorKind, message: Seq<char>) -> bool {
    e.kind == kind && e.message@ == message && e.source == Some(Box::new(Cause::Other))
}

fn failure(kind: IoErrorKind, message: String) -> (e: IoFailure)
    ensures
        is_failure(e, kind, message@),
{
    IoFailure { kind, message, source: Some(Box::new(Cause::Other)) }
}

/// The failure to open the file with the certificates.
pub fn certs_unreadable(path: &str, err: &IoFailure) -> (e: IoFailure)
    ensures
        is_failure(
            e,
            err.kind,
            "Unable to load the certificates ["@ + path@ + "]: "@ + err.message@,
        ),
{
    let mut m = text::joined("Unable to load the certificates [", path);
    m.append("]: ");
    m.append(err.message.as_str());
    failure(err.kind, m)
}

/// The failure to open the file with the keys.
pub fn keys_unreadable(path: &str, err: &IoFailure) -> (e: IoFailure)
    ensures
        is_failure(
            e,
            err.kind,
            "Unable to load the certificate keys ["@ + path@ + "]: "@ + err.message@,
        ),
{
    let mut m = text::joined("Unable to load the certificate keys [", path);
    m.append("]: ");
    m.append(err.message.as_str());
    failure(err.kind, m)
}

/// Takes certificates that were read, or the reason why they were not.
pub fn check_certs(read: Result<Vec<Vec<u8>>, String>) -> (r: Result<Vec<Vec<u8>>, IoFailure>)
    ensures
        match read {
            Ok(list) => r == Ok::<Vec<Vec<u8>>, IoFailure>(list),
            Err(reason) => r matches Err(e) && is_failure(
                e,
                IoErrorKind::InvalidInput,
                "Unable to parse the certificates: "@ + reason@,
            ),
        },
{
    match read {
        Ok(list) => Ok(list),
        Err(reason) => Err(
            failure(
                IoErrorKind::InvalidInput,
                text::joined("Unable to parse the certificates: ", reason.as_str()),
            ),
        ),
    }
}

/// The certificates in the bytes of a file.
pub fn certificates(pem: &[u8]) -> (r: Result<Vec<Vec<u8>>, IoFailure>)
    ensures
        match pem_certs(pem@) {
            Ok(list) => r matches Ok(found) && items(found@) == list,
            Err(reason) => r matches Err(e) && is_failure(
                e,
                IoErrorKind::InvalidInput,
                "Unable to parse the certificates: "@ + reason,
            ),
        },
{
    check_certs(read_certs(pem))
}

/// What keys are.
pub open spec fn key_views(keys: Seq<PrivateKey>) -> Seq<KeyView> {
    keys.map_values(|k: PrivateKey| k@)
}

/// Keys in either format, those in PKCS#8 first.
pub open spec fn all_keys(pkcs8: Seq<Seq<u8>>, rsa: Seq<Seq<u8>>) -> Seq<KeyView> {
    pkcs8.map_values(|k: Seq<u8>| KeyView::Pkcs8(k)) + rsa.map_values(
        |k: Seq<u8>| KeyView::Pkcs1(k),
    )
}

/// What the reading of keys comes to: the keys, or the message of the first failure. There has to
/// be a key.
pub open spec fn keys_result(
    pkcs8: Result<Seq<Seq<u8>>, Seq<char>>,
    rsa: Result<Seq<Seq<u8>>, Seq<char>>,
) -> Result<Seq<KeyView>, Seq<char>> {
    match (pkcs8, rsa) {
        (Err(reason), _) => Err(
            "Unable to parse the certificates private keys (PKCS8): "@ + reason,
        ),
        (_, Err(reason)) => Err("Unable to parse the certificates private keys (RSA): "@ + reason),
        (Ok(a), Ok(b)) => if a.len() + b.len() == 0 {
            Err("No private keys found - Make sure that they are in PKCS#8/PEM format"@)
        } else {
            Ok(all_keys(a, b))
        },
    }
}

/// The outcome is as it should be: these keys, or a failure with this message.
pub open spec fn keys_are(
    r: Result<Vec<PrivateKey>, IoFailure>,
    expected: Result<Seq<KeyView>, Seq<char>>,
) -> bool {
    match expected {
        Ok(keys) => r matches Ok(found) && key_views(found@) == keys,
        Err(m) => r matches Err(e) && is_failure(e, IoErrorKind::InvalidInput, m),
    }
}

/// Puts keys together that were read in either format.
pub fn check_keys(
    pkcs8: Result<Vec<Vec<u8>>, String>,
    rsa: Result<Vec<Vec<u8>>, String>,
) -> (r: Result<Vec<PrivateKey>, IoFailure>)
    ensures
        keys_are(r, keys_result(items_result(pkcs8), items_result(rsa))),
{
    let pkcs8_keys = match pkcs8 {
        Ok(keys) => keys,
        Err(reason) => {
            return Err(
                failure(
                    IoErrorKind::InvalidInput,
                    text::joined(
                        "Unable to parse the certificates private keys (PKCS8): ",
                        reason.as_str(),
                    ),
                ),
            );
        },
    };
    let rsa_keys = match rsa {
        Ok(keys) => keys,
        Err(reason) => {
            return Err(
                failure(
                    IoErrorKind::InvalidInput,
                    text::joined(
                        "Unable to parse the certificates private keys (RSA): ",
                        reason.as_str(),
                    ),
                ),
            );
        },
    };
    let mut keys: Vec<PrivateKey> = Vec::new();
    let mut i: usize = 0;
    while i < pkcs8_keys.len()
        invariant
            i <= pkcs8_keys@.len(),
            keys@.len() == i,
            forall|j: int|
                0 <= j < i ==> (#[trigger] keys@[j])@ == KeyView::Pkcs8(pkcs8_keys@[j]@),
        decreases pkcs8_keys@.len() - i,
    {
        keys.push(PrivateKey::Pkcs8(copy_item(&pkcs8_keys[i])));
        i = i + 1;
    }
    let mut k: usize = 0;
    while k < rsa_keys.len()
        invariant
            k <= rsa_keys@.len(),
            keys@.len() == pkcs8_keys@.len() + k,
            forall|j: int|
                0 <= j < pkcs8_keys@.len() ==> (#[trigger] keys@[j])@ == KeyView::Pkcs8(
                    pkcs8_keys@[j]@,
                ),
            forall|j: int|
                pkcs8_keys@.len() <= j < keys@.len() ==> (#[trigger] keys@[j])@ == KeyView::Pkcs1(
                    rsa_keys@[j - pkcs8_keys@.len()]@,
                ),
        decreases rsa_keys@.len() - k,
    {
        keys.push(PrivateKey::Pkcs1(copy_item(&rsa_keys[k])));
        k = k + 1;
    }
    if keys.len() == 0 {
        return Err(
            failure(
                IoErrorKind::InvalidInput,
                "No private keys found - Make sure that they are in PKCS#8/PEM format".to_owned(),
            ),
        );
    }
    assert(key_views(keys@) =~= all_keys(items(pkcs8_keys@), items(rsa_keys@)));
    Ok(keys)
}

fn copy_item(item: &Vec<u8>) -> (copy: Vec<u8>)
    ensures
        copy@ == item@,
{
    let copy = crate::wire::copy_range(item.as_slice(), 0, item.len());
    assert(copy@ =~= item@);
    copy
}

/// The keys in the bytes of a file.
pub fn private_keys(pem: &[u8]) -> (r: Result<Vec<PrivateKey>, IoFailure>)
    ensures
        keys_are(r, keys_result(pem_pkcs8_keys(pem@), pem_rsa_keys(pem@))),
{
    check_keys(read_pkcs8_keys(pem), read_rsa_keys(pem))
}

/// The failure where no key goes with the certificates.
pub fn no_valid_pair() -> (e: IoFailure)
    ensures
        is_failure(
            e,
            IoErrorKind::InvalidInput,
            "Unable to find a valid certificate and key"@,
        ),
{
    failure(
        IoErrorKind::InvalidInput,
        "Unable to find a valid certificate and key".to_owned(),
    )
}

/// The configuration of a TLS server, as `rustls` holds it.
#[verifier::external_type_specification]
#[verifier::external_body]
pub struct ExServerConfig(ServerConfig);

/// `ServerConfig::builder` of `rustls`, with no client authentication, these certificates and this
/// key, and the protocols to offer. The features of the crates name one provider of cryptography,
/// so the builder has one; a process may install another before. Whether the key goes with the
/// certificates is that provider's decision: nothing is claimed of it. It is public because the
/// contract of `create_tls_acceptor` says in which order it is asked, and with what.
#[verifier::external_body]
pub fn server_config(
    certs: &Vec<Vec<u8>>,
    key: &PrivateKey,
    protocols: &Vec<Vec<u8>>,
) -> (config: Option<ServerConfig>) {
    let certs = certs.iter().map(|cert| CertificateDer::from(cert.clone())).collect();
    let key = match key {
        PrivateKey::Pkcs8(der) => PrivateKeyDer::from(PrivatePkcs8KeyDer::from(der.clone())),
        PrivateKey::Pkcs1(der) => PrivateKeyDer::from(PrivatePkcs1KeyDer::from(der.clone())),
    };
    let builder = ServerConfig::builder().with_no_client_auth();
    let mut config = builder.with_single_cert(certs, key).ok()?;
    config.alpn_protocols = protocols.clone();
    Some(config)
}

/// What tries a key with certificates gives `c` for the key at `i`, and gave nothing for those
/// before it.
pub open spec fn first_at<
    F: Fn(&Vec<Vec<u8>>, &PrivateKey, &Vec<Vec<u8>>) -> Option<ServerConfig>,
>(
    pair: F,
    certs: &Vec<Vec<u8>>,
    keys: Seq<PrivateKey>,
    protocols: &Vec<Vec<u8>>,
    i: int,
    c: ServerConfig,
) -> bool {
    &&& 0 <= i < keys.len()
    &&& call_ensures(pair, (certs, &keys[i], protocols), Some(c))
    &&& forall|j: int|
        0 <= j < i ==> #[trigger] call_ensures(
            pair,
            (certs, &keys[j], protocols),
            None::<ServerConfig>,
        )
}

/// The keys were tried in their order, each with the certificates and the protocols: the outcome
/// is what came of the first that was accepted, or the failure where none was.
pub open spec fn tried_in_order<
    F: Fn(&Vec<Vec<u8>>, &PrivateKey, &Vec<Vec<u8>>) -> Option<ServerConfig>,
>(
    pair: F,
    certs: &Vec<Vec<u8>>,
    keys: Seq<PrivateKey>,
    protocols: &Vec<Vec<u8>>,
    r: Result<ServerConfig, IoFailure>,
) -> bool {
    match r {
        Ok(c) => exists|i: int| #[trigger] first_at(pair, certs, keys, protocols, i, c),
        Err(e) => {
            &&& is_failure(
                e,
                IoErrorKind::InvalidInput,
                "Unable to find a valid certificate and key"@,
            )
            &&& forall|j: int|
                0 <= j < keys.len() ==> #[trigger] call_ensures(
                    pair,
                    (certs, &keys[j], protocols),
                    None::<ServerConfig>,
                )
        },
    }
}

proof fn lemma_found<
    F: Fn(&Vec<Vec<u8>>, &PrivateKey, &Vec<Vec<u8>>) -> Option<ServerConfig>,
>(
    pair: F,
    certs: &Vec<Vec<u8>>,
    keys: Seq<PrivateKey>,
    protocols: &Vec<Vec<u8>>,
    i: int,
    c: ServerConfig,
)
    requires
        first_at(pair, certs, keys, protocols, i, c),
    ensures
        tried_in_order(pair, certs, keys, protocols, Ok::<ServerConfig, IoFailure>(c)),
{
    let r = Ok::<ServerConfig, IoFailure>(c);
    assert(first_at(pair, certs, keys, protocols, i, r->Ok_0));
}

/// Tries keys in their order until one is accepted with the certificates. `pair` makes the
/// configuration, where the key goes with the certificates.
pub fn first_accepted<F: Fn(&Vec<Vec<u8>>, &PrivateKey, &Vec<Vec<u8>>) -> Option<ServerConfig>>(
    pair: F,
    certs: &Vec<Vec<u8>>,
    keys: &Vec<PrivateKey>,
    protocols: &Vec<Vec<u8>>,
) -> (r: Result<ServerConfig, IoFailure>)
    requires
        forall|key: &PrivateKey| #[trigger] call_requires(pair, (certs, key, protocols)),
    ensures
        tried_in_order(pair, certs, keys@, protocols, r),
{
    let mut tried: usize = 0;
    while tried < keys.len()
        invariant
            tried <= keys@.len(),
            forall|key: &PrivateKey| #[trigger] call_requires(pair, (certs, key, protocols)),
            forall|j: int|
                0 <= j < tried ==> #[trigger] call_ensures(
                    pair,
                    (certs, &keys@[j], protocols),
                    None::<ServerConfig>,
                ),
        decreases keys@.len() - tried,
    {
        let answer = pair(certs, &keys[tried], protocols);
        match answer {
            Some(config) => {
                proof {
                    lemma_found(pair, certs, keys@, protocols, tried as int, config);
                }
                return Ok(config);
            },
            None => {},
        }
        tried = tried + 1;
    }
    Err(no_valid_pair())
}

/// The protocols to offer: HTTP/2, and HTTP/1.1 where a client has not that.
fn alpn_protocols() -> (protocols: Vec<Vec<u8>>)
    ensures
        items(protocols@) == seq![encode_utf8("h2"@), encode_utf8("http/1.1"@)],
{
    let mut protocols: Vec<Vec<u8>> = Vec::new();
    protocols.push(vstd::slice::slice_to_vec("h2".as_bytes()));
    protocols.push(vstd::slice::slice_to_vec("http/1.1".as_bytes()));
    assert(items(protocols@) =~= seq![encode_utf8("h2"@), encode_utf8("http/1.1"@)]);
    protocols
}

/// The message of the failure with which the certificates and keys of two files are refused
/// before any pair of them is tried.
pub open spec fn tls_refusal(certs_pem: Seq<u8>, keys_pem: Seq<u8>) -> Option<Seq<char>> {
    match pem_certs(certs_pem) {
        Err(reason) => Some("Unable to parse the certificates: "@ + reason),
        Ok(_) => match keys_result(pem_pkcs8_keys(keys_pem), pem_rsa_keys(keys_pem)) {
            Err(m) => Some(m),
            Ok(_) => None,
        },
    }
}

/// These are the certificates and the keys of two files, and the protocols that a server offers:
/// HTTP/2 first.
pub open spec fn pairing(
    certs_pem: Seq<u8>,
    keys_pem: Seq<u8>,
    certs: Vec<Vec<u8>>,
    keys: Vec<PrivateKey>,
    protocols: Vec<Vec<u8>>,
) -> bool {
    &&& pem_certs(certs_pem) == Ok::<Seq<Seq<u8>>, Seq<char>>(items(certs@))
    &&& keys_result(pem_pkcs8_keys(keys_pem), pem_rsa_keys(keys_pem)) == Ok::<
        Seq<KeyView>,
        Seq<char>,
    >(key_views(keys@))
    &&& items(protocols@) == seq![encode_utf8("h2"@), encode_utf8("http/1.1"@)]
}

/// The configuration of a server with the certificates of one file and the first of the keys of
/// another that `server_config` accepts with them.
pub fn create_tls_acceptor(certs_pem: &[u8], keys_pem: &[u8]) -> (r: Result<
    ServerConfig,
    IoFailure,
>)
    ensures
        match tls_refusal(certs_pem@, keys_pem@) {
            Some(m) => r matches Err(e) && is_failure(e, IoErrorKind::InvalidInput, m),
            None => exists|certs: Vec<Vec<u8>>, keys: Vec<PrivateKey>, protocols: Vec<Vec<u8>>|
                #[trigger] pairing(certs_pem@, keys_pem@, certs, keys, protocols)
                    && tried_in_order(server_config, &certs, keys@, &protocols, r),
        },
{
    let certs = match certificates(certs_pem) {
        Ok(certs) => certs,
        Err(e) => {
            return Err(e);
        },
    };
    let keys = match private_keys(keys_pem) {
        Ok(keys) => keys,
        Err(e) => {
            return Err(e);
        },
    };
    let protocols = alpn_protocols();
    let r = first_accepted(server_config, &certs, &keys, &protocols);
    assert(pairing(certs_pem@, keys_pem@, certs, keys, protocols));
    r
}

/// Whether the settings ask for TLS: both files are named.
pub fn tls_enabled(cert_path: &Option<String>, key_path: &Option<String>) -> (yes: bool)
    ensures
        yes == (cert_path is Some && key_path is Some),
{
    cert_path.is_some() && key_path.is_some()
}

/// The files for TLS, or the error where one is not named.
pub fn tls_paths(cert_path: &Option<String>, key_path: &Option<String>) -> (r: Result<
    (String, String),
    DoHError,
>)
    ensures
        match (*cert_path, *key_path) {
            (Some(cert), Some(key)) => r matches Ok((c, k)) && c@ == cert@ && k@ == key@,
            (None, _) => r matches Err(DoHError::Io(e)) && is_failure(
                e,
                IoErrorKind::NotFound,
                "TLS certificate path not provided"@,
            ),
            (_, None) => r matches Err(DoHError::Io(e)) && is_failure(
                e,
                IoErrorKind::NotFound,
                "TLS certificate key path not provided"@,
            ),
        },
{
    match (cert_path, key_path) {
        (Some(cert), Some(key)) => Ok((cert.clone(), key.clone())),
        (None, _) => Err(
            DoHError::Io(
                failure(
                    IoErrorKind::NotFound,
                    "TLS certificate path not provided".to_owned(),
                ),
            ),
        ),
        (_, None) => Err(
            DoHError::Io(
                failure(
                    IoErrorKind::NotFound,
                    "TLS certificate key path not provided".to_owned(),
                ),
            ),
        ),
    }
}

/// All keys of a file count, those in PKCS#8 before those in PKCS#1, each as its bytes; there has
/// to be one.
pub proof fn law_all_keys_count(pkcs8: Seq<Seq<u8>>, rsa: Seq<Seq<u8>>, i: int)
    ensures
        keys_result(Ok(pkcs8), Ok(rsa)) is Ok <==> pkcs8.len() > 0 || rsa.len() > 0,
        keys_result(Ok(pkcs8), Ok(rsa)) matches Ok(keys) ==> keys.len() == pkcs8.len() + rsa.len()
            && (0 <= i < pkcs8.len() ==> keys[i] == KeyView::Pkcs8(pkcs8[i])) && (0 <= i < rsa.len()
            ==> keys[pkcs8.len() + i] == KeyView::Pkcs1(rsa[i])),
        keys_result(Ok(Seq::empty()), Ok(Seq::empty())) == Err::<Seq<KeyView>, Seq<char>>(
            "No private keys found - Make sure that they are in PKCS#8/PEM format"@,
        ),
{
}

/// Where either format cannot be read, that is what is said, of PKCS#8 first.
pub proof fn law_unreadable_keys(
    reason: Seq<char>,
    rsa: Result<Seq<Seq<u8>>, Seq<char>>,
    pkcs8: Seq<Seq<u8>>,
)
    ensures
        keys_result(Err(reason), rsa) == Err::<Seq<KeyView>, Seq<char>>(
            "Unable to parse the certificates private keys (PKCS8): "@ + reason,
        ),
        keys_result(Ok(pkcs8), Err(reason)) == Err::<Seq<KeyView>, Seq<char>>(
            "Unable to parse the certificates private keys (RSA): "@ + reason,
        ),
{
}

/// The outcome of reading keys holds all of them, in their order, or the message in a failure of
/// the input.
pub proof fn law_keys_are_handed_on(
    r: Result<Vec<PrivateKey>, IoFailure>,
    keys: Seq<KeyView>,
    m: Seq<char>,
)
    ensures
        keys_are(r, Ok(keys)) ==> (r matches Ok(found) && found@.len() == keys.len() && forall|i: int|
            0 <= i < keys.len() ==> (#[trigger] found@[i])@ == keys[i]),
        keys_are(r, Err(m)) ==> (r matches Err(e) && e.kind is InvalidInput && e.message@ == m),
{
    if keys_are(r, Ok(keys)) {
        let found = r->Ok_0@;
        assert forall|i: int| 0 <= i < keys.len() implies (#[trigger] found[i])@ == keys[i] by {
            assert(key_views(found)[i] == found[i]@);
        }
    }
}

/// Files are refused before any key is tried exactly where the certificates cannot be read, a key
/// cannot be read, or there is no key.
pub proof fn law_refused_files(certs_pem: Seq<u8>, keys_pem: Seq<u8>)
    ensures
        tls_refusal(certs_pem, keys_pem) is None <==> (pem_certs(certs_pem) is Ok
            && pem_pkcs8_keys(keys_pem) is Ok && pem_rsa_keys(keys_pem) is Ok && pem_pkcs8_keys(
            keys_pem,
        )->Ok_0.len() + pem_rsa_keys(keys_pem)->Ok_0.len() > 0),
        pem_certs(certs_pem) matches Err(reason) ==> tls_refusal(certs_pem, keys_pem) == Some(
            "Unable to parse the certificates: "@ + reason,
        ),
{
}

/// What is tried is every certificate and every key, and the protocols are HTTP/2 and HTTP/1.1.
pub proof fn law_what_is_tried(
    certs_pem: Seq<u8>,
    keys_pem: Seq<u8>,
    certs: Vec<Vec<u8>>,
    keys: Vec<PrivateKey>,
    protocols: Vec<Vec<u8>>,
)
    requires
        pairing(certs_pem, keys_pem, certs, keys, protocols),
    ensures
        pem_certs(certs_pem) == Ok::<Seq<Seq<u8>>, Seq<char>>(
            Seq::new(certs@.len(), |i: int| certs@[i]@),
        ),
        keys_result(pem_pkcs8_keys(keys_pem), pem_rsa_keys(keys_pem)) == Ok::<
            Seq<KeyView>,
            Seq<char>,
        >(Seq::new(keys@.len(), |i: int| keys@[i]@)),
        protocols@.len() == 2,
        protocols@[0]@ == encode_utf8("h2"@),
        protocols@[1]@ == encode_utf8("http/1.1"@),
{
    assert(items(certs@) =~= Seq::new(certs@.len(), |i: int| certs@[i]@));
    assert(key_views(keys@) =~= Seq::new(keys@.len(), |i: int| keys@[i]@));
    assert(items(protocols@).len() == 2);
    assert(items(protocols@)[0] == protocols@[0]@ && items(protocols@)[1] == protocols@[1]@);
}

/// The configuration comes of the first key that is accepted: none before it was.
pub proof fn law_first_accepted_key_counts<
    F: Fn(&Vec<Vec<u8>>, &PrivateKey, &Vec<Vec<u8>>) -> Option<ServerConfig>,
>(
    pair: F,
    certs: &Vec<Vec<u8>>,
    keys: Seq<PrivateKey>,
    protocols: &Vec<Vec<u8>>,
    r: Result<ServerConfig, IoFailure>,
)
    requires
        tried_in_order(pair, certs, keys, protocols, r),
    ensures
        match r {
            Ok(c) => exists|i: int|
                0 <= i < keys.len() && #[trigger] call_ensures(
                    pair,
                    (certs, &keys[i], protocols),
                    Some(c),
                ) && forall|j: int|
                    0 <= j < i ==> #[trigger] call_ensures(
                        pair,
                        (certs, &keys[j], protocols),
                        None::<ServerConfig>,
                    ),
            Err(e) => e.kind is InvalidInput && e.message@
                == "Unable to find a valid certificate and key"@ && forall|j: int|
                0 <= j < keys.len() ==> #[trigger] call_ensures(
                    pair,
                    (certs, &keys[j], protocols),
                    None::<ServerConfig>,
                ),
        },
{
    if let Ok(c) = r {
        let i = choose|i: int| #[trigger] first_at(pair, certs, keys, protocols, i, c);
        assert(first_at(pair, certs, keys, protocols, i, c));
        assert(call_ensures(pair, (certs, &keys[i], protocols), Some(c)));
    }
}

} // verus!
