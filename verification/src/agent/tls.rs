//! What TLS connections are made with.
use crate::domain::scenario::{Protocol, Scenario};
use crate::domain::tls::{version_has_cipher, TlsVersion};
use crate::text::{append, copy, maybe, same_text, string_views};
use vstd::prelude::*;

verus! {

/// The certificates in a PEM text, in DER form.
pub uninterp spec fn pem_certificates_of(pem: Seq<char>) -> Result<Seq<Seq<u8>>, Seq<char>>;

/// The private key in a PEM text, in DER form.
pub uninterp spec fn pem_key_of(pem: Seq<char>) -> Result<Option<Seq<u8>>, Seq<char>>;

/// How many certificates in DER form can serve as trust anchors.
pub uninterp spec fn usable_roots_of(certificates: Seq<Seq<u8>>) -> nat;

/// What is wrong with the name of a server.
pub uninterp spec fn server_name_problem(name: Seq<char>) -> Option<Seq<char>>;

/// The bytes of each item.
pub open spec fn byte_lists(list: Seq<Vec<u8>>) -> Seq<Seq<u8>> {
    list.map_values(|item: Vec<u8>| item@)
}

/// Certificates, or why there are none, as plain values.
pub open spec fn certificates_view(r: Result<Vec<Vec<u8>>, String>) -> Result<
    Seq<Seq<u8>>,
    Seq<char>,
> {
    match r {
        Ok(list) => Ok(byte_lists(list@)),
        Err(message) => Err(message@),
    }
}

/// A key, or why there is none, as plain values.
pub open spec fn key_view(r: Result<Option<Vec<u8>>, String>) -> Result<Option<Seq<u8>>, Seq<char>> {
    match r {
        Ok(Some(key)) => Ok(Some(key@)),
        Ok(None) => Ok(None),
        Err(message) => Err(message@),
    }
}

/// `rustls_pemfile::certs`: the certificates in a PEM text, in their order, or the first error.
/// How the text is read is not stated; the result depends on it alone.
#[verifier::external_body]
fn read_certificates(pem: &str) -> (r: Result<Vec<Vec<u8>>, String>)
    ensures
        certificates_view(r) == pem_certificates_of(pem@),
{
    rustls_pemfile::certs(&mut std::io::Cursor::new(pem.as_bytes()))
        .map(|item| item.map(|der| der.to_vec()).map_err(|error| error.to_string()))
        .collect()
}

/// `rustls_pemfile::private_key`: the first private key in a PEM text, none, or an error. How the
/// text is read is not stated; the result depends on it alone.
#[verifier::external_body]
fn read_key(pem: &str) -> (r: Result<Option<Vec<u8>>, String>)
    ensures
        key_view(r) == pem_key_of(pem@),
{
    rustls_pemfile::private_key(&mut std::io::Cursor::new(pem.as_bytes()))
        .map(|key| key.map(|key| key.secret_der().to_vec()))
        .map_err(|error| error.to_string())
}

/// `rustls::RootCertStore::add_parsable_certificates`: how many of the certificates it adds to an
/// empty store, which is no more than there are. Which ones it adds is not stated; the number
/// depends on the certificates alone.
#[verifier::external_body]
fn count_roots(certificates: &Vec<Vec<u8>>) -> (r: usize)
    ensures
        r == usable_roots_of(byte_lists(certificates@)),
        r <= certificates@.len(),
{
    rustls::RootCertStore::empty().add_parsable_certificates(
        certificates.iter().map(|der| rustls::pki_types::CertificateDer::from(der.as_slice())),
    ).0
}

/// `rustls::pki_types::ServerName::try_from`: what is wrong with a name, which depends on it alone.
#[verifier::external_body]
fn check_server_name(name: &str) -> (r: Result<(), String>)
    ensures
        match r {
            Ok(_) => server_name_problem(name@) is None,
            Err(message) => server_name_problem(name@) == Some(message@),
        },
{
    rustls::pki_types::ServerName::try_from(name).map(|_| ()).map_err(|error| error.to_string())
}

/// The cipher suites that are there, in the order in which they are preferred.
pub open spec fn provider_suites() -> Seq<Seq<char>> {
    seq![
        "TLS13_AES_256_GCM_SHA384"@,
        "TLS13_AES_128_GCM_SHA256"@,
        "TLS13_CHACHA20_POLY1305_SHA256"@,
        "TLS_ECDHE_ECDSA_WITH_AES_256_GCM_SHA384"@,
        "TLS_ECDHE_ECDSA_WITH_AES_128_GCM_SHA256"@,
        "TLS_ECDHE_ECDSA_WITH_CHACHA20_POLY1305_SHA256"@,
        "TLS_ECDHE_RSA_WITH_AES_256_GCM_SHA384"@,
        "TLS_ECDHE_RSA_WITH_AES_128_GCM_SHA256"@,
        "TLS_ECDHE_RSA_WITH_CHACHA20_POLY1305_SHA256"@,
    ]
}

/// `rustls::crypto::ring::default_provider`: the names of the cipher suites that it has, with TLS
/// 1.2 among its features.
#[verifier::external_body]
fn suite_names() -> (r: Vec<String>)
    ensures
        string_views(r@) == provider_suites(),
{
    rustls::crypto::ring::default_provider()
        .cipher_suites
        .iter()
        .map(|suite| format!("{:?}", suite.suite()))
        .collect()
}

/// The positions, before `n`, at which a name stands in a list.
pub open spec fn positions_of(list: Seq<Seq<char>>, name: Seq<char>, n: int) -> Seq<int>
    decreases n,
{
    if n <= 0 {
        Seq::empty()
    } else if list[n - 1] == name {
        positions_of(list, name, n - 1).push(n - 1)
    } else {
        positions_of(list, name, n - 1)
    }
}

/// All positions in a list of this length.
pub open spec fn all_positions(length: int) -> Seq<int> {
    Seq::new(length as nat, |i: int| i)
}

/// The cipher suites that are used, by their positions among those that are there: all of them,
/// or those with the configured name. It is an error if there are none.
pub open spec fn suites_of(available: Seq<Seq<char>>, configured: Option<Seq<char>>) -> Result<
    Seq<int>,
    Seq<char>,
> {
    match configured {
        None => Ok(all_positions(available.len() as int)),
        Some(name) => {
            let found = positions_of(available, name, available.len() as int);
            if found.len() == 0 {
                Err("configured TLS cipher suite is unavailable: "@ + name)
            } else {
                Ok(found)
            }
        },
    }
}

proof fn names_are_found(list: Seq<Seq<char>>, name: Seq<char>, at: int, n: int)
    requires
        0 <= at < n <= list.len(),
        list[at] == name,
    ensures
        positions_of(list, name, n).len() > 0,
    decreases n,
{
    if at < n - 1 {
        names_are_found(list, name, at, n - 1);
    }
}

/// Every cipher suite that a version of TLS has is there.
pub proof fn valid_cipher_suites_are_there(version: TlsVersion, name: Seq<char>)
    requires
        version_has_cipher(version, name),
    ensures
        suites_of(provider_suites(), Some(name)) is Ok,
{
    let list = provider_suites();
    let at = choose|i: int| 0 <= i < 9 && list[i] == name;
    assert(list[0] == name || list[1] == name || list[2] == name || list[3] == name || list[4]
        == name || list[5] == name || list[6] == name || list[7] == name || list[8] == name);
    names_are_found(list, name, at, 9);
}

/// The positions as numbers.
pub open spec fn positions_view(list: Seq<usize>) -> Seq<int> {
    list.map_values(|i: usize| i as int)
}

/// The cipher suites that are used, by their positions among those that are there.
pub fn select_suites(available: &Vec<String>, configured: &Option<String>) -> (r: Result<
    Vec<usize>,
    String,
>)
    ensures
        match r {
            Ok(list) => suites_of(string_views(available@), maybe(*configured)) == Ok::<
                Seq<int>,
                Seq<char>,
            >(positions_view(list@)),
            Err(message) => suites_of(string_views(available@), maybe(*configured)) == Err::<
                Seq<int>,
                Seq<char>,
            >(message@),
        },
{
    let ghost views = string_views(available@);
    let mut found: Vec<usize> = Vec::new();
    let mut i: usize = 0;
    while i < available.len()
        invariant
            i <= available@.len(),
            views == string_views(available@),
            match maybe(*configured) {
                Some(name) => positions_view(found@) == positions_of(views, name, i as int),
                None => positions_view(found@) == all_positions(i as int),
            },
        decreases available@.len() - i,
    {
        let ghost before = found@;
        let wanted: bool = match configured {
            Some(name) => same_text(available[i].as_str(), name.as_str()),
            None => true,
        };
        if wanted {
            found.push(i);
            assert(positions_view(found@) =~= positions_view(before).push(i as int));
            assert(all_positions(i + 1) =~= all_positions(i as int).push(i as int));
        }
        i += 1;
    }
    match configured {
        Some(name) => {
            if found.len() == 0 {
                let mut message = copy("configured TLS cipher suite is unavailable: ");
                append(&mut message, name.as_str());
                return Err(message);
            }
            Ok(found)
        },
        None => Ok(found),
    }
}

/// What a client makes TLS connections with.
#[derive(Debug, Clone, PartialEq, Eq)]
pub struct ClientTls {
    /// The positions of the cipher suites among those that are there.
    pub suites: Vec<usize>,
    pub tls13: bool,
    /// The certificates that the server is verified by; without them it is not verified.
    pub roots: Option<Vec<Vec<u8>>>,
    /// Whether HTTP/2 is offered.
    pub http2: bool,
    pub server_name: String,
}

/// What a client makes TLS connections with, as plain values.
#[verifier::ext_equal]
pub struct ClientTlsView {
    pub suites: Seq<int>,
    pub tls13: bool,
    pub roots: Option<Seq<Seq<u8>>>,
    pub http2: bool,
    pub server_name: Seq<char>,
}

impl View for ClientTls {
    type V = ClientTlsView;

    open spec fn view(&self) -> ClientTlsView {
        ClientTlsView {
            suites: positions_view(self.suites@),
            tls13: self.tls13,
            roots: match self.roots {
                Some(list) => Some(byte_lists(list@)),
                None => None,
            },
            http2: self.http2,
            server_name: self.server_name@,
        }
    }
}

/// The certificates that a server is verified by: those of the CA, of which one must be usable.
pub open spec fn roots_of(scenario: Scenario) -> Result<Option<Seq<Seq<u8>>>, Seq<char>> {
    if !scenario.tls.verify_peer {
        Ok(None)
    } else {
        match scenario.tls.ca_pem {
            None => Err("CA PEM required"@),
            Some(pem) => match pem_certificates_of(pem@) {
                Err(message) => Err(message),
                Ok(list) => if usable_roots_of(list) == 0 {
                    Err("CA PEM contains no usable certificates"@)
                } else {
                    Ok(Some(list))
                },
            },
        }
    }
}

/// What a client makes TLS connections with, given the cipher suites that are there. The suites
/// are looked at first, then the certificates, then the name of the server.
pub open spec fn client_tls_of(scenario: Scenario, available: Seq<Seq<char>>) -> Result<
    ClientTlsView,
    Seq<char>,
> {
    match suites_of(available, maybe(scenario.tls.cipher_suite)) {
        Err(message) => Err(message),
        Ok(suites) => match roots_of(scenario) {
            Err(message) => Err(message),
            Ok(roots) => match server_name_problem(scenario.tls.server_name@) {
                Some(message) => Err(message),
                None => Ok(
                    ClientTlsView {
                        suites,
                        tls13: scenario.tls.version == TlsVersion::Tls13,
                        roots,
                        http2: scenario.protocol == Protocol::Http2,
                        server_name: scenario.tls.server_name@,
                    },
                ),
            },
        },
    }
}

/// The certificates that a server is verified by.
fn select_roots(scenario: &Scenario) -> (r: Result<Option<Vec<Vec<u8>>>, String>)
    ensures
        match r {
            Ok(Some(list)) => roots_of(*scenario) == Ok::<Option<Seq<Seq<u8>>>, Seq<char>>(
                Some(byte_lists(list@)),
            ),
            Ok(None) => roots_of(*scenario) == Ok::<Option<Seq<Seq<u8>>>, Seq<char>>(None),
            Err(message) => roots_of(*scenario) == Err::<Option<Seq<Seq<u8>>>, Seq<char>>(message@),
        },
{
    if !scenario.tls.verify_peer {
        return Ok(None);
    }
    match &scenario.tls.ca_pem {
        None => Err(copy("CA PEM required")),
        Some(pem) => match read_certificates(pem.as_str()) {
            Err(message) => Err(message),
            Ok(list) => if count_roots(&list) == 0 {
                Err(copy("CA PEM contains no usable certificates"))
            } else {
                Ok(Some(list))
            },
        },
    }
}

/// What a client makes TLS connections with, given the cipher suites that are there.
pub fn client_tls(scenario: &Scenario, available: &Vec<String>) -> (r: Result<ClientTls, String>)
    ensures
        match r {
            Ok(tls) => client_tls_of(*scenario, string_views(available@)) == Ok::<
                ClientTlsView,
                Seq<char>,
            >(tls@),
            Err(message) => client_tls_of(*scenario, string_views(available@)) == Err::<
                ClientTlsView,
                Seq<char>,
            >(message@),
        },
{
    let suites = match select_suites(available, &scenario.tls.cipher_suite) {
        Ok(suites) => suites,
        Err(message) => {
            return Err(message);
        },
    };
    let roots = match select_roots(scenario) {
        Ok(roots) => roots,
        Err(message) => {
            return Err(message);
        },
    };
    match check_server_name(scenario.tls.server_name.as_str()) {
        Ok(_) => Ok(
            ClientTls {
                suites,
                tls13: scenario.tls.version == TlsVersion::Tls13,
                roots,
                http2: scenario.protocol == Protocol::Http2,
                server_name: copy(scenario.tls.server_name.as_str()),
            },
        ),
        Err(message) => Err(message),
    }
}

/// What a client makes TLS connections with here.
pub fn connect_settings(scenario: &Scenario) -> (r: Result<ClientTls, String>)
    ensures
        match r {
            Ok(tls) => client_tls_of(*scenario, provider_suites()) == Ok::<
                ClientTlsView,
                Seq<char>,
            >(tls@),
            Err(message) => client_tls_of(*scenario, provider_suites()) == Err::<
                ClientTlsView,
                Seq<char>,
            >(message@),
        },
{
    let available = suite_names();
    client_tls(scenario, &available)
}

/// What a responder accepts TLS connections with.
#[derive(Debug, Clone, PartialEq, Eq)]
pub struct ServerTls {
    /// The positions of the cipher suites among those that are there.
    pub suites: Vec<usize>,
    pub tls13: bool,
    pub certificates: Vec<Vec<u8>>,
    pub key: Vec<u8>,
    /// Whether HTTP/2 is offered.
    pub http2: bool,
}

/// What a responder accepts TLS connections with, as plain values.
#[verifier::ext_equal]
pub struct ServerTlsView {
    pub suites: Seq<int>,
    pub tls13: bool,
    pub certificates: Seq<Seq<u8>>,
    pub key: Seq<u8>,
    pub http2: bool,
}

impl View for ServerTls {
    type V = ServerTlsView;

    open spec fn view(&self) -> ServerTlsView {
        ServerTlsView {
            suites: positions_view(self.suites@),
            tls13: self.tls13,
            certificates: byte_lists(self.certificates@),
            key: self.key@,
            http2: self.http2,
        }
    }
}

/// The certificates and the key of a responder. Both texts must be there before either is read.
pub open spec fn identity_of(scenario: Scenario) -> Result<(Seq<Seq<u8>>, Seq<u8>), Seq<char>> {
    match (scenario.tls.server_cert_pem, scenario.tls.server_key_pem) {
        (None, _) => Err("server certificate required"@),
        (Some(_), None) => Err("server private key required"@),
        (Some(cert), Some(key)) => match (pem_certificates_of(cert@), pem_key_of(key@)) {
            (Err(message), _) => Err(message),
            (Ok(_), Err(message)) => Err(message),
            (Ok(_), Ok(None)) => Err("server private key PEM is empty"@),
            (Ok(list), Ok(Some(der))) => Ok((list, der)),
        },
    }
}

/// What a responder accepts TLS connections with, given the cipher suites that are there. The
/// certificates and the key are looked at first.
pub open spec fn server_tls_of(scenario: Scenario, available: Seq<Seq<char>>) -> Result<
    ServerTlsView,
    Seq<char>,
> {
    match identity_of(scenario) {
        Err(message) => Err(message),
        Ok((certificates, key)) => match suites_of(
            available,
            maybe(scenario.tls.cipher_suite),
        ) {
            Err(message) => Err(message),
            Ok(suites) => Ok(
                ServerTlsView {
                    suites,
                    tls13: scenario.tls.version == TlsVersion::Tls13,
                    certificates,
                    key,
                    http2: scenario.protocol == Protocol::Http2,
                },
            ),
        },
    }
}

/// The certificates and the key of a responder.
fn read_identity(scenario: &Scenario) -> (r: Result<(Vec<Vec<u8>>, Vec<u8>), String>)
    ensures
        match r {
            Ok((certificates, key)) => identity_of(*scenario) == Ok::<
                (Seq<Seq<u8>>, Seq<u8>),
                Seq<char>,
            >((byte_lists(certificates@), key@)),
            Err(message) => identity_of(*scenario) == Err::<(Seq<Seq<u8>>, Seq<u8>), Seq<char>>(
                message@,
            ),
        },
{
    let cert_pem = match &scenario.tls.server_cert_pem {
        Some(pem) => pem,
        None => {
            return Err(copy("server certificate required"));
        },
    };
    let key_pem = match &scenario.tls.server_key_pem {
        Some(pem) => pem,
        None => {
            return Err(copy("server private key required"));
        },
    };
    let certificates = match read_certificates(cert_pem.as_str()) {
        Ok(list) => list,
        Err(message) => {
            return Err(message);
        },
    };
    match read_key(key_pem.as_str()) {
        Ok(Some(key)) => Ok((certificates, key)),
        Ok(None) => Err(copy("server private key PEM is empty")),
        Err(message) => Err(message),
    }
}

/// What a responder accepts TLS connections with, given the cipher suites that are there.
pub fn server_tls(scenario: &Scenario, available: &Vec<String>) -> (r: Result<ServerTls, String>)
    ensures
        match r {
            Ok(tls) => server_tls_of(*scenario, string_views(available@)) == Ok::<
                ServerTlsView,
                Seq<char>,
            >(tls@),
            Err(message) => server_tls_of(*scenario, string_views(available@)) == Err::<
                ServerTlsView,
                Seq<char>,
            >(message@),
        },
{
    let (certificates, key) = match read_identity(scenario) {
        Ok(identity) => identity,
        Err(message) => {
            return Err(message);
        },
    };
    match select_suites(available, &scenario.tls.cipher_suite) {
        Ok(suites) => Ok(
            ServerTls {
                suites,
                tls13: scenario.tls.version == TlsVersion::Tls13,
                certificates,
                key,
                http2: scenario.protocol == Protocol::Http2,
            },
        ),
        Err(message) => Err(message),
    }
}

/// What a responder accepts TLS connections with here.
pub fn accept_settings(scenario: &Scenario) -> (r: Result<ServerTls, String>)
    ensures
        match r {
            Ok(tls) => server_tls_of(*scenario, provider_suites()) == Ok::<
                ServerTlsView,
                Seq<char>,
            >(tls@),
            Err(message) => server_tls_of(*scenario, provider_suites()) == Err::<
                ServerTlsView,
                Seq<char>,
            >(message@),
        },
{
    let available = suite_names();
    server_tls(scenario, &available)
}

} // verus!
