//! Certificates for tests over TLS: a local authority and a server that it vouches for.
use crate::control::error::{bad, ApiError, ApiErrorKind};
use crate::text::{chars_of, copy, string_views, text_of, trim_chars, trimmed};
use vstd::prelude::*;
use vstd::utf8::{encode_utf8, is_ascii_chars};

verus! {

/// For how many days a certificate is valid.
pub const VALIDITY_DAYS: i64 = 30;

/// For how many seconds a certificate is valid already when it is made: clocks may differ.
pub const SLACK_SECS: i64 = 300;

/// The first second of the year 0, since 1970: no earlier time can be in a certificate.
pub const FIRST_SECS: i64 = -62_167_219_200;

/// The last second of the year 9999, since 1970: no later time can be in a certificate.
pub const LAST_SECS: i64 = 253_402_300_799;

/// The settings of a certificate in `rcgen`.
#[verifier::external_type_specification]
#[verifier::external_body]
pub struct ExCertificateParams(rcgen::CertificateParams);

/// A pair of keys in `rcgen`.
#[verifier::external_type_specification]
#[verifier::external_body]
pub struct ExKeyPair(rcgen::KeyPair);

/// A certificate in `rcgen`.
#[verifier::external_type_specification]
#[verifier::external_body]
pub struct ExCertificate(rcgen::Certificate);

/// What is set for a certificate: the names that it is for, the common name of its subject, when
/// it is valid, and whether it can vouch for others.
#[verifier::ext_equal]
pub struct SettingsView {
    pub names: Seq<Seq<char>>,
    pub common_name: Seq<char>,
    pub from: int,
    pub to: int,
    pub authority: bool,
}

/// What a certificate holds: what was set for it, its public key and the common name of its issuer.
#[verifier::ext_equal]
pub struct CertificateView {
    pub settings: SettingsView,
    pub key: Seq<u8>,
    pub issuer: Seq<char>,
}

/// What settings hold.
pub uninterp spec fn settings_in(params: rcgen::CertificateParams) -> SettingsView;

/// What a certificate holds.
pub uninterp spec fn certificate_in(certificate: rcgen::Certificate) -> CertificateView;

/// A certificate was signed by the private half of this public key.
pub uninterp spec fn is_signed_by(certificate: rcgen::Certificate, key: Seq<u8>) -> bool;

/// The public half of a pair of keys.
pub uninterp spec fn public_key(key: rcgen::KeyPair) -> Seq<u8>;

/// The private half of a pair of keys is in memory, and not with a signer elsewhere.
pub uninterp spec fn is_local(key: rcgen::KeyPair) -> bool;

/// What a certificate is for where this name is given: a host, or an address in its usual form.
pub uninterp spec fn subject_of(name: Seq<char>) -> Seq<char>;

/// The PEM text of a pair of keys.
pub uninterp spec fn key_text(key: rcgen::KeyPair) -> Seq<char>;

/// The PEM text of a certificate.
pub uninterp spec fn certificate_text(certificate: rcgen::Certificate) -> Seq<char>;

/// The first name at or after `from` that is not ASCII.
pub open spec fn foreign_name(names: Seq<Seq<char>>, from: int) -> Option<Seq<char>>
    decreases names.len() - from,
{
    if from >= names.len() {
        None
    } else if !is_ascii_chars(names[from]) {
        Some(names[from])
    } else {
        foreign_name(names, from + 1)
    }
}

/// What is said of a name that is not ASCII.
pub open spec fn foreign_complaint(name: Seq<char>) -> Seq<char> {
    "Invalid IA5String: '"@ + name + "'"@
}

/// The name is that of a host: no text of an address is like it.
pub open spec fn is_host(name: Seq<char>) -> bool {
    &&& !name.contains(':')
    &&& exists|i: int| 0 <= i < name.len() && !is_address_char(#[trigger] name[i])
}

/// The character can stand in an IPv4 address.
pub open spec fn is_address_char(c: char) -> bool {
    c == '.' || '0' <= c <= '9'
}

/// A time can be in a certificate.
pub open spec fn is_certificate_time(secs: i64) -> bool {
    FIRST_SECS <= secs <= LAST_SECS
}

/// `rcgen::CertificateParams::new`: settings for these names, which do not make an authority, or
/// an error that quotes the first name that is not ASCII. The name of a host is kept as it is.
#[verifier::external_body]
fn settings(names: Vec<String>) -> (r: Result<rcgen::CertificateParams, String>)
    ensures
        match r {
            Ok(params) => {
                &&& foreign_name(string_views(names@), 0) is None
                &&& settings_in(params).names == string_views(names@).map_values(
                    |name: Seq<char>| subject_of(name),
                )
                &&& forall|i: int|
                    0 <= i < names@.len() && is_host(names@[i]@)
                        ==> #[trigger] settings_in(params).names[i] == names@[i]@
                &&& !settings_in(params).authority
            },
            Err(message) => {
                &&& foreign_name(string_views(names@), 0) is Some
                &&& message@ == foreign_complaint(foreign_name(string_views(names@), 0)->0)
            },
        },
{
    rcgen::CertificateParams::new(names).map_err(|error| error.to_string())
}

/// `time::OffsetDateTime::from_unix_timestamp`: the settings, with these times in seconds since
/// 1970 as their bounds. It fails on no time that can be in a certificate.
#[verifier::external_body]
fn valid_between(params: rcgen::CertificateParams, from: i64, to: i64) -> (r: Result<
    rcgen::CertificateParams,
    String,
>)
    requires
        is_certificate_time(from),
        is_certificate_time(to),
    ensures
        r is Ok,
        settings_in(r->Ok_0) == (SettingsView {
            from: from as int,
            to: to as int,
            ..settings_in(params)
        }),
{
    let mut params = params;
    params.not_before = time::OffsetDateTime::from_unix_timestamp(from)
        .map_err(|error| error.to_string())?;
    params.not_after = time::OffsetDateTime::from_unix_timestamp(to)
        .map_err(|error| error.to_string())?;
    Ok(params)
}

/// `rcgen::DistinguishedName::push`: the settings, with a common name in place of the one before.
#[verifier::external_body]
fn named(params: rcgen::CertificateParams, common_name: &str) -> (r: rcgen::CertificateParams)
    ensures
        settings_in(r) == (SettingsView { common_name: common_name@, ..settings_in(params) }),
{
    let mut params = params;
    params.distinguished_name.push(rcgen::DnType::CommonName, common_name);
    params
}

/// `rcgen::IsCa::Ca`: the settings, of an authority.
#[verifier::external_body]
fn for_authority(params: rcgen::CertificateParams) -> (r: rcgen::CertificateParams)
    ensures
        settings_in(r) == (SettingsView { authority: true, ..settings_in(params) }),
{
    let mut params = params;
    params.is_ca = rcgen::IsCa::Ca(rcgen::BasicConstraints::Unconstrained);
    params
}

/// `rcgen::KeyPair::generate`: a random pair of keys in memory. When it fails is not stated.
#[verifier::external_body]
fn new_key() -> (r: Result<rcgen::KeyPair, String>)
    ensures
        r is Ok ==> is_local(r->Ok_0),
{
    rcgen::KeyPair::generate().map_err(|error| error.to_string())
}

/// `rcgen::CertificateParams::self_signed`: a certificate with these settings and this key, which
/// signs it. When it fails is not stated.
#[verifier::external_body]
fn sign_own(params: rcgen::CertificateParams, key: &rcgen::KeyPair) -> (r: Result<
    rcgen::Certificate,
    String,
>)
    requires
        FIRST_SECS <= settings_in(params).from <= LAST_SECS,
        FIRST_SECS <= settings_in(params).to <= LAST_SECS,
    ensures
        r is Ok ==> certificate_in(r->Ok_0) == (CertificateView {
            settings: settings_in(params),
            key: public_key(*key),
            issuer: settings_in(params).common_name,
        }),
        r is Ok ==> is_signed_by(r->Ok_0, public_key(*key)),
{
    params.self_signed(key).map_err(|error| error.to_string())
}

/// `rcgen::CertificateParams::signed_by`: a certificate with these settings and this key, issued by
/// the subject of another certificate and signed by a key. When it fails is not stated.
#[verifier::external_body]
fn sign_by(
    params: rcgen::CertificateParams,
    key: &rcgen::KeyPair,
    issuer: &rcgen::Certificate,
    issuer_key: &rcgen::KeyPair,
) -> (r: Result<rcgen::Certificate, String>)
    requires
        FIRST_SECS <= settings_in(params).from <= LAST_SECS,
        FIRST_SECS <= settings_in(params).to <= LAST_SECS,
    ensures
        r is Ok ==> certificate_in(r->Ok_0) == (CertificateView {
            settings: settings_in(params),
            key: public_key(*key),
            issuer: certificate_in(*issuer).settings.common_name,
        }),
        r is Ok ==> is_signed_by(r->Ok_0, public_key(*issuer_key)),
{
    params.signed_by(key, issuer, issuer_key).map_err(|error| error.to_string())
}

/// `rcgen::Certificate::pem`: a certificate in PEM form, which depends on it alone.
#[verifier::external_body]
fn certificate_pem(certificate: &rcgen::Certificate) -> (r: String)
    ensures
        r@ == certificate_text(*certificate),
{
    certificate.pem()
}

/// `rcgen::KeyPair::serialize_pem`: a pair of keys in PEM form, which depends on it alone. It needs
/// the private half.
#[verifier::external_body]
fn key_pem(key: &rcgen::KeyPair) -> (r: String)
    requires
        is_local(*key),
    ensures
        r@ == key_text(*key),
{
    key.serialize_pem()
}

/// The name can be that of a server: it has, without white space around it, between one and 253
/// bytes.
pub open spec fn is_server_name(name: Seq<char>) -> bool {
    1 <= encode_utf8(trimmed(name)).len() <= 253
}

/// What is to be in the certificate of a server.
#[derive(Debug, Clone, PartialEq, Eq)]
pub struct CertificateRequest {
    pub server_name: String,
    /// When it starts to be valid, in seconds since 1970.
    pub from: i64,
    /// When it ceases to be valid, in seconds since 1970.
    pub to: i64,
}

/// What is to be in the certificate of a server that is made now.
pub fn certificate_request(server_name: &str, now: i64) -> (r: Result<CertificateRequest, ApiError>)
    requires
        i64::MIN + SLACK_SECS <= now,
        now <= i64::MAX - VALIDITY_DAYS * 86_400,
    ensures
        match r {
            Ok(request) => {
                &&& is_server_name(server_name@)
                &&& request.server_name@ == trimmed(server_name@)
                &&& request.from == now - SLACK_SECS
                &&& request.to == now + VALIDITY_DAYS * 86_400
            },
            Err(error) => !is_server_name(server_name@) && error@ == bad(
                "유효한 TLS server name이 필요합니다"@,
            ),
        },
{
    let chars = chars_of(server_name);
    let name = text_of(trim_chars(chars.as_slice()));
    let size: usize = name.as_str().as_bytes().len();
    if size < 1 || size > 253 {
        return Err(ApiError::bad("유효한 TLS server name이 필요합니다"));
    }
    Ok(
        CertificateRequest {
            server_name: name,
            from: now - SLACK_SECS,
            to: now + VALIDITY_DAYS * 86_400,
        },
    )
}

/// The certificates for a test.
#[derive(Debug, Clone, PartialEq, Eq)]
pub struct Certificates {
    pub ca_pem: String,
    pub server_cert_pem: String,
    pub server_key_pem: String,
    pub validity_days: i64,
}

/// A result whose error is not that of the request.
fn or_internal<T>(result: Result<T, String>) -> (r: Result<T, ApiError>)
    ensures
        match result {
            Ok(value) => r == Ok::<T, ApiError>(value),
            Err(message) => r is Err && r->Err_0@ == crate::control::error::internal(message@),
        },
{
    match result {
        Ok(value) => Ok(value),
        Err(message) => Err(ApiError::internal(message.as_str())),
    }
}

/// The common name of the authority.
pub open spec fn authority_name() -> Seq<char> {
    "Proxy Tester Local CA"@
}

/// What the certificate of the authority holds, with its key.
pub open spec fn authority_view(from: int, to: int, key: Seq<u8>) -> CertificateView {
    CertificateView {
        settings: SettingsView {
            names: Seq::empty(),
            common_name: authority_name(),
            from,
            to,
            authority: true,
        },
        key,
        issuer: authority_name(),
    }
}

/// What the certificate of the server holds, with its key.
pub open spec fn server_view(name: Seq<char>, from: int, to: int, key: Seq<u8>) -> CertificateView {
    CertificateView {
        settings: SettingsView {
            names: seq![subject_of(name)],
            common_name: name,
            from,
            to,
            authority: false,
        },
        key,
        issuer: authority_name(),
    }
}

/// The certificates are those of an authority, which signed its own, and of a server with this
/// name that it vouches for, both valid between two times, and the key is that of the server.
pub open spec fn vouches_for(c: Certificates, name: Seq<char>, from: int, to: int) -> bool {
    exists|ca: rcgen::Certificate, server: rcgen::Certificate, key: rcgen::KeyPair|
        {
            &&& c.ca_pem@ == #[trigger] certificate_text(ca)
            &&& c.server_cert_pem@ == #[trigger] certificate_text(server)
            &&& c.server_key_pem@ == #[trigger] key_text(key)
            &&& certificate_in(ca) == authority_view(from, to, certificate_in(ca).key)
            &&& is_signed_by(ca, certificate_in(ca).key)
            &&& certificate_in(server) == server_view(name, from, to, public_key(key))
            &&& is_signed_by(server, certificate_in(ca).key)
            &&& is_host(name) ==> subject_of(name) == name
        }
}

/// Makes the certificates of a request.
fn issue(request: &CertificateRequest) -> (r: Result<Certificates, ApiError>)
    requires
        is_certificate_time(request.from),
        is_certificate_time(request.to),
    ensures
        match r {
            Ok(made) => {
                &&& is_ascii_chars(request.server_name@)
                &&& vouches_for(
                    made,
                    request.server_name@,
                    request.from as int,
                    request.to as int,
                )
                &&& made.validity_days == VALIDITY_DAYS
            },
            Err(error) => error@.kind == ApiErrorKind::Internal || (!is_ascii_chars(
                request.server_name@,
            ) && error@ == bad(foreign_complaint(request.server_name@))),
        },
{
    let no_names: Vec<String> = Vec::new();
    assert(string_views(no_names@).map_values(|name: Seq<char>| subject_of(name)) =~= Seq::empty());
    let ca_settings = or_internal(settings(no_names))?;
    let ca_settings = or_internal(
        valid_between(for_authority(ca_settings), request.from, request.to),
    )?;
    let ca_settings = named(ca_settings, "Proxy Tester Local CA");
    let ca_key = or_internal(new_key())?;
    let ca = or_internal(sign_own(ca_settings, &ca_key))?;
    let mut names: Vec<String> = Vec::new();
    names.push(copy(request.server_name.as_str()));
    let ghost views = string_views(names@);
    assert(views =~= seq![request.server_name@]);
    assert(views.map_values(|name: Seq<char>| subject_of(name)) =~= seq![
        subject_of(request.server_name@),
    ]);
    assert(foreign_name(views, 1) is None);
    let server_settings = match settings(names) {
        Ok(value) => value,
        Err(message) => {
            return Err(ApiError::bad(message.as_str()));
        },
    };
    assert(settings_in(server_settings).names[0] == subject_of(request.server_name@));
    let server_settings = or_internal(valid_between(server_settings, request.from, request.to))?;
    let server_settings = named(server_settings, request.server_name.as_str());
    let server_key = or_internal(new_key())?;
    let server = or_internal(sign_by(server_settings, &server_key, &ca, &ca_key))?;
    let made = Certificates {
        ca_pem: certificate_pem(&ca),
        server_cert_pem: certificate_pem(&server),
        server_key_pem: key_pem(&server_key),
        validity_days: VALIDITY_DAYS,
    };
    assert(made.ca_pem@ == certificate_text(ca));
    assert(made.server_cert_pem@ == certificate_text(server));
    assert(made.server_key_pem@ == key_text(server_key));
    Ok(made)
}

/// Makes an authority and a server with a name that it vouches for, valid from a little before now
/// for thirty days. Whether keys can be made and certificates signed is not stated.
pub fn generate_tls_certificate(server_name: &str, now: i64) -> (r: Result<Certificates, ApiError>)
    requires
        FIRST_SECS + SLACK_SECS <= now <= LAST_SECS - VALIDITY_DAYS * 86_400,
    ensures
        match r {
            Ok(made) => {
                &&& is_server_name(server_name@)
                &&& is_ascii_chars(trimmed(server_name@))
                &&& vouches_for(
                    made,
                    trimmed(server_name@),
                    now - SLACK_SECS,
                    now + VALIDITY_DAYS * 86_400,
                )
                &&& made.validity_days == VALIDITY_DAYS
            },
            Err(error) => if !is_server_name(server_name@) {
                error@ == bad("유효한 TLS server name이 필요합니다"@)
            } else {
                error@.kind == ApiErrorKind::Internal || (!is_ascii_chars(trimmed(server_name@))
                    && error@ == bad(foreign_complaint(trimmed(server_name@))))
            },
        },
{
    match certificate_request(server_name, now) {
        Ok(request) => issue(&request),
        Err(error) => Err(error),
    }
}

} // verus!
