//! TLS settings of a scenario.
use crate::text::{append, copy, debug_quote, debug_quoted, same_text};
use vstd::prelude::*;

verus! {

/// A version of TLS.
#[derive(Debug, Clone, Copy, PartialEq, Eq, Structural)]
pub enum TlsVersion {
    Tls12,
    Tls13,
}

impl Default for TlsVersion {
    fn default() -> (r: TlsVersion)
        ensures
            r == TlsVersion::Tls13,
    {
        TlsVersion::Tls13
    }
}

/// TLS settings of a scenario.
#[derive(Debug, Clone)]
pub struct TlsProfile {
    pub enabled: bool,
    pub verify_peer: bool,
    pub version: TlsVersion,
    pub cipher_suite: Option<String>,
    pub server_name: String,
    pub ca_pem: Option<String>,
    pub server_cert_pem: Option<String>,
    pub server_key_pem: Option<String>,
}

/// TLS settings that nothing was changed in.
pub open spec fn is_default_tls(tls: TlsProfile) -> bool {
    &&& !tls.enabled
    &&& !tls.verify_peer
    &&& tls.version == TlsVersion::Tls13
    &&& tls.cipher_suite is None
    &&& tls.server_name@ == "proxy-tester.local"@
    &&& tls.ca_pem is None
    &&& tls.server_cert_pem is None
    &&& tls.server_key_pem is None
}

impl Default for TlsProfile {
    fn default() -> (r: TlsProfile)
        ensures
            is_default_tls(r),
    {
        TlsProfile {
            enabled: false,
            verify_peer: false,
            version: TlsVersion::Tls13,
            cipher_suite: None,
            server_name: copy("proxy-tester.local"),
            ca_pem: None,
            server_cert_pem: None,
            server_key_pem: None,
        }
    }
}

/// A cipher suite of TLS 1.3.
pub open spec fn is_tls13_cipher(name: Seq<char>) -> bool {
    ||| name == "TLS13_AES_256_GCM_SHA384"@
    ||| name == "TLS13_AES_128_GCM_SHA256"@
    ||| name == "TLS13_CHACHA20_POLY1305_SHA256"@
}

/// A cipher suite of TLS 1.2.
pub open spec fn is_tls12_cipher(name: Seq<char>) -> bool {
    ||| name == "TLS_ECDHE_ECDSA_WITH_AES_256_GCM_SHA384"@
    ||| name == "TLS_ECDHE_ECDSA_WITH_AES_128_GCM_SHA256"@
    ||| name == "TLS_ECDHE_ECDSA_WITH_CHACHA20_POLY1305_SHA256"@
    ||| name == "TLS_ECDHE_RSA_WITH_AES_256_GCM_SHA384"@
    ||| name == "TLS_ECDHE_RSA_WITH_AES_128_GCM_SHA256"@
    ||| name == "TLS_ECDHE_RSA_WITH_CHACHA20_POLY1305_SHA256"@
}

/// A version of TLS has a cipher suite of this name.
pub open spec fn version_has_cipher(version: TlsVersion, name: Seq<char>) -> bool {
    match version {
        TlsVersion::Tls13 => is_tls13_cipher(name),
        TlsVersion::Tls12 => is_tls12_cipher(name),
    }
}

/// A text is there and is not empty.
pub open spec fn given(text: Option<String>) -> bool {
    text is Some && text->0@.len() > 0
}

/// Whether a text is there and is not empty.
pub fn is_given(text: &Option<String>) -> (r: bool)
    ensures
        r == given(*text),
{
    match text {
        Some(text) => !text.as_str().is_empty(),
        None => false,
    }
}

/// The name of a version of TLS.
pub open spec fn version_name(version: TlsVersion) -> Seq<char> {
    match version {
        TlsVersion::Tls12 => "Tls12"@,
        TlsVersion::Tls13 => "Tls13"@,
    }
}

/// What is said of a cipher suite that a version of TLS does not have, where `quoted` is the
/// name of the cipher suite in quotes.
pub open spec fn cipher_complaint(quoted: Seq<char>, version: TlsVersion) -> Seq<char> {
    "cipher suite Some("@ + quoted + ") is not supported by "@ + version_name(version)
}

/// What is said of a cipher suite that a version of TLS does not have.
pub fn cipher_complaint_text(quoted: &str, version: TlsVersion) -> (r: String)
    ensures
        r@ == cipher_complaint(quoted@, version),
{
    let mut text = copy("cipher suite Some(");
    append(&mut text, quoted);
    append(&mut text, ") is not supported by ");
    match version {
        TlsVersion::Tls12 => append(&mut text, "Tls12"),
        TlsVersion::Tls13 => append(&mut text, "Tls13"),
    }
    text
}

/// What is wrong with TLS settings that are in use, in the order in which it is looked for.
pub open spec fn tls_problem(tls: TlsProfile) -> Option<Seq<char>> {
    if tls.cipher_suite is Some && !version_has_cipher(tls.version, tls.cipher_suite->0@) {
        Some(cipher_complaint(debug_quoted(tls.cipher_suite->0@), tls.version))
    } else if crate::text::blank(tls.server_name@) {
        Some("TLS server_name이 필요합니다"@)
    } else if !given(tls.server_cert_pem) || !given(tls.server_key_pem) {
        Some("TLS server certificate와 private key가 필요합니다"@)
    } else if tls.verify_peer && !given(tls.ca_pem) {
        Some("TLS 인증서 검증을 사용하려면 CA PEM이 필요합니다"@)
    } else {
        None
    }
}

impl TlsProfile {
    /// Whether the version of TLS has the cipher suite, where one is chosen.
    pub fn cipher_is_compatible(&self) -> (r: bool)
        ensures
            r == (self.cipher_suite is Some ==> version_has_cipher(
                self.version,
                self.cipher_suite->0@,
            )),
    {
        match &self.cipher_suite {
            None => true,
            Some(cipher) => {
                let name: &str = cipher.as_str();
                match self.version {
                    TlsVersion::Tls13 => same_text(name, "TLS13_AES_256_GCM_SHA384") || same_text(
                        name,
                        "TLS13_AES_128_GCM_SHA256",
                    ) || same_text(name, "TLS13_CHACHA20_POLY1305_SHA256"),
                    TlsVersion::Tls12 => same_text(
                        name,
                        "TLS_ECDHE_ECDSA_WITH_AES_256_GCM_SHA384",
                    ) || same_text(name, "TLS_ECDHE_ECDSA_WITH_AES_128_GCM_SHA256") || same_text(
                        name,
                        "TLS_ECDHE_ECDSA_WITH_CHACHA20_POLY1305_SHA256",
                    ) || same_text(name, "TLS_ECDHE_RSA_WITH_AES_256_GCM_SHA384") || same_text(
                        name,
                        "TLS_ECDHE_RSA_WITH_AES_128_GCM_SHA256",
                    ) || same_text(name, "TLS_ECDHE_RSA_WITH_CHACHA20_POLY1305_SHA256"),
                }
            },
        }
    }

    /// What is wrong with these settings if they are in use.
    pub fn problem(&self) -> (r: Option<String>)
        ensures
            match r {
                Some(message) => tls_problem(*self) == Some(message@),
                None => tls_problem(*self) is None,
            },
    {
        if !self.cipher_is_compatible() {
            return match &self.cipher_suite {
                Some(cipher) => {
                    let quoted = debug_quote(cipher.as_str());
                    Some(cipher_complaint_text(quoted.as_str(), self.version))
                },
                None => None,
            };
        }
        if crate::text::is_blank(self.server_name.as_str()) {
            return Some(copy("TLS server_name이 필요합니다"));
        }
        if !is_given(&self.server_cert_pem) || !is_given(&self.server_key_pem) {
            return Some(copy("TLS server certificate와 private key가 필요합니다"));
        }
        if self.verify_peer && !is_given(&self.ca_pem) {
            return Some(copy("TLS 인증서 검증을 사용하려면 CA PEM이 필요합니다"));
        }
        None
    }
}

/// No cipher suite belongs to both versions of TLS.
pub proof fn cipher_suites_belong_to_one_version(name: Seq<char>)
    ensures
        !(is_tls12_cipher(name) && is_tls13_cipher(name)),
{
    reveal_strlit("TLS13_AES_256_GCM_SHA384");
    reveal_strlit("TLS13_AES_128_GCM_SHA256");
    reveal_strlit("TLS13_CHACHA20_POLY1305_SHA256");
    reveal_strlit("TLS_ECDHE_ECDSA_WITH_AES_256_GCM_SHA384");
    reveal_strlit("TLS_ECDHE_ECDSA_WITH_AES_128_GCM_SHA256");
    reveal_strlit("TLS_ECDHE_ECDSA_WITH_CHACHA20_POLY1305_SHA256");
    reveal_strlit("TLS_ECDHE_RSA_WITH_AES_256_GCM_SHA384");
    reveal_strlit("TLS_ECDHE_RSA_WITH_AES_128_GCM_SHA256");
    reveal_strlit("TLS_ECDHE_RSA_WITH_CHACHA20_POLY1305_SHA256");
    if is_tls12_cipher(name) && is_tls13_cipher(name) {
        assert(name[3] == '1');
        assert(name[3] == '_');
    }
}

} // verus!
