//! Scenarios.
use crate::domain::load::{
    greatest_target, load_from, stage_load, stages_secs, stages_target, total_secs, LoadStage,
};
use crate::domain::payload::{
    is_fixed, PayloadKind, PayloadMode, PayloadProfile, MAX_PAYLOAD_BYTES,
};
use crate::domain::tls::{is_default_tls, tls_problem, TlsProfile};
use crate::id::{is_v4, Uuid};
use crate::ip::{ip_text, IpAddr};
use crate::text::{
    append, blank, chars_of, copy, decimal, decimal_number, find_last_char, is_blank, last_char,
    parse_decimal, push_decimal,
};
use vstd::prelude::*;

verus! {

/// The version of scenarios that this library runs.
pub const SCENARIO_VERSION: u32 = 4;

/// How the client reaches the server.
#[derive(Debug, Clone, Copy, PartialEq, Eq, Structural)]
pub enum Topology {
    ExplicitProxy,
    TransparentProxy,
}

/// The path that the traffic of a scenario takes.
#[derive(Debug, Clone, PartialEq, Eq)]
pub enum ScenarioPath {
    ManagedDirect { profile_revision_id: Uuid, server_port: u16 },
    ExplicitProxy {
        client_node_id: String,
        client_bind_ip: IpAddr,
        server_node_id: String,
        server_listen_ip: IpAddr,
        server_port: u16,
        proxy_addr: String,
    },
}

/// A path that nothing was changed in: a new network and the usual port.
pub open spec fn is_default_path(path: ScenarioPath) -> bool {
    path matches ScenarioPath::ManagedDirect { profile_revision_id, server_port } && is_v4(
        profile_revision_id.value,
    ) && profile_revision_id.value != 0 && server_port == 8080
}

impl Default for ScenarioPath {
    fn default() -> (r: ScenarioPath)
        ensures
            is_default_path(r),
    {
        ScenarioPath::ManagedDirect { profile_revision_id: Uuid::new_v4(), server_port: 8080 }
    }
}

/// The protocol that a scenario tests.
#[derive(Debug, Clone, Copy, PartialEq, Eq, Structural)]
pub enum Protocol {
    Tcp,
    Http1,
    Http2,
    Connect,
}

/// HTTP/2 settings of a scenario.
#[derive(Debug, Clone, Copy, PartialEq, Eq, Structural)]
pub struct Http2Profile {
    pub max_concurrent_streams: u32,
}

impl Default for Http2Profile {
    fn default() -> (r: Http2Profile)
        ensures
            r.max_concurrent_streams == 100,
    {
        Http2Profile { max_concurrent_streams: 100 }
    }
}

/// The HTTP requests of a scenario.
#[derive(Debug, Clone)]
pub struct HttpRequestProfile {
    pub method: String,
    pub path: String,
    pub host: String,
    pub request_body_bytes: usize,
    pub response_body_bytes: usize,
    pub keep_alive: bool,
    pub transactions_per_connection: u32,
    pub think_time_ms: u64,
}

/// HTTP requests that nothing was changed in.
pub open spec fn is_default_request(request: HttpRequestProfile) -> bool {
    &&& request.method@ == "GET"@
    &&& request.path@ == "/"@
    &&& request.host@ == "proxy-tester.local"@
    &&& request.request_body_bytes == 0
    &&& request.response_body_bytes == 128
    &&& request.keep_alive
    &&& request.transactions_per_connection == 1
    &&& request.think_time_ms == 0
}

impl Default for HttpRequestProfile {
    fn default() -> (r: HttpRequestProfile)
        ensures
            is_default_request(r),
    {
        HttpRequestProfile {
            method: copy("GET"),
            path: copy("/"),
            host: copy("proxy-tester.local"),
            request_body_bytes: 0,
            response_body_bytes: 128,
            keep_alive: true,
            transactions_per_connection: 1,
            think_time_ms: 0,
        }
    }
}

/// The payload sizes of a plain TCP scenario.
#[derive(Debug, Clone, Copy, PartialEq, Eq, Structural)]
pub struct TcpPayloadProfile {
    pub tx_bytes: usize,
    pub rx_bytes: usize,
}

impl Default for TcpPayloadProfile {
    fn default() -> (r: TcpPayloadProfile)
        ensures
            r.tx_bytes == 64,
            r.rx_bytes == 64,
    {
        TcpPayloadProfile { tx_bytes: 64, rx_bytes: 64 }
    }
}

/// How long the steps of a transaction may take.
#[derive(Debug, Clone, Copy, PartialEq, Eq, Structural)]
pub struct TimeoutProfile {
    pub connect_ms: u64,
    pub proxy_connect_ms: u64,
    pub response_ms: u64,
}

impl Default for TimeoutProfile {
    fn default() -> (r: TimeoutProfile)
        ensures
            r.connect_ms == 3000,
            r.proxy_connect_ms == 3000,
            r.response_ms == 5000,
    {
        TimeoutProfile { connect_ms: 3000, proxy_connect_ms: 3000, response_ms: 5000 }
    }
}

/// Why a scenario or a network profile cannot be used.
#[derive(Debug, Clone, PartialEq, Eq)]
pub enum ValidationError {
    Invalid(String),
}

impl ValidationError {
    /// The message.
    pub open spec fn text(&self) -> Seq<char> {
        match self {
            ValidationError::Invalid(message) => message@,
        }
    }

    /// An error with this message.
    pub fn new(message: &str) -> (r: ValidationError)
        ensures
            r.text() == message@,
    {
        ValidationError::Invalid(copy(message))
    }

    /// The message.
    pub fn message(&self) -> (r: &str)
        ensures
            r@ == self.text(),
    {
        match self {
            ValidationError::Invalid(message) => message.as_str(),
        }
    }
}

/// A test: what is sent, over which path and under which load.
#[derive(Debug, Clone)]
pub struct Scenario {
    pub version: u32,
    pub id: Uuid,
    pub name: String,
    pub path: ScenarioPath,
    pub protocol: Protocol,
    pub virtual_clients: u32,
    pub duration_secs: u64,
    pub warmup_secs: u64,
    pub load_stages: Vec<LoadStage>,
    pub request: HttpRequestProfile,
    pub http2: Http2Profile,
    pub tcp: TcpPayloadProfile,
    /// The request payload; nothing where the sizes of `request` and `tcp` hold.
    pub request_payload: Option<PayloadProfile>,
    /// The response payload; nothing where the sizes of `request` and `tcp` hold.
    pub response_payload: Option<PayloadProfile>,
    pub payload_mode: PayloadMode,
    pub capture_artifact_id: Option<Uuid>,
    pub tls: TlsProfile,
    pub timeouts: TimeoutProfile,
}

/// The protocol is one of the two of HTTP.
pub open spec fn is_http(protocol: Protocol) -> bool {
    protocol == Protocol::Http1 || protocol == Protocol::Http2
}

/// How many bytes a request has where no payload is given.
pub open spec fn plain_request_bytes(s: Scenario) -> usize {
    if is_http(s.protocol) {
        s.request.request_body_bytes
    } else {
        s.tcp.tx_bytes
    }
}

/// How many bytes a response has where no payload is given.
pub open spec fn plain_response_bytes(s: Scenario) -> usize {
    if is_http(s.protocol) {
        s.request.response_body_bytes
    } else {
        s.tcp.rx_bytes
    }
}

/// `p` is the payload in use: the given one, or so many fixed bytes.
pub open spec fn is_effective(p: PayloadProfile, given: Option<PayloadProfile>, bytes: usize) -> bool {
    match given {
        Some(payload) => p == payload,
        None => is_fixed(p, bytes),
    }
}

/// What is wrong with a payload in use, in the order in which it is looked for.
pub open spec fn payload_problem(
    direction: Seq<char>,
    given: Option<PayloadProfile>,
    bytes: usize,
) -> Option<Seq<char>> {
    let length = match given {
        Some(payload) => payload.length(),
        None => bytes as int,
    };
    let is_file = given is Some && given->0.kind == PayloadKind::File;
    let has_artifact = given is Some && given->0.artifact_id is Some;
    if length > MAX_PAYLOAD_BYTES {
        Some(direction + " payload exceeds 64 MiB"@)
    } else if is_file && !has_artifact {
        Some(direction + " file payload requires artifact_id"@)
    } else if !is_file && has_artifact {
        Some(direction + " artifact_id is only valid for file payload"@)
    } else {
        None
    }
}

/// A stage that cannot be run: it has no name or takes no time.
pub open spec fn is_bad_stage(stage: LoadStage) -> bool {
    blank(stage.name@) || stage.duration_secs == 0
}

/// What is wrong with the name and the load of a scenario, in the order in which it is looked
/// for.
pub open spec fn load_problem(s: Scenario) -> Option<Seq<char>> {
    let stages = s.load_stages@;
    if blank(s.name@) {
        Some("name은 비어 있을 수 없습니다"@)
    } else if stages.len() == 0 && s.duration_secs == 0 {
        Some("duration_secs는 1 이상이어야 합니다"@)
    } else if stages.len() == 0 && s.virtual_clients == 0 {
        Some("virtual_clients는 1 이상이어야 합니다"@)
    } else if stages.len() > 50 {
        Some("load stage는 최대 50개까지 설정할 수 있습니다"@)
    } else if exists|i: int| 0 <= i < stages.len() && is_bad_stage(stages[i]) {
        Some("각 load stage에는 이름과 1초 이상의 시간이 필요합니다"@)
    } else if stages.len() > 0 && greatest_target(stages, stages.len() as int) == 0 {
        Some(
            "load stage 중 하나는 1명 이상의 가상 클라이언트를 사용해야 합니다"@,
        )
    } else {
        None
    }
}

/// What is wrong with the protocol settings of a scenario, in the order in which it is looked
/// for.
pub open spec fn protocol_problem(s: Scenario) -> Option<Seq<char>> {
    if s.warmup_secs > 0 {
        Some("warmup 구간은 아직 구현되지 않았습니다"@)
    } else if s.protocol == Protocol::Connect {
        Some(
            "CONNECT는 시험 프로토콜이 아닙니다. explicit proxy와 TCP를 선택하세요"@,
        )
    } else if s.protocol == Protocol::Http2 && !s.tls.enabled {
        Some("HTTP/2 requires TLS; h2c is not supported"@)
    } else if s.protocol == Protocol::Http2 && !(1 <= s.http2.max_concurrent_streams <= 1000) {
        Some("HTTP/2 max_concurrent_streams must be between 1 and 1000"@)
    } else if s.protocol == Protocol::Http1 && !s.request.keep_alive
        && s.request.transactions_per_connection != 1 {
        Some(
            "여러 HTTP transaction을 한 연결에서 실행하려면 keep-alive가 필요합니다"@,
        )
    } else {
        None
    }
}

/// A text is a host and a port other than zero, with a colon in between. The last colon counts.
pub open spec fn is_host_port(text: Seq<char>) -> bool {
    match last_char(text, ':', text.len() as int) {
        Some(colon) => {
            let port = decimal_number(text.subrange(colon + 1, text.len() as int), 65535);
            colon > 0 && port is Some && port->0 > 0
        },
        None => false,
    }
}

/// What is wrong with a path, in the order in which it is looked for.
pub open spec fn path_problem(path: ScenarioPath) -> Option<Seq<char>> {
    match path {
        ScenarioPath::ManagedDirect { profile_revision_id, server_port } => {
            if profile_revision_id.value == 0 {
                Some("managed_direct requires profile_revision_id"@)
            } else if server_port == 0 {
                Some("server_port must be non-zero"@)
            } else {
                None
            }
        },
        ScenarioPath::ExplicitProxy {
            client_node_id,
            client_bind_ip,
            server_node_id,
            server_listen_ip,
            server_port,
            proxy_addr,
        } => {
            if blank(client_node_id@) || blank(server_node_id@) {
                Some("explicit_proxy requires client and server node IDs"@)
            } else if !(client_bind_ip is V4) || !(server_listen_ip is V4) {
                Some("explicit_proxy endpoint addresses must be IPv4"@)
            } else if server_port == 0 || !is_host_port(proxy_addr@) {
                Some("explicit_proxy requires server port and proxy host:port"@)
            } else {
                None
            }
        },
    }
}

/// The first of two problems.
pub open spec fn first_of(a: Option<Seq<char>>, b: Option<Seq<char>>) -> Option<Seq<char>> {
    if a is Some {
        a
    } else {
        b
    }
}

/// What is wrong with the version and the payloads of a scenario, in the order in which it is
/// looked for.
pub open spec fn content_problem(s: Scenario) -> Option<Seq<char>> {
    if s.version != SCENARIO_VERSION {
        Some("지원하지 않는 scenario version: "@ + decimal(s.version as int))
    } else if s.payload_mode == PayloadMode::CaptureReplay && s.capture_artifact_id is None {
        Some("PCAP session replay requires an analyzed capture artifact"@)
    } else {
        first_of(
            payload_problem("request"@, s.request_payload, plain_request_bytes(s)),
            payload_problem("response"@, s.response_payload, plain_response_bytes(s)),
        )
    }
}

/// What is wrong with a scenario: the first problem of its contents, its load, its TLS settings
/// if they are in use, its protocol and its path.
pub open spec fn scenario_problem(s: Scenario) -> Option<Seq<char>> {
    first_of(
        content_problem(s),
        first_of(
            load_problem(s),
            first_of(
                if s.tls.enabled {
                    tls_problem(s.tls)
                } else {
                    None
                },
                first_of(protocol_problem(s), path_problem(s.path)),
            ),
        ),
    )
}

impl Default for Scenario {
    fn default() -> (r: Scenario)
        ensures
            scenario_problem(r) is None,
            r.version == SCENARIO_VERSION,
            is_v4(r.id.value) && r.id.value != 0,
            r.name@ == "기본 시험"@,
            is_default_path(r.path),
            r.protocol == Protocol::Tcp,
            r.virtual_clients == 1,
            r.duration_secs == 10,
            r.warmup_secs == 0,
            r.load_stages@.len() == 0,
            is_default_request(r.request),
            r.http2.max_concurrent_streams == 100,
            r.tcp.tx_bytes == 64 && r.tcp.rx_bytes == 64,
            r.request_payload is Some && is_fixed(r.request_payload->0, 64),
            r.response_payload is Some && is_fixed(r.response_payload->0, 64),
            r.payload_mode == PayloadMode::Manual,
            r.capture_artifact_id is None,
            is_default_tls(r.tls),
            r.timeouts.connect_ms == 3000 && r.timeouts.proxy_connect_ms == 3000
                && r.timeouts.response_ms == 5000,
    {
        proof {
            reveal_strlit("기본 시험");
            assert("기본 시험"@[0] == '기');
            assert(!crate::text::is_white("기본 시험"@[0]));
        }
        Scenario {
            version: SCENARIO_VERSION,
            id: Uuid::new_v4(),
            name: copy("기본 시험"),
            path: ScenarioPath::default(),
            protocol: Protocol::Tcp,
            virtual_clients: 1,
            duration_secs: 10,
            warmup_secs: 0,
            load_stages: Vec::new(),
            request: HttpRequestProfile::default(),
            http2: Http2Profile::default(),
            tcp: TcpPayloadProfile::default(),
            request_payload: Some(PayloadProfile::fixed(64)),
            response_payload: Some(PayloadProfile::fixed(64)),
            payload_mode: PayloadMode::Manual,
            capture_artifact_id: None,
            tls: TlsProfile::default(),
            timeouts: TimeoutProfile::default(),
        }
    }
}

/// Whether a text is a host and a port other than zero, with a colon in between.
pub fn valid_host_port(value: &str) -> (r: bool)
    ensures
        r == is_host_port(value@),
{
    let text = chars_of(value);
    let end: usize = text.len();
    match find_last_char(text.as_slice(), ':') {
        None => false,
        Some(colon) => match parse_decimal(&text.as_slice()[colon + 1..end], 65535) {
            Some(port) => colon > 0 && port > 0,
            None => false,
        },
    }
}

/// An error with a direction before the message.
fn directed(direction: &str, message: &str) -> (r: ValidationError)
    ensures
        r.text() == direction@ + message@,
{
    let mut text = copy(direction);
    append(&mut text, message);
    ValidationError::Invalid(text)
}

/// Whether a payload in use is valid, or why it is not.
fn check_payload(
    direction: &str,
    payload: &PayloadProfile,
    given: &Option<PayloadProfile>,
    bytes: usize,
) -> (r: Result<(), ValidationError>)
    requires
        is_effective(*payload, *given, bytes),
    ensures
        match r {
            Ok(_) => payload_problem(direction@, *given, bytes) is None,
            Err(error) => payload_problem(direction@, *given, bytes) == Some(error.text()),
        },
{
    if payload.byte_len() > MAX_PAYLOAD_BYTES {
        return Err(directed(direction, " payload exceeds 64 MiB"));
    }
    if payload.kind == PayloadKind::File && payload.artifact_id.is_none() {
        return Err(directed(direction, " file payload requires artifact_id"));
    }
    if payload.kind != PayloadKind::File && payload.artifact_id.is_some() {
        return Err(directed(direction, " artifact_id is only valid for file payload"));
    }
    Ok(())
}

/// The seconds that a scenario takes.
pub open spec fn duration_of(s: Scenario) -> int {
    if s.load_stages@.len() == 0 {
        s.duration_secs as int
    } else {
        total_secs(s.load_stages@, s.load_stages@.len() as int)
    }
}

/// The most virtual clients that a scenario asks for.
pub open spec fn clients_of(s: Scenario) -> int {
    if s.load_stages@.len() == 0 {
        s.virtual_clients as int
    } else {
        greatest_target(s.load_stages@, s.load_stages@.len() as int)
    }
}

impl Scenario {
    /// This scenario in the version that the library runs. There is nothing to change.
    pub fn migrate(self) -> (r: Scenario)
        ensures
            r == self,
    {
        self
    }

    /// Whether the traffic goes through an explicit proxy.
    pub fn is_explicit_proxy(&self) -> (r: bool)
        ensures
            r == (self.path is ExplicitProxy),
    {
        matches!(self.path, ScenarioPath::ExplicitProxy { .. })
    }

    /// The node of the client, where the path names it.
    pub fn client_node_id(&self) -> (r: Option<&str>)
        ensures
            match self.path {
                ScenarioPath::ManagedDirect { .. } => r is None,
                ScenarioPath::ExplicitProxy { client_node_id, .. } => r is Some && r->0@
                    == client_node_id@,
            },
    {
        match &self.path {
            ScenarioPath::ManagedDirect { .. } => None,
            ScenarioPath::ExplicitProxy { client_node_id, .. } => Some(client_node_id.as_str()),
        }
    }

    /// The node of the server, where the path names it.
    pub fn server_node_id(&self) -> (r: Option<&str>)
        ensures
            match self.path {
                ScenarioPath::ManagedDirect { .. } => r is None,
                ScenarioPath::ExplicitProxy { server_node_id, .. } => r is Some && r->0@
                    == server_node_id@,
            },
    {
        match &self.path {
            ScenarioPath::ManagedDirect { .. } => None,
            ScenarioPath::ExplicitProxy { server_node_id, .. } => Some(server_node_id.as_str()),
        }
    }

    /// The address of the proxy, where the path has one.
    pub fn proxy_addr(&self) -> (r: Option<&str>)
        ensures
            match self.path {
                ScenarioPath::ManagedDirect { .. } => r is None,
                ScenarioPath::ExplicitProxy { proxy_addr, .. } => r is Some && r->0@ == proxy_addr@,
            },
    {
        match &self.path {
            ScenarioPath::ManagedDirect { .. } => None,
            ScenarioPath::ExplicitProxy { proxy_addr, .. } => Some(proxy_addr.as_str()),
        }
    }

    /// The port of the server.
    pub fn server_port(&self) -> (r: u16)
        ensures
            match self.path {
                ScenarioPath::ManagedDirect { server_port, .. } => r == server_port,
                ScenarioPath::ExplicitProxy { server_port, .. } => r == server_port,
            },
    {
        match &self.path {
            ScenarioPath::ManagedDirect { server_port, .. } => *server_port,
            ScenarioPath::ExplicitProxy { server_port, .. } => *server_port,
        }
    }

    /// The address that the client asks for: that of the server, or the loopback address where
    /// the network is managed.
    pub fn target_addr(&self) -> (r: String)
        ensures
            match self.path {
                ScenarioPath::ManagedDirect { server_port, .. } => r@ == "127.0.0.1:"@ + decimal(
                    server_port as int,
                ),
                ScenarioPath::ExplicitProxy { server_listen_ip, server_port, .. } => r@ == ip_text(
                    server_listen_ip,
                ) + ":"@ + decimal(server_port as int),
            },
    {
        match &self.path {
            ScenarioPath::ManagedDirect { server_port, .. } => {
                let mut text = copy("127.0.0.1:");
                push_decimal(&mut text, *server_port as u64);
                text
            },
            ScenarioPath::ExplicitProxy { server_listen_ip, server_port, .. } => {
                let mut text = String::new();
                server_listen_ip.push_text(&mut text);
                assert(text@ =~= ip_text(*server_listen_ip));
                append(&mut text, ":");
                push_decimal(&mut text, *server_port as u64);
                text
            },
        }
    }

    /// The payload of requests.
    pub fn request_payload(&self) -> (r: PayloadProfile)
        ensures
            is_effective(r, self.request_payload, plain_request_bytes(*self)),
    {
        match &self.request_payload {
            Some(payload) => payload.clone(),
            None => PayloadProfile::fixed(
                if matches!(self.protocol, Protocol::Http1 | Protocol::Http2) {
                    self.request.request_body_bytes
                } else {
                    self.tcp.tx_bytes
                },
            ),
        }
    }

    /// The payload of responses.
    pub fn response_payload(&self) -> (r: PayloadProfile)
        ensures
            is_effective(r, self.response_payload, plain_response_bytes(*self)),
    {
        match &self.response_payload {
            Some(payload) => payload.clone(),
            None => PayloadProfile::fixed(
                if matches!(self.protocol, Protocol::Http1 | Protocol::Http2) {
                    self.request.response_body_bytes
                } else {
                    self.tcp.rx_bytes
                },
            ),
        }
    }

    /// The seconds that this scenario takes.
    pub fn effective_duration_secs(&self) -> (r: u64)
        requires
            duration_of(*self) <= u64::MAX,
        ensures
            r == duration_of(*self),
    {
        if self.load_stages.is_empty() {
            self.duration_secs
        } else {
            stages_secs(&self.load_stages)
        }
    }

    /// The most virtual clients that this scenario asks for.
    pub fn maximum_virtual_clients(&self) -> (r: u32)
        ensures
            r == clients_of(*self),
    {
        if self.load_stages.is_empty() {
            self.virtual_clients
        } else {
            stages_target(&self.load_stages)
        }
    }

    /// The load `elapsed_ms` milliseconds after the start of a run: the stage, how many virtual
    /// clients it wants and whether it counts in the results.
    pub fn load_at(&self, elapsed_ms: u64) -> (r: (usize, u32, bool))
        ensures
            if self.load_stages@.len() == 0 {
                r == (0usize, self.virtual_clients, true)
            } else {
                (r.0 as int, r.1 as int, r.2) == load_from(
                    self.load_stages@,
                    0,
                    0,
                    0,
                    elapsed_ms as int,
                )
            },
    {
        if self.load_stages.is_empty() {
            return (0, self.virtual_clients, true);
        }
        stage_load(&self.load_stages, elapsed_ms)
    }

    /// Whether the version and the payloads are valid, or why they are not.
    fn check_content(&self) -> (r: Result<(), ValidationError>)
        ensures
            match r {
                Ok(_) => content_problem(*self) is None,
                Err(error) => content_problem(*self) == Some(error.text()),
            },
    {
        if self.version != SCENARIO_VERSION {
            let mut text = copy("지원하지 않는 scenario version: ");
            push_decimal(&mut text, self.version as u64);
            return Err(ValidationError::Invalid(text));
        }
        if self.payload_mode == PayloadMode::CaptureReplay && self.capture_artifact_id.is_none() {
            return Err(
                ValidationError::new("PCAP session replay requires an analyzed capture artifact"),
            );
        }
        let request = self.request_payload();
        let request_bytes: usize = if matches!(self.protocol, Protocol::Http1 | Protocol::Http2) {
            self.request.request_body_bytes
        } else {
            self.tcp.tx_bytes
        };
        let checked = check_payload("request", &request, &self.request_payload, request_bytes);
        if checked.is_err() {
            return checked;
        }
        let response = self.response_payload();
        let response_bytes: usize = if matches!(self.protocol, Protocol::Http1 | Protocol::Http2) {
            self.request.response_body_bytes
        } else {
            self.tcp.rx_bytes
        };
        check_payload("response", &response, &self.response_payload, response_bytes)
    }

    /// Whether the name and the load are valid, or why they are not.
    fn check_load(&self) -> (r: Result<(), ValidationError>)
        ensures
            match r {
                Ok(_) => load_problem(*self) is None,
                Err(error) => load_problem(*self) == Some(error.text()),
            },
    {
        if is_blank(self.name.as_str()) {
            return Err(ValidationError::new("name은 비어 있을 수 없습니다"));
        }
        if self.load_stages.is_empty() && self.duration_secs == 0 {
            return Err(ValidationError::new("duration_secs는 1 이상이어야 합니다"));
        }
        if self.load_stages.is_empty() && self.virtual_clients == 0 {
            return Err(ValidationError::new("virtual_clients는 1 이상이어야 합니다"));
        }
        if self.load_stages.len() > 50 {
            return Err(
                ValidationError::new("load stage는 최대 50개까지 설정할 수 있습니다"),
            );
        }
        let mut i: usize = 0;
        while i < self.load_stages.len()
            invariant
                i <= self.load_stages@.len() <= 50,
                !blank(self.name@),
                self.load_stages@.len() == 0 ==> self.duration_secs != 0 && self.virtual_clients
                    != 0,
                forall|j: int| 0 <= j < i ==> !is_bad_stage(#[trigger] self.load_stages@[j]),
            decreases self.load_stages@.len() - i,
        {
            let stage = &self.load_stages[i];
            if is_blank(stage.name.as_str()) || stage.duration_secs == 0 {
                assert(is_bad_stage(self.load_stages@[i as int]));
                return Err(
                    ValidationError::new(
                        "각 load stage에는 이름과 1초 이상의 시간이 필요합니다",
                    ),
                );
            }
            i += 1;
        }
        if !self.load_stages.is_empty() && self.maximum_virtual_clients() == 0 {
            return Err(
                ValidationError::new(
                    "load stage 중 하나는 1명 이상의 가상 클라이언트를 사용해야 합니다",
                ),
            );
        }
        Ok(())
    }

    /// Whether the protocol settings are valid, or why they are not.
    fn check_protocol(&self) -> (r: Result<(), ValidationError>)
        ensures
            match r {
                Ok(_) => protocol_problem(*self) is None,
                Err(error) => protocol_problem(*self) == Some(error.text()),
            },
    {
        if self.warmup_secs > 0 {
            return Err(ValidationError::new("warmup 구간은 아직 구현되지 않았습니다"));
        }
        if self.protocol == Protocol::Connect {
            return Err(
                ValidationError::new(
                    "CONNECT는 시험 프로토콜이 아닙니다. explicit proxy와 TCP를 선택하세요",
                ),
            );
        }
        if self.protocol == Protocol::Http2 && !self.tls.enabled {
            return Err(ValidationError::new("HTTP/2 requires TLS; h2c is not supported"));
        }
        if self.protocol == Protocol::Http2 && (self.http2.max_concurrent_streams < 1
            || self.http2.max_concurrent_streams > 1000) {
            return Err(
                ValidationError::new("HTTP/2 max_concurrent_streams must be between 1 and 1000"),
            );
        }
        if self.protocol == Protocol::Http1 && !self.request.keep_alive
            && self.request.transactions_per_connection != 1 {
            return Err(
                ValidationError::new(
                    "여러 HTTP transaction을 한 연결에서 실행하려면 keep-alive가 필요합니다",
                ),
            );
        }
        Ok(())
    }

    /// Whether the path is valid, or why it is not.
    fn check_path(&self) -> (r: Result<(), ValidationError>)
        ensures
            match r {
                Ok(_) => path_problem(self.path) is None,
                Err(error) => path_problem(self.path) == Some(error.text()),
            },
    {
        match &self.path {
            ScenarioPath::ManagedDirect { profile_revision_id, server_port } => {
                if profile_revision_id.is_nil() {
                    return Err(
                        ValidationError::new("managed_direct requires profile_revision_id"),
                    );
                }
                if *server_port == 0 {
                    return Err(ValidationError::new("server_port must be non-zero"));
                }
            },
            ScenarioPath::ExplicitProxy {
                client_node_id,
                client_bind_ip,
                server_node_id,
                server_listen_ip,
                server_port,
                proxy_addr,
            } => {
                if is_blank(client_node_id.as_str()) || is_blank(server_node_id.as_str()) {
                    return Err(
                        ValidationError::new("explicit_proxy requires client and server node IDs"),
                    );
                }
                if !client_bind_ip.is_ipv4() || !server_listen_ip.is_ipv4() {
                    return Err(
                        ValidationError::new("explicit_proxy endpoint addresses must be IPv4"),
                    );
                }
                if *server_port == 0 || !valid_host_port(proxy_addr.as_str()) {
                    return Err(
                        ValidationError::new(
                            "explicit_proxy requires server port and proxy host:port",
                        ),
                    );
                }
            },
        }
        Ok(())
    }

    /// Whether this scenario can be run, or why it cannot.
    pub fn validate(&self) -> (r: Result<(), ValidationError>)
        ensures
            match r {
                Ok(_) => scenario_problem(*self) is None,
                Err(error) => scenario_problem(*self) == Some(error.text()),
            },
    {
        let content = self.check_content();
        if content.is_err() {
            return content;
        }
        let load = self.check_load();
        if load.is_err() {
            return load;
        }
        if self.tls.enabled {
            if let Some(message) = self.tls.problem() {
                return Err(ValidationError::Invalid(message));
            }
        }
        let protocol = self.check_protocol();
        if protocol.is_err() {
            return protocol;
        }
        self.check_path()
    }
}

/// A valid scenario runs for at least a second with at least one virtual client, and over
/// HTTP/2 only under TLS.
pub proof fn valid_scenarios_have_load(s: Scenario)
    requires
        scenario_problem(s) is None,
    ensures
        duration_of(s) >= 1,
        clients_of(s) >= 1,
        s.protocol == Protocol::Http2 ==> s.tls.enabled,
        s.protocol != Protocol::Connect,
{
    let stages = s.load_stages@;
    if stages.len() > 0 {
        crate::domain::load::greatest_target_is_greatest(stages, stages.len() as int);
        assert(!is_bad_stage(stages[0]));
        crate::domain::load::total_secs_grows(stages, 1, stages.len() as int);
        reveal_with_fuel(total_secs, 2);
    }
}

} // verus!
