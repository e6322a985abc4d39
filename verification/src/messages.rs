use vstd::prelude::*;

verus! {

/// A certificate is identified by a hash of its leaf, carried as a
/// plain byte vector.
pub type CertFingerprint = Vec<u8>;

pub type MessageId = String;

// ---------------------------------------------------------------------------
// Spec-level views of the message payloads.  Each exec type below has a
// view made of sequences and plain integers, and the contracts of the
// codec and of the proxy tables speak of these.
// ---------------------------------------------------------------------------

pub struct HttpFrontV {
    pub app_id: Seq<char>,
    pub hostname: Seq<char>,
    pub path_begin: Seq<char>,
}

pub struct CertificateAndKeyV {
    pub certificate: Seq<char>,
    pub certificate_chain: Seq<Seq<char>>,
    pub key: Seq<char>,
}

pub struct TlsFrontV {
    pub app_id: Seq<char>,
    pub hostname: Seq<char>,
    pub path_begin: Seq<char>,
    pub fingerprint: Seq<u8>,
}

pub struct TcpFrontV {
    pub app_id: Seq<char>,
    pub ip_address: Seq<char>,
    pub port: u16,
}

pub struct InstanceV {
    pub app_id: Seq<char>,
    pub ip_address: Seq<char>,
    pub port: u16,
}

pub struct HttpProxyConfigurationV {
    pub front: Seq<char>,
    pub front_timeout: u64,
    pub back_timeout: u64,
    pub max_connections: usize,
    pub buffer_size: usize,
    pub public_address: Option<Seq<char>>,
    pub answer_404: Seq<char>,
    pub answer_503: Seq<char>,
}

pub struct TlsProxyConfigurationV {
    pub front: Seq<char>,
    pub front_timeout: u64,
    pub back_timeout: u64,
    pub max_connections: usize,
    pub buffer_size: usize,
    pub public_address: Option<Seq<char>>,
    pub answer_404: Seq<char>,
    pub answer_503: Seq<char>,
    pub options: u64,
    pub cipher_list: Seq<char>,
    pub default_name: Option<Seq<char>>,
    pub default_app_id: Option<Seq<char>>,
    pub default_certificate: Option<Seq<u8>>,
    pub default_key: Option<Seq<u8>>,
    pub default_certificate_chain: Option<Seq<char>>,
}

pub open spec fn view_opt_str(o: Option<String>) -> Option<Seq<char>> {
    match o {
        Some(s) => Some(s@),
        None => None,
    }
}

pub open spec fn view_opt_bytes(o: Option<Vec<u8>>) -> Option<Seq<u8>> {
    match o {
        Some(v) => Some(v@),
        None => None,
    }
}

pub open spec fn views_of_strings(v: Seq<String>) -> Seq<Seq<char>> {
    v.map_values(|s: String| s@)
}

// ---------------------------------------------------------------------------
// Exec payload types.
// ---------------------------------------------------------------------------

/// An HTTP routing rule: requests whose host equals `hostname` and
/// whose path starts with `path_begin` go to `app_id`.
#[derive(Debug, Clone, Eq)]
pub struct HttpFront {
    pub app_id: String,
    pub hostname: String,
    pub path_begin: String,
}

impl View for HttpFront {
    type V = HttpFrontV;

    open spec fn view(&self) -> HttpFrontV {
        HttpFrontV {
            app_id: self.app_id@,
            hostname: self.hostname@,
            path_begin: self.path_begin@,
        }
    }
}

impl PartialEq for HttpFront {
    fn eq(&self, o: &HttpFront) -> (r: bool) {
        self.app_id == o.app_id && self.hostname == o.hostname && self.path_begin == o.path_begin
    }
}

impl vstd::std_specs::cmp::PartialEqSpecImpl for HttpFront {
    open spec fn obeys_eq_spec() -> bool {
        true
    }

    open spec fn eq_spec(&self, o: &HttpFront) -> bool {
        self@ == o@
    }
}

/// A certificate with its chain and private key, as PEM text.
#[derive(Debug, Clone, Eq)]
pub struct CertificateAndKey {
    pub certificate: String,
    pub certificate_chain: Vec<String>,
    pub key: String,
}

impl View for CertificateAndKey {
    type V = CertificateAndKeyV;

    open spec fn view(&self) -> CertificateAndKeyV {
        CertificateAndKeyV {
            certificate: self.certificate@,
            certificate_chain: views_of_strings(self.certificate_chain@),
            key: self.key@,
        }
    }
}

impl PartialEq for CertificateAndKey {
    fn eq(&self, o: &CertificateAndKey) -> (r: bool) {
        self.certificate == o.certificate && strings_eq(
            &self.certificate_chain,
            &o.certificate_chain,
        ) && self.key == o.key
    }
}

impl vstd::std_specs::cmp::PartialEqSpecImpl for CertificateAndKey {
    open spec fn obeys_eq_spec() -> bool {
        true
    }

    open spec fn eq_spec(&self, o: &CertificateAndKey) -> bool {
        self@ == o@
    }
}

/// A TLS routing rule; `fingerprint` names the certificate served for
/// `hostname`.
#[derive(Debug, Clone, Eq)]
pub struct TlsFront {
    pub app_id: String,
    pub hostname: String,
    pub path_begin: String,
    pub fingerprint: CertFingerprint,
}

impl View for TlsFront {
    type V = TlsFrontV;

    open spec fn view(&self) -> TlsFrontV {
        TlsFrontV {
            app_id: self.app_id@,
            hostname: self.hostname@,
            path_begin: self.path_begin@,
            fingerprint: self.fingerprint@,
        }
    }
}

impl PartialEq for TlsFront {
    fn eq(&self, o: &TlsFront) -> (r: bool) {
        self.app_id == o.app_id && self.hostname == o.hostname && self.path_begin == o.path_begin
            && bytes_eq(&self.fingerprint, &o.fingerprint)
    }
}

impl vstd::std_specs::cmp::PartialEqSpecImpl for TlsFront {
    open spec fn obeys_eq_spec() -> bool {
        true
    }

    open spec fn eq_spec(&self, o: &TlsFront) -> bool {
        self@ == o@
    }
}

/// A TCP routing rule: the listener on `port` forwards to `app_id`.
#[derive(Debug, Clone, Eq)]
pub struct TcpFront {
    pub app_id: String,
    pub ip_address: String,
    pub port: u16,
}

impl View for TcpFront {
    type V = TcpFrontV;

    open spec fn view(&self) -> TcpFrontV {
        TcpFrontV { app_id: self.app_id@, ip_address: self.ip_address@, port: self.port }
    }
}

impl PartialEq for TcpFront {
    fn eq(&self, o: &TcpFront) -> (r: bool) {
        self.app_id == o.app_id && self.ip_address == o.ip_address && self.port == o.port
    }
}

impl vstd::std_specs::cmp::PartialEqSpecImpl for TcpFront {
    open spec fn obeys_eq_spec() -> bool {
        true
    }

    open spec fn eq_spec(&self, o: &TcpFront) -> bool {
        self@ == o@
    }
}

/// A back-end address for an application.
#[derive(Debug, Clone, Eq)]
pub struct Instance {
    pub app_id: String,
    pub ip_address: String,
    pub port: u16,
}

impl View for Instance {
    type V = InstanceV;

    open spec fn view(&self) -> InstanceV {
        InstanceV { app_id: self.app_id@, ip_address: self.ip_address@, port: self.port }
    }
}

impl PartialEq for Instance {
    fn eq(&self, o: &Instance) -> (r: bool) {
        self.app_id == o.app_id && self.ip_address == o.ip_address && self.port == o.port
    }
}

impl vstd::std_specs::cmp::PartialEqSpecImpl for Instance {
    open spec fn obeys_eq_spec() -> bool {
        true
    }

    open spec fn eq_spec(&self, o: &Instance) -> bool {
        self@ == o@
    }
}

// ---------------------------------------------------------------------------
// Equality helpers for fields whose element type std compares without a
// specification Verus can use.
// ---------------------------------------------------------------------------

/// Element-wise comparison of two byte vectors.
pub fn bytes_eq(a: &Vec<u8>, b: &Vec<u8>) -> (r: bool)
    ensures
        r == (a@ == b@),
{
    if a.len() != b.len() {
        return false;
    }
    for i in 0..a.len()
        invariant
            a.len() == b.len(),
            forall|k: int| 0 <= k < i ==> a@[k] == b@[k],
    {
        if a[i] != b[i] {
            return false;
        }
    }
    proof {
        assert(a@ =~= b@);
    }
    true
}

/// Element-wise comparison of two string vectors, by character content.
pub fn strings_eq(a: &Vec<String>, b: &Vec<String>) -> (r: bool)
    ensures
        r == (views_of_strings(a@) == views_of_strings(b@)),
{
    if a.len() != b.len() {
        proof {
            assert(views_of_strings(a@).len() != views_of_strings(b@).len());
        }
        return false;
    }
    for i in 0..a.len()
        invariant
            a.len() == b.len(),
            forall|k: int| 0 <= k < i ==> a@[k]@ == b@[k]@,
    {
        if a[i] != b[i] {
            proof {
                assert(views_of_strings(a@)[i as int] != views_of_strings(b@)[i as int]);
            }
            return false;
        }
    }
    proof {
        assert(views_of_strings(a@) =~= views_of_strings(b@));
    }
    true
}

/// Comparison of two optional strings, by character content.
pub fn opt_string_eq(a: &Option<String>, b: &Option<String>) -> (r: bool)
    ensures
        r == (view_opt_str(*a) == view_opt_str(*b)),
{
    match (a, b) {
        (None, None) => true,
        (Some(x), Some(y)) => *x == *y,
        _ => false,
    }
}

/// Comparison of two optional byte vectors.
pub fn opt_bytes_eq(a: &Option<Vec<u8>>, b: &Option<Vec<u8>>) -> (r: bool)
    ensures
        r == (view_opt_bytes(*a) == view_opt_bytes(*b)),
{
    match (a, b) {
        (None, None) => true,
        (Some(x), Some(y)) => bytes_eq(x, y),
        _ => false,
    }
}

// ---------------------------------------------------------------------------
// Proxy configurations.
// ---------------------------------------------------------------------------

/// Configuration handed to an HTTP proxy loop.  `front` is the listen
/// address written as `ip:port`; the canned answers are raw response
/// bytes.
#[derive(Debug, Clone, Eq)]
pub struct HttpProxyConfiguration {
    pub front: String,
    pub front_timeout: u64,
    pub back_timeout: u64,
    pub max_connections: usize,
    pub buffer_size: usize,
    pub public_address: Option<String>,
    pub answer_404: String,
    pub answer_503: String,
}

impl View for HttpProxyConfiguration {
    type V = HttpProxyConfigurationV;

    open spec fn view(&self) -> HttpProxyConfigurationV {
        HttpProxyConfigurationV {
            front: self.front@,
            front_timeout: self.front_timeout,
            back_timeout: self.back_timeout,
            max_connections: self.max_connections,
            buffer_size: self.buffer_size,
            public_address: view_opt_str(self.public_address),
            answer_404: self.answer_404@,
            answer_503: self.answer_503@,
        }
    }
}

impl PartialEq for HttpProxyConfiguration {
    fn eq(&self, o: &HttpProxyConfiguration) -> (r: bool) {
        self.front == o.front && self.front_timeout == o.front_timeout && self.back_timeout
            == o.back_timeout && self.max_connections == o.max_connections && self.buffer_size
            == o.buffer_size && opt_string_eq(&self.public_address, &o.public_address)
            && self.answer_404 == o.answer_404 && self.answer_503 == o.answer_503
    }
}

impl vstd::std_specs::cmp::PartialEqSpecImpl for HttpProxyConfiguration {
    open spec fn obeys_eq_spec() -> bool {
        true
    }

    open spec fn eq_spec(&self, o: &HttpProxyConfiguration) -> bool {
        self@ == o@
    }
}

/// TLS protocol option bits, as OpenSSL names them.
pub const TLS_OPT_CIPHER_SERVER_PREFERENCE: u64 = 0x0040_0000;

pub const TLS_OPT_NO_COMPRESSION: u64 = 0x0002_0000;

pub const TLS_OPT_NO_TICKET: u64 = 0x0000_4000;

pub const TLS_OPT_NO_SSLV2: u64 = 0x0100_0000;

pub const TLS_OPT_NO_SSLV3: u64 = 0x0200_0000;

pub const TLS_OPT_NO_TLSV1: u64 = 0x0400_0000;

/// Configuration handed to a TLS proxy loop: the HTTP configuration
/// plus the TLS engine's settings and the fallback certificate.
#[derive(Debug, Clone, Eq)]
pub struct TlsProxyConfiguration {
    pub front: String,
    pub front_timeout: u64,
    pub back_timeout: u64,
    pub max_connections: usize,
    pub buffer_size: usize,
    pub public_address: Option<String>,
    pub answer_404: String,
    pub answer_503: String,
    pub options: u64,
    pub cipher_list: String,
    pub default_name: Option<String>,
    pub default_app_id: Option<String>,
    pub default_certificate: Option<Vec<u8>>,
    pub default_key: Option<Vec<u8>>,
    pub default_certificate_chain: Option<String>,
}

impl View for TlsProxyConfiguration {
    type V = TlsProxyConfigurationV;

    open spec fn view(&self) -> TlsProxyConfigurationV {
        TlsProxyConfigurationV {
            front: self.front@,
            front_timeout: self.front_timeout,
            back_timeout: self.back_timeout,
            max_connections: self.max_connections,
            buffer_size: self.buffer_size,
            public_address: view_opt_str(self.public_address),
            answer_404: self.answer_404@,
            answer_503: self.answer_503@,
            options: self.options,
            cipher_list: self.cipher_list@,
            default_name: view_opt_str(self.default_name),
            default_app_id: view_opt_str(self.default_app_id),
            default_certificate: view_opt_bytes(self.default_certificate),
            default_key: view_opt_bytes(self.default_key),
            default_certificate_chain: view_opt_str(self.default_certificate_chain),
        }
    }
}

impl PartialEq for TlsProxyConfiguration {
    fn eq(&self, o: &TlsProxyConfiguration) -> (r: bool) {
        self.front == o.front && self.front_timeout == o.front_timeout && self.back_timeout
            == o.back_timeout && self.max_connections == o.max_connections && self.buffer_size
            == o.buffer_size && opt_string_eq(&self.public_address, &o.public_address)
            && self.answer_404 == o.answer_404 && self.answer_503 == o.answer_503 && self.options
            == o.options && self.cipher_list == o.cipher_list && opt_string_eq(
            &self.default_name,
            &o.default_name,
        ) && opt_string_eq(&self.default_app_id, &o.default_app_id) && opt_bytes_eq(
            &self.default_certificate,
            &o.default_certificate,
        ) && opt_bytes_eq(&self.default_key, &o.default_key) && opt_string_eq(
            &self.default_certificate_chain,
            &o.default_certificate_chain,
        )
    }
}

impl vstd::std_specs::cmp::PartialEqSpecImpl for TlsProxyConfiguration {
    open spec fn obeys_eq_spec() -> bool {
        true
    }

    open spec fn eq_spec(&self, o: &TlsProxyConfiguration) -> bool {
        self@ == o@
    }
}

// ---------------------------------------------------------------------------
// Orders and replies.
// ---------------------------------------------------------------------------

/// A reconfiguration order, as consumed from the control channel after
/// decoding.
#[derive(Debug, Clone, Eq)]
pub enum Order {
    AddHttpFront(HttpFront),
    RemoveHttpFront(HttpFront),
    AddTlsFront(TlsFront),
    RemoveTlsFront(TlsFront),
    AddCertificate(CertificateAndKey),
    RemoveCertificate(CertFingerprint),
    AddTcpFront(TcpFront),
    RemoveTcpFront(TcpFront),
    AddInstance(Instance),
    RemoveInstance(Instance),
    HttpProxy(HttpProxyConfiguration),
    TlsProxy(TlsProxyConfiguration),
    SoftStop,
    HardStop,
    Status,
}

pub enum OrderV {
    AddHttpFront(HttpFrontV),
    RemoveHttpFront(HttpFrontV),
    AddTlsFront(TlsFrontV),
    RemoveTlsFront(TlsFrontV),
    AddCertificate(CertificateAndKeyV),
    RemoveCertificate(Seq<u8>),
    AddTcpFront(TcpFrontV),
    RemoveTcpFront(TcpFrontV),
    AddInstance(InstanceV),
    RemoveInstance(InstanceV),
    HttpProxy(HttpProxyConfigurationV),
    TlsProxy(TlsProxyConfigurationV),
    SoftStop,
    HardStop,
    Status,
}

impl View for Order {
    type V = OrderV;

    open spec fn view(&self) -> OrderV {
        match *self {
            Order::AddHttpFront(f) => OrderV::AddHttpFront(f@),
            Order::RemoveHttpFront(f) => OrderV::RemoveHttpFront(f@),
            Order::AddTlsFront(f) => OrderV::AddTlsFront(f@),
            Order::RemoveTlsFront(f) => OrderV::RemoveTlsFront(f@),
            Order::AddCertificate(c) => OrderV::AddCertificate(c@),
            Order::RemoveCertificate(f) => OrderV::RemoveCertificate(f@),
            Order::AddTcpFront(f) => OrderV::AddTcpFront(f@),
            Order::RemoveTcpFront(f) => OrderV::RemoveTcpFront(f@),
            Order::AddInstance(i) => OrderV::AddInstance(i@),
            Order::RemoveInstance(i) => OrderV::RemoveInstance(i@),
            Order::HttpProxy(c) => OrderV::HttpProxy(c@),
            Order::TlsProxy(c) => OrderV::TlsProxy(c@),
            Order::SoftStop => OrderV::SoftStop,
            Order::HardStop => OrderV::HardStop,
            Order::Status => OrderV::Status,
        }
    }
}

impl PartialEq for Order {
    fn eq(&self, o: &Order) -> (r: bool) {
        match (self, o) {
            (Order::AddHttpFront(a), Order::AddHttpFront(b)) => a == b,
            (Order::RemoveHttpFront(a), Order::RemoveHttpFront(b)) => a == b,
            (Order::AddTlsFront(a), Order::AddTlsFront(b)) => a == b,
            (Order::RemoveTlsFront(a), Order::RemoveTlsFront(b)) => a == b,
            (Order::AddCertificate(a), Order::AddCertificate(b)) => a == b,
            (Order::RemoveCertificate(a), Order::RemoveCertificate(b)) => bytes_eq(a, b),
            (Order::AddTcpFront(a), Order::AddTcpFront(b)) => a == b,
            (Order::RemoveTcpFront(a), Order::RemoveTcpFront(b)) => a == b,
            (Order::AddInstance(a), Order::AddInstance(b)) => a == b,
            (Order::RemoveInstance(a), Order::RemoveInstance(b)) => a == b,
            (Order::HttpProxy(a), Order::HttpProxy(b)) => a == b,
            (Order::TlsProxy(a), Order::TlsProxy(b)) => a == b,
            (Order::SoftStop, Order::SoftStop) => true,
            (Order::HardStop, Order::HardStop) => true,
            (Order::Status, Order::Status) => true,
            _ => false,
        }
    }
}

impl vstd::std_specs::cmp::PartialEqSpecImpl for Order {
    open spec fn obeys_eq_spec() -> bool {
        true
    }

    open spec fn eq_spec(&self, o: &Order) -> bool {
        self@ == o@
    }
}

/// The protocol topics an order concerns; the supervisor dispatches
/// each order to the loops whose topic it carries.
#[derive(Debug, PartialEq, Eq, Structural, Clone, Copy)]
pub enum Topic {
    HttpProxyConfig,
    TlsProxyConfig,
    TcpProxyConfig,
}

impl Order {
    /// Which proxy loops this order must be delivered to.
    pub fn get_topics(&self) -> (r: Vec<Topic>)
        ensures
            r@ == self.spec_topics(),
    {
        match *self {
            Order::AddHttpFront(_) => vec![Topic::HttpProxyConfig],
            Order::RemoveHttpFront(_) => vec![Topic::HttpProxyConfig],
            Order::AddTlsFront(_) => vec![Topic::TlsProxyConfig],
            Order::RemoveTlsFront(_) => vec![Topic::TlsProxyConfig],
            Order::AddCertificate(_) => vec![Topic::TlsProxyConfig],
            Order::RemoveCertificate(_) => vec![Topic::TlsProxyConfig],
            Order::AddTcpFront(_) => vec![Topic::TcpProxyConfig],
            Order::RemoveTcpFront(_) => vec![Topic::TcpProxyConfig],
            Order::AddInstance(_) => vec![
                Topic::HttpProxyConfig,
                Topic::TlsProxyConfig,
                Topic::TcpProxyConfig,
            ],
            Order::RemoveInstance(_) => vec![
                Topic::HttpProxyConfig,
                Topic::TlsProxyConfig,
                Topic::TcpProxyConfig,
            ],
            Order::HttpProxy(_) => vec![Topic::HttpProxyConfig],
            Order::TlsProxy(_) => vec![Topic::TlsProxyConfig],
            Order::SoftStop => vec![
                Topic::HttpProxyConfig,
                Topic::TlsProxyConfig,
                Topic::TcpProxyConfig,
            ],
            Order::HardStop => vec![
                Topic::HttpProxyConfig,
                Topic::TlsProxyConfig,
                Topic::TcpProxyConfig,
            ],
            Order::Status => vec![
                Topic::HttpProxyConfig,
                Topic::TlsProxyConfig,
                Topic::TcpProxyConfig,
            ],
        }
    }

    pub open spec fn spec_topics(&self) -> Seq<Topic> {
        match *self {
            Order::AddHttpFront(_) => seq![Topic::HttpProxyConfig],
            Order::RemoveHttpFront(_) => seq![Topic::HttpProxyConfig],
            Order::AddTlsFront(_) => seq![Topic::TlsProxyConfig],
            Order::RemoveTlsFront(_) => seq![Topic::TlsProxyConfig],
            Order::AddCertificate(_) => seq![Topic::TlsProxyConfig],
            Order::RemoveCertificate(_) => seq![Topic::TlsProxyConfig],
            Order::AddTcpFront(_) => seq![Topic::TcpProxyConfig],
            Order::RemoveTcpFront(_) => seq![Topic::TcpProxyConfig],
            Order::AddInstance(_) => seq![
                Topic::HttpProxyConfig,
                Topic::TlsProxyConfig,
                Topic::TcpProxyConfig,
            ],
            Order::RemoveInstance(_) => seq![
                Topic::HttpProxyConfig,
                Topic::TlsProxyConfig,
                Topic::TcpProxyConfig,
            ],
            Order::HttpProxy(_) => seq![Topic::HttpProxyConfig],
            Order::TlsProxy(_) => seq![Topic::TlsProxyConfig],
            Order::SoftStop => seq![
                Topic::HttpProxyConfig,
                Topic::TlsProxyConfig,
                Topic::TcpProxyConfig,
            ],
            Order::HardStop => seq![
                Topic::HttpProxyConfig,
                Topic::TlsProxyConfig,
                Topic::TcpProxyConfig,
            ],
            Order::Status => seq![
                Topic::HttpProxyConfig,
                Topic::TlsProxyConfig,
                Topic::TcpProxyConfig,
            ],
        }
    }
}

/// Reply from a proxy loop to the supervisor; `id` correlates it with
/// the order it answers.
#[derive(Debug, Clone, Eq)]
pub struct ServerMessage {
    pub id: MessageId,
    pub status: ServerMessageStatus,
}

impl PartialEq for ServerMessage {
    fn eq(&self, o: &ServerMessage) -> (r: bool) {
        self.id == o.id && self.status == o.status
    }
}

impl vstd::std_specs::cmp::PartialEqSpecImpl for ServerMessage {
    open spec fn obeys_eq_spec() -> bool {
        true
    }

    open spec fn eq_spec(&self, o: &ServerMessage) -> bool {
        self.id@ == o.id@ && self.status.eq_view(&o.status)
    }
}

/// Outcome of applying an order.
#[derive(Debug, Clone, Eq)]
pub enum ServerMessageStatus {
    Success,
    Processing,
    Error(String),
}

impl ServerMessageStatus {
    pub open spec fn eq_view(&self, o: &ServerMessageStatus) -> bool {
        match (self, o) {
            (ServerMessageStatus::Success, ServerMessageStatus::Success) => true,
            (ServerMessageStatus::Processing, ServerMessageStatus::Processing) => true,
            (ServerMessageStatus::Error(a), ServerMessageStatus::Error(b)) => a@ == b@,
            _ => false,
        }
    }
}

impl PartialEq for ServerMessageStatus {
    fn eq(&self, o: &ServerMessageStatus) -> (r: bool) {
        match (self, o) {
            (ServerMessageStatus::Success, ServerMessageStatus::Success) => true,
            (ServerMessageStatus::Processing, ServerMessageStatus::Processing) => true,
            (ServerMessageStatus::Error(a), ServerMessageStatus::Error(b)) => *a == *b,
            _ => false,
        }
    }
}

impl vstd::std_specs::cmp::PartialEqSpecImpl for ServerMessageStatus {
    open spec fn obeys_eq_spec() -> bool {
        true
    }

    open spec fn eq_spec(&self, o: &ServerMessageStatus) -> bool {
        self.eq_view(o)
    }
}

/// An order together with its correlation id, as posted on a proxy
/// loop's control channel.
#[derive(Debug, Clone)]
pub struct ProxyOrder {
    pub id: MessageId,
    pub order: Order,
}

impl Default for HttpProxyConfiguration {
    /// Listen on localhost, five-second timeouts, and canned 404/503
    /// answers.
    fn default() -> (r: HttpProxyConfiguration)
        ensures
            r.front@ == "127.0.0.1:8080"@,
            r.front_timeout == 5000,
            r.back_timeout == 5000,
            r.max_connections == 1000,
            r.buffer_size == 16384,
            r.public_address is None,
            r.answer_404@
                == "HTTP/1.1 404 Not Found\r\nCache-Control: no-cache\r\nConnection: close\r\n\r\n"@,
            r.answer_503@
                == "HTTP/1.1 503 your application is in deployment\r\nCache-Control: no-cache\r\nConnection: close\r\n\r\n"@,
    {
        HttpProxyConfiguration {
            front: "127.0.0.1:8080".to_owned(),
            front_timeout: 5000,
            back_timeout: 5000,
            max_connections: 1000,
            buffer_size: 16384,
            public_address: None,
            answer_404:
                "HTTP/1.1 404 Not Found\r\nCache-Control: no-cache\r\nConnection: close\r\n\r\n".to_owned(),
            answer_503:
                "HTTP/1.1 503 your application is in deployment\r\nCache-Control: no-cache\r\nConnection: close\r\n\r\n".to_owned(),
        }
    }
}

impl Default for TlsProxyConfiguration {
    /// Listen on localhost, disable the deprecated protocol versions,
    /// and prefer the server's ECDHE suites.
    fn default() -> (r: TlsProxyConfiguration)
        ensures
            r.front@ == "127.0.0.1:8443"@,
            r.front_timeout == 5000,
            r.back_timeout == 5000,
            r.max_connections == 1000,
            r.buffer_size == 16384,
            r.public_address is None,
            r.answer_404@
                == "HTTP/1.1 404 Not Found\r\nCache-Control: no-cache\r\nConnection: close\r\n\r\n"@,
            r.answer_503@
                == "HTTP/1.1 503 your application is in deployment\r\nCache-Control: no-cache\r\nConnection: close\r\n\r\n"@,
            r.options == TLS_OPT_CIPHER_SERVER_PREFERENCE | TLS_OPT_NO_COMPRESSION
                | TLS_OPT_NO_TICKET | TLS_OPT_NO_SSLV2 | TLS_OPT_NO_SSLV3 | TLS_OPT_NO_TLSV1,
            r.cipher_list@
                == "ECDHE-ECDSA-CHACHA20-POLY1305:ECDHE-RSA-CHACHA20-POLY1305:ECDHE-ECDSA-AES128-GCM-SHA256:ECDHE-RSA-AES128-GCM-SHA256:ECDHE-ECDSA-AES256-GCM-SHA384:ECDHE-RSA-AES256-GCM-SHA384:DHE-RSA-AES128-GCM-SHA256:DHE-RSA-AES256-GCM-SHA384:ECDHE-ECDSA-AES128-SHA256:ECDHE-RSA-AES128-SHA256:ECDHE-ECDSA-AES128-SHA:ECDHE-RSA-AES256-SHA384:ECDHE-RSA-AES128-SHA:ECDHE-ECDSA-AES256-SHA384:ECDHE-ECDSA-AES256-SHA:ECDHE-RSA-AES256-SHA:DHE-RSA-AES128-SHA256:DHE-RSA-AES128-SHA:DHE-RSA-AES256-SHA256:DHE-RSA-AES256-SHA:ECDHE-ECDSA-DES-CBC3-SHA:ECDHE-RSA-DES-CBC3-SHA:EDH-RSA-DES-CBC3-SHA:AES128-GCM-SHA256:AES256-GCM-SHA384:AES128-SHA256:AES256-SHA256:AES128-SHA:AES256-SHA:DES-CBC3-SHA:!DSS"@,
            r.default_name matches Some(n) && n@ == "lolcatho.st"@,
            r.default_app_id is None,
            r.default_certificate is None,
            r.default_key is None,
            r.default_certificate_chain is None,
    {
        TlsProxyConfiguration {
            front: "127.0.0.1:8443".to_owned(),
            front_timeout: 5000,
            back_timeout: 5000,
            max_connections: 1000,
            buffer_size: 16384,
            public_address: None,
            answer_404:
                "HTTP/1.1 404 Not Found\r\nCache-Control: no-cache\r\nConnection: close\r\n\r\n".to_owned(),
            answer_503:
                "HTTP/1.1 503 your application is in deployment\r\nCache-Control: no-cache\r\nConnection: close\r\n\r\n".to_owned(),
            cipher_list:
                "ECDHE-ECDSA-CHACHA20-POLY1305:ECDHE-RSA-CHACHA20-POLY1305:ECDHE-ECDSA-AES128-GCM-SHA256:ECDHE-RSA-AES128-GCM-SHA256:ECDHE-ECDSA-AES256-GCM-SHA384:ECDHE-RSA-AES256-GCM-SHA384:DHE-RSA-AES128-GCM-SHA256:DHE-RSA-AES256-GCM-SHA384:ECDHE-ECDSA-AES128-SHA256:ECDHE-RSA-AES128-SHA256:ECDHE-ECDSA-AES128-SHA:ECDHE-RSA-AES256-SHA384:ECDHE-RSA-AES128-SHA:ECDHE-ECDSA-AES256-SHA384:ECDHE-ECDSA-AES256-SHA:ECDHE-RSA-AES256-SHA:DHE-RSA-AES128-SHA256:DHE-RSA-AES128-SHA:DHE-RSA-AES256-SHA256:DHE-RSA-AES256-SHA:ECDHE-ECDSA-DES-CBC3-SHA:ECDHE-RSA-DES-CBC3-SHA:EDH-RSA-DES-CBC3-SHA:AES128-GCM-SHA256:AES256-GCM-SHA384:AES128-SHA256:AES256-SHA256:AES128-SHA:AES256-SHA:DES-CBC3-SHA:!DSS".to_owned(),
            options: TLS_OPT_CIPHER_SERVER_PREFERENCE | TLS_OPT_NO_COMPRESSION | TLS_OPT_NO_TICKET
                | TLS_OPT_NO_SSLV2 | TLS_OPT_NO_SSLV3 | TLS_OPT_NO_TLSV1,
            default_name: Some("lolcatho.st".to_owned()),
            default_app_id: None,
            default_certificate: None,
            default_key: None,
            default_certificate_chain: None,
        }
    }
}

} // verus!
