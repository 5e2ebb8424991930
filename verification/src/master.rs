//! Master (client) side: connection configuration, command frame builders,
//! the per-CA store of received data and the decoding of received ASDUs.
use crate::clock::{fields_in_range, utc_now, UtcNow};
use crate::data_point::{key_of, with_seq, DataPoint, DataPointMap, DataPointValue};
use crate::decode::{i16_of, i32_of, le24, le32, read_le16, read_le24, read_le32, to_i16, to_i32};
use crate::frame::le16;
use crate::types::{AsduTypeId, QualityFlags};
use vstd::prelude::*;

pub use crate::protocol::{seq_inc, seq_lt, ProtocolState};
pub use crate::received::{parse_and_store_asdu, parse_received_asdu, MasterReceivedData, ReceivedAsdu};

verus! {

/// A control command response received from the slave.
#[derive(Debug, Clone, Copy, PartialEq, Eq, Structural)]
pub struct ControlResponse {
    pub ioa: u32,
    pub asdu_type: u8,
    pub cot: u8,
    pub positive: bool,
}

impl ControlResponse {
    /// Whether this response answers the command at `ioa` with the
    /// expected cause of transmission.
    pub fn answers(&self, ioa: u32, expected_cot: u8) -> (b: bool)
        ensures
            b == (self.ioa == ioa && self.cot == expected_cot),
    {
        self.ioa == ioa && self.cot == expected_cot
    }
}

/// A single step in a control command execution.
#[derive(Debug, Clone)]
pub struct ControlStep {
    pub action: String,
    pub timestamp: String,
}

/// Result of a control command execution.
#[derive(Debug, Clone)]
pub struct ControlResult {
    pub steps: Vec<ControlStep>,
    pub duration_ms: u64,
}

/// Strategy for choosing the TLS protocol version on the client side.
#[derive(Debug, Clone, Copy, PartialEq, Eq, Structural)]
pub enum TlsVersionPolicy {
    /// Negotiate automatically (min = TLS 1.2, no max cap).
    Auto,
    /// Pin to TLS 1.2 (min = max = TLS 1.2).
    Tls12Only,
    /// Pin to TLS 1.3 (min = max = TLS 1.3).
    Tls13Only,
}

impl Default for TlsVersionPolicy {
    fn default() -> (p: TlsVersionPolicy)
        ensures
            p == TlsVersionPolicy::Auto,
    {
        TlsVersionPolicy::Auto
    }
}

/// TLS configuration for a master connection.
#[derive(Debug, Clone)]
pub struct TlsConfig {
    /// Enable TLS
    pub enabled: bool,
    /// Path to CA certificate file (PEM format) for server verification
    pub ca_file: String,
    /// Path to client certificate file (PEM format) for mutual TLS
    pub cert_file: String,
    /// Path to client private key file (PEM format)
    pub key_file: String,
    /// Path to client PKCS#12 bundle for mutual TLS
    pub pkcs12_file: String,
    /// Password for the PKCS#12 bundle
    pub pkcs12_password: String,
    /// Accept invalid/self-signed certificates (for testing)
    pub accept_invalid_certs: bool,
    /// TLS version policy. Defaults to `Auto` (min=1.2, no max cap).
    pub version: TlsVersionPolicy,
}

impl TlsConfig {
    /// TLS switched off, no files, certificates checked, automatic version.
    pub open spec fn is_default(&self) -> bool {
        &&& !self.enabled
        &&& self.ca_file@ == Seq::<char>::empty()
        &&& self.cert_file@ == Seq::<char>::empty()
        &&& self.key_file@ == Seq::<char>::empty()
        &&& self.pkcs12_file@ == Seq::<char>::empty()
        &&& self.pkcs12_password@ == Seq::<char>::empty()
        &&& !self.accept_invalid_certs
        &&& self.version == TlsVersionPolicy::Auto
    }
}

impl Default for TlsConfig {
    fn default() -> (c: TlsConfig)
        ensures
            c.is_default(),
    {
        TlsConfig {
            enabled: false,
            ca_file: String::new(),
            cert_file: String::new(),
            key_file: String::new(),
            pkcs12_file: String::new(),
            pkcs12_password: String::new(),
            accept_invalid_certs: false,
            version: TlsVersionPolicy::Auto,
        }
    }
}

/// Running state of a master connection.
#[derive(Debug, Clone, Copy, PartialEq, Eq, Structural)]
pub enum MasterState {
    Disconnected,
    Connecting,
    Connected,
    Error,
}

/// Configuration for a master connection.
///
/// Protocol parameters t0/t1/t2/t3/k/w follow IEC 60870-5-104 §5.2 defaults
/// (t0=30s, t1=15s, t2=10s, t3=20s, k=12, w=8). `default_qoi` /
/// `default_qcc` are applied when the caller doesn't override them.
/// `interrogate_period_s` and `counter_interrogate_period_s` drive the
/// optional auto-poll loops; 0 disables them.
#[derive(Debug, Clone)]
pub struct MasterConfig {
    pub target_address: String,
    pub port: u16,
    pub common_address: u16,
    /// Legacy: TCP connect timeout in ms, kept for older configurations;
    /// superseded by `t0` whenever `t0` is set (non-zero).
    pub timeout_ms: u64,
    /// TLS configuration (optional)
    pub tls: TlsConfig,
    /// t0: connection establishment timeout (seconds); 0 leaves it unset,
    /// and the legacy `timeout_ms` applies.
    pub t0: u32,
    /// t1: timeout waiting for ACK of sent I-frame or TESTFR_CON (seconds).
    pub t1: u32,
    /// t2: timeout for sending an S-frame ACK after receiving I-frames (seconds).
    pub t2: u32,
    /// t3: idle timeout before sending TESTFR_ACT (seconds).
    pub t3: u32,
    /// k: max number of unacknowledged outgoing I-frames.
    pub k: u16,
    /// w: max number of received I-frames before forcing an S-frame ACK.
    pub w: u16,
    /// Default QOI (Qualifier of Interrogation); 20 = global station.
    pub default_qoi: u8,
    /// Default QCC (Qualifier of Counter Interrogation); 5 = total + no freeze.
    pub default_qcc: u8,
    /// Period for auto general interrogation in seconds. 0 disables.
    pub interrogate_period_s: u32,
    /// Period for auto counter interrogation in seconds. 0 disables.
    pub counter_interrogate_period_s: u32,
}

pub fn default_t0() -> (v: u32)
    ensures
        v == 30,
{
    30
}

pub fn default_t1() -> (v: u32)
    ensures
        v == 15,
{
    15
}

pub fn default_t2() -> (v: u32)
    ensures
        v == 10,
{
    10
}

pub fn default_t3() -> (v: u32)
    ensures
        v == 20,
{
    20
}

pub fn default_k() -> (v: u16)
    ensures
        v == 12,
{
    12
}

pub fn default_w() -> (v: u16)
    ensures
        v == 8,
{
    8
}

pub fn default_qoi_value() -> (v: u8)
    ensures
        v == 20,
{
    20
}

pub fn default_qcc_value() -> (v: u8)
    ensures
        v == 5,
{
    5
}

impl MasterConfig {
    /// The protocol parameters are the IEC 60870-5-104 defaults.
    pub open spec fn has_default_protocol(&self) -> bool {
        &&& self.t0 == 30
        &&& self.t1 == 15
        &&& self.t2 == 10
        &&& self.t3 == 20
        &&& self.k == 12
        &&& self.w == 8
        &&& self.default_qoi == 20
        &&& self.default_qcc == 5
        &&& self.interrogate_period_s == 0
        &&& self.counter_interrogate_period_s == 0
    }

    /// TCP connect timeout in milliseconds: `t0` whenever it is set, else
    /// the legacy `timeout_ms`.
    pub fn connect_timeout_ms(&self) -> (ms: u64)
        ensures
            ms as int == if self.t0 != 0 { self.t0 as int * 1000 } else { self.timeout_ms as int },
    {
        if self.t0 != 0 {
            self.t0 as u64 * 1000
        } else {
            self.timeout_ms
        }
    }

    /// Whether the auto-poll task has anything to do.
    pub fn has_periodic_poll(&self) -> (b: bool)
        ensures
            b == (self.interrogate_period_s != 0 || self.counter_interrogate_period_s != 0),
    {
        self.interrogate_period_s != 0 || self.counter_interrogate_period_s != 0
    }
}

impl Default for MasterConfig {
    fn default() -> (c: MasterConfig)
        ensures
            c.target_address@ == "127.0.0.1"@,
            c.port == 2404,
            c.common_address == 1,
            c.timeout_ms == 3000,
            c.tls.is_default(),
            c.has_default_protocol(),
    {
        MasterConfig {
            target_address: String::from_str("127.0.0.1"),
            port: 2404,
            common_address: 1,
            timeout_ms: 3000,
            tls: TlsConfig::default(),
            t0: default_t0(),
            t1: default_t1(),
            t2: default_t2(),
            t3: default_t3(),
            k: default_k(),
            w: default_w(),
            default_qoi: default_qoi_value(),
            default_qcc: default_qcc_value(),
            interrogate_period_s: 0,
            counter_interrogate_period_s: 0,
        }
    }
}

/// Errors of a master connection.
#[derive(Debug, Clone)]
pub enum MasterError {
    AlreadyConnected,
    NotConnected,
    ConnectionError(String),
    TlsError(String),
    SendError(String),
}

impl MasterError {
    /// The human-readable message of each error.
    pub open spec fn spec_message(&self) -> Seq<char> {
        match self {
            MasterError::AlreadyConnected => "already connected"@,
            MasterError::NotConnected => "not connected"@,
            MasterError::ConnectionError(m) => "connection error: "@ + m@,
            MasterError::TlsError(m) => "TLS error: "@ + m@,
            MasterError::SendError(m) => "send error: "@ + m@,
        }
    }

    pub fn message(&self) -> (s: String)
        ensures
            s@ == self.spec_message(),
    {
        match self {
            MasterError::AlreadyConnected => String::from_str("already connected"),
            MasterError::NotConnected => String::from_str("not connected"),
            MasterError::ConnectionError(m) => {
                let mut s = String::from_str("connection error: ");
                s.append(m.as_str());
                s
            },
            MasterError::TlsError(m) => {
                let mut s = String::from_str("TLS error: ");
                s.append(m.as_str());
                s
            },
            MasterError::SendError(m) => {
                let mut s = String::from_str("send error: ");
                s.append(m.as_str());
                s
            },
        }
    }
}

/// TLS protocol versions a connector can be bounded by.
#[derive(Debug, Clone, Copy, PartialEq, Eq, Structural)]
pub enum TlsProtocolVersion {
    Tls12,
    Tls13,
}

impl TlsVersionPolicy {
    /// Lowest and highest protocol version a policy allows (no highest:
    /// whatever the peer offers). `Tls13Only` pins both ends, as some TLS
    /// back ends otherwise fall back to 1.2.
    pub fn bounds(self) -> (r: (TlsProtocolVersion, Option<TlsProtocolVersion>))
        ensures
            self == TlsVersionPolicy::Auto ==> r == (TlsProtocolVersion::Tls12, None::<TlsProtocolVersion>),
            self == TlsVersionPolicy::Tls12Only ==> r == (TlsProtocolVersion::Tls12, Some(TlsProtocolVersion::Tls12)),
            self == TlsVersionPolicy::Tls13Only ==> r == (TlsProtocolVersion::Tls13, Some(TlsProtocolVersion::Tls13)),
    {
        match self {
            TlsVersionPolicy::Auto => (TlsProtocolVersion::Tls12, None),
            TlsVersionPolicy::Tls12Only => (TlsProtocolVersion::Tls12, Some(TlsProtocolVersion::Tls12)),
            TlsVersionPolicy::Tls13Only => (TlsProtocolVersion::Tls13, Some(TlsProtocolVersion::Tls13)),
        }
    }
}

/// Where the client identity for mutual TLS comes from.
#[derive(Debug, Clone, Copy, PartialEq, Eq, Structural)]
pub enum ClientIdentity {
    /// No client certificate.
    NoIdentity,
    /// The PKCS#12 bundle.
    Pkcs12,
    /// The PEM certificate and key.
    PemPair,
}

impl TlsConfig {
    /// A PKCS#12 bundle is preferred; the PEM pair is used when both of its
    /// files are named.
    pub fn client_identity(&self) -> (r: ClientIdentity)
        ensures
            self.pkcs12_file@.len() > 0 ==> r == ClientIdentity::Pkcs12,
            self.pkcs12_file@.len() == 0 && self.cert_file@.len() > 0 && self.key_file@.len() > 0 ==> r == ClientIdentity::PemPair,
            self.pkcs12_file@.len() == 0 && !(self.cert_file@.len() > 0 && self.key_file@.len() > 0) ==> r == ClientIdentity::NoIdentity,
    {
        if !self.pkcs12_file.as_str().is_empty() {
            ClientIdentity::Pkcs12
        } else if !self.cert_file.as_str().is_empty() && !self.key_file.as_str().is_empty() {
            ClientIdentity::PemPair
        } else {
            ClientIdentity::NoIdentity
        }
    }
}

// ---------------------------------------------------------------------------
// Select before operate
// ---------------------------------------------------------------------------

/// Where a select-before-operate exchange stands.
#[derive(Debug, Clone, Copy, PartialEq, Eq, Structural)]
pub enum SboPhase {
    /// The select was sent; its confirmation is awaited.
    AwaitSelect,
    /// The execute was sent; its confirmation is awaited.
    AwaitExecute,
    /// Finished, successfully or not.
    Done,
}

/// What happened while a confirmation was awaited.
#[derive(Debug, Clone)]
pub enum SboEvent {
    /// A control response arrived.
    Response(ControlResponse),
    /// Five seconds passed without the confirmation.
    Timeout,
    /// Receiving responses failed, with this reason.
    RecvError(String),
}

/// What to do next in a select-before-operate exchange.
#[derive(Debug, Clone)]
pub enum SboAction {
    /// Keep waiting.
    Wait,
    /// The select was confirmed: send the execute.
    SendExecute,
    /// The execute was confirmed: done.
    Finish,
    /// The exchange failed.
    Fail(MasterError),
}

/// The kind of an action (0 wait, 1 send execute, 2 finish, 3 failure)
/// and, for a failure, the text of its send error.
pub open spec fn sbo_action_model(a: SboAction) -> (int, Seq<char>) {
    match a {
        SboAction::Wait => (0, Seq::empty()),
        SboAction::SendExecute => (1, Seq::empty()),
        SboAction::Finish => (2, Seq::empty()),
        SboAction::Fail(MasterError::SendError(m)) => (3, m@),
        SboAction::Fail(e) => (4, e.spec_message()),
    }
}

/// Next phase and action (as `sbo_action_model`) after `event` for the
/// command at `ioa`. Only a response for that IOA with COT 7 (activation
/// confirmation) counts; a negative one, a timeout or a failed receive end
/// the exchange with a send error.
pub open spec fn spec_sbo_step(phase: SboPhase, ioa: u32, event: SboEvent) -> (SboPhase, (int, Seq<char>)) {
    match phase {
        SboPhase::AwaitSelect => match event {
            SboEvent::Response(r) => if r.ioa == ioa && r.cot == 7 {
                if r.positive { (SboPhase::AwaitExecute, (1, Seq::empty())) }
                else { (SboPhase::Done, (3, "选择被拒绝 (否定确认)"@)) }
            } else {
                (SboPhase::AwaitSelect, (0, Seq::empty()))
            },
            SboEvent::Timeout => (SboPhase::Done, (3, "选择确认超时 (5s)"@)),
            SboEvent::RecvError(e) => (SboPhase::Done, (3, "等待选择确认失败: broadcast recv error: "@ + e@)),
        },
        SboPhase::AwaitExecute => match event {
            SboEvent::Response(r) => if r.ioa == ioa && r.cot == 7 {
                if r.positive { (SboPhase::Done, (2, Seq::empty())) }
                else { (SboPhase::Done, (3, "执行被拒绝 (否定确认)"@)) }
            } else {
                (SboPhase::AwaitExecute, (0, Seq::empty()))
            },
            SboEvent::Timeout => (SboPhase::Done, (3, "执行确认超时 (5s)"@)),
            SboEvent::RecvError(e) => (SboPhase::Done, (3, "等待执行确认失败: broadcast recv error: "@ + e@)),
        },
        SboPhase::Done => (SboPhase::Done, (0, Seq::empty())),
    }
}

fn send_error(prefix: &str, detail: &str) -> (e: MasterError)
    ensures
        e matches MasterError::SendError(m) && m@ == prefix@ + detail@,
{
    let mut m = String::from_str(prefix);
    m.append(detail);
    MasterError::SendError(m)
}

fn send_error_text(text: &str) -> (e: MasterError)
    ensures
        e matches MasterError::SendError(m) && m@ == text@,
{
    MasterError::SendError(String::from_str(text))
}

/// The decision of a select-before-operate exchange for the command at
/// `ioa` when `event` happens in `phase`.
pub fn sbo_step(phase: SboPhase, ioa: u32, event: &SboEvent) -> (r: (SboPhase, SboAction))
    ensures
        (r.0, sbo_action_model(r.1)) == spec_sbo_step(phase, ioa, *event),
{
    match phase {
        SboPhase::AwaitSelect => match event {
            SboEvent::Response(resp) => if resp.answers(ioa, 7) {
                if resp.positive {
                    (SboPhase::AwaitExecute, SboAction::SendExecute)
                } else {
                    (SboPhase::Done, SboAction::Fail(send_error_text("选择被拒绝 (否定确认)")))
                }
            } else {
                (SboPhase::AwaitSelect, SboAction::Wait)
            },
            SboEvent::Timeout => (SboPhase::Done, SboAction::Fail(send_error_text("选择确认超时 (5s)"))),
            SboEvent::RecvError(e) => (SboPhase::Done, SboAction::Fail(send_error("等待选择确认失败: broadcast recv error: ", e.as_str()))),
        },
        SboPhase::AwaitExecute => match event {
            SboEvent::Response(resp) => if resp.answers(ioa, 7) {
                if resp.positive {
                    (SboPhase::Done, SboAction::Finish)
                } else {
                    (SboPhase::Done, SboAction::Fail(send_error_text("执行被拒绝 (否定确认)")))
                }
            } else {
                (SboPhase::AwaitExecute, SboAction::Wait)
            },
            SboEvent::Timeout => (SboPhase::Done, SboAction::Fail(send_error_text("执行确认超时 (5s)"))),
            SboEvent::RecvError(e) => (SboPhase::Done, SboAction::Fail(send_error("等待执行确认失败: broadcast recv error: ", e.as_str()))),
        },
        SboPhase::Done => (SboPhase::Done, SboAction::Wait),
    }
}

// ---------------------------------------------------------------------------
// Command frame builders
// ---------------------------------------------------------------------------

/// The three low octets of an IOA, least significant first.
pub open spec fn ioa_octets(ioa: u32) -> Seq<u8> {
    seq![(ioa % 256) as u8, ((ioa / 256) % 256) as u8, ((ioa / 65536) % 256) as u8]
}

/// The two octets of a common address, least significant first.
pub open spec fn ca_octets(ca: u16) -> Seq<u8> {
    seq![(ca % 256) as u8, (ca / 256) as u8]
}

/// The 16-bit two's-complement word of a signed value.
pub open spec fn word_of_i16(v: i16) -> u16 {
    if v < 0 { (v + 65536) as u16 } else { v as u16 }
}

/// The four octets of a 32-bit word, least significant first.
pub open spec fn word32_octets(v: u32) -> Seq<u8> {
    seq![(v % 256) as u8, ((v / 256) % 256) as u8, ((v / 65536) % 256) as u8, (v / 16777216) as u8]
}

/// APCI of an I-frame of `len` octets (after the length octet) with zero
/// sequence numbers, the ASDU header of a single object, and its IOA.
pub open spec fn command_head(len: u8, type_id: u8, cot: u8, ca: u16, ioa: u32) -> Seq<u8> {
    seq![0x68u8, len, 0u8, 0u8, 0u8, 0u8, type_id, 0x01u8, cot, 0u8] + ca_octets(ca) + ioa_octets(ioa)
}

/// Command qualifier octet: QU (5 bits) in bits 2..6, value in the low bits,
/// select/execute in bit 7.
pub open spec fn command_octet(low: int, qu: u8, select: bool) -> u8 {
    (low + (qu % 32) * 4 + if select { 128int } else { 0int }) as u8
}

/// Qualifier of set-point command: QL (7 bits) and select/execute in bit 7.
pub open spec fn qos_octet(ql: u8, select: bool) -> u8 {
    ((ql % 128) as int + if select { 128int } else { 0int }) as u8
}

pub(crate) fn push_ca(v: &mut Vec<u8>, ca: u16)
    ensures
        final(v)@ == old(v)@ + ca_octets(ca),
{
    v.push((ca % 256) as u8);
    v.push((ca / 256) as u8);
    assert(v@ =~= old(v)@ + ca_octets(ca));
}

pub(crate) fn push_ioa(v: &mut Vec<u8>, ioa: u32)
    ensures
        final(v)@ == old(v)@ + ioa_octets(ioa),
{
    v.push((ioa % 256) as u8);
    v.push(((ioa / 256) % 256) as u8);
    v.push(((ioa / 65536) % 256) as u8);
    assert(v@ =~= old(v)@ + ioa_octets(ioa));
}

pub(crate) fn push_word32(v: &mut Vec<u8>, w: u32)
    ensures
        final(v)@ == old(v)@ + word32_octets(w),
{
    v.push((w % 256) as u8);
    v.push(((w / 256) % 256) as u8);
    v.push(((w / 65536) % 256) as u8);
    v.push((w / 16777216) as u8);
    assert(v@ =~= old(v)@ + word32_octets(w));
}

fn command_head_vec(len: u8, type_id: u8, cot: u8, ca: u16, ioa: u32) -> (v: Vec<u8>)
    ensures
        v@ == command_head(len, type_id, cot, ca, ioa),
{
    let mut v: Vec<u8> = Vec::new();
    v.push(0x68);
    v.push(len);
    v.push(0);
    v.push(0);
    v.push(0);
    v.push(0);
    v.push(type_id);
    v.push(0x01);
    v.push(cot);
    v.push(0);
    push_ca(&mut v, ca);
    push_ioa(&mut v, ioa);
    assert(v@ =~= command_head(len, type_id, cot, ca, ioa));
    v
}

pub(crate) fn i16_word(v: i16) -> (w: u16)
    ensures
        w == word_of_i16(v),
{
    if v < 0 { (v as i32 + 65536) as u16 } else { v as u16 }
}

/// General interrogation (C_IC_NA_1) with the given QOI, COT=6, IOA=0.
pub open spec fn spec_gi_command(ca: u16, qoi: u8) -> Seq<u8> {
    command_head(0x0E, 100, 6, ca, 0) + seq![qoi]
}

pub fn build_gi_command(ca: u16, qoi: u8) -> (f: Vec<u8>)
    ensures
        f@ == spec_gi_command(ca, qoi),
{
    let mut v = command_head_vec(0x0E, 100, 6, ca, 0);
    v.push(qoi);
    v
}

/// Counter interrogation (C_CI_NA_1) with the given QCC, COT=6, IOA=0.
pub open spec fn spec_counter_read_command(ca: u16, qcc: u8) -> Seq<u8> {
    command_head(0x0E, 101, 6, ca, 0) + seq![qcc]
}

pub fn build_counter_read_command(ca: u16, qcc: u8) -> (f: Vec<u8>)
    ensures
        f@ == spec_counter_read_command(ca, qcc),
{
    let mut v = command_head_vec(0x0E, 101, 6, ca, 0);
    v.push(qcc);
    v
}

/// Single command (C_SC_NA_1): SCO = QU, state in bit 0, select in bit 7.
pub open spec fn spec_single_command(ca: u16, ioa: u32, value: bool, select: bool, qu: u8, cot: u8) -> Seq<u8> {
    command_head(0x0E, 45, cot, ca, ioa) + seq![command_octet(if value { 1int } else { 0int }, qu, select)]
}

pub fn build_single_command(ca: u16, ioa: u32, value: bool, select: bool, qu: u8, cot: u8) -> (f: Vec<u8>)
    ensures
        f@ == spec_single_command(ca, ioa, value, select, qu, cot),
{
    let mut v = command_head_vec(0x0E, 45, cot, ca, ioa);
    let sco: u8 = (qu % 32) * 4 + (if value { 1u8 } else { 0u8 }) + (if select { 128u8 } else { 0u8 });
    v.push(sco);
    v
}

/// Double command (C_DC_NA_1): DCO = QU, state in bits 0..1, select in bit 7.
pub open spec fn spec_double_command(ca: u16, ioa: u32, value: u8, select: bool, qu: u8, cot: u8) -> Seq<u8> {
    command_head(0x0E, 46, cot, ca, ioa) + seq![command_octet((value % 4) as int, qu, select)]
}

pub fn build_double_command(ca: u16, ioa: u32, value: u8, select: bool, qu: u8, cot: u8) -> (f: Vec<u8>)
    ensures
        f@ == spec_double_command(ca, ioa, value, select, qu, cot),
{
    let mut v = command_head_vec(0x0E, 46, cot, ca, ioa);
    let dco: u8 = value % 4 + (qu % 32) * 4 + (if select { 128u8 } else { 0u8 });
    v.push(dco);
    v
}

/// Regulating step command (C_RC_NA_1): RCO = QU, step (1 lower, 2 higher)
/// in bits 0..1, select in bit 7.
pub open spec fn spec_step_command(ca: u16, ioa: u32, value: u8, select: bool, qu: u8, cot: u8) -> Seq<u8> {
    command_head(0x0E, 47, cot, ca, ioa) + seq![command_octet((value % 4) as int, qu, select)]
}

pub fn build_step_command(ca: u16, ioa: u32, value: u8, select: bool, qu: u8, cot: u8) -> (f: Vec<u8>)
    ensures
        f@ == spec_step_command(ca, ioa, value, select, qu, cot),
{
    let mut v = command_head_vec(0x0E, 47, cot, ca, ioa);
    let rco: u8 = value % 4 + (qu % 32) * 4 + (if select { 128u8 } else { 0u8 });
    v.push(rco);
    v
}

/// Set-point, normalized (C_SE_NA_1) carrying the NVA word `nva`.
pub open spec fn spec_setpoint_normalized(ca: u16, ioa: u32, nva: i16, select: bool, ql: u8, cot: u8) -> Seq<u8> {
    command_head(0x10, 48, cot, ca, ioa)
        + seq![(word_of_i16(nva) % 256) as u8, (word_of_i16(nva) / 256) as u8, qos_octet(ql, select)]
}

/// Set-point command, normalized value. The caller scales the value to its
/// NVA word (value times 32767, truncated).
pub fn build_setpoint_normalized(ca: u16, ioa: u32, nva: i16, select: bool, ql: u8, cot: u8) -> (f: Vec<u8>)
    ensures
        f@ == spec_setpoint_normalized(ca, ioa, nva, select, ql, cot),
{
    let mut v = command_head_vec(0x10, 48, cot, ca, ioa);
    let w = i16_word(nva);
    v.push((w % 256) as u8);
    v.push((w / 256) as u8);
    v.push(ql % 128 + (if select { 128u8 } else { 0u8 }));
    v
}

/// Set-point, scaled (C_SE_NB_1).
pub open spec fn spec_setpoint_scaled(ca: u16, ioa: u32, value: i16, select: bool, ql: u8, cot: u8) -> Seq<u8> {
    command_head(0x10, 49, cot, ca, ioa)
        + seq![(word_of_i16(value) % 256) as u8, (word_of_i16(value) / 256) as u8, qos_octet(ql, select)]
}

pub fn build_setpoint_scaled(ca: u16, ioa: u32, value: i16, select: bool, ql: u8, cot: u8) -> (f: Vec<u8>)
    ensures
        f@ == spec_setpoint_scaled(ca, ioa, value, select, ql, cot),
{
    let mut v = command_head_vec(0x10, 49, cot, ca, ioa);
    let w = i16_word(value);
    v.push((w % 256) as u8);
    v.push((w / 256) as u8);
    v.push(ql % 128 + (if select { 128u8 } else { 0u8 }));
    v
}

/// Set-point, short float (C_SE_NC_1) carrying the IEEE-754 bits `bits`.
pub open spec fn spec_setpoint_float_command(ca: u16, ioa: u32, bits: u32, select: bool, ql: u8, cot: u8) -> Seq<u8> {
    command_head(0x12, 50, cot, ca, ioa) + word32_octets(bits) + seq![qos_octet(ql, select)]
}

/// Set-point command, short float. The caller passes the value's IEEE-754
/// bits (`f32::to_bits`).
pub fn build_setpoint_float_command(ca: u16, ioa: u32, bits: u32, select: bool, ql: u8, cot: u8) -> (f: Vec<u8>)
    ensures
        f@ == spec_setpoint_float_command(ca, ioa, bits, select, ql, cot),
{
    let mut v = command_head_vec(0x12, 50, cot, ca, ioa);
    push_word32(&mut v, bits);
    v.push(ql % 128 + (if select { 128u8 } else { 0u8 }));
    v
}

/// Bitstring command (C_BO_NA_1, type 51).
pub open spec fn spec_bitstring_command(ca: u16, ioa: u32, value: u32, cot: u8) -> Seq<u8> {
    command_head(0x11, 51, cot, ca, ioa) + word32_octets(value)
}

pub fn build_bitstring_command(ca: u16, ioa: u32, value: u32, cot: u8) -> (f: Vec<u8>)
    ensures
        f@ == spec_bitstring_command(ca, ioa, value, cot),
{
    let mut v = command_head_vec(0x11, 51, cot, ca, ioa);
    push_word32(&mut v, value);
    v
}

/// Clock synchronisation (C_CS_NA_1) carrying the CP56Time2a of the given
/// reading: milliseconds within the minute, minute, hour, day, month and
/// the two-digit year (24 when the year has no four-digit form).
pub open spec fn spec_clock_sync_frame(ca: u16, t: UtcNow) -> Seq<u8> {
    let ms = t.subsec_millis as int + t.second as int * 1000;
    let year = if 0 <= t.year <= 65535 { t.year as int % 100 } else { 24 };
    command_head(0x14, 103, 6, ca, 0)
        + seq![(ms % 256) as u8, (ms / 256) as u8, t.minute as u8, t.hour as u8, t.day as u8, t.month as u8, year as u8]
}

/// The clock synchronisation frame for a given clock reading.
pub fn clock_sync_frame(ca: u16, now: &UtcNow) -> (f: Vec<u8>)
    requires
        1 <= now.month <= 12,
        1 <= now.day <= 31,
        now.hour <= 23,
        now.minute <= 59,
        now.second <= 59,
        now.subsec_millis <= 1999,
    ensures
        f@ == spec_clock_sync_frame(ca, *now),
{
    let ms: u16 = now.subsec_millis as u16 + now.second as u16 * 1000;
    let year: u8 = if 0 <= now.year && now.year <= 65535 { (now.year % 100) as u8 } else { 24 };
    let mut v = command_head_vec(0x14, 103, 6, ca, 0);
    v.push((ms % 256) as u8);
    v.push((ms / 256) as u8);
    v.push(now.minute as u8);
    v.push(now.hour as u8);
    v.push(now.day as u8);
    v.push(now.month as u8);
    v.push(year);
    assert(v@ =~= spec_clock_sync_frame(ca, *now));
    v
}

/// Clock synchronisation command stamped with the current UTC time;
/// `None` when the clock cannot be read.
pub fn build_clock_sync_command(ca: u16) -> (f: Option<Vec<u8>>)
    ensures
        f matches Some(v) ==> exists|t: UtcNow|
            fields_in_range(t) && #[trigger] spec_clock_sync_frame(ca, t) == v@,
{
    match utc_now() {
        Some(now) => Some(clock_sync_frame(ca, &now)),
        None => None,
    }
}

} // verus!
