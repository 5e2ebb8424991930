//! Requests, replies and helpers of the master front end: connection
//! requests and the configuration they make, control command frames for
//! select-before-operate, raw APDU checks, and the rows shown for received
//! points.
use crate::data_point::DataPoint;
use crate::master::{
    build_bitstring_command, build_double_command, build_setpoint_float_command, spec_bitstring_command, build_setpoint_normalized, build_setpoint_scaled,
    build_single_command, build_step_command, spec_double_command, spec_setpoint_float_command,
    spec_setpoint_normalized, spec_setpoint_scaled, spec_single_command, spec_step_command, MasterConfig, TlsConfig,
    TlsVersionPolicy,
};
use crate::parse::{parse_bool, parse_hex_payload, parse_int, parse_u32_value, spec_hex_payload, spec_parse_bool, spec_parse_int, spec_parse_u32_value, text_is};
use crate::text::{hex_dump_text, hex_of};
use crate::text::{dec_text, dec_text_padded, hex_byte_text, push_char, push_decimal, push_decimal_padded, push_hex_byte};
use crate::types::AsduTypeId;
use vstd::prelude::*;

verus! {

/// State change of a connection, as reported to the front end.
#[derive(Debug, Clone)]
pub struct ConnectionStateEvent {
    pub id: String,
    pub state: String,
}

/// Request to create a master connection. Every protocol parameter is
/// optional; absent ones take the `MasterConfig` defaults.
#[derive(Debug)]
pub struct CreateConnectionRequest {
    pub target_address: String,
    pub port: u16,
    /// All Common Addresses to talk to over this connection. If absent or
    /// empty, falls back to `[common_address]` (legacy single-CA field) or
    /// finally `[1]`.
    pub common_addresses: Option<Vec<u16>>,
    /// Legacy single-CA field; ignored when `common_addresses` is non-empty.
    pub common_address: Option<u16>,
    pub timeout_ms: Option<u64>,
    pub use_tls: Option<bool>,
    pub ca_file: Option<String>,
    pub cert_file: Option<String>,
    pub key_file: Option<String>,
    pub accept_invalid_certs: Option<bool>,
    /// TLS version policy: "auto" | "tls12_only" | "tls13_only" (default: "auto")
    pub tls_version: Option<String>,
    pub t0: Option<u32>,
    pub t1: Option<u32>,
    pub t2: Option<u32>,
    pub t3: Option<u32>,
    pub k: Option<u16>,
    pub w: Option<u16>,
    /// QOI for general interrogation (1..=255). 20 = global station.
    pub default_qoi: Option<u8>,
    /// QCC for counter interrogation (1..=255). 5 = total + no freeze.
    pub default_qcc: Option<u8>,
    /// Period (s) for auto general interrogation. 0 disables.
    pub interrogate_period_s: Option<u32>,
    /// Period (s) for auto counter interrogation. 0 disables.
    pub counter_interrogate_period_s: Option<u32>,
}

pub open spec fn or_u64(o: Option<u64>, d: u64) -> u64 {
    match o { Some(v) => v, None => d }
}

pub open spec fn or_u32(o: Option<u32>, d: u32) -> u32 {
    match o { Some(v) => v, None => d }
}

pub open spec fn or_u16(o: Option<u16>, d: u16) -> u16 {
    match o { Some(v) => v, None => d }
}

pub open spec fn or_u8(o: Option<u8>, d: u8) -> u8 {
    match o { Some(v) => v, None => d }
}

pub open spec fn or_bool(o: Option<bool>, d: bool) -> bool {
    match o { Some(v) => v, None => d }
}

/// Text of an optional string, empty when absent.
pub open spec fn or_text(o: Option<String>) -> Seq<char> {
    match o { Some(s) => s@, None => Seq::empty() }
}

/// The TLS version policy a request names; anything else is `Auto`.
pub open spec fn spec_tls_policy(o: Option<String>) -> TlsVersionPolicy {
    match o {
        Some(s) => if s@ == "tls12_only"@ {
            TlsVersionPolicy::Tls12Only
        } else if s@ == "tls13_only"@ {
            TlsVersionPolicy::Tls13Only
        } else {
            TlsVersionPolicy::Auto
        },
        None => TlsVersionPolicy::Auto,
    }
}

fn text_or_empty(o: &Option<String>) -> (s: String)
    ensures
        s@ == or_text(*o),
{
    match o {
        Some(s) => s.clone(),
        None => String::new(),
    }
}

fn tls_policy(o: &Option<String>) -> (p: TlsVersionPolicy)
    ensures
        p == spec_tls_policy(*o),
{
    match o {
        Some(s) => if text_is(s.as_str(), "tls12_only") {
            TlsVersionPolicy::Tls12Only
        } else if text_is(s.as_str(), "tls13_only") {
            TlsVersionPolicy::Tls13Only
        } else {
            TlsVersionPolicy::Auto
        },
        None => TlsVersionPolicy::Auto,
    }
}

impl CreateConnectionRequest {
    /// The CAs a request names: its non-empty list, else its single CA,
    /// else CA 1.
    pub open spec fn spec_resolve_cas(&self) -> Seq<u16> {
        if self.common_addresses is Some && self.common_addresses->0@.len() > 0 {
            self.common_addresses->0@
        } else {
            seq![or_u16(self.common_address, 1)]
        }
    }

    /// Resolve the final list of CAs from the request, applying backward-compat
    /// rules. Always returns at least one element.
    pub fn resolve_cas(&self) -> (r: Vec<u16>)
        ensures
            r@ == self.spec_resolve_cas(),
            r@.len() > 0,
    {
        match &self.common_addresses {
            Some(list) => {
                if list.len() > 0 {
                    let mut r: Vec<u16> = Vec::new();
                    let mut i: usize = 0;
                    while i < list.len()
                        invariant
                            i <= list.len(),
                            r@ == list@.take(i as int),
                        decreases list.len() - i,
                    {
                        r.push(list[i]);
                        i = i + 1;
                        assert(r@ =~= list@.take(i as int));
                    }
                    assert(list@.take(list.len() as int) =~= list@);
                    return r;
                }
            },
            None => {},
        }
        let ca = match self.common_address {
            Some(c) => c,
            None => 1,
        };
        let r = vec![ca];
        assert(r@ =~= seq![ca]);
        r
    }

    /// The connection configuration a request makes: its address, its
    /// first CA as primary, its TLS settings and protocol parameters, the
    /// defaults for what it leaves out.
    pub fn master_config(&self) -> (c: MasterConfig)
        ensures
            c.target_address@ == self.target_address@,
            c.port == self.port,
            c.common_address == self.spec_resolve_cas()[0],
            c.timeout_ms == or_u64(self.timeout_ms, 3000),
            c.tls.enabled == or_bool(self.use_tls, false),
            c.tls.ca_file@ == or_text(self.ca_file),
            c.tls.cert_file@ == or_text(self.cert_file),
            c.tls.key_file@ == or_text(self.key_file),
            c.tls.pkcs12_file@ == Seq::<char>::empty(),
            c.tls.pkcs12_password@ == Seq::<char>::empty(),
            c.tls.accept_invalid_certs == or_bool(self.accept_invalid_certs, false),
            c.tls.version == spec_tls_policy(self.tls_version),
            c.t0 == or_u32(self.t0, 30),
            c.t1 == or_u32(self.t1, 15),
            c.t2 == or_u32(self.t2, 10),
            c.t3 == or_u32(self.t3, 20),
            c.k == or_u16(self.k, 12),
            c.w == or_u16(self.w, 8),
            c.default_qoi == or_u8(self.default_qoi, 20),
            c.default_qcc == or_u8(self.default_qcc, 5),
            c.interrogate_period_s == or_u32(self.interrogate_period_s, 0),
            c.counter_interrogate_period_s == or_u32(self.counter_interrogate_period_s, 0),
    {
        let cas = self.resolve_cas();
        let mut c = MasterConfig::default();
        c.target_address = self.target_address.clone();
        c.port = self.port;
        c.common_address = cas[0];
        c.timeout_ms = match self.timeout_ms { Some(v) => v, None => 3000 };
        c.tls = TlsConfig {
            enabled: match self.use_tls { Some(v) => v, None => false },
            ca_file: text_or_empty(&self.ca_file),
            cert_file: text_or_empty(&self.cert_file),
            key_file: text_or_empty(&self.key_file),
            pkcs12_file: String::new(),
            pkcs12_password: String::new(),
            accept_invalid_certs: match self.accept_invalid_certs { Some(v) => v, None => false },
            version: tls_policy(&self.tls_version),
        };
        match self.t0 { Some(v) => { c.t0 = v; }, None => {} }
        match self.t1 { Some(v) => { c.t1 = v; }, None => {} }
        match self.t2 { Some(v) => { c.t2 = v; }, None => {} }
        match self.t3 { Some(v) => { c.t3 = v; }, None => {} }
        match self.k { Some(v) => { c.k = v; }, None => {} }
        match self.w { Some(v) => { c.w = v; }, None => {} }
        match self.default_qoi { Some(v) => { c.default_qoi = v; }, None => {} }
        match self.default_qcc { Some(v) => { c.default_qcc = v; }, None => {} }
        match self.interrogate_period_s { Some(v) => { c.interrogate_period_s = v; }, None => {} }
        match self.counter_interrogate_period_s { Some(v) => { c.counter_interrogate_period_s = v; }, None => {} }
        c
    }
}

/// A control command as the front end sends it.
#[derive(Debug)]
pub struct ControlCommandRequest {
    pub connection_id: String,
    pub ioa: u32,
    pub common_address: u16,
    pub command_type: String,
    pub value: String,
    pub select: Option<bool>,
    /// QU (single/double/step, occupies bits 2..6 of the command byte) or QL (setpoint, bits 0..6 of QOS).
    /// Bitstring(51) ignores this field.
    pub qualifier: Option<u8>,
    /// Cause Of Transmission. Defaults to 6 (Activation).
    pub cot: Option<u8>,
    /// 32-bit payload for C_BO_NA_1 (51). Required when command_type == "bitstring".
    pub bitstring: Option<u32>,
}

/// A raw APDU, as hex text, to send on a connection.
#[derive(Debug)]
pub struct RawApduRequest {
    pub connection_id: String,
    pub hex_payload: String,
}

/// What was sent for a raw APDU request.
#[derive(Debug)]
pub struct RawSendResult {
    pub sent_hex: String,
    pub byte_len: usize,
    pub timestamp: String,
}

/// Qualifier used when a control request gives none: 0, "no additional
/// definition" for QU and "default" for QL, whatever the command type.
pub fn default_qualifier(command_type: &str) -> (q: u8)
    ensures
        q == 0,
{
    0
}

/// Single command frame (C_SC_NA_1) for select-before-operate.
pub fn build_control_frames_single(ca: u16, ioa: u32, value: bool, select: bool, qu: u8, cot: u8) -> (f: Vec<u8>)
    ensures
        f@ == spec_single_command(ca, ioa, value, select, qu, cot),
{
    build_single_command(ca, ioa, value, select, qu, cot)
}

/// Double command frame (C_DC_NA_1) for select-before-operate.
pub fn build_control_frames_double(ca: u16, ioa: u32, value: u8, select: bool, qu: u8, cot: u8) -> (f: Vec<u8>)
    ensures
        f@ == spec_double_command(ca, ioa, value, select, qu, cot),
{
    build_double_command(ca, ioa, value, select, qu, cot)
}

/// Regulating step command frame (C_RC_NA_1) for select-before-operate.
pub fn build_control_frames_step(ca: u16, ioa: u32, value: u8, select: bool, qu: u8, cot: u8) -> (f: Vec<u8>)
    ensures
        f@ == spec_step_command(ca, ioa, value, select, qu, cot),
{
    build_step_command(ca, ioa, value, select, qu, cot)
}

/// Normalized set-point frame (C_SE_NA_1) for select-before-operate,
/// carrying the NVA word `nva`.
pub fn build_control_frames_setpoint_norm(ca: u16, ioa: u32, nva: i16, select: bool, ql: u8, cot: u8) -> (f: Vec<u8>)
    ensures
        f@ == spec_setpoint_normalized(ca, ioa, nva, select, ql, cot),
{
    build_setpoint_normalized(ca, ioa, nva, select, ql, cot)
}

/// Scaled set-point frame (C_SE_NB_1) for select-before-operate.
pub fn build_control_frames_setpoint_scaled(ca: u16, ioa: u32, value: i16, select: bool, ql: u8, cot: u8) -> (f: Vec<u8>)
    ensures
        f@ == spec_setpoint_scaled(ca, ioa, value, select, ql, cot),
{
    build_setpoint_scaled(ca, ioa, value, select, ql, cot)
}

/// Short-float set-point frame (C_SE_NC_1) for select-before-operate,
/// carrying the IEEE-754 bits `bits`.
pub fn build_control_frames_setpoint_float(ca: u16, ioa: u32, bits: u32, select: bool, ql: u8, cot: u8) -> (f: Vec<u8>)
    ensures
        f@ == spec_setpoint_float_command(ca, ioa, bits, select, ql, cot),
{
    build_setpoint_float_command(ca, ioa, bits, select, ql, cot)
}

pub open spec fn msg_apdu_too_short(n: nat) -> Seq<char> {
    "APDU 长度过短 ("@ + dec_text(n) + " 字节),至少需要 6 字节(STARTBYTE+LEN+4 字节控制域)"@
}

pub open spec fn msg_apdu_bad_start(b: u8) -> Seq<char> {
    "APDU 起始字节应为 0x68,实际为 0x"@ + hex_byte_text(b)
}

pub open spec fn msg_apdu_len_mismatch(declared: u8, total: nat) -> Seq<char> {
    "APDU 长度字段不匹配: LEN="@ + dec_text(declared as nat) + " (期望总长 "@ + dec_text(declared as nat + 2)
        + "),实际总长 "@ + dec_text(total)
}

/// What a raw APDU hex text gives: its bytes when they form one whole
/// APDU, else the reason they do not.
pub open spec fn spec_raw_apdu(s: Seq<char>) -> Result<Seq<u8>, Seq<char>> {
    match spec_hex_payload(s) {
        Err(m) => Err(m),
        Ok(b) => if b.len() < 6 {
            Err(msg_apdu_too_short(b.len()))
        } else if b[0] != 0x68 {
            Err(msg_apdu_bad_start(b[0]))
        } else if b[1] as int + 2 != b.len() {
            Err(msg_apdu_len_mismatch(b[1], b.len()))
        } else {
            Ok(b)
        },
    }
}

/// Read and check a raw APDU typed as hex: at least six bytes, start byte
/// 0x68, and a length octet that matches.
pub fn prepare_raw_apdu(hex_payload: &str) -> (r: Result<Vec<u8>, String>)
    ensures
        match r {
            Ok(b) => spec_raw_apdu(hex_payload@) == Ok::<Seq<u8>, Seq<char>>(b@),
            Err(m) => spec_raw_apdu(hex_payload@) == Err::<Seq<u8>, Seq<char>>(m@),
        },
{
    let bytes = match parse_hex_payload(hex_payload) {
        Ok(b) => b,
        Err(m) => return Err(m),
    };
    if bytes.len() < 6 {
        let mut m = String::from_str("APDU 长度过短 (");
        push_decimal(&mut m, bytes.len() as u64);
        m.append(" 字节),至少需要 6 字节(STARTBYTE+LEN+4 字节控制域)");
        return Err(m);
    }
    if bytes[0] != 0x68 {
        let mut m = String::from_str("APDU 起始字节应为 0x68,实际为 0x");
        push_hex_byte(&mut m, bytes[0]);
        return Err(m);
    }
    let declared = bytes[1];
    if declared as usize + 2 != bytes.len() {
        let mut m = String::from_str("APDU 长度字段不匹配: LEN=");
        push_decimal(&mut m, declared as u64);
        m.append(" (期望总长 ");
        push_decimal(&mut m, declared as u64 + 2);
        m.append("),实际总长 ");
        push_decimal(&mut m, bytes.len() as u64);
        return Err(m);
    }
    Ok(bytes)
}

/// Milliseconds in a day.
pub open spec fn day_millis() -> int {
    86_400_000
}

/// `HH:MM:SS.mmm` of a UTC time given in milliseconds since the epoch.
pub open spec fn spec_time_text(ms: i64) -> Seq<char> {
    let d = ms as int % day_millis();
    dec_text_padded((d / 3_600_000) as nat, 2) + seq![':'] + dec_text_padded(((d / 60_000) % 60) as nat, 2)
        + seq![':'] + dec_text_padded(((d / 1000) % 60) as nat, 2) + seq!['.'] + dec_text_padded((d % 1000) as nat, 3)
}

/// Format a UTC time given in milliseconds since the epoch as
/// `HH:MM:SS.mmm`.
pub fn time_text(ms: i64) -> (s: String)
    ensures
        s@ == spec_time_text(ms),
{
    let r = ms % 86_400_000;
    let d: i64 = if r < 0 { r + 86_400_000 } else { r };
    assert(d == ms as int % day_millis());
    let mut s = String::new();
    push_decimal_padded(&mut s, (d / 3_600_000) as u64, 2);
    push_char(&mut s, ':');
    push_decimal_padded(&mut s, ((d / 60_000) % 60) as u64, 2);
    push_char(&mut s, ':');
    push_decimal_padded(&mut s, ((d / 1000) % 60) as u64, 2);
    push_char(&mut s, '.');
    push_decimal_padded(&mut s, (d % 1000) as u64, 3);
    s
}

/// What a raw send reports: the bytes as spaced hex, their number, and
/// the time of sending.
pub fn raw_send_result(bytes: &Vec<u8>, now_ms: i64) -> (r: RawSendResult)
    ensures
        r.sent_hex@ == hex_dump_text(bytes@),
        r.byte_len == bytes.len(),
        r.timestamp@ == spec_time_text(now_ms),
{
    RawSendResult { sent_hex: hex_of(bytes.as_slice()), byte_len: bytes.len(), timestamp: time_text(now_ms) }
}

/// A connection as listed to the front end.
#[derive(Debug, Clone)]
pub struct ConnectionInfo {
    pub id: String,
    pub target_address: String,
    pub port: u16,
    /// All CAs configured for this connection (always non-empty).
    pub common_addresses: Vec<u16>,
    pub state: String,
    pub use_tls: bool,
    pub t0: u32,
    pub t1: u32,
    pub t2: u32,
    pub t3: u32,
    pub k: u16,
    pub w: u16,
    pub default_qoi: u8,
    pub default_qcc: u8,
    pub interrogate_period_s: u32,
    pub counter_interrogate_period_s: u32,
}

/// The listing of connection `id` with configuration `config`, CAs `cas`
/// and state text `state`.
pub fn connection_info(id: &str, config: &MasterConfig, cas: Vec<u16>, state: &str) -> (c: ConnectionInfo)
    ensures
        c.id@ == id@,
        c.target_address@ == config.target_address@,
        c.port == config.port,
        c.common_addresses@ == cas@,
        c.state@ == state@,
        c.use_tls == config.tls.enabled,
        c.t0 == config.t0 && c.t1 == config.t1 && c.t2 == config.t2 && c.t3 == config.t3,
        c.k == config.k && c.w == config.w,
        c.default_qoi == config.default_qoi && c.default_qcc == config.default_qcc,
        c.interrogate_period_s == config.interrogate_period_s,
        c.counter_interrogate_period_s == config.counter_interrogate_period_s,
{
    ConnectionInfo {
        id: id.to_string(),
        target_address: config.target_address.clone(),
        port: config.port,
        common_addresses: cas,
        state: state.to_string(),
        use_tls: config.tls.enabled,
        t0: config.t0,
        t1: config.t1,
        t2: config.t2,
        t3: config.t3,
        k: config.k,
        w: config.w,
        default_qoi: config.default_qoi,
        default_qcc: config.default_qcc,
        interrogate_period_s: config.interrogate_period_s,
        counter_interrogate_period_s: config.counter_interrogate_period_s,
    }
}

/// A received point as shown to the front end.
#[derive(Debug, Clone)]
pub struct ReceivedDataPointInfo {
    pub ioa: u32,
    /// Common Address of the station that sourced this point.
    pub common_address: u16,
    pub asdu_type: String,
    pub category: String,
    pub value: String,
    pub quality_iv: bool,
    pub timestamp: Option<String>,
    pub update_seq: u64,
}

/// Points changed since a watermark, with the new watermark and the total
/// number of points.
#[derive(Debug, Clone)]
pub struct IncrementalDataResponse {
    pub seq: u64,
    pub total_count: usize,
    pub points: Vec<ReceivedDataPointInfo>,
}

/// The row shown for point `p` of station `ca`, whose value displays as
/// `value`.
pub fn point_to_info(ca: u16, p: &DataPoint, value: String) -> (r: ReceivedDataPointInfo)
    ensures
        r.ioa == p.ioa,
        r.common_address == ca,
        r.asdu_type@ == p.asdu_type.spec_name(),
        r.category@ == p.asdu_type.spec_category().spec_name(),
        r.value@ == value@,
        r.quality_iv == p.quality.iv,
        r.timestamp is Some <==> p.timestamp is Some,
        r.timestamp matches Some(t) ==> t@ == spec_time_text(p.timestamp->0),
        r.update_seq == p.update_seq,
{
    ReceivedDataPointInfo {
        ioa: p.ioa,
        common_address: ca,
        asdu_type: p.asdu_type.name().to_string(),
        category: p.asdu_type.category().name().to_string(),
        value,
        quality_iv: p.quality.iv,
        timestamp: match p.timestamp {
            Some(t) => Some(time_text(t)),
            None => None,
        },
        update_seq: p.update_seq,
    }
}

/// A requested control command with its value read. The two
/// floating-point set-points leave their value text to the caller.
#[derive(Debug, Clone, Copy, PartialEq, Eq, Structural)]
pub enum ControlCommand {
    Single(bool),
    Double(u8),
    Step(u8),
    SetpointNormalized,
    SetpointScaled(i16),
    SetpointFloat,
    Bitstring(u32),
}

pub open spec fn msg_bitstring_no_sbo() -> Seq<char> {
    "位串命令 (C_BO_NA_1) 不支持 选择-执行 模式,请关闭 SbO 后再发送"@
}

pub open spec fn msg_bitstring_needs_value() -> Seq<char> {
    "bitstring 命令需要提供 32 位数值 (bitstring 字段或 value)"@
}

/// The command a request names with its value, or why there is none. A
/// bitstring command takes its `bitstring` field, else its value text, and
/// cannot be sent select-before-operate.
pub open spec fn spec_control_command(ct: Seq<char>, value: Seq<char>, bitstring: Option<u32>, select: bool)
    -> Result<ControlCommand, Seq<char>> {
    if ct == "single"@ {
        match spec_parse_bool(value) {
            Ok(b) => Ok(ControlCommand::Single(b)),
            Err(m) => Err(m),
        }
    } else if ct == "double"@ {
        match spec_parse_int(value, false, 0, 255) {
            Ok(v) => Ok(ControlCommand::Double(v as u8)),
            Err(e) => Err(e.spec_message()),
        }
    } else if ct == "step"@ {
        match spec_parse_int(value, false, 0, 255) {
            Ok(v) => Ok(ControlCommand::Step(v as u8)),
            Err(e) => Err(e.spec_message()),
        }
    } else if ct == "setpoint_normalized"@ {
        Ok(ControlCommand::SetpointNormalized)
    } else if ct == "setpoint_scaled"@ {
        match spec_parse_int(value, true, -32768, 32767) {
            Ok(v) => Ok(ControlCommand::SetpointScaled(v as i16)),
            Err(e) => Err(e.spec_message()),
        }
    } else if ct == "setpoint_float"@ {
        Ok(ControlCommand::SetpointFloat)
    } else if ct == "bitstring"@ {
        if select {
            Err(msg_bitstring_no_sbo())
        } else {
            match bitstring {
                Some(v) => Ok(ControlCommand::Bitstring(v)),
                None => match spec_parse_u32_value(value) {
                    Some(v) => Ok(ControlCommand::Bitstring(v)),
                    None => Err(msg_bitstring_needs_value()),
                },
            }
        }
    } else {
        Err("unknown command type: "@ + ct)
    }
}

/// Read the command of a control request.
pub fn parse_control_command(command_type: &str, value: &str, bitstring: Option<u32>, select: bool) -> (r: Result<ControlCommand, String>)
    ensures
        match r {
            Ok(c) => spec_control_command(command_type@, value@, bitstring, select) == Ok::<ControlCommand, Seq<char>>(c),
            Err(m) => spec_control_command(command_type@, value@, bitstring, select) == Err::<ControlCommand, Seq<char>>(m@),
        },
{
    if text_is(command_type, "single") {
        match parse_bool(value) {
            Ok(b) => Ok(ControlCommand::Single(b)),
            Err(m) => Err(m),
        }
    } else if text_is(command_type, "double") {
        match parse_int(value, false, 0, 255) {
            Ok(v) => Ok(ControlCommand::Double(v as u8)),
            Err(e) => Err(e.message()),
        }
    } else if text_is(command_type, "step") {
        match parse_int(value, false, 0, 255) {
            Ok(v) => Ok(ControlCommand::Step(v as u8)),
            Err(e) => Err(e.message()),
        }
    } else if text_is(command_type, "setpoint_normalized") {
        Ok(ControlCommand::SetpointNormalized)
    } else if text_is(command_type, "setpoint_scaled") {
        match parse_int(value, true, -32768, 32767) {
            Ok(v) => Ok(ControlCommand::SetpointScaled(v as i16)),
            Err(e) => Err(e.message()),
        }
    } else if text_is(command_type, "setpoint_float") {
        Ok(ControlCommand::SetpointFloat)
    } else if text_is(command_type, "bitstring") {
        if select {
            Err(String::from_str("位串命令 (C_BO_NA_1) 不支持 选择-执行 模式,请关闭 SbO 后再发送"))
        } else {
            match bitstring {
                Some(v) => Ok(ControlCommand::Bitstring(v)),
                None => match parse_u32_value(value) {
                    Some(v) => Ok(ControlCommand::Bitstring(v)),
                    None => Err(String::from_str("bitstring 命令需要提供 32 位数值 (bitstring 字段或 value)")),
                },
            }
        }
    } else {
        let mut m = String::from_str("unknown command type: ");
        m.append(command_type);
        Err(m)
    }
}

/// The frame of a command whose value is read (every kind but the two
/// floating-point set-points).
pub open spec fn spec_control_frame(c: ControlCommand, ca: u16, ioa: u32, select: bool, qu: u8, cot: u8) -> Seq<u8> {
    match c {
        ControlCommand::Single(v) => spec_single_command(ca, ioa, v, select, qu, cot),
        ControlCommand::Double(v) => spec_double_command(ca, ioa, v, select, qu, cot),
        ControlCommand::Step(v) => spec_step_command(ca, ioa, v, select, qu, cot),
        ControlCommand::SetpointScaled(v) => spec_setpoint_scaled(ca, ioa, v, select, qu, cot),
        ControlCommand::Bitstring(v) => spec_bitstring_command(ca, ioa, v, cot),
        _ => Seq::empty(),
    }
}

pub fn control_frame(c: ControlCommand, ca: u16, ioa: u32, select: bool, qu: u8, cot: u8) -> (f: Vec<u8>)
    requires
        c != ControlCommand::SetpointNormalized,
        c != ControlCommand::SetpointFloat,
    ensures
        f@ == spec_control_frame(c, ca, ioa, select, qu, cot),
{
    match c {
        ControlCommand::Single(v) => build_single_command(ca, ioa, v, select, qu, cot),
        ControlCommand::Double(v) => build_double_command(ca, ioa, v, select, qu, cot),
        ControlCommand::Step(v) => build_step_command(ca, ioa, v, select, qu, cot),
        ControlCommand::SetpointScaled(v) => build_setpoint_scaled(ca, ioa, v, select, qu, cot),
        ControlCommand::Bitstring(v) => build_bitstring_command(ca, ioa, v, cot),
        _ => Vec::new(),
    }
}

} // verus!
