//! Requests and helpers of the slave front end: server and station
//! creation, point definitions from requests, value edits, random
//! mutation, and saving / restoring stations.
use crate::data_point::{key_of, with_value_at, DataPoint, DataPointMap, DataPointValue, InformationObjectDef};
use crate::master_app::{spec_time_text, time_text};
use crate::parse::{parse_int, spec_parse_int, text_is, IntErrorKind};
use crate::slave::{
    def_view, default_def, default_type, defs_view, fresh_point, spec_random_value, spec_upsert_def, CyclicConfig, DefView, RandomDraw, SlaveTlsConfig,
    SlaveTransportConfig, Station,
};
use crate::text::{dec_text, push_decimal};
use crate::types::{AsduTypeId, DataCategory, QualityFlags};
use vstd::prelude::*;

verus! {

/// State change of a server, as reported to the front end.
#[derive(Debug, Clone)]
pub struct ServerStateEvent {
    pub id: String,
    pub state: String,
}

/// Request to create a slave server.
#[derive(Debug)]
pub struct CreateServerRequest {
    pub bind_address: Option<String>,
    pub port: u16,
    pub init_mode: Option<String>,
    pub use_tls: Option<bool>,
    pub cert_file: Option<String>,
    pub key_file: Option<String>,
    pub ca_file: Option<String>,
    pub require_client_cert: Option<bool>,
}

/// Text of an optional string, empty when absent.
pub open spec fn or_text(o: Option<String>) -> Seq<char> {
    match o { Some(s) => s@, None => Seq::empty() }
}

fn text_or_empty(o: &Option<String>) -> (s: String)
    ensures
        s@ == or_text(*o),
{
    match o {
        Some(s) => s.clone(),
        None => String::new(),
    }
}

impl CreateServerRequest {
    /// Where the server listens: the requested address (0.0.0.0 when
    /// absent) and port, with the requested TLS settings.
    pub fn transport(&self) -> (t: SlaveTransportConfig)
        ensures
            t.bind_address@ == (match self.bind_address { Some(a) => a@, None => "0.0.0.0"@ }),
            t.port == self.port,
            t.tls.enabled == (match self.use_tls { Some(b) => b, None => false }),
            t.tls.cert_file@ == or_text(self.cert_file),
            t.tls.key_file@ == or_text(self.key_file),
            t.tls.ca_file@ == or_text(self.ca_file),
            t.tls.require_client_cert == (match self.require_client_cert { Some(b) => b, None => false }),
            t.tls.pkcs12_file@ == Seq::<char>::empty(),
            t.tls.pkcs12_password@ == Seq::<char>::empty(),
    {
        SlaveTransportConfig {
            bind_address: match &self.bind_address {
                Some(a) => a.clone(),
                None => String::from_str("0.0.0.0"),
            },
            port: self.port,
            tls: SlaveTlsConfig {
                enabled: match self.use_tls { Some(b) => b, None => false },
                cert_file: text_or_empty(&self.cert_file),
                key_file: text_or_empty(&self.key_file),
                ca_file: text_or_empty(&self.ca_file),
                require_client_cert: match self.require_client_cert { Some(b) => b, None => false },
                pkcs12_file: String::new(),
                pkcs12_password: String::new(),
            },
        }
    }
}

/// How a new station is filled.
#[derive(Debug, Clone, Copy, PartialEq, Eq, Structural)]
pub enum PointsInit {
    /// No points.
    Empty,
    /// Ten points per category at default values.
    Default,
    /// Ten points per category at random values.
    Random,
}

/// The fill of the station a new server starts with: random for
/// `"random"`, default values otherwise.
pub fn server_points_init(mode: &Option<String>) -> (p: PointsInit)
    ensures
        p == (match mode { Some(m) => if m@ == "random"@ { PointsInit::Random } else { PointsInit::Default }, None => PointsInit::Default }),
{
    match mode {
        Some(m) => if text_is(m.as_str(), "random") { PointsInit::Random } else { PointsInit::Default },
        None => PointsInit::Default,
    }
}

/// The fill of an added station: random for `"random"`, default values
/// for `"zero"`, none otherwise.
pub fn station_points_init(mode: &Option<String>) -> (p: PointsInit)
    ensures
        p == (match mode {
            Some(m) => if m@ == "random"@ { PointsInit::Random } else if m@ == "zero"@ { PointsInit::Default } else { PointsInit::Empty },
            None => PointsInit::Empty,
        }),
{
    match mode {
        Some(m) => if text_is(m.as_str(), "random") {
            PointsInit::Random
        } else if text_is(m.as_str(), "zero") {
            PointsInit::Default
        } else {
            PointsInit::Empty
        },
        None => PointsInit::Empty,
    }
}

/// A new station filled as `init` says: no points for `Empty`; otherwise
/// ten points of each of the eight monitoring categories at IOAs 1..=80,
/// with default values for `Default` and, for `Random`, the point at IOA
/// `n` taking its value from `draws[n - 1]`.
pub fn build_station(common_address: u16, name: &str, init: PointsInit, draws: &Vec<RandomDraw>) -> (s: Station)
    requires
        init == PointsInit::Random ==> draws.len() >= 80,
    ensures
        s.common_address == common_address,
        s.name@ == name@,
        s.cyclic_config == (CyclicConfig { enabled: false, interval_ms: 2000 }),
        s.data_points.wf(),
        s.data_points.entries().len() == if init == PointsInit::Empty { 0int } else { 80int },
        init == PointsInit::Empty ==> s.data_points@ == Map::<(u32, AsduTypeId), DataPoint>::empty()
            && s.data_points.seq() == 0 && s.object_defs@.len() == 0,
        init != PointsInit::Empty ==> {
            &&& s.data_points.seq() == 80
            &&& forall|k: (u32, AsduTypeId)| #[trigger] s.data_points@.contains_key(k)
                <==> (1 <= k.0 <= 80 && k.1 == default_type((k.0 - 1) / 10))
            &&& defs_view(s.object_defs@) == Seq::new(80, |i: int| default_def(i, 10))
        },
        init == PointsInit::Default ==> forall|k: (u32, AsduTypeId)| #[trigger] s.data_points@.contains_key(k)
            ==> fresh_point(s.data_points@[k], k.0, k.1, k.0 as u64),
        init == PointsInit::Random ==> forall|k: (u32, AsduTypeId)| #[trigger] s.data_points@.contains_key(k) ==> {
            let p = s.data_points@[k];
            &&& p.ioa == k.0
            &&& p.asdu_type == k.1
            &&& p.value == spec_random_value(k.1, draws@[k.0 - 1])
            &&& p.quality == QualityFlags::spec_good()
            &&& (p.timestamp matches Some(t) ==> t >= 0)
            &&& p.update_seq == k.0
        },
{
    match init {
        PointsInit::Empty => Station::new(common_address, name),
        PointsInit::Default => Station::with_default_points(common_address, name, 10),
        PointsInit::Random => Station::with_random_points(common_address, name, 10, draws),
    }
}

/// Request to add a station to a server.
#[derive(Debug)]
pub struct AddStationRequest {
    pub server_id: String,
    pub common_address: u16,
    pub name: String,
    pub init_mode: Option<String>,
}

/// The ASDU type a request names, in snake case or as the variant name.
pub open spec fn spec_parse_asdu_type(s: Seq<char>) -> Result<AsduTypeId, Seq<char>> {
    if s == "m_sp_na_1"@ || s == "MSpNa1"@ { Ok(AsduTypeId::MSpNa1) }
    else if s == "m_dp_na_1"@ || s == "MDpNa1"@ { Ok(AsduTypeId::MDpNa1) }
    else if s == "m_st_na_1"@ || s == "MStNa1"@ { Ok(AsduTypeId::MStNa1) }
    else if s == "m_bo_na_1"@ || s == "MBoNa1"@ { Ok(AsduTypeId::MBoNa1) }
    else if s == "m_me_na_1"@ || s == "MMeNa1"@ { Ok(AsduTypeId::MMeNa1) }
    else if s == "m_me_nb_1"@ || s == "MMeNb1"@ { Ok(AsduTypeId::MMeNb1) }
    else if s == "m_me_nc_1"@ || s == "MMeNc1"@ { Ok(AsduTypeId::MMeNc1) }
    else if s == "m_it_na_1"@ || s == "MItNa1"@ { Ok(AsduTypeId::MItNa1) }
    else { Err("unknown ASDU type: "@ + s) }
}

pub fn parse_asdu_type(s: &str) -> (r: Result<AsduTypeId, String>)
    ensures
        match r {
            Ok(t) => spec_parse_asdu_type(s@) == Ok::<AsduTypeId, Seq<char>>(t),
            Err(m) => spec_parse_asdu_type(s@) == Err::<AsduTypeId, Seq<char>>(m@),
        },
{
    if text_is(s, "m_sp_na_1") || text_is(s, "MSpNa1") { Ok(AsduTypeId::MSpNa1) }
    else if text_is(s, "m_dp_na_1") || text_is(s, "MDpNa1") { Ok(AsduTypeId::MDpNa1) }
    else if text_is(s, "m_st_na_1") || text_is(s, "MStNa1") { Ok(AsduTypeId::MStNa1) }
    else if text_is(s, "m_bo_na_1") || text_is(s, "MBoNa1") { Ok(AsduTypeId::MBoNa1) }
    else if text_is(s, "m_me_na_1") || text_is(s, "MMeNa1") { Ok(AsduTypeId::MMeNa1) }
    else if text_is(s, "m_me_nb_1") || text_is(s, "MMeNb1") { Ok(AsduTypeId::MMeNb1) }
    else if text_is(s, "m_me_nc_1") || text_is(s, "MMeNc1") { Ok(AsduTypeId::MMeNc1) }
    else if text_is(s, "m_it_na_1") || text_is(s, "MItNa1") { Ok(AsduTypeId::MItNa1) }
    else {
        let mut m = String::from_str("unknown ASDU type: ");
        m.append(s);
        Err(m)
    }
}

/// Request to add one point.
#[derive(Debug)]
pub struct AddDataPointRequest {
    pub server_id: String,
    pub common_address: u16,
    pub ioa: u32,
    pub asdu_type: String,
    pub name: Option<String>,
    pub comment: Option<String>,
}

impl AddDataPointRequest {
    /// The definition the request makes, or why its type is unknown.
    pub fn object_def(&self) -> (r: Result<InformationObjectDef, String>)
        ensures
            match r {
                Ok(d) => spec_parse_asdu_type(self.asdu_type@) == Ok::<AsduTypeId, Seq<char>>(d.asdu_type)
                    && def_view(d) == (self.ioa, d.asdu_type, d.asdu_type.spec_category(), or_text(self.name), or_text(self.comment)),
                Err(m) => spec_parse_asdu_type(self.asdu_type@) == Err::<AsduTypeId, Seq<char>>(m@),
            },
    {
        let t = match parse_asdu_type(self.asdu_type.as_str()) {
            Ok(t) => t,
            Err(m) => return Err(m),
        };
        Ok(InformationObjectDef {
            ioa: self.ioa,
            asdu_type: t,
            category: t.category(),
            name: text_or_empty(&self.name),
            comment: text_or_empty(&self.comment),
        })
    }
}

/// Request to add a run of points.
#[derive(Debug)]
pub struct BatchAddDataPointsRequest {
    pub server_id: String,
    pub common_address: u16,
    pub start_ioa: u32,
    pub count: u32,
    pub asdu_type: String,
    pub name_prefix: Option<String>,
}

/// Request to mutate some points of a station at random.
#[derive(Debug)]
pub struct RandomMutateRequest {
    pub server_id: String,
    pub common_address: u16,
}

/// Request to set the cyclic transmission of a station.
#[derive(Debug)]
pub struct CyclicConfigRequest {
    pub server_id: String,
    pub common_address: u16,
    pub enabled: bool,
    pub interval_ms: u32,
}

impl CyclicConfigRequest {
    pub fn config(&self) -> (c: CyclicConfig)
        ensures
            c == (CyclicConfig { enabled: self.enabled, interval_ms: self.interval_ms }),
    {
        CyclicConfig { enabled: self.enabled, interval_ms: self.interval_ms }
    }
}

// ---------------------------------------------------------------------------
// Editing values
// ---------------------------------------------------------------------------

/// A single-point state as typed: `true`/`1`/`ON`/`on` or
/// `false`/`0`/`OFF`/`off`.
pub open spec fn spec_parse_switch(s: Seq<char>) -> Result<bool, Seq<char>> {
    if s == "true"@ || s == "1"@ || s == "ON"@ || s == "on"@ {
        Ok(true)
    } else if s == "false"@ || s == "0"@ || s == "OFF"@ || s == "off"@ {
        Ok(false)
    } else {
        Err("invalid bool: "@ + s)
    }
}

/// The new value a typed text gives a point that holds `current`; the
/// kinds that cannot be typed are refused.
pub open spec fn spec_parse_point_value(current: DataPointValue, s: Seq<char>) -> Result<DataPointValue, Seq<char>> {
    match current {
        DataPointValue::SinglePoint { .. } => match spec_parse_switch(s) {
            Ok(b) => Ok(DataPointValue::SinglePoint { value: b }),
            Err(m) => Err(m),
        },
        DataPointValue::DoublePoint { .. } => match spec_parse_int(s, false, 0, 255) {
            Ok(v) => Ok(DataPointValue::DoublePoint { value: v as u8 }),
            Err(e) => Err(e.spec_message()),
        },
        DataPointValue::Scaled { .. } => match spec_parse_int(s, true, -32768, 32767) {
            Ok(v) => Ok(DataPointValue::Scaled { value: v as i16 }),
            Err(e) => Err(e.spec_message()),
        },
        DataPointValue::IntegratedTotal { carry, sequence, .. } => match spec_parse_int(s, true, -0x8000_0000, 0x7FFF_FFFF) {
            Ok(v) => Ok(DataPointValue::IntegratedTotal { value: v as i32, carry, sequence }),
            Err(e) => Err(e.spec_message()),
        },
        _ => Err("unsupported value type"@),
    }
}

/// Read a typed value for a point that holds `current`. The floating-point
/// kinds are read by the caller.
pub fn parse_point_value(current: &DataPointValue, s: &str) -> (r: Result<DataPointValue, String>)
    requires
        !current.spec_is_float(),
    ensures
        match r {
            Ok(v) => spec_parse_point_value(*current, s@) == Ok::<DataPointValue, Seq<char>>(v),
            Err(m) => spec_parse_point_value(*current, s@) == Err::<DataPointValue, Seq<char>>(m@),
        },
{
    match current {
        DataPointValue::SinglePoint { .. } => {
            if text_is(s, "true") || text_is(s, "1") || text_is(s, "ON") || text_is(s, "on") {
                Ok(DataPointValue::SinglePoint { value: true })
            } else if text_is(s, "false") || text_is(s, "0") || text_is(s, "OFF") || text_is(s, "off") {
                Ok(DataPointValue::SinglePoint { value: false })
            } else {
                let mut m = String::from_str("invalid bool: ");
                m.append(s);
                Err(m)
            }
        },
        DataPointValue::DoublePoint { .. } => match parse_int(s, false, 0, 255) {
            Ok(v) => Ok(DataPointValue::DoublePoint { value: v as u8 }),
            Err(e) => Err(e.message()),
        },
        DataPointValue::Scaled { .. } => match parse_int(s, true, -32768, 32767) {
            Ok(v) => Ok(DataPointValue::Scaled { value: v as i16 }),
            Err(e) => Err(e.message()),
        },
        DataPointValue::IntegratedTotal { carry, sequence, .. } => match parse_int(s, true, -0x8000_0000, 0x7FFF_FFFF) {
            Ok(v) => Ok(DataPointValue::IntegratedTotal { value: v as i32, carry: *carry, sequence: *sequence }),
            Err(e) => Err(e.message()),
        },
        _ => Err(String::from_str("unsupported value type")),
    }
}

// ---------------------------------------------------------------------------
// Random mutation
// ---------------------------------------------------------------------------

/// How many of `n` points a random mutation touches: 30%, at least 3, at
/// most all.
pub open spec fn spec_mutation_count(n: int) -> int {
    let c = n * 30 / 100;
    let c2 = if c < 3 { 3 } else { c };
    if c2 > n { n } else { c2 }
}

pub fn mutation_count(n: usize) -> (c: usize)
    requires
        n <= usize::MAX / 30,
    ensures
        c == spec_mutation_count(n as int),
{
    let c = n * 30 / 100;
    let c2 = if c < 3 { 3 } else { c };
    if c2 > n { n } else { c2 }
}

/// Random draws for mutating one point. The floating-point kinds arrive
/// already mutated (NVA word and IEEE-754 bits).
#[derive(Debug, Clone, Copy)]
pub struct MutationDraw {
    /// Scaled delta in [-100, 100).
    pub scaled_delta: i16,
    /// Counter increment in [0, 100).
    pub total_delta: i32,
    /// New NVA word of a normalized value.
    pub normalized_raw: i16,
    /// New IEEE-754 bits of a short float.
    pub float_bits: u32,
}

/// `a + b` clamped to the range of `i16`.
pub open spec fn sat_add_i16(a: i16, b: i16) -> i16 {
    let s = a + b;
    if s > 32767 { 32767i16 } else if s < -32768 { -32768i16 } else { s as i16 }
}

/// A value after one random mutation: switches toggle, double points swap
/// on and off, measured values and counters move by the draw, the rest
/// stays.
pub open spec fn spec_mutated_value(v: DataPointValue, d: MutationDraw) -> DataPointValue {
    match v {
        DataPointValue::SinglePoint { value } => DataPointValue::SinglePoint { value: !value },
        DataPointValue::DoublePoint { value } => DataPointValue::DoublePoint { value: if value == 1 { 2 } else { 1 } },
        DataPointValue::Normalized { .. } => DataPointValue::Normalized { raw: d.normalized_raw },
        DataPointValue::Scaled { value } => DataPointValue::Scaled { value: sat_add_i16(value, d.scaled_delta) },
        DataPointValue::ShortFloat { .. } => DataPointValue::ShortFloat { bits: d.float_bits },
        DataPointValue::IntegratedTotal { value, carry, sequence } =>
            DataPointValue::IntegratedTotal { value: (value + d.total_delta) as i32, carry, sequence },
        _ => v,
    }
}

pub fn mutated_value(v: &DataPointValue, d: &MutationDraw) -> (r: DataPointValue)
    requires
        0 <= d.total_delta,
        v matches DataPointValue::IntegratedTotal { value, .. } ==> value + d.total_delta <= i32::MAX,
    ensures
        r == spec_mutated_value(*v, *d),
{
    match v {
        DataPointValue::SinglePoint { value } => DataPointValue::SinglePoint { value: !*value },
        DataPointValue::DoublePoint { value } => DataPointValue::DoublePoint { value: if *value == 1 { 2 } else { 1 } },
        DataPointValue::Normalized { .. } => DataPointValue::Normalized { raw: d.normalized_raw },
        DataPointValue::Scaled { value } => {
            let s: i32 = *value as i32 + d.scaled_delta as i32;
            let c: i16 = if s > 32767 { 32767 } else if s < -32768 { -32768 } else { s as i16 };
            DataPointValue::Scaled { value: c }
        },
        DataPointValue::ShortFloat { .. } => DataPointValue::ShortFloat { bits: d.float_bits },
        DataPointValue::IntegratedTotal { value, carry, sequence } =>
            DataPointValue::IntegratedTotal { value: *value + d.total_delta, carry: *carry, sequence: *sequence },
        _ => *v,
    }
}

/// The point map after the first `n` picks of a random mutation: the
/// `j`-th pick is the point `pts[order[j]]`, which takes its mutated value
/// under draw `draws[j]` and the time `now`.
pub open spec fn spec_mutate(
    m: Map<(u32, AsduTypeId), DataPoint>,
    pts: Seq<DataPoint>,
    order: Seq<usize>,
    draws: Seq<MutationDraw>,
    n: nat,
    now: i64,
) -> Map<(u32, AsduTypeId), DataPoint>
    decreases n,
{
    if n == 0 {
        m
    } else {
        let p = pts[order[n - 1] as int];
        spec_mutate(m, pts, order, draws, (n - 1) as nat, now).insert(
            key_of(p),
            with_value_at(p, spec_mutated_value(p.value, draws[n - 1]), Some(now)),
        )
    }
}

/// A draw that a pick can take: counters only grow, and not past `i32`.
pub open spec fn draw_fits(p: DataPoint, d: MutationDraw) -> bool {
    &&& 0 <= d.total_delta
    &&& p.value matches DataPointValue::IntegratedTotal { value, .. } ==> value + d.total_delta <= i32::MAX
}

/// Randomly mutate a station's points: of the points in key order, the
/// first `mutation_count` positions of the shuffled `order` are picked, the
/// `j`-th pick takes draw `draws[j]`, and each picked point gets its
/// mutated value stamped `now`. Returns the keys changed, in pick order.
pub fn mutate_points(m: &mut DataPointMap, order: &Vec<usize>, draws: &Vec<MutationDraw>, now: i64) -> (changed: Vec<(u32, AsduTypeId)>)
    requires
        old(m).wf(),
        old(m).entries().len() <= usize::MAX / 30,
        order.len() == old(m).entries().len(),
        forall|j: int| 0 <= j < order.len() ==> (#[trigger] order[j]) < order.len(),
        draws.len() >= spec_mutation_count(old(m).entries().len() as int),
        forall|j: int| 0 <= j < spec_mutation_count(old(m).entries().len() as int)
            ==> draw_fits(old(m).entries()[order[j] as int], #[trigger] draws[j]),
    ensures
        final(m).wf(),
        final(m).seq() == old(m).seq(),
        final(m).entries().len() == old(m).entries().len(),
        changed@ == Seq::new(spec_mutation_count(old(m).entries().len() as int) as nat,
            |j: int| key_of(old(m).entries()[order[j] as int])),
        final(m)@ == spec_mutate(old(m)@, old(m).entries(), order@, draws@,
            spec_mutation_count(old(m).entries().len() as int) as nat, now),
{
    let pts = m.all_sorted();
    let count = mutation_count(pts.len());
    let ghost m0 = old(m)@;
    let mut changed: Vec<(u32, AsduTypeId)> = Vec::new();
    let mut i: usize = 0;
    while i < count
        invariant
            m.wf(),
            pts@ == old(m).entries(),
            m0 == old(m)@,
            m0 == crate::data_point::seq_to_map(pts@),
            crate::data_point::sorted_by_key(pts@),
            count == spec_mutation_count(pts.len() as int),
            count <= pts.len(),
            i <= count,
            order.len() == pts.len(),
            forall|j: int| 0 <= j < order.len() ==> (#[trigger] order[j]) < order.len(),
            draws.len() >= count,
            forall|j: int| 0 <= j < count ==> draw_fits(pts@[order[j] as int], #[trigger] draws[j]),
            m.seq() == old(m).seq(),
            m.entries().len() == pts.len(),
            m@ == spec_mutate(m0, pts@, order@, draws@, i as nat, now),
            forall|k: (u32, AsduTypeId)| #[trigger] m@.contains_key(k) == m0.contains_key(k),
            forall|k: (u32, AsduTypeId)| m0.contains_key(k) ==> {
                let a = #[trigger] m@[k];
                let b = m0[k];
                a.ioa == b.ioa && a.asdu_type == b.asdu_type && a.quality == b.quality && a.update_seq == b.update_seq
            },
            changed@ == Seq::new(i as nat, |j: int| key_of(pts@[order[j] as int])),
        decreases count - i,
    {
        let k = order[i];
        let p = pts[k];
        proof {
            assert(draw_fits(pts@[order[i as int] as int], draws[i as int]));
            crate::data_point::lemma_map_index(pts@, k as int);
        }
        let v = mutated_value(&p.value, &draws[i]);
        let ghost before = m@;
        let _ = m.update_value(p.ioa, p.asdu_type, v, Some(now));
        proof {
            let key = key_of(p);
            assert(before.contains_key(key));
            assert(with_value_at(before[key], v, Some(now)) == with_value_at(p, v, Some(now)));
        }
        changed.push((p.ioa, p.asdu_type));
        i = i + 1;
        proof {
            assert(changed@ =~= Seq::new(i as nat, |j: int| key_of(pts@[order[j] as int])));
        }
    }
    changed
}

// ---------------------------------------------------------------------------
// Listing points
// ---------------------------------------------------------------------------

/// A slave point as listed to the front end.
#[derive(Debug, Clone)]
pub struct DataPointInfo {
    pub ioa: u32,
    pub asdu_type: String,
    pub category: String,
    pub name: String,
    pub comment: String,
    pub value: String,
    pub quality_iv: bool,
    pub timestamp: Option<String>,
}

/// Name and comment of the last definition for `(ioa, t)` among `defs`;
/// empty texts when there is none.
pub open spec fn def_texts(defs: Seq<DefView>, ioa: u32, t: AsduTypeId) -> (Seq<char>, Seq<char>)
    decreases defs.len(),
{
    if defs.len() == 0 {
        (Seq::empty(), Seq::empty())
    } else if crate::slave::def_matches(defs.last(), ioa, t) {
        (defs.last().3, defs.last().4)
    } else {
        def_texts(defs.drop_last(), ioa, t)
    }
}

/// The row listed for point `p`, named by the definitions `defs`, whose
/// value displays as `text`.
pub open spec fn row_matches(r: DataPointInfo, p: DataPoint, defs: Seq<DefView>, text: Seq<char>) -> bool {
    &&& r.ioa == p.ioa
    &&& r.asdu_type@ == p.asdu_type.spec_name()
    &&& r.category@ == p.asdu_type.spec_category().spec_name()
    &&& (r.name@, r.comment@) == def_texts(defs, p.ioa, p.asdu_type)
    &&& r.value@ == text
    &&& r.quality_iv == p.quality.iv
    &&& (r.timestamp is Some <==> p.timestamp is Some)
    &&& (r.timestamp matches Some(s) ==> s@ == spec_time_text(p.timestamp->0))
}

fn def_texts_of(defs: &Vec<InformationObjectDef>, ioa: u32, t: AsduTypeId) -> (r: (String, String))
    ensures
        (r.0@, r.1@) == def_texts(defs_view(defs@), ioa, t),
{
    let ghost dv = defs_view(defs@);
    assert(dv.take(defs.len() as int) =~= dv);
    let mut i: usize = defs.len();
    while i > 0
        invariant
            i <= defs.len(),
            dv == defs_view(defs@),
            def_texts(dv, ioa, t) == def_texts(dv.take(i as int), ioa, t),
        decreases i,
    {
        let d = &defs[i - 1];
        assert(dv.take(i as int).last() == def_view(*d));
        if d.ioa == ioa && d.asdu_type == t {
            return (d.name.clone(), d.comment.clone());
        }
        assert(dv.take(i as int).drop_last() =~= dv.take(i - 1));
        i = i - 1;
    }
    (String::new(), String::new())
}

/// The rows listed for a station's points, in key order; `texts[i]` is how
/// the `i`-th point's value displays.
pub fn point_rows(st: &Station, texts: &Vec<String>) -> (r: Vec<DataPointInfo>)
    requires
        texts.len() == st.data_points.entries().len(),
    ensures
        r.len() == texts.len(),
        forall|i: int| 0 <= i < r.len() ==> row_matches(#[trigger] r[i], st.data_points.entries()[i], defs_view(st.object_defs@), texts[i]@),
{
    let pts = st.data_points.all_sorted();
    let mut r: Vec<DataPointInfo> = Vec::new();
    let mut i: usize = 0;
    while i < pts.len()
        invariant
            i <= pts.len(),
            pts@ == st.data_points.entries(),
            texts.len() == pts.len(),
            r.len() == i,
            forall|j: int| 0 <= j < i ==> row_matches(#[trigger] r[j], st.data_points.entries()[j], defs_view(st.object_defs@), texts[j]@),
        decreases pts.len() - i,
    {
        let p = pts[i];
        let (name, comment) = def_texts_of(&st.object_defs, p.ioa, p.asdu_type);
        let row = DataPointInfo {
            ioa: p.ioa,
            asdu_type: p.asdu_type.name().to_string(),
            category: p.asdu_type.category().name().to_string(),
            name,
            comment,
            value: texts[i].clone(),
            quality_iv: p.quality.iv,
            timestamp: match p.timestamp {
                Some(t) => Some(time_text(t)),
                None => None,
            },
        };
        r.push(row);
        i = i + 1;
    }
    r
}

// ---------------------------------------------------------------------------
// Saving and restoring stations
// ---------------------------------------------------------------------------

/// A server as saved: where it listens and its stations.
#[derive(Debug)]
pub struct PersistedServer {
    pub bind_address: String,
    pub port: u16,
    pub stations: Vec<PersistedStation>,
}

/// A station as saved: its address, name and point definitions.
#[derive(Debug)]
pub struct PersistedStation {
    pub common_address: u16,
    pub name: String,
    pub object_defs: Vec<InformationObjectDef>,
}

/// Everything saved, with the format version.
#[derive(Debug)]
pub struct PersistedAppState {
    pub version: u32,
    pub servers: Vec<PersistedServer>,
}

/// Saved states of version 1 are read; any other version is refused.
pub fn check_state_version(version: u32) -> (r: Result<(), String>)
    ensures
        version == 1 ==> r is Ok,
        version != 1 ==> (r matches Err(m) && m@ == "unsupported state version: "@ + dec_text(version as nat)),
{
    if version != 1 {
        let mut m = String::from_str("unsupported state version: ");
        push_decimal(&mut m, version as u64);
        return Err(m);
    }
    Ok(())
}

fn copy_def(d: &InformationObjectDef) -> (r: InformationObjectDef)
    ensures
        def_view(r) == def_view(*d),
{
    InformationObjectDef {
        ioa: d.ioa,
        asdu_type: d.asdu_type,
        category: d.category,
        name: d.name.clone(),
        comment: d.comment.clone(),
    }
}

/// The saved form of a station.
pub fn persist_station(st: &Station) -> (p: PersistedStation)
    ensures
        p.common_address == st.common_address,
        p.name@ == st.name@,
        defs_view(p.object_defs@) == defs_view(st.object_defs@),
{
    let mut defs: Vec<InformationObjectDef> = Vec::new();
    let mut i: usize = 0;
    while i < st.object_defs.len()
        invariant
            i <= st.object_defs.len(),
            defs_view(defs@) == defs_view(st.object_defs@).take(i as int),
        decreases st.object_defs.len() - i,
    {
        let ghost before = defs@;
        let d = copy_def(&st.object_defs[i]);
        defs.push(d);
        assert(defs_view(defs@) =~= defs_view(before).push(def_view(d)));
        assert(def_view(d) == defs_view(st.object_defs@)[i as int]);
        i = i + 1;
        assert(defs_view(defs@) =~= defs_view(st.object_defs@).take(i as int));
    }
    assert(defs_view(st.object_defs@).take(i as int) =~= defs_view(st.object_defs@));
    PersistedStation { common_address: st.common_address, name: st.name.clone(), object_defs: defs }
}

/// The definitions after recording `defs` one by one.
pub open spec fn spec_restore_defs(defs: Seq<DefView>) -> Seq<DefView>
    decreases defs.len(),
{
    if defs.len() == 0 { Seq::empty() } else { spec_upsert_def(spec_restore_defs(defs.drop_last()), defs.last()) }
}

/// Whether some definition names the point `k`.
pub open spec fn defines(defs: Seq<DefView>, k: (u32, AsduTypeId)) -> bool {
    exists|i: int| 0 <= i < defs.len() && (#[trigger] defs[i]).0 == k.0 && defs[i].1 == k.1
}

/// A station rebuilt from its saved form: each definition recorded in
/// order, each defined point created with its default value.
pub fn restore_station(p: &PersistedStation) -> (st: Station)
    ensures
        st.common_address == p.common_address,
        st.name@ == p.name@,
        st.data_points.wf(),
        defs_view(st.object_defs@) == spec_restore_defs(defs_view(p.object_defs@)),
        forall|k: (u32, AsduTypeId)| #[trigger] st.data_points@.contains_key(k) <==> defines(defs_view(p.object_defs@), k),
        forall|k: (u32, AsduTypeId)| #[trigger] st.data_points@.contains_key(k)
            ==> fresh_point(st.data_points@[k], k.0, k.1, st.data_points@[k].update_seq),
{
    let mut st = Station::new(p.common_address, p.name.as_str());
    let ghost dv = defs_view(p.object_defs@);
    let mut i: usize = 0;
    while i < p.object_defs.len()
        invariant
            i <= p.object_defs.len(),
            dv == defs_view(p.object_defs@),
            st.common_address == p.common_address,
            st.name@ == p.name@,
            st.data_points.wf(),
            st.data_points.seq() <= i,
            defs_view(st.object_defs@) == spec_restore_defs(dv.take(i as int)),
            forall|k: (u32, AsduTypeId)| #[trigger] st.data_points@.contains_key(k) <==> defines(dv.take(i as int), k),
            forall|k: (u32, AsduTypeId)| #[trigger] st.data_points@.contains_key(k)
                ==> fresh_point(st.data_points@[k], k.0, k.1, st.data_points@[k].update_seq),
        decreases p.object_defs.len() - i,
    {
        let d = copy_def(&p.object_defs[i]);
        let ghost k0 = (d.ioa, d.asdu_type);
        let ghost before = st.data_points@;
        let _ = st.add_point(d);
        proof {
            let t = dv.take(i + 1);
            assert(t.drop_last() =~= dv.take(i as int));
            assert(t.last() == def_view(d));
            assert forall|k: (u32, AsduTypeId)| #[trigger] st.data_points@.contains_key(k) <==> defines(t, k) by {
                if defines(dv.take(i as int), k) {
                    let j = choose|j: int| 0 <= j < dv.take(i as int).len() && (#[trigger] dv.take(i as int)[j]).0 == k.0
                        && dv.take(i as int)[j].1 == k.1;
                    assert(t[j] == dv.take(i as int)[j]);
                }
                if defines(t, k) {
                    let j = choose|j: int| 0 <= j < t.len() && (#[trigger] t[j]).0 == k.0 && t[j].1 == k.1;
                    if j < i {
                        assert(dv.take(i as int)[j] == t[j]);
                    }
                }
                if k == k0 {
                    assert(t[i as int].0 == k.0 && t[i as int].1 == k.1);
                }
                if st.data_points@.contains_key(k) && k != k0 && !before.contains_key(k0) {
                    assert(st.data_points@.remove(k0).contains_key(k));
                }
            }
            assert forall|k: (u32, AsduTypeId)| #[trigger] st.data_points@.contains_key(k)
                implies fresh_point(st.data_points@[k], k.0, k.1, st.data_points@[k].update_seq) by {
                if k != k0 && !before.contains_key(k0) {
                    assert(st.data_points@.remove(k0).contains_key(k));
                    assert(st.data_points@[k] == st.data_points@.remove(k0)[k]);
                }
            }
        }
        i = i + 1;
    }
    assert(dv.take(p.object_defs.len() as int) =~= dv);
    st
}

} // verus!
