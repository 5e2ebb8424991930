//! Slave (server) side: configuration, the station model with its points and
//! object definitions, and the table of stations a server serves.
use crate::data_point::{key_of, with_seq, DataPoint, DataPointMap, DataPointValue, InformationObjectDef};
use crate::text::{dec_text, push_decimal};
use crate::types::{AsduTypeId, DataCategory, QualityFlags};
use vstd::prelude::*;

verus! {

// ---------------------------------------------------------------------------
// Configuration
// ---------------------------------------------------------------------------

/// TLS settings of a slave server.
#[derive(Debug, Clone)]
pub struct SlaveTlsConfig {
    pub enabled: bool,
    pub cert_file: String,
    pub key_file: String,
    pub ca_file: String,
    pub require_client_cert: bool,
    /// PKCS#12 bundle holding the server identity, as an alternative to
    /// the PEM certificate and key.
    pub pkcs12_file: String,
    pub pkcs12_password: String,
}

impl SlaveTlsConfig {
    /// TLS switched off, no files, no client certificate required.
    pub open spec fn is_default(&self) -> bool {
        &&& !self.enabled
        &&& self.cert_file@ == Seq::<char>::empty()
        &&& self.key_file@ == Seq::<char>::empty()
        &&& self.ca_file@ == Seq::<char>::empty()
        &&& !self.require_client_cert
        &&& self.pkcs12_file@ == Seq::<char>::empty()
        &&& self.pkcs12_password@ == Seq::<char>::empty()
    }
}

impl Default for SlaveTlsConfig {
    fn default() -> (c: SlaveTlsConfig)
        ensures
            c.is_default(),
    {
        SlaveTlsConfig {
            enabled: false,
            cert_file: String::new(),
            key_file: String::new(),
            ca_file: String::new(),
            require_client_cert: false,
            pkcs12_file: String::new(),
            pkcs12_password: String::new(),
        }
    }
}

/// Cyclic (periodic) transmission settings of a station.
#[derive(Debug, Clone, Copy, PartialEq, Eq, Structural)]
pub struct CyclicConfig {
    pub enabled: bool,
    pub interval_ms: u32,
}

impl Default for CyclicConfig {
    fn default() -> (c: CyclicConfig)
        ensures
            c == (CyclicConfig { enabled: false, interval_ms: 2000 }),
    {
        CyclicConfig { enabled: false, interval_ms: 2000 }
    }
}

/// Running state of a slave server.
#[derive(Debug, Clone, Copy, PartialEq, Eq, Structural)]
pub enum ServerState {
    Stopped,
    Running,
}

/// Where a slave server listens.
#[derive(Debug, Clone)]
pub struct SlaveTransportConfig {
    pub bind_address: String,
    pub port: u16,
    pub tls: SlaveTlsConfig,
}

impl Default for SlaveTransportConfig {
    fn default() -> (c: SlaveTransportConfig)
        ensures
            c.bind_address@ == "0.0.0.0"@,
            c.port == 2404,
            c.tls.is_default(),
    {
        SlaveTransportConfig { bind_address: String::from_str("0.0.0.0"), port: 2404, tls: SlaveTlsConfig::default() }
    }
}

// ---------------------------------------------------------------------------
// Errors
// ---------------------------------------------------------------------------

/// Errors of the slave side.
#[derive(Debug, Clone, PartialEq, Eq)]
pub enum SlaveError {
    DuplicateIoa(u32),
    IoaNotFound(u32),
    DuplicateStation(u16),
    StationNotFound(u16),
    AlreadyRunning,
    NotRunning,
    BindError(String),
    TlsError(String),
}

impl SlaveError {
    /// The human-readable message of each error.
    pub open spec fn spec_message(&self) -> Seq<char> {
        match self {
            SlaveError::DuplicateIoa(ioa) => "IOA "@ + dec_text(*ioa as nat) + " already exists"@,
            SlaveError::IoaNotFound(ioa) => "IOA "@ + dec_text(*ioa as nat) + " not found"@,
            SlaveError::DuplicateStation(ca) => "station CA="@ + dec_text(*ca as nat) + " already exists"@,
            SlaveError::StationNotFound(ca) => "station CA="@ + dec_text(*ca as nat) + " not found"@,
            SlaveError::AlreadyRunning => "server is already running"@,
            SlaveError::NotRunning => "server is not running"@,
            SlaveError::BindError(m) => "bind error: "@ + m@,
            SlaveError::TlsError(m) => "TLS error: "@ + m@,
        }
    }

    pub fn message(&self) -> (s: String)
        ensures
            s@ == self.spec_message(),
    {
        match self {
            SlaveError::DuplicateIoa(ioa) => {
                let mut s = String::from_str("IOA ");
                push_decimal(&mut s, *ioa as u64);
                s.append(" already exists");
                s
            },
            SlaveError::IoaNotFound(ioa) => {
                let mut s = String::from_str("IOA ");
                push_decimal(&mut s, *ioa as u64);
                s.append(" not found");
                s
            },
            SlaveError::DuplicateStation(ca) => {
                let mut s = String::from_str("station CA=");
                push_decimal(&mut s, *ca as u64);
                s.append(" already exists");
                s
            },
            SlaveError::StationNotFound(ca) => {
                let mut s = String::from_str("station CA=");
                push_decimal(&mut s, *ca as u64);
                s.append(" not found");
                s
            },
            SlaveError::AlreadyRunning => String::from_str("server is already running"),
            SlaveError::NotRunning => String::from_str("server is not running"),
            SlaveError::BindError(m) => {
                let mut s = String::from_str("bind error: ");
                s.append(m.as_str());
                s
            },
            SlaveError::TlsError(m) => {
                let mut s = String::from_str("TLS error: ");
                s.append(m.as_str());
                s
            },
        }
    }
}

// ---------------------------------------------------------------------------
// Station
// ---------------------------------------------------------------------------

/// What an object definition says: address, type, category, name, comment.
pub type DefView = (u32, AsduTypeId, DataCategory, Seq<char>, Seq<char>);

pub open spec fn def_view(d: InformationObjectDef) -> DefView {
    (d.ioa, d.asdu_type, d.category, d.name@, d.comment@)
}

pub open spec fn defs_view(s: Seq<InformationObjectDef>) -> Seq<DefView> {
    s.map_values(|d: InformationObjectDef| def_view(d))
}

pub open spec fn def_matches(d: DefView, ioa: u32, t: AsduTypeId) -> bool {
    d.0 == ioa && d.1 == t
}

/// Index of the first definition for `(ioa, t)`, or -1 when there is none.
pub open spec fn def_slot(s: Seq<DefView>, ioa: u32, t: AsduTypeId) -> int {
    if exists|i: int| 0 <= i < s.len() && def_matches(#[trigger] s[i], ioa, t) {
        choose|i: int| 0 <= i < s.len() && def_matches(#[trigger] s[i], ioa, t)
            && forall|j: int| 0 <= j < i ==> !def_matches(#[trigger] s[j], ioa, t)
    } else {
        -1
    }
}

/// The definitions after recording `d`: it replaces the first definition
/// with the same address and type, or is appended.
pub open spec fn spec_upsert_def(s: Seq<DefView>, d: DefView) -> Seq<DefView> {
    let i = def_slot(s, d.0, d.1);
    if i >= 0 { s.update(i, d) } else { s.push(d) }
}

/// A point just created for `(ioa, t)`: default value of its type, good
/// quality, a non-negative time if any, and the given stamp.
pub open spec fn fresh_point(p: DataPoint, ioa: u32, t: AsduTypeId, seq: u64) -> bool {
    &&& p.ioa == ioa
    &&& p.asdu_type == t
    &&& p.value == DataPointValue::spec_default_for(t.spec_category())
    &&& p.quality == QualityFlags::spec_good()
    &&& (p.timestamp matches Some(t) ==> t >= 0)
    &&& p.update_seq == seq
}

/// A simulated outstation: its common address, its points and their
/// definitions.
#[derive(Debug, Clone)]
pub struct Station {
    pub common_address: u16,
    pub name: String,
    pub data_points: DataPointMap,
    pub object_defs: Vec<InformationObjectDef>,
    pub cyclic_config: CyclicConfig,
}

/// Where the first definition for `(ioa, t)` sits.
fn find_def(defs: &Vec<InformationObjectDef>, ioa: u32, t: AsduTypeId) -> (i: usize)
    ensures
        i <= defs.len(),
        i < defs.len() ==> def_slot(defs_view(defs@), ioa, t) == i,
        i == defs.len() ==> def_slot(defs_view(defs@), ioa, t) == -1,
{
    let ghost s = defs_view(defs@);
    let mut i: usize = 0;
    while i < defs.len() && !(defs[i].ioa == ioa && defs[i].asdu_type == t)
        invariant
            i <= defs.len(),
            s == defs_view(defs@),
            forall|j: int| 0 <= j < i ==> !def_matches(#[trigger] s[j], ioa, t),
        decreases defs.len() - i,
    {
        i = i + 1;
    }
    proof {
        if i < defs.len() {
            assert(def_matches(s[i as int], ioa, t));
            let c = choose|c: int| 0 <= c < s.len() && def_matches(#[trigger] s[c], ioa, t)
                && forall|j: int| 0 <= j < c ==> !def_matches(#[trigger] s[j], ioa, t);
            assert(0 <= c < s.len() && def_matches(s[c], ioa, t)
                && forall|j: int| 0 <= j < c ==> !def_matches(#[trigger] s[j], ioa, t));
            if c < i {
                assert(!def_matches(s[c], ioa, t));
            } else if c > i {
                assert(!def_matches(s[i as int], ioa, t));
            }
        } else {
            assert(!exists|k: int| 0 <= k < s.len() && def_matches(#[trigger] s[k], ioa, t));
        }
    }
    i
}

impl Station {
    pub fn new(common_address: u16, name: &str) -> (s: Station)
        ensures
            s.common_address == common_address,
            s.name@ == name@,
            s.data_points.wf(),
            s.data_points@ == Map::<(u32, AsduTypeId), DataPoint>::empty(),
            s.data_points.entries().len() == 0,
            s.data_points.seq() == 0,
            s.object_defs@.len() == 0,
            s.cyclic_config == (CyclicConfig { enabled: false, interval_ms: 2000 }),
    {
        Station {
            common_address,
            name: name.to_string(),
            data_points: DataPointMap::new(),
            object_defs: Vec::new(),
            cyclic_config: CyclicConfig::default(),
        }
    }

    /// Add a point, or update the definition of an existing one (its runtime
    /// value is kept).
    pub fn add_point(&mut self, def: InformationObjectDef) -> (r: Result<(), SlaveError>)
        requires
            old(self).data_points.wf(),
            old(self).data_points.seq() < u64::MAX,
        ensures
            r is Ok,
            final(self).data_points.wf(),
            final(self).common_address == old(self).common_address,
            final(self).name == old(self).name,
            final(self).cyclic_config == old(self).cyclic_config,
            defs_view(final(self).object_defs@) == spec_upsert_def(defs_view(old(self).object_defs@), def_view(def)),
            old(self).data_points@.contains_key((def.ioa, def.asdu_type)) ==> {
                &&& final(self).data_points@ == old(self).data_points@
                &&& final(self).data_points.seq() == old(self).data_points.seq()
                &&& final(self).data_points.entries().len() == old(self).data_points.entries().len()
            },
            !old(self).data_points@.contains_key((def.ioa, def.asdu_type)) ==> {
                &&& final(self).data_points@.contains_key((def.ioa, def.asdu_type))
                &&& fresh_point(final(self).data_points@[(def.ioa, def.asdu_type)], def.ioa, def.asdu_type,
                    final(self).data_points.seq())
                &&& final(self).data_points@.remove((def.ioa, def.asdu_type)) == old(self).data_points@
                &&& final(self).data_points.seq() == old(self).data_points.seq() + 1
                &&& final(self).data_points.entries().len() == old(self).data_points.entries().len() + 1
            },
            old(self).data_points.stamps_bounded() ==> final(self).data_points.stamps_bounded(),
    {
        let ioa = def.ioa;
        let t = def.asdu_type;
        if !self.data_points.contains(ioa, t) {
            let p = DataPoint::new(ioa, t);
            self.data_points.insert(p);
            proof {
                let k = (ioa, t);
                assert(self.data_points@.remove(k) =~= old(self).data_points@);
            }
        }
        let ghost before = defs_view(self.object_defs@);
        let i = find_def(&self.object_defs, ioa, t);
        if i < self.object_defs.len() {
            self.object_defs.set(i, def);
            assert(defs_view(self.object_defs@) =~= before.update(i as int, def_view(def)));
        } else {
            self.object_defs.push(def);
            assert(defs_view(self.object_defs@) =~= before.push(def_view(def)));
        }
        Ok(())
    }

    /// Remove the point `(ioa, t)` and every definition of it.
    pub fn remove_point(&mut self, ioa: u32, asdu_type: AsduTypeId) -> (r: Result<(), SlaveError>)
        requires
            old(self).data_points.wf(),
        ensures
            final(self).data_points.wf(),
            final(self).common_address == old(self).common_address,
            final(self).name == old(self).name,
            final(self).cyclic_config == old(self).cyclic_config,
            old(self).data_points@.contains_key((ioa, asdu_type)) ==> {
                &&& r is Ok
                &&& final(self).data_points@ == old(self).data_points@.remove((ioa, asdu_type))
                &&& final(self).object_defs@ == old(self).object_defs@.filter(
                    |d: InformationObjectDef| !(d.ioa == ioa && d.asdu_type == asdu_type))
            },
            !old(self).data_points@.contains_key((ioa, asdu_type)) ==> {
                &&& r == Err::<(), SlaveError>(SlaveError::IoaNotFound(ioa))
                &&& final(self).data_points@ == old(self).data_points@
                &&& final(self).object_defs@ == old(self).object_defs@
            },
    {
        if !self.data_points.contains(ioa, asdu_type) {
            return Err(SlaveError::IoaNotFound(ioa));
        }
        self.data_points.remove(ioa, asdu_type);
        let ghost pred = |d: InformationObjectDef| !(d.ioa == ioa && d.asdu_type == asdu_type);
        let ghost all = self.object_defs@;
        let mut rest: Vec<InformationObjectDef> = Vec::new();
        std::mem::swap(&mut rest, &mut self.object_defs);
        let ghost mut j: int = 0;
        while rest.len() > 0
            invariant
                0 <= j <= all.len(),
                rest@ == all.skip(j),
                self.object_defs@ == all.take(j).filter(pred),
                pred == (|d: InformationObjectDef| !(d.ioa == ioa && d.asdu_type == asdu_type)),
                self.data_points.wf(),
                self.data_points@ == old(self).data_points@.remove((ioa, asdu_type)),
                self.common_address == old(self).common_address,
                self.name == old(self).name,
                self.cyclic_config == old(self).cyclic_config,
            decreases rest.len(),
        {
            let d = rest.remove(0);
            proof {
                assert(d == all[j]);
                assert(all.take(j + 1).drop_last() =~= all.take(j));
                reveal_with_fuel(Seq::filter, 1);
            }
            if !(d.ioa == ioa && d.asdu_type == asdu_type) {
                self.object_defs.push(d);
            }
            proof {
                assert(rest@ =~= all.skip(j + 1));
                j = j + 1;
            }
        }
        assert(all.take(j) =~= all);
        Ok(())
    }

    /// Add `count` points of type `asdu_type` at consecutive IOAs from
    /// `start_ioa`, each with a definition named `name_prefix` followed by its
    /// IOA (no name when the prefix is empty). Points already present keep
    /// their value. Returns how many points were new.
    pub fn batch_add_points(&mut self, start_ioa: u32, count: u32, asdu_type: AsduTypeId, name_prefix: &str) -> (r: Result<u32, SlaveError>)
        requires
            old(self).data_points.wf(),
            start_ioa + count <= 0x1_0000_0000,
            old(self).data_points.seq() + count <= u64::MAX,
        ensures
            r == Ok::<u32, SlaveError>(spec_batch_added(old(self).data_points@, start_ioa, count as nat, asdu_type) as u32),
            final(self).data_points.wf(),
            final(self).common_address == old(self).common_address,
            final(self).name == old(self).name,
            final(self).cyclic_config == old(self).cyclic_config,
            final(self).data_points.seq() == old(self).data_points.seq() + spec_batch_added(old(self).data_points@, start_ioa, count as nat, asdu_type),
            final(self).data_points.entries().len() == old(self).data_points.entries().len() + spec_batch_added(old(self).data_points@, start_ioa, count as nat, asdu_type),
            forall|k: (u32, AsduTypeId)| #[trigger] final(self).data_points@.contains_key(k)
                <==> (old(self).data_points@.contains_key(k) || (k.1 == asdu_type && start_ioa <= k.0 < start_ioa + count)),
            forall|k: (u32, AsduTypeId)| #[trigger] old(self).data_points@.contains_key(k)
                ==> final(self).data_points@[k] == old(self).data_points@[k],
            forall|k: (u32, AsduTypeId)| !old(self).data_points@.contains_key(k) && #[trigger] final(self).data_points@.contains_key(k)
                ==> fresh_point(final(self).data_points@[k], k.0, k.1, final(self).data_points@[k].update_seq)
                    && old(self).data_points.seq() < final(self).data_points@[k].update_seq <= final(self).data_points.seq(),
            defs_view(final(self).object_defs@) == spec_batch_defs(defs_view(old(self).object_defs@), start_ioa, count as nat, asdu_type, name_prefix@),
    {
        let mut added: u32 = 0;
        let mut i: u32 = 0;
        while i < count
            invariant
                i <= count,
                start_ioa + count <= 0x1_0000_0000,
                old(self).data_points.seq() + count <= u64::MAX,
                added == spec_batch_added(old(self).data_points@, start_ioa, i as nat, asdu_type),
                added <= i,
                self.data_points.wf(),
                self.common_address == old(self).common_address,
                self.name == old(self).name,
                self.cyclic_config == old(self).cyclic_config,
                self.data_points.seq() == old(self).data_points.seq() + added,
                self.data_points.entries().len() == old(self).data_points.entries().len() + added,
                forall|k: (u32, AsduTypeId)| #[trigger] self.data_points@.contains_key(k)
                    <==> (old(self).data_points@.contains_key(k) || (k.1 == asdu_type && start_ioa <= k.0 < start_ioa + i)),
                forall|k: (u32, AsduTypeId)| #[trigger] old(self).data_points@.contains_key(k)
                    ==> self.data_points@[k] == old(self).data_points@[k],
                forall|k: (u32, AsduTypeId)| !old(self).data_points@.contains_key(k) && #[trigger] self.data_points@.contains_key(k)
                    ==> fresh_point(self.data_points@[k], k.0, k.1, self.data_points@[k].update_seq)
                        && old(self).data_points.seq() < self.data_points@[k].update_seq <= self.data_points.seq(),
                defs_view(self.object_defs@) == spec_batch_defs(defs_view(old(self).object_defs@), start_ioa, i as nat, asdu_type, name_prefix@),
            decreases count - i,
        {
            let ioa: u32 = start_ioa + i;
            let mut name = String::new();
            if !name_prefix.is_empty() {
                name = String::from_str(name_prefix);
                push_decimal(&mut name, ioa as u64);
            }
            let def = InformationObjectDef {
                ioa,
                asdu_type,
                category: asdu_type.category(),
                name,
                comment: String::new(),
            };
            assert(def_view(def) == batch_def(start_ioa, i as int, asdu_type, name_prefix@));
            let is_new = !self.data_points.contains(ioa, asdu_type);
            let ghost before = self.data_points@;
            let _ = self.add_point(def);
            proof {
                let k0 = (ioa, asdu_type);
                assert(is_new == !old(self).data_points@.contains_key(k0));
                if is_new {
                    assert forall|k: (u32, AsduTypeId)| #[trigger] self.data_points@.contains_key(k) && k != k0
                        implies before.contains_key(k) && self.data_points@[k] == before[k] by {
                        assert(self.data_points@.remove(k0).contains_key(k));
                    }
                }
            }
            if is_new {
                added = added + 1;
            }
            i = i + 1;
        }
        Ok(added)
    }
}

/// Name of a point added in a batch.
pub open spec fn batch_name(prefix: Seq<char>, ioa: u32) -> Seq<char> {
    if prefix.len() == 0 { Seq::empty() } else { prefix + dec_text(ioa as nat) }
}

/// Definition of the `i`-th point of a batch.
pub open spec fn batch_def(start: u32, i: int, t: AsduTypeId, prefix: Seq<char>) -> DefView {
    ((start + i) as u32, t, t.spec_category(), batch_name(prefix, (start + i) as u32), Seq::empty())
}

/// The definitions after the first `n` points of a batch were recorded.
pub open spec fn spec_batch_defs(s: Seq<DefView>, start: u32, n: nat, t: AsduTypeId, prefix: Seq<char>) -> Seq<DefView>
    decreases n,
{
    if n == 0 {
        s
    } else {
        spec_upsert_def(spec_batch_defs(s, start, (n - 1) as nat, t, prefix), batch_def(start, n - 1, t, prefix))
    }
}

/// How many of the first `n` points of a batch are not yet in `m`.
pub open spec fn spec_batch_added(m: Map<(u32, AsduTypeId), DataPoint>, start: u32, n: nat, t: AsduTypeId) -> nat
    decreases n,
{
    if n == 0 {
        0
    } else {
        spec_batch_added(m, start, (n - 1) as nat, t) + if m.contains_key(((start + n - 1) as u32, t)) { 0nat } else { 1nat }
    }
}

/// Type of the `k`-th block of a station created with default points.
pub open spec fn default_type(k: int) -> AsduTypeId {
    if k == 0 { AsduTypeId::MSpNa1 }
    else if k == 1 { AsduTypeId::MDpNa1 }
    else if k == 2 { AsduTypeId::MStNa1 }
    else if k == 3 { AsduTypeId::MBoNa1 }
    else if k == 4 { AsduTypeId::MMeNa1 }
    else if k == 5 { AsduTypeId::MMeNb1 }
    else if k == 6 { AsduTypeId::MMeNc1 }
    else { AsduTypeId::MItNa1 }
}

fn default_type_at(k: u32) -> (t: AsduTypeId)
    ensures
        t == default_type(k as int),
{
    if k == 0 { AsduTypeId::MSpNa1 }
    else if k == 1 { AsduTypeId::MDpNa1 }
    else if k == 2 { AsduTypeId::MStNa1 }
    else if k == 3 { AsduTypeId::MBoNa1 }
    else if k == 4 { AsduTypeId::MMeNa1 }
    else if k == 5 { AsduTypeId::MMeNb1 }
    else if k == 6 { AsduTypeId::MMeNc1 }
    else { AsduTypeId::MItNa1 }
}

/// Definition of the `i`-th default point (IOA `i + 1`) when every block
/// holds `count` points.
pub open spec fn default_def(i: int, count: int) -> DefView {
    let t = default_type(i / count);
    ((i + 1) as u32, t, t.spec_category(), Seq::empty(), Seq::empty())
}

proof fn lemma_default_layout(k: int, j: int, count: int)
    requires
        0 <= k < 8,
        0 <= j < count,
    ensures
        (k * count + j) / count == k,
        k * count + j + 1 <= 8 * count,
{
    vstd::arithmetic::div_mod::lemma_fundamental_div_mod_converse(k * count + j, count, k, j);
    assert(k * count <= 7 * count) by (nonlinear_arith)
        requires
            0 <= k < 8,
            0 <= count,
    ;
}

impl Station {
    /// A station holding `count_per_category` points of each of the eight
    /// monitoring categories (single, double, step, bitstring, normalized,
    /// scaled, float, integrated total), in that order, at IOAs 1, 2, ...
    /// with default values.
    pub fn with_default_points(common_address: u16, name: &str, count_per_category: u32) -> (s: Station)
        requires
            8 * count_per_category < u32::MAX,
        ensures
            s.common_address == common_address,
            s.name@ == name@,
            s.cyclic_config == (CyclicConfig { enabled: false, interval_ms: 2000 }),
            s.data_points.wf(),
            s.data_points.seq() == 8 * count_per_category,
            s.data_points.entries().len() == 8 * count_per_category,
            forall|k: (u32, AsduTypeId)| #[trigger] s.data_points@.contains_key(k)
                <==> (1 <= k.0 <= 8 * count_per_category && k.1 == default_type((k.0 - 1) / count_per_category as int)),
            forall|k: (u32, AsduTypeId)| #[trigger] s.data_points@.contains_key(k)
                ==> fresh_point(s.data_points@[k], k.0, k.1, k.0 as u64),
            defs_view(s.object_defs@) == Seq::new((8 * count_per_category) as nat, |i: int| default_def(i, count_per_category as int)),
    {
        let count = count_per_category;
        let mut station = Station::new(common_address, name);
        let mut ioa: u32 = 1;
        let mut k: u32 = 0;
        while k < 8
            invariant
                k <= 8,
                8 * count < u32::MAX,
                ioa == k * count + 1,
                station.common_address == common_address,
                station.name@ == name@,
                station.cyclic_config == (CyclicConfig { enabled: false, interval_ms: 2000 }),
                station.data_points.wf(),
                station.data_points.seq() == ioa - 1,
                station.data_points.entries().len() == ioa - 1,
                forall|key: (u32, AsduTypeId)| #[trigger] station.data_points@.contains_key(key)
                    <==> (1 <= key.0 < ioa && key.1 == default_type((key.0 - 1) / count as int)),
                forall|key: (u32, AsduTypeId)| #[trigger] station.data_points@.contains_key(key)
                    ==> fresh_point(station.data_points@[key], key.0, key.1, key.0 as u64),
                defs_view(station.object_defs@) == Seq::new((ioa - 1) as nat, |i: int| default_def(i, count as int)),
            decreases 8 - k,
        {
            let t = default_type_at(k);
            let mut j: u32 = 0;
            while j < count
                invariant
                    k < 8,
                    j <= count,
                    8 * count < u32::MAX,
                    t == default_type(k as int),
                    ioa == k * count + j + 1,
                    station.common_address == common_address,
                    station.name@ == name@,
                    station.cyclic_config == (CyclicConfig { enabled: false, interval_ms: 2000 }),
                    station.data_points.wf(),
                    station.data_points.seq() == ioa - 1,
                    station.data_points.entries().len() == ioa - 1,
                    forall|key: (u32, AsduTypeId)| #[trigger] station.data_points@.contains_key(key)
                        <==> (1 <= key.0 < ioa && key.1 == default_type((key.0 - 1) / count as int)),
                    forall|key: (u32, AsduTypeId)| #[trigger] station.data_points@.contains_key(key)
                        ==> fresh_point(station.data_points@[key], key.0, key.1, key.0 as u64),
                    defs_view(station.object_defs@) == Seq::new((ioa - 1) as nat, |i: int| default_def(i, count as int)),
                decreases count - j,
            {
                proof { lemma_default_layout(k as int, j as int, count as int); }
                let def = InformationObjectDef {
                    ioa,
                    asdu_type: t,
                    category: t.category(),
                    name: String::new(),
                    comment: String::new(),
                };
                let point = DataPoint::new(ioa, t);
                let ghost before = station.data_points@;
                let ghost defs_before = defs_view(station.object_defs@);
                station.data_points.insert(point);
                station.object_defs.push(def);
                proof {
                    assert(defs_view(station.object_defs@) =~= defs_before.push(def_view(def)));
                    assert(def_view(def) == default_def((ioa - 1) as int, count as int));
                    assert(defs_view(station.object_defs@) =~= Seq::new(ioa as nat, |i: int| default_def(i, count as int)));
                    assert forall|key: (u32, AsduTypeId)| #[trigger] station.data_points@.contains_key(key)
                        <==> (1 <= key.0 < ioa + 1 && key.1 == default_type((key.0 - 1) / count as int)) by {
                        if key.0 == ioa {
                            assert((key.0 - 1) / count as int == k);
                        }
                    }
                }
                ioa = ioa + 1;
                j = j + 1;
            }
            proof {
                assert(k * count + count + 1 == (k + 1) * count + 1) by (nonlinear_arith);
            }
            k = k + 1;
        }
        station
    }
}

/// One draw of a random source for a point: a candidate value of every
/// kind, each in the range the simulator randomizes within.
#[derive(Debug, Clone, Copy)]
pub struct RandomDraw {
    /// Single-point state.
    pub single: bool,
    /// Double-point state, 1 (off) or 2 (on).
    pub double: u8,
    /// NVA word of a normalized value in [-1, 1).
    pub normalized: i16,
    /// Scaled value in [-1000, 1000).
    pub scaled: i16,
    /// IEEE-754 bits of a short float in [-100, 100).
    pub float_bits: u32,
    /// Counter value in [0, 10000).
    pub total: i32,
}

/// The random value a point of type `t` takes from draw `d`; the kinds
/// that are not randomized keep their default.
pub open spec fn spec_random_value(t: AsduTypeId, d: RandomDraw) -> DataPointValue {
    match t.spec_category() {
        DataCategory::SinglePoint => DataPointValue::SinglePoint { value: d.single },
        DataCategory::DoublePoint => DataPointValue::DoublePoint { value: d.double },
        DataCategory::NormalizedMeasured => DataPointValue::Normalized { raw: d.normalized },
        DataCategory::ScaledMeasured => DataPointValue::Scaled { value: d.scaled },
        DataCategory::FloatMeasured => DataPointValue::ShortFloat { bits: d.float_bits },
        DataCategory::IntegratedTotals => DataPointValue::IntegratedTotal { value: d.total, carry: false, sequence: 0 },
        _ => DataPointValue::spec_default_for(t.spec_category()),
    }
}

pub fn random_value(t: AsduTypeId, d: &RandomDraw) -> (v: DataPointValue)
    ensures
        v == spec_random_value(t, *d),
{
    match t.category() {
        DataCategory::SinglePoint => DataPointValue::SinglePoint { value: d.single },
        DataCategory::DoublePoint => DataPointValue::DoublePoint { value: d.double },
        DataCategory::NormalizedMeasured => DataPointValue::Normalized { raw: d.normalized },
        DataCategory::ScaledMeasured => DataPointValue::Scaled { value: d.scaled },
        DataCategory::FloatMeasured => DataPointValue::ShortFloat { bits: d.float_bits },
        DataCategory::IntegratedTotals => DataPointValue::IntegratedTotal { value: d.total, carry: false, sequence: 0 },
        _ => DataPointValue::default_for(t),
    }
}

impl Station {
    /// A station laid out as `with_default_points`, the point at IOA `n`
    /// taking its value from `draws[n - 1]`.
    pub fn with_random_points(common_address: u16, name: &str, count_per_category: u32, draws: &Vec<RandomDraw>) -> (s: Station)
        requires
            8 * count_per_category < u32::MAX,
            draws.len() >= 8 * count_per_category,
        ensures
            s.common_address == common_address,
            s.name@ == name@,
            s.cyclic_config == (CyclicConfig { enabled: false, interval_ms: 2000 }),
            s.data_points.wf(),
            s.data_points.seq() == 8 * count_per_category,
            s.data_points.entries().len() == 8 * count_per_category,
            forall|k: (u32, AsduTypeId)| #[trigger] s.data_points@.contains_key(k)
                <==> (1 <= k.0 <= 8 * count_per_category && k.1 == default_type((k.0 - 1) / count_per_category as int)),
            forall|k: (u32, AsduTypeId)| #[trigger] s.data_points@.contains_key(k) ==> {
                let p = s.data_points@[k];
                &&& p.ioa == k.0
                &&& p.asdu_type == k.1
                &&& p.value == spec_random_value(k.1, draws@[k.0 - 1])
                &&& p.quality == QualityFlags::spec_good()
                &&& (p.timestamp matches Some(t) ==> t >= 0)
                &&& p.update_seq == k.0
            },
            defs_view(s.object_defs@) == Seq::new((8 * count_per_category) as nat, |i: int| default_def(i, count_per_category as int)),
    {
        let count = count_per_category;
        let mut station = Station::with_default_points(common_address, name, count);
        let ghost base = station.data_points@;
        let n: u32 = 8 * count;
        let mut ioa: u32 = 1;
        while ioa <= n
            invariant
                1 <= ioa <= n + 1,
                n == 8 * count,
                n < u32::MAX,
                draws.len() >= n,
                station.common_address == common_address,
                station.name@ == name@,
                station.cyclic_config == (CyclicConfig { enabled: false, interval_ms: 2000 }),
                station.data_points.wf(),
                station.data_points.seq() == n,
                station.data_points.entries().len() == n,
                defs_view(station.object_defs@) == Seq::new(n as nat, |i: int| default_def(i, count as int)),
                forall|k: (u32, AsduTypeId)| #[trigger] base.contains_key(k)
                    <==> (1 <= k.0 <= n && k.1 == default_type((k.0 - 1) / count as int)),
                forall|k: (u32, AsduTypeId)| #[trigger] base.contains_key(k)
                    ==> fresh_point(base[k], k.0, k.1, k.0 as u64),
                station.data_points@.dom() == base.dom(),
                forall|k: (u32, AsduTypeId)| #[trigger] base.contains_key(k) && k.0 < ioa ==> {
                    let p = station.data_points@[k];
                    &&& p.ioa == k.0
                    &&& p.asdu_type == k.1
                    &&& p.value == spec_random_value(k.1, draws@[k.0 - 1])
                    &&& p.quality == QualityFlags::spec_good()
                    &&& p.timestamp == base[k].timestamp
                    &&& p.update_seq == k.0
                },
                forall|k: (u32, AsduTypeId)| #[trigger] base.contains_key(k) && k.0 >= ioa ==> station.data_points@[k] == base[k],
            decreases n + 1 - ioa,
        {
            let t = default_type_at((ioa - 1) / count);
            let k0 = (ioa, t);
            assert(base.contains_key(k0));
            let ts = match station.data_points.get(ioa, t) {
                Some(p) => p.timestamp,
                None => None,
            };
            let v = random_value(t, &draws[(ioa - 1) as usize]);
            let ghost before = station.data_points@;
            station.data_points.update_value(ioa, t, v, ts);
            proof {
                assert(station.data_points@ =~= before.insert(k0, crate::data_point::with_value_at(before[k0], v, ts)));
                assert forall|k: (u32, AsduTypeId)| #[trigger] base.contains_key(k) && k.0 == ioa implies k == k0 by {}
            }
            ioa = ioa + 1;
        }
        station
    }
}

// ---------------------------------------------------------------------------
// Station table
// ---------------------------------------------------------------------------

/// Stations strictly ordered by common address.
pub open spec fn stations_sorted(s: Seq<Station>) -> bool {
    forall|i: int, j: int| 0 <= i < j < s.len() ==> (#[trigger] s[i]).common_address < (#[trigger] s[j]).common_address
}

/// The stations of a sequence keyed by common address.
pub open spec fn stations_to_map(s: Seq<Station>) -> Map<u16, Station> {
    Map::new(
        |ca: u16| exists|i: int| 0 <= i < s.len() && (#[trigger] s[i]).common_address == ca,
        |ca: u16| s[choose|i: int| 0 <= i < s.len() && (#[trigger] s[i]).common_address == ca],
    )
}

/// `b` is `a` with the point `key` set to `p`, everything else equal.
pub open spec fn station_point_set(a: Station, b: Station, key: (u32, AsduTypeId), p: DataPoint) -> bool {
    &&& b.common_address == a.common_address
    &&& b.name == a.name
    &&& b.object_defs == a.object_defs
    &&& b.cyclic_config == a.cyclic_config
    &&& b.data_points.wf()
    &&& b.data_points@ == a.data_points@.insert(key, p)
    &&& b.data_points.seq() == a.data_points.seq()
    &&& b.data_points.entries().len() == a.data_points.entries().len()
}

proof fn lemma_station_index(s: Seq<Station>, i: int)
    requires
        stations_sorted(s),
        0 <= i < s.len(),
    ensures
        stations_to_map(s).contains_key(s[i].common_address),
        stations_to_map(s)[s[i].common_address] == s[i],
{
    let ca = s[i].common_address;
    assert(0 <= i < s.len() && s[i].common_address == ca);
    let j = choose|j: int| 0 <= j < s.len() && (#[trigger] s[j]).common_address == ca;
    if j < i {
        assert(s[j].common_address < s[i].common_address);
    } else if i < j {
        assert(s[i].common_address < s[j].common_address);
    }
}

proof fn lemma_station_update(s: Seq<Station>, pos: int, x: Station)
    requires
        stations_sorted(s),
        0 <= pos < s.len(),
        x.common_address == s[pos].common_address,
    ensures
        stations_sorted(s.update(pos, x)),
        stations_to_map(s.update(pos, x)) =~= stations_to_map(s).insert(x.common_address, x),
{
    let t = s.update(pos, x);
    assert(stations_sorted(t)) by {
        assert forall|i: int, j: int| 0 <= i < j < t.len() implies (#[trigger] t[i]).common_address < (#[trigger] t[j]).common_address by {
            assert(s[i].common_address < s[j].common_address);
        }
    }
    assert forall|ca: u16| #[trigger] stations_to_map(t).contains_key(ca) <==> stations_to_map(s).insert(x.common_address, x).contains_key(ca) by {
        if stations_to_map(s).contains_key(ca) {
            let i = choose|i: int| 0 <= i < s.len() && (#[trigger] s[i]).common_address == ca;
            assert(t[i].common_address == ca);
        }
        if stations_to_map(t).contains_key(ca) {
            let i = choose|i: int| 0 <= i < t.len() && (#[trigger] t[i]).common_address == ca;
            assert(s[i].common_address == ca);
        }
        if ca == x.common_address {
            assert(t[pos].common_address == ca);
        }
    }
    assert forall|ca: u16| #[trigger] stations_to_map(t).contains_key(ca) implies stations_to_map(t)[ca] == stations_to_map(s).insert(x.common_address, x)[ca] by {
        let i = choose|i: int| 0 <= i < t.len() && (#[trigger] t[i]).common_address == ca;
        lemma_station_index(t, i);
        if i != pos {
            lemma_station_index(s, i);
        }
    }
}

proof fn lemma_station_insert(s: Seq<Station>, pos: int, x: Station)
    requires
        stations_sorted(s),
        0 <= pos <= s.len(),
        forall|i: int| 0 <= i < pos ==> (#[trigger] s[i]).common_address < x.common_address,
        forall|i: int| pos <= i < s.len() ==> x.common_address < (#[trigger] s[i]).common_address,
    ensures
        stations_sorted(s.insert(pos, x)),
        stations_to_map(s.insert(pos, x)) =~= stations_to_map(s).insert(x.common_address, x),
{
    let t = s.insert(pos, x);
    assert(stations_sorted(t)) by {
        assert forall|i: int, j: int| 0 <= i < j < t.len() implies (#[trigger] t[i]).common_address < (#[trigger] t[j]).common_address by {
            if j < pos {
                assert(s[i].common_address < s[j].common_address);
            } else if j == pos {
            } else if i < pos {
                assert(s[i].common_address < x.common_address);
                assert(x.common_address < s[j - 1].common_address);
            } else if i == pos {
                assert(x.common_address < s[j - 1].common_address);
            } else {
                assert(s[i - 1].common_address < s[j - 1].common_address);
            }
        }
    }
    assert forall|ca: u16| #[trigger] stations_to_map(t).contains_key(ca) <==> stations_to_map(s).insert(x.common_address, x).contains_key(ca) by {
        if stations_to_map(s).contains_key(ca) {
            let i = choose|i: int| 0 <= i < s.len() && (#[trigger] s[i]).common_address == ca;
            if i < pos {
                assert(t[i].common_address == ca);
            } else {
                assert(t[i + 1].common_address == ca);
            }
        }
        if stations_to_map(t).contains_key(ca) && ca != x.common_address {
            let i = choose|i: int| 0 <= i < t.len() && (#[trigger] t[i]).common_address == ca;
            if i < pos {
                assert(s[i].common_address == ca);
            } else if i > pos {
                assert(s[i - 1].common_address == ca);
            }
        }
        if ca == x.common_address {
            assert(t[pos].common_address == ca);
        }
    }
    assert forall|ca: u16| #[trigger] stations_to_map(t).contains_key(ca) implies stations_to_map(t)[ca] == stations_to_map(s).insert(x.common_address, x)[ca] by {
        let i = choose|i: int| 0 <= i < t.len() && (#[trigger] t[i]).common_address == ca;
        lemma_station_index(t, i);
        if i < pos {
            lemma_station_index(s, i);
        } else if i > pos {
            lemma_station_index(s, i - 1);
        }
    }
}

proof fn lemma_station_remove(s: Seq<Station>, pos: int)
    requires
        stations_sorted(s),
        0 <= pos < s.len(),
    ensures
        stations_sorted(s.remove(pos)),
        stations_to_map(s.remove(pos)) =~= stations_to_map(s).remove(s[pos].common_address),
{
    let t = s.remove(pos);
    let cx = s[pos].common_address;
    assert(stations_sorted(t)) by {
        assert forall|i: int, j: int| 0 <= i < j < t.len() implies (#[trigger] t[i]).common_address < (#[trigger] t[j]).common_address by {
            if j < pos {
                assert(s[i].common_address < s[j].common_address);
            } else if i < pos {
                assert(s[i].common_address < s[j + 1].common_address);
            } else {
                assert(s[i + 1].common_address < s[j + 1].common_address);
            }
        }
    }
    assert forall|ca: u16| #[trigger] stations_to_map(t).contains_key(ca) <==> stations_to_map(s).remove(cx).contains_key(ca) by {
        if stations_to_map(s).contains_key(ca) && ca != cx {
            let i = choose|i: int| 0 <= i < s.len() && (#[trigger] s[i]).common_address == ca;
            if i < pos {
                assert(t[i].common_address == ca);
            } else if i > pos {
                assert(t[i - 1].common_address == ca);
            }
        }
        if stations_to_map(t).contains_key(ca) {
            let i = choose|i: int| 0 <= i < t.len() && (#[trigger] t[i]).common_address == ca;
            if i < pos {
                assert(s[i].common_address == ca);
                assert(s[i].common_address < cx);
            } else {
                assert(s[i + 1].common_address == ca);
                assert(cx < s[i + 1].common_address);
            }
        }
    }
    assert forall|ca: u16| #[trigger] stations_to_map(t).contains_key(ca) implies stations_to_map(t)[ca] == stations_to_map(s).remove(cx)[ca] by {
        let i = choose|i: int| 0 <= i < t.len() && (#[trigger] t[i]).common_address == ca;
        lemma_station_index(t, i);
        if i < pos {
            lemma_station_index(s, i);
        } else {
            lemma_station_index(s, i + 1);
        }
    }
}

/// The stations a slave server serves, keyed by common address.
#[derive(Debug)]
pub struct StationTable {
    /// Stations in strictly increasing CA order.
    stations: Vec<Station>,
}

impl View for StationTable {
    type V = Map<u16, Station>;

    open spec fn view(&self) -> Map<u16, Station> {
        stations_to_map(self.entries())
    }
}

impl StationTable {
    /// The stations in CA order.
    pub closed spec fn entries(&self) -> Seq<Station> {
        self.stations@
    }

    /// Well-formedness: strictly ordered by CA, every point map well formed.
    pub open spec fn wf(&self) -> bool {
        &&& stations_sorted(self.entries())
        &&& forall|i: int| 0 <= i < self.entries().len() ==> (#[trigger] self.entries()[i]).data_points.wf()
    }

    pub fn new() -> (t: StationTable)
        ensures
            t.wf(),
            t@ == Map::<u16, Station>::empty(),
    {
        let t = StationTable { stations: Vec::new() };
        assert(t@ =~= Map::<u16, Station>::empty());
        t
    }

    /// Every station is filed under its own common address, and its points
    /// are well formed.
    pub proof fn lemma_keys(&self, ca: u16)
        requires
            self.wf(),
            self@.contains_key(ca),
        ensures
            self@[ca].common_address == ca,
            self@[ca].data_points.wf(),
    {
        let i = choose|i: int| 0 <= i < self.entries().len() && (#[trigger] self.entries()[i]).common_address == ca;
        lemma_station_index(self.entries(), i);
    }

    /// Index of the first station whose CA is not below `ca`.
    fn lower_bound(&self, ca: u16) -> (pos: usize)
        requires
            stations_sorted(self.entries()),
        ensures
            pos <= self.entries().len(),
            forall|i: int| 0 <= i < pos ==> (#[trigger] self.entries()[i]).common_address < ca,
            forall|i: int| pos <= i < self.entries().len() ==> (#[trigger] self.entries()[i]).common_address >= ca,
    {
        let mut i: usize = 0;
        while i < self.stations.len() && self.stations[i].common_address < ca
            invariant
                i <= self.stations.len(),
                stations_sorted(self.entries()),
                forall|j: int| 0 <= j < i ==> (#[trigger] self.entries()[j]).common_address < ca,
            decreases self.stations.len() - i,
        {
            i = i + 1;
        }
        proof {
            assert forall|j: int| i <= j < self.entries().len() implies (#[trigger] self.entries()[j]).common_address >= ca by {
                if j > i {
                    assert(self.entries()[i as int].common_address < self.entries()[j].common_address);
                }
            }
        }
        i
    }

    /// Position of the station at `ca`, if there is one.
    fn find(&self, ca: u16) -> (r: Option<usize>)
        requires
            self.wf(),
        ensures
            r is Some <==> self@.contains_key(ca),
            r matches Some(i) ==> i < self.entries().len() && self.entries()[i as int] == self@[ca]
                && self.entries()[i as int].common_address == ca,
    {
        let pos = self.lower_bound(ca);
        if pos < self.stations.len() && self.stations[pos].common_address == ca {
            proof { lemma_station_index(self.entries(), pos as int); }
            Some(pos)
        } else {
            proof {
                if self@.contains_key(ca) {
                    let k = choose|k: int| 0 <= k < self.entries().len() && (#[trigger] self.entries()[k]).common_address == ca;
                    if k > pos {
                        assert(self.entries()[pos as int].common_address < self.entries()[k].common_address);
                    }
                }
            }
            None
        }
    }

    pub fn get(&self, ca: u16) -> (r: Option<&Station>)
        requires
            self.wf(),
        ensures
            r is Some <==> self@.contains_key(ca),
            r matches Some(st) ==> *st == self@[ca] && st.common_address == ca && st.data_points.wf(),
    {
        match self.find(ca) {
            Some(i) => Some(&self.stations[i]),
            None => None,
        }
    }

    pub fn contains(&self, ca: u16) -> (b: bool)
        requires
            self.wf(),
        ensures
            b == self@.contains_key(ca),
    {
        self.find(ca).is_some()
    }

    pub fn len(&self) -> (n: usize)
        ensures
            n == self.entries().len(),
    {
        self.stations.len()
    }

    /// The stations in CA order.
    pub fn stations(&self) -> (r: &Vec<Station>)
        ensures
            r@ == self.entries(),
    {
        &self.stations
    }

    /// Add a station; a second station at the same CA is refused.
    pub fn add_station(&mut self, station: Station) -> (r: Result<(), SlaveError>)
        requires
            old(self).wf(),
            station.data_points.wf(),
        ensures
            final(self).wf(),
            old(self)@.contains_key(station.common_address) ==> r == Err::<(), SlaveError>(SlaveError::DuplicateStation(station.common_address))
                && final(self)@ == old(self)@,
            !old(self)@.contains_key(station.common_address) ==> r is Ok
                && final(self)@ == old(self)@.insert(station.common_address, station),
    {
        let ca = station.common_address;
        let pos = self.lower_bound(ca);
        if pos < self.stations.len() && self.stations[pos].common_address == ca {
            proof { lemma_station_index(self.entries(), pos as int); }
            return Err(SlaveError::DuplicateStation(ca));
        }
        let ghost s0 = self.entries();
        proof {
            assert forall|i: int| pos <= i < s0.len() implies ca < (#[trigger] s0[i]).common_address by {
                if i == pos {
                    assert(s0[i].common_address != ca);
                } else {
                    assert(s0[pos as int].common_address < s0[i].common_address);
                }
            }
            lemma_station_insert(s0, pos as int, station);
            assert(!stations_to_map(s0).contains_key(ca)) by {
                if stations_to_map(s0).contains_key(ca) {
                    let k = choose|k: int| 0 <= k < s0.len() && (#[trigger] s0[k]).common_address == ca;
                    if k < pos {
                        assert(s0[k].common_address < ca);
                    } else {
                        assert(ca < s0[k].common_address);
                    }
                }
            }
        }
        self.stations.insert(pos, station);
        proof {
            assert forall|i: int| 0 <= i < self.entries().len() implies (#[trigger] self.entries()[i]).data_points.wf() by {
                if i < pos {
                    assert(self.entries()[i] == s0[i]);
                } else if i > pos {
                    assert(self.entries()[i] == s0[i - 1]);
                }
            }
        }
        Ok(())
    }

    /// Remove and return the station at `ca`.
    pub fn remove_station(&mut self, ca: u16) -> (r: Result<Station, SlaveError>)
        requires
            old(self).wf(),
        ensures
            final(self).wf(),
            old(self)@.contains_key(ca) ==> r == Ok::<Station, SlaveError>(old(self)@[ca])
                && final(self)@ == old(self)@.remove(ca),
            !old(self)@.contains_key(ca) ==> r == Err::<Station, SlaveError>(SlaveError::StationNotFound(ca))
                && final(self)@ == old(self)@,
    {
        match self.find(ca) {
            Some(i) => {
                let ghost s0 = self.entries();
                proof { lemma_station_remove(s0, i as int); }
                let st = self.stations.remove(i);
                proof {
                    assert forall|j: int| 0 <= j < self.entries().len() implies (#[trigger] self.entries()[j]).data_points.wf() by {
                        if j < i {
                            assert(self.entries()[j] == s0[j]);
                        } else {
                            assert(self.entries()[j] == s0[j + 1]);
                        }
                    }
                }
                Ok(st)
            },
            None => Err(SlaveError::StationNotFound(ca)),
        }
    }

    /// Replace the station at position `i` by one with the same CA.
    fn replace_at(&mut self, i: usize, st: Station) -> (old_st: Station)
        requires
            old(self).wf(),
            i < old(self).entries().len(),
            st.common_address == old(self).entries()[i as int].common_address,
            st.data_points.wf(),
        ensures
            final(self).wf(),
            old_st == old(self).entries()[i as int],
            final(self)@ == old(self)@.insert(st.common_address, st),
    {
        let ghost s0 = self.entries();
        proof { lemma_station_update(s0, i as int, st); }
        let old_st = self.stations.remove(i);
        self.stations.insert(i, st);
        proof {
            assert(self.entries() =~= s0.update(i as int, st));
            assert forall|j: int| 0 <= j < self.entries().len() implies (#[trigger] self.entries()[j]).data_points.wf() by {
                if j != i {
                    assert(self.entries()[j] == s0[j]);
                }
            }
        }
        old_st
    }

    /// Set the cyclic transmission settings of the station at `ca`.
    pub fn set_cyclic_config(&mut self, ca: u16, config: CyclicConfig) -> (r: Result<(), SlaveError>)
        requires
            old(self).wf(),
        ensures
            final(self).wf(),
            old(self)@.contains_key(ca) ==> r is Ok && final(self)@.dom() == old(self)@.dom()
                && (forall|c: u16| c != ca && #[trigger] old(self)@.contains_key(c) ==> final(self)@[c] == old(self)@[c])
                && final(self)@[ca].cyclic_config == config
                && final(self)@[ca].common_address == old(self)@[ca].common_address
                && final(self)@[ca].name == old(self)@[ca].name
                && final(self)@[ca].object_defs == old(self)@[ca].object_defs
                && final(self)@[ca].data_points == old(self)@[ca].data_points,
            !old(self)@.contains_key(ca) ==> r == Err::<(), SlaveError>(SlaveError::StationNotFound(ca))
                && final(self)@ == old(self)@,
    {
        match self.find(ca) {
            Some(i) => {
                let ghost s0 = self.entries();
                proof { lemma_station_update(s0, i as int, s0[i as int]); }
                let mut st = self.stations.remove(i);
                st.cyclic_config = config;
                self.stations.insert(i, st);
                proof {
                    let x = self.entries()[i as int];
                    assert(self.entries() =~= s0.update(i as int, x));
                    lemma_station_update(s0, i as int, x);
                    assert forall|j: int| 0 <= j < self.entries().len() implies (#[trigger] self.entries()[j]).data_points.wf() by {
                        if j != i {
                            assert(self.entries()[j] == s0[j]);
                        }
                    }
                }
                Ok(())
            },
            None => Err(SlaveError::StationNotFound(ca)),
        }
    }

    /// Set value and timestamp of the point `key` of the station at `ca`,
    /// when both exist. Returns whether they did.
    pub fn set_point_value(&mut self, ca: u16, ioa: u32, asdu_type: AsduTypeId, value: DataPointValue, timestamp: Option<i64>) -> (found: bool)
        requires
            old(self).wf(),
        ensures
            final(self).wf(),
            found == (old(self)@.contains_key(ca) && old(self)@[ca].data_points@.contains_key((ioa, asdu_type))),
            found ==> final(self)@.dom() == old(self)@.dom()
                && (forall|c: u16| c != ca && #[trigger] old(self)@.contains_key(c) ==> final(self)@[c] == old(self)@[c])
                && station_point_set(old(self)@[ca], final(self)@[ca], (ioa, asdu_type),
                    crate::data_point::with_value_at(old(self)@[ca].data_points@[(ioa, asdu_type)], value, timestamp)),
            !found ==> final(self)@ == old(self)@,
    {
        match self.find(ca) {
            Some(i) => {
                proof { lemma_station_index(self.entries(), i as int); }
                if !self.stations[i].data_points.contains(ioa, asdu_type) {
                    return false;
                }
                let ghost s0 = self.entries();
                let mut st = self.stations.remove(i);
                assert(st == s0[i as int]);
                st.data_points.update_value(ioa, asdu_type, value, timestamp);
                self.stations.insert(i, st);
                proof {
                    let x = self.entries()[i as int];
                    assert(self.entries() =~= s0.update(i as int, x));
                    lemma_station_update(s0, i as int, x);
                    assert forall|j: int| 0 <= j < self.entries().len() implies (#[trigger] self.entries()[j]).data_points.wf() by {
                        if j != i {
                            assert(self.entries()[j] == s0[j]);
                        }
                    }
                }
                true
            },
            None => false,
        }
    }

    /// Cyclic period: that of the first station (by CA) with cyclic
    /// transmission enabled, else 2000 ms.
    pub fn cyclic_interval_ms(&self) -> (ms: u32)
        ensures
            (exists|i: int| 0 <= i < self.entries().len() && (#[trigger] self.entries()[i]).cyclic_config.enabled) ==> exists|i: int|
                0 <= i < self.entries().len() && (#[trigger] self.entries()[i]).cyclic_config.enabled
                && ms == self.entries()[i].cyclic_config.interval_ms
                && forall|j: int| 0 <= j < i ==> !(#[trigger] self.entries()[j]).cyclic_config.enabled,
            !(exists|i: int| 0 <= i < self.entries().len() && (#[trigger] self.entries()[i]).cyclic_config.enabled) ==> ms == 2000,
    {
        let mut i: usize = 0;
        while i < self.stations.len()
            invariant
                i <= self.stations.len(),
                forall|j: int| 0 <= j < i ==> !(#[trigger] self.entries()[j]).cyclic_config.enabled,
            decreases self.stations.len() - i,
        {
            if self.stations[i].cyclic_config.enabled {
                assert(self.entries()[i as int].cyclic_config.enabled);
                return self.stations[i].cyclic_config.interval_ms;
            }
            i = i + 1;
        }
        2000
    }
}

} // verus!
