//! Data point values and the per-station data point store.
//!
//! Measured values that travel as IEEE floats on the wire are held by their
//! raw transmission form: a normalized value by its NVA word (value times
//! 32767), a short float by its 32 IEEE-754 bits.
use crate::clock::utc_now;
use crate::text::{dec_text, hex_word_text, int_text, push_char, push_decimal, push_hex_word, push_signed_decimal};
use crate::types::{AsduTypeId, DataCategory, QualityFlags};
use vstd::prelude::*;

verus! {

/// Runtime value of a data point.
#[derive(Debug, Clone, Copy, PartialEq, Eq, Structural)]
pub enum DataPointValue {
    /// Single-point: true=ON, false=OFF
    SinglePoint { value: bool },
    /// Double-point: 0=intermediate, 1=off, 2=on, 3=indeterminate
    DoublePoint { value: u8 },
    /// Step position: -64..+63, with transient flag
    StepPosition { value: i8, transient: bool },
    /// 32-bit bitstring
    Bitstring { value: u32 },
    /// Normalized value -1.0 .. +1.0, held as its NVA word (value * 32767)
    Normalized { raw: i16 },
    /// Scaled integer: -32768 .. +32767
    Scaled { value: i16 },
    /// Short floating point, held as its IEEE-754 bits
    ShortFloat { bits: u32 },
    /// Integrated total (counter)
    IntegratedTotal { value: i32, carry: bool, sequence: u8 },
}

impl DataPointValue {
    /// The value a freshly created point of a given category holds.
    pub open spec fn spec_default_for(category: DataCategory) -> DataPointValue {
        match category {
            DataCategory::SinglePoint => DataPointValue::SinglePoint { value: false },
            DataCategory::DoublePoint => DataPointValue::DoublePoint { value: 1 },
            DataCategory::StepPosition => DataPointValue::StepPosition { value: 0, transient: false },
            DataCategory::Bitstring => DataPointValue::Bitstring { value: 0 },
            DataCategory::NormalizedMeasured => DataPointValue::Normalized { raw: 0 },
            DataCategory::ScaledMeasured => DataPointValue::Scaled { value: 0 },
            DataCategory::FloatMeasured => DataPointValue::ShortFloat { bits: 0 },
            DataCategory::IntegratedTotals => DataPointValue::IntegratedTotal { value: 0, carry: false, sequence: 0 },
            DataCategory::System => DataPointValue::SinglePoint { value: false },
        }
    }

    /// Create a default value for the given ASDU type.
    pub fn default_for(asdu_type: AsduTypeId) -> (v: DataPointValue)
        ensures
            v == Self::spec_default_for(asdu_type.spec_category()),
    {
        match asdu_type.category() {
            DataCategory::SinglePoint => DataPointValue::SinglePoint { value: false },
            DataCategory::DoublePoint => DataPointValue::DoublePoint { value: 1 },
            DataCategory::StepPosition => DataPointValue::StepPosition { value: 0, transient: false },
            DataCategory::Bitstring => DataPointValue::Bitstring { value: 0 },
            DataCategory::NormalizedMeasured => DataPointValue::Normalized { raw: 0 },
            DataCategory::ScaledMeasured => DataPointValue::Scaled { value: 0 },
            DataCategory::FloatMeasured => DataPointValue::ShortFloat { bits: 0 },
            DataCategory::IntegratedTotals => DataPointValue::IntegratedTotal { value: 0, carry: false, sequence: 0 },
            DataCategory::System => DataPointValue::SinglePoint { value: false },
        }
    }

    /// Whether the value is one of the two floating-point kinds.
    pub open spec fn spec_is_float(self) -> bool {
        self is Normalized || self is ShortFloat
    }

    /// Display text of every non-floating-point value.
    pub open spec fn spec_display(self) -> Option<Seq<char>> {
        match self {
            DataPointValue::SinglePoint { value } => Some(if value { "ON"@ } else { "OFF"@ }),
            DataPointValue::DoublePoint { value } => Some(
                if value == 0 { "中间"@ }
                else if value == 1 { "OFF"@ }
                else if value == 2 { "ON"@ }
                else if value == 3 { "不确定"@ }
                else { dec_text(value as nat) }
            ),
            DataPointValue::StepPosition { value, transient } => Some(
                if transient { int_text(value as int) + " (T)"@ } else { int_text(value as int) }
            ),
            DataPointValue::Bitstring { value } => Some("0x"@ + hex_word_text(value)),
            DataPointValue::Scaled { value } => Some(int_text(value as int)),
            DataPointValue::IntegratedTotal { value, carry, sequence } => Some(
                int_text(value as int)
                    + (if carry { " [C]"@ } else { Seq::empty() })
                    + (if sequence > 0 { " S"@ + dec_text(sequence as nat) } else { Seq::empty() })
            ),
            DataPointValue::Normalized { .. } => None,
            DataPointValue::ShortFloat { .. } => None,
        }
    }

    /// Format value as display string. The floating-point kinds are rendered
    /// by the caller (four and three decimals), so they give `None` here.
    pub fn display(&self) -> (s: Option<String>)
        ensures
            s is None <==> self.spec_is_float(),
            s matches Some(t) ==> self.spec_display() == Some(t@),
    {
        match self {
            DataPointValue::SinglePoint { value } => {
                if *value { Some(String::from_str("ON")) } else { Some(String::from_str("OFF")) }
            },
            DataPointValue::DoublePoint { value } => {
                if *value == 0 {
                    Some(String::from_str("中间"))
                } else if *value == 1 {
                    Some(String::from_str("OFF"))
                } else if *value == 2 {
                    Some(String::from_str("ON"))
                } else if *value == 3 {
                    Some(String::from_str("不确定"))
                } else {
                    let mut s = String::new();
                    push_decimal(&mut s, *value as u64);
                    assert(s@ =~= dec_text(*value as nat));
                    Some(s)
                }
            },
            DataPointValue::StepPosition { value, transient } => {
                let mut s = String::new();
                push_signed_decimal(&mut s, *value as i64);
                if *transient {
                    s.append(" (T)");
                }
                assert(s@ =~= self.spec_display()->0);
                Some(s)
            },
            DataPointValue::Bitstring { value } => {
                let mut s = String::from_str("0x");
                push_hex_word(&mut s, *value);
                Some(s)
            },
            DataPointValue::Scaled { value } => {
                let mut s = String::new();
                push_signed_decimal(&mut s, *value as i64);
                assert(s@ =~= int_text(*value as int));
                Some(s)
            },
            DataPointValue::IntegratedTotal { value, carry, sequence } => {
                let mut s = String::new();
                push_signed_decimal(&mut s, *value as i64);
                let ghost a = s@;
                if *carry {
                    s.append(" [C]");
                }
                let ghost b = s@;
                if *sequence > 0 {
                    s.append(" S");
                    push_decimal(&mut s, *sequence as u64);
                }
                assert(s@ =~= self.spec_display()->0);
                Some(s)
            },
            DataPointValue::Normalized { .. } => None,
            DataPointValue::ShortFloat { .. } => None,
        }
    }
}

/// Definition of an information object (analogous to RegisterDef).
#[derive(Debug, Clone)]
pub struct InformationObjectDef {
    /// Information Object Address (0..16777215)
    pub ioa: u32,
    /// ASDU type for this point
    pub asdu_type: AsduTypeId,
    /// Data category (derived from asdu_type)
    pub category: DataCategory,
    /// User-defined name
    pub name: String,
    /// User-defined comment
    pub comment: String,
}

/// A single data point with current value, quality, and timestamp
/// (milliseconds since the Unix epoch, UTC).
#[derive(Debug, Clone, Copy, PartialEq, Eq, Structural)]
pub struct DataPoint {
    pub ioa: u32,
    pub asdu_type: AsduTypeId,
    pub value: DataPointValue,
    pub quality: QualityFlags,
    pub timestamp: Option<i64>,
    /// Sequence number stamped on insert/update (for incremental queries).
    pub update_seq: u64,
}

/// The current time in milliseconds since the Unix epoch, `None` when the
/// clock cannot be read.
fn now_millis() -> (r: Option<i64>)
    ensures
        r matches Some(t) ==> t >= 0,
{
    match utc_now() {
        Some(t) => Some(t.millis),
        None => None,
    }
}

impl DataPoint {
    /// A point holding the default value of its type, good quality, stamped
    /// with the current time (no stamp when the clock cannot be read).
    pub fn new(ioa: u32, asdu_type: AsduTypeId) -> (p: DataPoint)
        ensures
            p.ioa == ioa,
            p.asdu_type == asdu_type,
            p.value == DataPointValue::spec_default_for(asdu_type.spec_category()),
            p.quality == QualityFlags::spec_good(),
            p.timestamp matches Some(t) ==> t >= 0,
            p.update_seq == 0,
    {
        DataPoint {
            ioa,
            asdu_type,
            value: DataPointValue::default_for(asdu_type),
            quality: QualityFlags::good(),
            timestamp: now_millis(),
            update_seq: 0,
        }
    }

    /// A point holding the given value, good quality, stamped with the
    /// current time (no stamp when the clock cannot be read).
    pub fn with_value(ioa: u32, asdu_type: AsduTypeId, value: DataPointValue) -> (p: DataPoint)
        ensures
            p.ioa == ioa,
            p.asdu_type == asdu_type,
            p.value == value,
            p.quality == QualityFlags::spec_good(),
            p.timestamp matches Some(t) ==> t >= 0,
            p.update_seq == 0,
    {
        DataPoint {
            ioa,
            asdu_type,
            value,
            quality: QualityFlags::good(),
            timestamp: now_millis(),
            update_seq: 0,
        }
    }
}

/// The identity of a point inside a station: its address and ASDU type.
pub open spec fn key_of(p: DataPoint) -> (u32, AsduTypeId) {
    (p.ioa, p.asdu_type)
}

/// Storage order of point keys: by address, then by type identification.
pub open spec fn key_before(a: (u32, AsduTypeId), b: (u32, AsduTypeId)) -> bool {
    a.0 < b.0 || (a.0 == b.0 && a.1.code() < b.1.code())
}

/// A sequence of points strictly ordered by key (hence free of duplicates).
pub open spec fn sorted_by_key(s: Seq<DataPoint>) -> bool {
    forall|i: int, j: int| 0 <= i < j < s.len() ==> key_before(key_of(#[trigger] s[i]), key_of(#[trigger] s[j]))
}

/// The map from key to point that a sequence of points describes.
pub open spec fn seq_to_map(s: Seq<DataPoint>) -> Map<(u32, AsduTypeId), DataPoint> {
    Map::new(
        |k: (u32, AsduTypeId)| exists|i: int| 0 <= i < s.len() && key_of(#[trigger] s[i]) == k,
        |k: (u32, AsduTypeId)| s[choose|i: int| 0 <= i < s.len() && key_of(#[trigger] s[i]) == k],
    )
}

/// A point with a different update stamp.
pub open spec fn with_seq(p: DataPoint, seq: u64) -> DataPoint {
    DataPoint {
        ioa: p.ioa,
        asdu_type: p.asdu_type,
        value: p.value,
        quality: p.quality,
        timestamp: p.timestamp,
        update_seq: seq,
    }
}

/// A point with a new value and timestamp.
pub open spec fn with_value_at(p: DataPoint, value: DataPointValue, timestamp: Option<i64>) -> DataPoint {
    DataPoint {
        ioa: p.ioa,
        asdu_type: p.asdu_type,
        value,
        quality: p.quality,
        timestamp,
        update_seq: p.update_seq,
    }
}

proof fn lemma_key_trichotomy(a: (u32, AsduTypeId), b: (u32, AsduTypeId))
    ensures
        key_before(a, b) || a == b || key_before(b, a),
{
    crate::types::lemma_asdu_type_code_roundtrip(a.1, 0);
    crate::types::lemma_asdu_type_code_roundtrip(b.1, 0);
}

/// In a key-sorted sequence, each stored point is what the map gives for
/// its key.
pub proof fn lemma_map_index(s: Seq<DataPoint>, i: int)
    requires
        sorted_by_key(s),
        0 <= i < s.len(),
    ensures
        seq_to_map(s).contains_key(key_of(s[i])),
        seq_to_map(s)[key_of(s[i])] == s[i],
{
    let k = key_of(s[i]);
    assert(0 <= i < s.len() && key_of(s[i]) == k);
    let j = choose|j: int| 0 <= j < s.len() && key_of(#[trigger] s[j]) == k;
    if j < i {
        assert(key_before(key_of(s[j]), key_of(s[i])));
    } else if i < j {
        assert(key_before(key_of(s[i]), key_of(s[j])));
    }
}

/// A key is in the map exactly when some stored point carries it.
pub proof fn lemma_map_contains(s: Seq<DataPoint>, k: (u32, AsduTypeId))
    requires
        sorted_by_key(s),
    ensures
        seq_to_map(s).contains_key(k) <==> exists|i: int| 0 <= i < s.len() && key_of(#[trigger] s[i]) == k,
        seq_to_map(s).contains_key(k) ==> exists|i: int| 0 <= i < s.len() && s[i] == seq_to_map(s)[k] && key_of(#[trigger] s[i]) == k,
{
    if seq_to_map(s).contains_key(k) {
        let i = choose|i: int| 0 <= i < s.len() && key_of(#[trigger] s[i]) == k;
        lemma_map_index(s, i);
    }
}

proof fn lemma_map_update(s: Seq<DataPoint>, pos: int, x: DataPoint)
    requires
        sorted_by_key(s),
        0 <= pos < s.len(),
        key_of(x) == key_of(s[pos]),
    ensures
        sorted_by_key(s.update(pos, x)),
        seq_to_map(s.update(pos, x)) =~= seq_to_map(s).insert(key_of(x), x),
{
    let t = s.update(pos, x);
    assert(sorted_by_key(t)) by {
        assert forall|i: int, j: int| 0 <= i < j < t.len() implies key_before(key_of(#[trigger] t[i]), key_of(#[trigger] t[j])) by {
            assert(key_before(key_of(s[i]), key_of(s[j])));
        }
    }
    assert forall|k: (u32, AsduTypeId)| #[trigger] seq_to_map(t).contains_key(k) <==> seq_to_map(s).insert(key_of(x), x).contains_key(k) by {
        lemma_map_contains(t, k);
        lemma_map_contains(s, k);
        if seq_to_map(s).contains_key(k) {
            let i = choose|i: int| 0 <= i < s.len() && key_of(#[trigger] s[i]) == k;
            assert(key_of(t[i]) == k);
        }
        if seq_to_map(t).contains_key(k) {
            let i = choose|i: int| 0 <= i < t.len() && key_of(#[trigger] t[i]) == k;
            assert(key_of(s[i]) == k);
        }
        if k == key_of(x) {
            assert(key_of(t[pos]) == k);
        }
    }
    assert forall|k: (u32, AsduTypeId)| #[trigger] seq_to_map(t).contains_key(k) implies seq_to_map(t)[k] == seq_to_map(s).insert(key_of(x), x)[k] by {
        lemma_map_contains(t, k);
        let i = choose|i: int| 0 <= i < t.len() && key_of(#[trigger] t[i]) == k;
        lemma_map_index(t, i);
        if i != pos {
            lemma_map_index(s, i);
        }
    }
}

proof fn lemma_map_insert(s: Seq<DataPoint>, pos: int, x: DataPoint)
    requires
        sorted_by_key(s),
        0 <= pos <= s.len(),
        forall|i: int| 0 <= i < pos ==> key_before(key_of(#[trigger] s[i]), key_of(x)),
        forall|i: int| pos <= i < s.len() ==> key_before(key_of(x), key_of(#[trigger] s[i])),
    ensures
        sorted_by_key(s.insert(pos, x)),
        seq_to_map(s.insert(pos, x)) =~= seq_to_map(s).insert(key_of(x), x),
        !seq_to_map(s).contains_key(key_of(x)),
{
    let t = s.insert(pos, x);
    assert(sorted_by_key(t)) by {
        assert forall|i: int, j: int| 0 <= i < j < t.len() implies key_before(key_of(#[trigger] t[i]), key_of(#[trigger] t[j])) by {
            if j < pos {
                assert(key_before(key_of(s[i]), key_of(s[j])));
            } else if j == pos {
            } else if i < pos {
                assert(key_before(key_of(s[i]), key_of(x)));
                assert(key_before(key_of(x), key_of(s[j - 1])));
            } else if i == pos {
            } else {
                assert(key_before(key_of(s[i - 1]), key_of(s[j - 1])));
            }
        }
    }
    assert(!seq_to_map(s).contains_key(key_of(x))) by {
        lemma_map_contains(s, key_of(x));
        if seq_to_map(s).contains_key(key_of(x)) {
            let i = choose|i: int| 0 <= i < s.len() && key_of(#[trigger] s[i]) == key_of(x);
            if i < pos {
                assert(key_before(key_of(s[i]), key_of(x)));
            } else {
                assert(key_before(key_of(x), key_of(s[i])));
            }
        }
    }
    assert forall|k: (u32, AsduTypeId)| #[trigger] seq_to_map(t).contains_key(k) <==> seq_to_map(s).insert(key_of(x), x).contains_key(k) by {
        lemma_map_contains(t, k);
        lemma_map_contains(s, k);
        if seq_to_map(s).contains_key(k) {
            let i = choose|i: int| 0 <= i < s.len() && key_of(#[trigger] s[i]) == k;
            if i < pos {
                assert(key_of(t[i]) == k);
            } else {
                assert(key_of(t[i + 1]) == k);
            }
        }
        if seq_to_map(t).contains_key(k) && k != key_of(x) {
            let i = choose|i: int| 0 <= i < t.len() && key_of(#[trigger] t[i]) == k;
            if i < pos {
                assert(key_of(s[i]) == k);
            } else if i > pos {
                assert(key_of(s[i - 1]) == k);
            }
        }
        if k == key_of(x) {
            assert(key_of(t[pos]) == k);
        }
    }
    assert forall|k: (u32, AsduTypeId)| #[trigger] seq_to_map(t).contains_key(k) implies seq_to_map(t)[k] == seq_to_map(s).insert(key_of(x), x)[k] by {
        lemma_map_contains(t, k);
        let i = choose|i: int| 0 <= i < t.len() && key_of(#[trigger] t[i]) == k;
        lemma_map_index(t, i);
        if i < pos {
            lemma_map_index(s, i);
        } else if i > pos {
            lemma_map_index(s, i - 1);
        }
    }
}

proof fn lemma_map_remove(s: Seq<DataPoint>, pos: int)
    requires
        sorted_by_key(s),
        0 <= pos < s.len(),
    ensures
        sorted_by_key(s.remove(pos)),
        seq_to_map(s.remove(pos)) =~= seq_to_map(s).remove(key_of(s[pos])),
{
    let t = s.remove(pos);
    let kx = key_of(s[pos]);
    assert(sorted_by_key(t)) by {
        assert forall|i: int, j: int| 0 <= i < j < t.len() implies key_before(key_of(#[trigger] t[i]), key_of(#[trigger] t[j])) by {
            if j < pos {
                assert(key_before(key_of(s[i]), key_of(s[j])));
            } else if i < pos {
                assert(key_before(key_of(s[i]), key_of(s[j + 1])));
            } else {
                assert(key_before(key_of(s[i + 1]), key_of(s[j + 1])));
            }
        }
    }
    assert forall|k: (u32, AsduTypeId)| #[trigger] seq_to_map(t).contains_key(k) <==> seq_to_map(s).remove(kx).contains_key(k) by {
        lemma_map_contains(t, k);
        lemma_map_contains(s, k);
        if seq_to_map(s).contains_key(k) && k != kx {
            let i = choose|i: int| 0 <= i < s.len() && key_of(#[trigger] s[i]) == k;
            if i < pos {
                assert(key_of(t[i]) == k);
            } else if i > pos {
                assert(key_of(t[i - 1]) == k);
            }
        }
        if seq_to_map(t).contains_key(k) {
            let i = choose|i: int| 0 <= i < t.len() && key_of(#[trigger] t[i]) == k;
            if i < pos {
                assert(key_of(s[i]) == k);
                assert(key_before(key_of(s[i]), kx));
            } else {
                assert(key_of(s[i + 1]) == k);
                assert(key_before(kx, key_of(s[i + 1])));
            }
        }
    }
    assert forall|k: (u32, AsduTypeId)| #[trigger] seq_to_map(t).contains_key(k) implies seq_to_map(t)[k] == seq_to_map(s).remove(kx)[k] by {
        lemma_map_contains(t, k);
        let i = choose|i: int| 0 <= i < t.len() && key_of(#[trigger] t[i]) == k;
        lemma_map_index(t, i);
        if i < pos {
            lemma_map_index(s, i);
        } else {
            lemma_map_index(s, i + 1);
        }
    }
}

fn key_lt(p: &DataPoint, ioa: u32, asdu_type: AsduTypeId) -> (b: bool)
    ensures
        b == key_before(key_of(*p), (ioa, asdu_type)),
{
    p.ioa < ioa || (p.ioa == ioa && p.asdu_type.to_u8() < asdu_type.to_u8())
}

/// Index of the first stored point whose key is not before `(ioa, asdu_type)`.
fn lower_bound(points: &Vec<DataPoint>, ioa: u32, asdu_type: AsduTypeId) -> (pos: usize)
    requires
        sorted_by_key(points@),
    ensures
        pos <= points.len(),
        forall|i: int| 0 <= i < pos ==> key_before(key_of(#[trigger] points@[i]), (ioa, asdu_type)),
        forall|i: int| pos <= i < points.len() ==> !key_before(key_of(#[trigger] points@[i]), (ioa, asdu_type)),
{
    let mut lo: usize = 0;
    let mut hi: usize = points.len();
    while lo < hi
        invariant
            lo <= hi <= points.len(),
            sorted_by_key(points@),
            forall|i: int| 0 <= i < lo ==> key_before(key_of(#[trigger] points@[i]), (ioa, asdu_type)),
            forall|i: int| hi <= i < points.len() ==> !key_before(key_of(#[trigger] points@[i]), (ioa, asdu_type)),
        decreases hi - lo,
    {
        let mid = lo + (hi - lo) / 2;
        if key_lt(&points[mid], ioa, asdu_type) {
            assert forall|i: int| 0 <= i < mid + 1 implies key_before(key_of(#[trigger] points@[i]), (ioa, asdu_type)) by {
                if i < mid {
                    assert(key_before(key_of(points@[i]), key_of(points@[mid as int])));
                }
            }
            lo = mid + 1;
        } else {
            assert forall|i: int| mid <= i < points.len() implies !key_before(key_of(#[trigger] points@[i]), (ioa, asdu_type)) by {
                if i > mid {
                    assert(key_before(key_of(points@[mid as int]), key_of(points@[i])));
                }
            }
            hi = mid;
        }
    }
    lo
}

/// Position of the point with key `(ioa, asdu_type)`, if it is stored.
fn find_index(points: &Vec<DataPoint>, ioa: u32, asdu_type: AsduTypeId) -> (r: Option<usize>)
    requires
        sorted_by_key(points@),
    ensures
        r matches Some(i) ==> i < points.len() && key_of(points@[i as int]) == (ioa, asdu_type),
        r is None ==> !seq_to_map(points@).contains_key((ioa, asdu_type)),
{
    let pos = lower_bound(points, ioa, asdu_type);
    if pos < points.len() && points[pos].ioa == ioa && points[pos].asdu_type == asdu_type {
        Some(pos)
    } else {
        proof {
            let k = (ioa, asdu_type);
            lemma_map_contains(points@, k);
            if seq_to_map(points@).contains_key(k) {
                let i = choose|i: int| 0 <= i < points@.len() && key_of(#[trigger] points@[i]) == k;
                if i < pos {
                    assert(key_before(key_of(points@[i]), k));
                } else if i > pos {
                    assert(!key_before(key_of(points@[pos as int]), k));
                    lemma_key_trichotomy(key_of(points@[pos as int]), k);
                    assert(key_before(key_of(points@[pos as int]), key_of(points@[i])));
                }
            }
        }
        None
    }
}

/// Store `p` under its key, replacing any point stored there.
fn put_sorted(points: &mut Vec<DataPoint>, p: DataPoint)
    requires
        sorted_by_key(old(points)@),
    ensures
        sorted_by_key(final(points)@),
        seq_to_map(final(points)@) =~= seq_to_map(old(points)@).insert(key_of(p), p),
        final(points)@.len() == old(points)@.len() + if seq_to_map(old(points)@).contains_key(key_of(p)) { 0int } else { 1int },
{
    let pos = lower_bound(points, p.ioa, p.asdu_type);
    if pos < points.len() && points[pos].ioa == p.ioa && points[pos].asdu_type == p.asdu_type {
        proof {
            lemma_map_update(old(points)@, pos as int, p);
            lemma_map_index(old(points)@, pos as int);
        }
        points.set(pos, p);
    } else {
        proof {
            assert forall|i: int| pos <= i < old(points)@.len() implies key_before(key_of(p), key_of(#[trigger] old(points)@[i])) by {
                lemma_key_trichotomy(key_of(old(points)@[i]), key_of(p));
                if i > pos {
                    assert(key_before(key_of(old(points)@[pos as int]), key_of(old(points)@[i])));
                }
            }
            lemma_map_insert(old(points)@, pos as int, p);
        }
        points.insert(pos, p);
    }
}

/// Storage for all data points in a station.
/// Keyed by (IOA, AsduTypeId) so the same IOA can hold different ASDU types.
#[derive(Debug, Clone)]
pub struct DataPointMap {
    /// Points in strictly increasing key order.
    points: Vec<DataPoint>,
    /// Monotonically increasing sequence counter, stamped on each insert.
    seq_counter: u64,
}

impl View for DataPointMap {
    type V = Map<(u32, AsduTypeId), DataPoint>;

    open spec fn view(&self) -> Map<(u32, AsduTypeId), DataPoint> {
        seq_to_map(self.entries())
    }
}

impl Default for DataPointMap {
    fn default() -> (m: DataPointMap)
        ensures
            m.wf(),
            m.entries() == Seq::<DataPoint>::empty(),
            m@ == Map::<(u32, AsduTypeId), DataPoint>::empty(),
            m.seq() == 0,
    {
        DataPointMap::new()
    }
}

impl DataPointMap {
    /// The stored points in key order.
    pub closed spec fn entries(&self) -> Seq<DataPoint> {
        self.points@
    }

    /// The value of the sequence counter.
    pub closed spec fn seq(&self) -> u64 {
        self.seq_counter
    }

    /// Well-formedness: points are strictly ordered by key.
    pub open spec fn wf(&self) -> bool {
        sorted_by_key(self.entries())
    }

    /// Every stored stamp is at most the sequence counter.
    pub open spec fn stamps_bounded(&self) -> bool {
        forall|i: int| 0 <= i < self.entries().len() ==> (#[trigger] self.entries()[i]).update_seq <= self.seq()
    }

    pub fn new() -> (m: DataPointMap)
        ensures
            m.wf(),
            m.stamps_bounded(),
            m.entries() == Seq::<DataPoint>::empty(),
            m@ == Map::<(u32, AsduTypeId), DataPoint>::empty(),
            m.seq() == 0,
    {
        let m = DataPointMap { points: Vec::new(), seq_counter: 0 };
        assert(m@ =~= Map::<(u32, AsduTypeId), DataPoint>::empty());
        m
    }

    pub fn get(&self, ioa: u32, asdu_type: AsduTypeId) -> (r: Option<&DataPoint>)
        requires
            self.wf(),
        ensures
            r is Some <==> self@.contains_key((ioa, asdu_type)),
            r matches Some(p) ==> *p == self@[(ioa, asdu_type)],
    {
        match find_index(&self.points, ioa, asdu_type) {
            Some(i) => {
                proof { lemma_map_index(self.entries(), i as int); }
                Some(&self.points[i])
            },
            None => None,
        }
    }

    /// Find a point at the given IOA whose category matches. Prefers the
    /// untimestamped variant (NA) so control commands have a stable target
    /// when both NA and TB exist for the same IOA; otherwise the first such
    /// point in key order.
    pub fn get_by_category(&self, ioa: u32, category: DataCategory) -> (r: Option<&DataPoint>)
        requires
            self.wf(),
        ensures
            r is None ==> spec_by_category(self.entries(), ioa, category) is None,
            r matches Some(p) ==> spec_by_category(self.entries(), ioa, category) == Some(*p),
    {
        let preferred = preferred_na_for(category);
        if let Some(t) = preferred {
            if let Some(i) = find_index(&self.points, ioa, t) {
                proof { lemma_map_index(self.entries(), i as int); }
                return Some(&self.points[i]);
            }
        }
        let ghost pref = spec_preferred_na_for(category);
        assert(!(pref is Some && seq_to_map(self.entries()).contains_key((ioa, pref->0))));
        let mut i: usize = 0;
        while i < self.points.len()
            invariant
                i <= self.points.len(),
                pref == spec_preferred_na_for(category),
                !(pref is Some && seq_to_map(self.entries()).contains_key((ioa, pref->0))),
                forall|j: int| 0 <= j < i ==> !point_matches(#[trigger] self.entries()[j], ioa, category),
            decreases self.points.len() - i,
        {
            if self.points[i].ioa == ioa && self.points[i].asdu_type.category() == category {
                proof {
                    let s = self.entries();
                    assert(point_matches(s[i as int], ioa, category));
                    let c = choose|c: int| 0 <= c < s.len() && point_matches(#[trigger] s[c], ioa, category)
                        && forall|j: int| 0 <= j < c ==> !point_matches(#[trigger] s[j], ioa, category);
                    assert(0 <= c < s.len() && point_matches(s[c], ioa, category)
                        && forall|j: int| 0 <= j < c ==> !point_matches(#[trigger] s[j], ioa, category));
                    if c < i {
                        assert(!point_matches(s[c], ioa, category));
                    } else if c > i {
                        assert(!point_matches(s[i as int], ioa, category));
                    }
                }
                return Some(&self.points[i]);
            }
            i = i + 1;
        }
        None
    }

    pub fn insert(&mut self, point: DataPoint)
        requires
            old(self).wf(),
            old(self).seq() < u64::MAX,
        ensures
            final(self).wf(),
            final(self).seq() == old(self).seq() + 1,
            final(self)@ == old(self)@.insert(key_of(point), with_seq(point, final(self).seq())),
            final(self).entries().len() == old(self).entries().len() + if old(self)@.contains_key(key_of(point)) { 0int } else { 1int },
            old(self).stamps_bounded() ==> final(self).stamps_bounded(),
    {
        self.seq_counter = self.seq_counter + 1;
        let mut p = point;
        p.update_seq = self.seq_counter;
        let ghost before = self.points@;
        put_sorted(&mut self.points, p);
        proof {
            if old(self).stamps_bounded() {
                assert forall|i: int| 0 <= i < self.entries().len() implies (#[trigger] self.entries()[i]).update_seq <= self.seq() by {
                    lemma_map_index(self.entries(), i);
                    let k = key_of(self.entries()[i]);
                    if k != key_of(p) {
                        lemma_map_contains(before, k);
                    }
                }
            }
        }
    }

    /// Store a point as it is, keeping its own update stamp; the sequence
    /// counter is left alone.
    pub fn insert_stamped(&mut self, point: DataPoint)
        requires
            old(self).wf(),
        ensures
            final(self).wf(),
            final(self).seq() == old(self).seq(),
            final(self)@ == old(self)@.insert(key_of(point), point),
            final(self).entries().len() == old(self).entries().len() + if old(self)@.contains_key(key_of(point)) { 0int } else { 1int },
    {
        put_sorted(&mut self.points, point);
    }

    /// Set the value and timestamp of a stored point; its quality and
    /// stamp stay. Returns whether a point with that key was stored.
    pub fn update_value(&mut self, ioa: u32, asdu_type: AsduTypeId, value: DataPointValue, timestamp: Option<i64>) -> (found: bool)
        requires
            old(self).wf(),
        ensures
            final(self).wf(),
            final(self).seq() == old(self).seq(),
            found == old(self)@.contains_key((ioa, asdu_type)),
            found ==> final(self)@ == old(self)@.insert((ioa, asdu_type), with_value_at(old(self)@[(ioa, asdu_type)], value, timestamp)),
            !found ==> final(self)@ == old(self)@,
            final(self).entries().len() == old(self).entries().len(),
            old(self).stamps_bounded() ==> final(self).stamps_bounded(),
    {
        match find_index(&self.points, ioa, asdu_type) {
            Some(i) => {
                let old_p = self.points[i];
                let p = DataPoint {
                    ioa: old_p.ioa,
                    asdu_type: old_p.asdu_type,
                    value,
                    quality: old_p.quality,
                    timestamp,
                    update_seq: old_p.update_seq,
                };
                proof {
                    lemma_map_index(self.entries(), i as int);
                    lemma_map_update(self.entries(), i as int, p);
                }
                self.points.set(i, p);
                proof {
                    if old(self).stamps_bounded() {
                        assert forall|j: int| 0 <= j < self.entries().len() implies (#[trigger] self.entries()[j]).update_seq <= self.seq() by {
                            assert(old(self).entries()[j].update_seq <= old(self).seq());
                        }
                    }
                }
                true
            },
            None => false,
        }
    }

    pub fn remove(&mut self, ioa: u32, asdu_type: AsduTypeId) -> (r: Option<DataPoint>)
        requires
            old(self).wf(),
        ensures
            final(self).wf(),
            final(self).seq() == old(self).seq(),
            final(self)@ == old(self)@.remove((ioa, asdu_type)),
            r is Some <==> old(self)@.contains_key((ioa, asdu_type)),
            r matches Some(p) ==> p == old(self)@[(ioa, asdu_type)],
            final(self).entries().len() == old(self).entries().len() - if old(self)@.contains_key((ioa, asdu_type)) { 1int } else { 0int },
            old(self).stamps_bounded() ==> final(self).stamps_bounded(),
    {
        match find_index(&self.points, ioa, asdu_type) {
            Some(i) => {
                proof {
                    lemma_map_index(self.entries(), i as int);
                    lemma_map_remove(self.entries(), i as int);
                }
                let p = self.points.remove(i);
                proof {
                    if old(self).stamps_bounded() {
                        assert forall|j: int| 0 <= j < self.entries().len() implies (#[trigger] self.entries()[j]).update_seq <= self.seq() by {
                            if j < i {
                                assert(self.entries()[j] == old(self).entries()[j]);
                            } else {
                                assert(self.entries()[j] == old(self).entries()[j + 1]);
                            }
                        }
                    }
                }
                Some(p)
            },
            None => {
                assert(old(self)@.remove((ioa, asdu_type)) =~= old(self)@);
                None
            },
        }
    }

    pub fn contains(&self, ioa: u32, asdu_type: AsduTypeId) -> (b: bool)
        requires
            self.wf(),
        ensures
            b == self@.contains_key((ioa, asdu_type)),
    {
        match find_index(&self.points, ioa, asdu_type) {
            Some(i) => {
                proof { lemma_map_index(self.entries(), i as int); }
                true
            },
            None => false,
        }
    }

    pub fn len(&self) -> (n: usize)
        ensures
            n == self.entries().len(),
    {
        self.points.len()
    }

    pub fn is_empty(&self) -> (b: bool)
        ensures
            b == (self.entries().len() == 0),
    {
        self.points.len() == 0
    }

    /// Current sequence counter value.
    pub fn current_seq(&self) -> (s: u64)
        ensures
            s == self.seq(),
    {
        self.seq_counter
    }

    /// Get points changed since the given sequence number, sorted by IOA.
    pub fn changed_since(&self, seq: u64) -> (r: Vec<DataPoint>)
        ensures
            r@ == self.entries().filter(|p: DataPoint| p.update_seq > seq),
    {
        let mut r: Vec<DataPoint> = Vec::new();
        let mut i: usize = 0;
        while i < self.points.len()
            invariant
                i <= self.points.len(),
                r@ == self.entries().take(i as int).filter(|p: DataPoint| p.update_seq > seq),
            decreases self.points.len() - i,
        {
            proof { lemma_filter_take_step(self.entries(), |p: DataPoint| p.update_seq > seq, i as int); }
            if self.points[i].update_seq > seq {
                r.push(self.points[i]);
            }
            i = i + 1;
        }
        assert(self.entries().take(self.points.len() as int) =~= self.entries());
        r
    }

    /// Get all points for a given data category, sorted by IOA.
    pub fn by_category(&self, category: DataCategory) -> (r: Vec<DataPoint>)
        ensures
            r@ == self.entries().filter(|p: DataPoint| p.asdu_type.spec_category() == category),
    {
        let mut r: Vec<DataPoint> = Vec::new();
        let mut i: usize = 0;
        while i < self.points.len()
            invariant
                i <= self.points.len(),
                r@ == self.entries().take(i as int).filter(|p: DataPoint| p.asdu_type.spec_category() == category),
            decreases self.points.len() - i,
        {
            proof { lemma_filter_take_step(self.entries(), |p: DataPoint| p.asdu_type.spec_category() == category, i as int); }
            if self.points[i].asdu_type.category() == category {
                r.push(self.points[i]);
            }
            i = i + 1;
        }
        assert(self.entries().take(self.points.len() as int) =~= self.entries());
        r
    }

    /// Get all points sorted by IOA (and, within one IOA, by type).
    pub fn all_sorted(&self) -> (r: Vec<DataPoint>)
        ensures
            r@ == self.entries(),
    {
        self.points.clone()
    }
}

/// Whether a point sits at `ioa` and belongs to `category`.
pub open spec fn point_matches(p: DataPoint, ioa: u32, category: DataCategory) -> bool {
    p.ioa == ioa && p.asdu_type.spec_category() == category
}

/// Index of the first point of `s` that sits at `ioa` in `category`.
pub open spec fn first_match_index(s: Seq<DataPoint>, ioa: u32, category: DataCategory) -> int
    decreases s.len(),
{
    if s.len() == 0 {
        -1
    } else if point_matches(s[0], ioa, category) {
        0
    } else {
        let r = first_match_index(s.drop_first(), ioa, category);
        if r < 0 { -1 } else { r + 1 }
    }
}

/// The point that `get_by_category` finds in key-ordered `s`.
pub open spec fn spec_by_category(s: Seq<DataPoint>, ioa: u32, category: DataCategory) -> Option<DataPoint> {
    let pref = spec_preferred_na_for(category);
    if pref is Some && seq_to_map(s).contains_key((ioa, pref->0)) {
        Some(seq_to_map(s)[(ioa, pref->0)])
    } else if exists|i: int| 0 <= i < s.len() && point_matches(#[trigger] s[i], ioa, category) {
        Some(s[choose|i: int| 0 <= i < s.len() && point_matches(#[trigger] s[i], ioa, category)
            && forall|j: int| 0 <= j < i ==> !point_matches(#[trigger] s[j], ioa, category)])
    } else {
        None
    }
}

/// The point `spec_by_category` finds is stored under its own key, sits at
/// the IOA asked for and belongs to the category asked for.
pub proof fn lemma_by_category_in_map(s: Seq<DataPoint>, ioa: u32, category: DataCategory)
    requires
        sorted_by_key(s),
    ensures
        spec_by_category(s, ioa, category) matches Some(p) ==> {
            &&& seq_to_map(s).contains_key(key_of(p))
            &&& seq_to_map(s)[key_of(p)] == p
            &&& p.ioa == ioa
            &&& p.asdu_type.spec_category() == category
        },
{
    let pref = spec_preferred_na_for(category);
    if pref is Some && seq_to_map(s).contains_key((ioa, pref->0)) {
        let k = (ioa, pref->0);
        lemma_map_contains(s, k);
        let i = choose|i: int| 0 <= i < s.len() && s[i] == seq_to_map(s)[k] && key_of(#[trigger] s[i]) == k;
        lemma_map_index(s, i);
    } else if exists|i: int| 0 <= i < s.len() && point_matches(#[trigger] s[i], ioa, category) {
        let i = choose|i: int| 0 <= i < s.len() && point_matches(#[trigger] s[i], ioa, category)
            && forall|j: int| 0 <= j < i ==> !point_matches(#[trigger] s[j], ioa, category);
        let w = choose|w: int| 0 <= w < s.len() && point_matches(#[trigger] s[w], ioa, category);
        assert(0 <= w < s.len() && point_matches(s[w], ioa, category));
        lemma_first_match_exists(s, ioa, category, w);
        lemma_map_index(s, i);
    }
}

proof fn lemma_first_match_exists(s: Seq<DataPoint>, ioa: u32, category: DataCategory, w: int)
    requires
        0 <= w < s.len(),
        point_matches(s[w], ioa, category),
    ensures
        exists|i: int| 0 <= i < s.len() && point_matches(#[trigger] s[i], ioa, category)
            && forall|j: int| 0 <= j < i ==> !point_matches(#[trigger] s[j], ioa, category),
    decreases w,
{
    if exists|j: int| 0 <= j < w && point_matches(#[trigger] s[j], ioa, category) {
        let j = choose|j: int| 0 <= j < w && point_matches(#[trigger] s[j], ioa, category);
        lemma_first_match_exists(s, ioa, category, j);
    } else {
        assert(0 <= w < s.len() && point_matches(s[w], ioa, category)
            && forall|j: int| 0 <= j < w ==> !point_matches(#[trigger] s[j], ioa, category));
    }
}

proof fn lemma_filter_take_step(s: Seq<DataPoint>, pred: spec_fn(DataPoint) -> bool, i: int)
    requires
        0 <= i < s.len(),
    ensures
        s.take(i + 1).filter(pred) == if pred(s[i]) { s.take(i).filter(pred).push(s[i]) } else { s.take(i).filter(pred) },
{
    reveal_with_fuel(Seq::filter, 1);
    assert(s.take(i + 1).drop_last() =~= s.take(i));
}

/// The untimestamped (NA) type that represents a category.
pub open spec fn spec_preferred_na_for(category: DataCategory) -> Option<AsduTypeId> {
    match category {
        DataCategory::SinglePoint => Some(AsduTypeId::MSpNa1),
        DataCategory::DoublePoint => Some(AsduTypeId::MDpNa1),
        DataCategory::StepPosition => Some(AsduTypeId::MStNa1),
        DataCategory::Bitstring => Some(AsduTypeId::MBoNa1),
        DataCategory::NormalizedMeasured => Some(AsduTypeId::MMeNa1),
        DataCategory::ScaledMeasured => Some(AsduTypeId::MMeNb1),
        DataCategory::FloatMeasured => Some(AsduTypeId::MMeNc1),
        DataCategory::IntegratedTotals => Some(AsduTypeId::MItNa1),
        DataCategory::System => None,
    }
}

/// Map a category to its untimestamped (NA) ASDU representative. Used by
/// `get_by_category` to give control commands a stable target when both NA
/// and TB variants exist for the same IOA.
pub fn preferred_na_for(category: DataCategory) -> (t: Option<AsduTypeId>)
    ensures
        t == spec_preferred_na_for(category),
{
    match category {
        DataCategory::SinglePoint => Some(AsduTypeId::MSpNa1),
        DataCategory::DoublePoint => Some(AsduTypeId::MDpNa1),
        DataCategory::StepPosition => Some(AsduTypeId::MStNa1),
        DataCategory::Bitstring => Some(AsduTypeId::MBoNa1),
        DataCategory::NormalizedMeasured => Some(AsduTypeId::MMeNa1),
        DataCategory::ScaledMeasured => Some(AsduTypeId::MMeNb1),
        DataCategory::FloatMeasured => Some(AsduTypeId::MMeNc1),
        DataCategory::IntegratedTotals => Some(AsduTypeId::MItNa1),
        DataCategory::System => None,
    }
}

} // verus!
