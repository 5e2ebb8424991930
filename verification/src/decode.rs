//! Standalone IEC 60870-5-104 frame parser for the frame-analysis tool.
//!
//! Produces a fully-structured view of one APDU — APCI header, ASDU header,
//! and every information object (IOA / value / quality / timestamp).
//! Independent of the receive paths of master and slave so it can be
//! invoked on arbitrary user-pasted bytes without touching connection state.
use crate::data_point::DataPointValue;
use crate::frame::{le16, parse_apci, spec_parse_apci, FrameError, FrameType, UFrameKind};
use crate::text::{dec_text, hex_byte_text, hex_dump_text, hex_of, push_decimal, push_hex_byte};
use crate::types::{AsduTypeId, CauseOfTransmission, QualityFlags};
use vstd::prelude::*;

verus! {

/// APCI-layer view (Information / Supervisory / Unnumbered).
#[derive(Debug, Clone)]
pub enum ParsedApci {
    I { send_seq: u16, recv_seq: u16 },
    S { recv_seq: u16 },
    U { kind: UFrameKind, name: String },
}

/// Decoded CP56Time2a timestamp (7-byte IEC time format).
#[derive(Debug, Clone, Copy, PartialEq, Eq, Structural)]
pub struct Cp56Time2a {
    pub year: u16,
    pub month: u8,
    pub day: u8,
    pub day_of_week: u8,
    pub hour: u8,
    pub minute: u8,
    pub millisecond: u16,
    pub invalid: bool,
    pub summer_time: bool,
}

/// One information object inside the ASDU.
#[derive(Debug, Clone)]
pub struct ParsedObject {
    pub ioa: u32,
    pub value: Option<DataPointValue>,
    pub quality: Option<QualityFlags>,
    pub timestamp: Option<Cp56Time2a>,
    /// Raw element bytes (after IOA), shown in the UI for diagnostics.
    pub raw_hex: String,
}

/// ASDU header + decoded information objects.
#[derive(Debug, Clone)]
pub struct ParsedAsdu {
    pub type_id: u8,
    pub type_label: String,
    pub sq: bool,
    pub num_objects: u8,
    pub cot: u8,
    pub cot_name: String,
    pub negative: bool,
    pub test: bool,
    pub originator: u8,
    pub common_address: u16,
    pub objects: Vec<ParsedObject>,
}

/// Top-level result of parsing one APDU.
#[derive(Debug, Clone)]
pub struct ParsedFrame {
    pub raw_hex: String,
    pub length: usize,
    pub start_byte: u8,
    pub apdu_length: u8,
    pub control_field: [u8; 4],
    pub apci: ParsedApci,
    pub asdu: Option<ParsedAsdu>,
    pub warnings: Vec<String>,
}

// ---------------------------------------------------------------------------
// Octet-level readings
// ---------------------------------------------------------------------------

/// Little-endian 24-bit word.
pub open spec fn le24(a: u8, b: u8, c: u8) -> u32 {
    (a as int + 256 * b as int + 65536 * c as int) as u32
}

/// Little-endian 32-bit word.
pub open spec fn le32(a: u8, b: u8, c: u8, d: u8) -> u32 {
    (a as int + 256 * b as int + 65536 * c as int + 16777216 * d as int) as u32
}

/// Two's-complement reading of a 16-bit word.
pub open spec fn i16_of(w: u16) -> i16 {
    if w >= 32768 { (w - 65536) as i16 } else { w as i16 }
}

/// Two's-complement reading of a 32-bit word.
pub open spec fn i32_of(w: u32) -> i32 {
    if w >= 0x8000_0000 { (w - 0x1_0000_0000) as i32 } else { w as i32 }
}

/// Signed seven-bit step position of a VTI octet.
pub open spec fn vti_value(b: u8) -> i8 {
    let raw = b as int % 128;
    if raw >= 64 { (raw - 128) as i8 } else { raw as i8 }
}

/// The signed step position a VTI octet carries (its low seven bits, as
/// a two's-complement value in -64..=63).
pub(crate) fn vti_of(b: u8) -> (v: i8)
    ensures
        v == vti_value(b),
        -64 <= v <= 63,
{
    let raw = b % 128;
    if raw >= 64 { (raw as i16 - 128) as i8 } else { raw as i8 }
}

/// Quality descriptor octet (QDS).
pub open spec fn spec_quality(q: u8) -> QualityFlags {
    QualityFlags {
        ov: q % 2 == 1,
        bl: (q / 16) % 2 == 1,
        sb: (q / 32) % 2 == 1,
        nt: (q / 64) % 2 == 1,
        iv: q >= 128,
    }
}

/// Quality carried in a SIQ / DIQ octet (no overflow bit).
pub open spec fn spec_siq_quality(q: u8) -> QualityFlags {
    QualityFlags { ov: false, bl: (q / 16) % 2 == 1, sb: (q / 32) % 2 == 1, nt: (q / 64) % 2 == 1, iv: q >= 128 }
}

pub(crate) fn read_le16(b: &[u8], off: usize) -> (w: u16)
    requires
        off + 2 <= b.len(),
    ensures
        w == le16(b@[off as int], b@[off + 1]),
{
    b[off] as u16 + b[off + 1] as u16 * 256
}

pub(crate) fn read_le24(b: &[u8], off: usize) -> (w: u32)
    requires
        off + 3 <= b.len(),
    ensures
        w == le24(b@[off as int], b@[off + 1], b@[off + 2]),
        w < 0x100_0000,
{
    b[off] as u32 + b[off + 1] as u32 * 256 + b[off + 2] as u32 * 65536
}

pub(crate) fn read_le32(b: &[u8], off: usize) -> (w: u32)
    requires
        off + 4 <= b.len(),
    ensures
        w == le32(b@[off as int], b@[off + 1], b@[off + 2], b@[off + 3]),
{
    b[off] as u32 + b[off + 1] as u32 * 256 + b[off + 2] as u32 * 65536 + b[off + 3] as u32 * 16777216
}

pub(crate) fn to_i16(w: u16) -> (v: i16)
    ensures
        v == i16_of(w),
{
    if w >= 32768 { (w as i32 - 65536) as i16 } else { w as i16 }
}

pub(crate) fn to_i32(w: u32) -> (v: i32)
    ensures
        v == i32_of(w),
{
    if w >= 0x8000_0000 { (w as i64 - 0x1_0000_0000) as i32 } else { w as i32 }
}

fn quality_from_qds(qds: u8) -> (q: QualityFlags)
    ensures
        q == spec_quality(qds),
{
    QualityFlags {
        ov: qds % 2 == 1,
        bl: (qds / 16) % 2 == 1,
        sb: (qds / 32) % 2 == 1,
        nt: (qds / 64) % 2 == 1,
        iv: qds >= 128,
    }
}

fn quality_from_siq(siq: u8) -> (q: QualityFlags)
    ensures
        q == spec_siq_quality(siq),
{
    QualityFlags {
        ov: false,
        bl: (siq / 16) % 2 == 1,
        sb: (siq / 32) % 2 == 1,
        nt: (siq / 64) % 2 == 1,
        iv: siq >= 128,
    }
}

// ---------------------------------------------------------------------------
// CP56Time2a
// ---------------------------------------------------------------------------

/// A CP56Time2a timestamp read from the first seven octets of `b`.
pub open spec fn spec_cp56(b: Seq<u8>) -> Option<Cp56Time2a> {
    if b.len() < 7 {
        None
    } else {
        Some(Cp56Time2a {
            year: (2000 + b[6] as int % 128) as u16,
            month: (b[5] % 16) as u8,
            day: (b[4] % 32) as u8,
            day_of_week: (b[4] / 32) as u8,
            hour: (b[3] % 32) as u8,
            minute: (b[2] % 64) as u8,
            millisecond: le16(b[0], b[1]),
            invalid: b[2] >= 128,
            summer_time: b[3] >= 128,
        })
    }
}

fn cp56_at(buf: &[u8], off: usize) -> (t: Option<Cp56Time2a>)
    requires
        off <= buf.len(),
    ensures
        t == spec_cp56(buf@.skip(off as int)),
{
    if buf.len() - off < 7 {
        return None;
    }
    Some(Cp56Time2a {
        year: 2000u16 + (buf[off + 6] % 128) as u16,
        month: buf[off + 5] % 16,
        day: buf[off + 4] % 32,
        day_of_week: buf[off + 4] / 32,
        hour: buf[off + 3] % 32,
        minute: buf[off + 2] % 64,
        millisecond: read_le16(buf, off),
        invalid: buf[off + 2] >= 128,
        summer_time: buf[off + 3] >= 128,
    })
}

/// Decode a 7-byte CP56Time2a buffer.
pub fn decode_cp56time2a(buf: &[u8]) -> (t: Option<Cp56Time2a>)
    ensures
        t == spec_cp56(buf@),
{
    assert(buf@.skip(0) =~= buf@);
    cp56_at(buf, 0)
}

// ---------------------------------------------------------------------------
// Element layout and decoding
// ---------------------------------------------------------------------------

/// Element layout (excluding IOA): octets of the value part, and whether a
/// CP56Time2a follows.
pub open spec fn spec_element_size(t: u8) -> Option<(usize, bool)> {
    if t == 1 || t == 3 || t == 45 || t == 46 || t == 47 || t == 100 || t == 101 { Some((1, false)) }
    else if t == 30 || t == 31 { Some((1, true)) }
    else if t == 5 { Some((2, false)) }
    else if t == 32 { Some((2, true)) }
    else if t == 7 || t == 13 || t == 15 || t == 50 { Some((5, false)) }
    else if t == 33 || t == 36 || t == 37 { Some((5, true)) }
    else if t == 9 || t == 11 || t == 48 || t == 49 { Some((3, false)) }
    else if t == 34 || t == 35 { Some((3, true)) }
    else if t == 103 { Some((7, false)) }
    else { None }
}

/// Octets of one whole element of a type with a known layout.
pub open spec fn spec_element_len(layout: (usize, bool)) -> int {
    layout.0 + if layout.1 { 7int } else { 0int }
}

/// Element layout (excluding IOA): (value_bytes_excluding_timestamp, has_cp56time2a).
pub fn asdu_element_size(asdu_type: u8) -> (r: Option<(usize, bool)>)
    ensures
        r == spec_element_size(asdu_type),
{
    let t = asdu_type;
    if t == 1 || t == 3 || t == 45 || t == 46 || t == 47 || t == 100 || t == 101 { Some((1, false)) }
    else if t == 30 || t == 31 { Some((1, true)) }
    else if t == 5 { Some((2, false)) }
    else if t == 32 { Some((2, true)) }
    else if t == 7 || t == 13 || t == 15 || t == 50 { Some((5, false)) }
    else if t == 33 || t == 36 || t == 37 { Some((5, true)) }
    else if t == 9 || t == 11 || t == 48 || t == 49 { Some((3, false)) }
    else if t == 34 || t == 35 { Some((3, true)) }
    else if t == 103 { Some((7, false)) }
    else { None }
}

/// What one information element (without its IOA) decodes to: value,
/// quality and timestamp.
pub open spec fn spec_decode_element(t: u8, e: Seq<u8>) -> (Option<DataPointValue>, Option<QualityFlags>, Option<Cp56Time2a>) {
    if t == 1 || t == 30 {
        (Some(DataPointValue::SinglePoint { value: e[0] % 2 == 1 }), Some(spec_siq_quality(e[0])),
            if t == 30 { spec_cp56(e.skip(1)) } else { None })
    } else if t == 3 || t == 31 {
        (Some(DataPointValue::DoublePoint { value: e[0] % 4 }), Some(spec_siq_quality(e[0])),
            if t == 31 { spec_cp56(e.skip(1)) } else { None })
    } else if t == 5 || t == 32 {
        (Some(DataPointValue::StepPosition { value: vti_value(e[0]), transient: e[0] >= 128 }), Some(spec_quality(e[1])),
            if t == 32 { spec_cp56(e.skip(2)) } else { None })
    } else if t == 7 || t == 33 {
        (Some(DataPointValue::Bitstring { value: le32(e[0], e[1], e[2], e[3]) }), Some(spec_quality(e[4])),
            if t == 33 { spec_cp56(e.skip(5)) } else { None })
    } else if t == 9 || t == 34 {
        (Some(DataPointValue::Normalized { raw: i16_of(le16(e[0], e[1])) }), Some(spec_quality(e[2])),
            if t == 34 { spec_cp56(e.skip(3)) } else { None })
    } else if t == 11 || t == 35 {
        (Some(DataPointValue::Scaled { value: i16_of(le16(e[0], e[1])) }), Some(spec_quality(e[2])),
            if t == 35 { spec_cp56(e.skip(3)) } else { None })
    } else if t == 13 || t == 36 {
        (Some(DataPointValue::ShortFloat { bits: le32(e[0], e[1], e[2], e[3]) }), Some(spec_quality(e[4])),
            if t == 36 { spec_cp56(e.skip(5)) } else { None })
    } else if t == 15 || t == 37 {
        (Some(DataPointValue::IntegratedTotal {
            value: i32_of(le32(e[0], e[1], e[2], e[3])),
            carry: (e[4] / 32) % 2 == 1,
            sequence: e[4] % 32,
        }), Some(QualityFlags { ov: false, bl: false, sb: false, nt: false, iv: e[4] >= 128 }),
            if t == 37 { spec_cp56(e.skip(5)) } else { None })
    } else if t == 45 {
        (Some(DataPointValue::SinglePoint { value: e[0] % 2 == 1 }), None, None)
    } else if t == 46 {
        (Some(DataPointValue::DoublePoint { value: e[0] % 4 }), None, None)
    } else if t == 47 {
        (Some(DataPointValue::StepPosition { value: (e[0] % 4) as i8, transient: false }), None, None)
    } else if t == 48 {
        (Some(DataPointValue::Normalized { raw: i16_of(le16(e[0], e[1])) }), None, None)
    } else if t == 49 {
        (Some(DataPointValue::Scaled { value: i16_of(le16(e[0], e[1])) }), None, None)
    } else if t == 50 {
        (Some(DataPointValue::ShortFloat { bits: le32(e[0], e[1], e[2], e[3]) }), None, None)
    } else if t == 100 || t == 101 {
        (Some(DataPointValue::Bitstring { value: e[0] as u32 }), None, None)
    } else if t == 103 {
        (None, None, spec_cp56(e))
    } else {
        (None, None, None)
    }
}

/// Decode one information element (excluding the IOA prefix).
/// Returns (value, quality, timestamp). Any field may be None depending on type.
fn decode_element(asdu_type: u8, elem: &[u8]) -> (r: (Option<DataPointValue>, Option<QualityFlags>, Option<Cp56Time2a>))
    requires
        spec_element_size(asdu_type) matches Some(layout) ==> elem.len() == spec_element_len(layout),
    ensures
        r == spec_decode_element(asdu_type, elem@),
{
    let t = asdu_type;
    if t == 1 || t == 30 {
        let siq = elem[0];
        let ts = if t == 30 { cp56_at(elem, 1) } else { None };
        (Some(DataPointValue::SinglePoint { value: siq % 2 == 1 }), Some(quality_from_siq(siq)), ts)
    } else if t == 3 || t == 31 {
        let diq = elem[0];
        let ts = if t == 31 { cp56_at(elem, 1) } else { None };
        (Some(DataPointValue::DoublePoint { value: diq % 4 }), Some(quality_from_siq(diq)), ts)
    } else if t == 5 || t == 32 {
        let vti = elem[0];
        let v_signed = vti_of(vti);
        let ts = if t == 32 { cp56_at(elem, 2) } else { None };
        (Some(DataPointValue::StepPosition { value: v_signed, transient: vti >= 128 }), Some(quality_from_qds(elem[1])), ts)
    } else if t == 7 || t == 33 {
        let ts = if t == 33 { cp56_at(elem, 5) } else { None };
        (Some(DataPointValue::Bitstring { value: read_le32(elem, 0) }), Some(quality_from_qds(elem[4])), ts)
    } else if t == 9 || t == 34 {
        let ts = if t == 34 { cp56_at(elem, 3) } else { None };
        (Some(DataPointValue::Normalized { raw: to_i16(read_le16(elem, 0)) }), Some(quality_from_qds(elem[2])), ts)
    } else if t == 11 || t == 35 {
        let ts = if t == 35 { cp56_at(elem, 3) } else { None };
        (Some(DataPointValue::Scaled { value: to_i16(read_le16(elem, 0)) }), Some(quality_from_qds(elem[2])), ts)
    } else if t == 13 || t == 36 {
        let ts = if t == 36 { cp56_at(elem, 5) } else { None };
        (Some(DataPointValue::ShortFloat { bits: read_le32(elem, 0) }), Some(quality_from_qds(elem[4])), ts)
    } else if t == 15 || t == 37 {
        let bcr = elem[4];
        let ts = if t == 37 { cp56_at(elem, 5) } else { None };
        (Some(DataPointValue::IntegratedTotal {
            value: to_i32(read_le32(elem, 0)),
            carry: (bcr / 32) % 2 == 1,
            sequence: bcr % 32,
        }), Some(QualityFlags { ov: false, bl: false, sb: false, nt: false, iv: bcr >= 128 }), ts)
    } else if t == 45 {
        (Some(DataPointValue::SinglePoint { value: elem[0] % 2 == 1 }), None, None)
    } else if t == 46 {
        (Some(DataPointValue::DoublePoint { value: elem[0] % 4 }), None, None)
    } else if t == 47 {
        (Some(DataPointValue::StepPosition { value: (elem[0] % 4) as i8, transient: false }), None, None)
    } else if t == 48 {
        (Some(DataPointValue::Normalized { raw: to_i16(read_le16(elem, 0)) }), None, None)
    } else if t == 49 {
        (Some(DataPointValue::Scaled { value: to_i16(read_le16(elem, 0)) }), None, None)
    } else if t == 50 {
        (Some(DataPointValue::ShortFloat { bits: read_le32(elem, 0) }), None, None)
    } else if t == 100 || t == 101 {
        (Some(DataPointValue::Bitstring { value: elem[0] as u32 }), None, None)
    } else if t == 103 {
        assert(elem@.skip(0) =~= elem@);
        (None, None, cp56_at(elem, 0))
    } else {
        (None, None, None)
    }
}

// ---------------------------------------------------------------------------
// Information objects
// ---------------------------------------------------------------------------

/// What a decoded object holds: IOA, value, quality, timestamp and the hex
/// text of its element octets.
pub open spec fn object_model(o: ParsedObject) -> (u32, Option<DataPointValue>, Option<QualityFlags>, Option<Cp56Time2a>, Seq<char>) {
    (o.ioa, o.value, o.quality, o.timestamp, o.raw_hex@)
}

/// The text of each string of a sequence.
pub open spec fn texts(v: Seq<String>) -> Seq<Seq<char>> {
    v.map_values(|s: String| s@)
}

pub open spec fn msg_missing_ioa(i: int) -> Seq<char> {
    "truncated at object #"@ + dec_text(i as nat) + ": missing IOA"@
}

pub open spec fn msg_truncated_object(i: int, ioa: u32, size: int) -> Seq<char> {
    "truncated at object #"@ + dec_text(i as nat) + " (IOA="@ + dec_text(ioa as nat) + "): need "@
        + dec_text(size as nat) + " more bytes"@
}

pub open spec fn msg_unsupported_type(t: u8) -> Seq<char> {
    "unsupported ASDU type "@ + dec_text(t as nat) + " — objects not decoded"@
}

/// Objects `i..num` of an ASDU body read from `offset` on (with `base` the
/// last IOA read), and the warning that stops decoding early, if any.
pub open spec fn spec_decode_objects(t: u8, size: int, sq: bool, num: int, body: Seq<u8>, i: int, offset: int, base: u32)
    -> (Seq<(u32, Option<DataPointValue>, Option<QualityFlags>, Option<Cp56Time2a>, Seq<char>)>, Seq<Seq<char>>)
    decreases num - i,
{
    if i >= num || offset < 0 {
        (Seq::empty(), Seq::empty())
    } else {
        let need_ioa = !sq || i == 0;
        if need_ioa && offset + 3 > body.len() {
            (Seq::empty(), seq![msg_missing_ioa(i)])
        } else {
            let base2 = if need_ioa { le24(body[offset], body[offset + 1], body[offset + 2]) } else { base };
            let off2 = if need_ioa { offset + 3 } else { offset };
            let ioa = if sq { (base2 + i) as u32 } else { base2 };
            if off2 + size > body.len() {
                (Seq::empty(), seq![msg_truncated_object(i, ioa, size)])
            } else {
                let elem = body.subrange(off2, off2 + size);
                let d = spec_decode_element(t, elem);
                let rest = spec_decode_objects(t, size, sq, num, body, i + 1, off2 + size, base2);
                (seq![(ioa, d.0, d.1, d.2, hex_dump_text(elem))] + rest.0, rest.1)
            }
        }
    }
}

fn append_decimal(s: &mut String, n: u64)
    ensures
        final(s)@ == old(s)@ + dec_text(n as nat),
{
    push_decimal(s, n);
}

fn decode_objects(type_id: u8, sq: bool, num: usize, body: &[u8], warnings: &mut Vec<String>) -> (out: Vec<ParsedObject>)
    requires
        num < 128,
    ensures
        spec_element_size(type_id) is None ==> out@.len() == 0
            && texts(final(warnings)@) == texts(old(warnings)@).push(msg_unsupported_type(type_id)),
        spec_element_size(type_id) matches Some(layout) ==> {
            let r = spec_decode_objects(type_id, spec_element_len(layout), sq, num as int, body@, 0, 0, 0);
            &&& out@.map_values(|o: ParsedObject| object_model(o)) == r.0
            &&& texts(final(warnings)@) == texts(old(warnings)@) + r.1
        },
{
    let elem_layout = match asdu_element_size(type_id) {
        Some(layout) => layout,
        None => {
            let mut w = String::from_str("unsupported ASDU type ");
            append_decimal(&mut w, type_id as u64);
            w.append(" — objects not decoded");
            warnings.push(w);
            assert(texts(warnings@) =~= texts(old(warnings)@).push(msg_unsupported_type(type_id)));
            return Vec::new();
        },
    };
    let elem_size: usize = elem_layout.0 + if elem_layout.1 { 7 } else { 0 };
    let ghost size = elem_size as int;
    let ghost total = spec_decode_objects(type_id, size, sq, num as int, body@, 0, 0, 0);

    let mut out: Vec<ParsedObject> = Vec::new();
    let mut offset: usize = 0;
    let mut base_ioa: u32 = 0;
    let mut i: usize = 0;
    while i < num
        invariant
            i <= num < 128,
            offset <= body.len(),
            elem_size == size,
            1 <= size <= 12,
            spec_element_size(type_id) == Some(elem_layout),
            spec_element_len(elem_layout) == size,
            base_ioa < 0x100_0000,
            texts(warnings@) == texts(old(warnings)@),
            total == spec_decode_objects(type_id, size, sq, num as int, body@, 0, 0, 0),
            total.0 == out@.map_values(|o: ParsedObject| object_model(o))
                + spec_decode_objects(type_id, size, sq, num as int, body@, i as int, offset as int, base_ioa).0,
            total.1 == spec_decode_objects(type_id, size, sq, num as int, body@, i as int, offset as int, base_ioa).1,
        decreases num - i,
    {
        let need_ioa = !sq || i == 0;
        if need_ioa {
            if body.len() - offset < 3 {
                let mut w = String::from_str("truncated at object #");
                append_decimal(&mut w, i as u64);
                w.append(": missing IOA");
                warnings.push(w);
                assert(out@.map_values(|o: ParsedObject| object_model(o)) + Seq::empty() =~= out@.map_values(|o: ParsedObject| object_model(o)));
                assert(texts(warnings@) =~= texts(old(warnings)@) + seq![msg_missing_ioa(i as int)]);
                return out;
            }
            base_ioa = read_le24(body, offset);
            offset = offset + 3;
        }
        let ioa: u32 = if sq { base_ioa + i as u32 } else { base_ioa };
        if body.len() - offset < elem_size {
            let mut w = String::from_str("truncated at object #");
            append_decimal(&mut w, i as u64);
            w.append(" (IOA=");
            append_decimal(&mut w, ioa as u64);
            w.append("): need ");
            append_decimal(&mut w, elem_size as u64);
            w.append(" more bytes");
            warnings.push(w);
            assert(out@.map_values(|o: ParsedObject| object_model(o)) + Seq::empty() =~= out@.map_values(|o: ParsedObject| object_model(o)));
            assert(texts(warnings@) =~= texts(old(warnings)@) + seq![msg_truncated_object(i as int, ioa, size)]);
            return out;
        }
        let elem = &body[offset..offset + elem_size];
        let (value, quality, timestamp) = decode_element(type_id, elem);
        let raw_hex = hex_of(elem);
        let obj = ParsedObject { ioa, value, quality, timestamp, raw_hex };
        let ghost before = out@.map_values(|o: ParsedObject| object_model(o));
        out.push(obj);
        assert(out@.map_values(|o: ParsedObject| object_model(o)) =~= before.push(object_model(obj)));
        assert(elem@ =~= body@.subrange(offset as int, offset + elem_size));
        offset = offset + elem_size;
        i = i + 1;
        proof {
            let ghost nxt = spec_decode_objects(type_id, size, sq, num as int, body@, i as int, offset as int, base_ioa);
            assert(before + (seq![object_model(obj)] + nxt.0) =~= before.push(object_model(obj)) + nxt.0);
        }
    }
    assert(out@.map_values(|o: ParsedObject| object_model(o)) + Seq::empty() =~= out@.map_values(|o: ParsedObject| object_model(o)));
    assert(texts(warnings@) =~= texts(old(warnings)@) + Seq::empty());
    out
}

// ---------------------------------------------------------------------------
// ASDU header and whole frame
// ---------------------------------------------------------------------------

/// Mnemonic of a type identification, or `Type<n>` for an unknown one.
pub open spec fn spec_type_label(t: u8) -> Seq<char> {
    match AsduTypeId::spec_from_code(t) {
        Some(x) => x.spec_name(),
        None => "Type"@ + dec_text(t as nat),
    }
}

/// Name of a cause of transmission, or `COT<n>` for an unknown one.
pub open spec fn spec_cot_name(c: u8) -> Seq<char> {
    match CauseOfTransmission::spec_from_code(c) {
        Some(x) => x.spec_name(),
        None => "COT"@ + dec_text(c as nat),
    }
}

pub open spec fn msg_header_truncated(n: int) -> Seq<char> {
    "ASDU header truncated: only "@ + dec_text(n as nat) + " bytes after APCI"@
}

/// Objects of a complete ASDU `d` (a whole APDU of at least 12 octets).
pub open spec fn spec_asdu_objects(d: Seq<u8>) -> (Seq<(u32, Option<DataPointValue>, Option<QualityFlags>, Option<Cp56Time2a>, Seq<char>)>, Seq<Seq<char>>) {
    match spec_element_size(d[6]) {
        None => (Seq::empty(), seq![msg_unsupported_type(d[6])]),
        Some(layout) => spec_decode_objects(d[6], spec_element_len(layout), d[7] >= 128, (d[7] % 128) as int, d.skip(12), 0, 0, 0),
    }
}

/// Warnings raised while decoding the ASDU of an I-frame `d`.
pub open spec fn spec_asdu_warnings(d: Seq<u8>) -> Seq<Seq<char>> {
    if d.len() < 12 {
        seq![msg_header_truncated(d.len() - 6)]
    } else {
        spec_asdu_objects(d).1
    }
}

/// A parsed ASDU is the reading of the ASDU of I-frame `d`.
pub open spec fn asdu_matches(a: ParsedAsdu, d: Seq<u8>) -> bool {
    if d.len() < 12 {
        &&& a.type_id == (if d.len() > 6 { d[6] } else { 0 })
        &&& a.type_label@ == "(truncated)"@
        &&& !a.sq
        &&& a.num_objects == 0
        &&& a.cot == 0
        &&& a.cot_name@ == Seq::<char>::empty()
        &&& !a.negative
        &&& !a.test
        &&& a.originator == 0
        &&& a.common_address == 0
        &&& a.objects@.len() == 0
    } else {
        &&& a.type_id == d[6]
        &&& a.type_label@ == spec_type_label(d[6])
        &&& a.sq == (d[7] >= 128)
        &&& a.num_objects == d[7] % 128
        &&& a.cot == d[8] % 64
        &&& a.cot_name@ == spec_cot_name(d[8] % 64)
        &&& a.negative == ((d[8] / 64) % 2 == 1)
        &&& a.test == (d[8] >= 128)
        &&& a.originator == d[9]
        &&& a.common_address == le16(d[10], d[11])
        &&& a.objects@.map_values(|o: ParsedObject| object_model(o)) == spec_asdu_objects(d).0
    }
}

/// Parse the ASDU portion of an I-frame, starting at byte 6.
fn parse_asdu(data: &[u8], warnings: &mut Vec<String>) -> (a: ParsedAsdu)
    requires
        data.len() >= 6,
    ensures
        asdu_matches(a, data@),
        texts(final(warnings)@) == texts(old(warnings)@) + spec_asdu_warnings(data@),
{
    if data.len() < 12 {
        let mut w = String::from_str("ASDU header truncated: only ");
        append_decimal(&mut w, (data.len() - 6) as u64);
        w.append(" bytes after APCI");
        warnings.push(w);
        assert(texts(warnings@) =~= texts(old(warnings)@) + spec_asdu_warnings(data@));
        let a = ParsedAsdu {
            type_id: if data.len() > 6 { data[6] } else { 0 },
            type_label: String::from_str("(truncated)"),
            sq: false,
            num_objects: 0,
            cot: 0,
            cot_name: String::new(),
            negative: false,
            test: false,
            originator: 0,
            common_address: 0,
            objects: Vec::new(),
        };
        return a;
    }
    let type_id = data[6];
    let vsq = data[7];
    let sq = vsq >= 128;
    let num_objects = vsq % 128;
    let cause_byte = data[8];
    let cot = cause_byte % 64;
    let negative = (cause_byte / 64) % 2 == 1;
    let test = cause_byte >= 128;
    let originator = data[9];
    let common_address = read_le16(data, 10);

    let type_label = match AsduTypeId::from_u8(type_id) {
        Some(t) => String::from_str(t.name()),
        None => {
            let mut s = String::from_str("Type");
            append_decimal(&mut s, type_id as u64);
            s
        },
    };
    let cot_name = match CauseOfTransmission::from_u8(cot) {
        Some(c) => String::from_str(c.name()),
        None => {
            let mut s = String::from_str("COT");
            append_decimal(&mut s, cot as u64);
            s
        },
    };
    let body = &data[12..data.len()];
    assert(body@ =~= data@.skip(12));
    let objects = decode_objects(type_id, sq, num_objects as usize, body, warnings);
    proof {
        if spec_element_size(type_id) is None {
            assert(objects@.map_values(|o: ParsedObject| object_model(o)) =~= Seq::empty());
        }
    }
    ParsedAsdu {
        type_id,
        type_label,
        sq,
        num_objects,
        cot,
        cot_name,
        negative,
        test,
        originator,
        common_address,
        objects,
    }
}

pub open spec fn msg_too_short(n: int) -> Seq<char> {
    "frame too short: "@ + dec_text(n as nat) + " bytes, need ≥ 6"@
}

pub open spec fn msg_invalid_start(b: u8) -> Seq<char> {
    "invalid start byte 0x"@ + hex_byte_text(b) + " (expected 0x68)"@
}

pub open spec fn msg_length_mismatch(apdu_length: u8, expected_total: int, got: int) -> Seq<char> {
    "APDU length field says "@ + dec_text(apdu_length as nat) + " bytes ("@ + dec_text(expected_total as nat)
        + " total), but got "@ + dec_text(got as nat) + " bytes"@
}

/// Warnings raised while parsing the APDU `d`.
pub open spec fn spec_frame_warnings(d: Seq<u8>) -> Seq<Seq<char>> {
    let lw = if 2 + d[1] as int != d.len() {
        seq![msg_length_mismatch(d[1], 2 + d[1] as int, d.len() as int)]
    } else {
        Seq::empty()
    };
    if d[2] % 2 == 0 { lw + spec_asdu_warnings(d) } else { lw }
}

/// The APCI view is the classification `ft`.
pub open spec fn apci_matches(a: ParsedApci, ft: FrameType) -> bool {
    match ft {
        FrameType::IFrame { send_seq, recv_seq } => a matches ParsedApci::I { send_seq: s, recv_seq: r } && s == send_seq && r == recv_seq,
        FrameType::SFrame { recv_seq } => a matches ParsedApci::S { recv_seq: r } && r == recv_seq,
        FrameType::UFrame { kind } => a matches ParsedApci::U { kind: k, name } && k == kind && name@ == kind.spec_name(),
    }
}

/// A parsed frame is the reading of APDU `d` classified as `ft`.
pub open spec fn frame_matches(f: ParsedFrame, d: Seq<u8>, ft: FrameType) -> bool {
    &&& f.raw_hex@ == hex_dump_text(d)
    &&& f.length == d.len()
    &&& f.start_byte == d[0]
    &&& f.apdu_length == d[1]
    &&& f.control_field@ == d.subrange(2, 6)
    &&& apci_matches(f.apci, ft)
    &&& (f.asdu is Some <==> ft is IFrame)
    &&& (f.asdu matches Some(a) ==> asdu_matches(a, d))
    &&& texts(f.warnings@) == spec_frame_warnings(d)
}

/// Parse a complete IEC 104 APDU (APCI + optional ASDU + objects).
///
/// Always returns a `ParsedFrame` for an APDU with a valid start and a
/// known control field; soft errors (length mismatch, unknown ASDU type,
/// truncated objects) are accumulated in `warnings` rather than
/// short-circuiting, so the UI can still show whatever was decoded.
pub fn parse_frame_full(data: &[u8]) -> (r: Result<ParsedFrame, String>)
    ensures
        data.len() < 6 ==> (r matches Err(e) && e@ == msg_too_short(data.len() as int)),
        data.len() >= 6 && data[0] != 0x68 ==> (r matches Err(e) && e@ == msg_invalid_start(data[0])),
        data.len() >= 6 && data[0] == 0x68 ==> match spec_parse_apci(data@) {
            Err(fe) => r matches Err(e) && e@ == fe.spec_message(),
            Ok(ft) => r matches Ok(f) && frame_matches(f, data@, ft),
        },
{
    if data.len() < 6 {
        let mut e = String::from_str("frame too short: ");
        append_decimal(&mut e, data.len() as u64);
        e.append(" bytes, need ≥ 6");
        return Err(e);
    }
    if data[0] != 0x68 {
        let mut e = String::from_str("invalid start byte 0x");
        push_hex_byte(&mut e, data[0]);
        e.append(" (expected 0x68)");
        return Err(e);
    }

    let mut warnings: Vec<String> = Vec::new();
    let apdu_length = data[1];
    let expected_total: usize = 2 + apdu_length as usize;
    if expected_total != data.len() {
        let mut w = String::from_str("APDU length field says ");
        append_decimal(&mut w, apdu_length as u64);
        w.append(" bytes (");
        append_decimal(&mut w, expected_total as u64);
        w.append(" total), but got ");
        append_decimal(&mut w, data.len() as u64);
        w.append(" bytes");
        warnings.push(w);
    }
    let ghost lw = texts(warnings@);
    assert(lw =~= if 2 + data@[1] as int != data@.len() {
        seq![msg_length_mismatch(data@[1], 2 + data@[1] as int, data@.len() as int)]
    } else {
        Seq::empty()
    });

    let control_field = [data[2], data[3], data[4], data[5]];
    assert(control_field@ =~= data@.subrange(2, 6));

    let frame = match parse_apci(data) {
        Ok(f) => f,
        Err(e) => return Err(e.message()),
    };
    let apci = match frame {
        FrameType::IFrame { send_seq, recv_seq } => ParsedApci::I { send_seq, recv_seq },
        FrameType::SFrame { recv_seq } => ParsedApci::S { recv_seq },
        FrameType::UFrame { kind } => ParsedApci::U { kind, name: String::from_str(kind.name()) },
    };

    let is_i = match frame {
        FrameType::IFrame { .. } => true,
        _ => false,
    };
    let asdu = if is_i {
        Some(parse_asdu(data, &mut warnings))
    } else {
        None
    };
    assert(texts(warnings@) =~= spec_frame_warnings(data@));

    Ok(ParsedFrame {
        raw_hex: hex_of(data),
        length: data.len(),
        start_byte: data[0],
        apdu_length,
        control_field,
        apci,
        asdu,
        warnings,
    })
}

} // verus!
