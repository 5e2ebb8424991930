//! Properties that tie the operations of the library together: what the
//! master reads back of what the slave sends, what a command does to the
//! station it addresses, how stores keep their entries apart, and what
//! repeated transmissions leave out.
use crate::data_point::{key_of, with_seq, with_value_at, DataPoint, DataPointValue};
use crate::decode::{
    frame_matches, i16_of, i32_of, le24, le32, object_model, spec_decode_element, spec_decode_objects, spec_element_len,
    spec_element_size, spec_frame_warnings, Cp56Time2a, ParsedFrame, ParsedObject,
};
use crate::frame::{spec_parse_apci, FrameError, FrameType};
use crate::types::QualityFlags;
use crate::frame::le16;
use crate::master::{
    ca_octets, command_head, command_octet, ioa_octets, qos_octet, spec_double_command, spec_setpoint_float_command,
    spec_setpoint_normalized, spec_setpoint_scaled, spec_single_command, word32_octets, word_of_i16,
};
use crate::slave::{spec_batch_added, station_point_set, Station};
use crate::data_point::{seq_to_map, sorted_by_key, lemma_map_contains, DataPointMap};
use crate::slave_link::spec_send;
use crate::parse::{spec_hex_payload, spec_hex_scan, hex_pairs, hex_value, is_hex_digit, is_hex_separator, digit_value};
use crate::text::{hex_byte_text, hex_char, hex_dump_text};
use crate::slave_link::{cmd_target, cmd_value, frame_ca, frame_ioa, is_execute_command, spec_command_reply, spec_write_back, table_after, echo_cot};
use crate::received::{received_matches, spec_master_points, spec_stored_type, view_insert, ReceivedAsdu};
use crate::slave_link::{bcr_octet, spec_i_frame, spec_point_frame, spec_point_payload, word_of_i32};
use crate::types::AsduTypeId;
use crate::frame::spec_next_frame;
use crate::master::{spec_sbo_step, ControlResponse, SboEvent, SboPhase};
use crate::received::{frame_stored, spec_store_points, stored_after, received_point};
use crate::slave_link::{ctr_after, spec_ci_frames, spec_gi_frames};
use vstd::prelude::*;

verus! {

/// Values that survive a trip over the wire unchanged: a double point uses
/// only two bits, a step position is a seven-bit signed value (-64..=63),
/// a counter's sequence number has five bits.
pub open spec fn wire_exact(v: DataPointValue) -> bool {
    match v {
        DataPointValue::DoublePoint { value } => value <= 3,
        DataPointValue::StepPosition { value, .. } => -64 <= value <= 63,
        DataPointValue::IntegratedTotal { sequence, .. } => sequence < 32,
        _ => true,
    }
}

/// The monitoring type (without time tag) a value is sent as.
pub open spec fn sent_type(v: DataPointValue) -> AsduTypeId {
    match v {
        DataPointValue::SinglePoint { .. } => AsduTypeId::MSpNa1,
        DataPointValue::DoublePoint { .. } => AsduTypeId::MDpNa1,
        DataPointValue::StepPosition { .. } => AsduTypeId::MStNa1,
        DataPointValue::Bitstring { .. } => AsduTypeId::MBoNa1,
        DataPointValue::Normalized { .. } => AsduTypeId::MMeNa1,
        DataPointValue::Scaled { .. } => AsduTypeId::MMeNb1,
        DataPointValue::ShortFloat { .. } => AsduTypeId::MMeNc1,
        DataPointValue::IntegratedTotal { .. } => AsduTypeId::MItNa1,
    }
}

proof fn lemma_ca_octets(ca: u16)
    ensures
        le16(ca_octets(ca)[0], ca_octets(ca)[1]) == ca,
{
}

proof fn lemma_ioa_octets(ioa: u32)
    requires
        ioa < 0x100_0000,
    ensures
        le24(ioa_octets(ioa)[0], ioa_octets(ioa)[1], ioa_octets(ioa)[2]) == ioa,
{
}

proof fn lemma_word32_octets(w: u32)
    ensures
        le32(word32_octets(w)[0], word32_octets(w)[1], word32_octets(w)[2], word32_octets(w)[3]) == w,
{
}

proof fn lemma_word16(v: i16)
    ensures
        i16_of(le16((word_of_i16(v) % 256) as u8, (word_of_i16(v) / 256) as u8)) == v,
{
}

proof fn lemma_word32_signed(v: i32)
    ensures
        i32_of(word_of_i32(v)) == v,
{
}

/// What the master decodes from the first octets of an element is the
/// value the slave encoded there.
proof fn lemma_payload_decodes(v: DataPointValue)
    requires
        wire_exact(v),
    ensures
        spec_element_size(spec_point_payload(v).0) matches Some(l)
            && l.0 + (if l.1 { 7int } else { 0int }) == spec_point_payload(v).1.len()
            && !l.1,
        crate::received::spec_master_value(spec_point_payload(v).0, spec_point_payload(v).1) == Some(v),
        spec_stored_type(spec_point_payload(v).0) == sent_type(v),
{
    let e = spec_point_payload(v).1;
    match v {
        DataPointValue::Bitstring { value } => {
            lemma_word32_octets(value);
        },
        DataPointValue::Normalized { raw } => {
            lemma_word16(raw);
        },
        DataPointValue::Scaled { value } => {
            lemma_word16(value);
        },
        DataPointValue::ShortFloat { bits } => {
            lemma_word32_octets(bits);
        },
        DataPointValue::IntegratedTotal { value, carry, sequence } => {
            lemma_word32_octets(word_of_i32(value));
            lemma_word32_signed(value);
            let b = bcr_octet(carry, sequence);
            assert(b % 32 == sequence);
            assert(((b / 32) % 2 == 1) == carry);
        },
        _ => {},
    }
}

/// A point frame the slave sends (GI reply, spontaneous or cyclic
/// transmission) is read by the master as one point: the same station,
/// IOA and value, filed under the untimestamped type of the value's kind.
pub proof fn lemma_point_frame_roundtrip(v: DataPointValue, cot: u8, ca: u16, ioa: u32, ssn: u8, rsn: u8, r: ReceivedAsdu)
    requires
        wire_exact(v),
        ioa < 0x100_0000,
        received_matches(r, spec_point_frame(v, cot, ca, ioa, ssn, rsn)),
    ensures
        r matches ReceivedAsdu::Data { ca: c, asdu_type: t, points } && c == ca && t == sent_type(v)
            && points@ == seq![(ioa, v)],
{
    let t = spec_point_payload(v).0;
    let vals = spec_point_payload(v).1;
    let d = spec_point_frame(v, cot, ca, ioa, ssn, rsn);
    lemma_payload_decodes(v);
    lemma_ca_octets(ca);
    lemma_ioa_octets(ioa);
    assert(d == spec_i_frame(t, cot, ca, ioa, vals, ssn, rsn));
    assert(d.len() == 15 + vals.len());
    assert(d[6] == t);
    assert(d[7] == 1);
    assert(d[10] == ca_octets(ca)[0] && d[11] == ca_octets(ca)[1]);
    assert(d[12] == ioa_octets(ioa)[0] && d[13] == ioa_octets(ioa)[1] && d[14] == ioa_octets(ioa)[2]);
    let l = spec_element_size(t)->0;
    let size = l.0 + if l.1 { 7int } else { 0int };
    assert(d.subrange(15, 15 + size) =~= vals);
    let pts = spec_master_points(t, size, false, 1, d, 0, 12, 0);
    assert(spec_master_points(t, size, false, 1, d, 1, 15 + size, ioa) =~= Seq::<(u32, DataPointValue)>::empty());
    assert(pts =~= seq![(ioa, v)]);
}

/// The station table after a command that wrote `v` into the point `p` of
/// station `ca` at time `ts`.
pub open spec fn point_written(tab: Map<u16, Station>, tab2: Map<u16, Station>, ca: u16, p: DataPoint, v: DataPointValue, ts: i64) -> bool {
    &&& tab2.dom() == tab.dom()
    &&& forall|c: u16| c != ca && #[trigger] tab.contains_key(c) ==> tab2[c] == tab[c]
    &&& station_point_set(tab[ca], tab2[ca], key_of(p), with_value_at(p, v, Some(ts)))
}

proof fn lemma_write_back_is(tab: Map<u16, Station>, tab2: Map<u16, Station>, d: Seq<u8>, ts: i64, ca: u16, p: DataPoint, v: DataPointValue)
    requires
        spec_write_back(tab, d) == Some((ca, p, v)),
        table_after(tab, tab2, d, ts),
    ensures
        point_written(tab, tab2, ca, p, v, ts),
{
}

proof fn lemma_execute_writes(tab: Map<u16, Station>, tab2: Map<u16, Station>, d: Seq<u8>, ts: i64, ca: u16, ioa: u32, v: DataPointValue)
    requires
        is_execute_command(d),
        frame_ca(d) == ca,
        frame_ioa(d) == ioa,
        cmd_target(tab, ca, ioa, d[6]) is Some,
        cmd_value(d[6], d, cmd_target(tab, ca, ioa, d[6])->0.value) == Some(v),
        table_after(tab, tab2, d, ts),
    ensures
        point_written(tab, tab2, ca, cmd_target(tab, ca, ioa, d[6])->0, v, ts),
{
    let p = cmd_target(tab, ca, ioa, d[6])->0;
    assert(spec_write_back(tab, d) == Some((ca, p, v)));
    lemma_write_back_is(tab, tab2, d, ts, ca, p, v);
}

proof fn lemma_command_frame(d: Seq<u8>, len: u8, t: u8, cot: u8, ca: u16, ioa: u32)
    requires
        ioa < 0x100_0000,
        d.len() >= 16,
        d.subrange(0, 15) == command_head(len, t, cot, ca, ioa),
    ensures
        d[0] == 0x68 && d[2] == 0 && d[6] == t,
        frame_ca(d) == ca,
        frame_ioa(d) == ioa,
{
    lemma_ca_octets(ca);
    lemma_ioa_octets(ioa);
    assert(d[0] == d.subrange(0, 15)[0]);
    assert(d[2] == d.subrange(0, 15)[2]);
    assert(d[6] == d.subrange(0, 15)[6]);
    assert(d[10] == d.subrange(0, 15)[10] && d[11] == d.subrange(0, 15)[11]);
    assert(d[12] == d.subrange(0, 15)[12] && d[13] == d.subrange(0, 15)[13] && d[14] == d.subrange(0, 15)[14]);
}

proof fn lemma_single_command_writeback_frame(ca: u16, ioa: u32, value: bool, qu: u8, cot: u8)
    requires
        ioa < 0x100_0000,
    ensures
        is_execute_command(spec_single_command(ca, ioa, value, false, qu, cot)),
        frame_ca(spec_single_command(ca, ioa, value, false, qu, cot)) == ca,
        frame_ioa(spec_single_command(ca, ioa, value, false, qu, cot)) == ioa,
        spec_single_command(ca, ioa, value, false, qu, cot)[6] == 45,
        forall|old: DataPointValue| cmd_value(45, spec_single_command(ca, ioa, value, false, qu, cot), old) == Some(DataPointValue::SinglePoint { value }),
{
    let d = spec_single_command(ca, ioa, value, false, qu, cot);
    assert(d.subrange(0, 15) =~= command_head(0x0E, 45, cot, ca, ioa));
    lemma_command_frame(d, 0x0E, 45, cot, ca, ioa);
    assert(d[15] == command_octet(if value { 1int } else { 0int }, qu, false));
}

/// An executed single command (as the master builds it) sets the single
/// point it addresses at the slave to the commanded state.
pub proof fn lemma_single_command_writeback(
    ca: u16, ioa: u32, value: bool, qu: u8, cot: u8,
    tab: Map<u16, Station>, tab2: Map<u16, Station>, ts: i64,
)
    requires
        ioa < 0x100_0000,
        cmd_target(tab, ca, ioa, 45) is Some,
        table_after(tab, tab2, spec_single_command(ca, ioa, value, false, qu, cot), ts),
    ensures
        point_written(tab, tab2, ca, cmd_target(tab, ca, ioa, 45)->0, DataPointValue::SinglePoint { value }, ts),
{
    lemma_single_command_writeback_frame(ca, ioa, value, qu, cot);
    lemma_execute_writes(tab, tab2, spec_single_command(ca, ioa, value, false, qu, cot), ts, ca, ioa, DataPointValue::SinglePoint { value });
}

proof fn lemma_double_command_writeback_frame(ca: u16, ioa: u32, value: u8, qu: u8, cot: u8)
    requires
        ioa < 0x100_0000,
    ensures
        is_execute_command(spec_double_command(ca, ioa, value, false, qu, cot)),
        frame_ca(spec_double_command(ca, ioa, value, false, qu, cot)) == ca,
        frame_ioa(spec_double_command(ca, ioa, value, false, qu, cot)) == ioa,
        spec_double_command(ca, ioa, value, false, qu, cot)[6] == 46,
        forall|old: DataPointValue| cmd_value(46, spec_double_command(ca, ioa, value, false, qu, cot), old) == Some(DataPointValue::DoublePoint { value: value % 4 }),
{
    let d = spec_double_command(ca, ioa, value, false, qu, cot);
    assert(d.subrange(0, 15) =~= command_head(0x0E, 46, cot, ca, ioa));
    lemma_command_frame(d, 0x0E, 46, cot, ca, ioa);
    assert(d[15] == command_octet((value % 4) as int, qu, false));
}

/// An executed double command sets the double point it addresses to the
/// commanded state (its two low bits).
pub proof fn lemma_double_command_writeback(
    ca: u16, ioa: u32, value: u8, qu: u8, cot: u8,
    tab: Map<u16, Station>, tab2: Map<u16, Station>, ts: i64,
)
    requires
        ioa < 0x100_0000,
        cmd_target(tab, ca, ioa, 46) is Some,
        table_after(tab, tab2, spec_double_command(ca, ioa, value, false, qu, cot), ts),
    ensures
        point_written(tab, tab2, ca, cmd_target(tab, ca, ioa, 46)->0, DataPointValue::DoublePoint { value: value % 4 }, ts),
{
    lemma_double_command_writeback_frame(ca, ioa, value, qu, cot);
    lemma_execute_writes(tab, tab2, spec_double_command(ca, ioa, value, false, qu, cot), ts, ca, ioa, DataPointValue::DoublePoint { value: value % 4 });
}

proof fn lemma_setpoint_scaled_writeback_frame(ca: u16, ioa: u32, value: i16, ql: u8, cot: u8)
    requires
        ioa < 0x100_0000,
    ensures
        is_execute_command(spec_setpoint_scaled(ca, ioa, value, false, ql, cot)),
        frame_ca(spec_setpoint_scaled(ca, ioa, value, false, ql, cot)) == ca,
        frame_ioa(spec_setpoint_scaled(ca, ioa, value, false, ql, cot)) == ioa,
        spec_setpoint_scaled(ca, ioa, value, false, ql, cot)[6] == 49,
        forall|old: DataPointValue| cmd_value(49, spec_setpoint_scaled(ca, ioa, value, false, ql, cot), old) == Some(DataPointValue::Scaled { value }),
{
    let d = spec_setpoint_scaled(ca, ioa, value, false, ql, cot);
    assert(d.subrange(0, 15) =~= command_head(0x10, 49, cot, ca, ioa));
    lemma_command_frame(d, 0x10, 49, cot, ca, ioa);
    lemma_word16(value);
    assert(d[17] == qos_octet(ql, false));
}

/// An executed scaled set-point sets the scaled measured value it
/// addresses to the commanded value.
pub proof fn lemma_setpoint_scaled_writeback(
    ca: u16, ioa: u32, value: i16, ql: u8, cot: u8,
    tab: Map<u16, Station>, tab2: Map<u16, Station>, ts: i64,
)
    requires
        ioa < 0x100_0000,
        cmd_target(tab, ca, ioa, 49) is Some,
        table_after(tab, tab2, spec_setpoint_scaled(ca, ioa, value, false, ql, cot), ts),
    ensures
        point_written(tab, tab2, ca, cmd_target(tab, ca, ioa, 49)->0, DataPointValue::Scaled { value }, ts),
{
    lemma_setpoint_scaled_writeback_frame(ca, ioa, value, ql, cot);
    lemma_execute_writes(tab, tab2, spec_setpoint_scaled(ca, ioa, value, false, ql, cot), ts, ca, ioa, DataPointValue::Scaled { value });
}

proof fn lemma_setpoint_normalized_writeback_frame(ca: u16, ioa: u32, nva: i16, ql: u8, cot: u8)
    requires
        ioa < 0x100_0000,
    ensures
        is_execute_command(spec_setpoint_normalized(ca, ioa, nva, false, ql, cot)),
        frame_ca(spec_setpoint_normalized(ca, ioa, nva, false, ql, cot)) == ca,
        frame_ioa(spec_setpoint_normalized(ca, ioa, nva, false, ql, cot)) == ioa,
        spec_setpoint_normalized(ca, ioa, nva, false, ql, cot)[6] == 48,
        forall|old: DataPointValue| cmd_value(48, spec_setpoint_normalized(ca, ioa, nva, false, ql, cot), old) == Some(DataPointValue::Normalized { raw: nva }),
{
    let d = spec_setpoint_normalized(ca, ioa, nva, false, ql, cot);
    assert(d.subrange(0, 15) =~= command_head(0x10, 48, cot, ca, ioa));
    lemma_command_frame(d, 0x10, 48, cot, ca, ioa);
    lemma_word16(nva);
    assert(d[17] == qos_octet(ql, false));
}

/// An executed normalized set-point sets the normalized measured value it
/// addresses to the commanded NVA word.
pub proof fn lemma_setpoint_normalized_writeback(
    ca: u16, ioa: u32, nva: i16, ql: u8, cot: u8,
    tab: Map<u16, Station>, tab2: Map<u16, Station>, ts: i64,
)
    requires
        ioa < 0x100_0000,
        cmd_target(tab, ca, ioa, 48) is Some,
        table_after(tab, tab2, spec_setpoint_normalized(ca, ioa, nva, false, ql, cot), ts),
    ensures
        point_written(tab, tab2, ca, cmd_target(tab, ca, ioa, 48)->0, DataPointValue::Normalized { raw: nva }, ts),
{
    lemma_setpoint_normalized_writeback_frame(ca, ioa, nva, ql, cot);
    lemma_execute_writes(tab, tab2, spec_setpoint_normalized(ca, ioa, nva, false, ql, cot), ts, ca, ioa, DataPointValue::Normalized { raw: nva });
}

proof fn lemma_setpoint_float_writeback_frame(ca: u16, ioa: u32, bits: u32, ql: u8, cot: u8)
    requires
        ioa < 0x100_0000,
    ensures
        is_execute_command(spec_setpoint_float_command(ca, ioa, bits, false, ql, cot)),
        frame_ca(spec_setpoint_float_command(ca, ioa, bits, false, ql, cot)) == ca,
        frame_ioa(spec_setpoint_float_command(ca, ioa, bits, false, ql, cot)) == ioa,
        spec_setpoint_float_command(ca, ioa, bits, false, ql, cot)[6] == 50,
        forall|old: DataPointValue| cmd_value(50, spec_setpoint_float_command(ca, ioa, bits, false, ql, cot), old) == Some(DataPointValue::ShortFloat { bits }),
{
    let d = spec_setpoint_float_command(ca, ioa, bits, false, ql, cot);
    assert(d.subrange(0, 15) =~= command_head(0x12, 50, cot, ca, ioa));
    lemma_command_frame(d, 0x12, 50, cot, ca, ioa);
    lemma_word32_octets(bits);
    assert(d[19] == qos_octet(ql, false));
}

/// An executed short-float set-point sets the float measured value it
/// addresses to the commanded bits.
pub proof fn lemma_setpoint_float_writeback(
    ca: u16, ioa: u32, bits: u32, ql: u8, cot: u8,
    tab: Map<u16, Station>, tab2: Map<u16, Station>, ts: i64,
)
    requires
        ioa < 0x100_0000,
        cmd_target(tab, ca, ioa, 50) is Some,
        table_after(tab, tab2, spec_setpoint_float_command(ca, ioa, bits, false, ql, cot), ts),
    ensures
        point_written(tab, tab2, ca, cmd_target(tab, ca, ioa, 50)->0, DataPointValue::ShortFloat { bits }, ts),
{
    lemma_setpoint_float_writeback_frame(ca, ioa, bits, ql, cot);
    lemma_execute_writes(tab, tab2, spec_setpoint_float_command(ca, ioa, bits, false, ql, cot), ts, ca, ioa, DataPointValue::ShortFloat { bits });
}

/// A select (the first half of select-before-operate) changes no station,
/// and is answered with its confirmation alone.
pub proof fn lemma_select_changes_nothing(tab: Map<u16, Station>, tab2: Map<u16, Station>, d: Seq<u8>, ts: i64)
    requires
        d.len() >= 12,
        45 <= d[6] <= 50,
        d.len() >= crate::slave_link::cmd_min_len(d[6]),
        d[crate::slave_link::cmd_min_len(d[6]) - 1] >= 128,
        table_after(tab, tab2, d, ts),
    ensures
        tab2 == tab,
        spec_command_reply(tab, d) == echo_cot(d, 7),
{
}

/// After an executed command, the spontaneous frame the slave sends
/// carries the value the command wrote, so the master reads that value
/// back for the addressed IOA.
pub proof fn lemma_writeback_reported(tab: Map<u16, Station>, d: Seq<u8>)
    requires
        is_execute_command(d),
        spec_write_back(tab, d) is Some,
    ensures
        ({
            let (ca, p, v) = spec_write_back(tab, d)->0;
            spec_command_reply(tab, d) == echo_cot(d, 7) + echo_cot(d, 10) + spec_point_frame(v, 3, ca, frame_ioa(d), 0, 0)
        }),
{
}

// ---------------------------------------------------------------------------
// Stores
// ---------------------------------------------------------------------------

/// After a point is stored, reading its key gives it back with the new
/// stamp, and every other key, the same IOA under another type included,
/// reads as before.
pub proof fn lemma_point_store_read_back(
    before: Map<(u32, AsduTypeId), DataPoint>,
    after: Map<(u32, AsduTypeId), DataPoint>,
    p: DataPoint,
    stamp: u64,
    k: (u32, AsduTypeId),
)
    requires
        after == before.insert(key_of(p), with_seq(p, stamp)),
    ensures
        after.contains_key(key_of(p)),
        after[key_of(p)] == with_seq(p, stamp),
        k != key_of(p) ==> (after.contains_key(k) == before.contains_key(k)),
        k != key_of(p) && before.contains_key(k) ==> after[k] == before[k],
{
}

/// A point stamped above `since` is among the points `changed_since(since)`
/// returns.
pub proof fn lemma_changed_since_sees(m: DataPointMap, k: (u32, AsduTypeId), since: u64)
    requires
        m.wf(),
        m@.contains_key(k),
        m@[k].update_seq > since,
    ensures
        m.entries().filter(|q: DataPoint| q.update_seq > since).contains(m@[k]),
{
    lemma_map_contains(m.entries(), k);
    let i = choose|i: int| 0 <= i < m.entries().len() && m.entries()[i] == seq_to_map(m.entries())[k]
        && key_of(#[trigger] m.entries()[i]) == k;
    m.entries().filter_lemma(|q: DataPoint| q.update_seq > since);
    assert(m.entries().contains(m@[k]));
}

/// Storing under one CA leaves every other CA's points as they were, and
/// within the CA stored to, every other key as it was.
pub proof fn lemma_cas_kept_apart(
    v: Map<u16, Map<(u32, AsduTypeId), DataPoint>>,
    ca: u16,
    p: DataPoint,
    other: u16,
    k: (u32, AsduTypeId),
)
    ensures
        view_insert(v, ca, p).contains_key(ca),
        view_insert(v, ca, p)[ca].contains_key(key_of(p)),
        view_insert(v, ca, p)[ca][key_of(p)] == p,
        other != ca ==> view_insert(v, ca, p).contains_key(other) == v.contains_key(other),
        other != ca && v.contains_key(other) ==> view_insert(v, ca, p)[other] == v[other],
        k != key_of(p) && v.contains_key(ca) ==> (view_insert(v, ca, p)[ca].contains_key(k) == v[ca].contains_key(k)
            && (v[ca].contains_key(k) ==> view_insert(v, ca, p)[ca][k] == v[ca][k])),
{
}

/// A station added to a table that lacked its CA is there afterwards, so
/// adding a second station with the same CA is refused.
pub proof fn lemma_station_added_once(before: Map<u16, Station>, after: Map<u16, Station>, st: Station)
    requires
        !before.contains_key(st.common_address),
        after == before.insert(st.common_address, st),
    ensures
        after.contains_key(st.common_address),
        after[st.common_address] == st,
{
}

/// A batch of a type none of whose IOAs the station holds yet adds every
/// one of its points, whatever other types those IOAs hold.
pub proof fn lemma_batch_adds_all(m: Map<(u32, AsduTypeId), DataPoint>, start: u32, n: nat, t: AsduTypeId)
    requires
        forall|i: int| 0 <= i < n ==> !m.contains_key((#[trigger] (start + i) as u32, t)),
    ensures
        spec_batch_added(m, start, n, t) == n,
    decreases n,
{
    if n > 0 {
        assert(!m.contains_key(((start + (n - 1)) as u32, t)));
        lemma_batch_adds_all(m, start, (n - 1) as nat, t);
    }
}

// ---------------------------------------------------------------------------
// Repeated transmission
// ---------------------------------------------------------------------------

/// IOAs of a sequence of points are pairwise distinct.
pub open spec fn distinct_ioas(pts: Seq<DataPoint>) -> bool {
    forall|i: int, j: int| 0 <= i < j < pts.len() ==> (#[trigger] pts[i]).ioa != (#[trigger] pts[j]).ioa
}

proof fn lemma_send_records(
    memo: Map<u32, Seq<char>>, ssn: u8, rsn: u8, ca: u16,
    pts: Seq<DataPoint>, texts: Seq<Seq<char>>, only_changed: bool, n: nat,
)
    requires
        n <= pts.len(),
        pts.len() == texts.len(),
        distinct_ioas(pts),
    ensures
        forall|i: int| 0 <= i < n ==> spec_send(memo, ssn, rsn, ca, pts, texts, only_changed, n).1.contains_key(#[trigger] pts[i].ioa)
            && spec_send(memo, ssn, rsn, ca, pts, texts, only_changed, n).1[pts[i].ioa] == texts[i],
    decreases n,
{
    if n > 0 {
        lemma_send_records(memo, ssn, rsn, ca, pts, texts, only_changed, (n - 1) as nat);
        assert forall|i: int| 0 <= i < n implies spec_send(memo, ssn, rsn, ca, pts, texts, only_changed, n).1.contains_key(#[trigger] pts[i].ioa)
            && spec_send(memo, ssn, rsn, ca, pts, texts, only_changed, n).1[pts[i].ioa] == texts[i] by {
            if i < n - 1 {
                assert(pts[i].ioa != pts[n - 1].ioa);
            }
        }
    }
}

proof fn lemma_send_skips_recorded(
    memo: Map<u32, Seq<char>>, ssn: u8, rsn: u8, ca: u16,
    pts: Seq<DataPoint>, texts: Seq<Seq<char>>, n: nat,
)
    requires
        n <= pts.len(),
        pts.len() == texts.len(),
        forall|i: int| 0 <= i < pts.len() ==> memo.contains_key(#[trigger] pts[i].ioa) && memo[pts[i].ioa] == texts[i],
    ensures
        spec_send(memo, ssn, rsn, ca, pts, texts, true, n) == (Seq::<u8>::empty(), memo, ssn, rsn),
    decreases n,
{
    if n > 0 {
        lemma_send_skips_recorded(memo, ssn, rsn, ca, pts, texts, (n - 1) as nat);
        assert(memo.contains_key(pts[n - 1].ioa));
    }
}

/// Offering the same points (with the same texts) a second time sends
/// nothing when only changes are sent: cyclic transmission repeats no
/// value it already sent for an IOA.
pub proof fn lemma_resend_sends_nothing(
    memo: Map<u32, Seq<char>>, ssn: u8, rsn: u8, ca: u16,
    pts: Seq<DataPoint>, texts: Seq<Seq<char>>, only_changed: bool,
)
    requires
        pts.len() == texts.len(),
        distinct_ioas(pts),
    ensures
        ({
            let first = spec_send(memo, ssn, rsn, ca, pts, texts, only_changed, pts.len());
            spec_send(first.1, first.2, first.3, ca, pts, texts, true, pts.len())
                == (Seq::<u8>::empty(), first.1, first.2, first.3)
        }),
{
    let first = spec_send(memo, ssn, rsn, ca, pts, texts, only_changed, pts.len());
    lemma_send_records(memo, ssn, rsn, ca, pts, texts, only_changed, pts.len());
    lemma_send_skips_recorded(first.1, first.2, first.3, ca, pts, texts, pts.len());
}

// ---------------------------------------------------------------------------
// Hex text
// ---------------------------------------------------------------------------

/// The hex digits of `b`, two per byte.
pub open spec fn hex_digits_of(b: Seq<u8>) -> Seq<char>
    decreases b.len(),
{
    if b.len() == 0 { Seq::empty() } else { hex_digits_of(b.drop_last()) + hex_byte_text(b.last()) }
}

proof fn lemma_hex_char(d: int)
    requires
        0 <= d < 16,
    ensures
        is_hex_digit(hex_char(d)),
        hex_value(hex_char(d)) == d,
{
}

proof fn lemma_scan_append(a: Seq<char>, c: Seq<char>)
    requires
        spec_hex_scan(a) is Ok,
        forall|i: int| 0 <= i < c.len() ==> is_hex_digit(#[trigger] c[i]),
    ensures
        spec_hex_scan(a + c) == Ok::<Seq<char>, char>(spec_hex_scan(a)->Ok_0 + c),
    decreases c.len(),
{
    if c.len() == 0 {
        assert(a + c =~= a);
        assert(spec_hex_scan(a)->Ok_0 + c =~= spec_hex_scan(a)->Ok_0);
    } else {
        lemma_scan_append(a, c.drop_last());
        assert((a + c).drop_last() =~= a + c.drop_last());
        assert((a + c).last() == c.last());
        assert(spec_hex_scan(a)->Ok_0 + c =~= (spec_hex_scan(a)->Ok_0 + c.drop_last()).push(c.last()));
    }
}

proof fn lemma_scan_dump(b: Seq<u8>)
    ensures
        spec_hex_scan(hex_dump_text(b)) == Ok::<Seq<char>, char>(hex_digits_of(b)),
        hex_digits_of(b).len() == 2 * b.len(),
        forall|i: int| 0 <= i < hex_digits_of(b).len() ==> is_hex_digit(#[trigger] hex_digits_of(b)[i]),
    decreases b.len(),
{
    if b.len() > 0 {
        let p = b.drop_last();
        lemma_scan_dump(p);
        let h = hex_byte_text(b.last());
        lemma_hex_char(b.last() as int / 16);
        lemma_hex_char(b.last() as int % 16);
        if b.len() == 1 {
            assert(hex_dump_text(b) == h);
            assert(hex_dump_text(p) =~= Seq::<char>::empty());
            assert(Seq::<char>::empty() + h =~= h);
            lemma_scan_append(Seq::<char>::empty(), h);
            assert(hex_digits_of(b) =~= h);
        } else {
            let pre = hex_dump_text(p) + seq![' '];
            assert(hex_dump_text(b) == pre + h);
            assert(pre.drop_last() =~= hex_dump_text(p));
            assert(is_hex_separator(' '));
            assert(spec_hex_scan(pre) == spec_hex_scan(hex_dump_text(p)));
            lemma_scan_append(pre, h);
        }
        assert forall|i: int| 0 <= i < hex_digits_of(b).len() implies is_hex_digit(#[trigger] hex_digits_of(b)[i]) by {
            if i < hex_digits_of(p).len() {
                assert(hex_digits_of(b)[i] == hex_digits_of(p)[i]);
            } else {
                assert(hex_digits_of(b)[i] == h[i - hex_digits_of(p).len()]);
            }
        }
    }
}

proof fn lemma_pairs_of_digits(b: Seq<u8>)
    ensures
        hex_pairs(hex_digits_of(b)) == b,
    decreases b.len(),
{
    if b.len() > 0 {
        let p = b.drop_last();
        lemma_pairs_of_digits(p);
        lemma_scan_dump(p);
        lemma_scan_dump(b);
        lemma_hex_char(b.last() as int / 16);
        lemma_hex_char(b.last() as int % 16);
        let hp = hex_digits_of(p);
        let hb = hex_digits_of(b);
        assert forall|i: int| 0 <= i < b.len() implies #[trigger] hex_pairs(hb)[i] == b[i] by {
            if i < p.len() {
                assert(hb[2 * i] == hp[2 * i]);
                assert(hb[2 * i + 1] == hp[2 * i + 1]);
                assert(hex_pairs(hp)[i] == p[i]);
            } else {
                assert(hb[2 * i] == hex_char(b.last() as int / 16));
                assert(hb[2 * i + 1] == hex_char(b.last() as int % 16));
            }
        }
        assert(hex_pairs(hb) =~= b);
    }
}

/// The spaced hex text of bytes (as a raw send reports them) reads back
/// as the same bytes.
pub proof fn lemma_hex_text_roundtrip(b: Seq<u8>)
    requires
        b.len() > 0,
    ensures
        spec_hex_payload(hex_dump_text(b)) == Ok::<Seq<u8>, Seq<char>>(b),
{
    lemma_scan_dump(b);
    lemma_pairs_of_digits(b);
}

// ---------------------------------------------------------------------------
// Interrogation reply, end to end
// ---------------------------------------------------------------------------

/// Where the master files a point it receives: its IOA and the
/// untimestamped type of its kind.
pub open spec fn sent_key(p: DataPoint) -> (u32, AsduTypeId) {
    (p.ioa, sent_type(p.value))
}

/// The `i`-th point frame of an interrogation reply for `pts` with cause
/// `cot`.
pub open spec fn reply_point_frame(ca: u16, pts: Seq<DataPoint>, cot: u8, ssn: u8, rsn: u8, i: int) -> Seq<u8> {
    spec_point_frame(pts[i].value, cot, ca, pts[i].ioa, ctr_after(ssn, i as nat), ctr_after(rsn, i as nat))
}

/// The point frames of an interrogation reply from the `i`-th on.
pub open spec fn reply_frames_from(ca: u16, pts: Seq<DataPoint>, cot: u8, ssn: u8, rsn: u8, i: int) -> Seq<u8>
    decreases pts.len() - i,
{
    if i < 0 || i >= pts.len() {
        Seq::empty()
    } else {
        reply_point_frame(ca, pts, cot, ssn, rsn, i) + reply_frames_from(ca, pts, cot, ssn, rsn, i + 1)
    }
}

proof fn lemma_reply_frames_from_last(ca: u16, pts: Seq<DataPoint>, cot: u8, ssn: u8, rsn: u8, i: int)
    requires
        pts.len() > 0,
        0 <= i <= pts.len() - 1,
    ensures
        reply_frames_from(ca, pts, cot, ssn, rsn, i)
            == reply_frames_from(ca, pts.drop_last(), cot, ssn, rsn, i) + reply_point_frame(ca, pts, cot, ssn, rsn, pts.len() - 1),
    decreases pts.len() - i,
{
    let n = pts.len() - 1;
    if i == n {
        assert(reply_frames_from(ca, pts, cot, ssn, rsn, i + 1) =~= Seq::<u8>::empty());
        assert(reply_frames_from(ca, pts.drop_last(), cot, ssn, rsn, i) =~= Seq::<u8>::empty());
        assert(reply_frames_from(ca, pts, cot, ssn, rsn, i) =~= reply_point_frame(ca, pts, cot, ssn, rsn, n));
    } else {
        lemma_reply_frames_from_last(ca, pts, cot, ssn, rsn, i + 1);
        assert(pts.drop_last()[i] == pts[i]);
        assert(reply_point_frame(ca, pts.drop_last(), cot, ssn, rsn, i) == reply_point_frame(ca, pts, cot, ssn, rsn, i));
        assert(reply_frames_from(ca, pts, cot, ssn, rsn, i) =~= reply_frames_from(ca, pts.drop_last(), cot, ssn, rsn, i)
            + reply_point_frame(ca, pts, cot, ssn, rsn, n));
    }
}

/// The interrogation reply the slave sends for a station's points is
/// those points' frames one after another.
pub proof fn lemma_gi_reply_is_point_frames(ca: u16, pts: Seq<DataPoint>, ssn: u8, rsn: u8)
    ensures
        spec_gi_frames(ca, pts, ssn, rsn) == reply_frames_from(ca, pts, 20, ssn, rsn, 0),
    decreases pts.len(),
{
    if pts.len() == 0 {
        assert(reply_frames_from(ca, pts, 20, ssn, rsn, 0) =~= Seq::<u8>::empty());
    } else {
        lemma_gi_reply_is_point_frames(ca, pts.drop_last(), ssn, rsn);
        lemma_reply_frames_from_last(ca, pts, 20, ssn, rsn, 0);
        assert(pts.last() == pts[pts.len() - 1]);
    }
}

/// The counter interrogation reply the slave sends for a station's
/// counters is those counters' frames (cause 37) one after another.
pub proof fn lemma_ci_reply_is_point_frames(ca: u16, its: Seq<DataPoint>, ssn: u8, rsn: u8)
    requires
        forall|i: int| 0 <= i < its.len() ==> (#[trigger] its[i]).value is IntegratedTotal,
    ensures
        spec_ci_frames(ca, its, ssn, rsn) == reply_frames_from(ca, its, 37, ssn, rsn, 0),
    decreases its.len(),
{
    if its.len() == 0 {
        assert(reply_frames_from(ca, its, 37, ssn, rsn, 0) =~= Seq::<u8>::empty());
    } else {
        assert forall|i: int| 0 <= i < its.drop_last().len() implies (#[trigger] its.drop_last()[i]).value is IntegratedTotal by {
            assert(its.drop_last()[i] == its[i]);
        }
        lemma_ci_reply_is_point_frames(ca, its.drop_last(), ssn, rsn);
        lemma_reply_frames_from_last(ca, its, 37, ssn, rsn, 0);
        assert(its.last() == its[its.len() - 1]);
    }
}

/// The master's receive buffer, loaded with an interrogation reply from
/// its `i`-th point frame on, gives that frame back whole and keeps the rest.
pub proof fn lemma_reply_splits(ca: u16, pts: Seq<DataPoint>, cot: u8, ssn: u8, rsn: u8, i: int)
    requires
        0 <= i < pts.len(),
    ensures
        spec_next_frame(reply_frames_from(ca, pts, cot, ssn, rsn, i))
            == (reply_frames_from(ca, pts, cot, ssn, rsn, i + 1), Some(reply_point_frame(ca, pts, cot, ssn, rsn, i))),
{
    let f = reply_point_frame(ca, pts, cot, ssn, rsn, i);
    let rest = reply_frames_from(ca, pts, cot, ssn, rsn, i + 1);
    let b = reply_frames_from(ca, pts, cot, ssn, rsn, i);
    assert(b == f + rest);
    let vals = spec_point_payload(pts[i].value).1;
    assert(vals.len() <= 5);
    assert(f.len() == 15 + vals.len());
    assert(b[0] == 0x68);
    assert(b[1] as int + 2 == f.len());
    assert(b.skip(f.len() as int) =~= rest);
    assert(b.take(f.len() as int) =~= f);
}

proof fn lemma_reply_prefix(
    ca: u16,
    pts: Seq<DataPoint>,
    cot: u8,
    ssn: u8,
    rsn: u8,
    vs: Seq<Map<u16, Map<(u32, AsduTypeId), DataPoint>>>,
    seqs: Seq<u64>,
    k: int,
)
    requires
        0 <= k <= pts.len(),
        vs.len() == pts.len() + 1,
        seqs.len() == pts.len() + 1,
        forall|i: int| 0 <= i < pts.len() ==> wire_exact(#[trigger] pts[i].value) && pts[i].ioa < 0x100_0000,
        forall|i: int, j: int| 0 <= i < j < pts.len() ==> sent_key(#[trigger] pts[i]) != sent_key(#[trigger] pts[j]),
        forall|i: int| 0 <= i < pts.len() ==> #[trigger] frame_stored(reply_point_frame(ca, pts, cot, ssn, rsn, i), vs[i], seqs[i], vs[i + 1], seqs[i + 1]),
    ensures
        forall|i: int| 0 <= i < k ==> vs[k].contains_key(ca) && vs[k][ca].contains_key(#[trigger] sent_key(pts[i]))
            && vs[k][ca][sent_key(pts[i])].value == pts[i].value,
        forall|c: u16| c != ca ==> (#[trigger] vs[k].contains_key(c) == vs[0].contains_key(c))
            && (vs[0].contains_key(c) ==> vs[k][c] == vs[0][c]),
    decreases k,
{
    if k > 0 {
        let j = k - 1;
        lemma_reply_prefix(ca, pts, cot, ssn, rsn, vs, seqs, j);
        let d = reply_point_frame(ca, pts, cot, ssn, rsn, j);
        assert(frame_stored(d, vs[j], seqs[j], vs[j + 1], seqs[j + 1]));
        assert(j + 1 == k);
        let (parsed, ts, r) = choose|parsed: ReceivedAsdu, ts: Option<i64>, r: Option<ControlResponse>|
            received_matches(parsed, d) && #[trigger] stored_after(parsed, ts, r, vs[j], seqs[j], vs[k], seqs[k]);
        let p = pts[j];
        lemma_point_frame_roundtrip(p.value, cot, ca, p.ioa, ctr_after(ssn, j as nat), ctr_after(rsn, j as nat), parsed);
        let t = sent_type(p.value);
        let one = seq![(p.ioa, p.value)];
        assert(one.drop_last() =~= Seq::<(u32, DataPointValue)>::empty());
        assert(spec_store_points(vs[j], seqs[j] as int, ca, t, one.drop_last(), ts) == vs[j]);
        assert(one.last() == (p.ioa, p.value));
        let rp = received_point(p.ioa, t, p.value, ts, (seqs[j] + 1) as u64);
        assert(spec_store_points(vs[j], seqs[j] as int, ca, t, one, ts) == view_insert(vs[j], ca, rp));
        assert(vs[k] == view_insert(vs[j], ca, rp));
        assert(key_of(rp) == sent_key(p));
        assert forall|i: int| 0 <= i < k implies vs[k].contains_key(ca) && vs[k][ca].contains_key(#[trigger] sent_key(pts[i]))
            && vs[k][ca][sent_key(pts[i])].value == pts[i].value by {
            if i < j {
                assert(sent_key(pts[i]) != sent_key(pts[j]));
            }
        }
    }
}

/// The point frames of an interrogation reply (general, cause 20, or
/// counter, cause 37), stored in order by the master, leave it holding
/// every point the reply carries: under the reply's CA, at the point's IOA
/// and the untimestamped type of its kind, the point's value; every other
/// CA is left as it was. This holds for points whose values survive the
/// wire (`wire_exact`), with 24-bit IOAs, no two of them filed under the
/// same key.
pub proof fn lemma_reply_fills_master(
    ca: u16,
    pts: Seq<DataPoint>,
    cot: u8,
    ssn: u8,
    rsn: u8,
    vs: Seq<Map<u16, Map<(u32, AsduTypeId), DataPoint>>>,
    seqs: Seq<u64>,
)
    requires
        vs.len() == pts.len() + 1,
        seqs.len() == pts.len() + 1,
        forall|i: int| 0 <= i < pts.len() ==> wire_exact(#[trigger] pts[i].value) && pts[i].ioa < 0x100_0000,
        forall|i: int, j: int| 0 <= i < j < pts.len() ==> sent_key(#[trigger] pts[i]) != sent_key(#[trigger] pts[j]),
        forall|i: int| 0 <= i < pts.len() ==> #[trigger] frame_stored(reply_point_frame(ca, pts, cot, ssn, rsn, i), vs[i], seqs[i], vs[i + 1], seqs[i + 1]),
    ensures
        forall|i: int| 0 <= i < pts.len() ==> vs.last().contains_key(ca) && vs.last()[ca].contains_key(#[trigger] sent_key(pts[i]))
            && vs.last()[ca][sent_key(pts[i])].value == pts[i].value,
        forall|c: u16| c != ca ==> (#[trigger] vs.last().contains_key(c) == vs[0].contains_key(c))
            && (vs[0].contains_key(c) ==> vs.last()[c] == vs[0][c]),
{
    lemma_reply_prefix(ca, pts, cot, ssn, rsn, vs, seqs, pts.len() as int);
    assert(vs.last() == vs[pts.len() as int]);
}

// ---------------------------------------------------------------------------
// Select before operate
// ---------------------------------------------------------------------------

/// An event that positively confirms an activation (COT 7) for `ioa`.
pub open spec fn confirms(e: SboEvent, ioa: u32) -> bool {
    e matches SboEvent::Response(r) && r.ioa == ioa && r.cot == 7 && r.positive
}

/// The phase select-before-operate for `ioa` reaches after the events
/// `es`, starting from the wait for the select confirmation, and whether
/// some step finished it successfully.
pub open spec fn sbo_run(ioa: u32, es: Seq<SboEvent>) -> (SboPhase, bool)
    decreases es.len(),
{
    if es.len() == 0 {
        (SboPhase::AwaitSelect, false)
    } else {
        let prev = sbo_run(ioa, es.drop_last());
        let step = spec_sbo_step(prev.0, ioa, es.last());
        (step.0, prev.1 || step.1.0 == 2)
    }
}

proof fn lemma_sbo_run_inv(ioa: u32, es: Seq<SboEvent>)
    ensures
        sbo_run(ioa, es).0 == SboPhase::AwaitExecute ==> exists|i: int| 0 <= i < es.len() && #[trigger] confirms(es[i], ioa),
        sbo_run(ioa, es).1 ==> sbo_run(ioa, es).0 == SboPhase::Done,
        sbo_run(ioa, es).1 ==> exists|i: int, j: int| 0 <= i < j < es.len() && #[trigger] confirms(es[i], ioa) && #[trigger] confirms(es[j], ioa),
    decreases es.len(),
{
    if es.len() > 0 {
        let pre = es.drop_last();
        lemma_sbo_run_inv(ioa, pre);
        let n = es.len() - 1;
        assert(es.last() == es[n]);
        assert forall|i: int| 0 <= i < pre.len() implies pre[i] == es[i] by {}
        if sbo_run(ioa, pre).0 == SboPhase::AwaitExecute {
            let i = choose|i: int| 0 <= i < pre.len() && #[trigger] confirms(pre[i], ioa);
            assert(confirms(es[i], ioa));
        }
        if sbo_run(ioa, pre).1 {
            let (i, j) = choose|i: int, j: int| 0 <= i < j < pre.len() && #[trigger] confirms(pre[i], ioa) && #[trigger] confirms(pre[j], ioa);
            assert(confirms(es[i], ioa) && confirms(es[j], ioa));
        }
        if sbo_run(ioa, es).0 == SboPhase::AwaitExecute && sbo_run(ioa, pre).0 == SboPhase::AwaitSelect {
            assert(confirms(es[n], ioa));
        }
        if sbo_run(ioa, es).1 && !sbo_run(ioa, pre).1 {
            let i = choose|i: int| 0 <= i < pre.len() && #[trigger] confirms(pre[i], ioa);
            assert(confirms(es[i], ioa) && confirms(es[n], ioa));
        }
    }
}

/// Select-before-operate succeeds only on two positive activation
/// confirmations for the commanded IOA, the select's and then the
/// execute's; responses for other IOAs or causes are waited past, and a
/// negative confirmation, a timeout or a receive error ends it for good.
pub proof fn lemma_sbo_needs_two_confirmations(ioa: u32, es: Seq<SboEvent>)
    ensures
        sbo_run(ioa, es).1 ==> exists|i: int, j: int| 0 <= i < j < es.len() && #[trigger] confirms(es[i], ioa) && #[trigger] confirms(es[j], ioa),
        sbo_run(ioa, es).1 ==> sbo_run(ioa, es).0 == SboPhase::Done,
{
    lemma_sbo_run_inv(ioa, es);
}

/// Two positive confirmations for the IOA, with nothing before them,
/// complete select-before-operate.
pub proof fn lemma_sbo_two_confirmations_succeed(ioa: u32, a: SboEvent, b: SboEvent)
    requires
        confirms(a, ioa),
        confirms(b, ioa),
    ensures
        sbo_run(ioa, seq![a, b]) == (SboPhase::Done, true),
{
    let es = seq![a, b];
    let one = seq![a];
    assert(one.drop_last() =~= Seq::<SboEvent>::empty());
    assert(one.last() == a);
    assert(sbo_run(ioa, one.drop_last()) == (SboPhase::AwaitSelect, false));
    assert(sbo_run(ioa, one) == (SboPhase::AwaitExecute, false));
    assert(es.drop_last() =~= one);
    assert(es.last() == b);
}

/// Once select-before-operate is over (done, finished or failed), further
/// events change nothing.
pub proof fn lemma_sbo_done_is_final(ioa: u32, es: Seq<SboEvent>, more: Seq<SboEvent>)
    requires
        sbo_run(ioa, es).0 == SboPhase::Done,
    ensures
        sbo_run(ioa, es + more) == sbo_run(ioa, es),
    decreases more.len(),
{
    if more.len() > 0 {
        let m2 = more.drop_last();
        lemma_sbo_done_is_final(ioa, es, m2);
        assert((es + more).drop_last() =~= es + m2);
    } else {
        assert(es + more =~= es);
    }
}

// ---------------------------------------------------------------------------
// Point frames in the frame analyser
// ---------------------------------------------------------------------------

/// A point frame the slave sends is a whole I-frame: it starts with 0x68,
/// its length octet counts the rest, and its control field classifies as
/// an I-frame (the send counter the slave writes is even).
pub proof fn lemma_point_frame_parses(v: DataPointValue, cot: u8, ca: u16, ioa: u32, ssn: u8, rsn: u8)
    requires
        ssn % 2 == 0,
    ensures
        spec_point_frame(v, cot, ca, ioa, ssn, rsn).len() >= 6,
        spec_point_frame(v, cot, ca, ioa, ssn, rsn)[0] == 0x68,
        spec_point_frame(v, cot, ca, ioa, ssn, rsn)[1] as int + 2 == spec_point_frame(v, cot, ca, ioa, ssn, rsn).len(),
        spec_parse_apci(spec_point_frame(v, cot, ca, ioa, ssn, rsn)) matches Ok(FrameType::IFrame { .. }),
{
    let d = spec_point_frame(v, cot, ca, ioa, ssn, rsn);
    let vals = spec_point_payload(v).1;
    assert(vals.len() <= 5);
    assert(d.len() == 15 + vals.len());
    assert(d[0] == 0x68 && d[2] == ssn);
}

/// The frame analyser reads a point frame the slave sends as one clean
/// I-frame: no warning, the cause, CA and IOA it was sent with, and
/// exactly one object, which carries the value (for values that survive
/// the wire and 24-bit IOAs).
pub proof fn lemma_point_frame_analysed(
    v: DataPointValue,
    cot: u8,
    ca: u16,
    ioa: u32,
    ssn: u8,
    rsn: u8,
    f: ParsedFrame,
    ft: FrameType,
)
    requires
        wire_exact(v),
        ioa < 0x100_0000,
        ssn % 2 == 0,
        spec_parse_apci(spec_point_frame(v, cot, ca, ioa, ssn, rsn)) == Ok::<FrameType, FrameError>(ft),
        frame_matches(f, spec_point_frame(v, cot, ca, ioa, ssn, rsn), ft),
    ensures
        f.warnings@.len() == 0,
        f.asdu matches Some(a) && a.cot == cot % 64 && a.common_address == ca && a.objects@.len() == 1
            && a.objects@[0].ioa == ioa && a.objects@[0].value == Some(v),
{
    lemma_point_frame_parses(v, cot, ca, ioa, ssn, rsn);
    lemma_payload_decodes(v);
    lemma_ca_octets(ca);
    lemma_ioa_octets(ioa);
    let d = spec_point_frame(v, cot, ca, ioa, ssn, rsn);
    let t = spec_point_payload(v).0;
    let vals = spec_point_payload(v).1;
    assert(d == spec_i_frame(t, cot, ca, ioa, vals, ssn, rsn));
    assert(d[6] == t && d[7] == 1 && d[8] == cot);
    assert(d[10] == ca_octets(ca)[0] && d[11] == ca_octets(ca)[1]);
    let body = d.skip(12);
    assert(body[0] == ioa_octets(ioa)[0] && body[1] == ioa_octets(ioa)[1] && body[2] == ioa_octets(ioa)[2]);
    assert(body.subrange(3, 3 + vals.len() as int) =~= vals);
    let layout = spec_element_size(t)->0;
    assert(spec_element_len(layout) == vals.len());
    assert(spec_decode_element(t, vals).0 == crate::received::spec_master_value(t, vals));
    let objs = spec_decode_objects(t, vals.len() as int, false, 1, body, 0, 0, 0);
    assert(spec_decode_objects(t, vals.len() as int, false, 1, body, 1, 3 + vals.len() as int, ioa)
        == (Seq::<(u32, Option<DataPointValue>, Option<QualityFlags>, Option<Cp56Time2a>, Seq<char>)>::empty(),
            Seq::<Seq<char>>::empty()));
    assert(objs.1 =~= Seq::<Seq<char>>::empty());
    assert(objs.0.len() == 1 && objs.0[0].0 == ioa && objs.0[0].1 == Some(v));
    assert(spec_frame_warnings(d) =~= Seq::<Seq<char>>::empty());
    let a = f.asdu->0;
    assert(a.objects@.map_values(|o: ParsedObject| object_model(o)) == objs.0);
    assert(a.objects@.map_values(|o: ParsedObject| object_model(o))[0] == object_model(a.objects@[0]));
}

} // verus!
