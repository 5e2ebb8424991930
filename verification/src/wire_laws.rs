//! Properties of single operations stated against the octets on the wire:
//! which IOA each decoded point of a received ASDU carries, which bits of a
//! quality octet the analyser reports, what a regulating step command does
//! to the step position it addresses, and what the command frames the
//! master builds carry.
use crate::decode::{le24, le32, i16_of, spec_cp56, spec_decode_element, vti_value, Cp56Time2a};
use crate::frame::{spec_parse_apci, FrameError, FrameType, UFrameKind};
use crate::received::spec_control_response;
use crate::slave_link::{cmd_value, cmd_min_len, spec_command_reply, spec_reply, station_points, spec_gi_frames, spec_ci_frames};
use crate::laws::{lemma_gi_reply_is_point_frames, lemma_ci_reply_is_point_frames, reply_frames_from, reply_point_frame};
use crate::slave_link::{ctr_after, spec_i_frame, spec_point_frame, spec_point_payload};
use crate::frame::le16;
use crate::received::{received_matches, spec_master_points, spec_master_value, ReceivedAsdu};
use crate::decode::spec_element_size;
use crate::types::QualityFlags;
use crate::clock::{fields_in_range, UtcNow};
use crate::master::{
    command_head, word32_octets, spec_bitstring_command, spec_clock_sync_frame, spec_counter_read_command, spec_double_command, spec_gi_command,
    spec_setpoint_float_command, spec_setpoint_normalized, spec_setpoint_scaled, spec_single_command, spec_step_command,
};
use crate::data_point::{DataPoint, DataPointValue};
use crate::laws::point_written;
use crate::slave::Station;
use crate::slave_link::{cmd_target, frame_ca, frame_ioa, is_execute_command, table_after};
use crate::data_point::lemma_by_category_in_map;
use crate::types::AsduTypeId;
use crate::protocol::{rx_after, spec_tick, ProtocolState, RxEvent, TickAction};
use crate::master_app::{spec_control_command, spec_control_frame, ControlCommand};
use crate::text::int_text;
use crate::parse::spec_parse_int;
use crate::text_laws::lemma_int_text_parses_back;
use crate::slave_app::{spec_mutate, spec_mutated_value, spec_mutation_count, MutationDraw};
use crate::data_point::key_of;
use vstd::prelude::*;

verus! {

// ---------------------------------------------------------------------------
// IOAs of received objects
// ---------------------------------------------------------------------------

/// Octets of one element (value part and time tag) of a received type.
pub open spec fn element_octets(t: u8) -> int {
    match spec_element_size(t) {
        Some(l) => l.0 + if l.1 { 7int } else { 0int },
        None => 0,
    }
}

proof fn lemma_sq_rest(t: u8, size: int, num: int, d: Seq<u8>, i: int, offset: int, base: u32, j: int)
    requires
        1 <= i,
        0 <= size,
        base < 0x100_0000,
        num <= 128,
        0 <= j < spec_master_points(t, size, true, num, d, i, offset, base).len(),
    ensures
        spec_master_points(t, size, true, num, d, i, offset, base)[j].0 as int == base + i + j,
        spec_master_value(t, d.subrange(offset + j * size, offset + j * size + size))
            == Some(spec_master_points(t, size, true, num, d, i, offset, base)[j].1),
    decreases j,
{
    let s = spec_master_points(t, size, true, num, d, i, offset, base);
    assert(i < num);
    if j > 0 {
        let rest = spec_master_points(t, size, true, num, d, i + 1, offset + size, base);
        assert(s == seq![s[0]] + rest);
        assert(s[j] == rest[j - 1]);
        lemma_sq_rest(t, size, num, d, i + 1, offset + size, base, j - 1);
        assert(offset + size + (j - 1) * size == offset + j * size) by (nonlinear_arith);
    }
}

proof fn lemma_plain_rest(t: u8, size: int, num: int, d: Seq<u8>, i: int, offset: int, base: u32, j: int)
    requires
        0 <= i,
        0 <= size,
        0 <= j < spec_master_points(t, size, false, num, d, i, offset, base).len(),
    ensures
        spec_master_points(t, size, false, num, d, i, offset, base)[j].0
            == le24(d[offset + j * (size + 3)], d[offset + j * (size + 3) + 1], d[offset + j * (size + 3) + 2]),
        spec_master_value(t, d.subrange(offset + j * (size + 3) + 3, offset + j * (size + 3) + 3 + size))
            == Some(spec_master_points(t, size, false, num, d, i, offset, base)[j].1),
    decreases j,
{
    let s = spec_master_points(t, size, false, num, d, i, offset, base);
    if j > 0 {
        let b2 = le24(d[offset], d[offset + 1], d[offset + 2]);
        let rest = spec_master_points(t, size, false, num, d, i + 1, offset + 3 + size, b2);
        assert(s == seq![s[0]] + rest);
        assert(s[j] == rest[j - 1]);
        lemma_plain_rest(t, size, num, d, i + 1, offset + 3 + size, b2, j - 1);
        assert(offset + 3 + size + (j - 1) * (size + 3) == offset + j * (size + 3)) by (nonlinear_arith);
    }
}

/// A received ASDU with SQ = 1 carries one IOA, that of its first object;
/// the master reads the i-th element as the object at that IOA plus `i`,
/// its value taken from the i-th element after the IOA.
#[verifier::rlimit(30)]
pub proof fn lemma_received_sequence_ioas(d: Seq<u8>, r: ReceivedAsdu)
    requires
        received_matches(r, d),
        d.len() >= 12,
        d[7] >= 128,
    ensures
        r matches ReceivedAsdu::Data { points, .. } ==> forall|i: int| 0 <= i < points@.len() ==> {
            &&& (#[trigger] points@[i]).0 as int == le24(d[12], d[13], d[14]) + i
            &&& spec_master_value(d[6], d.subrange(15 + i * element_octets(d[6]), 15 + i * element_octets(d[6]) + element_octets(d[6])))
                    == Some(points@[i].1)
        },
{
    if let ReceivedAsdu::Data { points, .. } = r {
        let t = d[6];
        let size = element_octets(t);
        let num = (d[7] % 128) as int;
        let s = spec_master_points(t, size, true, num, d, 0, 12, 0);
        assert(points@ == s);
        assert forall|i: int| 0 <= i < points@.len() implies {
            &&& (#[trigger] points@[i]).0 as int == le24(d[12], d[13], d[14]) + i
            &&& spec_master_value(d[6], d.subrange(15 + i * size, 15 + i * size + size)) == Some(points@[i].1)
        } by {
            let b = le24(d[12], d[13], d[14]);
            assert(b < 0x100_0000);
            let rest = spec_master_points(t, size, true, num, d, 1, 15 + size, b);
            assert(s == seq![s[0]] + rest);
            if i == 0 {
                assert(0 < num);
                assert(15 + i * size == 15);
                assert(s[0].0 == b);
            } else {
                assert(s[i] == rest[i - 1]);
                lemma_sq_rest(t, size, num, d, 1, 15 + size, b, i - 1);
                assert(15 + size + (i - 1) * size == 15 + i * size) by (nonlinear_arith);
            }
        }
    }
}

/// A received ASDU with SQ = 0 carries an IOA before every element; the
/// master reads the i-th object at the IOA in front of the i-th element.
pub proof fn lemma_received_object_ioas(d: Seq<u8>, r: ReceivedAsdu)
    requires
        received_matches(r, d),
        d.len() >= 12,
        d[7] < 128,
    ensures
        r matches ReceivedAsdu::Data { points, .. } ==> forall|i: int| 0 <= i < points@.len() ==> {
            let at = 12 + i * (element_octets(d[6]) + 3);
            &&& (#[trigger] points@[i]).0 == le24(d[at], d[at + 1], d[at + 2])
            &&& spec_master_value(d[6], d.subrange(at + 3, at + 3 + element_octets(d[6]))) == Some(points@[i].1)
        },
{
    if let ReceivedAsdu::Data { points, .. } = r {
        let t = d[6];
        let size = element_octets(t);
        let num = (d[7] % 128) as int;
        assert(points@ == spec_master_points(t, size, false, num, d, 0, 12, 0));
        assert forall|i: int| 0 <= i < points@.len() implies {
            let at = 12 + i * (size + 3);
            &&& (#[trigger] points@[i]).0 == le24(d[at], d[at + 1], d[at + 2])
            &&& spec_master_value(d[6], d.subrange(at + 3, at + 3 + size)) == Some(points@[i].1)
        } by {
            lemma_plain_rest(t, size, num, d, 0, 12, 0, i);
        }
    }
}

// ---------------------------------------------------------------------------
// Quality octets
// ---------------------------------------------------------------------------

/// `q` reports the bits of the quality descriptor octet `b`: IV (bit 7),
/// NT (bit 6), SB (bit 5), BL (bit 4) and OV (bit 0).
pub open spec fn qds_bits(q: QualityFlags, b: u8) -> bool {
    &&& q.iv == (b & 0x80 != 0)
    &&& q.nt == (b & 0x40 != 0)
    &&& q.sb == (b & 0x20 != 0)
    &&& q.bl == (b & 0x10 != 0)
    &&& q.ov == (b & 0x01 != 0)
}

/// `q` reports the quality bits of a SIQ / DIQ octet `b` (IV, NT, SB, BL;
/// such an octet has no overflow bit).
pub open spec fn siq_bits(q: QualityFlags, b: u8) -> bool {
    &&& q.iv == (b & 0x80 != 0)
    &&& q.nt == (b & 0x40 != 0)
    &&& q.sb == (b & 0x20 != 0)
    &&& q.bl == (b & 0x10 != 0)
    &&& !q.ov
}

proof fn lemma_octet_bits(b: u8)
    by (bit_vector)
    ensures
        (b & 0x80 != 0) == (b >= 128),
        (b & 0x40 != 0) == ((b / 64) % 2 == 1),
        (b & 0x20 != 0) == ((b / 32) % 2 == 1),
        (b & 0x10 != 0) == ((b / 16) % 2 == 1),
        (b & 0x01 != 0) == (b % 2 == 1),
{
}

/// The quality the analyser reports for an information element is read
/// bit by bit from the element's quality octet: the SIQ / DIQ of single and
/// double points, the QDS after the VTI of a step position, after the four
/// octets of a bitstring or short float and after the two of a normalized
/// or scaled value; an integrated total is invalid exactly when bit 7 of
/// its sequence octet is set.
pub proof fn lemma_element_quality_bits(t: u8, e: Seq<u8>)
    ensures
        (t == 1 || t == 30 || t == 3 || t == 31)
            ==> (spec_decode_element(t, e).1 matches Some(q) && siq_bits(q, e[0])),
        (t == 5 || t == 32) ==> (spec_decode_element(t, e).1 matches Some(q) && qds_bits(q, e[1])),
        (t == 7 || t == 33 || t == 13 || t == 36)
            ==> (spec_decode_element(t, e).1 matches Some(q) && qds_bits(q, e[4])),
        (t == 9 || t == 34 || t == 11 || t == 35)
            ==> (spec_decode_element(t, e).1 matches Some(q) && qds_bits(q, e[2])),
        (t == 15 || t == 37)
            ==> (spec_decode_element(t, e).1 matches Some(q) && q.iv == (e[4] & 0x80 != 0)),
{
    lemma_octet_bits(e[0]);
    lemma_octet_bits(e[1]);
    lemma_octet_bits(e[2]);
    lemma_octet_bits(e[4]);
}

// ---------------------------------------------------------------------------
// Command frames built by the master
// ---------------------------------------------------------------------------

/// `f` is an I-frame of `len` octets after the length octet, with zero
/// sequence numbers, carrying one object of type `t` for the station `ca`
/// at the IOA `ioa` (three octets, least significant first), with cause
/// `cot` and originator 0.
pub open spec fn frame_addresses(f: Seq<u8>, len: u8, t: u8, cot: u8, ca: u16, ioa: u32) -> bool {
    &&& f.len() == len + 2
    &&& f[0] == 0x68 && f[1] == len
    &&& f[2] == 0 && f[3] == 0 && f[4] == 0 && f[5] == 0
    &&& f[6] == t && f[7] == 1 && f[8] == cot && f[9] == 0
    &&& f[10] as int + 256 * f[11] as int == ca
    &&& f[12] as int + 256 * f[13] as int + 65536 * f[14] as int == ioa
}

/// A command qualifier octet `b` carries `low` in its two low bits, the
/// qualifier `qu` (five bits) in bits 2..6 and select in bit 7.
pub open spec fn qualifier_octet(b: u8, low: int, qu: u8, select: bool) -> bool {
    &&& b % 4 == low
    &&& (b / 4) % 32 == qu % 32
    &&& (b >= 128) == select
}

proof fn lemma_head(f: Seq<u8>, len: u8, t: u8, cot: u8, ca: u16, ioa: u32)
    requires
        ioa < 0x100_0000,
        f.len() == len + 2,
        f.len() >= 15,
        f.subrange(0, 15) == command_head(len, t, cot, ca, ioa),
    ensures
        frame_addresses(f, len, t, cot, ca, ioa),
{
    let h = f.subrange(0, 15);
    assert(f[0] == h[0] && f[1] == h[1] && f[2] == h[2] && f[3] == h[3] && f[4] == h[4]);
    assert(f[5] == h[5] && f[6] == h[6] && f[7] == h[7] && f[8] == h[8] && f[9] == h[9]);
    assert(f[10] == h[10] && f[11] == h[11] && f[12] == h[12] && f[13] == h[13] && f[14] == h[14]);
    assert(h[10] == (ca % 256) as u8 && h[11] == (ca / 256) as u8);
    assert(h[12] == (ioa % 256) as u8 && h[13] == ((ioa / 256) % 256) as u8 && h[14] == ((ioa / 65536) % 256) as u8);
    assert(f[10] as int == ca as int % 256 && f[11] as int == ca as int / 256);
    assert(f[12] as int == ioa as int % 256 && f[13] as int == (ioa as int / 256) % 256
        && f[14] as int == (ioa as int / 65536) % 256);
    assert(ca as int == ca as int % 256 + 256 * (ca as int / 256));
    assert(ioa as int == ioa as int % 256 + 256 * ((ioa as int / 256) % 256) + 65536 * ((ioa as int / 65536) % 256));
}

proof fn lemma_word32_tail(f: Seq<u8>, w: u32)
    requires
        f.len() >= 19,
        f.subrange(15, 19) == word32_octets(w),
    ensures
        le32(f[15], f[16], f[17], f[18]) == w,
{
    let o = f.subrange(15, 19);
    assert(f[15] == o[0] && f[16] == o[1] && f[17] == o[2] && f[18] == o[3]);
    assert(le32(o[0], o[1], o[2], o[3]) == w);
}

/// A single command the master builds addresses the given station and IOA
/// and carries the commanded state in bit 0 of its SCO, the qualifier and
/// the select bit.
pub proof fn lemma_single_command_carries(ca: u16, ioa: u32, value: bool, select: bool, qu: u8, cot: u8)
    requires
        ioa < 0x100_0000,
    ensures
        frame_addresses(spec_single_command(ca, ioa, value, select, qu, cot), 0x0E, 45, cot, ca, ioa),
        qualifier_octet(spec_single_command(ca, ioa, value, select, qu, cot)[15], if value { 1int } else { 0int }, qu, select),
{
    let f = spec_single_command(ca, ioa, value, select, qu, cot);
    assert(f.subrange(0, 15) =~= command_head(0x0E, 45, cot, ca, ioa));
    lemma_head(f, 0x0E, 45, cot, ca, ioa);
}

/// A double command addresses the given station and IOA and carries the
/// two low bits of the commanded state in its DCO.
pub proof fn lemma_double_command_carries(ca: u16, ioa: u32, value: u8, select: bool, qu: u8, cot: u8)
    requires
        ioa < 0x100_0000,
    ensures
        frame_addresses(spec_double_command(ca, ioa, value, select, qu, cot), 0x0E, 46, cot, ca, ioa),
        qualifier_octet(spec_double_command(ca, ioa, value, select, qu, cot)[15], value as int % 4, qu, select),
{
    let f = spec_double_command(ca, ioa, value, select, qu, cot);
    assert(f.subrange(0, 15) =~= command_head(0x0E, 46, cot, ca, ioa));
    lemma_head(f, 0x0E, 46, cot, ca, ioa);
}

/// A regulating step command addresses the given station and IOA and
/// carries the step code (1 lower, 2 higher) in the two low bits of its
/// RCO.
pub proof fn lemma_step_command_carries(ca: u16, ioa: u32, value: u8, select: bool, qu: u8, cot: u8)
    requires
        ioa < 0x100_0000,
    ensures
        frame_addresses(spec_step_command(ca, ioa, value, select, qu, cot), 0x0E, 47, cot, ca, ioa),
        qualifier_octet(spec_step_command(ca, ioa, value, select, qu, cot)[15], value as int % 4, qu, select),
{
    let f = spec_step_command(ca, ioa, value, select, qu, cot);
    assert(f.subrange(0, 15) =~= command_head(0x0E, 47, cot, ca, ioa));
    lemma_head(f, 0x0E, 47, cot, ca, ioa);
}

/// A normalized set-point addresses the given station and IOA, carries the
/// NVA word as a signed 16-bit value and the QOS (qualifier and select).
pub proof fn lemma_setpoint_normalized_carries(ca: u16, ioa: u32, nva: i16, select: bool, ql: u8, cot: u8)
    requires
        ioa < 0x100_0000,
    ensures
        frame_addresses(spec_setpoint_normalized(ca, ioa, nva, select, ql, cot), 0x10, 48, cot, ca, ioa),
        ({
            let f = spec_setpoint_normalized(ca, ioa, nva, select, ql, cot);
            i16_of(le16(f[15], f[16])) == nva && f[17] % 128 == ql % 128 && (f[17] >= 128) == select
        }),
{
    let f = spec_setpoint_normalized(ca, ioa, nva, select, ql, cot);
    assert(f.subrange(0, 15) =~= command_head(0x10, 48, cot, ca, ioa));
    lemma_head(f, 0x10, 48, cot, ca, ioa);
}

/// A scaled set-point addresses the given station and IOA, carries the
/// value as a signed 16-bit word and the QOS.
pub proof fn lemma_setpoint_scaled_carries(ca: u16, ioa: u32, value: i16, select: bool, ql: u8, cot: u8)
    requires
        ioa < 0x100_0000,
    ensures
        frame_addresses(spec_setpoint_scaled(ca, ioa, value, select, ql, cot), 0x10, 49, cot, ca, ioa),
        ({
            let f = spec_setpoint_scaled(ca, ioa, value, select, ql, cot);
            i16_of(le16(f[15], f[16])) == value && f[17] % 128 == ql % 128 && (f[17] >= 128) == select
        }),
{
    let f = spec_setpoint_scaled(ca, ioa, value, select, ql, cot);
    assert(f.subrange(0, 15) =~= command_head(0x10, 49, cot, ca, ioa));
    lemma_head(f, 0x10, 49, cot, ca, ioa);
}

/// A short-float set-point addresses the given station and IOA, carries
/// the IEEE-754 bits least significant octet first and the QOS.
pub proof fn lemma_setpoint_float_carries(ca: u16, ioa: u32, bits: u32, select: bool, ql: u8, cot: u8)
    requires
        ioa < 0x100_0000,
    ensures
        frame_addresses(spec_setpoint_float_command(ca, ioa, bits, select, ql, cot), 0x12, 50, cot, ca, ioa),
        ({
            let f = spec_setpoint_float_command(ca, ioa, bits, select, ql, cot);
            le32(f[15], f[16], f[17], f[18]) == bits && f[19] % 128 == ql % 128 && (f[19] >= 128) == select
        }),
{
    let f = spec_setpoint_float_command(ca, ioa, bits, select, ql, cot);
    assert(f.subrange(0, 15) =~= command_head(0x12, 50, cot, ca, ioa));
    lemma_head(f, 0x12, 50, cot, ca, ioa);
    assert(f.subrange(15, 19) =~= word32_octets(bits));
    lemma_word32_tail(f, bits);
}

/// A bitstring command addresses the given station and IOA and carries
/// the 32-bit word least significant octet first.
pub proof fn lemma_bitstring_command_carries(ca: u16, ioa: u32, value: u32, cot: u8)
    requires
        ioa < 0x100_0000,
    ensures
        frame_addresses(spec_bitstring_command(ca, ioa, value, cot), 0x11, 51, cot, ca, ioa),
        ({
            let f = spec_bitstring_command(ca, ioa, value, cot);
            le32(f[15], f[16], f[17], f[18]) == value
        }),
{
    let f = spec_bitstring_command(ca, ioa, value, cot);
    assert(f.subrange(0, 15) =~= command_head(0x11, 51, cot, ca, ioa));
    lemma_head(f, 0x11, 51, cot, ca, ioa);
    assert(f.subrange(15, 19) =~= word32_octets(value));
    lemma_word32_tail(f, value);
}

/// General and counter interrogation commands address IOA 0 of the given
/// station, with cause 6 (activation) and the given qualifier.
pub proof fn lemma_interrogation_commands_carry(ca: u16, qoi: u8, qcc: u8)
    ensures
        frame_addresses(spec_gi_command(ca, qoi), 0x0E, 100, 6, ca, 0),
        spec_gi_command(ca, qoi)[15] == qoi,
        frame_addresses(spec_counter_read_command(ca, qcc), 0x0E, 101, 6, ca, 0),
        spec_counter_read_command(ca, qcc)[15] == qcc,
{
    let g = spec_gi_command(ca, qoi);
    assert(g.subrange(0, 15) =~= command_head(0x0E, 100, 6, ca, 0));
    lemma_head(g, 0x0E, 100, 6, ca, 0);
    let c = spec_counter_read_command(ca, qcc);
    assert(c.subrange(0, 15) =~= command_head(0x0E, 101, 6, ca, 0));
    lemma_head(c, 0x0E, 101, 6, ca, 0);
}

/// The clock synchronisation frame addresses IOA 0 of the station, and its
/// CP56Time2a, as the frame analyser decodes it, is the reading: the
/// milliseconds within the minute (seconds included), minute, hour, day
/// and month, and the two-digit year (24 when the year has no four-digit
/// form); no day of week, not invalid, no summer time.
#[verifier::rlimit(30)]
pub proof fn lemma_clock_sync_carries_the_reading(ca: u16, t: UtcNow)
    requires
        fields_in_range(t),
    ensures
        frame_addresses(spec_clock_sync_frame(ca, t), 0x14, 103, 6, ca, 0),
        spec_cp56(spec_clock_sync_frame(ca, t).subrange(15, 22)) matches Some(c) && {
            &&& c.millisecond as int == t.second as int * 1000 + t.subsec_millis as int
            &&& c.minute as int == t.minute as int
            &&& c.hour as int == t.hour as int
            &&& c.day as int == t.day as int
            &&& c.month as int == t.month as int
            &&& c.year as int == 2000 + if 0 <= t.year <= 65535 { t.year as int % 100 } else { 24int }
            &&& c.day_of_week == 0
            &&& !c.invalid
            &&& !c.summer_time
        },
{
    let f = spec_clock_sync_frame(ca, t);
    assert(f.subrange(0, 15) =~= command_head(0x14, 103, 6, ca, 0));
    lemma_head(f, 0x14, 103, 6, ca, 0);
    let b = f.subrange(15, 22);
    assert(b[0] == f[15] && b[1] == f[16] && b[2] == f[17] && b[3] == f[18] && b[4] == f[19] && b[5] == f[20] && b[6] == f[21]);
}

// ---------------------------------------------------------------------------
// Regulating step commands at the slave
// ---------------------------------------------------------------------------

/// An executed regulating step command (C_RC_NA_1) moves the step position
/// it addresses one step in the direction its RCO octet names: 2 (next
/// step higher) adds one, 1 (next step lower) takes one away, within
/// -64..=63; the two other codes leave the position as it is. The
/// transient flag is kept, and no other point or station changes.
pub proof fn lemma_step_command_writeback(
    tab: Map<u16, Station>, tab2: Map<u16, Station>, d: Seq<u8>, ts: i64, p: DataPoint, v: i8, tr: bool,
)
    requires
        is_execute_command(d),
        d[6] == 47,
        cmd_target(tab, frame_ca(d), frame_ioa(d), 47) == Some(p),
        p.value == (DataPointValue::StepPosition { value: v, transient: tr }),
        table_after(tab, tab2, d, ts),
    ensures
        d[15] % 4 == 2 && v < 63
            ==> point_written(tab, tab2, frame_ca(d), p, DataPointValue::StepPosition { value: (v + 1) as i8, transient: tr }, ts),
        d[15] % 4 == 1 && v > -64
            ==> point_written(tab, tab2, frame_ca(d), p, DataPointValue::StepPosition { value: (v - 1) as i8, transient: tr }, ts),
        (d[15] % 4 == 0 || d[15] % 4 == 3 || (d[15] % 4 == 2 && v == 63) || (d[15] % 4 == 1 && v == -64))
            ==> point_written(tab, tab2, frame_ca(d), p, DataPointValue::StepPosition { value: v, transient: tr }, ts),
{
}

// ---------------------------------------------------------------------------
// Fields read from octets
// ---------------------------------------------------------------------------

proof fn lemma_low_bits(b: u8)
    by (bit_vector)
    ensures
        b & 0x3F == b % 64,
        b & 0x1F == b % 32,
        b & 0x0F == b % 16,
        b & 0x7F == b % 128,
        b & 0x03 == b % 4,
        b >> 5 == b / 32,
        (b & 0x01 != 0) == (b % 2 == 1),
        (b & 0x20 != 0) == ((b / 32) % 2 == 1),
        (b & 0x40 != 0) == ((b / 64) % 2 == 1),
        (b & 0x80 != 0) == (b >= 128),
{
}

/// A CP56Time2a is read field by field from its seven octets: the
/// milliseconds from the first two (least significant first), the minute
/// from the low six bits of the third (bit 7: invalid), the hour from the
/// low five bits of the fourth (bit 7: summer time), the day of month and
/// day of week from the low five and high three bits of the fifth, the
/// month from the low four bits of the sixth and the year from the low
/// seven bits of the seventh, counted from 2000.
pub proof fn lemma_cp56_fields(b: Seq<u8>)
    requires
        b.len() >= 7,
    ensures
        spec_cp56(b) matches Some(c) && {
            &&& c.millisecond as int == b[0] as int + 256 * b[1] as int
            &&& c.minute == b[2] & 0x3F && c.invalid == (b[2] & 0x80 != 0)
            &&& c.hour == b[3] & 0x1F && c.summer_time == (b[3] & 0x80 != 0)
            &&& c.day == b[4] & 0x1F && c.day_of_week == b[4] >> 5
            &&& c.month == b[5] & 0x0F
            &&& c.year as int == 2000 + (b[6] & 0x7F) as int
        },
{
    lemma_low_bits(b[2]);
    lemma_low_bits(b[3]);
    lemma_low_bits(b[4]);
    lemma_low_bits(b[5]);
    lemma_low_bits(b[6]);
}

/// An APCI is classified by the low bits of its first control octet: bit 0
/// clear is an I-frame, whose send and receive sequence numbers are the
/// first and second 16-bit control words (least significant octet first)
/// shifted right by one; bits 0..1 equal to 1 is an S-frame; otherwise a
/// U-frame, named by the whole octet (STARTDT act 0x07 / con 0x0B, STOPDT
/// act 0x13 / con 0x23, TESTFR act 0x43 / con 0x83). Anything shorter
/// than six octets or not starting with 0x68 is refused.
pub proof fn lemma_apci_fields(d: Seq<u8>)
    ensures
        d.len() < 6 ==> spec_parse_apci(d) == Err::<FrameType, FrameError>(FrameError::TooShort(d.len() as usize)),
        d.len() >= 6 && d[0] != 0x68 ==> spec_parse_apci(d) == Err::<FrameType, FrameError>(FrameError::InvalidStart(d[0])),
        d.len() >= 6 && d[0] == 0x68 && d[2] & 0x01 == 0 ==> (spec_parse_apci(d) matches Ok(FrameType::IFrame { send_seq, recv_seq })
            && send_seq as int == (d[2] as int + 256 * d[3] as int) / 2
            && recv_seq as int == (d[4] as int + 256 * d[5] as int) / 2),
        d.len() >= 6 && d[0] == 0x68 && d[2] & 0x03 == 1 ==> (spec_parse_apci(d) matches Ok(FrameType::SFrame { recv_seq })
            && recv_seq as int == (d[4] as int + 256 * d[5] as int) / 2),
        d.len() >= 6 && d[0] == 0x68 && d[2] & 0x03 == 3 ==> spec_parse_apci(d) == (
            if d[2] == 0x07 { Ok::<FrameType, FrameError>(FrameType::UFrame { kind: UFrameKind::StartDtAct }) }
            else if d[2] == 0x0B { Ok(FrameType::UFrame { kind: UFrameKind::StartDtCon }) }
            else if d[2] == 0x13 { Ok(FrameType::UFrame { kind: UFrameKind::StopDtAct }) }
            else if d[2] == 0x23 { Ok(FrameType::UFrame { kind: UFrameKind::StopDtCon }) }
            else if d[2] == 0x43 { Ok(FrameType::UFrame { kind: UFrameKind::TestFrAct }) }
            else if d[2] == 0x83 { Ok(FrameType::UFrame { kind: UFrameKind::TestFrCon }) }
            else { Err(FrameError::UnknownUFrame(d[2])) }),
{
    if d.len() >= 6 {
        lemma_low_bits(d[2]);
    }
}

/// The signed step position of a VTI octet: its low seven bits, read as a
/// two's-complement value (bit 6 is the sign).
pub proof fn lemma_vti_bits(b: u8)
    ensures
        vti_value(b) as int == if b & 0x40 != 0 { (b & 0x7F) as int - 128 } else { (b & 0x7F) as int },
{
    lemma_low_bits(b);
}

/// What the analyser reads from the value octets of a monitoring element:
/// a single point's state is bit 0 of its SIQ, a double point's the two
/// low bits of its DIQ, a step position's transient flag bit 7 of its VTI;
/// a counter carries its sequence number in the five low bits of its last
/// octet and the carry in bit 5.
pub proof fn lemma_element_value_bits(t: u8, e: Seq<u8>)
    ensures
        (t == 1 || t == 30) ==> spec_decode_element(t, e).0 == Some(DataPointValue::SinglePoint { value: e[0] & 0x01 != 0 }),
        (t == 3 || t == 31) ==> spec_decode_element(t, e).0 == Some(DataPointValue::DoublePoint { value: e[0] & 0x03 }),
        (t == 5 || t == 32) ==> spec_decode_element(t, e).0 == Some(DataPointValue::StepPosition { value: vti_value(e[0]), transient: e[0] & 0x80 != 0 }),
        (t == 15 || t == 37) ==> (spec_decode_element(t, e).0 matches Some(DataPointValue::IntegratedTotal { value, carry, sequence })
            && value as int == le32(e[0], e[1], e[2], e[3]) as int - (if e[3] & 0x80 != 0 { 0x1_0000_0000int } else { 0int })
            && carry == (e[4] & 0x20 != 0) && sequence == e[4] & 0x1F),
{
    lemma_low_bits(e[0]);
    lemma_low_bits(e[3]);
    lemma_low_bits(e[4]);
}

/// The master and the frame analyser read the same value from the element
/// of every monitoring type the master stores.
pub proof fn lemma_master_reads_as_analyser(t: u8, e: Seq<u8>)
    requires
        t == 1 || t == 3 || t == 5 || t == 7 || t == 9 || t == 11 || t == 13 || t == 15
            || t == 30 || t == 31 || t == 32 || t == 33 || t == 34 || t == 35 || t == 36 || t == 37,
    ensures
        spec_master_value(t, e) == spec_decode_element(t, e).0,
{
}

/// A single, double or set-point command writes at the slave the value the
/// frame analyser reads from the command's element.
pub proof fn lemma_command_writes_analysed_value(t: u8, d: Seq<u8>, old: DataPointValue)
    requires
        t == 45 || t == 46 || t == 48 || t == 49 || t == 50,
        d.len() >= cmd_min_len(t),
    ensures
        cmd_value(t, d, old) == spec_decode_element(t, d.subrange(15, d.len() as int)).0,
{
    let e = d.subrange(15, d.len() as int);
    assert(e[0] == d[15]);
    if t >= 48 {
        assert(e[1] == d[16]);
    }
    if t == 50 {
        assert(e[2] == d[17] && e[3] == d[18]);
    }
}

/// The master reads a control response's cause from the six low bits of
/// its cause octet and takes it as positive when the P/N bit (bit 6) is
/// clear; the IOA is the three octets after the common address.
pub proof fn lemma_control_response_fields(d: Seq<u8>)
    requires
        d.len() >= 15,
    ensures
        spec_control_response(d).cot == d[8] & 0x3F,
        spec_control_response(d).positive == (d[8] & 0x40 == 0),
        spec_control_response(d).asdu_type == d[6],
        spec_control_response(d).ioa as int == d[12] as int + 256 * d[13] as int + 65536 * d[14] as int,
{
    lemma_low_bits(d[8]);
}

/// The slave answers a control command with a copy of it whose cause octet
/// is 7 (activation confirmation); a command in execute mode (select bit
/// clear in its last octet) is further answered by a second copy with
/// cause 10 (activation termination), and a select by nothing more.
pub proof fn lemma_command_confirmed(tab: Map<u16, Station>, d: Seq<u8>)
    requires
        45 <= d[6] <= 50,
        d.len() >= cmd_min_len(d[6]),
    ensures
        ({
            let r = spec_command_reply(tab, d);
            let n = d.len() as int;
            &&& r.len() >= n
            &&& r[8] == 7
            &&& forall|k: int| 0 <= k < n && k != 8 ==> #[trigger] r[k] == d[k]
            &&& d[cmd_min_len(d[6]) - 1] & 0x80 != 0 ==> r.len() == n
            &&& d[cmd_min_len(d[6]) - 1] & 0x80 == 0 ==> {
                &&& r.len() >= 2 * n
                &&& r[n + 8] == 10
                &&& forall|k: int| 0 <= k < n && k != 8 ==> #[trigger] r[n + k] == d[k]
            }
        }),
{
    lemma_low_bits(d[cmd_min_len(d[6]) - 1]);
}

/// The slave confirms each U-frame activation with the matching
/// confirmation, a six-octet U-frame the frame analyser reads as such:
/// STARTDT act with STARTDT con, STOPDT act with STOPDT con, TESTFR act
/// with TESTFR con; other U-frames get no answer.
pub proof fn lemma_u_frames_confirmed(tab: Map<u16, Station>, d: Seq<u8>, ssn: u8, rsn: u8)
    requires
        d.len() >= 6,
        d[0] == 0x68,
        d[2] & 0x03 == 3,
    ensures
        ({
            let r = spec_reply(tab, d, ssn, rsn).0;
            &&& d[2] == 0x07 ==> r.len() == 6 && r[1] == 4 && spec_parse_apci(r) == Ok::<FrameType, FrameError>(FrameType::UFrame { kind: UFrameKind::StartDtCon })
            &&& d[2] == 0x13 ==> r.len() == 6 && r[1] == 4 && spec_parse_apci(r) == Ok::<FrameType, FrameError>(FrameType::UFrame { kind: UFrameKind::StopDtCon })
            &&& d[2] == 0x43 ==> r.len() == 6 && r[1] == 4 && spec_parse_apci(r) == Ok::<FrameType, FrameError>(FrameType::UFrame { kind: UFrameKind::TestFrCon })
            &&& (d[2] != 0x07 && d[2] != 0x13 && d[2] != 0x43) ==> r.len() == 0
        }),
{
    lemma_low_bits(d[2]);
}

/// `r` begins with a copy of the frame `d` whose cause octet is `c`.
pub open spec fn copy_with_cause(r: Seq<u8>, d: Seq<u8>, c: u8) -> bool {
    &&& r.len() == d.len()
    &&& r[8] == c
    &&& forall|k: int| 0 <= k < d.len() && k != 8 ==> #[trigger] r[k] == d[k]
}

proof fn lemma_framed_reply(r: Seq<u8>, d: Seq<u8>, mid: Seq<u8>)
    requires
        d.len() > 8,
        r == d.update(8, 7) + mid + d.update(8, 10),
    ensures
        r.len() == 2 * d.len() + mid.len(),
        copy_with_cause(r.subrange(0, d.len() as int), d, 7),
        r.subrange(d.len() as int, (d.len() + mid.len()) as int) == mid,
        copy_with_cause(r.subrange((d.len() + mid.len()) as int, r.len() as int), d, 10),
{
    let n = d.len() as int;
    assert(r.subrange(0, n) =~= d.update(8, 7));
    assert(r.subrange(n, n + mid.len()) =~= mid);
    assert(r.subrange(n + mid.len(), r.len() as int) =~= d.update(8, 10));
}

/// A general interrogation is answered by its confirmation (cause 7), the
/// frames of the station's points in key order with cause 20 (interrogated
/// by station), and its termination (cause 10).
#[verifier::rlimit(30)]
pub proof fn lemma_gi_reply(tab: Map<u16, Station>, d: Seq<u8>, ssn: u8, rsn: u8)
    requires
        d.len() >= 12,
        d[0] == 0x68,
        d[2] & 0x01 == 0,
        d[6] == 100,
    ensures
        ({
            let r = spec_reply(tab, d, ssn, rsn).0;
            let n = d.len() as int;
            let mid = reply_frames_from(frame_ca(d), station_points(tab, frame_ca(d)), 20, ssn, rsn, 0);
            &&& r.len() == 2 * n + mid.len()
            &&& copy_with_cause(r.subrange(0, n), d, 7)
            &&& r.subrange(n, n + mid.len()) == mid
            &&& copy_with_cause(r.subrange(n + mid.len(), r.len() as int), d, 10)
        }),
{
    lemma_low_bits(d[2]);
    let ca = frame_ca(d);
    let pts = station_points(tab, ca);
    lemma_gi_reply_is_point_frames(ca, pts, ssn, rsn);
    lemma_framed_reply(spec_reply(tab, d, ssn, rsn).0, d, spec_gi_frames(ca, pts, ssn, rsn));
}

/// A counter interrogation is answered by its confirmation (cause 7), the
/// frames of the station's counters only, in key order, with cause 37
/// (interrogated by general counter request), and its termination
/// (cause 10).
#[verifier::rlimit(30)]
pub proof fn lemma_ci_reply(tab: Map<u16, Station>, d: Seq<u8>, ssn: u8, rsn: u8)
    requires
        d.len() >= 12,
        d[0] == 0x68,
        d[2] & 0x01 == 0,
        d[6] == 101,
    ensures
        ({
            let r = spec_reply(tab, d, ssn, rsn).0;
            let n = d.len() as int;
            let its = station_points(tab, frame_ca(d)).filter(|p: DataPoint| p.value is IntegratedTotal);
            let mid = reply_frames_from(frame_ca(d), its, 37, ssn, rsn, 0);
            &&& r.len() == 2 * n + mid.len()
            &&& copy_with_cause(r.subrange(0, n), d, 7)
            &&& r.subrange(n, n + mid.len()) == mid
            &&& copy_with_cause(r.subrange(n + mid.len(), r.len() as int), d, 10)
        }),
{
    lemma_low_bits(d[2]);
    let ca = frame_ca(d);
    let its = station_points(tab, ca).filter(|p: DataPoint| p.value is IntegratedTotal);
    assert forall|i: int| 0 <= i < its.len() implies (#[trigger] its[i]).value is IntegratedTotal by {
        station_points(tab, ca).lemma_filter_pred(|p: DataPoint| p.value is IntegratedTotal, i);
    }
    lemma_ci_reply_is_point_frames(ca, its, ssn, rsn);
    let f1 = |p: DataPoint| p.value is IntegratedTotal;
    let f2 = |p: DataPoint| crate::slave_link::is_counter(p);
    assert(f1 =~= f2);
    assert(its == station_points(tab, ca).filter(f2));
    lemma_framed_reply(spec_reply(tab, d, ssn, rsn).0, d, spec_ci_frames(ca, its, ssn, rsn));
}

/// A clock synchronisation is answered by its confirmation (cause 7) alone.
pub proof fn lemma_clock_sync_reply(tab: Map<u16, Station>, d: Seq<u8>, ssn: u8, rsn: u8)
    requires
        d.len() >= 12,
        d[0] == 0x68,
        d[2] & 0x01 == 0,
        d[6] == 103,
    ensures
        copy_with_cause(spec_reply(tab, d, ssn, rsn).0, d, 7),
{
    lemma_low_bits(d[2]);
}

// ---------------------------------------------------------------------------
// The receive window of the master's link
// ---------------------------------------------------------------------------

/// The w window: an I-frame that brings the count of received, not yet
/// acknowledged I-frames up to w is acknowledged at once, with the
/// receive sequence number that follows the frame's own send sequence
/// number (its first control word shifted right by one, modulo 2^15), and
/// the count starts again from zero; an I-frame that leaves the count
/// below w is not acknowledged at once: the count goes up by one and, if
/// no acknowledgement was already due, one falls due t2 later.
pub proof fn lemma_receive_window(s: ProtocolState, t: ProtocolState, d: Seq<u8>, now: u64, ev: RxEvent)
    requires
        rx_after(s, t, d, now, ev),
        d.len() >= 12,
        d[2] & 0x01 == 0,
        s.unacked_received < s.w,
    ensures
        s.unacked_received + 1 == s.w ==> (ev matches RxEvent::Information { ack: Some(a), .. }
            && a as int == ((d[2] as int + 256 * d[3] as int) / 2 + 1) % 32768
            && t.rsn == a
            && t.unacked_received == 0
            && t.pending_ack_deadline is None),
        s.unacked_received + 1 < s.w ==> (ev matches RxEvent::Information { ack: None, .. }
            && t.unacked_received == s.unacked_received + 1
            && (s.pending_ack_deadline is None ==> t.pending_ack_deadline == Some((now + s.t2) as u64))
            && (s.pending_ack_deadline is Some ==> t.pending_ack_deadline == s.pending_ack_deadline)),
{
    lemma_low_bits(d[2]);
}

/// The t2 timer: once an acknowledgement has fallen due and its deadline
/// has passed, the next tick (with no test frame overdue) sends an
/// S-frame with the current receive sequence number and clears the count
/// and the deadline; before the deadline no S-frame is sent.
pub proof fn lemma_delayed_ack(s: ProtocolState, now: u64)
    requires
        !(s.test_pending_deadline matches Some(x) && now >= x),
    ensures
        s.pending_ack_deadline matches Some(dl) && now >= dl ==> {
            &&& spec_tick(s, now).0 == TickAction::SendSFrame(s.rsn)
            &&& spec_tick(s, now).1.unacked_received == 0
            &&& spec_tick(s, now).1.pending_ack_deadline is None
        },
        !(s.pending_ack_deadline matches Some(dl) && now >= dl) ==> !(spec_tick(s, now).0 is SendSFrame),
{
}

// ---------------------------------------------------------------------------
// Which point a command addresses at the slave
// ---------------------------------------------------------------------------

/// The monitoring type without time tag, the one with time tag, and the
/// command type of the category a command of type `t` (45..=50) acts on.
pub open spec fn command_types(t: u8) -> (AsduTypeId, AsduTypeId, AsduTypeId) {
    if t == 45 { (AsduTypeId::MSpNa1, AsduTypeId::MSpTb1, AsduTypeId::CScNa1) }
    else if t == 46 { (AsduTypeId::MDpNa1, AsduTypeId::MDpTb1, AsduTypeId::CDcNa1) }
    else if t == 47 { (AsduTypeId::MStNa1, AsduTypeId::MStTb1, AsduTypeId::CRcNa1) }
    else if t == 48 { (AsduTypeId::MMeNa1, AsduTypeId::MMeTd1, AsduTypeId::CSeNa1) }
    else if t == 49 { (AsduTypeId::MMeNb1, AsduTypeId::MMeTe1, AsduTypeId::CSeNb1) }
    else { (AsduTypeId::MMeNc1, AsduTypeId::MMeTf1, AsduTypeId::CSeNc1) }
}

#[verifier::rlimit(30)]
proof fn lemma_target_in(s: Seq<DataPoint>, ioa: u32, cat: crate::types::DataCategory, na: AsduTypeId, tb: AsduTypeId, cmd: AsduTypeId)
    requires
        crate::data_point::sorted_by_key(s),
        crate::data_point::spec_preferred_na_for(cat) == Some(na),
        forall|a: AsduTypeId| #[trigger] a.spec_category() == cat ==> a == na || a == tb || a == cmd,
        tb.spec_category() == cat,
    ensures
        ({
            let m = crate::data_point::seq_to_map(s);
            let r = crate::data_point::spec_by_category(s, ioa, cat);
            &&& m.contains_key((ioa, na)) ==> r == Some(m[(ioa, na)])
            &&& !m.contains_key((ioa, na)) ==> (r matches Some(p) ==>
                (m.contains_key((ioa, tb)) && p == m[(ioa, tb)]) || (m.contains_key((ioa, cmd)) && p == m[(ioa, cmd)]))
            &&& m.contains_key((ioa, tb)) ==> r is Some
        }),
{
    let m = crate::data_point::seq_to_map(s);
    lemma_by_category_in_map(s, ioa, cat);
    if let Some(p) = crate::data_point::spec_by_category(s, ioa, cat) {
        assert(p.asdu_type.spec_category() == cat);
    }
    if m.contains_key((ioa, tb)) && !m.contains_key((ioa, na)) {
        crate::data_point::lemma_map_contains(s, (ioa, tb));
        let i = choose|i: int| 0 <= i < s.len() && crate::data_point::key_of(s[i]) == (ioa, tb);
        assert(crate::data_point::point_matches(s[i], ioa, cat));
    }
}

/// A command of type `t` at IOA `ioa` acts on the point of the matching
/// monitoring type without time tag at that IOA when the station has one;
/// failing that, on a point of the same category at that IOA, the one with
/// time tag (or one stored under the command's own type), and there is
/// one whenever the station holds the time-tagged type there. Nothing is
/// addressed in a station that does not exist.
pub proof fn lemma_command_target(tab: Map<u16, Station>, ca: u16, ioa: u32, t: u8)
    requires
        45 <= t <= 50,
        tab.contains_key(ca) ==> tab[ca].data_points.wf(),
    ensures
        !tab.contains_key(ca) ==> cmd_target(tab, ca, ioa, t) is None,
        tab.contains_key(ca) ==> ({
            let m = tab[ca].data_points@;
            let (na, tb, cmd) = command_types(t);
            &&& m.contains_key((ioa, na)) ==> cmd_target(tab, ca, ioa, t) == Some(m[(ioa, na)])
            &&& !m.contains_key((ioa, na)) ==> (cmd_target(tab, ca, ioa, t) matches Some(p)
                ==> (m.contains_key((ioa, tb)) && p == m[(ioa, tb)]) || (m.contains_key((ioa, cmd)) && p == m[(ioa, cmd)]))
            &&& m.contains_key((ioa, tb)) ==> cmd_target(tab, ca, ioa, t) is Some
        }),
{
    if tab.contains_key(ca) {
        let e = tab[ca].data_points.entries();
        let (na, tb, cmd) = command_types(t);
        lemma_target_in(e, ioa, crate::slave_link::cmd_category(t), na, tb, cmd);
    }
}

// ---------------------------------------------------------------------------
// From a control request to its frame
// ---------------------------------------------------------------------------

/// A control request names its kind and gives its value as text; the
/// frame it leads to is the command of that kind for the given station
/// and IOA, carrying the value written in the text: a double or step
/// command its state or step code in the two low bits of the qualifier
/// octet, a scaled set-point its value as a signed 16-bit word, a
/// bitstring command its 32-bit word.
#[verifier::rlimit(30)]
pub proof fn lemma_control_request_frame(ca: u16, ioa: u32, select: bool, qu: u8, cot: u8, b: u8, w: i16, word: u32, text: Seq<char>)
    requires
        ioa < 0x100_0000,
    ensures
        spec_control_command("double"@, int_text(b as int), None, select) == Ok::<ControlCommand, Seq<char>>(ControlCommand::Double(b)),
        spec_control_command("step"@, int_text(b as int), None, select) == Ok::<ControlCommand, Seq<char>>(ControlCommand::Step(b)),
        spec_control_command("setpoint_scaled"@, int_text(w as int), None, select) == Ok::<ControlCommand, Seq<char>>(ControlCommand::SetpointScaled(w)),
        spec_control_command("bitstring"@, text, Some(word), false) == Ok::<ControlCommand, Seq<char>>(ControlCommand::Bitstring(word)),
        frame_addresses(spec_control_frame(ControlCommand::Double(b), ca, ioa, select, qu, cot), 0x0E, 46, cot, ca, ioa),
        qualifier_octet(spec_control_frame(ControlCommand::Double(b), ca, ioa, select, qu, cot)[15], b as int % 4, qu, select),
        frame_addresses(spec_control_frame(ControlCommand::Step(b), ca, ioa, select, qu, cot), 0x0E, 47, cot, ca, ioa),
        qualifier_octet(spec_control_frame(ControlCommand::Step(b), ca, ioa, select, qu, cot)[15], b as int % 4, qu, select),
        frame_addresses(spec_control_frame(ControlCommand::SetpointScaled(w), ca, ioa, select, qu, cot), 0x10, 49, cot, ca, ioa),
        ({
            let f = spec_control_frame(ControlCommand::SetpointScaled(w), ca, ioa, select, qu, cot);
            i16_of(le16(f[15], f[16])) == w
        }),
        frame_addresses(spec_control_frame(ControlCommand::Bitstring(word), ca, ioa, select, qu, cot), 0x11, 51, cot, ca, ioa),
        ({
            let f = spec_control_frame(ControlCommand::Bitstring(word), ca, ioa, select, qu, cot);
            le32(f[15], f[16], f[17], f[18]) == word
        }),
{
    reveal_strlit("single");
    reveal_strlit("double");
    reveal_strlit("step");
    reveal_strlit("setpoint_normalized");
    reveal_strlit("setpoint_scaled");
    reveal_strlit("setpoint_float");
    reveal_strlit("bitstring");
    assert("double"@ != "single"@) by { assert("double"@[0] != "single"@[0]); }
    assert("single"@.len() == 6 && "double"@.len() == 6 && "step"@.len() == 4 && "setpoint_normalized"@.len() == 19
        && "setpoint_scaled"@.len() == 15 && "setpoint_float"@.len() == 14 && "bitstring"@.len() == 9);
    lemma_int_text_parses_back(b as int, 0, 255);
    assert(spec_parse_int(int_text(b as int), false, 0, 255) == Ok::<int, crate::parse::IntErrorKind>(b as int));
    lemma_int_text_parses_back(w as int, -32768, 32767);
    lemma_double_command_carries(ca, ioa, b, select, qu, cot);
    lemma_step_command_carries(ca, ioa, b, select, qu, cot);
    lemma_setpoint_scaled_carries(ca, ioa, w, select, qu, cot);
    lemma_bitstring_command_carries(ca, ioa, word, cot);
}

/// A single command request reads `1`, `true` and `ON` as on and `0`,
/// `false` and `OFF` as off, and its frame carries that state in bit 0 of
/// the qualifier octet.
pub proof fn lemma_single_request_frame(ca: u16, ioa: u32, select: bool, qu: u8, cot: u8, text: Seq<char>)
    requires
        ioa < 0x100_0000,
        text == "1"@ || text == "true"@ || text == "ON"@ || text == "0"@ || text == "false"@ || text == "OFF"@,
    ensures
        ({
            let on = text == "1"@ || text == "true"@ || text == "ON"@;
            &&& spec_control_command("single"@, text, None, select) == Ok::<ControlCommand, Seq<char>>(ControlCommand::Single(on))
            &&& frame_addresses(spec_control_frame(ControlCommand::Single(on), ca, ioa, select, qu, cot), 0x0E, 45, cot, ca, ioa)
            &&& qualifier_octet(spec_control_frame(ControlCommand::Single(on), ca, ioa, select, qu, cot)[15], if on { 1int } else { 0int }, qu, select)
        }),
{
    reveal_strlit("single");
    reveal_strlit("1");
    reveal_strlit("true");
    reveal_strlit("ON");
    reveal_strlit("0");
    reveal_strlit("false");
    reveal_strlit("OFF");
    let on = text == "1"@ || text == "true"@ || text == "ON"@;
    lemma_single_command_carries(ca, ioa, on, select, qu, cot);
}

// ---------------------------------------------------------------------------
// Random mutation of a station's points
// ---------------------------------------------------------------------------

/// How a mutation moves a value: a single point toggles; a double point
/// goes to on (2) from off (1) and to off from anything else; a scaled
/// value moves by the drawn delta, held within the range of 16 bits; a
/// counter moves up by the drawn increment and keeps its carry and
/// sequence number; a normalized value and a short float take their drawn
/// words; a step position and a bitstring stay as they are.
pub proof fn lemma_mutated_value(v: DataPointValue, d: MutationDraw)
    ensures
        v matches DataPointValue::SinglePoint { value } ==> spec_mutated_value(v, d) == (DataPointValue::SinglePoint { value: !value }),
        v matches DataPointValue::DoublePoint { value } ==> spec_mutated_value(v, d)
            == (DataPointValue::DoublePoint { value: if value == 1 { 2u8 } else { 1u8 } }),
        v matches DataPointValue::Scaled { value } ==> (spec_mutated_value(v, d) matches DataPointValue::Scaled { value: w }
            && w as int == if value + d.scaled_delta > 32767 { 32767 } else if value + d.scaled_delta < -32768 { -32768 } else { value + d.scaled_delta }),
        v matches DataPointValue::IntegratedTotal { value, carry, sequence } ==> (
            spec_mutated_value(v, d) matches DataPointValue::IntegratedTotal { value: w, carry: c, sequence: q }
            && (i32::MIN <= value + d.total_delta <= i32::MAX ==> w == value + d.total_delta) && c == carry && q == sequence),
        v is Normalized ==> spec_mutated_value(v, d) == (DataPointValue::Normalized { raw: d.normalized_raw }),
        v is ShortFloat ==> spec_mutated_value(v, d) == (DataPointValue::ShortFloat { bits: d.float_bits }),
        (v is StepPosition || v is Bitstring) ==> spec_mutated_value(v, d) == v,
{
}

/// A mutation picks between three points and 30 % of the points (rounded
/// down), and never more points than there are.
pub proof fn lemma_mutation_count(n: int)
    requires
        n >= 0,
    ensures
        spec_mutation_count(n) <= n,
        n >= 3 ==> spec_mutation_count(n) >= 3,
        n < 3 ==> spec_mutation_count(n) == n,
        spec_mutation_count(n) >= n * 30 / 100,
        n * 30 / 100 >= 3 ==> spec_mutation_count(n) == n * 30 / 100,
{
    assert(n * 30 / 100 <= n);
}

/// After the first `n` picks of a mutation, each point picked (the
/// `j`-th pick is the point at position `order[j]`) holds its value
/// mutated under the `j`-th draw and is stamped `now`, everything else of
/// it as before; a point not picked is left as it was, and no point comes
/// or goes. The picks name distinct points, as a shuffled order does.
#[verifier::rlimit(30)]
pub proof fn lemma_mutation_picks(
    m: Map<(u32, AsduTypeId), DataPoint>, pts: Seq<DataPoint>, order: Seq<usize>, draws: Seq<MutationDraw>, n: nat, now: i64,
)
    requires
        n <= order.len(),
        n <= draws.len(),
        forall|j: int| 0 <= j < n ==> (#[trigger] order[j]) < pts.len(),
        forall|j: int| 0 <= j < n ==> m.contains_key(key_of(pts[#[trigger] order[j] as int])),
        forall|i: int, j: int| 0 <= i < j < n ==> key_of(pts[#[trigger] order[i] as int]) != key_of(pts[#[trigger] order[j] as int]),
    ensures
        spec_mutate(m, pts, order, draws, n, now).dom() == m.dom(),
        forall|j: int| 0 <= j < n ==> ({
            let p = pts[order[j] as int];
            let q = #[trigger] spec_mutate(m, pts, order, draws, n, now)[key_of(pts[order[j] as int])];
            &&& q.ioa == p.ioa && q.asdu_type == p.asdu_type && q.quality == p.quality && q.update_seq == p.update_seq
            &&& q.value == spec_mutated_value(p.value, draws[j])
            &&& q.timestamp == Some(now)
        }),
        forall|k: (u32, AsduTypeId)| m.contains_key(k) && (forall|j: int| 0 <= j < n ==> key_of(pts[#[trigger] order[j] as int]) != k)
            ==> #[trigger] spec_mutate(m, pts, order, draws, n, now)[k] == m[k],
    decreases n,
{
    if n > 0 {
        lemma_mutation_picks(m, pts, order, draws, (n - 1) as nat, now);
        let prev = spec_mutate(m, pts, order, draws, (n - 1) as nat, now);
        let cur = spec_mutate(m, pts, order, draws, n, now);
        let last = key_of(pts[order[n - 1] as int]);
        assert(cur.dom() =~= m.dom());
        assert forall|j: int| 0 <= j < n implies ({
            let p = pts[order[j] as int];
            let q = #[trigger] cur[key_of(pts[order[j] as int])];
            &&& q.ioa == p.ioa && q.asdu_type == p.asdu_type && q.quality == p.quality && q.update_seq == p.update_seq
            &&& q.value == spec_mutated_value(p.value, draws[j])
            &&& q.timestamp == Some(now)
        }) by {
            if j < n - 1 {
                assert(key_of(pts[order[j] as int]) != last);
            }
        }
        assert forall|k: (u32, AsduTypeId)| m.contains_key(k) && (forall|j: int| 0 <= j < n ==> key_of(pts[#[trigger] order[j] as int]) != k)
            implies #[trigger] cur[k] == m[k] by {
            assert(key_of(pts[order[n - 1] as int]) != k);
            assert forall|j: int| 0 <= j < n - 1 implies key_of(pts[#[trigger] order[j] as int]) != k by {}
        }
    }
}

// ---------------------------------------------------------------------------
// Numbering of the frames the slave sends
// ---------------------------------------------------------------------------

proof fn lemma_ctr_after(x: u8, n: nat)
    requires
        x < 128,
    ensures
        ctr_after(x, n) as int == (x + 2 * n) % 128,
    decreases n,
{
    if n > 0 {
        lemma_ctr_after(x, (n - 1) as nat);
    }
}

proof fn lemma_i_frame_numbers(t: u8, c: u8, ca: u16, ioa: u32, vals: Seq<u8>, a: u8, b: u8)
    requires
        a % 2 == 0,
    ensures
        spec_parse_apci(spec_i_frame(t, c, ca, ioa, vals, a, b))
            == Ok::<FrameType, FrameError>(FrameType::IFrame { send_seq: (a / 2) as u16, recv_seq: (b / 2) as u16 }),
{
    let f = spec_i_frame(t, c, ca, ioa, vals, a, b);
    assert(f.len() >= 15);
    assert(f[0] == 0x68 && f[2] == a && f[3] == 0 && f[4] == b && f[5] == 0);
}

proof fn lemma_half_step(x: int, i: int)
    requires
        0 <= x < 128,
        x % 2 == 0,
        0 <= i,
    ensures
        ((x + 2 * i) % 128) / 2 == (x / 2 + i) % 64,
{
    let k = x / 2;
    assert(x == 2 * k);
    assert(((2 * k + 2 * i) % 128) / 2 == (k + i) % 64) by (nonlinear_arith)
        requires
            0 <= k,
            0 <= i;
}

/// The frames of an interrogation reply are numbered one after another:
/// the analyser reads the `i`-th as an I-frame whose send sequence number
/// is `i` past the one the reply started with and whose receive sequence
/// number is `i` past its starting one too, both modulo 64 (the slave
/// writes them in one octet, stepping by two).
pub proof fn lemma_reply_frames_numbered(ca: u16, pts: Seq<DataPoint>, cot: u8, ssn: u8, rsn: u8, i: int)
    requires
        ssn < 128,
        rsn < 128,
        ssn % 2 == 0,
        rsn % 2 == 0,
        0 <= i < pts.len(),
    ensures
        spec_parse_apci(reply_point_frame(ca, pts, cot, ssn, rsn, i)) matches Ok(FrameType::IFrame { send_seq, recv_seq })
            && send_seq as int == (ssn / 2 + i) % 64
            && recv_seq as int == (rsn / 2 + i) % 64,
{
    lemma_ctr_after(ssn, i as nat);
    lemma_ctr_after(rsn, i as nat);
    let a = ctr_after(ssn, i as nat);
    let b = ctr_after(rsn, i as nat);
    lemma_half_step(ssn as int, i);
    lemma_half_step(rsn as int, i);
    assert(a % 2 == 0) by {
        assert((ssn + 2 * i) % 128 % 2 == 0) by (nonlinear_arith)
            requires
                ssn % 2 == 0,
                0 <= i;
    }
    lemma_i_frame_numbers(spec_point_payload(pts[i].value).0, cot, ca, pts[i].ioa, spec_point_payload(pts[i].value).1, a, b);
}

} // verus!
