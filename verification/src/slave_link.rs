//! Slave link layer: encoding of points into I-frames, the reply to each
//! frame a client sends (U-frame confirmations, general and counter
//! interrogation, clock synchronisation and control commands with their
//! write-back), and the spontaneous / cyclic transmission of changed points.
use crate::data_point::{key_of, spec_by_category, with_value_at, DataPoint, DataPointValue};
use crate::decode::{i16_of, le24, le32, read_le16, read_le24, read_le32, to_i16};
use crate::frame::le16;
use crate::master::{ca_octets, i16_word, ioa_octets, push_ca, push_ioa, push_word32, word32_octets, word_of_i16};
use crate::slave::{station_point_set, Station, StationTable};
use crate::types::{AsduTypeId, DataCategory};
use vstd::prelude::*;

verus! {

// ---------------------------------------------------------------------------
// I-frame encoding
// ---------------------------------------------------------------------------

/// The send/receive control octets this server writes into the I-frames it
/// originates (sequence number shifted left by one, low byte only).
#[derive(Debug, Clone, Copy, PartialEq, Eq, Structural)]
pub struct LinkCounters {
    pub ssn: u8,
    pub rsn: u8,
}

/// A control octet after one frame: two up, kept to seven bits.
pub open spec fn next_ctr(x: u8) -> u8 {
    ((x + 2) % 128) as u8
}

/// A control octet after `n` frames.
pub open spec fn ctr_after(x: u8, n: nat) -> u8
    decreases n,
{
    if n == 0 { x } else { next_ctr(ctr_after(x, (n - 1) as nat)) }
}

/// A single-object I-frame: APCI with the given control octets, ASDU header
/// with one object, the CA, the IOA's three octets and the value octets.
pub open spec fn spec_i_frame(asdu_type: u8, cause: u8, ca: u16, ioa: u32, vals: Seq<u8>, ssn: u8, rsn: u8) -> Seq<u8> {
    seq![0x68u8, (13 + vals.len()) as u8, ssn, 0u8, rsn, 0u8, asdu_type, 0x01u8, cause, 0u8]
        + ca_octets(ca) + ioa_octets(ioa) + vals
}

/// Build a single-object I-frame and advance both control octets.
pub fn build_i_frame(asdu_type: u8, cause: u8, ca: u16, ioa: u32, value_bytes: &[u8], ssn: &mut u8, rsn: &mut u8) -> (f: Vec<u8>)
    requires
        value_bytes.len() <= 242,
    ensures
        f@ == spec_i_frame(asdu_type, cause, ca, ioa, value_bytes@, *old(ssn), *old(rsn)),
        *final(ssn) == next_ctr(*old(ssn)),
        *final(rsn) == next_ctr(*old(rsn)),
{
    let total_len: u8 = 13 + value_bytes.len() as u8;
    let mut frame: Vec<u8> = Vec::new();
    frame.push(0x68);
    frame.push(total_len);
    frame.push(*ssn);
    frame.push(0x00);
    frame.push(*rsn);
    frame.push(0x00);
    *ssn = ((*ssn as u16 + 2) % 128) as u8;
    *rsn = ((*rsn as u16 + 2) % 128) as u8;
    frame.push(asdu_type);
    frame.push(0x01);
    frame.push(cause);
    frame.push(0x00);
    push_ca(&mut frame, ca);
    push_ioa(&mut frame, ioa);
    let ghost head = frame@;
    let mut i: usize = 0;
    while i < value_bytes.len()
        invariant
            i <= value_bytes.len(),
            frame@ == head + value_bytes@.take(i as int),
        decreases value_bytes.len() - i,
    {
        frame.push(value_bytes[i]);
        i = i + 1;
        assert(frame@ =~= head + value_bytes@.take(i as int));
    }
    assert(value_bytes@.take(value_bytes.len() as int) =~= value_bytes@);
    frame
}

/// Binary counter reading octet: sequence number in the low five bits,
/// carry in bit 5.
pub open spec fn bcr_octet(carry: bool, sequence: u8) -> u8 {
    ((sequence % 32) as int + if carry { 32int } else { 0int }) as u8
}

/// The 32-bit word of a signed counter.
pub open spec fn word_of_i32(v: i32) -> u32 {
    if v < 0 { (v + 0x1_0000_0000) as u32 } else { v as u32 }
}

/// Type identification and value octets a point value is sent with.
pub open spec fn spec_point_payload(v: DataPointValue) -> (u8, Seq<u8>) {
    match v {
        DataPointValue::SinglePoint { value } => (1, seq![if value { 1u8 } else { 0u8 }]),
        DataPointValue::DoublePoint { value } => (3, seq![value % 4]),
        DataPointValue::StepPosition { value, transient } =>
            (5, seq![((value as int % 128) + if transient { 128int } else { 0int }) as u8, 0u8]),
        DataPointValue::Bitstring { value } => (7, word32_octets(value) + seq![0u8]),
        DataPointValue::Normalized { raw } =>
            (9, seq![(word_of_i16(raw) % 256) as u8, (word_of_i16(raw) / 256) as u8, 0u8]),
        DataPointValue::Scaled { value } =>
            (11, seq![(word_of_i16(value) % 256) as u8, (word_of_i16(value) / 256) as u8, 0u8]),
        DataPointValue::ShortFloat { bits } => (13, word32_octets(bits) + seq![0u8]),
        DataPointValue::IntegratedTotal { value, carry, sequence } =>
            (15, word32_octets(word_of_i32(value)) + seq![bcr_octet(carry, sequence)]),
    }
}

/// The I-frame that carries a point value with the given cause.
pub open spec fn spec_point_frame(v: DataPointValue, cot: u8, ca: u16, ioa: u32, ssn: u8, rsn: u8) -> Seq<u8> {
    spec_i_frame(spec_point_payload(v).0, cot, ca, ioa, spec_point_payload(v).1, ssn, rsn)
}

fn i32_word(v: i32) -> (w: u32)
    ensures
        w == word_of_i32(v),
{
    if v < 0 { (v as i64 + 0x1_0000_0000) as u32 } else { v as u32 }
}

fn bcr(carry: bool, sequence: u8) -> (b: u8)
    ensures
        b == bcr_octet(carry, sequence),
{
    sequence % 32 + if carry { 32u8 } else { 0u8 }
}

fn point_payload(v: &DataPointValue) -> (r: (u8, Vec<u8>))
    ensures
        r.0 == spec_point_payload(*v).0,
        r.1@ == spec_point_payload(*v).1,
{
    let mut b: Vec<u8> = Vec::new();
    match v {
        DataPointValue::SinglePoint { value } => {
            b.push(if *value { 1u8 } else { 0u8 });
            assert(b@ =~= spec_point_payload(*v).1);
            (1, b)
        },
        DataPointValue::DoublePoint { value } => {
            b.push(*value % 4);
            assert(b@ =~= spec_point_payload(*v).1);
            (3, b)
        },
        DataPointValue::StepPosition { value, transient } => {
            let low: u8 = if *value < 0 { (*value as i16 + 128) as u8 } else { *value as u8 };
            b.push(low + if *transient { 128u8 } else { 0u8 });
            b.push(0);
            assert(b@ =~= spec_point_payload(*v).1);
            (5, b)
        },
        DataPointValue::Bitstring { value } => {
            push_word32(&mut b, *value);
            b.push(0);
            assert(b@ =~= spec_point_payload(*v).1);
            (7, b)
        },
        DataPointValue::Normalized { raw } => {
            let w = i16_word(*raw);
            b.push((w % 256) as u8);
            b.push((w / 256) as u8);
            b.push(0);
            assert(b@ =~= spec_point_payload(*v).1);
            (9, b)
        },
        DataPointValue::Scaled { value } => {
            let w = i16_word(*value);
            b.push((w % 256) as u8);
            b.push((w / 256) as u8);
            b.push(0);
            assert(b@ =~= spec_point_payload(*v).1);
            (11, b)
        },
        DataPointValue::ShortFloat { bits } => {
            push_word32(&mut b, *bits);
            b.push(0);
            assert(b@ =~= spec_point_payload(*v).1);
            (13, b)
        },
        DataPointValue::IntegratedTotal { value, carry, sequence } => {
            push_word32(&mut b, i32_word(*value));
            b.push(bcr(*carry, *sequence));
            assert(b@ =~= spec_point_payload(*v).1);
            (15, b)
        },
    }
}

/// Encode a data point value into an I-frame with the given COT.
pub fn encode_point_frame(value: &DataPointValue, cot: u8, ca: u16, ioa: u32, ssn: &mut u8, rsn: &mut u8) -> (f: Vec<u8>)
    ensures
        f@ == spec_point_frame(*value, cot, ca, ioa, *old(ssn), *old(rsn)),
        *final(ssn) == next_ctr(*old(ssn)),
        *final(rsn) == next_ctr(*old(rsn)),
{
    let (t, vals) = point_payload(value);
    build_i_frame(t, cot, ca, ioa, vals.as_slice(), ssn, rsn)
}

// ---------------------------------------------------------------------------
// Replies to client frames
// ---------------------------------------------------------------------------

/// The confirmation of a U-frame function (STARTDT, STOPDT, TESTFR), if it
/// is one.
pub open spec fn spec_u_reply(ctrl: u8) -> Seq<u8> {
    if ctrl == 0x07 { seq![0x68u8, 0x04u8, 0x0Bu8, 0u8, 0u8, 0u8] }
    else if ctrl == 0x13 { seq![0x68u8, 0x04u8, 0x23u8, 0u8, 0u8, 0u8] }
    else if ctrl == 0x43 { seq![0x68u8, 0x04u8, 0x83u8, 0u8, 0u8, 0u8] }
    else { Seq::empty() }
}

fn u_reply(ctrl: u8) -> (r: Vec<u8>)
    ensures
        r@ == spec_u_reply(ctrl),
{
    let code: u8 = if ctrl == 0x07 { 0x0B } else if ctrl == 0x13 { 0x23 } else if ctrl == 0x43 { 0x83 } else { return Vec::new() };
    let r = vec![0x68u8, 0x04u8, code, 0u8, 0u8, 0u8];
    assert(r@ =~= spec_u_reply(ctrl));
    r
}

/// The received frame sent back with its cause of transmission octet
/// replaced (confirmation 7, termination 10).
pub open spec fn echo_cot(d: Seq<u8>, cot: u8) -> Seq<u8> {
    d.update(8, cot)
}

fn echo_with_cot(data: &[u8], cot: u8) -> (r: Vec<u8>)
    requires
        data.len() > 8,
    ensures
        r@ == echo_cot(data@, cot),
{
    let mut r: Vec<u8> = Vec::new();
    let mut i: usize = 0;
    while i < data.len()
        invariant
            i <= data.len(),
            data.len() > 8,
            r@ == echo_cot(data@, cot).take(i as int),
        decreases data.len() - i,
    {
        r.push(if i == 8 { cot } else { data[i] });
        i = i + 1;
        assert(r@ =~= echo_cot(data@, cot).take(i as int));
    }
    assert(echo_cot(data@, cot).take(data.len() as int) =~= echo_cot(data@, cot));
    r
}

/// General interrogation reply frames (COT 20) for points `pts`, the first
/// sent with control octets `ssn` / `rsn`.
pub open spec fn spec_gi_frames(ca: u16, pts: Seq<DataPoint>, ssn: u8, rsn: u8) -> Seq<u8>
    decreases pts.len(),
{
    if pts.len() == 0 {
        Seq::empty()
    } else {
        let n = (pts.len() - 1) as nat;
        spec_gi_frames(ca, pts.drop_last(), ssn, rsn)
            + spec_point_frame(pts.last().value, 20, ca, pts.last().ioa, ctr_after(ssn, n), ctr_after(rsn, n))
    }
}

/// Whether a point holds an integrated total.
pub open spec fn is_counter(p: DataPoint) -> bool {
    p.value is IntegratedTotal
}

/// Counter interrogation reply frames (type 15, COT 37) for the counters
/// `its`.
pub open spec fn spec_ci_frames(ca: u16, its: Seq<DataPoint>, ssn: u8, rsn: u8) -> Seq<u8>
    decreases its.len(),
{
    if its.len() == 0 {
        Seq::empty()
    } else {
        let n = (its.len() - 1) as nat;
        spec_ci_frames(ca, its.drop_last(), ssn, rsn)
            + spec_i_frame(15, 37, ca, its.last().ioa, spec_point_payload(its.last().value).1, ctr_after(ssn, n), ctr_after(rsn, n))
    }
}

fn gi_frames(out: &mut Vec<u8>, ca: u16, pts: &Vec<DataPoint>, counters: &mut LinkCounters)
    ensures
        final(out)@ == old(out)@ + spec_gi_frames(ca, pts@, old(counters).ssn, old(counters).rsn),
        final(counters).ssn == ctr_after(old(counters).ssn, pts.len() as nat),
        final(counters).rsn == ctr_after(old(counters).rsn, pts.len() as nat),
{
    let ghost start = out@;
    let ghost c0 = *counters;
    let mut i: usize = 0;
    while i < pts.len()
        invariant
            i <= pts.len(),
            out@ == start + spec_gi_frames(ca, pts@.take(i as int), c0.ssn, c0.rsn),
            counters.ssn == ctr_after(c0.ssn, i as nat),
            counters.rsn == ctr_after(c0.rsn, i as nat),
        decreases pts.len() - i,
    {
        let p = pts[i];
        let mut f = encode_point_frame(&p.value, 20, ca, p.ioa, &mut counters.ssn, &mut counters.rsn);
        out.append(&mut f);
        proof {
            let t = pts@.take(i + 1);
            assert(t.drop_last() =~= pts@.take(i as int));
            assert(t.last() == p);
        }
        i = i + 1;
        assert(out@ =~= start + spec_gi_frames(ca, pts@.take(i as int), c0.ssn, c0.rsn));
    }
    assert(pts@.take(pts.len() as int) =~= pts@);
}

proof fn lemma_take_filter_step(s: Seq<DataPoint>, i: int)
    requires
        0 <= i < s.len(),
    ensures
        s.take(i + 1).filter(|p: DataPoint| is_counter(p)) == if is_counter(s[i]) {
            s.take(i).filter(|p: DataPoint| is_counter(p)).push(s[i])
        } else {
            s.take(i).filter(|p: DataPoint| is_counter(p))
        },
{
    reveal_with_fuel(Seq::filter, 1);
    assert(s.take(i + 1).drop_last() =~= s.take(i));
}

fn ci_frames(out: &mut Vec<u8>, ca: u16, pts: &Vec<DataPoint>, counters: &mut LinkCounters)
    ensures
        final(out)@ == old(out)@ + spec_ci_frames(ca, pts@.filter(|p: DataPoint| is_counter(p)), old(counters).ssn, old(counters).rsn),
        final(counters).ssn == ctr_after(old(counters).ssn, pts@.filter(|p: DataPoint| is_counter(p)).len()),
        final(counters).rsn == ctr_after(old(counters).rsn, pts@.filter(|p: DataPoint| is_counter(p)).len()),
{
    let ghost start = out@;
    let ghost c0 = *counters;
    let mut i: usize = 0;
    while i < pts.len()
        invariant
            i <= pts.len(),
            out@ == start + spec_ci_frames(ca, pts@.take(i as int).filter(|p: DataPoint| is_counter(p)), c0.ssn, c0.rsn),
            counters.ssn == ctr_after(c0.ssn, pts@.take(i as int).filter(|p: DataPoint| is_counter(p)).len()),
            counters.rsn == ctr_after(c0.rsn, pts@.take(i as int).filter(|p: DataPoint| is_counter(p)).len()),
        decreases pts.len() - i,
    {
        let p = pts[i];
        proof { lemma_take_filter_step(pts@, i as int); }
        match p.value {
            DataPointValue::IntegratedTotal { value, carry, sequence } => {
                let mut vals: Vec<u8> = Vec::new();
                push_word32(&mut vals, i32_word(value));
                vals.push(bcr(carry, sequence));
                assert(vals@ =~= spec_point_payload(p.value).1);
                let mut f = build_i_frame(15, 37, ca, p.ioa, vals.as_slice(), &mut counters.ssn, &mut counters.rsn);
                out.append(&mut f);
                proof {
                    let its = pts@.take(i + 1).filter(|p: DataPoint| is_counter(p));
                    assert(its.drop_last() =~= pts@.take(i as int).filter(|p: DataPoint| is_counter(p)));
                }
            },
            _ => {},
        }
        i = i + 1;
        assert(out@ =~= start + spec_ci_frames(ca, pts@.take(i as int).filter(|p: DataPoint| is_counter(p)), c0.ssn, c0.rsn));
    }
    assert(pts@.take(pts.len() as int) =~= pts@);
}

// ---------------------------------------------------------------------------
// Control commands
// ---------------------------------------------------------------------------

/// Category of the point a command type acts on.
pub open spec fn cmd_category(t: u8) -> DataCategory {
    if t == 45 { DataCategory::SinglePoint }
    else if t == 46 { DataCategory::DoublePoint }
    else if t == 47 { DataCategory::StepPosition }
    else if t == 48 { DataCategory::NormalizedMeasured }
    else if t == 49 { DataCategory::ScaledMeasured }
    else { DataCategory::FloatMeasured }
}

fn command_category(t: u8) -> (c: DataCategory)
    ensures
        c == cmd_category(t),
{
    if t == 45 { DataCategory::SinglePoint }
    else if t == 46 { DataCategory::DoublePoint }
    else if t == 47 { DataCategory::StepPosition }
    else if t == 48 { DataCategory::NormalizedMeasured }
    else if t == 49 { DataCategory::ScaledMeasured }
    else { DataCategory::FloatMeasured }
}

/// Octets a command frame of type `t` needs, its qualifier being the last.
pub open spec fn cmd_min_len(t: u8) -> int {
    if t <= 47 { 16 } else if t <= 49 { 18 } else { 20 }
}

/// A step position after a regulating step (1 lower, 2 higher), kept
/// within -64..=63.
pub open spec fn stepped(v: i8, step: u8) -> i8 {
    if step == 1 { if v > -64 { (v - 1) as i8 } else { v } }
    else if step == 2 { if v < 63 { (v + 1) as i8 } else { v } }
    else { v }
}

/// The value a command of type `t` writes into a point holding `old`;
/// `None` where it writes nothing (a step command on a point that holds no
/// step position).
pub open spec fn cmd_value(t: u8, d: Seq<u8>, old: DataPointValue) -> Option<DataPointValue> {
    if t == 45 {
        Some(DataPointValue::SinglePoint { value: d[15] % 2 == 1 })
    } else if t == 46 {
        Some(DataPointValue::DoublePoint { value: d[15] % 4 })
    } else if t == 47 {
        match old {
            DataPointValue::StepPosition { value, transient } =>
                Some(DataPointValue::StepPosition { value: stepped(value, d[15] % 4), transient }),
            _ => None,
        }
    } else if t == 48 {
        Some(DataPointValue::Normalized { raw: i16_of(le16(d[15], d[16])) })
    } else if t == 49 {
        Some(DataPointValue::Scaled { value: i16_of(le16(d[15], d[16])) })
    } else {
        Some(DataPointValue::ShortFloat { bits: le32(d[15], d[16], d[17], d[18]) })
    }
}

fn command_value(t: u8, data: &[u8], old: &DataPointValue) -> (v: Option<DataPointValue>)
    requires
        45 <= t <= 50,
        data.len() >= cmd_min_len(t),
    ensures
        v == cmd_value(t, data@, *old),
{
    if t == 45 {
        Some(DataPointValue::SinglePoint { value: data[15] % 2 == 1 })
    } else if t == 46 {
        Some(DataPointValue::DoublePoint { value: data[15] % 4 })
    } else if t == 47 {
        match old {
            DataPointValue::StepPosition { value, transient } => {
                let step = data[15] % 4;
                let v: i8 = if step == 1 {
                    if *value > -64 { *value - 1 } else { *value }
                } else if step == 2 {
                    if *value < 63 { *value + 1 } else { *value }
                } else {
                    *value
                };
                Some(DataPointValue::StepPosition { value: v, transient: *transient })
            },
            _ => None,
        }
    } else if t == 48 {
        Some(DataPointValue::Normalized { raw: to_i16(read_le16(data, 15)) })
    } else if t == 49 {
        Some(DataPointValue::Scaled { value: to_i16(read_le16(data, 15)) })
    } else {
        Some(DataPointValue::ShortFloat { bits: read_le32(data, 15) })
    }
}

/// The point a command addressed to `ioa` at station `ca` acts on.
pub open spec fn cmd_target(tab: Map<u16, Station>, ca: u16, ioa: u32, t: u8) -> Option<DataPoint> {
    if tab.contains_key(ca) {
        spec_by_category(tab[ca].data_points.entries(), ioa, cmd_category(t))
    } else {
        None
    }
}

/// Whether `d` is an I-format frame with a complete ASDU header.
pub open spec fn is_i_frame(d: Seq<u8>) -> bool {
    d.len() >= 12 && d[0] == 0x68 && d[2] % 4 != 3 && d[2] % 2 == 0
}

/// Common address of an ASDU.
pub open spec fn frame_ca(d: Seq<u8>) -> u16 {
    le16(d[10], d[11])
}

/// IOA of the (single) object of a command.
pub open spec fn frame_ioa(d: Seq<u8>) -> u32 {
    le24(d[12], d[13], d[14])
}

/// Whether `d` is a complete control command in direct-execute (or
/// execute) mode, as opposed to select.
pub open spec fn is_execute_command(d: Seq<u8>) -> bool {
    &&& is_i_frame(d)
    &&& 45 <= d[6] <= 50
    &&& d.len() >= cmd_min_len(d[6])
    &&& d[cmd_min_len(d[6]) - 1] < 128
}

/// The write-back an executed command makes: station, target point and
/// the value it takes.
pub open spec fn spec_write_back(tab: Map<u16, Station>, d: Seq<u8>) -> Option<(u16, DataPoint, DataPointValue)> {
    if is_execute_command(d) {
        match cmd_target(tab, frame_ca(d), frame_ioa(d), d[6]) {
            Some(p) => match cmd_value(d[6], d, p.value) {
                Some(v) => Some((frame_ca(d), p, v)),
                None => None,
            },
            None => None,
        }
    } else {
        None
    }
}

/// The station table after handling `d` at time `ts`.
pub open spec fn table_after(tab: Map<u16, Station>, tab2: Map<u16, Station>, d: Seq<u8>, ts: i64) -> bool {
    match spec_write_back(tab, d) {
        Some((ca, p, v)) => {
            &&& tab2.dom() == tab.dom()
            &&& forall|c: u16| c != ca && #[trigger] tab.contains_key(c) ==> tab2[c] == tab[c]
            &&& station_point_set(tab[ca], tab2[ca], key_of(p), with_value_at(p, v, Some(ts)))
        },
        None => tab2 == tab,
    }
}

/// Reply to a control command: confirmation; for an execute also the
/// termination and a spontaneous frame (COT 3, fresh control octets) with
/// the target's value after the command.
pub open spec fn spec_command_reply(tab: Map<u16, Station>, d: Seq<u8>) -> Seq<u8> {
    let t = d[6];
    if d.len() < cmd_min_len(t) {
        Seq::empty()
    } else if d[cmd_min_len(t) - 1] >= 128 {
        echo_cot(d, 7)
    } else {
        let spont = match cmd_target(tab, frame_ca(d), frame_ioa(d), t) {
            Some(p) => {
                let v = match cmd_value(t, d, p.value) { Some(v) => v, None => p.value };
                spec_point_frame(v, 3, frame_ca(d), frame_ioa(d), 0, 0)
            },
            None => Seq::empty(),
        };
        echo_cot(d, 7) + echo_cot(d, 10) + spont
    }
}

/// The points of the station at `ca` in key order (none when absent).
pub open spec fn station_points(tab: Map<u16, Station>, ca: u16) -> Seq<DataPoint> {
    if tab.contains_key(ca) { tab[ca].data_points.entries() } else { Seq::empty() }
}

/// The octets a server sends in reply to the frame `d`, and its control
/// octets afterwards.
pub open spec fn spec_reply(tab: Map<u16, Station>, d: Seq<u8>, ssn: u8, rsn: u8) -> (Seq<u8>, u8, u8) {
    if !(d.len() >= 6 && d[0] == 0x68) {
        (Seq::empty(), ssn, rsn)
    } else if d[2] % 4 == 3 {
        (spec_u_reply(d[2]), ssn, rsn)
    } else if d[2] % 2 == 0 && d.len() >= 12 {
        let t = d[6];
        let ca = frame_ca(d);
        if t == 100 {
            let pts = station_points(tab, ca);
            (echo_cot(d, 7) + spec_gi_frames(ca, pts, ssn, rsn) + echo_cot(d, 10),
                ctr_after(ssn, pts.len()), ctr_after(rsn, pts.len()))
        } else if t == 101 {
            let its = station_points(tab, ca).filter(|p: DataPoint| is_counter(p));
            (echo_cot(d, 7) + spec_ci_frames(ca, its, ssn, rsn) + echo_cot(d, 10),
                ctr_after(ssn, its.len()), ctr_after(rsn, its.len()))
        } else if t == 103 {
            (echo_cot(d, 7), ssn, rsn)
        } else if 45 <= t <= 50 {
            (spec_command_reply(tab, d), ssn, rsn)
        } else {
            (Seq::empty(), ssn, rsn)
        }
    } else {
        (Seq::empty(), ssn, rsn)
    }
}

fn command_reply(table: &mut StationTable, data: &[u8], timestamp: i64) -> (out: Vec<u8>)
    requires
        old(table).wf(),
        is_i_frame(data@),
        45 <= data@[6] <= 50,
    ensures
        final(table).wf(),
        out@ == spec_command_reply(old(table)@, data@),
        table_after(old(table)@, final(table)@, data@, timestamp),
{
    let t = data[6];
    let min_len: usize = if t <= 47 { 16 } else if t <= 49 { 18 } else { 20 };
    if data.len() < min_len {
        return Vec::new();
    }
    let ca = read_le16(data, 10);
    let ioa = read_le24(data, 12);
    let select = data[min_len - 1] >= 128;
    let ghost tab0 = table@;
    let target: Option<DataPoint> = match table.get(ca) {
        Some(st) => match st.data_points.get_by_category(ioa, command_category(t)) {
            Some(p) => Some(*p),
            None => None,
        },
        None => None,
    };
    assert(target == cmd_target(tab0, ca, ioa, t));
    let mut out = echo_with_cot(data, 7);
    if select {
        return out;
    }
    let mut spont: Vec<u8> = Vec::new();
    match target {
        Some(p) => {
            let nv = command_value(t, data, &p.value);
            let v = match nv {
                Some(v) => {
                    proof {
                        table.lemma_keys(ca);
                        crate::data_point::lemma_by_category_in_map(tab0[ca].data_points.entries(), ioa, cmd_category(t));
                    }
                    let found = table.set_point_value(ca, p.ioa, p.asdu_type, v, Some(timestamp));
                    v
                },
                None => p.value,
            };
            let mut s0: u8 = 0;
            let mut r0: u8 = 0;
            spont = encode_point_frame(&v, 3, ca, ioa, &mut s0, &mut r0);
        },
        None => {},
    }
    let mut term = echo_with_cot(data, 10);
    out.append(&mut term);
    out.append(&mut spont);
    out
}

/// Handle one frame from a client: returns the octets to send back, in
/// order, updating the stations on an executed control command (stamped
/// `timestamp`) and the control octets used for interrogation replies.
pub fn handle_client_frame(table: &mut StationTable, data: &[u8], counters: &mut LinkCounters, timestamp: i64) -> (out: Vec<u8>)
    requires
        old(table).wf(),
    ensures
        final(table).wf(),
        (out@, final(counters).ssn, final(counters).rsn) == spec_reply(old(table)@, data@, old(counters).ssn, old(counters).rsn),
        table_after(old(table)@, final(table)@, data@, timestamp),
{
    if !(data.len() >= 6 && data[0] == 0x68) {
        return Vec::new();
    }
    let ctrl1 = data[2];
    if ctrl1 % 4 == 3 {
        return u_reply(ctrl1);
    }
    if !(ctrl1 % 2 == 0 && data.len() >= 12) {
        return Vec::new();
    }
    let t = data[6];
    let ca = read_le16(data, 10);
    if t == 100 {
        let mut out = echo_with_cot(data, 7);
        match table.get(ca) {
            Some(st) => {
                let pts = st.data_points.all_sorted();
                gi_frames(&mut out, ca, &pts, counters);
            },
            None => {},
        }
        let mut term = echo_with_cot(data, 10);
        out.append(&mut term);
        out
    } else if t == 101 {
        let mut out = echo_with_cot(data, 7);
        match table.get(ca) {
            Some(st) => {
                let pts = st.data_points.all_sorted();
                ci_frames(&mut out, ca, &pts, counters);
            },
            None => {
                assert(Seq::<DataPoint>::empty().filter(|p: DataPoint| is_counter(p)) =~= Seq::<DataPoint>::empty());
            },
        }
        let mut term = echo_with_cot(data, 10);
        out.append(&mut term);
        out
    } else if t == 103 {
        echo_with_cot(data, 7)
    } else if 45 <= t && t <= 50 {
        command_reply(table, data, timestamp)
    } else {
        Vec::new()
    }
}

// ---------------------------------------------------------------------------
// Spontaneous and cyclic transmission
// ---------------------------------------------------------------------------

/// Keys of a memo sequence are pairwise distinct.
pub open spec fn memo_distinct(s: Seq<(u32, String)>) -> bool {
    forall|i: int, j: int| 0 <= i < j < s.len() ==> (#[trigger] s[i]).0 != (#[trigger] s[j]).0
}

/// The map from IOA to text that a memo sequence describes.
pub open spec fn memo_map(s: Seq<(u32, String)>) -> Map<u32, Seq<char>> {
    Map::new(
        |k: u32| exists|i: int| 0 <= i < s.len() && (#[trigger] s[i]).0 == k,
        |k: u32| s[choose|i: int| 0 <= i < s.len() && (#[trigger] s[i]).0 == k].1@,
    )
}

proof fn lemma_memo_index(s: Seq<(u32, String)>, i: int)
    requires
        memo_distinct(s),
        0 <= i < s.len(),
    ensures
        memo_map(s).contains_key(s[i].0),
        memo_map(s)[s[i].0] == s[i].1@,
{
    let k = s[i].0;
    assert(0 <= i < s.len() && s[i].0 == k);
    let j = choose|j: int| 0 <= j < s.len() && (#[trigger] s[j]).0 == k;
    if j != i {
        if j < i {
            assert(s[j].0 != s[i].0);
        } else {
            assert(s[i].0 != s[j].0);
        }
    }
}

/// The text last sent for each IOA on one connection.
#[derive(Debug)]
pub struct SentMemo {
    entries: Vec<(u32, String)>,
}

impl View for SentMemo {
    type V = Map<u32, Seq<char>>;

    open spec fn view(&self) -> Map<u32, Seq<char>> {
        memo_map(self.memo_entries())
    }
}

impl SentMemo {
    /// The (IOA, text) entries.
    pub closed spec fn memo_entries(&self) -> Seq<(u32, String)> {
        self.entries@
    }

    pub open spec fn wf(&self) -> bool {
        memo_distinct(self.memo_entries())
    }

    pub fn new() -> (m: SentMemo)
        ensures
            m.wf(),
            m@ == Map::<u32, Seq<char>>::empty(),
    {
        let m = SentMemo { entries: Vec::new() };
        assert(m@ =~= Map::<u32, Seq<char>>::empty());
        m
    }

    fn find(&self, ioa: u32) -> (r: Option<usize>)
        requires
            self.wf(),
        ensures
            r is Some <==> self@.contains_key(ioa),
            r matches Some(i) ==> i < self.entries@.len() && self.entries@[i as int].0 == ioa
                && self.entries@[i as int].1@ == self@[ioa],
    {
        let mut i: usize = 0;
        while i < self.entries.len()
            invariant
                i <= self.entries.len(),
                self.wf(),
                forall|j: int| 0 <= j < i ==> (#[trigger] self.entries@[j]).0 != ioa,
            decreases self.entries.len() - i,
        {
            if self.entries[i].0 == ioa {
                proof { lemma_memo_index(self.entries@, i as int); }
                return Some(i);
            }
            i = i + 1;
        }
        None
    }

    /// Whether the text last sent for `ioa` is `text`.
    pub fn sent_same(&self, ioa: u32, text: &String) -> (b: bool)
        requires
            self.wf(),
        ensures
            b == (self@.contains_key(ioa) && self@[ioa] == text@),
    {
        match self.find(ioa) {
            Some(i) => self.entries[i].1 == *text,
            None => false,
        }
    }

    /// Record `text` as the last text sent for `ioa`.
    pub fn record(&mut self, ioa: u32, text: String)
        requires
            old(self).wf(),
        ensures
            final(self).wf(),
            final(self)@ == old(self)@.insert(ioa, text@),
    {
        let ghost s0 = self.entries@;
        let ghost tv = text@;
        match self.find(ioa) {
            Some(i) => {
                self.entries.set(i, (ioa, text));
                proof {
                    let s1 = self.entries@;
                    assert(s1 == s0.update(i as int, (ioa, s1[i as int].1)));
                    assert(memo_distinct(s1)) by {
                        assert forall|a: int, b: int| 0 <= a < b < s1.len() implies (#[trigger] s1[a]).0 != (#[trigger] s1[b]).0 by {
                            assert(s0[a].0 != s0[b].0);
                        }
                    }
                    assert forall|k: u32| #[trigger] memo_map(s1).contains_key(k) <==> old(self)@.insert(ioa, tv).contains_key(k) by {
                        if memo_map(s0).contains_key(k) {
                            let j = choose|j: int| 0 <= j < s0.len() && (#[trigger] s0[j]).0 == k;
                            assert(s1[j].0 == k);
                        }
                        if memo_map(s1).contains_key(k) {
                            let j = choose|j: int| 0 <= j < s1.len() && (#[trigger] s1[j]).0 == k;
                            assert(s0[j].0 == k);
                        }
                    }
                    assert forall|k: u32| #[trigger] memo_map(s1).contains_key(k) implies memo_map(s1)[k] == old(self)@.insert(ioa, tv)[k] by {
                        let j = choose|j: int| 0 <= j < s1.len() && (#[trigger] s1[j]).0 == k;
                        lemma_memo_index(s1, j);
                        if j != i {
                            lemma_memo_index(s0, j);
                        }
                    }
                    assert(memo_map(s1) =~= old(self)@.insert(ioa, tv));
                }
            },
            None => {
                self.entries.push((ioa, text));
                proof {
                    let s1 = self.entries@;
                    assert(memo_distinct(s1)) by {
                        assert forall|a: int, b: int| 0 <= a < b < s1.len() implies (#[trigger] s1[a]).0 != (#[trigger] s1[b]).0 by {
                            if b == s0.len() {
                                if s0[a].0 == ioa {
                                    lemma_memo_index(s0, a);
                                }
                            } else {
                                assert(s0[a].0 != s0[b].0);
                            }
                        }
                    }
                    assert forall|k: u32| #[trigger] memo_map(s1).contains_key(k) <==> old(self)@.insert(ioa, tv).contains_key(k) by {
                        if memo_map(s0).contains_key(k) {
                            let j = choose|j: int| 0 <= j < s0.len() && (#[trigger] s0[j]).0 == k;
                            assert(s1[j].0 == k);
                        }
                        if memo_map(s1).contains_key(k) && k != ioa {
                            let j = choose|j: int| 0 <= j < s1.len() && (#[trigger] s1[j]).0 == k;
                            assert(s0[j].0 == k);
                        }
                        if k == ioa {
                            assert(s1[s0.len() as int].0 == k);
                        }
                    }
                    assert forall|k: u32| #[trigger] memo_map(s1).contains_key(k) implies memo_map(s1)[k] == old(self)@.insert(ioa, tv)[k] by {
                        let j = choose|j: int| 0 <= j < s1.len() && (#[trigger] s1[j]).0 == k;
                        lemma_memo_index(s1, j);
                        if j < s0.len() {
                            lemma_memo_index(s0, j);
                        }
                    }
                    assert(memo_map(s1) =~= old(self)@.insert(ioa, tv));
                }
            },
        }
    }
}

/// Per-connection transmission state for server-originated frames: the
/// control octets and the text last sent for each IOA.
#[derive(Debug)]
pub struct ConnState {
    pub counters: LinkCounters,
    pub last_sent: SentMemo,
}

impl ConnState {
    pub fn new() -> (c: ConnState)
        ensures
            c.counters == (LinkCounters { ssn: 0, rsn: 0 }),
            c.last_sent.wf(),
            c.last_sent@ == Map::<u32, Seq<char>>::empty(),
    {
        ConnState { counters: LinkCounters { ssn: 0, rsn: 0 }, last_sent: SentMemo::new() }
    }
}

/// Octets, memo and control octets after offering the first `n` points of
/// `pts` (display texts `texts`) for spontaneous transmission (COT 3). With
/// `only_changed`, a point whose text equals the one last sent for its IOA
/// is skipped.
pub open spec fn spec_send(
    memo: Map<u32, Seq<char>>,
    ssn: u8,
    rsn: u8,
    ca: u16,
    pts: Seq<DataPoint>,
    texts: Seq<Seq<char>>,
    only_changed: bool,
    n: nat,
) -> (Seq<u8>, Map<u32, Seq<char>>, u8, u8)
    decreases n,
{
    if n == 0 {
        (Seq::empty(), memo, ssn, rsn)
    } else {
        let st = spec_send(memo, ssn, rsn, ca, pts, texts, only_changed, (n - 1) as nat);
        let p = pts[n - 1];
        let t = texts[n - 1];
        if only_changed && st.1.contains_key(p.ioa) && st.1[p.ioa] == t {
            st
        } else {
            (st.0 + spec_point_frame(p.value, 3, ca, p.ioa, st.2, st.3), st.1.insert(p.ioa, t), next_ctr(st.2), next_ctr(st.3))
        }
    }
}

impl ConnState {
    /// Frames for points of the station at `ca`, each given with the text
    /// its value displays as; see `spec_send`.
    pub fn send_points(&mut self, ca: u16, pts: &Vec<DataPoint>, texts: &Vec<String>, only_changed: bool) -> (out: Vec<u8>)
        requires
            old(self).last_sent.wf(),
            texts.len() == pts.len(),
        ensures
            final(self).last_sent.wf(),
            (out@, final(self).last_sent@, final(self).counters.ssn, final(self).counters.rsn) == spec_send(
                old(self).last_sent@, old(self).counters.ssn, old(self).counters.rsn, ca, pts@,
                texts@.map_values(|s: String| s@), only_changed, pts.len() as nat),
    {
        let ghost tv = texts@.map_values(|s: String| s@);
        let mut out: Vec<u8> = Vec::new();
        let mut i: usize = 0;
        while i < pts.len()
            invariant
                i <= pts.len(),
                texts.len() == pts.len(),
                tv == texts@.map_values(|s: String| s@),
                self.last_sent.wf(),
                (out@, self.last_sent@, self.counters.ssn, self.counters.rsn) == spec_send(
                    old(self).last_sent@, old(self).counters.ssn, old(self).counters.rsn, ca, pts@, tv, only_changed, i as nat),
            decreases pts.len() - i,
        {
            let p = pts[i];
            let skip = only_changed && self.last_sent.sent_same(p.ioa, &texts[i]);
            if !skip {
                let mut f = encode_point_frame(&p.value, 3, ca, p.ioa, &mut self.counters.ssn, &mut self.counters.rsn);
                out.append(&mut f);
                self.last_sent.record(p.ioa, texts[i].clone());
            }
            i = i + 1;
        }
        out
    }
}

/// The points of station `ca` asked for by `keys`, in the order asked,
/// leaving out those that do not exist.
pub open spec fn spec_points_for(tab: Map<u16, Station>, ca: u16, keys: Seq<(u32, AsduTypeId)>) -> Seq<DataPoint>
    decreases keys.len(),
{
    if keys.len() == 0 || !tab.contains_key(ca) {
        Seq::empty()
    } else {
        let rest = spec_points_for(tab, ca, keys.drop_last());
        let m = tab[ca].data_points@;
        if m.contains_key(keys.last()) { rest.push(m[keys.last()]) } else { rest }
    }
}

/// The points to send spontaneously for the given keys of station `ca`.
pub fn points_for(table: &StationTable, ca: u16, keys: &[(u32, AsduTypeId)]) -> (r: Vec<DataPoint>)
    requires
        table.wf(),
    ensures
        r@ == spec_points_for(table@, ca, keys@),
{
    let mut r: Vec<DataPoint> = Vec::new();
    match table.get(ca) {
        Some(st) => {
            let mut i: usize = 0;
            while i < keys.len()
                invariant
                    i <= keys.len(),
                    table.wf(),
                    table@.contains_key(ca),
                    *st == table@[ca],
                    st.data_points.wf(),
                    r@ == spec_points_for(table@, ca, keys@.take(i as int)),
                decreases keys.len() - i,
            {
                let (ioa, t) = keys[i];
                assert(keys@.take(i + 1).drop_last() =~= keys@.take(i as int));
                match st.data_points.get(ioa, t) {
                    Some(p) => r.push(*p),
                    None => {},
                }
                i = i + 1;
            }
            assert(keys@.take(keys.len() as int) =~= keys@);
        },
        None => {},
    }
    r
}

/// Texts of the points of each station, as plain character sequences.
pub open spec fn texts_view(texts: Seq<Vec<String>>) -> Seq<Seq<Seq<char>>> {
    texts.map_values(|v: Vec<String>| v@.map_values(|s: String| s@))
}

/// Octets, memo and control octets after one cyclic round over the first
/// `n` stations: each station with cyclic transmission enabled, in order,
/// sends those of its points whose text differs from the one last sent.
pub open spec fn spec_cyclic(
    memo: Map<u32, Seq<char>>,
    ssn: u8,
    rsn: u8,
    sts: Seq<Station>,
    texts: Seq<Seq<Seq<char>>>,
    n: nat,
) -> (Seq<u8>, Map<u32, Seq<char>>, u8, u8)
    decreases n,
{
    if n == 0 {
        (Seq::empty(), memo, ssn, rsn)
    } else {
        let st = spec_cyclic(memo, ssn, rsn, sts, texts, (n - 1) as nat);
        let s = sts[n - 1];
        if s.cyclic_config.enabled {
            let pts = s.data_points.entries();
            let r = spec_send(st.1, st.2, st.3, s.common_address, pts, texts[n - 1], true, pts.len());
            (st.0 + r.0, r.1, r.2, r.3)
        } else {
            st
        }
    }
}

impl ConnState {
    /// The frames of one cyclic round on this connection; `texts[i][j]` is
    /// the text the `j`-th point (in key order) of the `i`-th station (in
    /// CA order) displays as.
    pub fn cyclic_frames(&mut self, table: &StationTable, texts: &Vec<Vec<String>>) -> (out: Vec<u8>)
        requires
            table.wf(),
            old(self).last_sent.wf(),
            texts.len() == table.entries().len(),
            forall|i: int| 0 <= i < texts.len() ==> (#[trigger] texts@[i]).len() == table.entries()[i].data_points.entries().len(),
        ensures
            final(self).last_sent.wf(),
            (out@, final(self).last_sent@, final(self).counters.ssn, final(self).counters.rsn) == spec_cyclic(
                old(self).last_sent@, old(self).counters.ssn, old(self).counters.rsn, table.entries(), texts_view(texts@),
                table.entries().len()),
    {
        let stations = table.stations();
        let ghost tv = texts_view(texts@);
        let mut out: Vec<u8> = Vec::new();
        let mut i: usize = 0;
        while i < stations.len()
            invariant
                i <= stations.len(),
                stations@ == table.entries(),
                texts.len() == stations.len(),
                forall|j: int| 0 <= j < texts.len() ==> (#[trigger] texts@[j]).len() == table.entries()[j].data_points.entries().len(),
                tv == texts_view(texts@),
                self.last_sent.wf(),
                (out@, self.last_sent@, self.counters.ssn, self.counters.rsn) == spec_cyclic(
                    old(self).last_sent@, old(self).counters.ssn, old(self).counters.rsn, table.entries(), tv, i as nat),
            decreases stations.len() - i,
        {
            let st = &stations[i];
            if st.cyclic_config.enabled {
                let pts = st.data_points.all_sorted();
                assert(texts@[i as int]@.map_values(|s: String| s@) == tv[i as int]);
                let mut f = self.send_points(st.common_address, &pts, &texts[i], true);
                out.append(&mut f);
            }
            i = i + 1;
        }
        out
    }
}

} // verus!
