//! APCI layer: classification of an APDU into I-, S- and U-frames, and the
//! reassembly of APDUs out of a byte stream.
use crate::text::{hex_byte_text, push_char, push_decimal, push_hex_byte, dec_text};
use vstd::prelude::*;

verus! {

/// Little-endian 16-bit word of two octets.
pub open spec fn le16(lo: u8, hi: u8) -> u16 {
    (lo as int + 256 * hi as int) as u16
}

/// Kinds of unnumbered (U) frames.
#[derive(Debug, Clone, Copy, PartialEq, Eq, Structural)]
pub enum UFrameKind {
    StartDtAct,
    StartDtCon,
    StopDtAct,
    StopDtCon,
    TestFrAct,
    TestFrCon,
}

impl UFrameKind {
    /// Control octet of each U-frame kind.
    pub open spec fn code(self) -> u8 {
        match self {
            UFrameKind::StartDtAct => 0x07,
            UFrameKind::StartDtCon => 0x0B,
            UFrameKind::StopDtAct => 0x13,
            UFrameKind::StopDtCon => 0x23,
            UFrameKind::TestFrAct => 0x43,
            UFrameKind::TestFrCon => 0x83,
        }
    }

    /// The U-frame kind whose control octet is `b`, if any.
    pub open spec fn spec_from_code(b: u8) -> Option<UFrameKind> {
        if b == 0x07 { Some(UFrameKind::StartDtAct) }
        else if b == 0x0B { Some(UFrameKind::StartDtCon) }
        else if b == 0x13 { Some(UFrameKind::StopDtAct) }
        else if b == 0x23 { Some(UFrameKind::StopDtCon) }
        else if b == 0x43 { Some(UFrameKind::TestFrAct) }
        else if b == 0x83 { Some(UFrameKind::TestFrCon) }
        else { None }
    }

    pub open spec fn spec_name(self) -> Seq<char> {
        match self {
            UFrameKind::StartDtAct => "STARTDT ACT"@,
            UFrameKind::StartDtCon => "STARTDT CON"@,
            UFrameKind::StopDtAct => "STOPDT ACT"@,
            UFrameKind::StopDtCon => "STOPDT CON"@,
            UFrameKind::TestFrAct => "TESTFR ACT"@,
            UFrameKind::TestFrCon => "TESTFR CON"@,
        }
    }

    /// Name of the U-frame function, e.g. `STARTDT ACT`.
    pub fn name(self) -> (s: &'static str)
        ensures
            s@ == self.spec_name(),
    {
        match self {
            UFrameKind::StartDtAct => "STARTDT ACT",
            UFrameKind::StartDtCon => "STARTDT CON",
            UFrameKind::StopDtAct => "STOPDT ACT",
            UFrameKind::StopDtCon => "STOPDT CON",
            UFrameKind::TestFrAct => "TESTFR ACT",
            UFrameKind::TestFrCon => "TESTFR CON",
        }
    }

    /// Look up the U-frame kind of a control octet.
    pub fn from_u8(b: u8) -> (k: Option<UFrameKind>)
        ensures
            k == Self::spec_from_code(b),
    {
        if b == 0x07 { Some(UFrameKind::StartDtAct) }
        else if b == 0x0B { Some(UFrameKind::StartDtCon) }
        else if b == 0x13 { Some(UFrameKind::StopDtAct) }
        else if b == 0x23 { Some(UFrameKind::StopDtCon) }
        else if b == 0x43 { Some(UFrameKind::TestFrAct) }
        else if b == 0x83 { Some(UFrameKind::TestFrCon) }
        else { None }
    }
}

/// APCI classification of an APDU.
#[derive(Debug, Clone, Copy, PartialEq, Eq, Structural)]
pub enum FrameType {
    IFrame { send_seq: u16, recv_seq: u16 },
    SFrame { recv_seq: u16 },
    UFrame { kind: UFrameKind },
}

/// Why an APDU could not be classified.
#[derive(Debug, Clone, Copy, PartialEq, Eq, Structural)]
pub enum FrameError {
    TooShort(usize),
    InvalidStart(u8),
    UnknownUFrame(u8),
}

/// APCI classification of a byte sequence.
pub open spec fn spec_parse_apci(d: Seq<u8>) -> Result<FrameType, FrameError> {
    if d.len() < 6 {
        Err(FrameError::TooShort(d.len() as usize))
    } else if d[0] != 0x68 {
        Err(FrameError::InvalidStart(d[0]))
    } else if d[2] % 2 == 0 {
        Ok(FrameType::IFrame { send_seq: le16(d[2], d[3]) / 2, recv_seq: le16(d[4], d[5]) / 2 })
    } else if d[2] % 4 == 1 {
        Ok(FrameType::SFrame { recv_seq: le16(d[4], d[5]) / 2 })
    } else {
        match UFrameKind::spec_from_code(d[2]) {
            Some(kind) => Ok(FrameType::UFrame { kind }),
            None => Err(FrameError::UnknownUFrame(d[2])),
        }
    }
}

/// Classify an APDU by its control field.
pub fn parse_apci(data: &[u8]) -> (r: Result<FrameType, FrameError>)
    ensures
        r == spec_parse_apci(data@),
{
    if data.len() < 6 {
        return Err(FrameError::TooShort(data.len()));
    }
    if data[0] != 0x68 {
        return Err(FrameError::InvalidStart(data[0]));
    }
    let ctrl1 = data[2];
    let send_word: u16 = data[2] as u16 + data[3] as u16 * 256;
    let recv_word: u16 = data[4] as u16 + data[5] as u16 * 256;
    if ctrl1 % 2 == 0 {
        Ok(FrameType::IFrame { send_seq: send_word / 2, recv_seq: recv_word / 2 })
    } else if ctrl1 % 4 == 1 {
        Ok(FrameType::SFrame { recv_seq: recv_word / 2 })
    } else {
        match UFrameKind::from_u8(ctrl1) {
            Some(kind) => Ok(FrameType::UFrame { kind }),
            None => Err(FrameError::UnknownUFrame(ctrl1)),
        }
    }
}

impl FrameError {
    pub open spec fn spec_message(self) -> Seq<char> {
        match self {
            FrameError::TooShort(n) => "frame too short: "@ + dec_text(n as nat) + " bytes"@,
            FrameError::InvalidStart(b) => "invalid start byte 0x"@ + hex_byte_text(b),
            FrameError::UnknownUFrame(b) => "unknown U-frame control byte 0x"@ + hex_byte_text(b),
        }
    }

    /// Text of the error.
    pub fn message(&self) -> (s: String)
        ensures
            s@ == self.spec_message(),
    {
        match self {
            FrameError::TooShort(n) => {
                let mut s = String::from_str("frame too short: ");
                push_decimal(&mut s, *n as u64);
                s.append(" bytes");
                s
            },
            FrameError::InvalidStart(b) => {
                let mut s = String::from_str("invalid start byte 0x");
                push_hex_byte(&mut s, *b);
                s
            },
            FrameError::UnknownUFrame(b) => {
                let mut s = String::from_str("unknown U-frame control byte 0x");
                push_hex_byte(&mut s, *b);
                s
            },
        }
    }
}

/// One step of stream reassembly: bytes before a start octet are dropped
/// (as long as at least two bytes are buffered), then a complete APDU, whose
/// length is its second octet plus two, is split off the front.
pub open spec fn spec_next_frame(b: Seq<u8>) -> (Seq<u8>, Option<Seq<u8>>)
    decreases b.len(),
{
    if b.len() < 2 {
        (b, None)
    } else if b[0] != 0x68 {
        spec_next_frame(b.drop_first())
    } else if b.len() < b[1] as int + 2 {
        (b, None)
    } else {
        (b.skip(b[1] as int + 2), Some(b.take(b[1] as int + 2)))
    }
}

proof fn lemma_next_frame_skip(b: Seq<u8>, d: int)
    requires
        0 <= d <= b.len(),
        forall|i: int| 0 <= i < d ==> b[i] != 0x68,
        b.len() - d >= 1 || d == 0,
        d == 0 || b.len() - (d - 1) >= 2,
    ensures
        spec_next_frame(b) == spec_next_frame(b.skip(d)),
    decreases d,
{
    if d > 0 {
        assert(b.skip(1).skip(d - 1) =~= b.skip(d));
        lemma_next_frame_skip(b.drop_first(), d - 1);
        assert(b.drop_first() =~= b.skip(1));
    } else {
        assert(b.skip(0) =~= b);
    }
}

/// Split the next complete APDU off the front of a receive buffer.
pub fn next_frame(buf: &mut Vec<u8>) -> (f: Option<Vec<u8>>)
    ensures
        (final(buf)@, match f { Some(v) => Some(v@), None => None }) == spec_next_frame(old(buf)@),
{
    let ghost orig = buf@;
    let mut d: usize = 0;
    while d < buf.len() && buf.len() - d >= 2 && buf[d] != 0x68
        invariant
            buf@ == orig,
            d <= buf.len(),
            forall|i: int| 0 <= i < d ==> buf@[i] != 0x68,
            d == 0 || buf.len() - (d - 1) >= 2,
        decreases buf.len() - d,
    {
        d = d + 1;
    }
    proof {
        lemma_next_frame_skip(orig, d as int);
    }
    let mut rest: Vec<u8> = Vec::new();
    let mut frame: Option<Vec<u8>> = None;
    let n = buf.len() - d;
    let ghost b = orig.skip(d as int);
    let start: usize;
    if n >= 2 && buf[d] == 0x68 && n >= buf[d + 1] as usize + 2 {
        let flen = buf[d + 1] as usize + 2;
        let mut fv: Vec<u8> = Vec::new();
        let mut i: usize = d;
        while i < d + flen
            invariant
                buf@ == orig,
                d <= i <= d + flen,
                d + flen <= buf.len(),
                fv@ == orig.subrange(d as int, i as int),
            decreases d + flen - i,
        {
            fv.push(buf[i]);
            i = i + 1;
        }
        assert(fv@ =~= b.take(flen as int));
        frame = Some(fv);
        start = d + flen;
    } else {
        start = d;
    }
    let mut i: usize = start;
    while i < buf.len()
        invariant
            buf@ == orig,
            start <= i <= buf.len(),
            rest@ == orig.subrange(start as int, i as int),
        decreases buf.len() - i,
    {
        rest.push(buf[i]);
        i = i + 1;
    }
    proof {
        if frame is Some {
            assert(rest@ =~= b.skip(b[1] as int + 2));
        } else {
            assert(rest@ =~= b);
        }
    }
    *buf = rest;
    frame
}

} // verus!
