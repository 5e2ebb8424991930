//! IEC 60870-5-104 link-layer state of a master connection: send and
//! receive sequence numbers, the k/w windows and the t1/t2/t3 timers.
//!
//! Time is counted in milliseconds of a monotonic clock; the connection
//! reads the clock and hands the reading in.
use std::collections::VecDeque;
use vstd::prelude::*;

verus! {

/// Modulus of the 15-bit sequence numbers.
pub const SEQ_MODULUS: u16 = 0x8000;

/// Largest timer length: `u32::MAX` seconds, in milliseconds.
pub const MAX_TIMER_MS: u64 = 4_294_967_295_000;

/// Clock readings stay below this bound (about 146 million years).
pub const TIME_LIMIT_MS: u64 = 0x4000_0000_0000_0000;

/// `a` comes strictly before `b` in modulo-2^15 arithmetic: `b` is 1 to
/// 16383 steps ahead of `a`.
pub open spec fn spec_seq_lt(a: u16, b: u16) -> bool {
    let diff = (b as int - a as int) % 0x8000;
    diff != 0 && diff < 0x4000
}

/// The sequence number that follows `n` (modulo 2^15).
pub open spec fn spec_seq_inc(n: u16) -> u16 {
    ((n as int + 1) % 0x8000) as u16
}

/// Strict-less-than for 15-bit sequence numbers (0..32768) with wraparound.
/// Returns true if `a` is "before" `b` in modulo-2^15 arithmetic.
pub fn seq_lt(a: u16, b: u16) -> (r: bool)
    ensures
        r == spec_seq_lt(a, b),
{
    let diff: u32 = (b as u32 + 0x10000 - a as u32) % 0x8000;
    assert(diff as int == (b as int - a as int) % 0x8000);
    diff != 0 && diff < 0x4000
}

/// Increment a 15-bit sequence number with wraparound.
pub fn seq_inc(n: u16) -> (r: u16)
    requires
        n < u16::MAX,
    ensures
        r == spec_seq_inc(n),
        r < 0x8000,
{
    (n + 1) % 0x8000
}

/// Ordering of 15-bit sequence numbers: no number precedes itself, a
/// number precedes its successor, and of two numbers at most one precedes
/// the other.
pub proof fn lemma_seq_order(a: u16, b: u16)
    requires
        a < 0x8000,
        b < 0x8000,
    ensures
        !spec_seq_lt(a, a),
        spec_seq_lt(a, spec_seq_inc(a)),
        spec_seq_lt(a, b) ==> !spec_seq_lt(b, a),
        spec_seq_inc(a) < 0x8000,
        a == 0x7FFF ==> spec_seq_inc(a) == 0,
{
}

/// What the timer tick asks the connection to do.
#[derive(Debug, Clone, Copy, PartialEq, Eq, Structural)]
pub enum TickAction {
    /// Send an S-frame acknowledging up to this receive sequence number.
    SendSFrame(u16),
    /// Send TESTFR ACT.
    SendTestFr,
    /// TESTFR ACT went unanswered for t1: drop the connection.
    DropT1,
    /// Nothing to do.
    Idle,
}

/// What a received frame did to the link state.
#[derive(Debug, Clone, Copy, PartialEq, Eq, Structural)]
pub enum RxEvent {
    /// Shorter than an APCI; ignored.
    TooShort,
    /// A U-frame; `reply_test_con` when it was TESTFR ACT.
    Unnumbered { reply_test_con: bool },
    /// An S-frame that acknowledged `freed` outstanding I-frames.
    Supervisory { freed: usize },
    /// An I-frame with an ASDU header that acknowledged `freed` outstanding
    /// I-frames; `ack` is the receive sequence number to acknowledge at
    /// once because the w window filled.
    Information { freed: usize, ack: Option<u16> },
    /// An I-frame too short to hold an ASDU header.
    TruncatedInformation,
}

/// Full IEC 60870-5-104 protocol state (SSN/RSN + timers + windowing).
///
/// 15-bit SSN/RSN wrap at 32768; helpers `seq_lt` / `seq_inc` handle that.
#[derive(Debug)]
pub struct ProtocolState {
    /// Send Sequence Number — next SSN to use when sending an I-frame.
    pub ssn: u16,
    /// Receive Sequence Number — next SSN expected from peer.
    pub rsn: u16,
    /// Outgoing I-frames awaiting ACK: (their SSN, t1 deadline).
    pub pending_acks: VecDeque<(u16, u64)>,
    /// Number of received I-frames since we last sent an S/I frame.
    pub unacked_received: u16,
    /// Last time we received any frame (resets t3 idle timer).
    pub last_rx: u64,
    /// Deadline for sending an S-frame ACK (armed on first I-frame after
    /// our last ACK; cleared when we send any S/I frame). None = idle.
    pub pending_ack_deadline: Option<u64>,
    /// If we've sent TESTFR_ACT, the deadline by which we expect TESTFR_CON.
    /// None = no test in flight.
    pub test_pending_deadline: Option<u64>,
    /// Cached protocol parameters from MasterConfig, in milliseconds.
    pub t1: u64,
    pub t2: u64,
    pub t3: u64,
    pub k: u16,
    pub w: u16,
}

/// Time elapsed since `last`, or zero when the clock reads earlier.
pub open spec fn idle_time(now: u64, last: u64) -> int {
    if now >= last { now - last } else { 0 }
}

/// The sequence number `d` steps before `n` (modulo 2^15).
pub open spec fn seq_back(n: u16, d: int) -> u16 {
    ((n as int - d) % 0x8000) as u16
}

/// What a timer check decides, and the state after it: a delayed S-frame
/// ACK once the t2 deadline has passed, else TESTFR ACT (arming the t1
/// deadline) after t3 of silence with no test in flight, else nothing.
pub open spec fn spec_decide_tick(s: ProtocolState, now: u64) -> (TickAction, ProtocolState) {
    if s.pending_ack_deadline is Some && now >= s.pending_ack_deadline->0 {
        (TickAction::SendSFrame(s.rsn), ProtocolState { unacked_received: 0, pending_ack_deadline: None, ..s })
    } else if s.test_pending_deadline is None && idle_time(now, s.last_rx) >= s.t3 {
        (TickAction::SendTestFr, ProtocolState { test_pending_deadline: Some((now + s.t1) as u64), ..s })
    } else {
        (TickAction::Idle, s)
    }
}

/// One tick of the timers: a TESTFR ACT unanswered past its t1 deadline
/// drops the link (state untouched), otherwise `spec_decide_tick`.
pub open spec fn spec_tick(s: ProtocolState, now: u64) -> (TickAction, ProtocolState) {
    if s.test_pending_deadline is Some && now >= s.test_pending_deadline->0 {
        (TickAction::DropT1, s)
    } else {
        spec_decide_tick(s, now)
    }
}

/// How a received frame `d` (at time `now`) moves the link state from `s`
/// to `t`, and what the connection is told to do about it.
/// The first `n` outstanding I-frames are exactly those that an
/// acknowledgement up to `peer_rsn` releases: each of them precedes it, and
/// the next one (if any) does not.
pub open spec fn acked_prefix(p: Seq<(u16, u64)>, peer_rsn: u16, n: int) -> bool {
    &&& 0 <= n <= p.len()
    &&& forall|i: int| 0 <= i < n ==> spec_seq_lt((#[trigger] p[i]).0, peer_rsn)
    &&& n < p.len() ==> !spec_seq_lt(p[n].0, peer_rsn)
}

pub open spec fn rx_after(s: ProtocolState, t: ProtocolState, d: Seq<u8>, now: u64, ev: RxEvent) -> bool {
    &&& t.t1 == s.t1 && t.t2 == s.t2 && t.t3 == s.t3
    &&& t.k == s.k && t.w == s.w
    &&& t.ssn == s.ssn
    &&& d.len() < 6 ==> ev == RxEvent::TooShort && t == s
    &&& d.len() >= 6 ==> {
        &&& t.last_rx == now
        &&& t.test_pending_deadline is None
    }
    &&& d.len() >= 6 && d[2] % 4 == 3 ==> {
        &&& ev == RxEvent::Unnumbered { reply_test_con: d[2] == 0x43 }
        &&& t.pending() == s.pending()
        &&& t.rsn == s.rsn
        &&& t.unacked_received == s.unacked_received
        &&& t.pending_ack_deadline == s.pending_ack_deadline
    }
    &&& d.len() >= 6 && d[2] % 4 == 1 ==> {
        &&& ev matches RxEvent::Supervisory { freed }
        &&& acked_prefix(s.pending(), crate::frame::le16(d[4], d[5]) / 2, freed as int)
        &&& t.pending() == s.pending().skip(freed as int)
        &&& t.rsn == s.rsn
        &&& t.unacked_received == s.unacked_received
        &&& t.pending_ack_deadline == s.pending_ack_deadline
    }
    &&& d.len() >= 6 && d[2] % 2 == 0 && d.len() < 12 ==> {
        &&& ev == RxEvent::TruncatedInformation
        &&& t.pending() == s.pending()
        &&& t.rsn == s.rsn
        &&& t.unacked_received == s.unacked_received
        &&& t.pending_ack_deadline == s.pending_ack_deadline
    }
    &&& d.len() >= 12 && d[2] % 2 == 0 ==> {
        let peer_ssn = crate::frame::le16(d[2], d[3]) / 2;
        let count = if s.unacked_received == u16::MAX { u16::MAX as int } else { s.unacked_received + 1 };
        &&& ev matches RxEvent::Information { freed, ack }
        &&& acked_prefix(s.pending(), crate::frame::le16(d[4], d[5]) / 2, freed as int)
        &&& t.pending() == s.pending().skip(freed as int)
        &&& t.rsn == spec_seq_inc(peer_ssn)
        &&& if count >= s.w {
            &&& ack == Some(spec_seq_inc(peer_ssn))
            &&& t.unacked_received == 0
            &&& t.pending_ack_deadline is None
        } else {
            &&& ack is None
            &&& t.unacked_received == count
            &&& t.pending_ack_deadline == if s.pending_ack_deadline is None {
                Some((now + s.t2) as u64)
            } else {
                s.pending_ack_deadline
            }
        }
    }
}

impl ProtocolState {
    /// The outstanding I-frames, oldest first.
    pub open spec fn pending(&self) -> Seq<(u16, u64)> {
        self.pending_acks@
    }

    /// Invariant: sequence numbers are 15-bit, timers and clock readings
    /// are bounded, and the outstanding I-frames carry consecutive SSNs
    /// ending just before `ssn`.
    pub open spec fn wf(&self) -> bool {
        &&& self.ssn < 0x8000
        &&& self.rsn < 0x8000
        &&& self.t1 <= MAX_TIMER_MS
        &&& self.t2 <= MAX_TIMER_MS
        &&& self.t3 <= MAX_TIMER_MS
        &&& forall|i: int| 0 <= i < self.pending().len() ==>
            (#[trigger] self.pending()[i]).0 == seq_back(self.ssn, self.pending().len() - i)
    }

    pub fn new(t1: u64, t2: u64, t3: u64, k: u16, w: u16, now: u64) -> (s: ProtocolState)
        requires
            t1 <= MAX_TIMER_MS,
            t2 <= MAX_TIMER_MS,
            t3 <= MAX_TIMER_MS,
        ensures
            s.wf(),
            s.ssn == 0,
            s.rsn == 0,
            s.pending().len() == 0,
            s.unacked_received == 0,
            s.last_rx == now,
            s.pending_ack_deadline is None,
            s.test_pending_deadline is None,
            s.t1 == t1 && s.t2 == t2 && s.t3 == t3 && s.k == k && s.w == w,
    {
        ProtocolState {
            ssn: 0,
            rsn: 0,
            pending_acks: VecDeque::new(),
            unacked_received: 0,
            last_rx: now,
            pending_ack_deadline: None,
            test_pending_deadline: None,
            t1,
            t2,
            t3,
            k,
            w,
        }
    }

    /// Whether the k window leaves room for another I-frame.
    pub fn can_send_iframe(&self) -> (b: bool)
        ensures
            b == (self.pending().len() < self.k),
    {
        self.pending_acks.len() < self.k as usize
    }

    /// Decide which timer fires next: a delayed S-frame ACK when the t2
    /// deadline has passed, else TESTFR ACT after t3 of silence with no test
    /// in flight.
    pub fn decide_tick(&mut self, now: u64) -> (a: TickAction)
        requires
            old(self).wf(),
            now < TIME_LIMIT_MS,
        ensures
            final(self).wf(),
            (a, *final(self)) == spec_decide_tick(*old(self), now),
    {
        if let Some(deadline) = self.pending_ack_deadline {
            if now >= deadline {
                let rsn = self.rsn;
                self.unacked_received = 0;
                self.pending_ack_deadline = None;
                proof { lemma_wf_kept(*old(self), *self); }
                return TickAction::SendSFrame(rsn);
            }
        }
        if self.test_pending_deadline.is_none() && now.saturating_sub(self.last_rx) >= self.t3 {
            self.test_pending_deadline = Some(now + self.t1);
            proof { lemma_wf_kept(*old(self), *self); }
            return TickAction::SendTestFr;
        }
        TickAction::Idle
    }

    /// One tick of the t1/t2/t3 timer machinery. A TESTFR ACT left
    /// unanswered past its t1 deadline drops the link; otherwise
    /// `decide_tick` chooses.
    pub fn tick(&mut self, now: u64) -> (a: TickAction)
        requires
            old(self).wf(),
            now < TIME_LIMIT_MS,
        ensures
            final(self).wf(),
            (a, *final(self)) == spec_tick(*old(self), now),
            a == TickAction::DropT1 <==> (old(self).test_pending_deadline matches Some(d) && now >= d),
            final(self).ssn == old(self).ssn && final(self).rsn == old(self).rsn,
            final(self).pending() == old(self).pending(),
    {
        if let Some(d) = self.test_pending_deadline {
            if now >= d {
                return TickAction::DropT1;
            }
        }
        self.decide_tick(now)
    }

    /// Pop pending I-frame entries acknowledged by `peer_rsn` (anything with
    /// SSN < peer_rsn modulo 2^15). Returns how many were freed.
    pub fn free_acked_pending(&mut self, peer_rsn: u16) -> (freed: usize)
        requires
            old(self).wf(),
        ensures
            final(self).wf(),
            freed <= old(self).pending().len(),
            final(self).pending() == old(self).pending().skip(freed as int),
            forall|i: int| 0 <= i < freed ==> spec_seq_lt((#[trigger] old(self).pending()[i]).0, peer_rsn),
            freed < old(self).pending().len() ==> !spec_seq_lt(old(self).pending()[freed as int].0, peer_rsn),
            final(self).ssn == old(self).ssn && final(self).rsn == old(self).rsn,
            final(self).unacked_received == old(self).unacked_received,
            final(self).last_rx == old(self).last_rx,
            final(self).pending_ack_deadline == old(self).pending_ack_deadline,
            final(self).test_pending_deadline == old(self).test_pending_deadline,
            final(self).t1 == old(self).t1 && final(self).t2 == old(self).t2 && final(self).t3 == old(self).t3,
            final(self).k == old(self).k && final(self).w == old(self).w,
    {
        let ghost orig = self.pending();
        let total = self.pending_acks.len();
        let mut count: usize = 0;
        while self.pending_acks.len() > 0 && seq_lt(self.pending_acks[0].0, peer_rsn)
            invariant
                count <= orig.len(),
                self.pending() == orig.skip(count as int),
                self.pending().len() + count == orig.len(),
                orig.len() == total,
                forall|i: int| 0 <= i < count ==> spec_seq_lt((#[trigger] orig[i]).0, peer_rsn),
                self.ssn == old(self).ssn && self.rsn == old(self).rsn,
                self.unacked_received == old(self).unacked_received,
                self.last_rx == old(self).last_rx,
                self.pending_ack_deadline == old(self).pending_ack_deadline,
                self.test_pending_deadline == old(self).test_pending_deadline,
                self.t1 == old(self).t1 && self.t2 == old(self).t2 && self.t3 == old(self).t3,
                self.k == old(self).k && self.w == old(self).w,
                orig == old(self).pending(),
            decreases self.pending_acks.len(),
        {
            let _ = self.pending_acks.pop_front();
            assert(orig.skip(count as int).drop_first() =~= orig.skip(count as int + 1));
            count = count + 1;
        }
        assert forall|i: int| 0 <= i < self.pending().len() implies
            (#[trigger] self.pending()[i]).0 == seq_back(self.ssn, self.pending().len() - i) by {
            assert(self.pending()[i] == orig[i + count]);
        }
        count
    }

    /// Record any received frame: refresh the t3 idle baseline, clear an
    /// in-flight TESTFR, and react by frame kind — TESTFR CON closes the
    /// test, an S-frame releases acknowledged I-frames, an I-frame releases
    /// acknowledged I-frames, advances the receive sequence number and
    /// either forces an ACK (w reached) or arms the t2 deadline.
    pub fn on_frame_received(&mut self, data: &[u8], now: u64) -> (ev: RxEvent)
        requires
            old(self).wf(),
            now < TIME_LIMIT_MS,
        ensures
            final(self).wf(),
            rx_after(*old(self), *final(self), data@, now, ev),
    {
        if data.len() < 6 {
            return RxEvent::TooShort;
        }
        let ctrl1 = data[2];
        self.last_rx = now;
        self.test_pending_deadline = None;
        proof { lemma_wf_kept(*old(self), *self); }

        if ctrl1 % 4 == 3 {
            RxEvent::Unnumbered { reply_test_con: ctrl1 == 0x43 }
        } else if ctrl1 % 4 == 1 {
            let peer_rsn = (data[4] as u16 + data[5] as u16 * 256) / 2;
            let freed = self.free_acked_pending(peer_rsn);
            RxEvent::Supervisory { freed }
        } else if data.len() >= 12 {
            let peer_ssn = (data[2] as u16 + data[3] as u16 * 256) / 2;
            let peer_rsn = (data[4] as u16 + data[5] as u16 * 256) / 2;
            let freed = self.free_acked_pending(peer_rsn);
            self.rsn = seq_inc(peer_ssn);
            self.unacked_received = self.unacked_received.saturating_add(1);
            if self.unacked_received >= self.w {
                let rsn = self.rsn;
                self.unacked_received = 0;
                self.pending_ack_deadline = None;
                RxEvent::Information { freed, ack: Some(rsn) }
            } else {
                if self.pending_ack_deadline.is_none() {
                    self.pending_ack_deadline = Some(now + self.t2);
                }
                RxEvent::Information { freed, ack: None }
            }
        } else {
            RxEvent::TruncatedInformation
        }
    }

    /// Stamp an outgoing APDU with the link state. An I-frame takes the next
    /// send sequence number and the current receive sequence number, joins
    /// the outstanding frames with a t1 deadline, and (carrying our RSN)
    /// clears any pending S-frame ACK; an S-frame gets the receive sequence
    /// number and clears the pending ACK; a U-frame is left as it is.
    pub fn stamp_outgoing(&mut self, frame: &mut Vec<u8>, now: u64)
        requires
            old(self).wf(),
            old(frame).len() >= 6,
            now < TIME_LIMIT_MS,
        ensures
            final(self).wf(),
            final(self).t1 == old(self).t1 && final(self).t2 == old(self).t2 && final(self).t3 == old(self).t3,
            final(self).k == old(self).k && final(self).w == old(self).w,
            final(self).rsn == old(self).rsn,
            final(self).last_rx == old(self).last_rx,
            final(self).test_pending_deadline == old(self).test_pending_deadline,
            old(frame)[2] % 2 == 0 ==> {
                &&& final(self).ssn == spec_seq_inc(old(self).ssn)
                &&& final(self).pending() == old(self).pending().push((old(self).ssn, (now + old(self).t1) as u64))
                &&& final(self).unacked_received == 0
                &&& final(self).pending_ack_deadline is None
                &&& final(frame)@ == old(frame)@.update(2, ((2 * old(self).ssn) % 256) as u8)
                    .update(3, ((2 * old(self).ssn) / 256) as u8)
                    .update(4, ((2 * old(self).rsn) % 256) as u8)
                    .update(5, ((2 * old(self).rsn) / 256) as u8)
            },
            old(frame)[2] % 4 == 1 ==> {
                &&& final(self).ssn == old(self).ssn
                &&& final(self).pending() == old(self).pending()
                &&& final(self).unacked_received == 0
                &&& final(self).pending_ack_deadline is None
                &&& final(frame)@ == old(frame)@.update(4, ((2 * old(self).rsn) % 256) as u8)
                    .update(5, ((2 * old(self).rsn) / 256) as u8)
            },
            old(frame)[2] % 4 == 3 ==> {
                &&& final(self).ssn == old(self).ssn
                &&& final(self).pending() == old(self).pending()
                &&& final(self).unacked_received == old(self).unacked_received
                &&& final(self).pending_ack_deadline == old(self).pending_ack_deadline
                &&& final(frame)@ == old(frame)@
            },
    {
        let ctrl1 = frame[2];
        if ctrl1 % 2 == 0 {
            let ssn = self.ssn;
            let rsn = self.rsn;
            let deadline = now + self.t1;
            let ghost before = self.pending();
            self.pending_acks.push_back((ssn, deadline));
            self.ssn = seq_inc(self.ssn);
            self.unacked_received = 0;
            self.pending_ack_deadline = None;
            let sw: u16 = ssn * 2;
            let rw: u16 = rsn * 2;
            frame.set(2, (sw % 256) as u8);
            frame.set(3, (sw / 256) as u8);
            frame.set(4, (rw % 256) as u8);
            frame.set(5, (rw / 256) as u8);
            assert forall|i: int| 0 <= i < self.pending().len() implies
                (#[trigger] self.pending()[i]).0 == seq_back(self.ssn, self.pending().len() - i) by {
                if i < before.len() {
                    assert(self.pending()[i] == before[i]);
                }
            }
        } else if ctrl1 % 4 == 1 {
            let rw: u16 = self.rsn * 2;
            frame.set(4, (rw % 256) as u8);
            frame.set(5, (rw / 256) as u8);
            self.unacked_received = 0;
            self.pending_ack_deadline = None;
        }
    }
}

proof fn lemma_wf_kept(a: ProtocolState, b: ProtocolState)
    requires
        a.wf(),
        b.ssn == a.ssn,
        b.rsn == a.rsn,
        b.t1 == a.t1 && b.t2 == a.t2 && b.t3 == a.t3,
        b.pending() == a.pending(),
    ensures
        b.wf(),
{
    assert forall|i: int| 0 <= i < b.pending().len() implies
        (#[trigger] b.pending()[i]).0 == seq_back(b.ssn, b.pending().len() - i) by {
        assert(a.pending()[i] == b.pending()[i]);
    }
}

/// Every outstanding I-frame precedes the next send sequence number, so an
/// acknowledgement carrying N(R) = V(S) releases the whole send window
/// (as long as fewer than 2^14 frames are outstanding).
pub proof fn lemma_outstanding_precede_next_ssn(s: ProtocolState)
    requires
        s.wf(),
        s.pending().len() < 0x4000,
    ensures
        forall|i: int| 0 <= i < s.pending().len() ==> spec_seq_lt((#[trigger] s.pending()[i]).0, s.ssn),
{
    assert forall|i: int| 0 <= i < s.pending().len() implies spec_seq_lt((#[trigger] s.pending()[i]).0, s.ssn) by {
        let d = s.pending().len() - i;
        assert(s.pending()[i].0 == seq_back(s.ssn, d));
        assert(1 <= d < 0x4000);
    }
}

/// A link that has been silent for t3, with no ACK due and no test in
/// flight, is tested: the tick sends TESTFR ACT and gives the peer t1 to
/// answer.
pub proof fn lemma_idle_link_is_tested(s: ProtocolState, now: u64)
    requires
        s.test_pending_deadline is None,
        !(s.pending_ack_deadline matches Some(d) && now >= d),
        idle_time(now, s.last_rx) >= s.t3,
    ensures
        spec_tick(s, now).0 == TickAction::SendTestFr,
        spec_tick(s, now).1.test_pending_deadline == Some((now + s.t1) as u64),
{
}

/// A peer that answers nothing is dropped: once t3 of silence has sent
/// TESTFR ACT, a tick t1 later (with nothing received in between) drops
/// the link.
pub proof fn lemma_silent_peer_is_dropped(s: ProtocolState, now: u64, later: u64)
    requires
        s.test_pending_deadline is None,
        !(s.pending_ack_deadline matches Some(d) && now >= d),
        idle_time(now, s.last_rx) >= s.t3,
        now as int + s.t1 <= later,
    ensures
        spec_tick(spec_tick(s, now).1, later).0 == TickAction::DropT1,
{
}

/// Any frame from the peer keeps the link up, whether or not it
/// acknowledges the outstanding I-frames: the tick after it never drops
/// the link.
pub proof fn lemma_received_frame_keeps_link(s: ProtocolState, t: ProtocolState, d: Seq<u8>, now: u64, ev: RxEvent, later: u64)
    requires
        rx_after(s, t, d, now, ev),
        d.len() >= 6,
    ensures
        spec_tick(t, later).0 != TickAction::DropT1,
{
}

/// Outstanding unacknowledged I-frames never drop the link by themselves:
/// with no TESTFR in flight, a tick does not drop the link whatever the
/// send window holds.
pub proof fn lemma_unacked_frames_do_not_drop(s: ProtocolState, now: u64)
    requires
        s.test_pending_deadline is None,
    ensures
        spec_tick(s, now).0 != TickAction::DropT1,
{
}

} // verus!
