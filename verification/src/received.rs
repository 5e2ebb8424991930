//! The master's store of received data: one point map per common address
//! (CA), stamped with a connection-wide sequence counter, and the decoding
//! of received ASDUs into it.
use crate::clock::utc_now;
use crate::data_point::{key_before, key_of, seq_to_map, with_seq, DataPoint, DataPointMap, DataPointValue};
use crate::decode::{i16_of, i32_of, le24, le32, read_le16, read_le24, read_le32, spec_element_size, to_i16, to_i32, vti_of, vti_value};
use crate::frame::le16;
use crate::master::ControlResponse;
use crate::types::{AsduTypeId, QualityFlags};
use vstd::prelude::*;

verus! {

/// Points of one station tagged with its common address.
pub open spec fn tag_points(ca: u16, ps: Seq<DataPoint>) -> Seq<(u16, DataPoint)> {
    ps.map_values(|p: DataPoint| (ca, p))
}

/// Groups strictly ordered by common address.
pub open spec fn cas_sorted(s: Seq<(u16, DataPointMap)>) -> bool {
    forall|i: int, j: int| 0 <= i < j < s.len() ==> (#[trigger] s[i]).0 < (#[trigger] s[j]).0
}

/// The per-CA maps that a sequence of groups describes.
pub open spec fn groups_to_map(s: Seq<(u16, DataPointMap)>) -> Map<u16, Map<(u32, AsduTypeId), DataPoint>> {
    Map::new(
        |ca: u16| exists|i: int| 0 <= i < s.len() && (#[trigger] s[i]).0 == ca,
        |ca: u16| s[choose|i: int| 0 <= i < s.len() && (#[trigger] s[i]).0 == ca].1@,
    )
}

/// Number of points held by all groups.
pub open spec fn spec_total(s: Seq<(u16, DataPointMap)>) -> int
    decreases s.len(),
{
    if s.len() == 0 {
        0
    } else {
        spec_total(s.drop_last()) + s.last().1.entries().len()
    }
}

/// All points of all groups, group by group, each in key order.
pub open spec fn spec_flat(s: Seq<(u16, DataPointMap)>) -> Seq<(u16, DataPoint)>
    decreases s.len(),
{
    if s.len() == 0 {
        Seq::empty()
    } else {
        spec_flat(s.drop_last()) + tag_points(s.last().0, s.last().1.entries())
    }
}

/// The points of all groups whose stamp is above `since`, in the order of
/// `spec_flat`.
pub open spec fn spec_flat_changed(s: Seq<(u16, DataPointMap)>, since: u64) -> Seq<(u16, DataPoint)>
    decreases s.len(),
{
    if s.len() == 0 {
        Seq::empty()
    } else {
        spec_flat_changed(s.drop_last(), since)
            + tag_points(s.last().0, s.last().1.entries().filter(|p: DataPoint| p.update_seq > since))
    }
}

/// The per-CA maps after storing `p` under `ca`.
pub open spec fn view_insert(
    v: Map<u16, Map<(u32, AsduTypeId), DataPoint>>,
    ca: u16,
    p: DataPoint,
) -> Map<u16, Map<(u32, AsduTypeId), DataPoint>> {
    let before = if v.contains_key(ca) { v[ca] } else { Map::empty() };
    v.insert(ca, before.insert(key_of(p), p))
}

proof fn lemma_group_index(s: Seq<(u16, DataPointMap)>, i: int)
    requires
        cas_sorted(s),
        0 <= i < s.len(),
    ensures
        groups_to_map(s).contains_key(s[i].0),
        groups_to_map(s)[s[i].0] == s[i].1@,
{
    let ca = s[i].0;
    assert(0 <= i < s.len() && s[i].0 == ca);
    let j = choose|j: int| 0 <= j < s.len() && (#[trigger] s[j]).0 == ca;
    if j < i {
        assert(s[j].0 < s[i].0);
    } else if i < j {
        assert(s[i].0 < s[j].0);
    }
}

proof fn lemma_group_update(s: Seq<(u16, DataPointMap)>, pos: int, x: (u16, DataPointMap))
    requires
        cas_sorted(s),
        0 <= pos < s.len(),
        x.0 == s[pos].0,
    ensures
        cas_sorted(s.update(pos, x)),
        groups_to_map(s.update(pos, x)) =~= groups_to_map(s).insert(x.0, x.1@),
{
    let t = s.update(pos, x);
    assert(cas_sorted(t)) by {
        assert forall|i: int, j: int| 0 <= i < j < t.len() implies (#[trigger] t[i]).0 < (#[trigger] t[j]).0 by {
            assert(s[i].0 < s[j].0);
        }
    }
    assert forall|ca: u16| #[trigger] groups_to_map(t).contains_key(ca) <==> groups_to_map(s).insert(x.0, x.1@).contains_key(ca) by {
        if groups_to_map(s).contains_key(ca) {
            let i = choose|i: int| 0 <= i < s.len() && (#[trigger] s[i]).0 == ca;
            assert(t[i].0 == ca);
        }
        if groups_to_map(t).contains_key(ca) {
            let i = choose|i: int| 0 <= i < t.len() && (#[trigger] t[i]).0 == ca;
            assert(s[i].0 == ca);
        }
        if ca == x.0 {
            assert(t[pos].0 == ca);
        }
    }
    assert forall|ca: u16| #[trigger] groups_to_map(t).contains_key(ca) implies groups_to_map(t)[ca] == groups_to_map(s).insert(x.0, x.1@)[ca] by {
        let i = choose|i: int| 0 <= i < t.len() && (#[trigger] t[i]).0 == ca;
        lemma_group_index(t, i);
        if i != pos {
            lemma_group_index(s, i);
        }
    }
}

proof fn lemma_group_insert(s: Seq<(u16, DataPointMap)>, pos: int, x: (u16, DataPointMap))
    requires
        cas_sorted(s),
        0 <= pos <= s.len(),
        forall|i: int| 0 <= i < pos ==> (#[trigger] s[i]).0 < x.0,
        forall|i: int| pos <= i < s.len() ==> x.0 < (#[trigger] s[i]).0,
    ensures
        cas_sorted(s.insert(pos, x)),
        groups_to_map(s.insert(pos, x)) =~= groups_to_map(s).insert(x.0, x.1@),
        !groups_to_map(s).contains_key(x.0),
{
    let t = s.insert(pos, x);
    assert(cas_sorted(t)) by {
        assert forall|i: int, j: int| 0 <= i < j < t.len() implies (#[trigger] t[i]).0 < (#[trigger] t[j]).0 by {
            if j < pos {
                assert(s[i].0 < s[j].0);
            } else if j == pos {
            } else if i < pos {
                assert(s[i].0 < x.0);
                assert(x.0 < s[j - 1].0);
            } else if i == pos {
                assert(x.0 < s[j - 1].0);
            } else {
                assert(s[i - 1].0 < s[j - 1].0);
            }
        }
    }
    assert(!groups_to_map(s).contains_key(x.0)) by {
        if groups_to_map(s).contains_key(x.0) {
            let i = choose|i: int| 0 <= i < s.len() && (#[trigger] s[i]).0 == x.0;
            if i < pos {
                assert(s[i].0 < x.0);
            } else {
                assert(x.0 < s[i].0);
            }
        }
    }
    assert forall|ca: u16| #[trigger] groups_to_map(t).contains_key(ca) <==> groups_to_map(s).insert(x.0, x.1@).contains_key(ca) by {
        if groups_to_map(s).contains_key(ca) {
            let i = choose|i: int| 0 <= i < s.len() && (#[trigger] s[i]).0 == ca;
            if i < pos {
                assert(t[i].0 == ca);
            } else {
                assert(t[i + 1].0 == ca);
            }
        }
        if groups_to_map(t).contains_key(ca) && ca != x.0 {
            let i = choose|i: int| 0 <= i < t.len() && (#[trigger] t[i]).0 == ca;
            if i < pos {
                assert(s[i].0 == ca);
            } else if i > pos {
                assert(s[i - 1].0 == ca);
            }
        }
        if ca == x.0 {
            assert(t[pos].0 == ca);
        }
    }
    assert forall|ca: u16| #[trigger] groups_to_map(t).contains_key(ca) implies groups_to_map(t)[ca] == groups_to_map(s).insert(x.0, x.1@)[ca] by {
        let i = choose|i: int| 0 <= i < t.len() && (#[trigger] t[i]).0 == ca;
        lemma_group_index(t, i);
        if i < pos {
            lemma_group_index(s, i);
        } else if i > pos {
            lemma_group_index(s, i - 1);
        }
    }
}

proof fn lemma_total_update(s: Seq<(u16, DataPointMap)>, pos: int, x: (u16, DataPointMap))
    requires
        0 <= pos < s.len(),
    ensures
        spec_total(s.update(pos, x)) == spec_total(s) - s[pos].1.entries().len() + x.1.entries().len(),
    decreases s.len(),
{
    let t = s.update(pos, x);
    if pos == s.len() - 1 {
        assert(t.drop_last() =~= s.drop_last());
    } else {
        assert(t.drop_last() =~= s.drop_last().update(pos, x));
        lemma_total_update(s.drop_last(), pos, x);
    }
}

proof fn lemma_total_insert(s: Seq<(u16, DataPointMap)>, pos: int, x: (u16, DataPointMap))
    requires
        0 <= pos <= s.len(),
    ensures
        spec_total(s.insert(pos, x)) == spec_total(s) + x.1.entries().len(),
    decreases s.len(),
{
    let t = s.insert(pos, x);
    if pos == s.len() {
        assert(t.drop_last() =~= s);
    } else {
        assert(t.drop_last() =~= s.drop_last().insert(pos, x));
        lemma_total_insert(s.drop_last(), pos, x);
    }
}

/// Received points of one connection, keyed by CA then by (IOA, type).
///
/// Two stations sharing IOAs over one connection are kept apart by their
/// CA. A connection-wide monotonic sequence counter stamps every stored
/// point, so "what changed since X" is one query across every CA.
pub struct MasterReceivedData {
    /// (CA, points) in strictly increasing CA order; no map is empty.
    by_ca: Vec<(u16, DataPointMap)>,
    seq_counter: u64,
}

impl View for MasterReceivedData {
    type V = Map<u16, Map<(u32, AsduTypeId), DataPoint>>;

    open spec fn view(&self) -> Map<u16, Map<(u32, AsduTypeId), DataPoint>> {
        groups_to_map(self.groups())
    }
}

impl Default for MasterReceivedData {
    fn default() -> (d: MasterReceivedData)
        ensures
            d.wf(),
            d@ == Map::<u16, Map<(u32, AsduTypeId), DataPoint>>::empty(),
            d.seq() == 0,
    {
        MasterReceivedData::new()
    }
}

impl MasterReceivedData {
    /// The stored groups in CA order.
    pub closed spec fn groups(&self) -> Seq<(u16, DataPointMap)> {
        self.by_ca@
    }

    /// The connection-wide sequence counter.
    pub closed spec fn seq(&self) -> u64 {
        self.seq_counter
    }

    /// Well-formedness: groups strictly ordered by CA, every map well
    /// formed and not empty, no more points than stamps handed out, and
    /// every stored stamp from 1 up to the counter.
    pub open spec fn wf(&self) -> bool {
        &&& cas_sorted(self.groups())
        &&& forall|i: int| 0 <= i < self.groups().len() ==> (#[trigger] self.groups()[i]).1.wf()
        &&& forall|i: int| 0 <= i < self.groups().len() ==> (#[trigger] self.groups()[i]).1.entries().len() > 0
        &&& spec_total(self.groups()) <= self.seq()
        &&& self.stamps_bounded()
    }

    /// Every stored point carries a stamp from 1 up to the connection's
    /// counter.
    pub open spec fn stamps_bounded(&self) -> bool {
        forall|ca: u16, k: (u32, AsduTypeId)| #![trigger self@[ca].contains_key(k)]
            self@.contains_key(ca) && self@[ca].contains_key(k) ==> 1 <= self@[ca][k].update_seq <= self.seq()
    }

    pub fn new() -> (d: MasterReceivedData)
        ensures
            d.wf(),
            d@ == Map::<u16, Map<(u32, AsduTypeId), DataPoint>>::empty(),
            d.groups() == Seq::<(u16, DataPointMap)>::empty(),
            d.seq() == 0,
    {
        let d = MasterReceivedData { by_ca: Vec::new(), seq_counter: 0 };
        assert(d@ =~= Map::<u16, Map<(u32, AsduTypeId), DataPoint>>::empty());
        d
    }

    /// Index of the first group whose CA is not below `ca`.
    fn ca_lower_bound(&self, ca: u16) -> (pos: usize)
        requires
            cas_sorted(self.groups()),
        ensures
            pos <= self.groups().len(),
            forall|i: int| 0 <= i < pos ==> (#[trigger] self.groups()[i]).0 < ca,
            forall|i: int| pos <= i < self.groups().len() ==> (#[trigger] self.groups()[i]).0 >= ca,
    {
        let mut i: usize = 0;
        while i < self.by_ca.len() && self.by_ca[i].0 < ca
            invariant
                i <= self.by_ca.len(),
                cas_sorted(self.groups()),
                forall|j: int| 0 <= j < i ==> (#[trigger] self.groups()[j]).0 < ca,
            decreases self.by_ca.len() - i,
        {
            i = i + 1;
        }
        proof {
            assert forall|j: int| i <= j < self.groups().len() implies (#[trigger] self.groups()[j]).0 >= ca by {
                if j > i {
                    assert(self.groups()[i as int].0 < self.groups()[j].0);
                }
            }
        }
        i
    }

    /// Insert/update a data point under the given CA, stamping it with the
    /// connection-wide sequence counter.
    pub fn insert(&mut self, ca: u16, point: DataPoint)
        requires
            old(self).wf(),
            old(self).seq() < u64::MAX,
        ensures
            final(self).wf(),
            final(self).seq() == old(self).seq() + 1,
            final(self)@ == view_insert(old(self)@, ca, with_seq(point, final(self).seq())),
            spec_total(final(self).groups()) == spec_total(old(self).groups())
                + if old(self)@.contains_key(ca) && old(self)@[ca].contains_key(key_of(point)) { 0int } else { 1int },
    {
        let ghost v0 = self@;
        self.seq_counter = self.seq_counter + 1;
        let mut p = point;
        p.update_seq = self.seq_counter;
        let ghost s0 = self.by_ca@;
        let pos = self.ca_lower_bound(ca);
        if pos < self.by_ca.len() && self.by_ca[pos].0 == ca {
            let (c, mut m) = self.by_ca.remove(pos);
            proof {
                assert(m == s0[pos as int].1);
                lemma_group_index(s0, pos as int);
            }
            m.insert_stamped(p);
            self.by_ca.insert(pos, (c, m));
            proof {
                assert(key_of(p) == key_of(point));
                let x = (c, m);
                assert(self.by_ca@ =~= s0.update(pos as int, x));
                lemma_group_update(s0, pos as int, x);
                lemma_total_update(s0, pos as int, x);
                assert forall|i: int| 0 <= i < self.groups().len() implies (#[trigger] self.groups()[i]).1.wf()
                    && self.groups()[i].1.entries().len() > 0 by {
                    if i != pos {
                        assert(self.groups()[i] == s0[i]);
                    }
                }
            }
        } else {
            let mut m = DataPointMap::new();
            m.insert_stamped(p);
            proof {
                assert(m@ =~= Map::<(u32, AsduTypeId), DataPoint>::empty().insert(key_of(p), p));
                assert forall|i: int| pos <= i < s0.len() implies ca < (#[trigger] s0[i]).0 by {
                    if i == pos {
                        assert(s0[i].0 != ca);
                    } else {
                        assert(s0[pos as int].0 < s0[i].0);
                    }
                }
            }
            self.by_ca.insert(pos, (ca, m));
            proof {
                let x = (ca, m);
                lemma_group_insert(s0, pos as int, x);
                lemma_total_insert(s0, pos as int, x);
                assert forall|i: int| 0 <= i < self.groups().len() implies (#[trigger] self.groups()[i]).1.wf()
                    && self.groups()[i].1.entries().len() > 0 by {
                    if i < pos {
                        assert(self.groups()[i] == s0[i]);
                    } else if i > pos {
                        assert(self.groups()[i] == s0[i - 1]);
                    }
                }
            }
        }
        proof {
            assert forall|c: u16, k: (u32, AsduTypeId)| #![trigger self@[c].contains_key(k)]
                self@.contains_key(c) && self@[c].contains_key(k) implies 1 <= self@[c][k].update_seq <= self.seq() by {
                if !(c == ca && k == key_of(p)) {
                    assert(v0.contains_key(c) && v0[c].contains_key(k));
                }
            }
        }
    }

    /// The connection-wide sequence counter.
    pub fn current_seq(&self) -> (s: u64)
        ensures
            s == self.seq(),
    {
        self.seq_counter
    }

    /// Number of points over every CA (saturating at `usize::MAX`).
    pub fn total_len(&self) -> (n: usize)
        requires
            self.wf(),
        ensures
            n == if spec_total(self.groups()) <= usize::MAX { spec_total(self.groups()) } else { usize::MAX as int },
    {
        let mut n: usize = 0;
        let mut i: usize = 0;
        while i < self.by_ca.len()
            invariant
                i <= self.by_ca.len(),
                n == if spec_total(self.groups().take(i as int)) <= usize::MAX {
                    spec_total(self.groups().take(i as int))
                } else {
                    usize::MAX as int
                },
            decreases self.by_ca.len() - i,
        {
            assert(self.groups().take(i + 1).drop_last() =~= self.groups().take(i as int));
            n = n.saturating_add(self.by_ca[i].1.len());
            i = i + 1;
        }
        assert(self.groups().take(self.by_ca.len() as int) =~= self.groups());
        n
    }

    /// Sorted list of CAs that have at least one point.
    pub fn cas(&self) -> (r: Vec<u16>)
        requires
            self.wf(),
        ensures
            r@ == self.groups().map_values(|g: (u16, DataPointMap)| g.0),
            forall|i: int, j: int| 0 <= i < j < r.len() ==> r[i] < r[j],
            forall|ca: u16| self@.contains_key(ca) <==> r@.contains(ca),
    {
        let mut r: Vec<u16> = Vec::new();
        let mut i: usize = 0;
        while i < self.by_ca.len()
            invariant
                i <= self.by_ca.len(),
                r@ == self.groups().take(i as int).map_values(|g: (u16, DataPointMap)| g.0),
            decreases self.by_ca.len() - i,
        {
            r.push(self.by_ca[i].0);
            i = i + 1;
            assert(r@ =~= self.groups().take(i as int).map_values(|g: (u16, DataPointMap)| g.0));
        }
        assert(self.groups().take(self.by_ca.len() as int) =~= self.groups());
        proof {
            assert forall|ca: u16| self@.contains_key(ca) <==> r@.contains(ca) by {
                if self@.contains_key(ca) {
                    let k = choose|k: int| 0 <= k < self.groups().len() && (#[trigger] self.groups()[k]).0 == ca;
                    assert(r@[k] == ca);
                }
                if r@.contains(ca) {
                    let k = choose|k: int| 0 <= k < r@.len() && r@[k] == ca;
                    assert(self.groups()[k].0 == ca);
                }
            }
        }
        r
    }

    /// Read access to a single CA's map.
    pub fn ca_map(&self, ca: u16) -> (r: Option<&DataPointMap>)
        requires
            self.wf(),
        ensures
            r is Some <==> self@.contains_key(ca),
            r matches Some(m) ==> m.wf() && m@ == self@[ca],
    {
        let pos = self.ca_lower_bound(ca);
        if pos < self.by_ca.len() && self.by_ca[pos].0 == ca {
            proof { lemma_group_index(self.groups(), pos as int); }
            Some(&self.by_ca[pos].1)
        } else {
            proof {
                if self@.contains_key(ca) {
                    let k = choose|k: int| 0 <= k < self.groups().len() && (#[trigger] self.groups()[k]).0 == ca;
                    if k > pos {
                        assert(self.groups()[pos as int].0 < self.groups()[k].0);
                    }
                }
            }
            None
        }
    }

    /// All points across every CA, sorted by (CA, IOA, type).
    pub fn all_sorted(&self) -> (r: Vec<(u16, DataPoint)>)
        ensures
            r@ == spec_flat(self.groups()),
    {
        let mut r: Vec<(u16, DataPoint)> = Vec::new();
        let mut i: usize = 0;
        while i < self.by_ca.len()
            invariant
                i <= self.by_ca.len(),
                r@ == spec_flat(self.groups().take(i as int)),
            decreases self.by_ca.len() - i,
        {
            let ca = self.by_ca[i].0;
            let pts = self.by_ca[i].1.all_sorted();
            let ghost before = r@;
            let mut j: usize = 0;
            while j < pts.len()
                invariant
                    j <= pts.len(),
                    r@ == before + tag_points(ca, pts@.take(j as int)),
                decreases pts.len() - j,
            {
                r.push((ca, pts[j]));
                j = j + 1;
                assert(r@ =~= before + tag_points(ca, pts@.take(j as int)));
            }
            assert(pts@.take(pts.len() as int) =~= pts@);
            assert(self.groups().take(i + 1).drop_last() =~= self.groups().take(i as int));
            i = i + 1;
        }
        assert(self.groups().take(self.by_ca.len() as int) =~= self.groups());
        r
    }

    /// Points whose stamp is strictly greater than the given watermark,
    /// across every CA, sorted by (CA, IOA, type).
    pub fn changed_since(&self, since: u64) -> (r: Vec<(u16, DataPoint)>)
        ensures
            r@ == spec_flat_changed(self.groups(), since),
    {
        let mut r: Vec<(u16, DataPoint)> = Vec::new();
        let mut i: usize = 0;
        while i < self.by_ca.len()
            invariant
                i <= self.by_ca.len(),
                r@ == spec_flat_changed(self.groups().take(i as int), since),
            decreases self.by_ca.len() - i,
        {
            let ca = self.by_ca[i].0;
            let pts = self.by_ca[i].1.changed_since(since);
            let ghost before = r@;
            let mut j: usize = 0;
            while j < pts.len()
                invariant
                    j <= pts.len(),
                    r@ == before + tag_points(ca, pts@.take(j as int)),
                decreases pts.len() - j,
            {
                r.push((ca, pts[j]));
                j = j + 1;
                assert(r@ =~= before + tag_points(ca, pts@.take(j as int)));
            }
            assert(pts@.take(pts.len() as int) =~= pts@);
            assert(self.groups().take(i + 1).drop_last() =~= self.groups().take(i as int));
            i = i + 1;
        }
        assert(self.groups().take(self.by_ca.len() as int) =~= self.groups());
        r
    }
}

// ---------------------------------------------------------------------------
// Listings
// ---------------------------------------------------------------------------

/// Listing order: by CA, then by (IOA, type).
pub open spec fn listed_before(a: (u16, DataPoint), b: (u16, DataPoint)) -> bool {
    a.0 < b.0 || (a.0 == b.0 && key_before(key_of(a.1), key_of(b.1)))
}

/// `x` is the point stored in `v` under CA `x.0` at its own key.
pub open spec fn listed_in(v: Map<u16, Map<(u32, AsduTypeId), DataPoint>>, x: (u16, DataPoint)) -> bool {
    v.contains_key(x.0) && v[x.0].contains_key(key_of(x.1)) && v[x.0][key_of(x.1)] == x.1
}

/// Groups as the store keeps them: ordered by CA, each map well formed.
pub open spec fn groups_ok(s: Seq<(u16, DataPointMap)>) -> bool {
    &&& cas_sorted(s)
    &&& forall|i: int| 0 <= i < s.len() ==> (#[trigger] s[i]).1.wf()
}

proof fn lemma_groups_last(s: Seq<(u16, DataPointMap)>)
    requires
        groups_ok(s),
        s.len() > 0,
    ensures
        groups_ok(s.drop_last()),
        groups_to_map(s) == groups_to_map(s.drop_last()).insert(s.last().0, s.last().1@),
        forall|c: u16| #[trigger] groups_to_map(s.drop_last()).contains_key(c) ==> c < s.last().0,
{
    let pre = s.drop_last();
    assert forall|i: int, j: int| 0 <= i < j < pre.len() implies (#[trigger] pre[i]).0 < (#[trigger] pre[j]).0 by {
        assert(s[i].0 < s[j].0);
    }
    assert forall|i: int| 0 <= i < pre.len() implies (#[trigger] pre[i]).1.wf() by {
        assert(pre[i] == s[i]);
    }
    assert forall|i: int| 0 <= i < pre.len() implies (#[trigger] pre[i]).0 < s.last().0 by {
        assert(s[i].0 < s[s.len() - 1].0);
    }
    lemma_group_insert(pre, pre.len() as int, s.last());
    assert(pre.insert(pre.len() as int, s.last()) =~= s);
    assert forall|c: u16| #[trigger] groups_to_map(pre).contains_key(c) implies c < s.last().0 by {
        let i = choose|i: int| 0 <= i < pre.len() && (#[trigger] pre[i]).0 == c;
    }
}

proof fn lemma_tagged_sorted(ca: u16, e: Seq<DataPoint>)
    requires
        crate::data_point::sorted_by_key(e),
    ensures
        forall|i: int, j: int| 0 <= i < j < e.len() ==> listed_before(#[trigger] tag_points(ca, e)[i], #[trigger] tag_points(ca, e)[j]),
{
    assert forall|i: int, j: int| 0 <= i < j < e.len() implies listed_before(#[trigger] tag_points(ca, e)[i], #[trigger] tag_points(ca, e)[j]) by {
        assert(key_before(key_of(e[i]), key_of(e[j])));
    }
}

/// The listing of all points (`all_sorted`): as long as the stored total,
/// every entry stored, in (CA, IOA, type) order, and every stored point
/// listed.
proof fn lemma_flat_facts(s: Seq<(u16, DataPointMap)>)
    requires
        groups_ok(s),
    ensures
        spec_flat(s).len() == spec_total(s),
        forall|i: int| 0 <= i < spec_flat(s).len() ==> listed_in(groups_to_map(s), #[trigger] spec_flat(s)[i]),
        forall|i: int, j: int| 0 <= i < j < spec_flat(s).len() ==> listed_before(#[trigger] spec_flat(s)[i], #[trigger] spec_flat(s)[j]),
        forall|ca: u16, k: (u32, AsduTypeId)| #![trigger groups_to_map(s)[ca].contains_key(k)]
            groups_to_map(s).contains_key(ca) && groups_to_map(s)[ca].contains_key(k)
            ==> exists|i: int| 0 <= i < spec_flat(s).len() && #[trigger] spec_flat(s)[i] == (ca, groups_to_map(s)[ca][k]),
    decreases s.len(),
{
    if s.len() == 0 {
        assert(groups_to_map(s) =~= Map::<u16, Map<(u32, AsduTypeId), DataPoint>>::empty());
    } else {
        let pre = s.drop_last();
        let last = s.last();
        lemma_groups_last(s);
        lemma_flat_facts(pre);
        let a = spec_flat(pre);
        let e = last.1.entries();
        let b = tag_points(last.0, e);
        let f = spec_flat(s);
        assert(f == a + b);
        let g = groups_to_map(s);
        let g0 = groups_to_map(pre);
        assert(last == s[s.len() - 1]);
        assert(last.1.wf());
        lemma_tagged_sorted(last.0, e);
        assert forall|i: int| 0 <= i < f.len() implies listed_in(g, #[trigger] f[i]) by {
            if i < a.len() {
                assert(f[i] == a[i]);
                assert(listed_in(g0, a[i]));
                assert(a[i].0 < last.0);
            } else {
                let j = i - a.len();
                assert(f[i] == b[j]);
                crate::data_point::lemma_map_index(e, j);
            }
        }
        assert forall|i: int, j: int| 0 <= i < j < f.len() implies listed_before(#[trigger] f[i], #[trigger] f[j]) by {
            if j < a.len() {
                assert(f[i] == a[i] && f[j] == a[j]);
            } else if i >= a.len() {
                assert(f[i] == b[i - a.len()] && f[j] == b[j - a.len()]);
            } else {
                assert(f[i] == a[i] && f[j] == b[j - a.len()]);
                assert(listed_in(g0, a[i]));
            }
        }
        assert forall|ca: u16, k: (u32, AsduTypeId)| #![trigger g[ca].contains_key(k)]
            g.contains_key(ca) && g[ca].contains_key(k)
            implies exists|i: int| 0 <= i < f.len() && #[trigger] f[i] == (ca, g[ca][k]) by {
            if ca == last.0 {
                crate::data_point::lemma_map_contains(e, k);
                let idx = choose|idx: int| 0 <= idx < e.len() && e[idx] == seq_to_map(e)[k] && key_of(#[trigger] e[idx]) == k;
                assert(f[a.len() + idx] == b[idx]);
            } else {
                assert(g0.contains_key(ca) && g0[ca].contains_key(k));
                let i = choose|i: int| 0 <= i < a.len() && #[trigger] a[i] == (ca, g0[ca][k]);
                assert(f[i] == a[i]);
            }
        }
    }
}

proof fn lemma_filter_sorted(e: Seq<DataPoint>, since: u64, f: Seq<DataPoint>)
    requires
        crate::data_point::sorted_by_key(e),
        f == e.filter(|p: DataPoint| p.update_seq > since),
    ensures
        crate::data_point::sorted_by_key(f),
        forall|j: int| 0 <= j < f.len() ==> e.contains(#[trigger] f[j]) && f[j].update_seq > since,
    decreases e.len(),
{
    broadcast use vstd::seq_lib::group_filter_ensures;
    let pred = |p: DataPoint| p.update_seq > since;
    assert(f == e.filter(pred));
    assert forall|j: int| 0 <= j < f.len() implies e.contains(#[trigger] f[j]) && f[j].update_seq > since by {
        assert(f.contains(f[j]));
        e.lemma_filter_contains_rev(pred, f[j]);
    }
    if e.len() > 0 {
        let pre = e.drop_last();
        assert forall|i: int, j: int| 0 <= i < j < pre.len() implies
            key_before(key_of(#[trigger] pre[i]), key_of(#[trigger] pre[j])) by {
            assert(pre[i] == e[i] && pre[j] == e[j]);
        }
        let fp = pre.filter(pred);
        lemma_filter_sorted(pre, since, fp);
        reveal(Seq::filter);
        assert(f == if pred(e.last()) { fp.push(e.last()) } else { fp });
        if pred(e.last()) {
            assert forall|i: int, j: int| 0 <= i < j < f.len() implies
                key_before(key_of(#[trigger] f[i]), key_of(#[trigger] f[j])) by {
                if j == f.len() - 1 {
                    assert(f[i] == fp[i]);
                    assert(pre.contains(fp[i]));
                    let k = choose|k: int| 0 <= k < pre.len() && pre[k] == fp[i];
                    assert(e[k] == fp[i]);
                    assert(f[j] == e[e.len() - 1]);
                } else {
                    assert(f[i] == fp[i] && f[j] == fp[j]);
                }
            }
        }
    }
}

/// The listing of the points stamped after `since` (`changed_since`):
/// each entry stored and stamped after `since`, in (CA, IOA, type) order,
/// and every stored point stamped after `since` listed.
proof fn lemma_flat_changed_facts(s: Seq<(u16, DataPointMap)>, since: u64)
    requires
        groups_ok(s),
    ensures
        forall|i: int| 0 <= i < spec_flat_changed(s, since).len() ==> listed_in(groups_to_map(s), #[trigger] spec_flat_changed(s, since)[i])
            && spec_flat_changed(s, since)[i].1.update_seq > since,
        forall|i: int, j: int| 0 <= i < j < spec_flat_changed(s, since).len()
            ==> listed_before(#[trigger] spec_flat_changed(s, since)[i], #[trigger] spec_flat_changed(s, since)[j]),
        forall|ca: u16, k: (u32, AsduTypeId)| #![trigger groups_to_map(s)[ca].contains_key(k)]
            groups_to_map(s).contains_key(ca) && groups_to_map(s)[ca].contains_key(k) && groups_to_map(s)[ca][k].update_seq > since
            ==> exists|i: int| 0 <= i < spec_flat_changed(s, since).len() && #[trigger] spec_flat_changed(s, since)[i] == (ca, groups_to_map(s)[ca][k]),
    decreases s.len(),
{
    broadcast use vstd::seq_lib::group_filter_ensures;
    if s.len() == 0 {
        assert(groups_to_map(s) =~= Map::<u16, Map<(u32, AsduTypeId), DataPoint>>::empty());
    } else {
        let pre = s.drop_last();
        let last = s.last();
        lemma_groups_last(s);
        lemma_flat_changed_facts(pre, since);
        let a = spec_flat_changed(pre, since);
        let e = last.1.entries();
        let pred = |p: DataPoint| p.update_seq > since;
        let fe = e.filter(pred);
        let b = tag_points(last.0, fe);
        let f = spec_flat_changed(s, since);
        assert(f == a + b);
        let g = groups_to_map(s);
        let g0 = groups_to_map(pre);
        assert(last == s[s.len() - 1]);
        assert(last.1.wf());
        lemma_filter_sorted(e, since, fe);
        lemma_tagged_sorted(last.0, fe);
        assert forall|i: int| 0 <= i < f.len() implies listed_in(g, #[trigger] f[i]) && f[i].1.update_seq > since by {
            if i < a.len() {
                assert(f[i] == a[i]);
                assert(listed_in(g0, a[i]));
                assert(a[i].0 < last.0);
            } else {
                let j = i - a.len();
                assert(f[i] == b[j]);
                assert(e.contains(fe[j]));
                let idx = choose|idx: int| 0 <= idx < e.len() && e[idx] == fe[j];
                crate::data_point::lemma_map_index(e, idx);
            }
        }
        assert forall|i: int, j: int| 0 <= i < j < f.len() implies listed_before(#[trigger] f[i], #[trigger] f[j]) by {
            if j < a.len() {
                assert(f[i] == a[i] && f[j] == a[j]);
            } else if i >= a.len() {
                assert(f[i] == b[i - a.len()] && f[j] == b[j - a.len()]);
            } else {
                assert(f[i] == a[i] && f[j] == b[j - a.len()]);
                assert(listed_in(g0, a[i]));
            }
        }
        assert forall|ca: u16, k: (u32, AsduTypeId)| #![trigger g[ca].contains_key(k)]
            g.contains_key(ca) && g[ca].contains_key(k) && g[ca][k].update_seq > since
            implies exists|i: int| 0 <= i < f.len() && #[trigger] f[i] == (ca, g[ca][k]) by {
            if ca == last.0 {
                crate::data_point::lemma_map_contains(e, k);
                let idx = choose|idx: int| 0 <= idx < e.len() && e[idx] == seq_to_map(e)[k] && key_of(#[trigger] e[idx]) == k;
                assert(pred(e[idx]));
                assert(fe.contains(e[idx]));
                let j = choose|j: int| 0 <= j < fe.len() && fe[j] == e[idx];
                assert(f[a.len() + j] == b[j]);
            } else {
                assert(g0.contains_key(ca) && g0[ca].contains_key(k));
                let i = choose|i: int| 0 <= i < a.len() && #[trigger] a[i] == (ca, g0[ca][k]);
                assert(f[i] == a[i]);
            }
        }
    }
}

proof fn lemma_filter_all(e: Seq<DataPoint>, since: u64, f: Seq<DataPoint>)
    requires
        f == e.filter(|p: DataPoint| p.update_seq > since),
        forall|i: int| 0 <= i < e.len() ==> (#[trigger] e[i]).update_seq > since,
    ensures
        f == e,
    decreases e.len(),
{
    reveal(Seq::filter);
    if e.len() > 0 {
        let pre = e.drop_last();
        let fp = pre.filter(|p: DataPoint| p.update_seq > since);
        assert forall|i: int| 0 <= i < pre.len() implies (#[trigger] pre[i]).update_seq > since by {
            assert(pre[i] == e[i]);
        }
        lemma_filter_all(pre, since, fp);
        assert(e.last() == e[e.len() - 1]);
        assert(pre.push(e.last()) =~= e);
    } else {
        assert(f =~= e);
    }
}

proof fn lemma_flat_changed_zero(s: Seq<(u16, DataPointMap)>)
    requires
        groups_ok(s),
        forall|ca: u16, k: (u32, AsduTypeId)| #![trigger groups_to_map(s)[ca].contains_key(k)]
            groups_to_map(s).contains_key(ca) && groups_to_map(s)[ca].contains_key(k) ==> groups_to_map(s)[ca][k].update_seq >= 1,
    ensures
        spec_flat_changed(s, 0) == spec_flat(s),
    decreases s.len(),
{
    if s.len() > 0 {
        let pre = s.drop_last();
        let last = s.last();
        lemma_groups_last(s);
        let g = groups_to_map(s);
        let g0 = groups_to_map(pre);
        assert forall|ca: u16, k: (u32, AsduTypeId)| #![trigger g0[ca].contains_key(k)]
            g0.contains_key(ca) && g0[ca].contains_key(k) implies g0[ca][k].update_seq >= 1 by {
            assert(ca != last.0);
            assert(g.contains_key(ca) && g[ca] == g0[ca] && g[ca].contains_key(k));
        }
        lemma_flat_changed_zero(pre);
        let e = last.1.entries();
        assert(last == s[s.len() - 1]);
        assert(last.1.wf());
        assert forall|i: int| 0 <= i < e.len() implies (#[trigger] e[i]).update_seq > 0 by {
            crate::data_point::lemma_map_index(e, i);
            assert(g[last.0] == last.1@);
            assert(g[last.0].contains_key(key_of(e[i])));
        }
        lemma_filter_all(e, 0, e.filter(|p: DataPoint| p.update_seq > 0));
    }
}

/// `all_sorted` lists exactly the stored points: each entry is the point
/// stored under its CA at its key, the entries are strictly ordered by
/// (CA, IOA, type) (so none is listed twice), every stored point is
/// listed, and there are as many as the store counts.
pub proof fn lemma_all_sorted_lists_store(d: MasterReceivedData)
    requires
        d.wf(),
    ensures
        spec_flat(d.groups()).len() == spec_total(d.groups()),
        forall|i: int| 0 <= i < spec_flat(d.groups()).len() ==> listed_in(d@, #[trigger] spec_flat(d.groups())[i]),
        forall|i: int, j: int| 0 <= i < j < spec_flat(d.groups()).len()
            ==> listed_before(#[trigger] spec_flat(d.groups())[i], #[trigger] spec_flat(d.groups())[j]),
        forall|ca: u16, k: (u32, AsduTypeId)| #![trigger d@[ca].contains_key(k)]
            d@.contains_key(ca) && d@[ca].contains_key(k)
            ==> exists|i: int| 0 <= i < spec_flat(d.groups()).len() && #[trigger] spec_flat(d.groups())[i] == (ca, d@[ca][k]),
{
    lemma_flat_facts(d.groups());
}

/// `changed_since(since)` lists exactly the stored points stamped after
/// `since`: each entry is stored and stamped after `since`, the entries
/// are strictly ordered by (CA, IOA, type), and every stored point stamped
/// after `since` is listed.
pub proof fn lemma_changed_since_lists_store(d: MasterReceivedData, since: u64)
    requires
        d.wf(),
    ensures
        forall|i: int| 0 <= i < spec_flat_changed(d.groups(), since).len()
            ==> listed_in(d@, #[trigger] spec_flat_changed(d.groups(), since)[i])
                && spec_flat_changed(d.groups(), since)[i].1.update_seq > since,
        forall|i: int, j: int| 0 <= i < j < spec_flat_changed(d.groups(), since).len()
            ==> listed_before(#[trigger] spec_flat_changed(d.groups(), since)[i], #[trigger] spec_flat_changed(d.groups(), since)[j]),
        forall|ca: u16, k: (u32, AsduTypeId)| #![trigger d@[ca].contains_key(k)]
            d@.contains_key(ca) && d@[ca].contains_key(k) && d@[ca][k].update_seq > since
            ==> exists|i: int| 0 <= i < spec_flat_changed(d.groups(), since).len()
                && #[trigger] spec_flat_changed(d.groups(), since)[i] == (ca, d@[ca][k]),
{
    lemma_flat_changed_facts(d.groups(), since);
}

/// Nothing is stamped after the current counter, so `changed_since` of it
/// lists nothing; everything is stamped after 0, so `changed_since(0)` is
/// the whole listing.
pub proof fn lemma_changed_since_bounds(d: MasterReceivedData)
    requires
        d.wf(),
    ensures
        spec_flat_changed(d.groups(), d.seq()).len() == 0,
        spec_flat_changed(d.groups(), 0) == spec_flat(d.groups()),
{
    lemma_flat_changed_facts(d.groups(), d.seq());
    let f = spec_flat_changed(d.groups(), d.seq());
    if f.len() > 0 {
        assert(listed_in(d@, f[0]));
        assert(d@[f[0].0].contains_key(key_of(f[0].1)));
    }
    lemma_flat_changed_zero(d.groups());
}

// ---------------------------------------------------------------------------
// Decoding of received ASDUs
// ---------------------------------------------------------------------------

/// Get the data element size (excluding IOA) for a given ASDU type.
/// Returns (value_bytes, has_timestamp_7bytes).
/// The same table as the frame analyser's `decode::asdu_element_size`.
pub fn asdu_element_size(asdu_type: u8) -> (r: Option<(usize, bool)>)
    ensures
        r == spec_element_size(asdu_type),
{
    crate::decode::asdu_element_size(asdu_type)
}

/// The value that an element of monitoring type `t` carries in its first
/// octets `e`; `None` for the command types, which carry no value.
/// The step position is the seven VTI bits read as a signed value.
pub open spec fn spec_master_value(t: u8, e: Seq<u8>) -> Option<DataPointValue> {
    if t == 1 || t == 30 {
        Some(DataPointValue::SinglePoint { value: e[0] % 2 == 1 })
    } else if t == 3 || t == 31 {
        Some(DataPointValue::DoublePoint { value: e[0] % 4 })
    } else if t == 5 || t == 32 {
        Some(DataPointValue::StepPosition { value: vti_value(e[0]), transient: e[0] >= 128 })
    } else if t == 7 || t == 33 {
        Some(DataPointValue::Bitstring { value: le32(e[0], e[1], e[2], e[3]) })
    } else if t == 9 || t == 34 {
        Some(DataPointValue::Normalized { raw: i16_of(le16(e[0], e[1])) })
    } else if t == 11 || t == 35 {
        Some(DataPointValue::Scaled { value: i16_of(le16(e[0], e[1])) })
    } else if t == 13 || t == 36 {
        Some(DataPointValue::ShortFloat { bits: le32(e[0], e[1], e[2], e[3]) })
    } else if t == 15 || t == 37 {
        Some(DataPointValue::IntegratedTotal {
            value: i32_of(le32(e[0], e[1], e[2], e[3])),
            carry: (e[4] / 32) % 2 == 1,
            sequence: e[4] % 32,
        })
    } else {
        None
    }
}

/// The (IOA, value) pairs of objects `i..num` of an ASDU body `d` whose next
/// object starts at `offset`; `base` is the IOA read last. Decoding stops at
/// the first object that is cut short or carries no value.
pub open spec fn spec_master_points(t: u8, size: int, sq: bool, num: int, d: Seq<u8>, i: int, offset: int, base: u32)
    -> Seq<(u32, DataPointValue)>
    decreases num - i,
{
    if i >= num || i < 0 {
        Seq::empty()
    } else {
        let read_ioa = !sq || i == 0;
        if read_ioa && offset + 3 > d.len() {
            Seq::empty()
        } else {
            let base2 = if read_ioa { le24(d[offset], d[offset + 1], d[offset + 2]) } else { base };
            let off2 = if read_ioa { offset + 3 } else { offset };
            let ioa = if sq { (base2 + i) as u32 } else { base2 };
            if off2 + size > d.len() {
                Seq::empty()
            } else {
                match spec_master_value(t, d.subrange(off2, off2 + size)) {
                    None => Seq::empty(),
                    Some(v) => seq![(ioa, v)] + spec_master_points(t, size, sq, num, d, i + 1, off2 + size, base2),
                }
            }
        }
    }
}

/// What a received I-frame ASDU asks of the master.
#[derive(Debug, Clone)]
pub enum ReceivedAsdu {
    /// Nothing to store: too short, or a type the master does not store.
    Ignored,
    /// Response to a control command (types 45..=50).
    Control(ControlResponse),
    /// Monitoring data of the station at `ca`.
    Data { ca: u16, asdu_type: AsduTypeId, points: Vec<(u32, DataPointValue)> },
}

/// The control response carried by an I-frame of at least 15 octets.
pub open spec fn spec_control_response(d: Seq<u8>) -> ControlResponse {
    ControlResponse {
        ioa: le24(d[12], d[13], d[14]),
        asdu_type: d[6],
        cot: d[8] % 64,
        positive: (d[8] / 64) % 2 == 0,
    }
}

/// The type a stored point is filed under.
pub open spec fn spec_stored_type(t: u8) -> AsduTypeId {
    match AsduTypeId::spec_from_code(t) {
        Some(a) => a,
        None => AsduTypeId::MSpNa1,
    }
}

/// `r` is what the I-frame `d` (APCI included) decodes to.
pub open spec fn received_matches(r: ReceivedAsdu, d: Seq<u8>) -> bool {
    if d.len() < 12 {
        r is Ignored
    } else if 45 <= d[6] <= 50 {
        if d.len() >= 15 { r == ReceivedAsdu::Control(spec_control_response(d)) } else { r is Ignored }
    } else {
        match spec_element_size(d[6]) {
            None => r is Ignored,
            Some(layout) => match r {
                ReceivedAsdu::Data { ca, asdu_type, points } => {
                    &&& ca == le16(d[10], d[11])
                    &&& asdu_type == spec_stored_type(d[6])
                    &&& points@ == spec_master_points(d[6], layout.0 + if layout.1 { 7int } else { 0int },
                        d[7] >= 128, (d[7] % 128) as int, d, 0, 12, 0)
                },
                _ => false,
            },
        }
    }
}

fn master_value(t: u8, d: &[u8], off: usize, size: usize) -> (v: Option<DataPointValue>)
    requires
        off + size <= d.len(),
        spec_element_size(t) matches Some(l) && size == l.0 + if l.1 { 7int } else { 0int },
    ensures
        v == spec_master_value(t, d@.subrange(off as int, off + size)),
{
    let ghost e = d@.subrange(off as int, off + size);
    if t == 1 || t == 30 {
        Some(DataPointValue::SinglePoint { value: d[off] % 2 == 1 })
    } else if t == 3 || t == 31 {
        Some(DataPointValue::DoublePoint { value: d[off] % 4 })
    } else if t == 5 || t == 32 {
        Some(DataPointValue::StepPosition { value: vti_of(d[off]), transient: d[off] >= 128 })
    } else if t == 7 || t == 33 {
        Some(DataPointValue::Bitstring { value: read_le32(d, off) })
    } else if t == 9 || t == 34 {
        Some(DataPointValue::Normalized { raw: to_i16(read_le16(d, off)) })
    } else if t == 11 || t == 35 {
        Some(DataPointValue::Scaled { value: to_i16(read_le16(d, off)) })
    } else if t == 13 || t == 36 {
        Some(DataPointValue::ShortFloat { bits: read_le32(d, off) })
    } else if t == 15 || t == 37 {
        let bcr = d[off + 4];
        Some(DataPointValue::IntegratedTotal { value: to_i32(read_le32(d, off)), carry: (bcr / 32) % 2 == 1, sequence: bcr % 32 })
    } else {
        None
    }
}

/// Decode a received I-frame (APCI included) into what the master does
/// with it: a control response, monitoring data for one CA, or nothing.
pub fn parse_received_asdu(data: &[u8]) -> (r: ReceivedAsdu)
    ensures
        received_matches(r, data@),
{
    if data.len() < 12 {
        return ReceivedAsdu::Ignored;
    }
    let asdu_type = data[6];
    let vsq = data[7];
    let sq = vsq >= 128;
    let num_objects = (vsq % 128) as usize;
    let cause = data[8];
    if 45 <= asdu_type && asdu_type <= 50 {
        if data.len() >= 15 {
            return ReceivedAsdu::Control(ControlResponse {
                ioa: read_le24(data, 12),
                asdu_type,
                cot: cause % 64,
                positive: (cause / 64) % 2 == 0,
            });
        }
        return ReceivedAsdu::Ignored;
    }
    let ca = read_le16(data, 10);
    let (base, has_ts) = match asdu_element_size(asdu_type) {
        Some(l) => l,
        None => return ReceivedAsdu::Ignored,
    };
    let elem_size: usize = base + if has_ts { 7 } else { 0 };
    let asdu_id = match AsduTypeId::from_u8(asdu_type) {
        Some(a) => a,
        None => AsduTypeId::MSpNa1,
    };
    let ghost d = data@;
    let ghost size = elem_size as int;
    let mut points: Vec<(u32, DataPointValue)> = Vec::new();
    let mut obj_offset: usize = 12;
    let mut base_ioa: u32 = 0;
    let mut i: usize = 0;
    while i < num_objects
        invariant
            d == data@,
            spec_element_size(asdu_type) == Some((base, has_ts)),
            elem_size == base + if has_ts { 7usize } else { 0usize },
            elem_size <= 12,
            size == elem_size as int,
            i <= num_objects,
            num_objects < 128,
            12 <= obj_offset <= data.len(),
            base_ioa < 0x100_0000,
            points@ + spec_master_points(asdu_type, size, sq, num_objects as int, d, i as int, obj_offset as int, base_ioa)
                == spec_master_points(asdu_type, size, sq, num_objects as int, d, 0, 12, 0),
        ensures
            points@ == spec_master_points(asdu_type, size, sq, num_objects as int, d, 0, 12, 0),
        decreases num_objects - i,
    {
        let ghost rest = spec_master_points(asdu_type, size, sq, num_objects as int, d, i as int, obj_offset as int, base_ioa);
        let ghost before = points@;
        if !sq || i == 0 {
            if data.len() - obj_offset < 3 {
                assert(rest =~= Seq::<(u32, DataPointValue)>::empty());
                assert(points@ =~= points@ + rest);
                break;
            }
            base_ioa = read_le24(data, obj_offset);
            obj_offset = obj_offset + 3;
        }
        let ioa: u32 = if sq { base_ioa + i as u32 } else { base_ioa };
        if data.len() - obj_offset < elem_size {
            assert(points@ =~= points@ + rest);
            break;
        }
        let value = match master_value(asdu_type, data, obj_offset, elem_size) {
            Some(v) => v,
            None => {
                assert(points@ =~= points@ + rest);
                break;
            },
        };
        obj_offset = obj_offset + elem_size;
        let ghost next = spec_master_points(asdu_type, size, sq, num_objects as int, d, i + 1, obj_offset as int, base_ioa);
        assert(rest == seq![(ioa, value)] + next);
        points.push((ioa, value));
        assert(points@ + next =~= before + rest);
        i = i + 1;
    }
    proof {
        if i >= num_objects {
            assert(points@ + spec_master_points(asdu_type, size, sq, num_objects as int, d, i as int, obj_offset as int, base_ioa) =~= points@);
        }
    }
    ReceivedAsdu::Data { ca, asdu_type: asdu_id, points }
}

/// The point stored for one decoded (IOA, value) pair.
pub open spec fn received_point(ioa: u32, t: AsduTypeId, v: DataPointValue, ts: Option<i64>, seq: u64) -> DataPoint {
    DataPoint { ioa, asdu_type: t, value: v, quality: QualityFlags::spec_good(), timestamp: ts, update_seq: seq }
}

/// The per-CA maps after storing `pts` in order under `ca`, the n-th pair
/// stamped `seq + n` (counting from one).
pub open spec fn spec_store_points(
    v: Map<u16, Map<(u32, AsduTypeId), DataPoint>>,
    seq: int,
    ca: u16,
    t: AsduTypeId,
    pts: Seq<(u32, DataPointValue)>,
    ts: Option<i64>,
) -> Map<u16, Map<(u32, AsduTypeId), DataPoint>>
    decreases pts.len(),
{
    if pts.len() == 0 {
        v
    } else {
        view_insert(
            spec_store_points(v, seq, ca, t, pts.drop_last(), ts),
            ca,
            received_point(pts.last().0, t, pts.last().1, ts, (seq + pts.len()) as u64),
        )
    }
}

impl MasterReceivedData {
    /// Store the decoded points of one frame under `ca`, in frame order,
    /// with good quality and the given timestamp.
    pub fn store_points(&mut self, ca: u16, asdu_type: AsduTypeId, points: &Vec<(u32, DataPointValue)>, timestamp: Option<i64>)
        requires
            old(self).wf(),
            old(self).seq() + points.len() <= u64::MAX,
        ensures
            final(self).wf(),
            final(self).seq() == old(self).seq() + points.len(),
            final(self)@ == spec_store_points(old(self)@, old(self).seq() as int, ca, asdu_type, points@, timestamp),
    {
        let mut i: usize = 0;
        while i < points.len()
            invariant
                i <= points.len(),
                self.wf(),
                old(self).seq() + points.len() <= u64::MAX,
                self.seq() == old(self).seq() + i,
                self@ == spec_store_points(old(self)@, old(self).seq() as int, ca, asdu_type, points@.take(i as int), timestamp),
            decreases points.len() - i,
        {
            let (ioa, value) = points[i];
            let p = DataPoint {
                ioa,
                asdu_type,
                value,
                quality: QualityFlags::good(),
                timestamp,
                update_seq: 0,
            };
            self.insert(ca, p);
            proof {
                assert(points@.take(i + 1).drop_last() =~= points@.take(i as int));
                assert(with_seq(p, self.seq()) == received_point(ioa, asdu_type, value, timestamp, self.seq()));
            }
            i = i + 1;
        }
        assert(points@.take(points.len() as int) =~= points@);
    }
}

/// The answer and the store after handling the decoded frame `parsed` at
/// time `ts`, starting from the store `(v, seq)`.
pub open spec fn stored_after(
    parsed: ReceivedAsdu,
    ts: Option<i64>,
    r: Option<ControlResponse>,
    v: Map<u16, Map<(u32, AsduTypeId), DataPoint>>,
    seq: u64,
    v2: Map<u16, Map<(u32, AsduTypeId), DataPoint>>,
    seq2: u64,
) -> bool {
    match parsed {
        ReceivedAsdu::Control(c) => r == Some(c) && v2 == v && seq2 == seq,
        ReceivedAsdu::Data { ca, asdu_type, points } => r is None
            && v2 == spec_store_points(v, seq as int, ca, asdu_type, points@, ts)
            && seq2 == seq + points.len(),
        ReceivedAsdu::Ignored => r is None && v2 == v && seq2 == seq,
    }
}

/// The master's store went from `(v, seq)` to `(v2, seq2)` by handling the
/// received frame `d`.
pub open spec fn frame_stored(
    d: Seq<u8>,
    v: Map<u16, Map<(u32, AsduTypeId), DataPoint>>,
    seq: u64,
    v2: Map<u16, Map<(u32, AsduTypeId), DataPoint>>,
    seq2: u64,
) -> bool {
    exists|parsed: ReceivedAsdu, ts: Option<i64>, r: Option<ControlResponse>|
        received_matches(parsed, d) && #[trigger] stored_after(parsed, ts, r, v, seq, v2, seq2)
}

proof fn lemma_points_len(t: u8, size: int, sq: bool, num: int, d: Seq<u8>, i: int, offset: int, base: u32)
    requires
        0 <= i,
    ensures
        spec_master_points(t, size, sq, num, d, i, offset, base).len() <= if num - i > 0 { num - i } else { 0 },
    decreases num - i,
{
    if i < num {
        let read_ioa = !sq || i == 0;
        if !(read_ioa && offset + 3 > d.len()) {
            let base2 = if read_ioa { le24(d[offset], d[offset + 1], d[offset + 2]) } else { base };
            let off2 = if read_ioa { offset + 3 } else { offset };
            lemma_points_len(t, size, sq, num, d, i + 1, off2 + size, base2);
        }
    }
}

/// Decode a received I-frame (APCI included) and store its monitoring data
/// under its CA, stamped with the current time (no stamp when the clock
/// cannot be read). A control response is handed back instead of being
/// stored.
pub fn parse_and_store_asdu(data: &[u8], store: &mut MasterReceivedData) -> (r: Option<ControlResponse>)
    requires
        old(store).wf(),
        old(store).seq() + 127 <= u64::MAX,
    ensures
        final(store).wf(),
        exists|parsed: ReceivedAsdu, ts: Option<i64>|
            received_matches(parsed, data@) && (ts matches Some(t) ==> t >= 0)
            && #[trigger] stored_after(parsed, ts, r, old(store)@, old(store).seq(), final(store)@, final(store).seq()),
        frame_stored(data@, old(store)@, old(store).seq(), final(store)@, final(store).seq()),
{
    let parsed = parse_received_asdu(data);
    let ghost p0 = parsed;
    match parsed {
        ReceivedAsdu::Control(c) => {
            assert(stored_after(p0, None, Some(c), old(store)@, old(store).seq(), store@, store.seq()));
            Some(c)
        },
        ReceivedAsdu::Data { ca, asdu_type, points } => {
            let ghost d = data@;
            proof {
                let layout = spec_element_size(d[6])->0;
                lemma_points_len(d[6], layout.0 + if layout.1 { 7int } else { 0int },
                    d[7] >= 128, (d[7] % 128) as int, d, 0, 12, 0);
            }
            let ts = match utc_now() {
                Some(now) => Some(now.millis),
                None => None,
            };
            store.store_points(ca, asdu_type, &points, ts);
            let ghost p2 = ReceivedAsdu::Data { ca, asdu_type, points };
            assert(received_matches(p2, d));
            assert(stored_after(p2, ts, None, old(store)@, old(store).seq(), store@, store.seq()));
            None
        },
        ReceivedAsdu::Ignored => {
            assert(stored_after(p0, None, None, old(store)@, old(store).seq(), store@, store.seq()));
            None
        },
    }
}

} // verus!
