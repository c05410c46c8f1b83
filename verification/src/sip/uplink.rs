//! Uplink media quality: loss and reorder accounting over the 16-bit sequence space. The receive
//! loop feeds it each arriving sequence number.
use vstd::prelude::*;

verus! {

/// A point-in-time uplink quality snapshot (phone to us).
#[derive(Clone, Copy, Debug, PartialEq, Eq, Structural)]
pub struct UplinkQuality {
    pub received: u64,
    pub lost: u64,
    pub reordered: u64,
}

impl Default for UplinkQuality {
    fn default() -> (r: Self)
        ensures
            r == (UplinkQuality { received: 0, lost: 0, reordered: 0 }),
    {
        UplinkQuality { received: 0, lost: 0, reordered: 0 }
    }
}

/// The packets of a stream, counted. Sequence numbers are extended past 16 bits by counting
/// wraps: `first` is the first one and `highest` the highest so far.
pub struct Packets {
    pub started: bool,
    pub first: int,
    pub highest: int,
    pub received: int,
    pub reordered: int,
}

impl Packets {
    pub open spec fn none() -> Packets {
        Packets { started: false, first: 0, highest: 0, received: 0, reordered: 0 }
    }

    pub open spec fn wf(self) -> bool {
        &&& 0 <= self.reordered <= self.received
        &&& self.started ==> 0 <= self.first <= self.highest && self.first < 0x10000
        &&& !self.started ==> self == Packets::none()
    }

    /// How far `seq` lies ahead of the highest packet, on the 16-bit circle.
    pub open spec fn ahead(self, seq: u16) -> int {
        (seq - self.highest) % 0x10000
    }

    /// The stream with one packet more: less than half the circle ahead is progress, the same
    /// number again a duplicate, and anything else a late packet.
    pub open spec fn with(self, seq: u16) -> Packets {
        if !self.started {
            Packets { started: true, first: seq as int, highest: seq as int, received: 1, reordered: 0 }
        } else {
            let d = self.ahead(seq);
            Packets {
                highest: if d < 0x8000 {
                    self.highest + d
                } else {
                    self.highest
                },
                received: self.received + 1,
                reordered: if d < 0x8000 {
                    self.reordered
                } else {
                    self.reordered + 1
                },
                ..self
            }
        }
    }

    /// The stream with all of `seqs`, in order.
    pub open spec fn with_all(self, seqs: Seq<u16>) -> Packets
        decreases seqs.len(),
    {
        if seqs.len() == 0 {
            self
        } else {
            self.with_all(seqs.drop_last()).with(seqs.last())
        }
    }

    /// Packets that the span from the first to the highest holds beyond those received.
    pub open spec fn lost(self) -> int {
        if self.started && self.highest - self.first + 1 > self.received {
            self.highest - self.first + 1 - self.received
        } else {
            0
        }
    }
}

/// Accumulates sequence numbers into loss and reorder counts.
#[derive(Debug)]
pub struct UplinkStats {
    started: bool,
    cycles: u64,
    max16: u16,
    first_ext: u64,
    received: u64,
    reordered: u64,
}

impl View for UplinkStats {
    type V = Packets;

    closed spec fn view(&self) -> Packets {
        Packets {
            started: self.started,
            first: self.first_ext as int,
            highest: self.cycles * 0x10000 + self.max16,
            received: self.received as int,
            reordered: self.reordered as int,
        }
    }
}

impl Default for UplinkStats {
    fn default() -> (r: Self)
        ensures
            r@ == Packets::none(),
    {
        UplinkStats::new()
    }
}

impl UplinkStats {
    pub fn new() -> (r: Self)
        ensures
            r@ == Packets::none(),
            r@.wf(),
    {
        UplinkStats { started: false, cycles: 0, max16: 0, first_ext: 0, received: 0, reordered: 0 }
    }

    /// Counts one arriving packet.
    pub fn observe(&mut self, seq: u16)
        requires
            old(self)@.wf(),
            old(self)@.received < u64::MAX,
            old(self)@.highest <= u64::MAX - 0x10000,
        ensures
            final(self)@ == old(self)@.with(seq),
            final(self)@.wf(),
    {
        if !self.started {
            self.started = true;
            self.max16 = seq;
            self.first_ext = seq as u64;
            self.received = 1;
            return;
        }
        self.received = self.received + 1;
        let forward: u16 = if seq >= self.max16 {
            seq - self.max16
        } else {
            0xFFFF - (self.max16 - seq) + 1
        };
        assert(forward == old(self)@.ahead(seq));
        if forward == 0 {
        } else if forward < 0x8000 {
            if seq < self.max16 {
                self.cycles = self.cycles + 1;
            }
            self.max16 = seq;
        } else {
            self.reordered = self.reordered + 1;
        }
    }

    pub fn snapshot(&self) -> (r: UplinkQuality)
        requires
            self@.wf(),
            self@.highest < u64::MAX,
        ensures
            r.received == self@.received,
            r.lost == self@.lost(),
            r.reordered == self@.reordered,
    {
        if !self.started {
            return UplinkQuality::default();
        }
        let max_ext: u64 = self.cycles * 65_536 + self.max16 as u64;
        let span: u64 = max_ext - self.first_ext + 1;
        UplinkQuality {
            received: self.received,
            lost: if span > self.received {
                span - self.received
            } else {
                0
            },
            reordered: self.reordered,
        }
    }
}

/// Uplink counters published by the receive loop and read by the engine.
pub struct UplinkQualityShared {
    last: UplinkQuality,
}

impl View for UplinkQualityShared {
    type V = UplinkQuality;

    closed spec fn view(&self) -> UplinkQuality {
        self.last
    }
}

impl UplinkQualityShared {
    /// Nothing published yet.
    pub fn new() -> (r: Self)
        ensures
            r@ == (UplinkQuality { received: 0, lost: 0, reordered: 0 }),
    {
        UplinkQualityShared { last: UplinkQuality::default() }
    }

    pub fn publish(&mut self, q: &UplinkQuality)
        ensures
            final(self)@ == *q,
    {
        self.last = *q;
    }

    /// What was last published.
    pub fn snapshot(&self) -> (r: UplinkQuality)
        ensures
            r == self@,
    {
        self.last
    }
}

/// Every packet is received once, whatever its number.
pub proof fn every_packet_is_received(seqs: Seq<u16>)
    ensures
        Packets::none().with_all(seqs).received == seqs.len(),
        Packets::none().with_all(seqs).wf(),
        Packets::none().with_all(seqs).started == (seqs.len() > 0),
    decreases seqs.len(),
{
    if seqs.len() > 0 {
        every_packet_is_received(seqs.drop_last());
    }
}

/// `n` packets in order, from `first` on and across any number of 16-bit wraps, lose nothing and
/// reorder nothing.
pub proof fn in_order_has_no_loss(first: u16, n: nat)
    ensures
        ({
            let seqs = Seq::new(n, |i: int| ((first + i) % 0x10000) as u16);
            let p = Packets::none().with_all(seqs);
            p.received == n && p.lost() == 0 && p.reordered == 0 && (n > 0 ==> p.highest == first
                + n - 1 && p.first == first)
        }),
    decreases n,
{
    let seqs = Seq::new(n, |i: int| ((first + i) % 0x10000) as u16);
    if n > 0 {
        let m = (n - 1) as nat;
        in_order_has_no_loss(first, m);
        let before = Seq::new(m, |i: int| ((first + i) % 0x10000) as u16);
        assert(seqs.drop_last() =~= before);
        let p = Packets::none().with_all(before);
        assert(seqs.last() == ((first + m) % 0x10000) as u16);
        if m > 0 {
            let s = (first + m) % 0x10000;
            assert(p.highest == first + m - 1);
            assert((s - p.highest) % 0x10000 == 1) by {
                let q = (first + m) / 0x10000;
                assert(first + m == 0x10000 * q + s);
                assert(s - p.highest == 1 - 0x10000 * q);
                assert((1 - 0x10000 * q) % 0x10000 == 1);
            }
        }
    } else {
        assert(seqs.len() == 0);
        reveal_with_fuel(Packets::with_all, 1);
    }
}

/// A jump ahead of `d` packets (below half the circle) counts the `d - 1` between as lost, beyond
/// what was lost before.
pub proof fn gap_counts_all_lost(p: Packets, seq: u16)
    requires
        p.wf(),
        p.started,
        p.highest - p.first + 1 >= p.received,
        1 <= p.ahead(seq) < 0x8000,
    ensures
        p.with(seq).lost() == p.lost() + p.ahead(seq) - 1,
        p.with(seq).reordered == p.reordered,
{
}

/// A late packet that was counted lost is lost no longer, and the span does not grow.
pub proof fn reorder_does_not_inflate_loss(p: Packets, seq: u16)
    requires
        p.wf(),
        p.started,
        p.ahead(seq) >= 0x8000,
    ensures
        p.with(seq).highest == p.highest,
        p.with(seq).reordered == p.reordered + 1,
        p.with(seq).lost() <= p.lost(),
        p.lost() > 0 ==> p.with(seq).lost() == p.lost() - 1,
{
}

/// A duplicate is received but moves neither the span nor the reorder count.
pub proof fn duplicate_is_counted_not_lost(p: Packets, seq: u16)
    requires
        p.wf(),
        p.started,
        p.ahead(seq) == 0,
    ensures
        p.with(seq).received == p.received + 1,
        p.with(seq).highest == p.highest,
        p.with(seq).reordered == p.reordered,
        p.with(seq).lost() <= p.lost(),
{
}

/// The highest of the first `n` numbers.
pub open spec fn highest_of(xs: Seq<int>, n: int) -> int
    decreases n,
{
    if n <= 1 {
        xs[0]
    } else if xs[n - 1] > highest_of(xs, n - 1) {
        xs[n - 1]
    } else {
        highest_of(xs, n - 1)
    }
}

/// How many of the first `n` numbers came after a higher one.
pub open spec fn overtaken(xs: Seq<int>, n: int) -> int
    decreases n,
{
    if n <= 1 {
        0
    } else {
        overtaken(xs, n - 1) + (if xs[n - 1] < highest_of(xs, n - 1) {
            1int
        } else {
            0
        })
    }
}

/// Only the low 16 bits of a packet's number travel, but the stream's own numbers come back, across
/// any number of wraps, as long as no packet is half the circle away from the highest before it:
/// the highest number is found, a packet counts as reordered where it was overtaken, and what is
/// missing between the first and the highest is lost.
pub proof fn numbers_are_recovered(xs: Seq<int>, seqs: Seq<u16>, n: int)
    requires
        0 < n <= xs.len(),
        seqs.len() == n,
        forall|i: int| 0 <= i < n ==> (#[trigger] seqs[i]) == xs[i] % 0x10000,
        0 <= xs[0] < 0x10000,
        forall|i: int|
            1 <= i < n ==> -0x8000 <= #[trigger] xs[i] - highest_of(xs, i) < 0x8000,
    ensures
        ({
            let p = Packets::none().with_all(seqs);
            let span = highest_of(xs, n) - xs[0] + 1;
            &&& p.started
            &&& p.first == xs[0]
            &&& p.highest == highest_of(xs, n)
            &&& p.received == n
            &&& p.reordered == overtaken(xs, n)
            &&& p.lost() == (if span > n {
                span - n
            } else {
                0
            })
        }),
    decreases n,
{
    let before = seqs.drop_last();
    if n == 1 {
        assert(before =~= Seq::empty());
        reveal_with_fuel(Packets::with_all, 2);
        assert(seqs[0] == xs[0] % 0x10000);
    } else {
        assert forall|i: int| 0 <= i < n - 1 implies (#[trigger] before[i]) == xs[i] % 0x10000 by {
            assert(before[i] == seqs[i]);
        }
        numbers_are_recovered(xs, before, n - 1);
        let p = Packets::none().with_all(before);
        let x = xs[n - 1];
        let h = highest_of(xs, n - 1);
        let s = seqs[n - 1];
        assert(seqs.last() == s);
        assert(-0x8000 <= xs[n - 1] - highest_of(xs, n - 1) < 0x8000);
        let q = x / 0x10000;
        assert(x == 0x10000 * q + s);
        assert(s - h == (x - h) - 0x10000 * q);
        if x >= h {
            assert(((x - h) - 0x10000 * q) % 0x10000 == x - h);
        } else {
            assert(((x - h) - 0x10000 * q) % 0x10000 == x - h + 0x10000);
        }
    }
}

} // verus!
