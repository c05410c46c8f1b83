//! Fail-closed network preflight: decide from a few ping round trips and a trial setup whether the
//! network is good enough to place a call.
use vstd::prelude::*;
use vstd::relations::{sorted_by, total_ordering};
use vstd::seq_lib::lemma_sorted_unique;
use vstd::string::StringExecFns;

use crate::config::NetCheckConfig;
use crate::error::Error;
use crate::nearest::{percent, percent_bits};
use crate::single::{
    half_even, lemma_round_ratio_bounds, lemma_unit, round_quotient,
    round_ratio, unit, Single,
};
use crate::text::{decimal, to_decimal};

verus! {

/// Whether the network can carry a call.
#[derive(Clone, Copy, Debug, PartialEq, Eq, Structural)]
pub enum Verdict {
    Usable,
    Unusable,
}

/// What a preflight measured.
#[derive(Clone, Copy, Debug, PartialEq, Eq, Structural)]
pub struct NetworkHealth {
    pub rtt_p50_ms: u32,
    pub rtt_p95_ms: u32,
    pub jitter_ms: u32,
    pub loss_pct: Single,
}

impl NetworkHealth {
    /// A one-line summary; `loss` is the loss as text.
    pub fn summary(&self, loss: &str) -> (r: String)
        ensures
            r@ == "rtt_p50="@ + decimal(self.rtt_p50_ms as int) + "ms rtt_p95="@ + decimal(
                self.rtt_p95_ms as int,
            ) + "ms jitter="@ + decimal(self.jitter_ms as int) + "ms loss="@ + loss@ + "%"@,
    {
        let mut s: String = "rtt_p50=".to_owned();
        s.append(to_decimal(self.rtt_p50_ms as u64).as_str());
        s.append("ms rtt_p95=");
        s.append(to_decimal(self.rtt_p95_ms as u64).as_str());
        s.append("ms jitter=");
        s.append(to_decimal(self.jitter_ms as u64).as_str());
        s.append("ms loss=");
        s.append(loss);
        s.append("%");
        s
    }
}

/// Whether a measurement passes every limit.
pub open spec fn passes(h: NetworkHealth, cfg: NetCheckConfig) -> bool {
    &&& h.rtt_p95_ms <= cfg.max_rtt_ms
    &&& h.jitter_ms <= cfg.max_jitter_ms
    &&& !h.loss_pct.above(cfg.max_loss_pct)
}

pub fn verdict(h: &NetworkHealth, cfg: &NetCheckConfig) -> (r: Verdict)
    ensures
        r == (if passes(*h, *cfg) {
            Verdict::Usable
        } else {
            Verdict::Unusable
        }),
{
    if h.rtt_p95_ms > cfg.max_rtt_ms || h.jitter_ms > cfg.max_jitter_ms || h.loss_pct.exceeds(
        cfg.max_loss_pct,
    ) {
        Verdict::Unusable
    } else {
        Verdict::Usable
    }
}

/// 0.50 in units of 2^-24.
pub const HALF: u32 = 0x80_0000;

/// The single-precision number nearest to 0.95, in units of 2^-24.
pub const MOST: u32 = 0xF3_3333;

/// The place of quantile `q` (in units of 2^-24) among `n` ordered values: `(n - 1) * q` to the
/// nearest whole number, each step in single precision.
pub open spec fn quantile_place(n: int, q: int) -> int {
    let last = round_ratio(round_ratio(n, 1) - 1, 1);
    (round_ratio(last * q, 1) + 0x80_0000) / 0x100_0000
}

pub open spec fn up_to() -> spec_fn(u32, u32) -> bool {
    |a: u32, b: u32| a <= b
}

/// The values in ascending order.
pub open spec fn ascending(s: Seq<u32>) -> Seq<u32> {
    s.sort_by(up_to())
}

/// What the measured round trips and losses say; with no round trip at all everything is as bad as
/// it can be. The jitter is the spread between the two quantiles.
pub open spec fn summarized(rtts: Seq<u32>, lost: int, total: int) -> NetworkHealth {
    let loss_pct = Single { bits: percent_bits(lost, total) as u32 };
    if rtts.len() == 0 {
        NetworkHealth {
            rtt_p50_ms: u32::MAX,
            rtt_p95_ms: u32::MAX,
            jitter_ms: u32::MAX,
            loss_pct,
        }
    } else {
        let a = ascending(rtts);
        let p50 = a[quantile_place(rtts.len() as int, HALF as int)];
        let p95 = a[quantile_place(rtts.len() as int, MOST as int)];
        NetworkHealth {
            rtt_p50_ms: p50,
            rtt_p95_ms: p95,
            jitter_ms: if p95 > p50 {
                (p95 - p50) as u32
            } else {
                0
            },
            loss_pct,
        }
    }
}

proof fn lemma_rounded_above(m: int)
    requires
        0 <= m < 0x100_0000_0000_0000_0000,
    ensures
        0 <= round_ratio(m, 1),
        round_ratio(m, 1) <= m + 1 || round_ratio(m, 1) * 0x80_0000 <= m * 0x80_0001,
{
    vstd::arithmetic::power2::lemma2_to64();
    vstd::arithmetic::power2::lemma2_to64_rest();
    lemma_unit(m, 48);
    assert(m / 1 == m);
    lemma_round_ratio_bounds(m, 1);
}

/// Rounding leaves a small whole number as it is.
proof fn lemma_small_is_exact(m: int)
    requires
        0 <= m < 0x100_0000,
    ensures
        round_ratio(m, 1) == m,
{
    assert(m / 1 == m && m % 1 == 0);
    assert(unit(m) == 1);
    assert(half_even(m, 1) == m);
    assert(1 * m == m);
}

proof fn lemma_quantile_place(n: int, q: int)
    requires
        0 < n <= 0xFFFF_FFFF,
        0 <= q <= 0xF3_3333,
    ensures
        0 <= quantile_place(n, q) < n,
{
    let rounded = round_ratio(n, 1);
    lemma_rounded_above(n);
    crate::single::rounding_is_monotone(1, n);
    lemma_small_is_exact(1);
    let last = round_ratio(rounded - 1, 1);
    lemma_rounded_above(rounded - 1);
    let p = last * q;
    assert(0 <= p <= last * 0xF3_3333) by (nonlinear_arith)
        requires
            p == last * q,
            0 <= q <= 0xF3_3333,
            0 <= last,
    ;
    lemma_rounded_above(p);
    if n < 0x100_0000 {
        lemma_small_is_exact(n);
        lemma_small_is_exact(n - 1);
    }
}

/// The place of a quantile among `n` values.
fn place_of(n: u32, q: u32) -> (r: usize)
    requires
        n > 0,
        q <= 0xF3_3333,
    ensures
        r == quantile_place(n as int, q as int),
        r < n,
{
    proof {
        lemma_quantile_place(n as int, q as int);
        assert(n as int / 1 == n);
        crate::single::rounding_is_monotone(1, n as int);
        lemma_small_is_exact(1);
    }
    let rounded: u128 = round_quotient(n as u128, 1);
    assert((rounded - 1) / 1 == rounded - 1);
    let last: u128 = round_quotient(rounded - 1, 1);
    assert(last * q <= 0x10_0000_0000 * 0xF3_3333) by (nonlinear_arith)
        requires
            last <= 0x10_0000_0000,
            q <= 0xF3_3333,
    ;
    let p: u128 = last * q as u128;
    assert(p as int / 1 == p);
    let x: u128 = round_quotient(p, 1);
    ((x + 0x80_0000) / 0x100_0000) as usize
}

/// The values in ascending order.
fn sorted(v: &Vec<u32>) -> (r: Vec<u32>)
    ensures
        r@ == ascending(v@),
        r@.len() == v@.len(),
{
    broadcast use vstd::seq_lib::group_to_multiset_ensures;

    let mut out: Vec<u32> = Vec::new();
    let mut i: usize = 0;
    assert(v@.take(0) =~= Seq::empty());
    while i < v.len()
        invariant
            i <= v@.len(),
            out@.len() == i,
            forall|a: int, b: int| 0 <= a < b < out@.len() ==> out@[a] <= out@[b],
            out@.to_multiset() == v@.take(i as int).to_multiset(),
        decreases v@.len() - i,
    {
        let x: u32 = v[i];
        let mut j: usize = 0;
        while j < out.len() && out[j] <= x
            invariant
                j <= out@.len(),
                forall|a: int| 0 <= a < j ==> out@[a] <= x,
            decreases out@.len() - j,
        {
            j = j + 1;
        }
        let ghost before = out@;
        out.insert(j, x);
        i = i + 1;
        assert(v@.take(i as int) =~= v@.take(i - 1).push(x));
        proof {
            assert(out@ =~= before.insert(j as int, x));
            vstd::seq_lib::to_multiset_insert(before, j as int, x);
            vstd::seq_lib::to_multiset_build(v@.take(i - 1), x);
        }
        assert forall|a: int, b: int| 0 <= a < b < out@.len() implies out@[a] <= out@[b] by {
            if b < j {
                assert(before[a] <= before[b]);
            } else if b == j {
                assert(before[a] <= x);
            } else if a == j {
                if j < before.len() && j < b - 1 {
                    assert(before[j as int] <= before[b - 1]);
                }
            } else if a < j {
                assert(before[a] <= before[b - 1]);
            } else {
                assert(before[a - 1] <= before[b - 1]);
            }
        }
    }
    proof {
        assert(v@.take(i as int) =~= v@);
        let leq = up_to();
        assert(total_ordering(leq));
        v@.lemma_sort_by_ensures(leq);
        assert(sorted_by(out@, leq));
        lemma_sorted_unique(out@, ascending(v@), leq);
    }
    out
}

/// What the measured round trips and losses say.
pub fn summarize(rtts: &Vec<u32>, lost: u32, total: u32) -> (r: NetworkHealth)
    requires
        total > 0,
        rtts@.len() <= u32::MAX,
    ensures
        r == summarized(rtts@, lost as int, total as int),
{
    let loss_pct: Single = percent(lost as u64, total as u64);
    if rtts.len() == 0 {
        return NetworkHealth {
            rtt_p50_ms: u32::MAX,
            rtt_p95_ms: u32::MAX,
            jitter_ms: u32::MAX,
            loss_pct,
        };
    }
    let a: Vec<u32> = sorted(rtts);
    let n: u32 = a.len() as u32;
    let p50: u32 = a[place_of(n, HALF)];
    let p95: u32 = a[place_of(n, MOST)];
    NetworkHealth {
        rtt_p50_ms: p50,
        rtt_p95_ms: p95,
        jitter_ms: p95.saturating_sub(p50),
        loss_pct,
    }
}

/// The jitter is exactly the spread between the two quantiles, and the higher one is no lower.
pub proof fn jitter_is_the_spread(rtts: Seq<u32>, lost: int, total: int)
    requires
        0 < rtts.len() <= u32::MAX,
    ensures
        ({
            let h = summarized(rtts, lost, total);
            h.rtt_p50_ms <= h.rtt_p95_ms && h.jitter_ms == h.rtt_p95_ms - h.rtt_p50_ms
        }),
{
    broadcast use vstd::seq_lib::group_to_multiset_ensures;

    let n = rtts.len() as int;
    let leq = up_to();
    assert(total_ordering(leq));
    rtts.lemma_sort_by_ensures(leq);
    let a = ascending(rtts);
    assert(a.len() == n) by {
        assert(a.to_multiset().len() == rtts.to_multiset().len());
    }
    let i = quantile_place(n, HALF as int);
    let j = quantile_place(n, MOST as int);
    lemma_quantile_place(n, HALF as int);
    lemma_quantile_place(n, MOST as int);
    assert(i <= j) by {
        let rounded = round_ratio(n, 1);
        crate::single::rounding_is_monotone(1, n);
        lemma_small_is_exact(1);
        let last = round_ratio(rounded - 1, 1);
        lemma_rounded_above(n);
        lemma_rounded_above(rounded - 1);
        assert(0 <= last * HALF <= last * MOST) by (nonlinear_arith)
            requires
                0 <= last,
                HALF <= MOST,
        ;
        crate::single::rounding_is_monotone(last * HALF, last * MOST);
    }
    if i < j {
        assert(leq(a[i], a[j]));
    }
}

/// What came on the session's stream while its setup awaits acknowledgement.
#[derive(Debug)]
pub enum Frame {
    /// The setup was acknowledged.
    SetupComplete,
    /// The server closed, with a code and a reason where it gave them.
    Close(Option<(u16, String)>),
    /// Anything else.
    Other,
    /// The stream failed.
    Failed(String),
    /// The stream ended.
    End,
    /// Nothing came within the budget.
    Timeout,
}

/// Outcome of the setup handshake probe.
#[derive(Debug)]
pub enum SetupProbe {
    /// The session is genuinely usable.
    Acknowledged,
    /// The server turned the setup down.
    Rejected(u16, String),
    /// No acknowledgement within the budget.
    Timeout,
}

/// What a frame says of the setup; `None` is to keep waiting.
pub fn on_setup_frame(frame: Frame) -> (r: Option<SetupProbe>)
    ensures
        match frame {
            Frame::SetupComplete => r == Some(SetupProbe::Acknowledged),
            Frame::Close(Some((code, reason))) => r == Some(SetupProbe::Rejected(code, reason)),
            Frame::Close(None) => r is Some && r->Some_0 is Rejected && r->Some_0->Rejected_0 == 0
                && r->Some_0->Rejected_1@ == "no close frame"@,
            Frame::Other => r is None,
            Frame::Failed(e) => r == Some(SetupProbe::Rejected(0, e)),
            Frame::End => r is Some && r->Some_0 is Rejected && r->Some_0->Rejected_0 == 0
                && r->Some_0->Rejected_1@ == "stream ended before setupComplete"@,
            Frame::Timeout => r == Some(SetupProbe::Timeout),
        },
{
    match frame {
        Frame::SetupComplete => Some(SetupProbe::Acknowledged),
        Frame::Close(Some((code, reason))) => Some(SetupProbe::Rejected(code, reason)),
        Frame::Close(None) => Some(SetupProbe::Rejected(0, "no close frame".to_owned())),
        Frame::Other => None,
        Frame::Failed(e) => Some(SetupProbe::Rejected(0, e)),
        Frame::End => Some(
            SetupProbe::Rejected(0, "stream ended before setupComplete".to_owned()),
        ),
        Frame::Timeout => Some(SetupProbe::Timeout),
    }
}

/// What a preflight has measured so far.
pub struct Measured {
    /// Pings still to be sent and discarded, before any is measured.
    pub warmups: int,
    pub samples: int,
    pub max_rtt_ms: int,
    /// Most time that connecting and setting up may take together; 0 is no limit.
    pub max_setup_ms: int,
    pub rtts: Seq<u32>,
    pub lost: int,
}

impl Measured {
    /// Every ping was answered or lost.
    pub open spec fn wf(self) -> bool {
        &&& 0 <= self.warmups
        &&& 0 <= self.lost
        &&& 0 < self.samples <= u32::MAX
        &&& self.rtts.len() + self.lost <= self.samples
        &&& self.warmups > 0 ==> self.rtts.len() + self.lost == 0
    }

    /// How many measured pings are settled.
    pub open spec fn settled(self) -> int {
        self.rtts.len() + self.lost
    }

    /// Whether a ping is still to be settled.
    pub open spec fn pending(self) -> bool {
        self.warmups > 0 || self.settled() < self.samples
    }

    /// The measurement after a ping, answered after `Some` time or not at all. What comes of a
    /// warm-up counts for nothing.
    pub open spec fn after_ping(self, rtt_ms: Option<u32>) -> Measured {
        if self.warmups > 0 {
            Measured { warmups: self.warmups - 1, ..self }
        } else {
            match rtt_ms {
                Some(t) => Measured { rtts: self.rtts.push(t), ..self },
                None => Measured { lost: self.lost + 1, ..self },
            }
        }
    }

    /// Whether the session took too long to establish.
    pub open spec fn too_slow(self, connect_ms: int, setup_ms: int) -> bool {
        self.max_setup_ms > 0 && connect_ms + setup_ms > self.max_setup_ms
    }
}

/// A preflight: a number of pings, then a trial setup.
pub struct Preflight {
    warmups: u32,
    samples: u32,
    max_rtt_ms: u32,
    max_setup_ms: u32,
    rtts: Vec<u32>,
    lost: u32,
}

impl View for Preflight {
    type V = Measured;

    closed spec fn view(&self) -> Measured {
        Measured {
            warmups: self.warmups as int,
            samples: self.samples as int,
            max_rtt_ms: self.max_rtt_ms as int,
            max_setup_ms: self.max_setup_ms as int,
            rtts: self.rtts@,
            lost: self.lost as int,
        }
    }
}

impl Preflight {
    /// The warm-ups come first; at least one ping is measured.
    pub fn new(cfg: &NetCheckConfig) -> (r: Self)
        ensures
            r@ == (Measured {
                warmups: cfg.warmup_pings as int,
                samples: if cfg.samples == 0 {
                    1
                } else {
                    cfg.samples as int
                },
                max_rtt_ms: cfg.max_rtt_ms as int,
                max_setup_ms: cfg.max_setup_ms as int,
                rtts: Seq::empty(),
                lost: 0,
            }),
            r@.wf(),
    {
        let r = Preflight {
            warmups: cfg.warmup_pings,
            samples: if cfg.samples == 0 {
                1
            } else {
                cfg.samples
            },
            max_rtt_ms: cfg.max_rtt_ms,
            max_setup_ms: cfg.max_setup_ms,
            rtts: Vec::new(),
            lost: 0,
        };
        assert(r.rtts@ =~= Seq::empty());
        r
    }

    /// The payload of the next ping; `None` once all are settled.
    pub fn next_ping(&self) -> (r: Option<u8>)
        requires
            self@.wf(),
        ensures
            match r {
                Some(b) => self@.pending() && b == self@.settled() % 256,
                None => !self@.pending(),
            },
    {
        if self.warmups > 0 {
            return Some(0);
        }
        let settled: u32 = self.rtts.len() as u32 + self.lost;
        if settled < self.samples {
            Some((settled % 256) as u8)
        } else {
            None
        }
    }

    /// How long to wait for the answer to a ping.
    pub fn ping_budget_ms(&self) -> (r: u64)
        ensures
            r == 4 * self@.max_rtt_ms,
    {
        self.max_rtt_ms as u64 * 4
    }

    /// How long to wait for the setup to be acknowledged.
    pub fn ack_budget_ms(&self) -> (r: u64)
        ensures
            r == (if 4 * self@.max_rtt_ms > 2000 {
                4 * self@.max_rtt_ms
            } else {
                2000
            }),
    {
        let b: u64 = self.max_rtt_ms as u64 * 4;
        if b > 2000 {
            b
        } else {
            2000
        }
    }

    /// A ping was answered after `Some` time, or not within its budget.
    pub fn on_ping(&mut self, rtt_ms: Option<u32>)
        requires
            old(self)@.wf(),
            old(self)@.pending(),
        ensures
            final(self)@ == old(self)@.after_ping(rtt_ms),
            final(self)@.wf(),
    {
        if self.warmups > 0 {
            self.warmups = self.warmups - 1;
            return;
        }
        match rtt_ms {
            Some(t) => {
                self.rtts.push(t);
            },
            None => {
                self.lost = self.lost + 1;
            },
        }
    }

    /// The preflight's result once the setup probe is settled. An unacknowledged or rejected setup
    /// fails it whatever the round trips were, and so does one that took too long together with
    /// connecting.
    pub fn finish(&self, probe: SetupProbe, connect_ms: u64, setup_ms: u64) -> (r: Result<
        NetworkHealth,
        Error,
    >)
        requires
            self@.wf(),
        ensures
            match probe {
                SetupProbe::Acknowledged => if self@.too_slow(connect_ms as int, setup_ms as int) {
                    r is Err && r->Err_0 is Connect && r->Err_0->Connect_0@
                        == "gemini setup too slow (connect "@ + decimal(connect_ms as int)
                        + "ms + setup "@ + decimal(setup_ms as int) + "ms, limit "@ + decimal(
                        self@.max_setup_ms,
                    ) + "ms)"@
                } else {
                    r is Ok && r->Ok_0 == summarized(self@.rtts, self@.lost, self@.samples)
                },
                SetupProbe::Rejected(code, reason) => r is Err && r->Err_0 is Connect
                    && r->Err_0->Connect_0@ == "gemini setup rejected (ws close "@ + decimal(
                    code as int,
                ) + "): "@ + reason@,
                SetupProbe::Timeout => r is Err && r->Err_0 is Connect && r->Err_0->Connect_0@
                    == "gemini setup not acknowledged (no setupComplete within budget)"@,
            },
    {
        match probe {
            SetupProbe::Acknowledged => {
                let took: u128 = connect_ms as u128 + setup_ms as u128;
                if self.max_setup_ms > 0 && took > self.max_setup_ms as u128 {
                    let mut s: String = "gemini setup too slow (connect ".to_owned();
                    s.append(to_decimal(connect_ms).as_str());
                    s.append("ms + setup ");
                    s.append(to_decimal(setup_ms).as_str());
                    s.append("ms, limit ");
                    s.append(to_decimal(self.max_setup_ms as u64).as_str());
                    s.append("ms)");
                    return Err(Error::Connect(s));
                }
                Ok(summarize(&self.rtts, self.lost, self.samples))
            },
            SetupProbe::Rejected(code, reason) => {
                let mut s: String = "gemini setup rejected (ws close ".to_owned();
                s.append(to_decimal(code as u64).as_str());
                s.append("): ");
                s.append(reason.as_str());
                Err(Error::Connect(s))
            },
            SetupProbe::Timeout => Err(
                Error::Connect(
                    "gemini setup not acknowledged (no setupComplete within budget)".to_owned(),
                ),
            ),
        }
    }
}

/// Each limit alone refuses the network, and nothing else does: a network within all three is
/// usable.
pub proof fn each_limit_refuses(h: NetworkHealth, cfg: NetCheckConfig)
    ensures
        h.rtt_p95_ms > cfg.max_rtt_ms ==> !passes(h, cfg),
        h.jitter_ms > cfg.max_jitter_ms ==> !passes(h, cfg),
        h.loss_pct.above(cfg.max_loss_pct) ==> !passes(h, cfg),
        h.rtt_p95_ms <= cfg.max_rtt_ms && h.jitter_ms <= cfg.max_jitter_ms && !h.loss_pct.above(
            cfg.max_loss_pct,
        ) ==> passes(h, cfg),
{
}

/// With no answer at all the network is as bad as can be: no limit below the greatest number lets it
/// pass.
pub proof fn no_answer_is_unusable(lost: int, total: int, cfg: NetCheckConfig)
    requires
        cfg.max_rtt_ms < u32::MAX || cfg.max_jitter_ms < u32::MAX,
    ensures
        !passes(summarized(Seq::empty(), lost, total), cfg),
{
}

/// The place of a quantile is the whole number nearest to its share of the way from the first value
/// to the last.
pub proof fn quantile_is_its_share(n: int, q: int)
    requires
        0 < n <= 0x1_0000,
        0 <= q <= 0xF3_3333,
    ensures
        0 <= quantile_place(n, q) < n,
        -0x81_0000 <= 0x100_0000 * quantile_place(n, q) - (n - 1) * q <= 0x81_0000,
{
    lemma_quantile_place(n, q);
    lemma_small_is_exact(n);
    lemma_small_is_exact(n - 1);
    let p = (n - 1) * q;
    assert(0 <= p <= 0xFFFF * 0xF3_3333) by (nonlinear_arith)
        requires
            p == (n - 1) * q,
            0 <= n - 1 <= 0xFFFF,
            0 <= q <= 0xF3_3333,
    ;
    crate::single::rounding_is_close(p);
    assert(crate::single::round_single(p) == round_ratio(p, 1));
}

/// Both quantiles are round trips that were measured, from all of them put in ascending order.
pub proof fn quantiles_were_measured(rtts: Seq<u32>, lost: int, total: int)
    requires
        0 < rtts.len() <= u32::MAX,
    ensures
        rtts.contains(summarized(rtts, lost, total).rtt_p50_ms),
        rtts.contains(summarized(rtts, lost, total).rtt_p95_ms),
        ascending(rtts).to_multiset() == rtts.to_multiset(),
        forall|i: int, j: int|
            0 <= i <= j < rtts.len() ==> ascending(rtts)[i] <= ascending(rtts)[j],
{
    broadcast use vstd::seq_lib::group_to_multiset_ensures;

    let n = rtts.len() as int;
    let leq = up_to();
    assert(total_ordering(leq));
    rtts.lemma_sort_by_ensures(leq);
    let a = ascending(rtts);
    assert(a.len() == n) by {
        assert(a.to_multiset().len() == rtts.to_multiset().len());
    }
    lemma_quantile_place(n, HALF as int);
    lemma_quantile_place(n, MOST as int);
    let i = quantile_place(n, HALF as int);
    let j = quantile_place(n, MOST as int);
    assert(a.contains(a[i]));
    assert(a.contains(a[j]));
    assert(a.to_multiset().count(a[i]) > 0);
    assert(a.to_multiset().count(a[j]) > 0);
    assert forall|i: int, j: int| 0 <= i <= j < n implies a[i] <= a[j] by {
        if i < j {
            assert(leq(a[i], a[j]));
        }
    }
}

/// The measurement after the first `n` pings.
pub open spec fn pinged(m: Measured, pings: Seq<Option<u32>>, n: int) -> Measured
    decreases n,
{
    if n <= 0 {
        m
    } else {
        pinged(m, pings, n - 1).after_ping(pings[n - 1])
    }
}

/// The round trips among the pings from `a` up to `n`, in order.
pub open spec fn answered(pings: Seq<Option<u32>>, a: int, n: int) -> Seq<u32>
    decreases n - a,
{
    if n <= a {
        Seq::empty()
    } else {
        match pings[n - 1] {
            Some(t) => answered(pings, a, n - 1).push(t),
            None => answered(pings, a, n - 1),
        }
    }
}

/// Of a fresh preflight's pings the warm-ups count for nothing, whatever comes of them, and every
/// later one counts once, as its round trip or as lost; the last one is the last that is asked for.
pub proof fn warm_ups_count_for_nothing(m: Measured, pings: Seq<Option<u32>>, n: int)
    requires
        m.wf(),
        m.settled() == 0,
        0 <= n <= pings.len(),
        n <= m.warmups + m.samples,
    ensures
        ({
            let after = pinged(m, pings, n);
            let counted = if n > m.warmups {
                n - m.warmups
            } else {
                0
            };
            &&& after.rtts == m.rtts + answered(pings, m.warmups, n)
            &&& after.lost == counted - answered(pings, m.warmups, n).len()
            &&& after.pending() <==> n < m.warmups + m.samples
            &&& after.samples == m.samples
            &&& after.warmups == (if n < m.warmups {
                m.warmups - n
            } else {
                0
            })
        }),
    decreases n,
{
    if n > 0 {
        warm_ups_count_for_nothing(m, pings, n - 1);
        let after = pinged(m, pings, n);
        assert(after.rtts =~= m.rtts + answered(pings, m.warmups, n));
    } else {
        assert(m.rtts =~= m.rtts + answered(pings, m.warmups, 0));
    }
}

/// A session that takes longer to connect and set up, together, than the limit is refused; a limit
/// of zero refuses none.
pub proof fn slow_setup_is_refused(m: Measured, connect_ms: int, setup_ms: int)
    ensures
        m.too_slow(connect_ms, setup_ms) <==> m.max_setup_ms > 0 && connect_ms + setup_ms
            > m.max_setup_ms,
        m.max_setup_ms == 0 ==> !m.too_slow(connect_ms, setup_ms),
{
}

/// The median is the value in the middle of the round trips, and the upper quantile that nineteen
/// twentieths of the way up, each to the nearest place.
pub proof fn quantiles_are_the_middle_and_the_top(rtts: Seq<u32>, lost: int, total: int)
    requires
        0 < rtts.len() <= 0x1_0000,
    ensures
        ({
            let h = summarized(rtts, lost, total);
            let n = rtts.len() as int;
            let a = ascending(rtts);
            &&& exists|i: int|
                0 <= i < n && n - 2 <= 2 * i <= n && #[trigger] a[i] == h.rtt_p50_ms
            &&& exists|i: int|
                0 <= i < n && 19 * (n - 1) - 11 <= 20 * i <= 19 * (n - 1) + 11 && #[trigger] a[i]
                    == h.rtt_p95_ms
        }),
{
    let n = rtts.len() as int;
    let a = ascending(rtts);
    let i = quantile_place(n, HALF as int);
    let j = quantile_place(n, MOST as int);
    quantile_is_its_share(n, HALF as int);
    quantile_is_its_share(n, MOST as int);
    assert(n - 2 <= 2 * i <= n);
    assert(19 * (n - 1) - 11 <= 20 * j <= 19 * (n - 1) + 11);
    assert(a[i] == summarized(rtts, lost, total).rtt_p50_ms);
    assert(a[j] == summarized(rtts, lost, total).rtt_p95_ms);
}

/// The setup has longer to be acknowledged than a ping to be answered, and never less than two
/// seconds; a ping has four of the longest round trips that pass.
pub proof fn waits_are_long_enough(p: Preflight, ping: u64, ack: u64)
    requires
        call_ensures(Preflight::ping_budget_ms, (&p,), ping),
        call_ensures(Preflight::ack_budget_ms, (&p,), ack),
    ensures
        ping == 4 * p@.max_rtt_ms,
        ack >= ping,
        ack >= 2000,
        ack == ping || ack == 2000,
{
}

/// The wait for the setup ends on the acknowledgement, on anything that rules it out, and on its
/// budget; only what says nothing of it is passed over.
pub proof fn setup_wait_ends_on_an_answer(frame: Frame, r: Option<SetupProbe>)
    requires
        call_ensures(on_setup_frame, (frame,), r),
    ensures
        r is None <==> frame is Other,
        r == Some(SetupProbe::Acknowledged) <==> frame is SetupComplete,
        r == Some(SetupProbe::Timeout) <==> frame is Timeout,
        r is Some && r->Some_0 is Rejected <==> frame is Close || frame is Failed || frame is End,
{
}

/// A preflight succeeds exactly where the setup was acknowledged in time, with what was measured; it
/// never succeeds on round trips alone.
pub proof fn preflight_needs_the_setup(
    p: Preflight,
    probe: SetupProbe,
    connect_ms: u64,
    setup_ms: u64,
    r: Result<NetworkHealth, Error>,
)
    requires
        call_ensures(Preflight::finish, (&p, probe, connect_ms, setup_ms), r),
    ensures
        r is Ok <==> probe is Acknowledged && !(p@.max_setup_ms > 0 && connect_ms + setup_ms
            > p@.max_setup_ms),
        r is Ok ==> r->Ok_0 == summarized(p@.rtts, p@.lost, p@.samples),
        r is Err ==> r->Err_0 is Connect,
{
}

/// A network is usable exactly where it is within every limit.
pub proof fn usable_is_within_every_limit(h: NetworkHealth, cfg: NetCheckConfig, v: Verdict)
    requires
        call_ensures(verdict, (&h, &cfg), v),
    ensures
        v == Verdict::Usable <==> h.rtt_p95_ms <= cfg.max_rtt_ms && h.jitter_ms
            <= cfg.max_jitter_ms && !h.loss_pct.above(cfg.max_loss_pct),
{
}

} // verus!
