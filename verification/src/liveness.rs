//! Verifier feedback: how probe outcomes update a proxy's liveness fields,
//! and when a pool is healthy enough to skip a fresh scrape.
//!
//! The network probes themselves are I/O and live outside this library;
//! their outcomes are applied here, one `(alive, latency)` pair per proxy.

use vstd::prelude::*;
use std::time::{SystemTime, UNIX_EPOCH};
use crate::types::Proxy;

verus! {

/// A proxy is pruned once this many probes in a row have failed.
pub const MAX_FAIL_COUNT: u32 = 3;

/// Per-probe timeout in seconds.
pub const DEFAULT_TIMEOUT_SECS: u64 = 8;

/// A pool with fewer alive proxies than this is unhealthy.
pub const MIN_POOL_SIZE: usize = 30;

/// At most this many probes run at once, to cap file-descriptor pressure
/// and avoid tripping upstream rate limits.
pub const MAX_CONCURRENT_VERIFICATIONS: usize = 50;

/// Relies on `std::time::SystemTime::now`: seconds since the Unix epoch,
/// or 0 if the clock reads before the epoch. Nothing is promised of the
/// value.
#[verifier::external_body]
pub fn now_unix() -> (t: u64) {
    SystemTime::now().duration_since(UNIX_EPOCH).unwrap_or_default().as_secs()
}

/// The outcome of one probe: whether the proxy answered, and the measured
/// latency in milliseconds (0 on failure).
#[derive(Debug, Clone, Copy, PartialEq, Eq, Structural)]
pub struct ProbeOutcome {
    pub alive: bool,
    pub latency_ms: u64,
}

/// The proxy after one probe outcome is applied at time `ts`: liveness is
/// recorded; success resets the failure count, smooths latency 60/40 toward
/// the measurement and nudges the score up; failure counts up and decays
/// the score by 0.7.
pub open spec fn spec_apply_outcome(p: Proxy, o: ProbeOutcome, ts: u64) -> Proxy {
    if o.alive {
        Proxy {
            last_verified: ts,
            alive: true,
            fail_count: 0,
            latency_ms: if p.latency_ms > 0 {
                ((p.latency_ms * 6 + o.latency_ms * 4) / 10) as u64
            } else {
                o.latency_ms
            },
            score_milli: if p.score_milli * 95 / 100 + 50 >= 1000 {
                1000u32
            } else {
                (p.score_milli * 95 / 100 + 50) as u32
            },
            ..p
        }
    } else {
        Proxy {
            last_verified: ts,
            alive: false,
            fail_count: if p.fail_count == 0xFFFF_FFFFu32 {
                p.fail_count
            } else {
                (p.fail_count + 1) as u32
            },
            score_milli: (p.score_milli * 7 / 10) as u32,
            ..p
        }
    }
}

/// Apply one probe outcome to one proxy.
pub fn apply_outcome(p: &Proxy, o: ProbeOutcome, ts: u64) -> (r: Proxy)
    requires
        p.latency_ms * 6 + o.latency_ms * 4 <= u64::MAX,
    ensures
        r == spec_apply_outcome(*p, o, ts),
        o.alive ==> r.fail_count == 0,
        !o.alive ==> r.fail_count >= p.fail_count,
        o.alive && p.score_milli <= 1000 ==> r.score_milli >= p.score_milli * 95 / 100,
        !o.alive ==> r.score_milli <= p.score_milli,
{
    let mut q = p.duplicate();
    q.last_verified = ts;
    q.alive = o.alive;
    if o.alive {
        q.fail_count = 0;
        if p.latency_ms > 0 {
            q.latency_ms = (p.latency_ms * 6 + o.latency_ms * 4) / 10;
        } else {
            q.latency_ms = o.latency_ms;
        }
        let boosted: u32 = p.score_milli / 100 * 95 + p.score_milli % 100 * 95 / 100 + 50;
        proof {
            assert(p.score_milli / 100 * 95 + p.score_milli % 100 * 95 / 100 + 50 == p.score_milli
                * 95 / 100 + 50) by (nonlinear_arith);
            assert(p.score_milli <= 1000 ==> p.score_milli * 95 / 100 <= 950) by (nonlinear_arith);
        }
        if boosted >= 1000 {
            q.score_milli = 1000;
        } else {
            q.score_milli = boosted;
        }
    } else {
        if q.fail_count < 0xFFFF_FFFFu32 {
            q.fail_count = q.fail_count + 1;
        }
        let decayed: u32 = p.score_milli / 10 * 7 + p.score_milli % 10 * 7 / 10;
        proof {
            assert(p.score_milli / 10 * 7 + p.score_milli % 10 * 7 / 10 == p.score_milli * 7
                / 10) by (nonlinear_arith);
            assert(p.score_milli * 7 / 10 <= p.score_milli) by (nonlinear_arith);
        }
        q.score_milli = decayed;
    }
    q
}

/// The pool after a round of probe outcomes: every proxy updated, then
/// those with too many consecutive failures pruned.
pub open spec fn spec_apply_round(s: Seq<Proxy>, outs: Seq<ProbeOutcome>, ts: u64) -> Seq<Proxy>
    recommends
        s.len() == outs.len(),
    decreases s.len(),
{
    if s.len() == 0 {
        Seq::empty()
    } else {
        let rest = spec_apply_round(s.drop_last(), outs.drop_last(), ts);
        let q = spec_apply_outcome(s.last(), outs.last(), ts);
        if q.fail_count < MAX_FAIL_COUNT {
            rest.push(q)
        } else {
            rest
        }
    }
}

/// Apply a round of probe outcomes, one per proxy in order, and return the
/// survivors: every proxy's liveness fields updated, and those that have
/// now failed `MAX_FAIL_COUNT` or more probes in a row dropped.
pub fn apply_verification(proxies: &Vec<Proxy>, outcomes: &Vec<ProbeOutcome>, ts: u64) -> (r: Vec<
    Proxy,
>)
    requires
        proxies@.len() == outcomes@.len(),
        forall|i: int| 0 <= i < proxies@.len() ==> (#[trigger] proxies@[i]).latency_ms * 6
            + outcomes@[i].latency_ms * 4 <= u64::MAX,
    ensures
        r@ == spec_apply_round(proxies@, outcomes@, ts),
        forall|i: int| 0 <= i < r@.len() ==> (#[trigger] r@[i]).fail_count < MAX_FAIL_COUNT,
        forall|i: int| 0 <= i < r@.len() ==> (#[trigger] r@[i]).last_verified == ts,
{
    let ghost ps = proxies@;
    let ghost os = outcomes@;
    let mut r: Vec<Proxy> = Vec::new();
    let mut i: usize = 0;
    while i < proxies.len()
        invariant
            i <= ps.len(),
            proxies@ == ps,
            outcomes@ == os,
            ps.len() == os.len(),
            forall|t: int| 0 <= t < ps.len() ==> (#[trigger] ps[t]).latency_ms * 6
                + os[t].latency_ms * 4 <= u64::MAX,
            r@ == spec_apply_round(ps.take(i as int), os.take(i as int), ts),
            forall|t: int| 0 <= t < r@.len() ==> (#[trigger] r@[t]).fail_count < MAX_FAIL_COUNT,
            forall|t: int| 0 <= t < r@.len() ==> (#[trigger] r@[t]).last_verified == ts,
        decreases ps.len() - i,
    {
        let q = apply_outcome(&proxies[i], outcomes[i], ts);
        proof {
            assert(ps.take(i + 1).drop_last() =~= ps.take(i as int));
            assert(os.take(i + 1).drop_last() =~= os.take(i as int));
            assert(ps.take(i + 1).last() == ps[i as int]);
            assert(os.take(i + 1).last() == os[i as int]);
        }
        if q.fail_count < MAX_FAIL_COUNT {
            r.push(q);
        }
        i = i + 1;
    }
    proof {
        assert(ps.take(ps.len() as int) =~= ps);
        assert(os.take(os.len() as int) =~= os);
    }
    r
}

/// Verifier monotonicity: a successful probe never raises the failure
/// count, and a failed probe never lowers it; scores move the same way.
pub proof fn lemma_probe_feedback_monotone(p: Proxy, o: ProbeOutcome, ts: u64)
    ensures
        o.alive ==> spec_apply_outcome(p, o, ts).fail_count <= p.fail_count,
        !o.alive ==> spec_apply_outcome(p, o, ts).fail_count >= p.fail_count,
        !o.alive ==> spec_apply_outcome(p, o, ts).score_milli <= p.score_milli,
{
    if !o.alive {
        assert(p.score_milli * 7 / 10 <= p.score_milli) by (nonlinear_arith);
    }
}

/// Pruning: no survivor of a verification round has reached the failure
/// limit.
pub proof fn lemma_round_prunes(s: Seq<Proxy>, outs: Seq<ProbeOutcome>, ts: u64)
    ensures
        forall|i: int| 0 <= i < spec_apply_round(s, outs, ts).len()
            ==> (#[trigger] spec_apply_round(s, outs, ts)[i]).fail_count < MAX_FAIL_COUNT,
    decreases s.len(),
{
    if s.len() > 0 {
        lemma_round_prunes(s.drop_last(), outs.drop_last(), ts);
        let rest = spec_apply_round(s.drop_last(), outs.drop_last(), ts);
        let q = spec_apply_outcome(s.last(), outs.last(), ts);
        if q.fail_count < MAX_FAIL_COUNT {
            assert(forall|i: int| 0 <= i < rest.len() ==> #[trigger] spec_apply_round(
                s,
                outs,
                ts,
            )[i] == rest[i]);
        }
    }
}

/// The number of alive proxies in a pool.
pub open spec fn alive_count(s: Seq<Proxy>) -> int
    decreases s.len(),
{
    if s.len() == 0 {
        0
    } else {
        alive_count(s.drop_last()) + if s.last().alive {
            1int
        } else {
            0int
        }
    }
}

/// The latest verification time among alive proxies (0 if none is alive).
pub open spec fn freshest_alive(s: Seq<Proxy>) -> u64
    decreases s.len(),
{
    if s.len() == 0 {
        0
    } else {
        let rest = freshest_alive(s.drop_last());
        if s.last().alive && s.last().last_verified > rest {
            s.last().last_verified
        } else {
            rest
        }
    }
}

/// Whether a pool is healthy at time `now`: at least `MIN_POOL_SIZE` alive
/// proxies, and the freshest alive verification is younger than
/// `stale_secs`.
pub open spec fn spec_pool_healthy(s: Seq<Proxy>, stale_secs: u64, now: u64) -> bool {
    alive_count(s) >= MIN_POOL_SIZE && (if now >= freshest_alive(s) {
        (now - freshest_alive(s)) as u64
    } else {
        0u64
    }) < stale_secs
}

/// Decide pool health against a given clock reading.
pub fn is_pool_healthy_at(proxies: &Vec<Proxy>, stale_secs: u64, now: u64) -> (r: bool)
    ensures
        r == spec_pool_healthy(proxies@, stale_secs, now),
{
    let ghost ps = proxies@;
    let mut alive: usize = 0;
    let mut freshest: u64 = 0;
    let mut i: usize = 0;
    while i < proxies.len()
        invariant
            i <= ps.len(),
            proxies@ == ps,
            alive == alive_count(ps.take(i as int)),
            alive <= i,
            freshest == freshest_alive(ps.take(i as int)),
        decreases ps.len() - i,
    {
        proof {
            assert(ps.take(i + 1).drop_last() =~= ps.take(i as int));
            assert(ps.take(i + 1).last() == ps[i as int]);
        }
        if proxies[i].alive {
            alive = alive + 1;
            if proxies[i].last_verified > freshest {
                freshest = proxies[i].last_verified;
            }
        }
        i = i + 1;
    }
    proof {
        assert(ps.take(ps.len() as int) =~= ps);
    }
    if alive < MIN_POOL_SIZE {
        return false;
    }
    let age: u64 = if now >= freshest {
        now - freshest
    } else {
        0
    };
    age < stale_secs
}

/// Whether the pool is large and fresh enough, against the current clock,
/// to skip scraping. The clock is read once; the result is the health
/// decision for that reading.
pub fn is_pool_healthy(proxies: &Vec<Proxy>, stale_secs: u64) -> (r: bool)
    ensures
        exists|now: u64| r == spec_pool_healthy(proxies@, stale_secs, now),
{
    let now = now_unix();
    is_pool_healthy_at(proxies, stale_secs, now)
}

} // verus!
