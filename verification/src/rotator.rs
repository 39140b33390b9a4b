//! Chain selection: mode-specific pool filtering, weighted random hop
//! selection without replacement, and per-hop keying material.

use vstd::prelude::*;
use vstd::arithmetic::div_mod::{lemma_div_is_ordered, lemma_div_multiples_vanish};
use rand::Rng;
use rand::RngCore;
use crate::types::{Proxy, ChainHop, CryptoHop, RotationDecision, decision_eq, proxy_key};
use crate::polish::{dedup_first, lemma_dedup_first_distinct};
use crate::strutil::{ascii_lowercase, str_eq, lower_seq};
use crate::hexcode::{canonical_hex, hex_decoded, hex_encode, lemma_hex_roundtrip};
use crate::liveness::now_unix;
use vstd::string::StringExecFns;

verus! {

/// Canonical protocol label: lowercased, with "socks" aliased to "socks5".
pub open spec fn spec_normalize_proto(p: Seq<char>) -> Seq<char> {
    if lower_seq(p) == "socks"@ {
        "socks5"@
    } else {
        lower_seq(p)
    }
}

/// Normalize a protocol label.
pub fn normalize_proto(p: &str) -> (r: String)
    ensures
        r@ == spec_normalize_proto(p@),
{
    let l = ascii_lowercase(p);
    if str_eq(l.as_str(), "socks") {
        String::from_str("socks5")
    } else {
        l
    }
}

/// The modes this system understands.
pub open spec fn is_known_mode(mode: Seq<char>) -> bool {
    mode == "lite"@ || mode == "stealth"@ || mode == "high"@ || mode == "phantom"@
}

/// Whether a mode label (case-insensitively) names a known mode.
pub fn validate_mode(mode: &str) -> (r: bool)
    ensures
        r == is_known_mode(lower_seq(mode@)),
{
    let l = ascii_lowercase(mode);
    str_eq(l.as_str(), "lite") || str_eq(l.as_str(), "stealth") || str_eq(l.as_str(), "high")
        || str_eq(l.as_str(), "phantom")
}

/// The per-mode membership rules for pool filtering.
#[derive(Debug, Clone, Copy, PartialEq, Eq, Structural)]
pub enum PoolRule {
    /// Plain http or https upstreams.
    Stealth,
    /// DNS-capable upstreams: https or socks5.
    High,
    /// DNS-capable upstreams with a score of at least 0.4.
    Phantom,
    /// Any upstream with a score of at least 0.5.
    HighFallback,
}

/// Whether a proxy satisfies a membership rule.
pub open spec fn rule_keeps(rule: PoolRule, p: Proxy) -> bool {
    let norm = spec_normalize_proto(p.proto@);
    match rule {
        PoolRule::Stealth => norm == "http"@ || norm == "https"@,
        PoolRule::High => norm == "https"@ || norm == "socks5"@,
        PoolRule::Phantom => (norm == "socks5"@ || norm == "https"@) && p.score_milli >= 400,
        PoolRule::HighFallback => p.score_milli >= 500,
    }
}

/// The members of a pool that satisfy a rule, in order.
pub open spec fn filtered_by(rule: PoolRule, s: Seq<Proxy>) -> Seq<Proxy>
    decreases s.len(),
{
    if s.len() == 0 {
        Seq::empty()
    } else {
        let rest = filtered_by(rule, s.drop_last());
        if rule_keeps(rule, s.last()) {
            rest.push(s.last())
        } else {
            rest
        }
    }
}

/// A rule keeps at most as many proxies as it is given.
pub proof fn lemma_filtered_by_len(rule: PoolRule, s: Seq<Proxy>)
    ensures
        filtered_by(rule, s).len() <= s.len(),
    decreases s.len(),
{
    if s.len() > 0 {
        lemma_filtered_by_len(rule, s.drop_last());
    }
}

/// Whether a proxy passes a rule, decided executably.
fn rule_keeps_exec(rule: PoolRule, p: &Proxy) -> (r: bool)
    ensures
        r == rule_keeps(rule, *p),
{
    let norm = normalize_proto(p.proto.as_str());
    match rule {
        PoolRule::Stealth => str_eq(norm.as_str(), "http") || str_eq(norm.as_str(), "https"),
        PoolRule::High => str_eq(norm.as_str(), "https") || str_eq(norm.as_str(), "socks5"),
        PoolRule::Phantom => (str_eq(norm.as_str(), "socks5") || str_eq(norm.as_str(), "https"))
            && p.score_milli >= 400,
        PoolRule::HighFallback => p.score_milli >= 500,
    }
}

/// Append every member of `src` that satisfies `rule` to `out`.
fn push_filtered(out: &mut Vec<Proxy>, rule: PoolRule, src: &Vec<Proxy>)
    ensures
        final(out)@ == old(out)@ + filtered_by(rule, src@),
{
    let ghost base = out@;
    let mut i: usize = 0;
    while i < src.len()
        invariant
            i <= src@.len(),
            out@ == base + filtered_by(rule, src@.take(i as int)),
        decreases src@.len() - i,
    {
        proof {
            assert(src@.take(i + 1).drop_last() =~= src@.take(i as int));
            assert(src@.take(i + 1).last() == src@[i as int]);
        }
        if rule_keeps_exec(rule, &src[i]) {
            out.push(src[i].duplicate());
        }
        i = i + 1;
    }
    proof {
        assert(src@.take(src@.len() as int) =~= src@);
    }
}

/// Append every member of `src` to `out`, in order.
fn push_all(out: &mut Vec<Proxy>, src: &Vec<Proxy>)
    ensures
        final(out)@ == old(out)@ + src@,
{
    let ghost base = out@;
    let mut i: usize = 0;
    while i < src.len()
        invariant
            i <= src@.len(),
            out@ == base + src@.take(i as int),
        decreases src@.len() - i,
    {
        out.push(src[i].duplicate());
        proof {
            assert(base + src@.take(i + 1) =~= (base + src@.take(i as int)).push(src@[i as int]));
        }
        i = i + 1;
    }
    proof {
        assert(src@.take(src@.len() as int) =~= src@);
    }
}

/// The raw candidate list a mode draws from, before deduplication.
pub open spec fn mode_candidates(
    mode: Seq<char>,
    dns: Seq<Proxy>,
    non_dns: Seq<Proxy>,
    combined: Seq<Proxy>,
) -> Seq<Proxy> {
    if mode == "lite"@ {
        combined + non_dns + dns
    } else if mode == "stealth"@ {
        filtered_by(PoolRule::Stealth, combined + dns + non_dns)
    } else if mode == "high"@ {
        let primary = filtered_by(PoolRule::High, dns);
        if primary.len() == 0 {
            filtered_by(PoolRule::HighFallback, combined)
        } else {
            primary
        }
    } else if mode == "phantom"@ {
        filtered_by(PoolRule::Phantom, dns)
    } else {
        combined + dns + non_dns
    }
}

/// The selection pool of a mode: its candidates, deduplicated on
/// (ip, port) with first occurrences kept in order.
pub open spec fn mode_pool(
    mode: Seq<char>,
    dns: Seq<Proxy>,
    non_dns: Seq<Proxy>,
    combined: Seq<Proxy>,
) -> Seq<Proxy> {
    dedup_first(mode_candidates(mode, dns, non_dns, combined))
}

/// Build the mode-specific selection pool: gather the mode's candidates,
/// then drop every repeated (ip, port) pair, keeping first occurrences.
/// An empty result is legal and means "no chain available".
pub fn filter_mode_pool(
    mode: &str,
    dns: &Vec<Proxy>,
    non_dns: &Vec<Proxy>,
    combined: &Vec<Proxy>,
) -> (pool: Vec<Proxy>)
    ensures
        pool@ == mode_pool(mode@, dns@, non_dns@, combined@),
        forall|i: int, j: int| 0 <= i < j < pool@.len()
            ==> proxy_key(#[trigger] pool@[i]) != proxy_key(#[trigger] pool@[j]),
{
    let mut cand: Vec<Proxy> = Vec::new();
    if str_eq(mode, "lite") {
        push_all(&mut cand, combined);
        push_all(&mut cand, non_dns);
        push_all(&mut cand, dns);
    } else if str_eq(mode, "stealth") {
        let mut merged: Vec<Proxy> = Vec::new();
        push_all(&mut merged, combined);
        push_all(&mut merged, dns);
        push_all(&mut merged, non_dns);
        push_filtered(&mut cand, PoolRule::Stealth, &merged);
    } else if str_eq(mode, "high") {
        push_filtered(&mut cand, PoolRule::High, dns);
        if cand.len() == 0 {
            push_filtered(&mut cand, PoolRule::HighFallback, combined);
        }
    } else if str_eq(mode, "phantom") {
        push_filtered(&mut cand, PoolRule::Phantom, dns);
    } else {
        push_all(&mut cand, combined);
        push_all(&mut cand, dns);
        push_all(&mut cand, non_dns);
    }
    proof {
        assert(cand@ =~= mode_candidates(mode@, dns@, non_dns@, combined@));
        lemma_dedup_first_distinct(cand@);
    }
    crate::polish::deduplicate_proxies(cand)
}

/// Relies on `rand::rngs::ThreadRng` via `RngCore::fill_bytes`, a
/// cryptographically secure generator: fills the buffer with random bytes.
/// Nothing is promised of the contents.
#[verifier::external_body]
fn random_bytes(n: usize) -> (r: Vec<u8>)
    ensures
        r@.len() == n,
{
    let mut buf = vec![0u8; n];
    rand::thread_rng().fill_bytes(&mut buf);
    buf
}

/// Relies on `rand::Rng::gen_range`: returns a value within the inclusive
/// range; which one is random.
#[verifier::external_body]
fn random_in_range(lo: usize, hi: usize) -> (r: usize)
    requires
        lo <= hi,
    ensures
        lo <= r <= hi,
{
    rand::thread_rng().gen_range(lo..=hi)
}

/// Relies on `rand::Rng::gen_range`: returns a value below the bound;
/// which one is random.
#[verifier::external_body]
fn random_below(n: u64) -> (r: u64)
    requires
        n > 0,
    ensures
        r < n,
{
    rand::thread_rng().gen_range(0..n)
}

/// A fresh chain identifier: 16 random bytes, hex-encoded.
fn generate_chain_id() -> (r: String)
    ensures
        canonical_hex(r@),
        r@.len() == 32,
        hex_decoded(r@).len() == 16,
{
    let bytes = random_bytes(16);
    proof {
        lemma_hex_roundtrip(bytes@);
    }
    hex_encode(bytes.as_slice())
}

/// Fresh keying material for one hop: a 32-byte key and a 12-byte base
/// nonce, both random and hex-encoded.
fn generate_key_nonce() -> (r: (String, String))
    ensures
        canonical_hex(r.0@),
        r.0@.len() == 64,
        hex_decoded(r.0@).len() == 32,
        canonical_hex(r.1@),
        r.1@.len() == 24,
        hex_decoded(r.1@).len() == 12,
{
    let key = random_bytes(32);
    let nonce = random_bytes(12);
    proof {
        lemma_hex_roundtrip(key@);
        lemma_hex_roundtrip(nonce@);
    }
    (hex_encode(key.as_slice()), hex_encode(nonce.as_slice()))
}

/// A score clamped into the model's range of a valid score, 0.5 to 1.0.
pub open spec fn clamped_score(s: u32) -> u32 {
    if s < 500 {
        500
    } else if s > 1000 {
        1000
    } else {
        s
    }
}

/// Whether `w` is the selection weight of score `s`: ten times the integer
/// cube root of the square of the clamped score, a fixed-point rendering of
/// `max(score, 0.5)` raised to `1 / 1.5`.
pub open spec fn is_weight_for(s: u32, w: u64) -> bool {
    exists|c: int|
        {
            &&& #[trigger] (c * c * c) <= clamped_score(s) * clamped_score(s)
            &&& clamped_score(s) * clamped_score(s) < (c + 1) * (c + 1) * (c + 1)
            &&& 0 <= c
            &&& w == 10 * c
        }
}

/// Integer cube root: the largest `r` whose cube does not exceed `x`.
fn cbrt_floor(x: u64) -> (r: u64)
    requires
        x <= 1_000_000,
    ensures
        (r as int) * (r as int) * (r as int) <= x,
        x < ((r + 1) as int) * ((r + 1) as int) * ((r + 1) as int),
        r <= 100,
{
    let mut r: u64 = 0;
    loop
        invariant
            r <= 100,
            (r as int) * (r as int) * (r as int) <= x,
            x <= 1_000_000,
        ensures
            (r as int) * (r as int) * (r as int) <= x,
            x < ((r + 1) as int) * ((r + 1) as int) * ((r + 1) as int),
            r <= 100,
        decreases 100 - r,
    {
        let c = r + 1;
        proof {
            assert(c * c <= 10201 && c * c * c <= 1030301) by (nonlinear_arith)
                requires
                    1 <= c <= 101,
            ;
        }
        if c * c * c <= x {
            proof {
                assert(c <= 100) by (nonlinear_arith)
                    requires
                        (c as int) * (c as int) * (c as int) <= 1_000_000,
                        c >= 1,
                ;
            }
            r = c;
        } else {
            break;
        }
    }
    r
}

/// The selection weight of a score: higher scores weigh more, but
/// sublinearly, which preserves route diversity.
fn weight_of(score_milli: u32) -> (w: u64)
    ensures
        is_weight_for(score_milli, w),
        620 <= w <= 1000,
{
    let s: u64 = if score_milli < 500 {
        500
    } else if score_milli > 1000 {
        1000
    } else {
        score_milli as u64
    };
    proof {
        assert(s * s <= 1_000_000) by (nonlinear_arith)
            requires
                s <= 1000,
        ;
    }
    let c = cbrt_floor(s * s);
    proof {
        assert((c as int) * (c as int) * (c as int) <= clamped_score(score_milli) * clamped_score(
            score_milli,
        ));
        assert(c >= 62) by (nonlinear_arith)
            requires
                clamped_score(score_milli) * clamped_score(score_milli) < ((c + 1) as int) * ((c
                    + 1) as int) * ((c + 1) as int),
                clamped_score(score_milli) >= 500,
                c >= 0,
        ;
    }
    10 * c
}

/// Higher scores never weigh less: the weighting is monotone.
pub proof fn lemma_weight_monotone(s1: u32, w1: u64, s2: u32, w2: u64)
    requires
        s1 <= s2,
        is_weight_for(s1, w1),
        is_weight_for(s2, w2),
    ensures
        w1 <= w2,
{
    let c1 = choose|c: int|
        {
            &&& #[trigger] (c * c * c) <= clamped_score(s1) * clamped_score(s1)
            &&& clamped_score(s1) * clamped_score(s1) < (c + 1) * (c + 1) * (c + 1)
            &&& 0 <= c
            &&& w1 == 10 * c
        };
    let c2 = choose|c: int|
        {
            &&& #[trigger] (c * c * c) <= clamped_score(s2) * clamped_score(s2)
            &&& clamped_score(s2) * clamped_score(s2) < (c + 1) * (c + 1) * (c + 1)
            &&& 0 <= c
            &&& w2 == 10 * c
        };
    assert(clamped_score(s1) * clamped_score(s1) <= clamped_score(s2) * clamped_score(s2))
        by (nonlinear_arith)
        requires
            clamped_score(s1) <= clamped_score(s2),
            clamped_score(s1) >= 0,
    ;
    assert(c1 <= c2) by (nonlinear_arith)
        requires
            c1 * c1 * c1 <= clamped_score(s2) * clamped_score(s2),
            clamped_score(s2) * clamped_score(s2) < (c2 + 1) * (c2 + 1) * (c2 + 1),
            c1 >= 0,
            c2 >= 0,
    ;
}

/// The sum of a sequence of weights.
pub open spec fn weight_sum(ws: Seq<u64>) -> int
    decreases ws.len(),
{
    if ws.len() == 0 {
        0
    } else {
        weight_sum(ws.drop_last()) + ws.last()
    }
}

/// Every prefix sum of weights is at most the whole sum.
proof fn lemma_weight_sum_prefix(ws: Seq<u64>, i: int)
    requires
        0 <= i <= ws.len(),
    ensures
        weight_sum(ws.take(i)) <= weight_sum(ws),
        weight_sum(ws.take(i)) >= 0,
    decreases ws.len(),
{
    if ws.len() == 0 {
        assert(ws.take(i) =~= ws);
    } else if i == ws.len() {
        assert(ws.take(i) =~= ws);
        lemma_weight_sum_prefix(ws.drop_last(), i - 1);
    } else {
        assert(ws.drop_last().take(i) =~= ws.take(i));
        lemma_weight_sum_prefix(ws.drop_last(), i);
    }
}

/// Pick an index into the pool at random, each candidate weighted by its
/// score: draw a uniform variate below the total weight and take the first
/// prefix sum that exceeds it.
fn pick_weighted_index(pool: &Vec<Proxy>) -> (idx: usize)
    requires
        0 < pool@.len() <= 0xFFFF_FFFF,
    ensures
        idx < pool@.len(),
{
    let ghost ps = pool@;
    let mut ws: Vec<u64> = Vec::new();
    let mut total: u64 = 0;
    let mut i: usize = 0;
    while i < pool.len()
        invariant
            i <= ps.len(),
            ps.len() <= 0xFFFF_FFFF,
            pool@ == ps,
            ws@.len() == i,
            forall|t: int| 0 <= t < i ==> 620 <= #[trigger] ws@[t] <= 1000,
            total == weight_sum(ws@),
            total <= 1000 * i,
            total >= 620 * i,
        decreases ps.len() - i,
    {
        let w = weight_of(pool[i].score_milli);
        let ghost old_ws = ws@;
        ws.push(w);
        proof {
            assert(ws@.drop_last() =~= old_ws);
            assert(ws@.last() == w);
        }
        total = total + w;
        i = i + 1;
    }
    let u = random_below(total);
    let mut acc: u64 = 0;
    let mut j: usize = 0;
    while j < pool.len()
        invariant
            j <= ps.len(),
            pool@ == ps,
            ws@.len() == ps.len(),
            forall|t: int| 0 <= t < ws@.len() ==> 620 <= #[trigger] ws@[t] <= 1000,
            acc == weight_sum(ws@.take(j as int)),
            total == weight_sum(ws@),
            u < total,
            u >= acc,
        decreases ps.len() - j,
    {
        proof {
            assert(ws@.take(j + 1).drop_last() =~= ws@.take(j as int));
            assert(ws@.take(j + 1).last() == ws@[j as int]);
            lemma_weight_sum_prefix(ws@, j + 1);
        }
        if u < acc + ws[j] {
            return j;
        }
        acc = acc + ws[j];
        j = j + 1;
    }
    proof {
        assert(ws@.take(ps.len() as int) =~= ws@);
        assert(false);
    }
    0
}

/// Whether a chain hop was derived from the given proxy: identity and
/// country copied, protocol normalized, latency defaulted to one second
/// when unmeasured, score defaulted to 0.5 when unscored.
pub open spec fn hop_matches(h: ChainHop, p: Proxy) -> bool {
    &&& h.ip@ == p.ip@
    &&& h.port == p.port
    &&& h.proto@ == spec_normalize_proto(p.proto@)
    &&& h.country@ == p.country@
    &&& h.latency_ms == if p.latency_ms > 0 {
        p.latency_ms
    } else {
        1000u64
    }
    &&& h.score_milli == if p.score_milli > 0 {
        p.score_milli
    } else {
        500u32
    }
}

/// The dedup key of a hop: its address and port.
pub open spec fn hop_key(h: ChainHop) -> (Seq<char>, u16) {
    (h.ip@, h.port)
}

/// Whether a hop was derived from some member of the pool.
pub open spec fn hop_from_pool(h: ChainHop, pool: Seq<Proxy>) -> bool {
    exists|j: int| 0 <= j < pool.len() && hop_matches(h, #[trigger] pool[j])
}

/// Resolve a proxy into a chain hop.
fn hop_from(p: &Proxy) -> (h: ChainHop)
    ensures
        hop_matches(h, *p),
{
    ChainHop {
        ip: p.ip.clone(),
        port: p.port,
        proto: normalize_proto(p.proto.as_str()),
        country: p.country.clone(),
        latency_ms: if p.latency_ms > 0 {
            p.latency_ms
        } else {
            1000
        },
        score_milli: if p.score_milli > 0 {
            p.score_milli
        } else {
            500
        },
    }
}

/// Fewest hops a mode asks for.
pub open spec fn spec_hop_min(mode: Seq<char>) -> int {
    if mode == "phantom"@ {
        3
    } else if mode == "high"@ {
        2
    } else if mode == "stealth"@ {
        1
    } else {
        1
    }
}

/// Most hops a mode asks for.
pub open spec fn spec_hop_max(mode: Seq<char>) -> int {
    if mode == "phantom"@ {
        5
    } else if mode == "high"@ {
        3
    } else if mode == "stealth"@ {
        2
    } else {
        1
    }
}

/// Total latency of a chain, in milliseconds.
pub open spec fn chain_latency_sum(s: Seq<ChainHop>) -> int
    decreases s.len(),
{
    if s.len() == 0 {
        0
    } else {
        chain_latency_sum(s.drop_last()) + s.last().latency_ms
    }
}

/// Smallest hop score of a nonempty chain.
pub open spec fn chain_min_score(s: Seq<ChainHop>) -> u32
    recommends
        s.len() > 0,
    decreases s.len(),
{
    if s.len() <= 1 {
        s[0].score_milli
    } else {
        let rest = chain_min_score(s.drop_last());
        if s.last().score_milli < rest {
            s.last().score_milli
        } else {
            rest
        }
    }
}

/// Largest hop score of a nonempty chain.
pub open spec fn chain_max_score(s: Seq<ChainHop>) -> u32
    recommends
        s.len() > 0,
    decreases s.len(),
{
    if s.len() <= 1 {
        s[0].score_milli
    } else {
        let rest = chain_max_score(s.drop_last());
        if s.last().score_milli > rest {
            s.last().score_milli
        } else {
            rest
        }
    }
}

/// Everything `build_chain_decision` promises of a decision it returns for
/// the given mode and selection pool.
pub open spec fn decision_wf(d: RotationDecision, mode: Seq<char>, pool: Seq<Proxy>) -> bool {
    &&& d.mode@ == mode
    &&& d.encryption@.len() == d.chain@.len()
    &&& 1 <= d.chain@.len() <= spec_hop_max(mode)
    &&& d.chain@.len() <= pool.len()
    &&& (d.chain@.len() >= spec_hop_min(mode) || d.chain@.len() == pool.len())
    &&& forall|a: int| 0 <= a < d.chain@.len() ==> hop_from_pool(#[trigger] d.chain@[a], pool)
    &&& forall|a: int, b: int| 0 <= a < b < d.chain@.len()
        ==> hop_key(#[trigger] d.chain@[a]) != hop_key(#[trigger] d.chain@[b])
    &&& forall|a: int| 0 <= a < d.encryption@.len() ==> {
        &&& canonical_hex((#[trigger] d.encryption@[a]).key_hex@)
        &&& d.encryption@[a].key_hex@.len() == 64
        &&& hex_decoded(d.encryption@[a].key_hex@).len() == 32
        &&& canonical_hex(d.encryption@[a].nonce_hex@)
        &&& d.encryption@[a].nonce_hex@.len() == 24
        &&& hex_decoded(d.encryption@[a].nonce_hex@).len() == 12
    }
    &&& canonical_hex(d.chain_id@)
    &&& d.chain_id@.len() == 32
    &&& hex_decoded(d.chain_id@).len() == 16
    &&& d.avg_latency_ms == chain_latency_sum(d.chain@) / (d.chain@.len() as int)
    &&& d.min_score_milli == chain_min_score(d.chain@)
    &&& d.max_score_milli == chain_max_score(d.chain@)
}

/// Mean hop latency of a nonempty chain, in milliseconds.
fn chain_latency_avg(chain: &Vec<ChainHop>) -> (avg: u64)
    requires
        chain@.len() > 0,
    ensures
        avg == chain_latency_sum(chain@) / (chain@.len() as int),
{
    let ghost cs = chain@;
    let mut sum: u128 = 0;
    let mut i: usize = 0;
    while i < chain.len()
        invariant
            i <= cs.len(),
            chain@ == cs,
            sum == chain_latency_sum(cs.take(i as int)),
            sum <= i * 0xFFFF_FFFF_FFFF_FFFF,
        decreases cs.len() - i,
    {
        proof {
            assert(cs.take(i + 1).drop_last() =~= cs.take(i as int));
            assert(cs.take(i + 1).last() == cs[i as int]);
        }
        sum = sum + (chain[i].latency_ms as u128);
        i = i + 1;
    }
    proof {
        assert(cs.take(cs.len() as int) =~= cs);
        let n = cs.len() as int;
        lemma_div_is_ordered(sum as int, n * 0xFFFF_FFFF_FFFF_FFFF, n);
        lemma_div_multiples_vanish(0xFFFF_FFFF_FFFF_FFFF, n);
    }
    (sum / (chain.len() as u128)) as u64
}

/// Smallest and largest hop score of a nonempty chain.
fn chain_score_range(chain: &Vec<ChainHop>) -> (r: (u32, u32))
    requires
        chain@.len() > 0,
    ensures
        r.0 == chain_min_score(chain@),
        r.1 == chain_max_score(chain@),
{
    let ghost cs = chain@;
    let mut lo: u32 = chain[0].score_milli;
    let mut hi: u32 = chain[0].score_milli;
    let mut i: usize = 1;
    proof {
        assert(cs.take(1).len() == 1);
        assert(cs.take(1)[0] == cs[0]);
    }
    while i < chain.len()
        invariant
            1 <= i <= cs.len(),
            chain@ == cs,
            lo == chain_min_score(cs.take(i as int)),
            hi == chain_max_score(cs.take(i as int)),
        decreases cs.len() - i,
    {
        proof {
            assert(cs.take(i + 1).drop_last() =~= cs.take(i as int));
            assert(cs.take(i + 1).last() == cs[i as int]);
        }
        if chain[i].score_milli < lo {
            lo = chain[i].score_milli;
        }
        if chain[i].score_milli > hi {
            hi = chain[i].score_milli;
        }
        i = i + 1;
    }
    proof {
        assert(cs.take(cs.len() as int) =~= cs);
    }
    (lo, hi)
}

/// Build a rotation decision for a mode from the three pools: filter and
/// deduplicate the candidates, sample a mode-specific hop count, select
/// that many distinct proxies at random weighted by score, and attach
/// fresh keying material to every hop. Returns nothing exactly when the
/// mode's filtered pool is empty.
pub fn build_chain_decision(
    mode: &str,
    dns: &Vec<Proxy>,
    non_dns: &Vec<Proxy>,
    combined: &Vec<Proxy>,
) -> (r: Option<RotationDecision>)
    requires
        dns@.len() + non_dns@.len() + combined@.len() <= 0xFFFF_FFFF,
    ensures
        (r is None) <==> mode_pool(mode@, dns@, non_dns@, combined@).len() == 0,
        r is Some ==> decision_wf(r->0, mode@, mode_pool(mode@, dns@, non_dns@, combined@)),
{
    let ghost pool0 = mode_pool(mode@, dns@, non_dns@, combined@);
    let pool = filter_mode_pool(mode, dns, non_dns, combined);
    proof {
        lemma_mode_pool_len(mode@, dns@, non_dns@, combined@);
    }
    if pool.len() == 0 {
        return None;
    }
    let (lo, hi) = if str_eq(mode, "phantom") {
        (3usize, 5usize)
    } else if str_eq(mode, "high") {
        (2usize, 3usize)
    } else if str_eq(mode, "stealth") {
        (1usize, 2usize)
    } else {
        (1usize, 1usize)
    };
    let sampled = random_in_range(lo, hi);
    let hops = if sampled <= pool.len() {
        sampled
    } else {
        pool.len()
    };
    let mut remaining = pool;
    proof {
        assert forall|t: int| 0 <= t < remaining@.len() implies pool0.contains(
            #[trigger] remaining@[t],
        ) by {
            assert(remaining@[t] == pool0[t]);
        }
    }
    let mut chain: Vec<ChainHop> = Vec::new();
    let mut crypto: Vec<CryptoHop> = Vec::new();
    let mut k: usize = 0;
    while k < hops
        invariant
            k <= hops,
            1 <= hops <= pool0.len(),
            hops <= spec_hop_max(mode@),
            remaining@.len() == pool0.len() - k,
            remaining@.len() <= 0xFFFF_FFFF,
            chain@.len() == k,
            crypto@.len() == k,
            hops >= spec_hop_min(mode@) || hops == pool0.len(),
            forall|t: int| 0 <= t < remaining@.len() ==> pool0.contains(#[trigger] remaining@[t]),
            forall|t1: int, t2: int| 0 <= t1 < t2 < remaining@.len()
                ==> proxy_key(#[trigger] remaining@[t1]) != proxy_key(#[trigger] remaining@[t2]),
            forall|a: int| 0 <= a < chain@.len() ==> hop_from_pool(#[trigger] chain@[a], pool0),
            forall|a: int, b: int| 0 <= a < b < chain@.len()
                ==> hop_key(#[trigger] chain@[a]) != hop_key(#[trigger] chain@[b]),
            forall|a: int, t: int| 0 <= a < chain@.len() && 0 <= t < remaining@.len()
                ==> hop_key(#[trigger] chain@[a]) != proxy_key(#[trigger] remaining@[t]),
            forall|a: int| 0 <= a < crypto@.len() ==> {
                &&& canonical_hex((#[trigger] crypto@[a]).key_hex@)
                &&& crypto@[a].key_hex@.len() == 64
                &&& hex_decoded(crypto@[a].key_hex@).len() == 32
                &&& canonical_hex(crypto@[a].nonce_hex@)
                &&& crypto@[a].nonce_hex@.len() == 24
                &&& hex_decoded(crypto@[a].nonce_hex@).len() == 12
            },
        decreases hops - k,
    {
        let ghost old_remaining = remaining@;
        let m = pick_weighted_index(&remaining);
        let p = remaining.remove(m);
        let hop = hop_from(&p);
        proof {
            old_remaining.remove_ensures(m as int);
            assert(hop_key(hop) == proxy_key(p));
            assert(pool0.contains(p));
            let pj = choose|j: int| 0 <= j < pool0.len() && pool0[j] == p;
            assert(hop_matches(hop, pool0[pj]));
            assert(hop_from_pool(hop, pool0));
            assert forall|t: int| 0 <= t < remaining@.len() implies pool0.contains(
                #[trigger] remaining@[t],
            ) by {
                if t < m {
                    assert(remaining@[t] == old_remaining[t]);
                } else {
                    assert(remaining@[t] == old_remaining[t + 1]);
                }
            }
            assert forall|t1: int, t2: int|
                0 <= t1 < t2 < remaining@.len() implies proxy_key(#[trigger] remaining@[t1])
                != proxy_key(#[trigger] remaining@[t2]) by {
                let u1 = if t1 < m {
                    t1
                } else {
                    t1 + 1
                };
                let u2 = if t2 < m {
                    t2
                } else {
                    t2 + 1
                };
                assert(remaining@[t1] == old_remaining[u1]);
                assert(remaining@[t2] == old_remaining[u2]);
            }
            assert forall|t: int| 0 <= t < remaining@.len() implies proxy_key(
                #[trigger] remaining@[t],
            ) != proxy_key(p) by {
                if t < m {
                    assert(remaining@[t] == old_remaining[t]);
                } else {
                    assert(remaining@[t] == old_remaining[t + 1]);
                }
            }
        }
        let (key_hex, nonce_hex) = generate_key_nonce();
        crypto.push(CryptoHop { key_hex, nonce_hex });
        chain.push(hop);
        k = k + 1;
    }
    let avg = chain_latency_avg(&chain);
    let (min_s, max_s) = chain_score_range(&chain);
    let chain_id = generate_chain_id();
    Some(
        RotationDecision {
            mode: String::from_str(mode),
            timestamp: now_unix(),
            chain_id,
            chain,
            avg_latency_ms: avg,
            min_score_milli: min_s,
            max_score_milli: max_s,
            encryption: crypto,
        },
    )
}

/// Owns the current rotation decision. Readers take a snapshot at
/// connection time and keep it for the connection's whole life; rotation
/// replaces the owned decision and cannot reach any snapshot already
/// taken, so a rotation never changes the chain of an in-flight circuit.
pub struct ChainController {
    current: RotationDecision,
}

impl ChainController {
    /// The decision that is current.
    pub closed spec fn decision(&self) -> RotationDecision {
        self.current
    }

    /// Start with an initial decision.
    pub fn new(initial: RotationDecision) -> (c: Self)
        ensures
            c.decision() == initial,
    {
        ChainController { current: initial }
    }

    /// The decision current at this moment, as an owned copy: later
    /// rotations leave it untouched.
    pub fn snapshot(&self) -> (d: RotationDecision)
        ensures
            decision_eq(d, self.decision()),
    {
        self.current.duplicate()
    }

    /// Adopt a freshly built decision; when rotation produced none, the
    /// current decision stays authoritative.
    pub fn rotate(&mut self, candidate: Option<RotationDecision>)
        ensures
            candidate is Some ==> final(self).decision() == candidate->0,
            candidate is None ==> final(self).decision() == old(self).decision(),
    {
        match candidate {
            Some(d) => {
                self.current = d;
            },
            None => {},
        }
    }
}

/// The selection pool never exceeds the three input pools put together.
proof fn lemma_mode_pool_len(
    mode: Seq<char>,
    dns: Seq<Proxy>,
    non_dns: Seq<Proxy>,
    combined: Seq<Proxy>,
)
    ensures
        mode_pool(mode, dns, non_dns, combined).len() <= dns.len() + non_dns.len()
            + combined.len(),
{
    let cands = mode_candidates(mode, dns, non_dns, combined);
    lemma_dedup_first_len(cands);
    lemma_filtered_by_len(PoolRule::Stealth, combined + dns + non_dns);
    lemma_filtered_by_len(PoolRule::High, dns);
    lemma_filtered_by_len(PoolRule::HighFallback, combined);
    lemma_filtered_by_len(PoolRule::Phantom, dns);
}

/// Deduplication never lengthens a sequence.
proof fn lemma_dedup_first_len(s: Seq<Proxy>)
    ensures
        dedup_first(s).len() <= s.len(),
    decreases s.len(),
{
    if s.len() > 0 {
        lemma_dedup_first_len(s.drop_last());
    }
}

} // verus!
