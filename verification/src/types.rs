//! The proxy data model.
//!
//! Latencies are carried in milliseconds and scores in thousandths, so the
//! selection rules are exact integer arithmetic. A score of 1000 stands for
//! a perfect 1.0; a latency of 1000 stands for one second.

use vstd::prelude::*;
use vstd::string::StringExecFns;
use crate::strutil::{dec_str, push_decimal, str_eq};

verus! {

/// Proxy quality tier from real connectivity testing; higher is better.
#[derive(Debug, Clone, Copy, PartialEq, Eq, PartialOrd, Hash, Structural)]
pub enum ProxyTier {
    /// Dead or very slow: fails CONNECT or takes over 3 seconds.
    Dead,
    /// Working but slow.
    Bronze,
    /// Good quality.
    Silver,
    /// Fast and reliable.
    Gold,
    /// Premium: fastest, elite anonymity.
    Platinum,
}

impl Default for ProxyTier {
    /// An unrated proxy starts at Bronze.
    fn default() -> (t: Self)
        ensures
            t == ProxyTier::Bronze,
    {
        ProxyTier::Bronze
    }
}

/// The tier a score (in thousandths) falls into.
pub open spec fn spec_tier_from_score(score_milli: u32) -> ProxyTier {
    if score_milli >= 850 {
        ProxyTier::Platinum
    } else if score_milli >= 700 {
        ProxyTier::Gold
    } else if score_milli >= 500 {
        ProxyTier::Silver
    } else if score_milli >= 300 {
        ProxyTier::Bronze
    } else {
        ProxyTier::Dead
    }
}

/// The lowest score (in thousandths) of each tier.
pub open spec fn spec_tier_min_score(t: ProxyTier) -> u32 {
    match t {
        ProxyTier::Platinum => 850,
        ProxyTier::Gold => 700,
        ProxyTier::Silver => 500,
        ProxyTier::Bronze => 300,
        ProxyTier::Dead => 0,
    }
}

impl ProxyTier {
    /// Classify a score (in thousandths) into its tier.
    pub fn from_score(score_milli: u32) -> (t: Self)
        ensures
            t == spec_tier_from_score(score_milli),
    {
        if score_milli >= 850 {
            ProxyTier::Platinum
        } else if score_milli >= 700 {
            ProxyTier::Gold
        } else if score_milli >= 500 {
            ProxyTier::Silver
        } else if score_milli >= 300 {
            ProxyTier::Bronze
        } else {
            ProxyTier::Dead
        }
    }

    /// The lowest score (in thousandths) that still falls in this tier.
    pub fn min_score(&self) -> (s: u32)
        ensures
            s == spec_tier_min_score(*self),
    {
        match self {
            ProxyTier::Platinum => 850,
            ProxyTier::Gold => 700,
            ProxyTier::Silver => 500,
            ProxyTier::Bronze => 300,
            ProxyTier::Dead => 0,
        }
    }

    /// The tier named by a label; empty or unknown labels fall back to Bronze.
    pub fn from_name(name: &str) -> (t: Self)
        ensures
            t == spec_tier_from_name(name@),
    {
        if str_eq(name, "platinum") {
            ProxyTier::Platinum
        } else if str_eq(name, "gold") {
            ProxyTier::Gold
        } else if str_eq(name, "silver") {
            ProxyTier::Silver
        } else if str_eq(name, "dead") {
            ProxyTier::Dead
        } else {
            ProxyTier::Bronze
        }
    }
}

/// The tier for a label: named tiers map to themselves, everything else
/// (including the empty label) to Bronze.
pub open spec fn spec_tier_from_name(name: Seq<char>) -> ProxyTier {
    if name == "platinum"@ {
        ProxyTier::Platinum
    } else if name == "gold"@ {
        ProxyTier::Gold
    } else if name == "silver"@ {
        ProxyTier::Silver
    } else if name == "dead"@ {
        ProxyTier::Dead
    } else {
        ProxyTier::Bronze
    }
}

/// A proxy is alive until a probe says otherwise.
pub fn default_alive() -> (b: bool)
    ensures
        b,
{
    true
}

/// A candidate upstream proxy.
#[derive(Debug, Clone)]
pub struct Proxy {
    /// IP address text; together with `port` it is the unique key.
    pub ip: String,
    pub port: u16,
    /// Protocol label: http, https, socks4, socks5 ("socks" aliases socks5).
    pub proto: String,
    /// Measured latency in milliseconds; 0 means unmeasured.
    pub latency_ms: u64,
    pub country: String,
    /// Anonymity label: elite, anonymous, transparent, or empty.
    pub anonymity: String,
    /// Quality score in thousandths.
    pub score_milli: u32,
    /// Quality tier from connectivity testing.
    pub tier: ProxyTier,
    /// Consecutive verification failures; pruned at 3 or more.
    pub fail_count: u32,
    /// Unix time of the last verification attempt.
    pub last_verified: u64,
    /// Whether the last verification probe succeeded.
    pub alive: bool,
}

/// The dedup key of a proxy: its address and port.
pub open spec fn proxy_key(p: Proxy) -> (Seq<char>, u16) {
    (p.ip@, p.port)
}

/// The textual key "ip:port".
pub open spec fn spec_key_string(p: Proxy) -> Seq<char> {
    p.ip@ + seq![':'] + dec_str(p.port as nat)
}

impl Proxy {
    /// The unique key "ip:port".
    pub fn key(&self) -> (r: String)
        ensures
            r@ == spec_key_string(*self),
    {
        let mut s = self.ip.clone();
        s.append(":");
        push_decimal(&mut s, self.port);
        proof {
            reveal_strlit(":");
            assert(s@ =~= spec_key_string(*self));
        }
        s
    }

    /// A copy equal to this proxy, field by field.
    pub fn duplicate(&self) -> (r: Proxy)
        ensures
            r == *self,
    {
        Proxy {
            ip: self.ip.clone(),
            port: self.port,
            proto: self.proto.clone(),
            latency_ms: self.latency_ms,
            country: self.country.clone(),
            anonymity: self.anonymity.clone(),
            score_milli: self.score_milli,
            tier: self.tier,
            fail_count: self.fail_count,
            last_verified: self.last_verified,
            alive: self.alive,
        }
    }

    /// Whether two proxies share the same (ip, port) key.
    pub fn same_key(&self, other: &Proxy) -> (r: bool)
        ensures
            r == (proxy_key(*self) == proxy_key(*other)),
    {
        str_eq(self.ip.as_str(), other.ip.as_str()) && self.port == other.port
    }
}

/// A resolved position in a chain, derived from a proxy at selection time.
#[derive(Debug, Clone)]
pub struct ChainHop {
    pub ip: String,
    pub port: u16,
    /// Normalized protocol label.
    pub proto: String,
    pub country: String,
    /// Latency in milliseconds, 1000 substituted when unmeasured.
    pub latency_ms: u64,
    /// Score in thousandths, 500 substituted when unscored.
    pub score_milli: u32,
}

/// Per-hop keying material, transported as hex.
#[derive(Debug, Clone)]
pub struct CryptoHop {
    /// 32-byte AES-256 key as 64 hex chars.
    pub key_hex: String,
    /// 12-byte base nonce as 24 hex chars.
    pub nonce_hex: String,
}

/// The full in-memory chain decision. Keys never leave memory: only the
/// `ChainTopology` projection may be persisted.
#[derive(Debug, Clone)]
pub struct RotationDecision {
    pub mode: String,
    /// Unix time of creation.
    pub timestamp: u64,
    /// 16 random bytes as 32 hex chars, fresh per decision.
    pub chain_id: String,
    /// The selected hops, 1 to 5 of them.
    pub chain: Vec<ChainHop>,
    /// Mean hop latency in milliseconds.
    pub avg_latency_ms: u64,
    /// Smallest hop score in thousandths.
    pub min_score_milli: u32,
    /// Largest hop score in thousandths.
    pub max_score_milli: u32,
    /// Keying material for each hop, aligned with `chain`.
    pub encryption: Vec<CryptoHop>,
}

/// Network identity of one hop, with no cryptographic material.
#[derive(Debug, Clone)]
pub struct HopInfo {
    pub ip: String,
    pub port: u16,
    pub proto: String,
}

/// The key-free projection of a decision: the only form allowed on disk.
#[derive(Debug, Clone)]
pub struct ChainTopology {
    pub chain_id: String,
    pub hops: Vec<HopInfo>,
    pub created_at: u64,
    pub mode: String,
    pub avg_latency_ms: u64,
    pub min_score_milli: u32,
    pub max_score_milli: u32,
}

impl ChainHop {
    /// A copy equal to this hop, field by field.
    pub fn duplicate(&self) -> (r: ChainHop)
        ensures
            r == *self,
    {
        ChainHop {
            ip: self.ip.clone(),
            port: self.port,
            proto: self.proto.clone(),
            country: self.country.clone(),
            latency_ms: self.latency_ms,
            score_milli: self.score_milli,
        }
    }
}

impl CryptoHop {
    /// A copy equal to this keying entry.
    pub fn duplicate(&self) -> (r: CryptoHop)
        ensures
            r == *self,
    {
        CryptoHop { key_hex: self.key_hex.clone(), nonce_hex: self.nonce_hex.clone() }
    }
}

/// Whether a topology is exactly the key-free projection of a decision:
/// every topology field copied from the decision's public fields, each hop
/// reduced to its network identity. Nothing of `encryption` appears.
pub open spec fn topology_matches(d: RotationDecision, t: ChainTopology) -> bool {
    &&& t.chain_id@ == d.chain_id@
    &&& t.created_at == d.timestamp
    &&& t.mode@ == d.mode@
    &&& t.avg_latency_ms == d.avg_latency_ms
    &&& t.min_score_milli == d.min_score_milli
    &&& t.max_score_milli == d.max_score_milli
    &&& t.hops@.len() == d.chain@.len()
    &&& forall|i: int| 0 <= i < t.hops@.len() ==> {
        &&& (#[trigger] t.hops@[i]).ip@ == d.chain@[i].ip@
        &&& t.hops@[i].port == d.chain@[i].port
        &&& t.hops@[i].proto@ == d.chain@[i].proto@
    }
}

/// Whether `needle` occurs contiguously inside `hay`.
pub open spec fn contains_chars(hay: Seq<char>, needle: Seq<char>) -> bool {
    exists|k: int|
        0 <= k <= hay.len() - needle.len() && #[trigger] hay.subrange(k, k + needle.len())
            == needle
}

/// Key isolation: a persisted topology carries only the decision's public
/// strings — its chain id, mode, and each hop's address and protocol. Any
/// string absent from all of those, in particular a hex substring of a key
/// or base nonce that never leaked into a public field, is absent from
/// every field of the topology.
pub proof fn lemma_topology_key_isolation(
    d: RotationDecision,
    t: ChainTopology,
    needle: Seq<char>,
)
    requires
        topology_matches(d, t),
        !contains_chars(d.chain_id@, needle),
        !contains_chars(d.mode@, needle),
        forall|i: int| 0 <= i < d.chain@.len() ==> !contains_chars(
            (#[trigger] d.chain@[i]).ip@,
            needle,
        ) && !contains_chars(d.chain@[i].proto@, needle),
    ensures
        !contains_chars(t.chain_id@, needle),
        !contains_chars(t.mode@, needle),
        forall|i: int| 0 <= i < t.hops@.len() ==> !contains_chars(
            (#[trigger] t.hops@[i]).ip@,
            needle,
        ) && !contains_chars(t.hops@[i].proto@, needle),
{
    assert forall|i: int| 0 <= i < t.hops@.len() implies !contains_chars(
        (#[trigger] t.hops@[i]).ip@,
        needle,
    ) && !contains_chars(t.hops@[i].proto@, needle) by {
        assert(t.hops@[i].ip@ == d.chain@[i].ip@);
        assert(t.hops@[i].proto@ == d.chain@[i].proto@);
        assert(!contains_chars(d.chain@[i].ip@, needle));
    }
}

/// Whether two decisions agree on every field, hop for hop and key for key.
pub open spec fn decision_eq(a: RotationDecision, b: RotationDecision) -> bool {
    &&& a.mode@ == b.mode@
    &&& a.timestamp == b.timestamp
    &&& a.chain_id@ == b.chain_id@
    &&& a.chain@ == b.chain@
    &&& a.avg_latency_ms == b.avg_latency_ms
    &&& a.min_score_milli == b.min_score_milli
    &&& a.max_score_milli == b.max_score_milli
    &&& a.encryption@ == b.encryption@
}

impl RotationDecision {
    /// A copy that agrees with this decision on every field.
    pub fn duplicate(&self) -> (r: RotationDecision)
        ensures
            decision_eq(r, *self),
    {
        let mut chain: Vec<ChainHop> = Vec::new();
        let mut i: usize = 0;
        while i < self.chain.len()
            invariant
                i <= self.chain@.len(),
                chain@ =~= self.chain@.take(i as int),
            decreases self.chain@.len() - i,
        {
            chain.push(self.chain[i].duplicate());
            i = i + 1;
        }
        let mut encryption: Vec<CryptoHop> = Vec::new();
        let mut j: usize = 0;
        while j < self.encryption.len()
            invariant
                j <= self.encryption@.len(),
                encryption@ =~= self.encryption@.take(j as int),
            decreases self.encryption@.len() - j,
        {
            encryption.push(self.encryption[j].duplicate());
            j = j + 1;
        }
        proof {
            assert(chain@ =~= self.chain@);
            assert(encryption@ =~= self.encryption@);
        }
        RotationDecision {
            mode: self.mode.clone(),
            timestamp: self.timestamp,
            chain_id: self.chain_id.clone(),
            chain,
            avg_latency_ms: self.avg_latency_ms,
            min_score_milli: self.min_score_milli,
            max_score_milli: self.max_score_milli,
            encryption,
        }
    }

    /// Project this decision onto its persist-safe topology: every field is
    /// copied from the decision except the keying material, which has no
    /// counterpart in the result.
    pub fn to_chain_topology(&self) -> (t: ChainTopology)
        ensures
            topology_matches(*self, t),
    {
        let mut hops: Vec<HopInfo> = Vec::new();
        let mut i: usize = 0;
        while i < self.chain.len()
            invariant
                i <= self.chain@.len(),
                hops@.len() == i,
                forall|j: int| 0 <= j < i ==> {
                    &&& (#[trigger] hops@[j]).ip@ == self.chain@[j].ip@
                    &&& hops@[j].port == self.chain@[j].port
                    &&& hops@[j].proto@ == self.chain@[j].proto@
                },
            decreases self.chain@.len() - i,
        {
            let h = &self.chain[i];
            hops.push(HopInfo { ip: h.ip.clone(), port: h.port, proto: h.proto.clone() });
            i = i + 1;
        }
        ChainTopology {
            chain_id: self.chain_id.clone(),
            hops,
            created_at: self.timestamp,
            mode: self.mode.clone(),
            avg_latency_ms: self.avg_latency_ms,
            min_score_milli: self.min_score_milli,
            max_score_milli: self.max_score_milli,
        }
    }
}

} // verus!
