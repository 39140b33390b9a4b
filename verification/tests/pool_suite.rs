use spectre_tunnel::liveness::{
    apply_outcome, apply_verification, is_pool_healthy, is_pool_healthy_at, now_unix,
    ProbeOutcome, DEFAULT_TIMEOUT_SECS, MAX_CONCURRENT_VERIFICATIONS, MAX_FAIL_COUNT,
    MIN_POOL_SIZE,
};
use spectre_tunnel::polish::{calculate_scores, deduplicate_proxies, split_proxy_pools};
use spectre_tunnel::rotator::{
    build_chain_decision, filter_mode_pool, normalize_proto, validate_mode, ChainController,
};
use spectre_tunnel::types::{Proxy, ProxyTier};

/// Helper to create a test proxy
fn make_proxy(
    ip: &str,
    port: u16,
    alive: bool,
    latency_ms: u64,
    fail_count: u32,
    last_verified: u64,
) -> Proxy {
    Proxy {
        ip: ip.to_string(),
        port,
        proto: "http".to_string(),
        latency_ms,
        country: "us".to_string(),
        anonymity: "elite".to_string(),
        score_milli: 500,
        tier: ProxyTier::Silver,
        fail_count,
        last_verified,
        alive,
    }
}

fn pool_proxy(ip: &str, port: u16, proto: &str, score_milli: u32) -> Proxy {
    Proxy {
        ip: ip.to_string(),
        port,
        proto: proto.to_string(),
        latency_ms: 200,
        country: "de".to_string(),
        anonymity: "elite".to_string(),
        score_milli,
        tier: ProxyTier::Silver,
        fail_count: 0,
        last_verified: 0,
        alive: true,
    }
}

#[test]
fn test_is_pool_healthy_sufficient_alive() {
    let proxies: Vec<Proxy> = (0..MIN_POOL_SIZE + 10)
        .map(|i| {
            make_proxy(
                &format!("192.168.1.{}", i),
                8080,
                true,
                100,
                0,
                now_unix(),
            )
        })
        .collect();

    assert!(is_pool_healthy(&proxies, 3600), "Pool should be healthy");
}

#[test]
fn test_is_pool_healthy_insufficient_alive() {
    let proxies: Vec<Proxy> = (0..MIN_POOL_SIZE - 10)
        .map(|i| {
            make_proxy(
                &format!("192.168.1.{}", i),
                8080,
                true,
                100,
                0,
                now_unix(),
            )
        })
        .collect();

    assert!(
        !is_pool_healthy(&proxies, 3600),
        "Pool should be unhealthy - insufficient alive"
    );
}

#[test]
fn test_is_pool_healthy_stale() {
    let old_time = now_unix() - 7200;
    let proxies: Vec<Proxy> = (0..MIN_POOL_SIZE + 10)
        .map(|i| make_proxy(&format!("192.168.1.{}", i), 8080, true, 100, 0, old_time))
        .collect();

    assert!(
        !is_pool_healthy(&proxies, 3600),
        "Pool should be unhealthy - stale"
    );
}

#[test]
fn test_is_pool_healthy_empty() {
    let proxies: Vec<Proxy> = vec![];

    assert!(
        !is_pool_healthy(&proxies, 3600),
        "Empty pool should be unhealthy"
    );
}

#[test]
fn test_is_pool_healthy_all_dead() {
    let now = now_unix();
    let proxies: Vec<Proxy> = (0..MIN_POOL_SIZE + 10)
        .map(|i| make_proxy(&format!("192.168.1.{}", i), 8080, false, 0, 0, now))
        .collect();

    assert!(
        !is_pool_healthy(&proxies, 3600),
        "Pool with all dead proxies should be unhealthy"
    );
}

#[test]
fn test_now_unix() {
    let now = now_unix();
    assert!(now > 0, "Unix timestamp should be positive");

    let expected = std::time::SystemTime::now()
        .duration_since(std::time::UNIX_EPOCH)
        .unwrap()
        .as_secs();
    assert!(
        now >= expected - 1 && now <= expected + 1,
        "now_unix should return current time"
    );
}

#[test]
fn test_constants() {
    assert_eq!(MAX_FAIL_COUNT, 3);
    assert_eq!(DEFAULT_TIMEOUT_SECS, 8);
    assert_eq!(MIN_POOL_SIZE, 30);
    assert_eq!(MAX_CONCURRENT_VERIFICATIONS, 50);
}

#[test]
fn test_is_pool_healthy_at_boundaries() {
    // Exactly MIN_POOL_SIZE alive and just-fresh is healthy; one second
    // past the staleness bound is not.
    let proxies: Vec<Proxy> = (0..MIN_POOL_SIZE)
        .map(|i| make_proxy(&format!("10.0.0.{}", i), 3128, true, 100, 0, 5000))
        .collect();
    assert!(is_pool_healthy_at(&proxies, 3600, 5000 + 3599));
    assert!(!is_pool_healthy_at(&proxies, 3600, 5000 + 3600));
}

#[test]
fn test_probe_success_feedback() {
    // Success: fail count resets, latency smooths 60/40, score is boosted
    // by the 0.95x + 0.05 rule.
    let mut p = make_proxy("127.0.0.1", 1, false, 100_000, 2, 0);
    p.score_milli = 500;
    let out = ProbeOutcome { alive: true, latency_ms: 50_000 };
    let q = apply_outcome(&p, out, 777);
    assert!(q.alive);
    assert_eq!(q.fail_count, 0);
    assert_eq!(q.latency_ms, 80_000, "0.6 * 100000 + 0.4 * 50000");
    assert_eq!(q.score_milli, 525, "0.95 * 0.5 + 0.05 = 0.525");
    assert_eq!(q.last_verified, 777);

    // Unmeasured latency takes the new measurement outright.
    let fresh = make_proxy("127.0.0.1", 1, false, 0, 0, 0);
    let q2 = apply_outcome(&fresh, out, 778);
    assert_eq!(q2.latency_ms, 50_000);

    // The boost caps at a perfect score.
    let mut top = make_proxy("127.0.0.1", 1, true, 100, 0, 0);
    top.score_milli = 1000;
    assert_eq!(apply_outcome(&top, out, 1).score_milli, 1000);
}

#[test]
fn test_probe_failure_feedback() {
    // Failure: fail count climbs, score decays by 0.7.
    let mut p = make_proxy("192.0.2.1", 12345, true, 0, 1, 0);
    p.score_milli = 800;
    let out = ProbeOutcome { alive: false, latency_ms: 0 };
    let q = apply_outcome(&p, out, 999);
    assert!(!q.alive);
    assert_eq!(q.fail_count, 2);
    assert_eq!(q.score_milli, 560, "0.8 * 0.7 = 0.56");
    assert_eq!(q.last_verified, 999);
}

#[test]
fn test_verification_round_prunes() {
    // Five unreachable proxies starting at two failures each: all reach
    // three and are pruned.
    let proxies: Vec<Proxy> = (0..5)
        .map(|i| make_proxy(&format!("192.0.2.{}", i), 1080, true, 0, 2, 0))
        .collect();
    let outcomes = vec![ProbeOutcome { alive: false, latency_ms: 0 }; 5];
    let survivors = apply_verification(&proxies, &outcomes, 4242);
    assert_eq!(survivors.len(), 0, "all advanced to 3 failures and were pruned");
}

#[test]
fn test_verification_round_updates_survivors() {
    let proxies = vec![
        make_proxy("192.0.2.1", 1, true, 0, 0, 0),
        make_proxy("192.0.2.2", 2, true, 0, 2, 0),
        make_proxy("192.0.2.3", 3, false, 0, 1, 0),
    ];
    let outcomes = vec![
        ProbeOutcome { alive: false, latency_ms: 0 },
        ProbeOutcome { alive: false, latency_ms: 0 },
        ProbeOutcome { alive: true, latency_ms: 1234 },
    ];
    let survivors = apply_verification(&proxies, &outcomes, 31337);
    assert_eq!(survivors.len(), 2, "the proxy reaching 3 failures is gone");
    assert_eq!(survivors[0].ip, "192.0.2.1");
    assert_eq!(survivors[0].fail_count, 1);
    assert_eq!(survivors[1].ip, "192.0.2.3");
    assert!(survivors[1].alive);
    assert_eq!(survivors[1].fail_count, 0);
    assert_eq!(survivors[1].latency_ms, 1234);
    for s in &survivors {
        assert!(s.fail_count < MAX_FAIL_COUNT);
        assert_eq!(s.last_verified, 31337);
    }
}

#[test]
fn test_deduplicate_keeps_first_in_order() {
    let pool = vec![
        pool_proxy("1.1.1.1", 80, "http", 600),
        pool_proxy("2.2.2.2", 80, "http", 700),
        pool_proxy("1.1.1.1", 80, "https", 100),
        pool_proxy("3.3.3.3", 81, "http", 100),
        pool_proxy("2.2.2.2", 80, "socks5", 100),
    ];
    let unique = deduplicate_proxies(pool);
    assert_eq!(unique.len(), 3);
    assert_eq!(unique[0].ip, "1.1.1.1");
    assert_eq!(unique[0].proto, "http", "first occurrence wins");
    assert_eq!(unique[1].ip, "2.2.2.2");
    assert_eq!(unique[1].score_milli, 700);
    assert_eq!(unique[2].ip, "3.3.3.3");
}

#[test]
fn test_calculate_scores_exact_value() {
    // No latency measurement, elite anonymity, preferred country, socks5:
    // 0 + 300 + 200 + 100 = 600, then the 1.2x DNS bonus: 720.
    let mut p = pool_proxy("1.1.1.1", 1080, "socks5", 0);
    p.latency_ms = 0;
    p.country = "us".to_string();
    p.anonymity = "elite".to_string();
    let scored = calculate_scores(vec![p]);
    assert_eq!(scored.len(), 1);
    assert_eq!(scored[0].score_milli, 720);
}

#[test]
fn test_calculate_scores_clamps_at_one() {
    // The best possible proxy: 1 ms latency against a 1000 ms pool worst,
    // elite, preferred country, socks5. The weighted sum with the DNS
    // bonus would reach 1.198; the score range caps it at 1.0.
    let mut p = pool_proxy("1.1.1.1", 1080, "socks5", 0);
    p.latency_ms = 1;
    p.country = "us".to_string();
    p.anonymity = "elite".to_string();
    let scored = calculate_scores(vec![p]);
    assert_eq!(scored.len(), 1);
    assert_eq!(scored[0].score_milli, 1000);
}

#[test]
fn test_calculate_scores_sorts_descending() {
    let mut weak = pool_proxy("1.1.1.1", 80, "http", 0);
    weak.anonymity = "transparent".to_string();
    weak.country = "xx".to_string();
    weak.latency_ms = 0;
    let strong = pool_proxy("2.2.2.2", 1080, "socks5", 0);
    let scored = calculate_scores(vec![weak, strong]);
    assert_eq!(scored.len(), 2);
    assert!(scored[0].score_milli >= scored[1].score_milli);
    assert_eq!(scored[0].ip, "2.2.2.2");
}

#[test]
fn test_split_proxy_pools() {
    let pool = vec![
        pool_proxy("1.1.1.1", 443, "https", 500),
        pool_proxy("2.2.2.2", 80, "http", 500),
        pool_proxy("3.3.3.3", 1080, "SOCKS5", 500),
        pool_proxy("4.4.4.4", 1080, "socks4", 500),
    ];
    let (dns, non_dns) = split_proxy_pools(pool);
    assert_eq!(dns.len(), 2);
    assert_eq!(dns[0].ip, "1.1.1.1");
    assert_eq!(dns[1].ip, "3.3.3.3");
    assert_eq!(non_dns.len(), 2);
    assert_eq!(non_dns[0].ip, "2.2.2.2");
    assert_eq!(non_dns[1].ip, "4.4.4.4");
}

#[test]
fn test_normalize_proto_aliases() {
    assert_eq!(normalize_proto("SOCKS"), "socks5");
    assert_eq!(normalize_proto("socks"), "socks5");
    assert_eq!(normalize_proto("HTTP"), "http");
    assert_eq!(normalize_proto("Https"), "https");
    assert_eq!(normalize_proto("socks4"), "socks4");
    assert_eq!(normalize_proto("weird"), "weird");
}

#[test]
fn test_validate_mode() {
    assert!(validate_mode("lite"));
    assert!(validate_mode("Stealth"));
    assert!(validate_mode("HIGH"));
    assert!(validate_mode("phantom"));
    assert!(!validate_mode("turbo"));
    assert!(!validate_mode(""));
}

#[test]
fn test_filter_phantom_pool() {
    // Phantom keeps DNS-capable hops scoring at least 0.4 and drops the rest.
    let dns = vec![
        pool_proxy("1.1.1.1", 443, "https", 900),
        pool_proxy("2.2.2.2", 1080, "socks5", 800),
        pool_proxy("3.3.3.3", 443, "https", 500),
        pool_proxy("4.4.4.4", 443, "https", 100),
        pool_proxy("5.5.5.5", 80, "http", 900),
    ];
    let pool = filter_mode_pool("phantom", &dns, &vec![], &vec![]);
    assert_eq!(pool.len(), 3);
    assert_eq!(pool[0].ip, "1.1.1.1");
    assert_eq!(pool[1].ip, "2.2.2.2");
    assert_eq!(pool[2].ip, "3.3.3.3");
}

#[test]
fn test_filter_stealth_and_lite() {
    let dns = vec![pool_proxy("1.1.1.1", 443, "https", 900)];
    let non_dns = vec![pool_proxy("2.2.2.2", 80, "http", 100)];
    let combined = vec![
        pool_proxy("1.1.1.1", 443, "https", 900),
        pool_proxy("3.3.3.3", 1080, "socks5", 600),
    ];

    let stealth = filter_mode_pool("stealth", &dns, &non_dns, &combined);
    assert_eq!(stealth.len(), 2, "socks5 is filtered out, duplicates merge");
    assert_eq!(stealth[0].ip, "1.1.1.1");
    assert_eq!(stealth[1].ip, "2.2.2.2");

    let lite = filter_mode_pool("lite", &dns, &non_dns, &combined);
    assert_eq!(lite.len(), 3, "combined, non-dns, dns concatenated and deduplicated");
    assert_eq!(lite[0].ip, "1.1.1.1", "combined comes first");
    assert_eq!(lite[1].ip, "3.3.3.3");
    assert_eq!(lite[2].ip, "2.2.2.2");
}

#[test]
fn test_filter_high_fallback() {
    // No DNS-capable candidates: high falls back to well-scored combined.
    let combined = vec![
        pool_proxy("1.1.1.1", 80, "http", 700),
        pool_proxy("2.2.2.2", 80, "http", 300),
    ];
    let pool = filter_mode_pool("high", &vec![], &vec![], &combined);
    assert_eq!(pool.len(), 1);
    assert_eq!(pool[0].ip, "1.1.1.1");
}

#[test]
fn test_build_decision_empty_pool() {
    let none = build_chain_decision("phantom", &vec![], &vec![], &vec![]);
    assert!(none.is_none(), "an empty pool yields no decision, not an error");
}

#[test]
fn test_build_decision_phantom_minimal_pool() {
    // Three eligible hops cap the sampled count at 3; the decision carries
    // one keying entry per hop and every hop scores at least 0.4.
    let dns = vec![
        pool_proxy("1.1.1.1", 443, "https", 900),
        pool_proxy("2.2.2.2", 1080, "socks5", 800),
        pool_proxy("3.3.3.3", 443, "https", 500),
    ];
    let d = build_chain_decision("phantom", &dns, &vec![], &vec![])
        .expect("a nonempty phantom pool must yield a decision");
    assert_eq!(d.mode, "phantom");
    assert_eq!(d.chain.len(), 3);
    assert_eq!(d.encryption.len(), 3);
    for hop in &d.chain {
        assert!(hop.score_milli >= 400);
        assert!(hop.proto == "https" || hop.proto == "socks5");
    }
    for c in &d.encryption {
        assert_eq!(c.key_hex.len(), 64);
        assert_eq!(c.nonce_hex.len(), 24);
        assert_eq!(hex::decode(&c.key_hex).expect("key is hex").len(), 32);
        assert_eq!(hex::decode(&c.nonce_hex).expect("nonce is hex").len(), 12);
    }
    assert_eq!(d.chain_id.len(), 32);
    assert_eq!(hex::decode(&d.chain_id).expect("chain id is hex").len(), 16);
    let mut keys: Vec<String> = d
        .chain
        .iter()
        .map(|h| format!("{}:{}", h.ip, h.port))
        .collect();
    keys.sort();
    keys.dedup();
    assert_eq!(keys.len(), 3, "selection is without replacement");
}

#[test]
fn test_build_decision_hop_bounds() {
    // Lite uses exactly one hop; high asks for 2-3 but a single-proxy pool
    // caps it at 1.
    let combined = vec![pool_proxy("1.1.1.1", 80, "http", 600)];
    let lite = build_chain_decision("lite", &vec![], &vec![], &combined).expect("lite decision");
    assert_eq!(lite.chain.len(), 1);

    let dns = vec![pool_proxy("2.2.2.2", 443, "https", 900)];
    let high = build_chain_decision("high", &dns, &vec![], &vec![]).expect("high decision");
    assert_eq!(high.chain.len(), 1, "clamped to the pool size");

    for _ in 0..16 {
        let d = build_chain_decision("high", &dns, &vec![], &vec![]).expect("high decision");
        assert!(d.chain.len() >= 1 && d.chain.len() <= 3);
    }
}

#[test]
fn test_build_decision_phantom_range() {
    // With six eligible hops, phantom samples 3 to 5 of them, always
    // distinct and always paired with keying material.
    let dns: Vec<Proxy> = (1..=6)
        .map(|i| pool_proxy(&format!("10.0.0.{}", i), 443, "https", 900))
        .collect();
    for _ in 0..16 {
        let d = build_chain_decision("phantom", &dns, &vec![], &vec![]).expect("decision");
        assert!(d.chain.len() >= 3 && d.chain.len() <= 5);
        assert_eq!(d.encryption.len(), d.chain.len());
        let mut keys: Vec<String> = d.chain.iter().map(|h| format!("{}:{}", h.ip, h.port)).collect();
        keys.sort();
        keys.dedup();
        assert_eq!(keys.len(), d.chain.len(), "no hop repeats");
    }
}

#[test]
fn test_build_decision_aggregates() {
    // One hop with unmeasured latency and score: the substitutes 1000 ms
    // and 0.5 flow into the aggregates.
    let mut p = pool_proxy("9.9.9.9", 443, "https", 500);
    p.latency_ms = 0;
    p.score_milli = 0;
    let d = build_chain_decision("lite", &vec![], &vec![], &vec![p]).expect("decision");
    assert_eq!(d.chain.len(), 1);
    assert_eq!(d.chain[0].latency_ms, 1000);
    assert_eq!(d.chain[0].score_milli, 500);
    assert_eq!(d.avg_latency_ms, 1000);
    assert_eq!(d.min_score_milli, 500);
    assert_eq!(d.max_score_milli, 500);
}

#[test]
fn test_rotation_snapshot_and_retention() {
    let combined = vec![pool_proxy("1.1.1.1", 80, "http", 600)];
    let first = build_chain_decision("lite", &vec![], &vec![], &combined).expect("decision");
    let first_id = first.chain_id.clone();

    let mut controller = ChainController::new(first);
    let snapshot = controller.snapshot();
    assert_eq!(snapshot.chain_id, first_id);

    controller.rotate(None);
    assert_eq!(
        controller.snapshot().chain_id,
        first_id,
        "failed rotation keeps the old decision"
    );

    let fresh = build_chain_decision("lite", &vec![], &vec![], &combined).expect("decision");
    let fresh_id = fresh.chain_id.clone();
    controller.rotate(Some(fresh));
    assert_eq!(
        controller.snapshot().chain_id,
        fresh_id,
        "successful rotation adopts the new decision"
    );
    assert_eq!(
        snapshot.chain_id, first_id,
        "a snapshot taken earlier is untouched by rotation"
    );
}

#[test]
fn test_tier_classification() {
    assert_eq!(ProxyTier::from_score(900), ProxyTier::Platinum);
    assert_eq!(ProxyTier::from_score(850), ProxyTier::Platinum);
    assert_eq!(ProxyTier::from_score(700), ProxyTier::Gold);
    assert_eq!(ProxyTier::from_score(500), ProxyTier::Silver);
    assert_eq!(ProxyTier::from_score(300), ProxyTier::Bronze);
    assert_eq!(ProxyTier::from_score(299), ProxyTier::Dead);

    assert_eq!(ProxyTier::Platinum.min_score(), 850);
    assert_eq!(ProxyTier::Gold.min_score(), 700);
    assert_eq!(ProxyTier::Silver.min_score(), 500);
    assert_eq!(ProxyTier::Bronze.min_score(), 300);
    assert_eq!(ProxyTier::Dead.min_score(), 0);

    assert_eq!(ProxyTier::default(), ProxyTier::Bronze);
    assert_eq!(ProxyTier::from_name("platinum"), ProxyTier::Platinum);
    assert_eq!(ProxyTier::from_name("gold"), ProxyTier::Gold);
    assert_eq!(ProxyTier::from_name("silver"), ProxyTier::Silver);
    assert_eq!(ProxyTier::from_name("dead"), ProxyTier::Dead);
    assert_eq!(ProxyTier::from_name(""), ProxyTier::Bronze);
    assert_eq!(ProxyTier::from_name("mystery"), ProxyTier::Bronze);
}

#[test]
fn test_proxy_key_and_topology() {
    let p = pool_proxy("1.2.3.4", 8080, "http", 500);
    assert_eq!(p.key(), "1.2.3.4:8080");

    let combined = vec![pool_proxy("5.6.7.8", 443, "https", 800)];
    let d = build_chain_decision("lite", &vec![], &vec![], &combined).expect("decision");
    let t = d.to_chain_topology();
    assert_eq!(t.chain_id, d.chain_id);
    assert_eq!(t.created_at, d.timestamp);
    assert_eq!(t.mode, d.mode);
    assert_eq!(t.hops.len(), d.chain.len());
    assert_eq!(t.hops[0].ip, "5.6.7.8");
    assert_eq!(t.hops[0].port, 443);
    assert_eq!(t.hops[0].proto, "https");
    // Key isolation: no topology field embeds any keying material.
    let blob = format!(
        "{} {} {} {} {} {}",
        t.chain_id, t.mode, t.created_at, t.hops[0].ip, t.hops[0].port, t.hops[0].proto
    );
    for c in &d.encryption {
        assert!(!blob.contains(&c.key_hex[..24]), "key prefix must not be persisted");
        assert!(!blob.contains(&c.nonce_hex[..24]), "nonce must not be persisted");
    }
}
