//! Pool polishing: deduplication, static scoring, and the DNS-capable /
//! non-DNS split.
//!
//! Scores are in thousandths and combine latency, anonymity, country and
//! protocol, weighted 4:3:2:1, with a 1.2x bonus for DNS-capable protocols;
//! the result is clamped into the score range, 0 to 1.

use vstd::prelude::*;
use vstd::arithmetic::div_mod::{lemma_div_is_ordered, lemma_div_multiples_vanish, lemma_div_pos_is_pos};
use crate::types::{Proxy, proxy_key};
use crate::strutil::{ascii_lowercase, str_eq, lower_seq};

verus! {

broadcast use vstd::seq_lib::group_to_multiset_ensures;

/// Whether some proxy in the sequence has the given (ip, port) key.
pub open spec fn has_key(s: Seq<Proxy>, k: (Seq<char>, u16)) -> bool {
    exists|i: int| 0 <= i < s.len() && proxy_key(s[i]) == k
}

/// The sequence with every proxy whose (ip, port) key already appeared
/// earlier removed; the first occurrence of each key is kept, in order.
pub open spec fn dedup_first(s: Seq<Proxy>) -> Seq<Proxy>
    decreases s.len(),
{
    if s.len() == 0 {
        Seq::empty()
    } else {
        let prefix = dedup_first(s.drop_last());
        if has_key(s.drop_last(), proxy_key(s.last())) {
            prefix
        } else {
            prefix.push(s.last())
        }
    }
}

/// Deduplication keeps exactly the keys of its input.
pub proof fn lemma_dedup_first_keys(s: Seq<Proxy>)
    ensures
        forall|k: (Seq<char>, u16)| #[trigger] has_key(dedup_first(s), k) <==> has_key(s, k),
    decreases s.len(),
{
    if s.len() == 0 {
    } else {
        let d = s.drop_last();
        let prefix = dedup_first(d);
        lemma_dedup_first_keys(d);
        assert forall|k: (Seq<char>, u16)| #[trigger] has_key(dedup_first(s), k) <==> has_key(
            s,
            k,
        ) by {
            if has_key(s, k) {
                let i = choose|i: int| 0 <= i < s.len() && proxy_key(s[i]) == k;
                if i < s.len() - 1 {
                    assert(d[i] == s[i]);
                    assert(has_key(d, k));
                }
                if has_key(d, k) {
                    assert(has_key(prefix, k));
                    let j = choose|j: int| 0 <= j < prefix.len() && proxy_key(prefix[j]) == k;
                    assert(dedup_first(s)[j] == prefix[j]);
                    assert(has_key(dedup_first(s), k));
                } else {
                    assert(proxy_key(s.last()) == k);
                    assert(dedup_first(s) == prefix.push(s.last()));
                    assert(proxy_key(dedup_first(s)[prefix.len() as int]) == k);
                    assert(has_key(dedup_first(s), k));
                }
            }
            if has_key(dedup_first(s), k) {
                let i = choose|i: int| 0 <= i < dedup_first(s).len() && proxy_key(
                    dedup_first(s)[i],
                ) == k;
                if i < prefix.len() {
                    assert(dedup_first(s)[i] == prefix[i]);
                    assert(has_key(prefix, k));
                    assert(has_key(d, k));
                    let j = choose|j: int| 0 <= j < d.len() && proxy_key(d[j]) == k;
                    assert(s[j] == d[j]);
                    assert(has_key(s, k));
                } else {
                    assert(dedup_first(s)[i] == s.last());
                    assert(proxy_key(s[s.len() - 1]) == k);
                    assert(has_key(s, k));
                }
            }
        }
    }
}

/// Deduplication leaves no two entries with the same key.
pub proof fn lemma_dedup_first_distinct(s: Seq<Proxy>)
    ensures
        forall|i: int, j: int| 0 <= i < j < dedup_first(s).len()
            ==> proxy_key(#[trigger] dedup_first(s)[i]) != proxy_key(#[trigger] dedup_first(s)[j]),
    decreases s.len(),
{
    if s.len() == 0 {
    } else {
        let d = s.drop_last();
        let prefix = dedup_first(d);
        lemma_dedup_first_distinct(d);
        lemma_dedup_first_keys(d);
        if !has_key(d, proxy_key(s.last())) {
            assert forall|i: int, j: int|
                0 <= i < j < dedup_first(s).len() implies proxy_key(
                #[trigger] dedup_first(s)[i],
            ) != proxy_key(#[trigger] dedup_first(s)[j]) by {
                if j < prefix.len() {
                    assert(dedup_first(s)[i] == prefix[i]);
                    assert(dedup_first(s)[j] == prefix[j]);
                } else {
                    assert(dedup_first(s)[j] == s.last());
                    assert(dedup_first(s)[i] == prefix[i]);
                    assert(has_key(prefix, proxy_key(prefix[i])));
                }
            }
        }
    }
}

/// On a sequence whose keys are already pairwise distinct, deduplication
/// changes nothing.
pub proof fn lemma_dedup_first_identity(s: Seq<Proxy>)
    requires
        forall|i: int, j: int| 0 <= i < j < s.len()
            ==> proxy_key(#[trigger] s[i]) != proxy_key(#[trigger] s[j]),
    ensures
        dedup_first(s) == s,
    decreases s.len(),
{
    if s.len() == 0 {
        assert(dedup_first(s) =~= s);
    } else {
        let d = s.drop_last();
        assert(forall|i: int, j: int| 0 <= i < j < d.len()
            ==> proxy_key(#[trigger] d[i]) != proxy_key(#[trigger] d[j]));
        lemma_dedup_first_identity(d);
        assert(!has_key(d, proxy_key(s.last()))) by {
            if has_key(d, proxy_key(s.last())) {
                let i = choose|i: int| 0 <= i < d.len() && proxy_key(d[i]) == proxy_key(s.last());
                assert(proxy_key(s[i]) == proxy_key(s[s.len() - 1]));
            }
        }
        assert(dedup_first(s) =~= s);
    }
}

/// Drop every proxy whose (ip, port) pair already appeared earlier in the
/// list, keeping first occurrences in their original order.
pub fn deduplicate_proxies(proxies: Vec<Proxy>) -> (unique: Vec<Proxy>)
    ensures
        unique@ == dedup_first(proxies@),
{
    let ghost all = proxies@;
    let mut unique: Vec<Proxy> = Vec::new();
    let mut i: usize = 0;
    while i < proxies.len()
        invariant
            i <= all.len(),
            proxies@ == all,
            unique@ == dedup_first(all.take(i as int)),
        decreases all.len() - i,
    {
        let p = &proxies[i];
        let mut found = false;
        let mut j: usize = 0;
        while j < unique.len()
            invariant
                j <= unique@.len(),
                proxies@ == all,
                i < all.len(),
                p == &all[i as int],
                found <==> exists|t: int| 0 <= t < j && proxy_key(#[trigger] unique@[t])
                    == proxy_key(*p),
            decreases unique@.len() - j,
        {
            if unique[j].same_key(p) {
                found = true;
            }
            j = j + 1;
        }
        proof {
            let pre = all.take(i as int);
            lemma_dedup_first_keys(pre);
            assert(found <==> has_key(unique@, proxy_key(all[i as int])));
            assert(found <==> has_key(pre, proxy_key(all[i as int])));
            assert(all.take(i + 1).drop_last() =~= pre);
            assert(all.take(i + 1).last() == all[i as int]);
        }
        if !found {
            unique.push(p.duplicate());
        }
        i = i + 1;
    }
    proof {
        assert(all.take(all.len() as int) =~= all);
    }
    unique
}

/// Points (in thousandths) for an anonymity label, already lowercased.
pub open spec fn anonymity_points(anon: Seq<char>) -> int {
    if anon == "elite"@ {
        1000
    } else if anon == "anonymous"@ {
        700
    } else if anon == "transparent"@ {
        300
    } else {
        100
    }
}

/// Whether a lowercased country code is in the preferred set.
pub open spec fn is_preferred_country(c: Seq<char>) -> bool {
    c == "us"@ || c == "de"@ || c == "nl"@ || c == "uk"@ || c == "fr"@ || c == "ca"@ || c == "sg"@
}

/// Points (in thousandths) for a country, already lowercased.
pub open spec fn country_points(c: Seq<char>) -> int {
    if is_preferred_country(c) {
        1000
    } else {
        500
    }
}

/// Points (in thousandths) for a protocol label, already lowercased.
pub open spec fn proto_points(p: Seq<char>) -> int {
    if p == "socks5"@ {
        1000
    } else if p == "https"@ {
        900
    } else if p == "socks4"@ {
        600
    } else if p == "http"@ {
        500
    } else {
        300
    }
}

/// Whether a raw protocol label names a DNS-capable upstream (the proxy
/// itself resolves names): https or socks5, case-insensitively.
pub open spec fn spec_dns_capable(proto: Seq<char>) -> bool {
    lower_seq(proto) == "https"@ || lower_seq(proto) == "socks5"@
}

/// Latency contribution (in thousandths): unmeasured latency contributes
/// nothing; otherwise the fraction of the pool's worst latency, inverted
/// and weighted by 0.4.
pub open spec fn latency_points(l: u64, max_l: u64) -> int
    recommends
        max_l >= 1000,
        l <= max_l,
{
    if l > 0 {
        ((1000 - (l * 1000 / (max_l as int))) * 400) / 1000
    } else {
        0
    }
}

/// The pool's worst positive latency in milliseconds, at least 1000.
pub open spec fn max_positive_latency(s: Seq<Proxy>) -> u64
    decreases s.len(),
{
    if s.len() == 0 {
        1000
    } else {
        let rest = max_positive_latency(s.drop_last());
        if s.last().latency_ms > rest {
            s.last().latency_ms
        } else {
            rest
        }
    }
}

/// The worst latency bounds every entry and is at least 1000.
pub proof fn lemma_max_positive_latency(s: Seq<Proxy>)
    ensures
        max_positive_latency(s) >= 1000,
        forall|i: int| 0 <= i < s.len() ==> (#[trigger] s[i]).latency_ms
            <= max_positive_latency(s),
    decreases s.len(),
{
    if s.len() == 0 {
    } else {
        let d = s.drop_last();
        lemma_max_positive_latency(d);
        assert forall|i: int| 0 <= i < s.len() implies (#[trigger] s[i]).latency_ms
            <= max_positive_latency(s) by {
            if i < s.len() - 1 {
                assert(s[i] == d[i]);
                assert(d[i].latency_ms <= max_positive_latency(d));
            }
        }
    }
}

/// The score of one proxy against the pool's worst latency. The DNS bonus
/// can push the weighted sum past 1.0, so the result is clamped to the
/// score range's top, 1.0.
pub open spec fn computed_score(p: Proxy, max_l: u64) -> int
    recommends
        max_l >= 1000,
        p.latency_ms <= max_l,
{
    let base = latency_points(p.latency_ms, max_l) + anonymity_points(lower_seq(p.anonymity@))
        * 300 / 1000 + country_points(lower_seq(p.country@)) * 200 / 1000 + proto_points(
        lower_seq(p.proto@),
    ) * 100 / 1000;
    let boosted = if spec_dns_capable(p.proto@) {
        base * 12 / 10
    } else {
        base
    };
    if boosted > 1000 {
        1000
    } else {
        boosted
    }
}

/// A computed score stays inside the score range, 0 to 1.
pub proof fn lemma_computed_score_bounds(p: Proxy, max_l: u64)
    requires
        max_l >= 1000,
        p.latency_ms <= max_l,
    ensures
        0 <= computed_score(p, max_l) <= 1000,
{
    if p.latency_ms > 0 {
        lemma_div_pos_is_pos(p.latency_ms * 1000, max_l as int);
        lemma_div_is_ordered(p.latency_ms * 1000, max_l * 1000, max_l as int);
        lemma_div_multiples_vanish(1000, max_l as int);
        assert(max_l * 1000 == (max_l as int) * 1000);
        lemma_div_pos_is_pos((1000 - (p.latency_ms * 1000 / (max_l as int))) * 400, 1000);
    }
    let base = latency_points(p.latency_ms, max_l) + anonymity_points(lower_seq(p.anonymity@))
        * 300 / 1000 + country_points(lower_seq(p.country@)) * 200 / 1000 + proto_points(
        lower_seq(p.proto@),
    ) * 100 / 1000;
    assert(base >= 0);
    if spec_dns_capable(p.proto@) {
        lemma_div_pos_is_pos(base * 12, 10);
    }
}

/// The proxy with its score replaced.
pub open spec fn proxy_with_score(p: Proxy, score: int) -> Proxy {
    Proxy { score_milli: score as u32, ..p }
}

/// Every proxy of the pool rescored against the pool's worst latency.
pub open spec fn scored_pool(s: Seq<Proxy>) -> Seq<Proxy> {
    Seq::new(s.len(), |i: int| proxy_with_score(s[i], computed_score(s[i], max_positive_latency(s))))
}

/// Scores sorted from best to worst.
pub open spec fn sorted_desc(s: Seq<Proxy>) -> bool {
    forall|i: int, j: int| 0 <= i <= j < s.len() ==> (#[trigger] s[i]).score_milli
        >= (#[trigger] s[j]).score_milli
}

/// The score of one proxy, as executable arithmetic.
fn score_one(p: &Proxy, max_l: u64) -> (score: u32)
    requires
        max_l >= 1000,
        p.latency_ms <= max_l,
    ensures
        score == computed_score(*p, max_l),
        score <= 1000,
{
    let mut base: u64 = 0;
    if p.latency_ms > 0 {
        let q: u64 = ((p.latency_ms as u128) * 1000 / (max_l as u128)) as u64;
        proof {
            lemma_div_is_ordered(p.latency_ms * 1000, max_l * 1000, max_l as int);
            lemma_div_multiples_vanish(1000, max_l as int);
            assert(max_l * 1000 == (max_l as int) * 1000);
            assert(q == p.latency_ms * 1000 / (max_l as int));
            assert(q <= 1000);
        }
        base = (1000 - q) * 400 / 1000;
    }
    let anon = ascii_lowercase(p.anonymity.as_str());
    if str_eq(anon.as_str(), "elite") {
        base = base + 1000 * 300 / 1000;
    } else if str_eq(anon.as_str(), "anonymous") {
        base = base + 700 * 300 / 1000;
    } else if str_eq(anon.as_str(), "transparent") {
        base = base + 300 * 300 / 1000;
    } else {
        base = base + 100 * 300 / 1000;
    }
    let country = ascii_lowercase(p.country.as_str());
    let preferred = str_eq(country.as_str(), "us") || str_eq(country.as_str(), "de") || str_eq(
        country.as_str(),
        "nl",
    ) || str_eq(country.as_str(), "uk") || str_eq(country.as_str(), "fr") || str_eq(
        country.as_str(),
        "ca",
    ) || str_eq(country.as_str(), "sg");
    if preferred {
        base = base + 1000 * 200 / 1000;
    } else {
        base = base + 500 * 200 / 1000;
    }
    let proto = ascii_lowercase(p.proto.as_str());
    if str_eq(proto.as_str(), "socks5") {
        base = base + 1000 * 100 / 1000;
    } else if str_eq(proto.as_str(), "https") {
        base = base + 900 * 100 / 1000;
    } else if str_eq(proto.as_str(), "socks4") {
        base = base + 600 * 100 / 1000;
    } else if str_eq(proto.as_str(), "http") {
        base = base + 500 * 100 / 1000;
    } else {
        base = base + 300 * 100 / 1000;
    }
    if str_eq(proto.as_str(), "https") || str_eq(proto.as_str(), "socks5") {
        base = base * 12 / 10;
    }
    if base > 1000 {
        base = 1000;
    }
    base as u32
}

/// Sort a pool from best to worst score; the result holds exactly the
/// same proxies.
fn sort_by_score_desc(v: Vec<Proxy>) -> (r: Vec<Proxy>)
    ensures
        sorted_desc(r@),
        r@.to_multiset() == v@.to_multiset(),
{
    let ghost orig = v@;
    let mut rest = v;
    let mut out: Vec<Proxy> = Vec::new();
    while rest.len() > 0
        invariant
            sorted_desc(out@),
            forall|a: int, b: int| 0 <= a < out@.len() && 0 <= b < rest@.len()
                ==> (#[trigger] out@[a]).score_milli >= (#[trigger] rest@[b]).score_milli,
            out@.to_multiset().add(rest@.to_multiset()) == orig.to_multiset(),
        decreases rest@.len(),
    {
        let mut m: usize = 0;
        let mut j: usize = 1;
        while j < rest.len()
            invariant
                0 < rest@.len(),
                m < j,
                j <= rest@.len(),
                forall|t: int| 0 <= t < j ==> (#[trigger] rest@[t]).score_milli
                    <= rest@[m as int].score_milli,
            decreases rest@.len() - j,
        {
            if rest[j].score_milli > rest[m].score_milli {
                m = j;
            }
            j = j + 1;
        }
        proof {
            assert(rest@.to_multiset().count(rest@[m as int]) > 0);
        }
        let ghost old_out = out@;
        let ghost old_rest = rest@;
        let x = rest.remove(m);
        out.push(x);
        proof {
            assert(out@.to_multiset() == old_out.to_multiset().insert(x));
            assert(rest@.to_multiset() == old_rest.to_multiset().remove(x));
            assert(out@.to_multiset().add(rest@.to_multiset()) =~= orig.to_multiset());
            assert(forall|b: int| 0 <= b < rest@.len() ==> (#[trigger] rest@[b]).score_milli
                <= x.score_milli);
        }
    }
    out
}

/// Rescore the whole pool against its worst latency and return it sorted
/// from best to worst; every score lands in the score range, 0 to 1.
/// An empty pool stays empty.
pub fn calculate_scores(proxies: Vec<Proxy>) -> (r: Vec<Proxy>)
    ensures
        sorted_desc(r@),
        r@.to_multiset() == scored_pool(proxies@).to_multiset(),
        forall|i: int| 0 <= i < r@.len() ==> (#[trigger] r@[i]).score_milli <= 1000,
{
    let ghost all = proxies@;
    proof {
        lemma_max_positive_latency(all);
    }
    let mut max_l: u64 = 1000;
    let mut i: usize = 0;
    while i < proxies.len()
        invariant
            i <= all.len(),
            proxies@ == all,
            max_l == max_positive_latency(all.take(i as int)),
        decreases all.len() - i,
    {
        proof {
            assert(all.take(i + 1).drop_last() =~= all.take(i as int));
            assert(all.take(i + 1).last() == all[i as int]);
        }
        if proxies[i].latency_ms > max_l {
            max_l = proxies[i].latency_ms;
        }
        i = i + 1;
    }
    proof {
        assert(all.take(all.len() as int) =~= all);
    }
    let mut scored: Vec<Proxy> = Vec::new();
    let mut i: usize = 0;
    while i < proxies.len()
        invariant
            i <= all.len(),
            proxies@ == all,
            max_l == max_positive_latency(all),
            scored@ == scored_pool(all).take(i as int),
        decreases all.len() - i,
    {
        proof {
            lemma_max_positive_latency(all);
        }
        let sc = score_one(&proxies[i], max_l);
        let mut q = proxies[i].duplicate();
        q.score_milli = sc;
        scored.push(q);
        proof {
            assert(scored@ =~= scored_pool(all).take(i + 1));
        }
        i = i + 1;
    }
    proof {
        assert(scored@ =~= scored_pool(all));
    }
    let sorted = sort_by_score_desc(scored);
    proof {
        assert forall|i: int| 0 <= i < sorted@.len() implies (#[trigger] sorted@[i]).score_milli
            <= 1000 by {
            assert(sorted@.contains(sorted@[i]));
            assert(sorted@.to_multiset().count(sorted@[i]) > 0);
            assert(scored_pool(all).to_multiset().count(sorted@[i]) > 0);
            assert(scored_pool(all).contains(sorted@[i]));
            let j = choose|j: int|
                0 <= j < scored_pool(all).len() && scored_pool(all)[j] == sorted@[i];
            lemma_max_positive_latency(all);
            lemma_computed_score_bounds(all[j], max_positive_latency(all));
        }
    }
    sorted
}

/// The DNS-capable members of a pool, in order.
pub open spec fn dns_pool_of(s: Seq<Proxy>) -> Seq<Proxy>
    decreases s.len(),
{
    if s.len() == 0 {
        Seq::empty()
    } else {
        let rest = dns_pool_of(s.drop_last());
        if spec_dns_capable(s.last().proto@) {
            rest.push(s.last())
        } else {
            rest
        }
    }
}

/// The members of a pool that cannot resolve names, in order.
pub open spec fn non_dns_pool_of(s: Seq<Proxy>) -> Seq<Proxy>
    decreases s.len(),
{
    if s.len() == 0 {
        Seq::empty()
    } else {
        let rest = non_dns_pool_of(s.drop_last());
        if !spec_dns_capable(s.last().proto@) {
            rest.push(s.last())
        } else {
            rest
        }
    }
}

/// Split a pool into DNS-capable (https / socks5) proxies and the rest,
/// keeping each side's original order.
pub fn split_proxy_pools(proxies: Vec<Proxy>) -> (r: (Vec<Proxy>, Vec<Proxy>))
    ensures
        r.0@ == dns_pool_of(proxies@),
        r.1@ == non_dns_pool_of(proxies@),
{
    let ghost all = proxies@;
    let mut dns: Vec<Proxy> = Vec::new();
    let mut non_dns: Vec<Proxy> = Vec::new();
    let mut i: usize = 0;
    while i < proxies.len()
        invariant
            i <= all.len(),
            proxies@ == all,
            dns@ == dns_pool_of(all.take(i as int)),
            non_dns@ == non_dns_pool_of(all.take(i as int)),
        decreases all.len() - i,
    {
        let p = &proxies[i];
        let proto = ascii_lowercase(p.proto.as_str());
        proof {
            assert(all.take(i + 1).drop_last() =~= all.take(i as int));
            assert(all.take(i + 1).last() == all[i as int]);
        }
        if str_eq(proto.as_str(), "https") || str_eq(proto.as_str(), "socks5") {
            dns.push(p.duplicate());
        } else {
            non_dns.push(p.duplicate());
        }
        i = i + 1;
    }
    proof {
        assert(all.take(all.len() as int) =~= all);
    }
    (dns, non_dns)
}

} // verus!
