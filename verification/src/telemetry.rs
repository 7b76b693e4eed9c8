//! Local usage counters of the audit application.
use vstd::prelude::*;
use crate::text::str_eq;
use crate::json::{JsonValue, JsonModel, obj_insert, object_model};

verus! {

/// Usage counters: scans and crawls made, first and last use (Unix seconds),
/// time spent crawling, the domains seen and the application's version.
#[derive(Debug, Clone)]
pub struct Telemetry {
    pub scans: u64,
    pub crawls: u64,
    pub first_use: u64,
    pub last_use: u64,
    pub total_seconds: u64,
    pub domains: Vec<String>,
    pub version: String,
}

/// A list of domains after `domain` is seen: added at the end where not yet
/// listed.
pub open spec fn with_domain(seen: Seq<Seq<char>>, domain: Seq<char>) -> Seq<Seq<char>> {
    if seen.contains(domain) {
        seen
    } else {
        seen.push(domain)
    }
}

/// The domains after a scan of `domain` (`with_domain` of the names listed).
pub open spec fn domains_after(domains: Seq<String>, domain: Seq<char>) -> Seq<Seq<char>> {
    with_domain(domains.map_values(|d: String| d@), domain)
}

/// No domain is listed twice.
pub open spec fn domains_distinct(domains: Seq<String>) -> bool {
    forall|i: int, j: int| 0 <= i < j < domains.len() ==> (#[trigger] domains[i])@ != (#[trigger] domains[j])@
}

impl Telemetry {
    /// Fresh counters (`Default`).
    pub fn new() -> (r: Self)
        ensures
            r.scans == 0 && r.crawls == 0 && r.first_use == 0 && r.last_use == 0 && r.total_seconds == 0,
            r.domains@.len() == 0,
            r.version@ == Seq::<char>::empty(),
    {
        Telemetry {
            scans: 0,
            crawls: 0,
            first_use: 0,
            last_use: 0,
            total_seconds: 0,
            domains: Vec::new(),
            version: String::new(),
        }
    }

    /// Records a scan of `domain` at Unix time `now` by the given application
    /// version: one more scan, first use set where none was recorded, last use
    /// `now`, the domain remembered, the version recorded.
    pub fn record_scan(&mut self, domain: &str, now: u64, version: &str)
        requires
            old(self).scans < u64::MAX,
        ensures
            final(self).scans == old(self).scans + 1,
            final(self).crawls == old(self).crawls,
            final(self).total_seconds == old(self).total_seconds,
            final(self).first_use == if old(self).first_use == 0 { now } else { old(self).first_use },
            final(self).last_use == now,
            final(self).domains@.map_values(|d: String| d@) == domains_after(old(self).domains@, domain@),
            domains_distinct(old(self).domains@) ==> domains_distinct(final(self).domains@),
            final(self).version@ == version@,
    {
        self.scans = self.scans + 1;
        if self.first_use == 0 {
            self.first_use = now;
        }
        self.last_use = now;
        let mut seen = false;
        let mut i: usize = 0;
        let ghost names = self.domains@.map_values(|d: String| d@);
        while i < self.domains.len()
            invariant
                i <= self.domains.len(),
                names == self.domains@.map_values(|d: String| d@),
                seen == exists|j: int| 0 <= j < i && #[trigger] names[j] == domain@,
            decreases self.domains.len() - i,
        {
            assert(names[i as int] == self.domains@[i as int]@);
            if str_eq(self.domains[i].as_str(), domain) {
                seen = true;
            }
            proof {
                if !seen {
                    assert forall|j: int| 0 <= j < i + 1 implies #[trigger] names[j] != domain@ by {}
                }
            }
            i = i + 1;
        }
        proof {
            if names.contains(domain@) {
                let j = choose|j: int| 0 <= j < names.len() && names[j] == domain@;
                assert(names[j] == domain@);
            }
        }
        if !seen {
            let ghost before = self.domains@;
            self.domains.push(domain.to_owned());
            assert(self.domains@.map_values(|d: String| d@) =~= before.map_values(|d: String| d@).push(domain@));
            proof {
                assert forall|a: int, b: int| 0 <= a < b < self.domains@.len() && domains_distinct(before) implies
                    (#[trigger] self.domains@[a])@ != (#[trigger] self.domains@[b])@ by {
                    if b == self.domains@.len() - 1 {
                        assert(names[a] == before[a]@);
                    } else {
                        assert(self.domains@[a] == before[a] && self.domains@[b] == before[b]);
                    }
                }
            }
        }
        self.version = version.to_owned();
    }

    /// Records a scan of `domain` now (`record_scan` at the system clock's
    /// time, which becomes the last use, and the first use where none was).
    pub fn track_scan(&mut self, domain: &str, version: &str)
        requires
            old(self).scans < u64::MAX,
        ensures
            final(self).scans == old(self).scans + 1,
            final(self).crawls == old(self).crawls,
            final(self).total_seconds == old(self).total_seconds,
            final(self).domains@.map_values(|d: String| d@) == domains_after(old(self).domains@, domain@),
            final(self).version@ == version@,
            domains_distinct(old(self).domains@) ==> domains_distinct(final(self).domains@),
            final(self).first_use == if old(self).first_use == 0 { final(self).last_use } else { old(self).first_use },
    {
        let now = crate::clock::unix_now_secs();
        self.record_scan(domain, now, version);
    }

    /// Records a crawl of `domain` that took `elapsed_secs` seconds: one more
    /// crawl, the time added, and a scan recorded now (`track_scan`).
    pub fn track_crawl(&mut self, domain: &str, elapsed_secs: u64, version: &str)
        requires
            old(self).scans < u64::MAX,
            old(self).crawls < u64::MAX,
            old(self).total_seconds + elapsed_secs <= u64::MAX,
        ensures
            final(self).scans == old(self).scans + 1,
            final(self).crawls == old(self).crawls + 1,
            final(self).total_seconds == old(self).total_seconds + elapsed_secs,
            final(self).domains@.map_values(|d: String| d@) == domains_after(old(self).domains@, domain@),
            final(self).version@ == version@,
            domains_distinct(old(self).domains@) ==> domains_distinct(final(self).domains@),
            final(self).first_use == if old(self).first_use == 0 { final(self).last_use } else { old(self).first_use },
    {
        self.crawls = self.crawls + 1;
        self.total_seconds = self.total_seconds + elapsed_secs;
        self.track_scan(domain, version);
    }

    /// The usage report: counts, distinct domains, whole hours spent, first
    /// and last use, version.
    pub fn report(&self) -> (r: JsonValue)
        ensures
            r@ == JsonModel::Object(
                Map::empty().insert("scans"@, JsonModel::Int(self.scans as int)).insert(
                    "crawls"@,
                    JsonModel::Int(self.crawls as int),
                ).insert("unique_domains"@, JsonModel::Int(self.domains@.len() as int)).insert(
                    "total_time_hours"@,
                    JsonModel::Int((self.total_seconds / 3600) as int),
                ).insert("first_use"@, JsonModel::Int(self.first_use as int)).insert(
                    "last_use"@,
                    JsonModel::Int(self.last_use as int),
                ).insert("version"@, JsonModel::Str(self.version@)),
            ),
    {
        let mut m: Vec<(String, JsonValue)> = Vec::new();
        assert(object_model(m@) =~= Map::empty());
        obj_insert(&mut m, "scans", JsonValue::Int(self.scans as i128));
        obj_insert(&mut m, "crawls", JsonValue::Int(self.crawls as i128));
        obj_insert(&mut m, "unique_domains", JsonValue::Int(self.domains.len() as i128));
        obj_insert(&mut m, "total_time_hours", JsonValue::Int((self.total_seconds / 3600) as i128));
        obj_insert(&mut m, "first_use", JsonValue::Int(self.first_use as i128));
        obj_insert(&mut m, "last_use", JsonValue::Int(self.last_use as i128));
        obj_insert(&mut m, "version", JsonValue::Str(self.version.clone()));
        JsonValue::Object(m)
    }
}

} // verus!
