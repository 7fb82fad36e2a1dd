//! The local state of published listings: one entry per slug, the
//! checkpointed slugs, change detection and the exported manifest.
use vstd::prelude::*;
use crate::models::{
    copy_opt_string, IndexEntry, IndexEntryV, ManifestEntry, ManifestEntryV, SourceLabel,
    StateFile,
};
use crate::text::{chars_of, decimal, lex_lt, push_str_vec, push_vec, string_of};

verus! {

broadcast use vstd::string::group_string_axioms;

// ---------------------------------------------------------------------------
// Timestamps
// ---------------------------------------------------------------------------

/// Days since 1970-01-01 to (year, month, day) in the proleptic Gregorian
/// calendar (Howard Hinnant's `civil_from_days`).
pub open spec fn civil_spec(days: int) -> (int, int, int) {
    let z = days + 719468;
    let era = if z >= 0 {
        z
    } else {
        z - 146096
    } / 146097;
    let doe = z - era * 146097;
    let yoe = (doe - doe / 1460 + doe / 36524 - doe / 146096) / 365;
    let y = yoe + era * 400;
    let doy = doe - (365 * yoe + yoe / 4 - yoe / 100);
    let mp = (5 * doy + 2) / 153;
    let d = doy - (153 * mp + 2) / 5 + 1;
    let m = if mp < 10 {
        mp + 3
    } else {
        mp - 9
    };
    (if m <= 2 {
        y + 1
    } else {
        y
    }, m, d)
}

/// `n` in decimal, zero-padded to at least `width` digits.
pub open spec fn padded(n: nat, width: nat) -> Seq<char> {
    let s = decimal(n);
    if s.len() >= width {
        s
    } else {
        Seq::new((width - s.len()) as nat, |i: int| '0') + s
    }
}

/// `YYYY-MM-DDTHH:MM:SSZ` for a count of seconds since the Unix epoch.
pub open spec fn rfc3339_spec(secs: nat) -> Seq<char> {
    let (y, m, d) = civil_spec((secs / 86400) as int);
    let rem = secs % 86400;
    padded(y as nat, 4) + seq!['-'] + padded(m as nat, 2) + seq!['-'] + padded(d as nat, 2) + seq!['T']
        + padded(rem / 3600, 2) + seq![':'] + padded((rem % 3600) / 60, 2) + seq![':'] + padded(
        rem % 60,
        2,
    ) + seq!['Z']
}

/// A timestamp of some instant after the epoch.
pub open spec fn is_timestamp(t: Seq<char>) -> bool {
    exists|secs: nat| secs <= u64::MAX && t == rfc3339_spec(secs)
}

/// Seconds since the Unix epoch by the system clock (0 before the epoch).
#[verifier::external_body]
fn unix_seconds() -> (r: u64) {
    std::time::SystemTime::now().duration_since(std::time::UNIX_EPOCH).unwrap_or(
        std::time::Duration::ZERO,
    ).as_secs()
}

fn civil_from_days(z0: i64) -> (r: (i64, u32, u32))
    requires
        0 <= z0 <= 1_000_000_000_000_000,
    ensures
        (r.0 as int, r.1 as int, r.2 as int) == civil_spec(z0 as int),
{
    let z = z0 + 719_468;
    let era = if z >= 0 {
        z
    } else {
        z - 146_096
    } / 146_097;
    assert(0 <= era * 146097 <= z) by (nonlinear_arith)
        requires
            z >= 0,
            era == z / 146097,
    ;
    let doe = (z - era * 146_097) as u64;
    assert(doe < 146097) by (nonlinear_arith)
        requires
            z >= 0,
            era == z / 146097,
            doe == z - era * 146097,
    ;
    let yoe = (doe - doe / 1460 + doe / 36_524 - doe / 146_096) / 365;
    assert(yoe <= 399);
    let y = yoe as i64 + era * 400;
    assert(365 * yoe + yoe / 4 - yoe / 100 <= doe) by (nonlinear_arith)
        requires
            doe < 146097,
            yoe == (doe - doe / 1460 + doe / 36524 - doe / 146096) / 365,
    ;
    let doy = doe - (365 * yoe + yoe / 4 - yoe / 100);
    assert(doy <= 365) by (nonlinear_arith)
        requires
            doe < 146097,
            yoe == (doe - doe / 1460 + doe / 36524 - doe / 146096) / 365,
            doy == doe - (365 * yoe + yoe / 4 - yoe / 100),
    ;
    let mp = (5 * doy + 2) / 153;
    assert(mp <= 11);
    assert((153 * mp + 2) / 5 <= doy) by (nonlinear_arith)
        requires
            mp == (5 * doy + 2) / 153,
    ;
    let d = (doy - (153 * mp + 2) / 5 + 1) as u32;
    let m = if mp < 10 {
        mp + 3
    } else {
        mp - 9
    } as u32;
    (if m <= 2 {
        y + 1
    } else {
        y
    }, m, d)
}

fn padded_vec(n: u64, width: usize) -> (r: Vec<char>)
    ensures
        r@ == padded(n as nat, width as nat),
{
    let s = crate::text::decimal_vec(n);
    if s.len() >= width {
        return s;
    }
    let mut r: Vec<char> = Vec::new();
    let k = width - s.len();
    let mut i: usize = 0;
    while i < k
        invariant
            i <= k,
            r@ == Seq::new(i as nat, |j: int| '0'),
        decreases k - i,
    {
        r.push('0');
        assert(r@ =~= Seq::new((i + 1) as nat, |j: int| '0'));
        i += 1;
    }
    push_vec(&mut r, &s);
    r
}

/// The timestamp of `secs` seconds after the Unix epoch.
pub fn rfc3339_from_secs(secs: u64) -> (r: String)
    ensures
        r@ == rfc3339_spec(secs as nat),
{
    let days = secs / 86_400;
    let (y, mo, d) = civil_from_days(days as i64);
    let rem = secs % 86_400;
    assert(y >= 0) by (nonlinear_arith)
        requires
            (y as int, mo as int, d as int) == civil_spec(days as int),
            days >= 0,
    {
        let z = days + 719468;
        assert(z / 146097 >= 0);
    }
    let mut out = padded_vec(y as u64, 4);
    out.push('-');
    push_vec(&mut out, &padded_vec(mo as u64, 2));
    out.push('-');
    push_vec(&mut out, &padded_vec(d as u64, 2));
    out.push('T');
    push_vec(&mut out, &padded_vec(rem / 3600, 2));
    out.push(':');
    push_vec(&mut out, &padded_vec((rem % 3600) / 60, 2));
    out.push(':');
    push_vec(&mut out, &padded_vec(rem % 60, 2));
    out.push('Z');
    string_of(&out)
}

/// RFC 3339 UTC timestamp of the current time, seconds precision.
pub fn now_rfc3339() -> (r: String)
    ensures
        is_timestamp(r@),
{
    let secs = unix_seconds();
    let r = rfc3339_from_secs(secs);
    assert(r@ == rfc3339_spec(secs as nat));
    r
}

} // verus!

verus! {

// ---------------------------------------------------------------------------
// Entries
// ---------------------------------------------------------------------------

pub open spec fn entries_view(es: Seq<IndexEntry>) -> Seq<IndexEntryV> {
    es.map_values(|e: IndexEntry| e@)
}

/// No two entries share a slug.
pub open spec fn slugs_distinct(es: Seq<IndexEntryV>) -> bool {
    forall|i: int, j: int| 0 <= i < j < es.len() ==> es[i].slug != es[j].slug
}

/// Where the entry of `slug` is, searching from `k` on.
pub open spec fn position_from(es: Seq<IndexEntryV>, slug: Seq<char>, k: int) -> Option<int>
    decreases es.len() - k,
{
    if k < 0 || k >= es.len() {
        None
    } else if es[k].slug == slug {
        Some(k)
    } else {
        position_from(es, slug, k + 1)
    }
}

pub open spec fn position(es: Seq<IndexEntryV>, slug: Seq<char>) -> Option<int> {
    position_from(es, slug, 0)
}

/// The entry recorded for `slug`.
pub open spec fn lookup(es: Seq<IndexEntryV>, slug: Seq<char>) -> Option<IndexEntryV> {
    match position(es, slug) {
        Some(i) => Some(es[i]),
        None => None,
    }
}

/// `e` recorded under its slug: replacing the entry there, else added.
pub open spec fn put_entry(es: Seq<IndexEntryV>, e: IndexEntryV) -> Seq<IndexEntryV> {
    match position(es, e.slug) {
        Some(i) => es.update(i, e),
        None => es.push(e),
    }
}

pub proof fn lemma_position_from(es: Seq<IndexEntryV>, slug: Seq<char>, k: int)
    ensures
        position_from(es, slug, k) matches Some(i) ==> k <= i < es.len() && es[i].slug == slug,
        position_from(es, slug, k) is None && k >= 0 ==> forall|j: int|
            k <= j < es.len() ==> es[j].slug != slug,
    decreases es.len() - k,
{
    if 0 <= k < es.len() && es[k].slug != slug {
        lemma_position_from(es, slug, k + 1);
    }
}

/// What a later read gives back of a write: the entry just recorded, and
/// for every other slug what was there before; slugs stay distinct.
pub proof fn lemma_put_lookup(es: Seq<IndexEntryV>, e: IndexEntryV, other: Seq<char>)
    requires
        slugs_distinct(es),
    ensures
        lookup(put_entry(es, e), e.slug) == Some(e),
        other != e.slug ==> lookup(put_entry(es, e), other) == lookup(es, other),
        slugs_distinct(put_entry(es, e)),
{
    lemma_position_from(es, e.slug, 0);
    lemma_position_from(es, other, 0);
    let p = put_entry(es, e);
    lemma_position_from(p, e.slug, 0);
    lemma_position_from(p, other, 0);
    match position(es, e.slug) {
        Some(i) => {
            assert(p[i].slug == e.slug);
            if position(p, e.slug) != Some(i) {
                let q = position(p, e.slug).unwrap();
                assert(p[q] == es[q]);
            }
            if other != e.slug {
                match position(es, other) {
                    Some(j) => {
                        assert(p[j] == es[j]);
                        if position(p, other) != Some(j) {
                            let q = position(p, other).unwrap();
                            assert(p[q] == es[q]);
                        }
                    },
                    None => {
                        if position(p, other) is Some {
                            let q = position(p, other).unwrap();
                            assert(p[q] == es[q]);
                        }
                    },
                }
            }
        },
        None => {
            let n = es.len() as int;
            assert(p[n] == e);
            if position(p, e.slug) != Some(n) {
                let q = position(p, e.slug).unwrap();
                assert(p[q] == es[q]);
            }
            if other != e.slug {
                match position(es, other) {
                    Some(j) => {
                        assert(p[j] == es[j]);
                        if position(p, other) != Some(j) {
                            let q = position(p, other).unwrap();
                            assert(p[q] == es[q]);
                        }
                    },
                    None => {
                        if position(p, other) is Some {
                            let q = position(p, other).unwrap();
                            if q < n {
                                assert(p[q] == es[q]);
                            }
                        }
                    },
                }
            }
        },
    }
}

/// Whether the latest candidate differs from the last published record.
pub open spec fn has_changes_spec(
    es: Seq<IndexEntryV>,
    slug: Seq<char>,
    version: Option<Seq<char>>,
    source: SourceLabel,
) -> bool {
    match lookup(es, slug) {
        Some(e) => !(e.last_download_source == Some(source) && e.last_version == version),
        None => true,
    }
}

/// The published-listing state.
pub struct Index {
    /// One entry per slug.
    pub entries: Vec<IndexEntry>,
    /// Slugs completed in the current run (no repeats).
    pub checkpointed: Vec<String>,
    /// Where the state file lives, if anywhere.
    pub state_path: Option<String>,
}

impl Index {
    pub open spec fn entries_v(&self) -> Seq<IndexEntryV> {
        entries_view(self.entries@)
    }

    pub open spec fn checkpoints(&self) -> Set<Seq<char>> {
        self.checkpointed@.map_values(|s: String| s@).to_set()
    }

    /// Well-formed: slugs are distinct.
    pub open spec fn wf(&self) -> bool {
        slugs_distinct(self.entries_v())
    }

    /// An empty state that will be saved at `state_path`.
    pub fn new(state_path: Option<String>) -> (r: Index)
        ensures
            r.wf(),
            r.entries_v().len() == 0,
            r.checkpoints() == Set::<Seq<char>>::empty(),
            r.state_path.deep_view() == state_path.deep_view(),
    {
        let r = Index { entries: Vec::new(), checkpointed: Vec::new(), state_path };
        assert(r.entries_v() =~= Seq::<IndexEntryV>::empty());
        assert(r.checkpointed@.map_values(|s: String| s@) =~= Seq::<Seq<char>>::empty());
        r
    }

    /// Forget every entry and checkpoint (a reset); the state keeps its path.
    pub fn clear(&mut self)
        ensures
            final(self).wf(),
            final(self).entries_v().len() == 0,
            final(self).checkpoints() == Set::<Seq<char>>::empty(),
            final(self).state_path == old(self).state_path,
    {
        self.entries = Vec::new();
        self.checkpointed = Vec::new();
        assert(self.entries_v() =~= Seq::<IndexEntryV>::empty());
        assert(self.checkpointed@.map_values(|s: String| s@) =~= Seq::<Seq<char>>::empty());
    }

    fn position_of(&self, slug: &str) -> (r: Option<usize>)
        ensures
            r matches Some(i) ==> position(self.entries_v(), slug@) == Some(i as int) && i < self.entries.len(),
            r is None ==> position(self.entries_v(), slug@) is None,
    {
        let mut i: usize = 0;
        while i < self.entries.len()
            invariant
                i <= self.entries.len(),
                position(self.entries_v(), slug@) == position_from(self.entries_v(), slug@, i as int),
            decreases self.entries.len() - i,
        {
            assert(self.entries_v()[i as int] == self.entries@[i as int]@);
            if crate::text::str_eq(self.entries[i].slug.as_str(), slug) {
                return Some(i);
            }
            i += 1;
        }
        None
    }

    /// The entry recorded for `slug`.
    pub fn entry(&self, slug: &str) -> (r: Option<&IndexEntry>)
        ensures
            match r {
                Some(e) => lookup(self.entries_v(), slug@) == Some(e@),
                None => lookup(self.entries_v(), slug@) is None,
            },
    {
        match self.position_of(slug) {
            Some(i) => {
                assert(self.entries_v()[i as int] == self.entries@[i as int]@);
                Some(&self.entries[i])
            },
            None => None,
        }
    }

    fn put(&mut self, e: IndexEntry)
        requires
            old(self).wf(),
        ensures
            final(self).wf(),
            final(self).entries_v() == put_entry(old(self).entries_v(), e@),
            final(self).checkpointed@ == old(self).checkpointed@,
            final(self).state_path == old(self).state_path,
    {
        let ghost es = self.entries_v();
        let ghost ev = e@;
        proof {
            lemma_put_lookup(es, ev, ev.slug);
        }
        match self.position_of(e.slug.as_str()) {
            Some(i) => {
                self.entries.set(i, e);
                assert(self.entries_v() =~= es.update(i as int, ev));
            },
            None => {
                self.entries.push(e);
                assert(self.entries_v() =~= es.push(ev));
            },
        }
    }

    /// Record the last published version, source and title for a slug
    /// (not yet confirmed on the site); the first record's time is kept.
    pub fn remember(
        &mut self,
        slug: &str,
        title: Option<String>,
        version: Option<String>,
        source: Option<SourceLabel>,
    )
        requires
            old(self).wf(),
        ensures
            final(self).wf(),
            exists|t: Seq<char>|
                is_timestamp(t) && final(self).entries_v() == put_entry(
                    old(self).entries_v(),
                    IndexEntryV {
                        slug: slug@,
                        title: title.deep_view(),
                        last_version: version.deep_view(),
                        last_download_source: source,
                        published_at: match lookup(old(self).entries_v(), slug@) {
                            Some(x) => x.published_at,
                            None => Some(t),
                        },
                        verified: false,
                    },
                ),
            final(self).checkpoints() == old(self).checkpoints(),
    {
        self.record(slug, title, version, source, false);
    }

    fn record(
        &mut self,
        slug: &str,
        title: Option<String>,
        version: Option<String>,
        source: Option<SourceLabel>,
        verified: bool,
    )
        requires
            old(self).wf(),
        ensures
            final(self).wf(),
            exists|t: Seq<char>|
                is_timestamp(t) && final(self).entries_v() == put_entry(
                    old(self).entries_v(),
                    IndexEntryV {
                        slug: slug@,
                        title: title.deep_view(),
                        last_version: version.deep_view(),
                        last_download_source: source,
                        published_at: match lookup(old(self).entries_v(), slug@) {
                            Some(x) => x.published_at,
                            None => Some(t),
                        },
                        verified: verified,
                    },
                ),
            final(self).checkpoints() == old(self).checkpoints(),
    {
        let published_at = match self.entry(slug) {
            Some(existing) => copy_opt_string(&existing.published_at),
            None => Some(now_rfc3339()),
        };
        let ghost t = match published_at.deep_view() {
            Some(x) => x,
            None => Seq::<char>::empty(),
        };
        let ghost witness = if lookup(self.entries_v(), slug@) is Some {
            rfc3339_spec(0)
        } else {
            t
        };
        proof {
            assert(is_timestamp(rfc3339_spec(0)));
        }
        let e = IndexEntry {
            slug: String::from_str(slug),
            title,
            last_version: version,
            last_download_source: source,
            published_at,
            verified,
        };
        self.put(e);
        assert(is_timestamp(witness));
    }

    /// Record a listing after a confirmed create/patch on the site.
    pub fn remember_verified(
        &mut self,
        slug: &str,
        title: Option<String>,
        version: Option<String>,
        source: Option<SourceLabel>,
    )
        requires
            old(self).wf(),
        ensures
            final(self).wf(),
            exists|t: Seq<char>|
                is_timestamp(t) && final(self).entries_v() == put_entry(
                    old(self).entries_v(),
                    IndexEntryV {
                        slug: slug@,
                        title: title.deep_view(),
                        last_version: version.deep_view(),
                        last_download_source: source,
                        published_at: match lookup(old(self).entries_v(), slug@) {
                            Some(x) => x.published_at,
                            None => Some(t),
                        },
                        verified: true,
                    },
                ),
            final(self).checkpoints() == old(self).checkpoints(),
    {
        self.record(slug, title, version, source, true);
    }

    /// Mark a slug as done in this run.
    pub fn checkpoint(&mut self, slug: &str)
        ensures
            final(self).checkpoints() == old(self).checkpoints().insert(slug@),
            final(self).entries@ == old(self).entries@,
            final(self).state_path == old(self).state_path,
    {
        let ghost before = self.checkpointed@.map_values(|s: String| s@);
        if !self.has_been_checkpointed(slug) {
            self.checkpointed.push(String::from_str(slug));
            assert(self.checkpointed@.map_values(|s: String| s@) =~= before.push(slug@));
            proof {
                before.lemma_push_to_set_commute(slug@);
            }
        } else {
            assert(before.to_set().insert(slug@) =~= before.to_set());
        }
    }

    pub fn has_been_checkpointed(&self, slug: &str) -> (r: bool)
        ensures
            r == self.checkpoints().contains(slug@),
    {
        let ghost cs = self.checkpointed@.map_values(|s: String| s@);
        let mut i: usize = 0;
        while i < self.checkpointed.len()
            invariant
                i <= self.checkpointed.len(),
                cs == self.checkpointed@.map_values(|s: String| s@),
                forall|j: int| 0 <= j < i ==> cs[j] != slug@,
            decreases self.checkpointed.len() - i,
        {
            if crate::text::str_eq(self.checkpointed[i].as_str(), slug) {
                assert(cs[i as int] == slug@);
                assert(cs.contains(slug@));
                return true;
            }
            i += 1;
        }
        assert(!cs.contains(slug@));
        false
    }

    /// Whether the latest candidate differs from the last published record.
    pub fn has_changes(&self, slug: &str, version: Option<&str>, source: &SourceLabel) -> (r: bool)
        ensures
            r == has_changes_spec(self.entries_v(), slug@, crate::seo::opt_str(version), *source),
    {
        match self.entry(slug) {
            Some(entry) => {
                let same_source = match entry.last_download_source {
                    Some(s) => s == *source,
                    None => false,
                };
                let same_version = match (&entry.last_version, version) {
                    (Some(a), Some(b)) => crate::text::str_eq(a.as_str(), b),
                    (None, None) => true,
                    _ => false,
                };
                !(same_source && same_version)
            },
            None => true,
        }
    }

    /// Mark an existing entry as confirmed on the site.
    pub fn mark_verified(&mut self, slug: &str)
        requires
            old(self).wf(),
        ensures
            final(self).wf(),
            final(self).entries_v() == match lookup(old(self).entries_v(), slug@) {
                Some(e) => put_entry(old(self).entries_v(), IndexEntryV { verified: true, ..e }),
                None => old(self).entries_v(),
            },
            final(self).checkpoints() == old(self).checkpoints(),
    {
        match self.position_of(slug) {
            Some(i) => {
                let mut e = self.entries[i].duplicate();
                e.verified = true;
                proof {
                    lemma_position_from(self.entries_v(), slug@, 0);
                }
                self.put(e);
            },
            None => {},
        }
    }

    /// Slugs present in state but never confirmed against the live site.
    pub fn unverified(&self) -> (r: Vec<String>)
        ensures
            r.deep_view() == unverified_spec(self.entries_v()),
    {
        let ghost es = self.entries_v();
        let mut out: Vec<String> = Vec::new();
        let mut i: usize = 0;
        assert(es.take(0) =~= Seq::<IndexEntryV>::empty());
        while i < self.entries.len()
            invariant
                i <= self.entries.len(),
                es == self.entries_v(),
                out.deep_view() == unverified_spec(es.take(i as int)),
            decreases self.entries.len() - i,
        {
            assert(es.take(i + 1).drop_last() =~= es.take(i as int));
            assert(es.take(i + 1).last() == self.entries@[i as int]@);
            if !self.entries[i].verified {
                let ghost before = out.deep_view();
                out.push(self.entries[i].slug.clone());
                assert(out.deep_view() =~= before.push(self.entries@[i as int]@.slug));
            }
            i += 1;
        }
        assert(es.take(self.entries.len() as int) =~= es);
        out
    }

    /// Reconcile: mark verified if present (filling a missing title),
    /// otherwise record a new verified entry for a listing confirmed on the
    /// site.
    pub fn verify_or_insert(&mut self, slug: &str, title: Option<String>)
        requires
            old(self).wf(),
        ensures
            final(self).wf(),
            match lookup(old(self).entries_v(), slug@) {
                Some(e) => final(self).entries_v() == put_entry(
                    old(self).entries_v(),
                    IndexEntryV {
                        verified: true,
                        title: if e.title is None {
                            title.deep_view()
                        } else {
                            e.title
                        },
                        ..e
                    },
                ),
                None => exists|t: Seq<char>|
                    is_timestamp(t) && final(self).entries_v() == put_entry(
                        old(self).entries_v(),
                        IndexEntryV {
                            slug: slug@,
                            title: title.deep_view(),
                            last_version: None,
                            last_download_source: None,
                            published_at: Some(t),
                            verified: true,
                        },
                    ),
            },
            final(self).checkpoints() == old(self).checkpoints(),
    {
        match self.position_of(slug) {
            Some(i) => {
                let mut e = self.entries[i].duplicate();
                e.verified = true;
                if e.title.is_none() {
                    e.title = title;
                }
                proof {
                    lemma_position_from(self.entries_v(), slug@, 0);
                }
                self.put(e);
            },
            None => {
                let now = now_rfc3339();
                let e = IndexEntry {
                    slug: String::from_str(slug),
                    title,
                    last_version: None,
                    last_download_source: None,
                    published_at: Some(now),
                    verified: true,
                };
                self.put(e);
            },
        }
    }

    /// The state built from a parsed state file: every entry recorded under
    /// its slug (a later entry for the same slug replaces an earlier one)
    /// and the checkpointed slugs.
    pub fn from_state(state: StateFile, state_path: Option<String>) -> (r: Index)
        ensures
            r.wf(),
            r.entries_v() == put_all(Seq::empty(), entries_view(state.index@)),
            r.checkpoints() == state.checkpoint@.map_values(|s: String| s@).to_set(),
            r.state_path.deep_view() == state_path.deep_view(),
    {
        let mut idx = Index::new(state_path);
        let ghost all = entries_view(state.index@);
        let mut i: usize = 0;
        assert(all.take(0) =~= Seq::<IndexEntryV>::empty());
        while i < state.index.len()
            invariant
                i <= state.index.len(),
                all == entries_view(state.index@),
                idx.wf(),
                idx.entries_v() == put_all(Seq::empty(), all.take(i as int)),
                idx.checkpoints() == Set::<Seq<char>>::empty(),
                idx.state_path.deep_view() == state_path.deep_view(),
            decreases state.index.len() - i,
        {
            assert(all.take(i + 1).drop_last() =~= all.take(i as int));
            assert(all.take(i + 1).last() == state.index@[i as int]@);
            idx.put(state.index[i].duplicate());
            i += 1;
        }
        assert(all.take(state.index.len() as int) =~= all);
        let ghost before = idx.checkpoints();
        let mut k: usize = 0;
        let ghost cs = state.checkpoint@.map_values(|s: String| s@);
        assert(cs.take(0).to_set() =~= Set::<Seq<char>>::empty());
        while k < state.checkpoint.len()
            invariant
                k <= state.checkpoint.len(),
                cs == state.checkpoint@.map_values(|s: String| s@),
                idx.wf(),
                idx.entries_v() == put_all(Seq::empty(), all),
                idx.checkpoints() == cs.take(k as int).to_set(),
                idx.state_path.deep_view() == state_path.deep_view(),
            decreases state.checkpoint.len() - k,
        {
            idx.checkpoint(state.checkpoint[k].as_str());
            assert(cs.take(k + 1) =~= cs.take(k as int).push(cs[k as int]));
            proof {
                cs.take(k as int).lemma_push_to_set_commute(cs[k as int]);
            }
            k += 1;
        }
        assert(cs.take(state.checkpoint.len() as int) =~= cs);
        idx
    }

    /// The state file to write: entries, checkpoints and the run time.
    pub fn state_file(&self, last_run_at: Option<String>) -> (r: StateFile)
        ensures
            entries_view(r.index@) == self.entries_v(),
            r.checkpoint@.map_values(|s: String| s@) == self.checkpointed@.map_values(|s: String| s@),
            r.last_run_at.deep_view() == last_run_at.deep_view(),
    {
        let mut index: Vec<IndexEntry> = Vec::new();
        let mut i: usize = 0;
        while i < self.entries.len()
            invariant
                i <= self.entries.len(),
                index.len() == i,
                forall|k: int| 0 <= k < i ==> #[trigger] index@[k]@ == self.entries@[k]@,
            decreases self.entries.len() - i,
        {
            index.push(self.entries[i].duplicate());
            i += 1;
        }
        assert(entries_view(index@) =~= self.entries_v());
        let checkpoint = crate::models::copy_strings(&self.checkpointed);
        assert(checkpoint@.map_values(|s: String| s@) =~= checkpoint.deep_view());
        assert(self.checkpointed@.map_values(|s: String| s@) =~= self.checkpointed.deep_view());
        StateFile { last_run_at, index, checkpoint }
    }
}

/// Every entry recorded in order.
pub open spec fn put_all(acc: Seq<IndexEntryV>, es: Seq<IndexEntryV>) -> Seq<IndexEntryV>
    decreases es.len(),
{
    if es.len() == 0 {
        acc
    } else {
        put_entry(put_all(acc, es.drop_last()), es.last())
    }
}

/// The slugs of the unconfirmed entries, in entry order.
pub open spec fn unverified_spec(es: Seq<IndexEntryV>) -> Seq<Seq<char>>
    decreases es.len(),
{
    if es.len() == 0 {
        Seq::empty()
    } else if !es.last().verified {
        unverified_spec(es.drop_last()).push(es.last().slug)
    } else {
        unverified_spec(es.drop_last())
    }
}

} // verus!

verus! {

// ---------------------------------------------------------------------------
// Manifest
// ---------------------------------------------------------------------------

/// The manifest row of an entry.
pub open spec fn manifest_row(e: IndexEntryV) -> ManifestEntryV {
    ManifestEntryV {
        slug: e.slug,
        title: e.title,
        version: e.last_version,
        source: match e.last_download_source {
            Some(s) => Some(s.name_spec()),
            None => None,
        },
        published_at: e.published_at,
    }
}

/// `x` inserted before the first row whose slug sorts after its own.
pub open spec fn row_insert(sorted: Seq<ManifestEntryV>, x: ManifestEntryV) -> Seq<ManifestEntryV>
    decreases sorted.len(),
{
    if sorted.len() == 0 {
        seq![x]
    } else if lex_lt(x.slug, sorted[0].slug) {
        seq![x] + sorted
    } else {
        seq![sorted[0]] + row_insert(sorted.drop_first(), x)
    }
}

/// The rows of all entries, sorted by slug.
pub open spec fn manifest_spec(es: Seq<IndexEntryV>) -> Seq<ManifestEntryV>
    decreases es.len(),
{
    if es.len() == 0 {
        Seq::empty()
    } else {
        row_insert(manifest_spec(es.drop_last()), manifest_row(es.last()))
    }
}

pub open spec fn rows_view(rs: Seq<ManifestEntry>) -> Seq<ManifestEntryV> {
    rs.map_values(|r: ManifestEntry| r@)
}

fn manifest_row_of(e: &IndexEntry) -> (r: ManifestEntry)
    ensures
        r@ == manifest_row(e@),
{
    ManifestEntry {
        slug: e.slug.clone(),
        title: copy_opt_string(&e.title),
        version: copy_opt_string(&e.last_version),
        source: match e.last_download_source {
            Some(s) => Some(s.name()),
            None => None,
        },
        published_at: copy_opt_string(&e.published_at),
    }
}

fn row_insert_vec(sorted: &mut Vec<ManifestEntry>, x: ManifestEntry)
    ensures
        rows_view(final(sorted)@) == row_insert(rows_view(old(sorted)@), x@),
{
    let ghost sv = rows_view(sorted@);
    let ghost xv = x@;
    let xs = chars_of(x.slug.as_str());
    let mut p: usize = 0;
    assert(sv.skip(0) =~= sv);
    while p < sorted.len() && !crate::text::lex_less(&xs, &chars_of(sorted[p].slug.as_str()))
        invariant
            p <= sorted.len(),
            sv == rows_view(sorted@),
            xv == x@,
            xs@ == x.slug@,
            row_insert(sv, xv) == sv.take(p as int) + row_insert(sv.skip(p as int), xv),
        decreases sorted.len() - p,
    {
        assert(sv.skip(p as int)[0] == sv[p as int]);
        assert(sv.skip(p as int).drop_first() =~= sv.skip(p + 1));
        assert(sv.take(p + 1) =~= sv.take(p as int) + seq![sv[p as int]]);
        assert(sv.take(p as int) + (seq![sv[p as int]] + row_insert(sv.skip(p + 1), xv)) =~= sv.take(
            p + 1,
        ) + row_insert(sv.skip(p + 1), xv));
        p += 1;
    }
    if p < sorted.len() {
        assert(sv.skip(p as int)[0] == sv[p as int]);
    } else {
        assert(sv.skip(p as int) =~= Seq::<ManifestEntryV>::empty());
    }
    sorted.insert(p, x);
    assert(rows_view(sorted@) =~= sv.take(p as int) + (seq![xv] + sv.skip(p as int)));
}

/// A name that is one plain path component: not empty, no separator of
/// either platform, and neither `.` nor `..`.
pub open spec fn plain_file_name(name: Seq<char>) -> bool {
    &&& name.len() > 0
    &&& forall|i: int| 0 <= i < name.len() ==> name[i] != '/' && name[i] != '\\'
    &&& name != seq!['.']
    &&& name != seq!['.', '.']
}

/// The file-name replacement of a path (`Path::with_file_name`, then
/// `to_string_lossy`). `with_file_name` drops the last component when there
/// is one and pushes the name; either way the text ends with the name. What
/// comes before it follows the platform's path syntax and is not stated.
#[verifier::external_body]
fn path_with_file_name(path: &str, name: &str) -> (r: String)
    requires
        plain_file_name(name@),
    ensures
        crate::text::ends_with(r@, name@),
{
    std::path::Path::new(path).with_file_name(name).to_string_lossy().into_owned()
}

impl Index {
    /// The published list for the update-check workflow, sorted by slug.
    pub fn manifest(&self) -> (r: Vec<ManifestEntry>)
        ensures
            rows_view(r@) == manifest_spec(self.entries_v()),
    {
        let ghost es = self.entries_v();
        let mut rows: Vec<ManifestEntry> = Vec::new();
        let mut i: usize = 0;
        assert(es.take(0) =~= Seq::<IndexEntryV>::empty());
        assert(rows_view(rows@) =~= Seq::<ManifestEntryV>::empty());
        while i < self.entries.len()
            invariant
                i <= self.entries.len(),
                es == self.entries_v(),
                rows_view(rows@) == manifest_spec(es.take(i as int)),
            decreases self.entries.len() - i,
        {
            assert(es.take(i + 1).drop_last() =~= es.take(i as int));
            assert(es.take(i + 1).last() == self.entries@[i as int]@);
            row_insert_vec(&mut rows, manifest_row_of(&self.entries[i]));
            i += 1;
        }
        assert(es.take(self.entries.len() as int) =~= es);
        rows
    }

    /// Where the published-games manifest is written: beside the state file.
    pub fn manifest_path(&self) -> (r: Option<String>)
        ensures
            r is Some <==> self.state_path is Some,
            r matches Some(m) ==> crate::text::ends_with(m@, "published-games.json"@),
    {
        proof {
            reveal_strlit("published-games.json");
            let n = "published-games.json"@;
            assert(n.len() == 20);
            assert forall|i: int| 0 <= i < n.len() implies n[i] != '/' && n[i] != '\\' by {
                assert(0 <= i < 20);
            }
            assert(n != seq!['.']);
            assert(n != seq!['.', '.']);
        }
        match &self.state_path {
            Some(p) => Some(path_with_file_name(p.as_str(), "published-games.json")),
            None => None,
        }
    }
}

// ---------------------------------------------------------------------------
// Laws
// ---------------------------------------------------------------------------

/// Once a slug is recorded with a version and source, the same version and
/// source are no change; another version or another source is one.
pub proof fn lemma_record_then_changes(
    es: Seq<IndexEntryV>,
    e: IndexEntryV,
    version: Option<Seq<char>>,
    source: SourceLabel,
)
    requires
        slugs_distinct(es),
    ensures
        e.last_version == version && e.last_download_source == Some(source) ==> !has_changes_spec(
            put_entry(es, e),
            e.slug,
            version,
            source,
        ),
        e.last_version != version ==> has_changes_spec(put_entry(es, e), e.slug, version, source),
        e.last_download_source != Some(source) ==> has_changes_spec(
            put_entry(es, e),
            e.slug,
            version,
            source,
        ),
{
    lemma_put_lookup(es, e, e.slug);
}

/// A slug never recorded is always a change.
pub proof fn lemma_unknown_is_change(
    es: Seq<IndexEntryV>,
    slug: Seq<char>,
    version: Option<Seq<char>>,
    source: SourceLabel,
)
    requires
        forall|i: int| 0 <= i < es.len() ==> es[i].slug != slug,
    ensures
        has_changes_spec(es, slug, version, source),
{
    lemma_position_from(es, slug, 0);
}

proof fn lemma_position_drop_last(es: Seq<IndexEntryV>, slug: Seq<char>, k: int)
    requires
        es.len() > 0,
        es.last().slug != slug,
        k >= 0,
    ensures
        position_from(es, slug, k) == position_from(es.drop_last(), slug, k),
    decreases es.len() - k,
{
    if k < es.len() - 1 {
        assert(es.drop_last()[k] == es[k]);
        if es[k].slug != slug {
            lemma_position_drop_last(es, slug, k + 1);
        }
    } else if k == es.len() - 1 {
        assert(position_from(es, slug, k + 1) is None);
    }
}

/// Reading back a saved state gives every entry as it was saved: the
/// entries, recorded one by one under their slugs, answer every lookup as
/// the saved entries did (and their slugs stay distinct).
pub proof fn lemma_reload_lookup(es: Seq<IndexEntryV>, slug: Seq<char>)
    requires
        slugs_distinct(es),
    ensures
        slugs_distinct(put_all(Seq::empty(), es)),
        lookup(put_all(Seq::empty(), es), slug) == lookup(es, slug),
    decreases es.len(),
{
    if es.len() > 0 {
        let p = es.drop_last();
        let e = es.last();
        assert(slugs_distinct(p));
        lemma_reload_lookup(p, slug);
        lemma_reload_lookup(p, e.slug);
        lemma_put_lookup(put_all(Seq::empty(), p), e, slug);
        if slug == e.slug {
            lemma_position_from(es, slug, 0);
            assert(es[es.len() - 1].slug == slug);
            assert(position_from(es, slug, 0) is Some) by {
                if position_from(es, slug, 0) is None {
                    assert(es[es.len() - 1].slug != slug);
                }
            }
        } else {
            lemma_position_drop_last(es, slug, 0);
            lemma_position_from(es, slug, 0);
            if position(es, slug) is Some {
                let i = position(es, slug).unwrap();
                assert(p[i] == es[i]);
            }
        }
    }
}

/// The manifest holds one row per entry.
/// Rows in slug order: no row's slug sorts before an earlier row's.
pub open spec fn slug_sorted(rs: Seq<ManifestEntryV>) -> bool {
    forall|i: int, j: int| 0 <= i < j < rs.len() ==> !lex_lt(#[trigger] rs[j].slug, #[trigger] rs[i].slug)
}

pub open spec fn has_row(rs: Seq<ManifestEntryV>, x: ManifestEntryV) -> bool {
    exists|k: int| 0 <= k < rs.len() && rs[k] == x
}

proof fn lemma_row_insert(sorted: Seq<ManifestEntryV>, x: ManifestEntryV)
    ensures
        row_insert(sorted, x).len() == sorted.len() + 1,
        has_row(row_insert(sorted, x), x),
        forall|j: int| 0 <= j < sorted.len() ==> has_row(row_insert(sorted, x), #[trigger] sorted[j]),
        forall|k: int|
            0 <= k < row_insert(sorted, x).len() ==> #[trigger] row_insert(sorted, x)[k] == x || has_row(
                sorted,
                row_insert(sorted, x)[k],
            ),
        slug_sorted(sorted) ==> slug_sorted(row_insert(sorted, x)),
    decreases sorted.len(),
{
    let r = row_insert(sorted, x);
    if sorted.len() == 0 {
        assert(r[0] == x);
    } else if lex_lt(x.slug, sorted[0].slug) {
        assert(r == seq![x] + sorted);
        assert(r[0] == x);
        assert forall|j: int| 0 <= j < sorted.len() implies has_row(r, #[trigger] sorted[j]) by {
            assert(r[j + 1] == sorted[j]);
        }
        assert forall|k: int| 0 <= k < r.len() implies #[trigger] r[k] == x || has_row(sorted, r[k]) by {
            if k > 0 {
                assert(r[k] == sorted[k - 1]);
            }
        }
        if slug_sorted(sorted) {
            assert forall|i: int, j: int| 0 <= i < j < r.len() implies !lex_lt(#[trigger] r[j].slug, #[trigger] r[i].slug) by {
                if i == 0 {
                    let y = sorted[j - 1];
                    assert(r[j] == y);
                    if j - 1 == 0 {
                        crate::text::lemma_lex_asym(x.slug, sorted[0].slug);
                    } else {
                        assert(!lex_lt(sorted[j - 1].slug, sorted[0].slug));
                        crate::text::lemma_lex_total(sorted[0].slug, y.slug);
                        if y.slug != sorted[0].slug {
                            crate::text::lemma_lex_trans(x.slug, sorted[0].slug, y.slug);
                        }
                        crate::text::lemma_lex_asym(x.slug, y.slug);
                    }
                } else {
                    assert(r[i] == sorted[i - 1]);
                    assert(r[j] == sorted[j - 1]);
                }
            }
        }
    } else {
        let rest = sorted.drop_first();
        let t = row_insert(rest, x);
        lemma_row_insert(rest, x);
        assert(r == seq![sorted[0]] + t);
        assert(r[0] == sorted[0]);
        let kx = choose|k: int| 0 <= k < t.len() && t[k] == x;
        assert(r[kx + 1] == x);
        assert forall|j: int| 0 <= j < sorted.len() implies has_row(r, #[trigger] sorted[j]) by {
            if j > 0 {
                assert(rest[j - 1] == sorted[j]);
                assert(has_row(t, rest[j - 1]));
                let k = choose|k: int| 0 <= k < t.len() && t[k] == rest[j - 1];
                assert(r[k + 1] == sorted[j]);
            }
        }
        assert forall|k: int| 0 <= k < r.len() implies #[trigger] r[k] == x || has_row(sorted, r[k]) by {
            if k > 0 {
                assert(r[k] == t[k - 1]);
                if t[k - 1] != x {
                    assert(has_row(rest, t[k - 1]));
                    let j = choose|j: int| 0 <= j < rest.len() && rest[j] == t[k - 1];
                    assert(sorted[j + 1] == rest[j]);
                }
            }
        }
        if slug_sorted(sorted) {
            assert(slug_sorted(rest)) by {
                assert forall|i: int, j: int| 0 <= i < j < rest.len() implies !lex_lt(#[trigger] rest[j].slug, #[trigger] rest[i].slug) by {
                    assert(rest[i] == sorted[i + 1]);
                    assert(rest[j] == sorted[j + 1]);
                }
            }
            assert forall|i: int, j: int| 0 <= i < j < r.len() implies !lex_lt(#[trigger] r[j].slug, #[trigger] r[i].slug) by {
                assert(r[j] == t[j - 1]);
                if i == 0 {
                    if t[j - 1] != x {
                        assert(has_row(rest, t[j - 1]));
                        let q = choose|q: int| 0 <= q < rest.len() && rest[q] == t[j - 1];
                        assert(sorted[q + 1] == rest[q]);
                    }
                } else {
                    assert(r[i] == t[i - 1]);
                }
            }
        }
    }
}

proof fn lemma_row_insert_at(sorted: Seq<ManifestEntryV>, x: ManifestEntryV) -> (p: int)
    ensures
        0 <= p <= sorted.len(),
        row_insert(sorted, x) == sorted.insert(p, x),
    decreases sorted.len(),
{
    if sorted.len() == 0 {
        assert(row_insert(sorted, x) =~= sorted.insert(0, x));
        0
    } else if lex_lt(x.slug, sorted[0].slug) {
        assert(row_insert(sorted, x) =~= sorted.insert(0, x));
        0
    } else {
        let q = lemma_row_insert_at(sorted.drop_first(), x);
        assert(row_insert(sorted, x) =~= sorted.insert(q + 1, x));
        q + 1
    }
}

/// The manifest's rows are exactly the entries' rows (as a multiset: a
/// permutation of them), in slug order.
pub proof fn lemma_manifest_shape(es: Seq<IndexEntryV>)
    ensures
        manifest_spec(es).len() == es.len(),
        slug_sorted(manifest_spec(es)),
        forall|i: int| 0 <= i < es.len() ==> has_row(manifest_spec(es), manifest_row(#[trigger] es[i])),
        manifest_spec(es).to_multiset() == es.map_values(|e: IndexEntryV| manifest_row(e)).to_multiset(),
    decreases es.len(),
{
    broadcast use vstd::seq_lib::group_to_multiset_ensures;

    if es.len() == 0 {
        assert(es.map_values(|e: IndexEntryV| manifest_row(e)) =~= Seq::<ManifestEntryV>::empty());
    } else {
        let p = es.drop_last();
        lemma_manifest_shape(p);
        lemma_row_insert(manifest_spec(p), manifest_row(es.last()));
        let q = lemma_row_insert_at(manifest_spec(p), manifest_row(es.last()));
        let m = manifest_spec(es);
        assert forall|i: int| 0 <= i < es.len() implies has_row(m, manifest_row(#[trigger] es[i])) by {
            if i < es.len() - 1 {
                assert(p[i] == es[i]);
                let k = choose|k: int| 0 <= k < manifest_spec(p).len() && manifest_spec(p)[k] == manifest_row(p[i]);
                assert(has_row(m, manifest_spec(p)[k]));
            }
        }
        assert(es.map_values(|e: IndexEntryV| manifest_row(e)) =~= p.map_values(|e: IndexEntryV| manifest_row(e)).push(
            manifest_row(es.last()),
        ));
    }
}

} // verus!

verus! {

proof fn lemma_decimal_len(n: nat, k: nat)
    requires
        n < vstd::arithmetic::power::pow(10, k),
        k >= 1,
    ensures
        decimal(n).len() <= k,
    decreases k,
{
    vstd::arithmetic::power::lemma_pow_positive(10, (k - 1) as nat);
    if n >= 10 {
        assert(vstd::arithmetic::power::pow(10, k) == 10 * vstd::arithmetic::power::pow(10, (k - 1) as nat)) by {
            vstd::arithmetic::power::lemma_pow_adds(10, 1, (k - 1) as nat);
            vstd::arithmetic::power::lemma_pow1(10);
        }
        if k == 1 {
            vstd::arithmetic::power::lemma_pow1(10);
        } else {
            assert(n / 10 < vstd::arithmetic::power::pow(10, (k - 1) as nat)) by (nonlinear_arith)
                requires
                    n < 10 * vstd::arithmetic::power::pow(10, (k - 1) as nat),
                    n >= 10,
            ;
            lemma_decimal_len(n / 10, (k - 1) as nat);
        }
    }
}

proof fn lemma_padded_len(n: nat, w: nat)
    requires
        w >= 1,
        n < vstd::arithmetic::power::pow(10, w),
    ensures
        padded(n, w).len() == w,
{
    lemma_decimal_len(n, w);
}

proof fn lemma_civil_ranges(days: int)
    requires
        days >= 0,
    ensures
        civil_spec(days).0 >= 0,
        1 <= civil_spec(days).1 <= 12,
        1 <= civil_spec(days).2 <= 31,
{
    let z = days + 719468;
    let era = z / 146097;
    assert(0 <= era * 146097 <= z) by (nonlinear_arith)
        requires
            z >= 0,
            era == z / 146097,
    ;
    let doe = z - era * 146097;
    assert(doe < 146097) by (nonlinear_arith)
        requires
            z >= 0,
            era == z / 146097,
            doe == z - era * 146097,
    ;
    let yoe = (doe - doe / 1460 + doe / 36524 - doe / 146096) / 365;
    let doy = doe - (365 * yoe + yoe / 4 - yoe / 100);
    assert(0 <= doy <= 365) by (nonlinear_arith)
        requires
            0 <= doe < 146097,
            yoe == (doe - doe / 1460 + doe / 36524 - doe / 146096) / 365,
            doy == doe - (365 * yoe + yoe / 4 - yoe / 100),
    ;
    let mp = (5 * doy + 2) / 153;
    assert(0 <= mp <= 11);
    let d = doy - (153 * mp + 2) / 5 + 1;
    assert(1 <= d <= 31) by (nonlinear_arith)
        requires
            0 <= doy <= 365,
            mp == (5 * doy + 2) / 153,
            d == doy - (153 * mp + 2) / 5 + 1,
    ;
}

/// A timestamp of a year with at most four digits has the shape
/// `YYYY-MM-DDTHH:MM:SSZ`: 20 characters, '-' at index 4, 'Z' last.
pub proof fn lemma_timestamp_shape(secs: nat)
    requires
        civil_spec((secs / 86400) as int).0 <= 9999,
    ensures
        rfc3339_spec(secs).len() == 20,
        rfc3339_spec(secs)[4] == '-',
        rfc3339_spec(secs).last() == 'Z',
{
    let (y, m, d) = civil_spec((secs / 86400) as int);
    lemma_civil_ranges((secs / 86400) as int);
    let rem = secs % 86400;
    vstd::arithmetic::power::lemma_pow1(10);
    assert(vstd::arithmetic::power::pow(10, 2) == 100) by {
        vstd::arithmetic::power::lemma_pow_adds(10, 1, 1);
    }
    assert(vstd::arithmetic::power::pow(10, 4) == 10000) by {
        vstd::arithmetic::power::lemma_pow_adds(10, 2, 2);
    }
    lemma_padded_len(y as nat, 4);
    lemma_padded_len(m as nat, 2);
    lemma_padded_len(d as nat, 2);
    lemma_padded_len(rem / 3600, 2);
    lemma_padded_len((rem % 3600) / 60, 2);
    lemma_padded_len(rem % 60, 2);
    let t = rfc3339_spec(secs);
    assert(t[4] == '-');
}

} // verus!

verus! {

// ---------------------------------------------------------------------------
// Reconcile and updates
// ---------------------------------------------------------------------------

/// Some site listing has this slug.
pub open spec fn on_site(games: Seq<crate::models::AdminGame>, slug: Seq<char>) -> bool {
    exists|i: int| 0 <= i < games.len() && #[trigger] games[i].slug@ == slug
}

/// The number of published site listings among the first `n`.
pub open spec fn count_published(games: Seq<crate::models::AdminGame>, n: int) -> nat
    decreases n,
{
    if n <= 0 {
        0
    } else {
        count_published(games, n - 1) + if games[n - 1].published {
            1nat
        } else {
            0nat
        }
    }
}

/// `e` kept but for the verified flag and, when it had none, the title.
pub open spec fn confirmed_from(e: IndexEntryV, f: IndexEntryV) -> bool {
    &&& f.slug == e.slug
    &&& f.last_version == e.last_version
    &&& f.last_download_source == e.last_download_source
    &&& f.published_at == e.published_at
    &&& (e.title is Some ==> f.title == e.title)
    &&& f.verified
}

/// The title the site gives a slug: that of the first of the first `n`
/// listings under the slug that has one.
pub open spec fn site_title(games: Seq<crate::models::AdminGame>, s: Seq<char>, n: int) -> Option<
    Seq<char>,
>
    decreases n,
{
    if n <= 0 {
        None
    } else {
        let t = site_title(games, s, n - 1);
        if t is Some {
            t
        } else if games[n - 1].slug@ == s {
            games[n - 1].title.deep_view()
        } else {
            None
        }
    }
}

/// `f` is the confirmed entry for a site listing with this title, given
/// what the state held before: that entry kept but for the verified flag
/// and a missing title, or else a new entry with the title, a timestamp and
/// no version or source.
pub open spec fn site_entry(prior: Option<IndexEntryV>, f: IndexEntryV, title: Option<Seq<char>>) -> bool {
    match prior {
        Some(e) => confirmed_from(e, f) && (e.title is None ==> f.title == title),
        None => {
            &&& f.verified
            &&& f.title == title
            &&& f.last_version is None
            &&& f.last_download_source is None
            &&& f.published_at matches Some(t) && is_timestamp(t)
        },
    }
}

proof fn lemma_site_title_none(games: Seq<crate::models::AdminGame>, s: Seq<char>, n: int)
    requires
        0 <= n <= games.len(),
        !on_site(games.take(n), s),
    ensures
        site_title(games, s, n) is None,
    decreases n,
{
    if n > 0 {
        assert(games.take(n)[n - 1] == games[n - 1]);
        assert(!on_site(games.take(n - 1), s)) by {
            if on_site(games.take(n - 1), s) {
                let w = choose|w: int| 0 <= w < games.take(n - 1).len() && #[trigger] games.take(n - 1)[w].slug@ == s;
                assert(games.take(n)[w] == games.take(n - 1)[w]);
            }
        }
        lemma_site_title_none(games, s, n - 1);
    }
}

impl Index {
    /// After an update was published: the slug's entry takes the new version
    /// and source and is confirmed; nothing happens without an entry.
    pub fn record_update(&mut self, slug: &str, version: Option<String>, source: SourceLabel)
        requires
            old(self).wf(),
        ensures
            final(self).wf(),
            final(self).entries_v() == match lookup(old(self).entries_v(), slug@) {
                Some(e) => put_entry(
                    old(self).entries_v(),
                    IndexEntryV {
                        last_version: version.deep_view(),
                        last_download_source: Some(source),
                        verified: true,
                        ..e
                    },
                ),
                None => old(self).entries_v(),
            },
            final(self).checkpoints() == old(self).checkpoints(),
    {
        match self.position_of(slug) {
            Some(i) => {
                let mut e = self.entries[i].duplicate();
                e.last_version = version;
                e.last_download_source = Some(source);
                e.verified = true;
                proof {
                    lemma_position_from(self.entries_v(), slug@, 0);
                }
                self.put(e);
            },
            None => {},
        }
    }

    /// Record and confirm every site listing (a missing title filled in).
    /// Returns the numbers of published and draft listings.
    fn confirm_site_listings(&mut self, games: &Vec<crate::models::AdminGame>) -> (r: (usize, usize))
        requires
            old(self).wf(),
        ensures
            final(self).wf(),
            r.0 == count_published(games@, games@.len() as int),
            r.0 + r.1 == games@.len(),
            forall|j: int| 0 <= j < games@.len() ==> (lookup(final(self).entries_v(), #[trigger] games@[j].slug@) matches Some(f)
                && f.verified),
            forall|s: Seq<char>| #![trigger lookup(old(self).entries_v(), s)] on_site(games@, s) ==> (lookup(old(self).entries_v(), s) matches Some(e)
                ==> lookup(final(self).entries_v(), s) matches Some(f) && confirmed_from(e, f)),
            forall|s: Seq<char>| #![trigger lookup(final(self).entries_v(), s)] !on_site(games@, s) ==> lookup(final(self).entries_v(), s)
                == lookup(old(self).entries_v(), s),
            forall|s: Seq<char>| #![trigger lookup(final(self).entries_v(), s)] on_site(games@, s) ==> (lookup(final(self).entries_v(), s) matches Some(f)
                && site_entry(lookup(old(self).entries_v(), s), f, site_title(games@, s, games@.len() as int))),
            final(self).checkpoints() == old(self).checkpoints(),
    {
        let ghost start = self.entries_v();
        let mut published: usize = 0;
        let mut drafts: usize = 0;
        let mut i: usize = 0;
        while i < games.len()
            invariant
                i <= games.len(),
                self.wf(),
                published == count_published(games@, i as int),
                published + drafts == i,
                self.checkpoints() == old(self).checkpoints(),
                forall|j: int| 0 <= j < i ==> (lookup(self.entries_v(), #[trigger] games@[j].slug@) matches Some(f)
                    && f.verified),
                forall|s: Seq<char>| #![trigger lookup(start, s)] on_site(games@.take(i as int), s) ==> (lookup(start, s) matches Some(e)
                    ==> lookup(self.entries_v(), s) matches Some(f) && confirmed_from(e, f)),
                forall|s: Seq<char>| #![trigger lookup(self.entries_v(), s)] !on_site(games@.take(i as int), s) ==> lookup(self.entries_v(), s)
                    == lookup(start, s),
                forall|s: Seq<char>| #![trigger lookup(self.entries_v(), s)] on_site(games@.take(i as int), s) ==> (lookup(self.entries_v(), s) matches Some(f)
                    && site_entry(lookup(start, s), f, site_title(games@, s, i as int))),
                start == old(self).entries_v(),
            decreases games.len() - i,
        {
            let g = &games[i];
            if g.published {
                published += 1;
            } else {
                drafts += 1;
            }
            let ghost before = self.entries_v();
            let ghost slug = g.slug@;
            let ghost prior = lookup(before, slug);
            self.verify_or_insert(g.slug.as_str(), copy_opt_string(&g.title));
            let ghost after = self.entries_v();
            proof {
                self.lemma_confirm_step(before, after, slug, g.title.deep_view(), prior);
                assert(games@.take(i + 1) =~= games@.take(i as int).push(games@[i as int]));
                assert forall|j: int| 0 <= j < i + 1 implies (lookup(after, #[trigger] games@[j].slug@) matches Some(f)
                    && f.verified) by {
                    if j < i && games@[j].slug@ != slug {
                        assert(lookup(after, games@[j].slug@) == lookup(before, games@[j].slug@));
                    }
                }
                assert forall|s: Seq<char>| #![trigger lookup(start, s)] on_site(games@.take(i + 1), s) implies (lookup(start, s) matches Some(e)
                    ==> lookup(after, s) matches Some(f) && confirmed_from(e, f)) by {
                    if s != slug {
                        let w = choose|w: int| 0 <= w < games@.take(i + 1).len() && #[trigger] games@.take(i + 1)[w].slug@ == s;
                        assert(games@.take(i + 1)[w] == games@.take(i as int)[w]);
                        assert(on_site(games@.take(i as int), s));
                        assert(lookup(after, s) == lookup(before, s));
                    } else {
                        if on_site(games@.take(i as int), s) {
                        } else {
                            assert(lookup(before, s) == lookup(start, s));
                        }
                    }
                }
                assert forall|s: Seq<char>| #![trigger lookup(after, s)] !on_site(games@.take(i + 1), s) implies lookup(after, s) == lookup(start, s) by {
                    assert(games@.take(i + 1)[i as int].slug@ == slug);
                    if s == slug {
                        assert(on_site(games@.take(i + 1), s));
                    }
                    assert forall|w: int| 0 <= w < games@.take(i as int).len() implies #[trigger] games@.take(i as int)[w].slug@ != s by {
                        assert(games@.take(i as int)[w] == games@.take(i + 1)[w]);
                    }
                    assert(lookup(after, s) == lookup(before, s));
                }
                assert forall|s: Seq<char>| #![trigger lookup(after, s)] on_site(games@.take(i + 1), s) implies (lookup(after, s) matches Some(f)
                    && site_entry(lookup(start, s), f, site_title(games@, s, i + 1))) by {
                    assert(games@.take(i + 1)[i as int].slug@ == slug);
                    if s != slug {
                        let w = choose|w: int| 0 <= w < games@.take(i + 1).len() && #[trigger] games@.take(i + 1)[w].slug@ == s;
                        assert(games@.take(i + 1)[w] == games@.take(i as int)[w]);
                        assert(on_site(games@.take(i as int), s));
                        assert(lookup(after, s) == lookup(before, s));
                        assert(site_title(games@, s, i + 1) == site_title(games@, s, i as int));
                    } else if on_site(games@.take(i as int), s) {
                        assert(lookup(before, s) is Some);
                    } else {
                        lemma_site_title_none(games@, s, i as int);
                        assert(lookup(before, s) == lookup(start, s));
                    }
                }
            }
            i += 1;
        }
        assert(games@.take(games.len() as int) =~= games@);
        (published, drafts)
    }

    /// One confirmation step: the slug's entry is confirmed from what was
    /// there (or new and confirmed), every other slug is untouched.
    proof fn lemma_confirm_step(
        &self,
        before: Seq<IndexEntryV>,
        after: Seq<IndexEntryV>,
        slug: Seq<char>,
        title: Option<Seq<char>>,
        prior: Option<IndexEntryV>,
    )
        requires
            slugs_distinct(before),
            prior == lookup(before, slug),
            match prior {
                Some(e) => after == put_entry(
                    before,
                    IndexEntryV {
                        verified: true,
                        title: if e.title is None {
                            title
                        } else {
                            e.title
                        },
                        ..e
                    },
                ),
                None => exists|t: Seq<char>|
                    is_timestamp(t) && after == put_entry(
                        before,
                        IndexEntryV {
                            slug: slug,
                            title: title,
                            last_version: None,
                            last_download_source: None,
                            published_at: Some(t),
                            verified: true,
                        },
                    ),
            },
        ensures
            lookup(after, slug) matches Some(f) && f.verified,
            prior matches Some(e) ==> lookup(after, slug) matches Some(f) && confirmed_from(e, f),
            lookup(after, slug) matches Some(f) && site_entry(prior, f, title),
            forall|s: Seq<char>| s != slug ==> #[trigger] lookup(after, s) == lookup(before, s),
    {
        lemma_position_from(before, slug, 0);
        match prior {
            Some(e) => {
                let ne = IndexEntryV {
                    verified: true,
                    title: if e.title is None {
                        title
                    } else {
                        e.title
                    },
                    ..e
                };
                lemma_put_lookup(before, ne, slug);
                assert forall|s: Seq<char>| s != slug implies #[trigger] lookup(after, s) == lookup(before, s) by {
                    lemma_put_lookup(before, ne, s);
                }
            },
            None => {
                let t = choose|t: Seq<char>|
                    is_timestamp(t) && after == put_entry(
                        before,
                        IndexEntryV {
                            slug: slug,
                            title: title,
                            last_version: None,
                            last_download_source: None,
                            published_at: Some(t),
                            verified: true,
                        },
                    );
                let ne = IndexEntryV {
                    slug: slug,
                    title: title,
                    last_version: None,
                    last_download_source: None,
                    published_at: Some(t),
                    verified: true,
                };
                lemma_put_lookup(before, ne, slug);
                assert forall|s: Seq<char>| s != slug implies #[trigger] lookup(after, s) == lookup(before, s) by {
                    lemma_put_lookup(before, ne, s);
                }
            },
        }
    }

    /// Every entry without a site listing is reset to unconfirmed.
    fn reset_phantoms(&mut self, games: &Vec<crate::models::AdminGame>)
        requires
            old(self).wf(),
        ensures
            final(self).wf(),
            forall|s: Seq<char>| #![trigger lookup(final(self).entries_v(), s)] lookup(final(self).entries_v(), s) == match lookup(old(self).entries_v(), s) {
                Some(e) => Some(if on_site(games@, s) {
                    e
                } else {
                    IndexEntryV { verified: false, ..e }
                }),
                None => None,
            },
            final(self).checkpoints() == old(self).checkpoints(),
    {
        let ghost mid = self.entries_v();
        let mut k: usize = 0;
        while k < self.entries.len()
            invariant
                k <= self.entries.len(),
                mid.len() == self.entries.len(),
                mid == old(self).entries_v(),
                slugs_distinct(mid),
                self.checkpoints() == old(self).checkpoints(),
                forall|j: int| k <= j < self.entries.len() ==> #[trigger] self.entries_v()[j] == mid[j],
                forall|j: int| 0 <= j < k ==> #[trigger] self.entries_v()[j] == if on_site(games@, mid[j].slug) {
                    mid[j]
                } else {
                    IndexEntryV { verified: false, ..mid[j] }
                },
            decreases self.entries.len() - k,
        {
            let ghost before = self.entries_v();
            let ghost ek = self.entries@[k as int]@;
            assert(before[k as int] == ek);
            let mut found = false;
            let mut j: usize = 0;
            while j < games.len()
                invariant
                    j <= games.len(),
                    k < self.entries.len(),
                    ek == self.entries@[k as int]@,
                    found == exists|w: int| 0 <= w < j && #[trigger] games@[w].slug@ == ek.slug,
                decreases games.len() - j,
            {
                if crate::text::str_eq(games[j].slug.as_str(), self.entries[k].slug.as_str()) {
                    assert(games@[j as int].slug@ == ek.slug);
                    found = true;
                }
                j += 1;
            }
            if !found {
                let mut e = self.entries[k].duplicate();
                e.verified = false;
                let ghost nv = e@;
                self.entries.set(k, e);
                assert(self.entries_v() =~= before.update(k as int, nv));
            } else {
                assert(self.entries_v() =~= before);
            }
            k += 1;
        }
        proof {
            let fin = self.entries_v();
            assert forall|a: int| 0 <= a < fin.len() implies #[trigger] fin[a].slug == mid[a].slug by {
                assert(fin[a] == if on_site(games@, mid[a].slug) {
                    mid[a]
                } else {
                    IndexEntryV { verified: false, ..mid[a] }
                });
            }
            assert forall|s: Seq<char>| #![trigger position(fin, s)] true implies position(fin, s) == position(mid, s) by {
                lemma_position_from(fin, s, 0);
                lemma_position_from(mid, s, 0);
                if position(fin, s) is Some {
                    let p = position(fin, s).unwrap();
                    assert(mid[p].slug == s);
                }
                if position(mid, s) is Some {
                    let p = position(mid, s).unwrap();
                    assert(fin[p].slug == s);
                    if position(fin, s) is Some {
                        let q = position(fin, s).unwrap();
                        assert(mid[q].slug == s);
                    }
                }
            }
            assert forall|s: Seq<char>| #![trigger lookup(fin, s)] true implies lookup(fin, s) == match lookup(mid, s) {
                Some(e) => Some(if on_site(games@, s) {
                    e
                } else {
                    IndexEntryV { verified: false, ..e }
                }),
                None => None,
            } by {
                assert(position(fin, s) == position(mid, s));
                lemma_position_from(mid, s, 0);
            }
        }
    }

    /// Reconcile with the listings that exist on the site: every one of them
    /// is recorded and confirmed (a missing title filled in), every other
    /// entry is reset to unconfirmed so that the next catalog run
    /// republishes it. Returns the numbers of published and draft listings.
    pub fn reconcile_with_site(&mut self, games: &Vec<crate::models::AdminGame>) -> (r: (usize, usize))
        requires
            old(self).wf(),
        ensures
            final(self).wf(),
            r.0 == count_published(games@, games@.len() as int),
            r.0 + r.1 == games@.len(),
            forall|s: Seq<char>| #![trigger lookup(final(self).entries_v(), s)] on_site(games@, s) ==> (lookup(final(self).entries_v(), s) matches Some(f)
                && f.verified),
            forall|s: Seq<char>| #![trigger lookup(old(self).entries_v(), s)] on_site(games@, s) ==> (lookup(old(self).entries_v(), s) matches Some(e)
                ==> lookup(final(self).entries_v(), s) matches Some(f) && confirmed_from(e, f)),
            forall|s: Seq<char>| #![trigger lookup(final(self).entries_v(), s)] !on_site(games@, s) ==> lookup(final(self).entries_v(), s) == match lookup(
                old(self).entries_v(),
                s,
            ) {
                Some(e) => Some(IndexEntryV { verified: false, ..e }),
                None => None,
            },
            forall|s: Seq<char>| #![trigger lookup(final(self).entries_v(), s)] on_site(games@, s) ==> (lookup(final(self).entries_v(), s) matches Some(f)
                && site_entry(lookup(old(self).entries_v(), s), f, site_title(games@, s, games@.len() as int))),
            final(self).checkpoints() == old(self).checkpoints(),
    {
        let r = self.confirm_site_listings(games);
        let ghost mid = self.entries_v();
        self.reset_phantoms(games);
        proof {
            assert forall|s: Seq<char>| #![trigger lookup(self.entries_v(), s)] on_site(games@, s) implies (lookup(self.entries_v(), s) matches Some(f)
                && f.verified) by {
                let w = choose|w: int| 0 <= w < games@.len() && #[trigger] games@[w].slug@ == s;
                assert(lookup(mid, games@[w].slug@) matches Some(f) && f.verified);
            }
            assert forall|s: Seq<char>| #![trigger lookup(self.entries_v(), s)] on_site(games@, s) implies (lookup(self.entries_v(), s) matches Some(f)
                && site_entry(lookup(old(self).entries_v(), s), f, site_title(games@, s, games@.len() as int))) by {
                assert(lookup(mid, s) is Some);
            }
            assert forall|s: Seq<char>| #![trigger lookup(old(self).entries_v(), s)] on_site(games@, s) implies (lookup(old(self).entries_v(), s) matches Some(e)
                ==> lookup(self.entries_v(), s) matches Some(f) && confirmed_from(e, f)) by {
                assert(lookup(self.entries_v(), s) == match lookup(mid, s) {
                    Some(e) => Some(e),
                    None => None::<IndexEntryV>,
                });
            }
        }
        r
    }
}

} // verus!
