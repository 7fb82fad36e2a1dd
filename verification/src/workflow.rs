//! The decisions of a run: which action, which games to skip, how results
//! are counted, the publish gates, the category and the payloads sent.
use vstd::prelude::*;
use crate::models::{
    copy_links, copy_opt_string, copy_strings, links_view, DownloadCandidate, DownloadLink,
    EnrichedGame, EnrichedGameV, GamivoidGamePatch, GamivoidGamePatchV, Taxonomy,
};
use crate::index::{has_changes_spec, lookup, Index};
use crate::config::PublishMode;
use crate::text::{
    chars_of, contains, lower_of, lower_vec, seq_equal, starts_with, string_of, trim, trimmed_vec,
};

verus! {

broadcast use vstd::string::group_string_axioms;

/// What a run should do.
#[derive(Clone, Copy, Debug, PartialEq, Eq, Structural)]
pub enum RunAction {
    /// Scrape the sites' recent listings and publish new and changed games.
    Sync,
    /// Walk the A-Z catalog hubs and import every game, one by one.
    Catalog,
    /// Re-check every published game against the sources.
    Updates,
    /// Inventory the owner listings on the site and heal the state.
    Reconcile,
    /// Delete every owner listing on the site and clear the state, so that
    /// the next catalog run relists everything from zero.
    Reset,
}

/// The action a name selects, compared in lower case.
pub open spec fn run_action_spec(s: Seq<char>) -> Option<RunAction> {
    let l = lower_of(s);
    if l == "sync"@ {
        Some(RunAction::Sync)
    } else if l == "catalog"@ {
        Some(RunAction::Catalog)
    } else if l == "updates"@ {
        Some(RunAction::Updates)
    } else if l == "reconcile"@ {
        Some(RunAction::Reconcile)
    } else if l == "reset"@ {
        Some(RunAction::Reset)
    } else {
        None
    }
}

impl RunAction {
    pub fn parse(s: &str) -> (r: Option<RunAction>)
        ensures
            r == run_action_spec(s@),
    {
        let l = lower_vec(&chars_of(s));
        if seq_equal(&l, &chars_of("sync")) {
            Some(RunAction::Sync)
        } else if seq_equal(&l, &chars_of("catalog")) {
            Some(RunAction::Catalog)
        } else if seq_equal(&l, &chars_of("updates")) {
            Some(RunAction::Updates)
        } else if seq_equal(&l, &chars_of("reconcile")) {
            Some(RunAction::Reconcile)
        } else if seq_equal(&l, &chars_of("reset")) {
            Some(RunAction::Reset)
        } else {
            None
        }
    }
}

// ---------------------------------------------------------------------------
// Budget and skipping
// ---------------------------------------------------------------------------

/// The action limit of a run: the configured one, at least 1.
pub fn run_limit(action_limit: usize) -> (r: usize)
    ensures
        r == if action_limit >= 1 {
            action_limit
        } else {
            1
        },
{
    if action_limit >= 1 {
        action_limit
    } else {
        1
    }
}

/// Whether the run may act on another game: under the action limit and not
/// past its deadline.
pub fn time_and_budget_left(acted: usize, limit: usize, past_deadline: bool) -> (r: bool)
    ensures
        r == (acted < limit && !past_deadline),
{
    if acted >= limit {
        return false;
    }
    if past_deadline {
        return false;
    }
    true
}

/// A game is skipped when its listing is confirmed on the site and the best
/// download is unchanged.
pub open spec fn skip_spec(index: &Index, slug: Seq<char>, best: crate::models::DownloadCandidateV) -> bool {
    match lookup(index.entries_v(), slug) {
        Some(e) => e.verified && !has_changes_spec(index.entries_v(), slug, best.version, best.source_label),
        None => false,
    }
}

pub fn skip_unchanged(index: &Index, slug: &str, best: &DownloadCandidate) -> (r: bool)
    ensures
        r == skip_spec(index, slug@, best@),
{
    match index.entry(slug) {
        Some(entry) => {
            let version: Option<&str> = match &best.version {
                Some(v) => Some(v.as_str()),
                None => None,
            };
            assert(crate::seo::opt_str(version) == best@.version);
            entry.verified && !index.has_changes(slug, version, &best.source_label)
        },
        None => false,
    }
}

/// A game recorded as confirmed on the site together with its download is
/// skipped when the same download (version and source) comes back, and is
/// acted on again when either changed or the record is not confirmed.
pub proof fn lemma_skip_after_record(
    before: &Index,
    after: &Index,
    e: crate::models::IndexEntryV,
    best: crate::models::DownloadCandidateV,
)
    requires
        before.wf(),
        after.entries_v() == crate::index::put_entry(before.entries_v(), e),
    ensures
        skip_spec(after, e.slug, best) == (e.verified && e.last_version == best.version
            && e.last_download_source == Some(best.source_label)),
{
    crate::index::lemma_put_lookup(before.entries_v(), e, e.slug);
}

/// Whether the slug's listing is confirmed on the site.
pub fn existed_verified(index: &Index, slug: &str) -> (r: bool)
    ensures
        r == match lookup(index.entries_v(), slug@) {
            Some(e) => e.verified,
            None => false,
        },
{
    match index.entry(slug) {
        Some(e) => e.verified,
        None => false,
    }
}

/// What a run does with the next game.
#[derive(Clone, Copy, Debug, PartialEq, Eq, Structural)]
pub enum GameStep {
    /// The action limit or the time budget is spent: the run stops here.
    Stop,
    /// Confirmed on the site with the same download: nothing to do.
    Unchanged,
    /// Enrich and publish; `existed` when the listing is confirmed on the site.
    Act { existed: bool },
}

pub open spec fn game_step_spec(
    index: &Index,
    acted: usize,
    limit: usize,
    past_deadline: bool,
    slug: Seq<char>,
    best: crate::models::DownloadCandidateV,
) -> GameStep {
    if !(acted < limit && !past_deadline) {
        GameStep::Stop
    } else if skip_spec(index, slug, best) {
        GameStep::Unchanged
    } else {
        GameStep::Act {
            existed: match lookup(index.entries_v(), slug) {
                Some(e) => e.verified,
                None => false,
            },
        }
    }
}

/// The step for one game: stop when the budget is spent, skip it when
/// unchanged, else act on it.
pub fn game_step(
    index: &Index,
    acted: usize,
    limit: usize,
    past_deadline: bool,
    slug: &str,
    best: &DownloadCandidate,
) -> (r: GameStep)
    ensures
        r == game_step_spec(index, acted, limit, past_deadline, slug@, best@),
{
    if !time_and_budget_left(acted, limit, past_deadline) {
        return GameStep::Stop;
    }
    if skip_unchanged(index, slug, best) {
        return GameStep::Unchanged;
    }
    GameStep::Act { existed: existed_verified(index, slug) }
}

/// How a listing believed to exist is updated, given what the site holds
/// under its slug: nothing (create it), a draft (send the full content), or
/// a published listing (refresh only the downloads).
#[derive(Clone, Copy, Debug, PartialEq, Eq, Structural)]
pub enum ListingUpdate {
    Create,
    Backfill,
    RefreshDownloads,
}

pub fn listing_update(site_published: Option<bool>) -> (r: ListingUpdate)
    ensures
        r == match site_published {
            None => ListingUpdate::Create,
            Some(false) => ListingUpdate::Backfill,
            Some(true) => ListingUpdate::RefreshDownloads,
        },
{
    match site_published {
        None => ListingUpdate::Create,
        Some(false) => ListingUpdate::Backfill,
        Some(true) => ListingUpdate::RefreshDownloads,
    }
}

/// Whether a listing goes live: only in publish mode and when every publish
/// gate passes.
pub fn publish_now(mode: PublishMode, enriched: &EnrichedGame, taxonomy: &Taxonomy) -> (r: bool)
    ensures
        r == (mode == PublishMode::Publish && gate_failure(enriched@, taxonomy.categories.deep_view()) is None),
{
    mode.is_publish() && validate_publish_gates(enriched, taxonomy).is_ok()
}

// ---------------------------------------------------------------------------
// Counting
// ---------------------------------------------------------------------------

/// The counts of one run.
#[derive(Clone, Copy, Debug)]
pub struct RunCounts {
    pub created: usize,
    pub updated: usize,
    pub unchanged: usize,
    pub invalid: usize,
    pub errors: usize,
    pub dry_run_would_publish: usize,
    pub acted: usize,
    pub published: usize,
    pub reconciled: usize,
    pub removed: usize,
}

impl RunCounts {
    pub fn new() -> (r: RunCounts)
        ensures
            r.created == 0 && r.updated == 0 && r.unchanged == 0 && r.invalid == 0 && r.errors == 0
                && r.dry_run_would_publish == 0 && r.acted == 0 && r.published == 0 && r.reconciled
                == 0 && r.removed == 0,
    {
        RunCounts {
            created: 0,
            updated: 0,
            unchanged: 0,
            invalid: 0,
            errors: 0,
            dry_run_would_publish: 0,
            acted: 0,
            published: 0,
            reconciled: 0,
            removed: 0,
        }
    }

    /// Count the outcome of a create (`existed` false) or update on the
    /// site: `Some(published_now)` on success, `None` on an error.
    pub fn record_publish(&mut self, existed: bool, result: Option<bool>)
        requires
            old(self).created < usize::MAX,
            old(self).updated < usize::MAX,
            old(self).published < usize::MAX,
            old(self).acted < usize::MAX,
            old(self).errors < usize::MAX,
        ensures
            *final(self) == match result {
                Some(p) => if existed {
                    RunCounts { updated: (old(self).updated + 1) as usize, acted: (old(self).acted + 1) as usize, ..*old(self) }
                } else {
                    RunCounts {
                        created: (old(self).created + 1) as usize,
                        published: if p {
                            (old(self).published + 1) as usize
                        } else {
                            old(self).published
                        },
                        acted: (old(self).acted + 1) as usize,
                        ..*old(self)
                    }
                },
                None => RunCounts { errors: (old(self).errors + 1) as usize, ..*old(self) },
            },
    {
        match result {
            Some(published_now) => {
                if existed {
                    self.updated += 1;
                } else {
                    self.created += 1;
                    if published_now {
                        self.published += 1;
                    }
                }
                self.acted += 1;
            },
            None => {
                self.errors += 1;
            },
        }
    }

    /// Count a deletion on the site: removed, or an error.
    pub fn record_delete(&mut self, ok: bool)
        requires
            old(self).removed < usize::MAX,
            old(self).errors < usize::MAX,
        ensures
            *final(self) == if ok {
                RunCounts { removed: (old(self).removed + 1) as usize, ..*old(self) }
            } else {
                RunCounts { errors: (old(self).errors + 1) as usize, ..*old(self) }
            },
    {
        if ok {
            self.removed += 1;
        } else {
            self.errors += 1;
        }
    }

    /// Count a dry-run validation: would publish, or invalid; either way an
    /// action.
    pub fn record_dry_run(&mut self, gates_pass: bool)
        requires
            old(self).dry_run_would_publish < usize::MAX,
            old(self).invalid < usize::MAX,
            old(self).acted < usize::MAX,
        ensures
            *final(self) == if gates_pass {
                RunCounts {
                    dry_run_would_publish: (old(self).dry_run_would_publish + 1) as usize,
                    acted: (old(self).acted + 1) as usize,
                    ..*old(self)
                }
            } else {
                RunCounts { invalid: (old(self).invalid + 1) as usize, acted: (old(self).acted + 1) as usize, ..*old(self) }
            },
    {
        if gates_pass {
            self.dry_run_would_publish += 1;
        } else {
            self.invalid += 1;
        }
        self.acted += 1;
    }
}

// ---------------------------------------------------------------------------
// Category
// ---------------------------------------------------------------------------

/// The category candidates in preference order: the guess, the extra
/// guesses, then "Indie", "Action", "Casual".
pub open spec fn category_candidates(e: EnrichedGameV) -> Seq<Seq<char>> {
    (match e.category_guess {
        Some(g) => seq![g],
        None => Seq::empty(),
    }) + e.category_guesses + seq!["Indie"@, "Action"@, "Casual"@]
}

/// The first candidate with an exact taxonomy value, that value.
pub open spec fn first_category(cats: Seq<Seq<char>>, cands: Seq<Seq<char>>, k: int) -> Option<Seq<char>>
    decreases cands.len() - k,
{
    if k < 0 || k >= cands.len() {
        None
    } else {
        match crate::models::exact_match_spec(cats, cands[k]) {
            Some(c) => Some(c),
            None => first_category(cats, cands, k + 1),
        }
    }
}

/// No candidate matches the taxonomy; the first candidate is named.
pub struct CategoryError {
    pub first_candidate: String,
}

/// Map the category guesses onto an exact live taxonomy value.
pub fn resolve_category(enriched: &EnrichedGame, taxonomy: &Taxonomy) -> (r: Result<String, CategoryError>)
    ensures
        match r {
            Ok(c) => first_category(taxonomy.categories.deep_view(), category_candidates(enriched@), 0)
                == Some(c@),
            Err(e) => first_category(taxonomy.categories.deep_view(), category_candidates(enriched@), 0)
                is None && e.first_candidate@ == category_candidates(enriched@)[0],
        },
{
    let mut candidates: Vec<String> = Vec::new();
    match &enriched.category_guess {
        Some(g) => candidates.push(g.clone()),
        None => {},
    }
    let mut more = copy_strings(&enriched.category_guesses);
    candidates.append(&mut more);
    candidates.push(String::from_str("Indie"));
    candidates.push(String::from_str("Action"));
    candidates.push(String::from_str("Casual"));
    let ghost cands = category_candidates(enriched@);
    assert(candidates.deep_view() =~= cands);
    let ghost cats = taxonomy.categories.deep_view();
    let mut i: usize = 0;
    while i < candidates.len()
        invariant
            i <= candidates.len(),
            cands == candidates.deep_view(),
            cands == category_candidates(enriched@),
            cats == taxonomy.categories.deep_view(),
            first_category(cats, cands, 0) == first_category(cats, cands, i as int),
        decreases candidates.len() - i,
    {
        assert(cands[i as int] == candidates@[i as int]@);
        match taxonomy.exact_match(candidates[i].as_str()) {
            Some(exact) => {
                assert(crate::models::exact_match_spec(cats, cands[i as int]) == Some(exact@));
                return Ok(exact);
            },
            None => {},
        }
        i += 1;
    }
    assert(cands[0] == candidates@[0]@);
    Err(CategoryError { first_candidate: candidates[0].clone() })
}

// ---------------------------------------------------------------------------
// Publish gates
// ---------------------------------------------------------------------------

/// The first publish gate a listing fails.
pub enum GateError {
    EmptyTitle,
    ShortDescription,
    MissingImage,
    ShortMinimum,
    MissingVersion,
    MissingFileSize,
    MissingStorage,
    MissingLicense,
    NoDownloadLinks,
    DownloadNotHttp(String),
    DownloadUrlTooLong(String),
    SourceNotHttp,
    UnknownCategory(String),
}

pub enum GateFailure {
    EmptyTitle,
    ShortDescription,
    MissingImage,
    ShortMinimum,
    MissingVersion,
    MissingFileSize,
    MissingStorage,
    MissingLicense,
    NoDownloadLinks,
    DownloadNotHttp(Seq<char>),
    DownloadUrlTooLong(Seq<char>),
    SourceNotHttp,
    UnknownCategory(Seq<char>),
}

impl View for GateError {
    type V = GateFailure;

    open spec fn view(&self) -> GateFailure {
        match self {
            GateError::EmptyTitle => GateFailure::EmptyTitle,
            GateError::ShortDescription => GateFailure::ShortDescription,
            GateError::MissingImage => GateFailure::MissingImage,
            GateError::ShortMinimum => GateFailure::ShortMinimum,
            GateError::MissingVersion => GateFailure::MissingVersion,
            GateError::MissingFileSize => GateFailure::MissingFileSize,
            GateError::MissingStorage => GateFailure::MissingStorage,
            GateError::MissingLicense => GateFailure::MissingLicense,
            GateError::NoDownloadLinks => GateFailure::NoDownloadLinks,
            GateError::DownloadNotHttp(u) => GateFailure::DownloadNotHttp(u@),
            GateError::DownloadUrlTooLong(u) => GateFailure::DownloadUrlTooLong(u@),
            GateError::SourceNotHttp => GateFailure::SourceNotHttp,
            GateError::UnknownCategory(c) => GateFailure::UnknownCategory(c@),
        }
    }
}

pub open spec fn is_http(u: Seq<char>) -> bool {
    starts_with(u, "https://"@) || starts_with(u, "http://"@)
}

pub open spec fn present_text(o: Option<Seq<char>>) -> bool {
    match o {
        Some(v) => trim(v).len() > 0,
        None => false,
    }
}

/// The first download link that fails: not http(s), or over 2000 bytes.
pub open spec fn link_failure(links: Seq<crate::models::DownloadLinkV>, k: int) -> Option<GateFailure>
    decreases links.len() - k,
{
    if k < 0 || k >= links.len() {
        None
    } else if !is_http(links[k].url) {
        Some(GateFailure::DownloadNotHttp(links[k].url))
    } else if crate::slug::byte_len(links[k].url) > 2000 {
        Some(GateFailure::DownloadUrlTooLong(links[k].url))
    } else {
        link_failure(links, k + 1)
    }
}

/// The first gate that fails, in the checking order; `None` when every
/// publish gate passes.
pub open spec fn gate_failure(e: EnrichedGameV, cats: Seq<Seq<char>>) -> Option<GateFailure> {
    if trim(e.raw_title).len() == 0 {
        Some(GateFailure::EmptyTitle)
    } else if trim(e.description).len() < 30 {
        Some(GateFailure::ShortDescription)
    } else if e.cover_image_url is None && e.hero_image_url is None {
        Some(GateFailure::MissingImage)
    } else if !(match e.minimum {
        Some(m) => m.len() >= 10,
        None => false,
    }) {
        Some(GateFailure::ShortMinimum)
    } else if !present_text(e.version) {
        Some(GateFailure::MissingVersion)
    } else if !present_text(e.file_size) {
        Some(GateFailure::MissingFileSize)
    } else if !present_text(e.storage) {
        Some(GateFailure::MissingStorage)
    } else if trim(e.license_type).len() < 3 {
        Some(GateFailure::MissingLicense)
    } else if e.download_links.len() == 0 {
        Some(GateFailure::NoDownloadLinks)
    } else if link_failure(e.download_links, 0) is Some {
        link_failure(e.download_links, 0)
    } else if (match e.source_url {
        Some(s) => !is_http(s),
        None => false,
    }) {
        Some(GateFailure::SourceNotHttp)
    } else {
        match e.category_guess {
            Some(g) => if crate::models::exact_match_spec(cats, g) is Some || g == "Indie"@ || g
                == "Action"@ || g == "Casual"@ {
                None
            } else {
                Some(GateFailure::UnknownCategory(g))
            },
            None => None,
        }
    }
}

fn present_text_exec(o: &Option<String>) -> (r: bool)
    ensures
        r == present_text(o.deep_view()),
{
    match o {
        Some(v) => trimmed_vec(&chars_of(v.as_str())).len() > 0,
        None => false,
    }
}

fn is_http_exec(u: &str) -> (r: bool)
    ensures
        r == is_http(u@),
{
    crate::text::str_starts_with(u, "https://") || crate::text::str_starts_with(u, "http://")
}

/// Everything required before a listing may be published.
#[verifier::loop_isolation(false)]
pub fn validate_publish_gates(enriched: &EnrichedGame, taxonomy: &Taxonomy) -> (r: Result<(), GateError>)
    ensures
        match r {
            Ok(()) => gate_failure(enriched@, taxonomy.categories.deep_view()) is None,
            Err(g) => gate_failure(enriched@, taxonomy.categories.deep_view()) == Some(g@),
        },
{
    if trimmed_vec(&chars_of(enriched.raw_title.as_str())).len() == 0 {
        return Err(GateError::EmptyTitle);
    }
    if trimmed_vec(&chars_of(enriched.description.as_str())).len() < 30 {
        return Err(GateError::ShortDescription);
    }
    if enriched.cover_image_url.is_none() && enriched.hero_image_url.is_none() {
        return Err(GateError::MissingImage);
    }
    let min_ok = match &enriched.minimum {
        Some(m) => chars_of(m.as_str()).len() >= 10,
        None => false,
    };
    if !min_ok {
        return Err(GateError::ShortMinimum);
    }
    if !present_text_exec(&enriched.version) {
        return Err(GateError::MissingVersion);
    }
    if !present_text_exec(&enriched.file_size) {
        return Err(GateError::MissingFileSize);
    }
    if !present_text_exec(&enriched.storage) {
        return Err(GateError::MissingStorage);
    }
    if trimmed_vec(&chars_of(enriched.license_type.as_str())).len() < 3 {
        return Err(GateError::MissingLicense);
    }
    if enriched.download_links.len() == 0 {
        return Err(GateError::NoDownloadLinks);
    }
    let ghost links = links_view(enriched.download_links@);
    let mut i: usize = 0;
    while i < enriched.download_links.len()
        invariant
            i <= enriched.download_links.len(),
            links == links_view(enriched.download_links@),
            link_failure(links, 0) == link_failure(links, i as int),
        decreases enriched.download_links.len() - i,
    {
        let url = &enriched.download_links[i].url;
        assert(links[i as int].url == url@);
        if !is_http_exec(url.as_str()) {
            return Err(GateError::DownloadNotHttp(url.clone()));
        }
        if crate::slug::bytes_exceed(&chars_of(url.as_str()), 2000) {
            return Err(GateError::DownloadUrlTooLong(url.clone()));
        }
        i += 1;
    }
    match &enriched.source_url {
        Some(s) => {
            if !is_http_exec(s.as_str()) {
                return Err(GateError::SourceNotHttp);
            }
        },
        None => {},
    }
    match &enriched.category_guess {
        Some(guess) => {
            let matchable = taxonomy.exact_match(guess.as_str()).is_some() || crate::text::str_eq(
                guess.as_str(),
                "Indie",
            ) || crate::text::str_eq(guess.as_str(), "Action") || crate::text::str_eq(
                guess.as_str(),
                "Casual",
            );
            if !matchable {
                return Err(GateError::UnknownCategory(guess.clone()));
            }
        },
        None => {},
    }
    Ok(())
}

} // verus!

verus! {

// ---------------------------------------------------------------------------
// Payloads
// ---------------------------------------------------------------------------

/// The create payload in the guide's field set: a `None` field is left
/// out of the request.
pub struct CreatePayload {
    pub title: String,
    pub slug: String,
    pub description: String,
    pub article: String,
    pub category: String,
    pub tags: Vec<String>,
    pub platforms: Vec<String>,
    pub developer: Option<String>,
    pub publisher: Option<String>,
    pub release_date: Option<String>,
    pub version: Option<String>,
    pub file_size: Option<String>,
    pub storage: Option<String>,
    pub minimum: Option<String>,
    pub recommended: Option<String>,
    pub instructions: Vec<String>,
    pub cover_image: Option<String>,
    pub cover_alt: Option<String>,
    pub hero_image: Option<String>,
    pub featured_image: Option<String>,
    pub featured_image_alt: Option<String>,
    pub screenshots: Option<Vec<String>>,
    pub screenshot_alts: Option<Vec<String>>,
    pub download_links: Vec<DownloadLink>,
    pub source_url: Option<String>,
    pub license_type: String,
    pub seo_title: Option<String>,
    pub seo_description: Option<String>,
    pub published: bool,
}

pub struct CreatePayloadV {
    pub title: Seq<char>,
    pub slug: Seq<char>,
    pub description: Seq<char>,
    pub article: Seq<char>,
    pub category: Seq<char>,
    pub tags: Seq<Seq<char>>,
    pub platforms: Seq<Seq<char>>,
    pub developer: Option<Seq<char>>,
    pub publisher: Option<Seq<char>>,
    pub release_date: Option<Seq<char>>,
    pub version: Option<Seq<char>>,
    pub file_size: Option<Seq<char>>,
    pub storage: Option<Seq<char>>,
    pub minimum: Option<Seq<char>>,
    pub recommended: Option<Seq<char>>,
    pub instructions: Seq<Seq<char>>,
    pub cover_image: Option<Seq<char>>,
    pub cover_alt: Option<Seq<char>>,
    pub hero_image: Option<Seq<char>>,
    pub featured_image: Option<Seq<char>>,
    pub featured_image_alt: Option<Seq<char>>,
    pub screenshots: Option<Seq<Seq<char>>>,
    pub screenshot_alts: Option<Seq<Seq<char>>>,
    pub download_links: Seq<crate::models::DownloadLinkV>,
    pub source_url: Option<Seq<char>>,
    pub license_type: Seq<char>,
    pub seo_title: Option<Seq<char>>,
    pub seo_description: Option<Seq<char>>,
    pub published: bool,
}

impl View for CreatePayload {
    type V = CreatePayloadV;

    open spec fn view(&self) -> CreatePayloadV {
        CreatePayloadV {
            title: self.title@,
            slug: self.slug@,
            description: self.description@,
            article: self.article@,
            category: self.category@,
            tags: self.tags.deep_view(),
            platforms: self.platforms.deep_view(),
            developer: self.developer.deep_view(),
            publisher: self.publisher.deep_view(),
            release_date: self.release_date.deep_view(),
            version: self.version.deep_view(),
            file_size: self.file_size.deep_view(),
            storage: self.storage.deep_view(),
            minimum: self.minimum.deep_view(),
            recommended: self.recommended.deep_view(),
            instructions: self.instructions.deep_view(),
            cover_image: self.cover_image.deep_view(),
            cover_alt: self.cover_alt.deep_view(),
            hero_image: self.hero_image.deep_view(),
            featured_image: self.featured_image.deep_view(),
            featured_image_alt: self.featured_image_alt.deep_view(),
            screenshots: self.screenshots.deep_view(),
            screenshot_alts: self.screenshot_alts.deep_view(),
            download_links: links_view(self.download_links@),
            source_url: self.source_url.deep_view(),
            license_type: self.license_type@,
            seo_title: self.seo_title.deep_view(),
            seo_description: self.seo_description.deep_view(),
            published: self.published,
        }
    }
}

pub open spec fn nonempty_text(s: Seq<char>) -> Option<Seq<char>> {
    if s.len() > 0 {
        Some(s)
    } else {
        None
    }
}

/// The create payload of a listing: the trimmed title, at most 30 tags,
/// 4 platforms, 20 instructions and 20 screenshots (with alts); an alt
/// only beside its image; the SEO fields only when not empty.
pub open spec fn create_payload_spec(e: EnrichedGameV, slug: Seq<char>, category: Seq<char>, publish_now: bool) -> CreatePayloadV {
    CreatePayloadV {
        title: trim(e.raw_title),
        slug: slug,
        description: e.description,
        article: e.article_md,
        category: category,
        tags: crate::text::take_seq(e.tags, 30),
        platforms: crate::text::take_seq(e.platforms, 4),
        developer: e.developer,
        publisher: e.publisher,
        release_date: e.release_date,
        version: e.version,
        file_size: e.file_size,
        storage: e.storage,
        minimum: e.minimum,
        recommended: e.recommended,
        instructions: crate::text::take_seq(e.instructions, 20),
        cover_image: e.cover_image_url,
        cover_alt: if e.cover_image_url is Some {
            e.cover_alt
        } else {
            None
        },
        hero_image: e.hero_image_url,
        featured_image: e.featured_image_url,
        featured_image_alt: if e.featured_image_url is Some {
            e.featured_image_alt
        } else {
            None
        },
        screenshots: if e.screenshot_urls.len() > 0 {
            Some(crate::text::take_seq(e.screenshot_urls, 20))
        } else {
            None
        },
        screenshot_alts: if e.screenshot_urls.len() > 0 {
            Some(crate::text::take_seq(e.screenshot_alts, 20))
        } else {
            None
        },
        download_links: e.download_links,
        source_url: e.source_url,
        license_type: e.license_type,
        seo_title: nonempty_text(e.seo_title),
        seo_description: nonempty_text(e.seo_description),
        published: publish_now,
    }
}

fn nonempty_string(s: &String) -> (r: Option<String>)
    ensures
        r.deep_view() == nonempty_text(s@),
{
    if chars_of(s.as_str()).len() > 0 {
        Some(s.clone())
    } else {
        None
    }
}

/// The full create payload in the guide's field names.
pub fn game_create_payload(enriched: &EnrichedGame, slug: &str, category: &str, publish_now: bool) -> (r: CreatePayload)
    ensures
        r@ == create_payload_spec(enriched@, slug@, category@, publish_now),
{
    let shots = enriched.screenshot_urls.len() > 0;
    CreatePayload {
        title: crate::text::trim_str(enriched.raw_title.as_str()),
        slug: String::from_str(slug),
        description: enriched.description.clone(),
        article: enriched.article_md.clone(),
        category: String::from_str(category),
        tags: crate::text::take_strings(&enriched.tags, 30),
        platforms: crate::text::take_strings(&enriched.platforms, 4),
        developer: copy_opt_string(&enriched.developer),
        publisher: copy_opt_string(&enriched.publisher),
        release_date: copy_opt_string(&enriched.release_date),
        version: copy_opt_string(&enriched.version),
        file_size: copy_opt_string(&enriched.file_size),
        storage: copy_opt_string(&enriched.storage),
        minimum: copy_opt_string(&enriched.minimum),
        recommended: copy_opt_string(&enriched.recommended),
        instructions: crate::text::take_strings(&enriched.instructions, 20),
        cover_image: copy_opt_string(&enriched.cover_image_url),
        cover_alt: if enriched.cover_image_url.is_some() {
            copy_opt_string(&enriched.cover_alt)
        } else {
            None
        },
        hero_image: copy_opt_string(&enriched.hero_image_url),
        featured_image: copy_opt_string(&enriched.featured_image_url),
        featured_image_alt: if enriched.featured_image_url.is_some() {
            copy_opt_string(&enriched.featured_image_alt)
        } else {
            None
        },
        screenshots: if shots {
            Some(crate::text::take_strings(&enriched.screenshot_urls, 20))
        } else {
            None
        },
        screenshot_alts: if shots {
            Some(crate::text::take_strings(&enriched.screenshot_alts, 20))
        } else {
            None
        },
        download_links: copy_links(&enriched.download_links),
        source_url: copy_opt_string(&enriched.source_url),
        license_type: enriched.license_type.clone(),
        seo_title: nonempty_string(&enriched.seo_title),
        seo_description: nonempty_string(&enriched.seo_description),
        published: publish_now,
    }
}

/// The PATCH that backfills a draft with all content fields, the category
/// and at most 30 tags.
pub open spec fn draft_patch_spec(e: EnrichedGameV, category: Seq<char>) -> GamivoidGamePatchV {
    GamivoidGamePatchV {
        version: e.version,
        file_size: e.file_size,
        download_links: Some(e.download_links),
        published: None,
        description: Some(e.description),
        article: Some(e.article_md),
        seo_title: nonempty_text(e.seo_title),
        seo_description: nonempty_text(e.seo_description),
        minimum: e.minimum,
        recommended: e.recommended,
        instructions: Some(e.instructions),
        source_url: e.source_url,
        license_type: Some(e.license_type),
        category: Some(category),
        tags: Some(crate::text::take_seq(e.tags, 30)),
    }
}

/// PATCH payload for backfilling drafts (all content fields).
pub fn game_create_patch_payload(enriched: &EnrichedGame, category: &str) -> (r: GamivoidGamePatch)
    ensures
        r@ == draft_patch_spec(enriched@, category@),
{
    let mut p = GamivoidGamePatch::default();
    p.description = Some(enriched.description.clone());
    p.article = Some(enriched.article_md.clone());
    p.seo_title = nonempty_string(&enriched.seo_title);
    p.seo_description = nonempty_string(&enriched.seo_description);
    p.minimum = copy_opt_string(&enriched.minimum);
    p.recommended = copy_opt_string(&enriched.recommended);
    p.instructions = Some(copy_strings(&enriched.instructions));
    p.source_url = copy_opt_string(&enriched.source_url);
    p.license_type = Some(enriched.license_type.clone());
    p.version = copy_opt_string(&enriched.version);
    p.file_size = copy_opt_string(&enriched.file_size);
    p.download_links = Some(copy_links(&enriched.download_links));
    let p = p.with_category(category);
    let r = p.with_tags(enriched.tags.as_slice());
    assert(crate::text::strs_view(enriched.tags@) =~= enriched.tags.deep_view());
    assert(crate::text::strs_view(enriched.tags@).take(
        if enriched.tags@.len() < 30 {
            enriched.tags@.len() as int
        } else {
            30
        },
    ) =~= crate::text::take_seq(enriched@.tags, 30));
    r
}

/// The PATCH for a listing already published: only the download set.
pub fn download_patch(enriched: &EnrichedGame) -> (r: GamivoidGamePatch)
    ensures
        r@ == (GamivoidGamePatchV {
            version: enriched@.version,
            file_size: enriched@.file_size,
            download_links: Some(enriched@.download_links),
            ..crate::models::empty_patch()
        }),
{
    let mut p = GamivoidGamePatch::default();
    p.version = copy_opt_string(&enriched.version);
    p.file_size = copy_opt_string(&enriched.file_size);
    p.download_links = Some(copy_links(&enriched.download_links));
    p
}

/// The listings a reset deletes: every owner listing on the site, drafts
/// and published alike, by slug, in the order listed.
pub fn reset_targets(games: &Vec<crate::models::AdminGame>) -> (r: Vec<String>)
    ensures
        r.deep_view() == games@.map_values(|g: crate::models::AdminGame| g.slug@),
{
    let mut r: Vec<String> = Vec::new();
    let mut i: usize = 0;
    while i < games.len()
        invariant
            i <= games.len(),
            r.len() == i,
            forall|k: int| 0 <= k < i ==> #[trigger] r@[k]@ == games@[k].slug@,
        decreases games.len() - i,
    {
        r.push(games[i].slug.clone());
        i += 1;
    }
    assert(r.deep_view() =~= games@.map_values(|g: crate::models::AdminGame| g.slug@));
    r
}


// ---------------------------------------------------------------------------
// Gate messages, source fallbacks, games by slug
// ---------------------------------------------------------------------------

/// The message a failed publish gate is reported with.
pub open spec fn gate_message_spec(f: GateFailure) -> Seq<char> {
    match f {
        GateFailure::EmptyTitle => "empty title"@,
        GateFailure::ShortDescription => "description must be 30+ characters for published listings"@,
        GateFailure::MissingImage => "missing cover/hero image URL"@,
        GateFailure::ShortMinimum => "minimum requirements must be 10+ characters"@,
        GateFailure::MissingVersion => "version is required for published listings"@,
        GateFailure::MissingFileSize => "fileSize is required for published listings"@,
        GateFailure::MissingStorage => "storage is required for published listings"@,
        GateFailure::MissingLicense => "licenseType is required for published listings"@,
        GateFailure::NoDownloadLinks => "at least one downloadLinks entry is required for published listings"@,
        GateFailure::DownloadNotHttp(u) => "download URL is not http(s): "@ + u,
        GateFailure::DownloadUrlTooLong(u) => "download URL exceeds 2000 chars: "@ + u,
        GateFailure::SourceNotHttp => "sourceUrl is not http(s)"@,
        GateFailure::UnknownCategory(c) => "category '"@ + c + "' not in taxonomy"@,
    }
}

impl GateError {
    /// The message this failure is reported with.
    pub fn message(&self) -> (r: String)
        ensures
            r@ == gate_message_spec(self@),
    {
        match self {
            GateError::EmptyTitle => String::from_str("empty title"),
            GateError::ShortDescription => String::from_str(
                "description must be 30+ characters for published listings",
            ),
            GateError::MissingImage => String::from_str("missing cover/hero image URL"),
            GateError::ShortMinimum => String::from_str("minimum requirements must be 10+ characters"),
            GateError::MissingVersion => String::from_str("version is required for published listings"),
            GateError::MissingFileSize => String::from_str("fileSize is required for published listings"),
            GateError::MissingStorage => String::from_str("storage is required for published listings"),
            GateError::MissingLicense => String::from_str(
                "licenseType is required for published listings",
            ),
            GateError::NoDownloadLinks => String::from_str(
                "at least one downloadLinks entry is required for published listings",
            ),
            GateError::DownloadNotHttp(u) => {
                let mut m = chars_of("download URL is not http(s): ");
                crate::text::push_str_vec(&mut m, u.as_str());
                string_of(&m)
            },
            GateError::DownloadUrlTooLong(u) => {
                let mut m = chars_of("download URL exceeds 2000 chars: ");
                crate::text::push_str_vec(&mut m, u.as_str());
                string_of(&m)
            },
            GateError::SourceNotHttp => String::from_str("sourceUrl is not http(s)"),
            GateError::UnknownCategory(c) => {
                let mut m = chars_of("category '");
                crate::text::push_str_vec(&mut m, c.as_str());
                crate::text::push_str_vec(&mut m, "' not in taxonomy");
                string_of(&m)
            },
        }
    }
}

/// Which scraped sources a run goes on with.
#[derive(Clone, Copy, Debug, PartialEq, Eq, Structural)]
pub enum SourceChoice {
    Both,
    SteamripOnly,
    SteamunlockedOnly,
    /// Both scrapes failed: the run stops.
    Neither,
}

/// A run goes on with every source whose scrape succeeded; it stops only
/// when both failed.
pub fn choose_sources(steamrip_ok: bool, steamunlocked_ok: bool) -> (r: SourceChoice)
    ensures
        r == if steamrip_ok && steamunlocked_ok {
            SourceChoice::Both
        } else if steamrip_ok {
            SourceChoice::SteamripOnly
        } else if steamunlocked_ok {
            SourceChoice::SteamunlockedOnly
        } else {
            SourceChoice::Neither
        },
{
    if steamrip_ok && steamunlocked_ok {
        SourceChoice::Both
    } else if steamrip_ok {
        SourceChoice::SteamripOnly
    } else if steamunlocked_ok {
        SourceChoice::SteamunlockedOnly
    } else {
        SourceChoice::Neither
    }
}

/// The error when both scrapes of a kind (`what`) failed.
pub fn both_failed_message(what: &str, steamrip_error: &str, steamunlocked_error: &str) -> (r: String)
    ensures
        r@ == "both "@ + what@ + "s failed: steamrip: "@ + steamrip_error@ + "; steamunlocked: "@
            + steamunlocked_error@,
{
    let mut m = chars_of("both ");
    crate::text::push_str_vec(&mut m, what);
    crate::text::push_str_vec(&mut m, "s failed: steamrip: ");
    crate::text::push_str_vec(&mut m, steamrip_error);
    crate::text::push_str_vec(&mut m, "; steamunlocked: ");
    crate::text::push_str_vec(&mut m, steamunlocked_error);
    string_of(&m)
}

/// The slug of each matched game, in order.
pub fn game_slugs(games: &Vec<crate::models::MatchedGame>) -> (r: Vec<String>)
    ensures
        r.len() == games.len(),
        forall|i: int| 0 <= i < games.len() ==> #[trigger] r@[i]@ == crate::slug::slug_spec(games@[i].raw_title@),
{
    let mut r: Vec<String> = Vec::new();
    let mut i: usize = 0;
    while i < games.len()
        invariant
            i <= games.len(),
            r.len() == i,
            forall|k: int| 0 <= k < i ==> #[trigger] r@[k]@ == crate::slug::slug_spec(games@[k].raw_title@),
        decreases games.len() - i,
    {
        r.push(crate::slug::slug_from_title(games[i].raw_title.as_str()));
        i += 1;
    }
    r
}

/// The game a slug names among games listed by slug: the last one under
/// that slug (a later game with the same slug replaces an earlier one).
pub fn game_for_slug(slugs: &Vec<String>, slug: &str) -> (r: Option<usize>)
    ensures
        match r {
            Some(i) => i < slugs.len() && slugs@[i as int]@ == slug@ && forall|j: int|
                i < j < slugs.len() ==> (#[trigger] slugs@[j])@ != slug@,
            None => forall|j: int| 0 <= j < slugs.len() ==> (#[trigger] slugs@[j])@ != slug@,
        },
{
    let mut k: usize = slugs.len();
    while k > 0
        invariant
            k <= slugs.len(),
            forall|j: int| k <= j < slugs.len() ==> (#[trigger] slugs@[j])@ != slug@,
        decreases k,
    {
        if crate::text::str_eq(slugs[k - 1].as_str(), slug) {
            return Some(k - 1);
        }
        k -= 1;
    }
    None
}


// ---------------------------------------------------------------------------
// Law: a second run over unchanged sources writes nothing
// ---------------------------------------------------------------------------

/// The state holds a confirmed record of the slug with this download.
pub open spec fn recorded(
    es: Seq<crate::models::IndexEntryV>,
    slug: Seq<char>,
    best: crate::models::DownloadCandidateV,
) -> bool {
    match lookup(es, slug) {
        Some(e) => e.verified && e.last_version == best.version && e.last_download_source == Some(
            best.source_label,
        ),
        None => false,
    }
}

/// One game of a run, as the state sees it: a game already recorded with
/// its download is skipped and the state is left as it is; any other is
/// published and recorded confirmed with its download (`remember_verified`,
/// `record_update`), whatever title and timestamp the record gets.
pub open spec fn run_step(
    before: Seq<crate::models::IndexEntryV>,
    after: Seq<crate::models::IndexEntryV>,
    slug: Seq<char>,
    best: crate::models::DownloadCandidateV,
) -> bool {
    if recorded(before, slug, best) {
        after == before
    } else {
        exists|e: crate::models::IndexEntryV|
            e.slug == slug && e.verified && e.last_version == best.version && e.last_download_source
                == Some(best.source_label) && after == crate::index::put_entry(before, e)
    }
}

proof fn lemma_run_records(
    states: Seq<Seq<crate::models::IndexEntryV>>,
    games: Seq<(Seq<char>, crate::models::DownloadCandidateV)>,
    n: int,
)
    requires
        0 <= n <= games.len(),
        states.len() == games.len() + 1,
        crate::index::slugs_distinct(states[0]),
        forall|i: int| 0 <= i < games.len() ==> run_step(states[i], #[trigger] states[i + 1], games[i].0, games[i].1),
        forall|i: int, j: int| 0 <= i < j < games.len() ==> (#[trigger] games[i]).0 != (#[trigger] games[j]).0,
    ensures
        crate::index::slugs_distinct(states[n]),
        forall|j: int| 0 <= j < n ==> recorded(states[n], (#[trigger] games[j]).0, games[j].1),
    decreases n,
{
    if n > 0 {
        lemma_run_records(states, games, n - 1);
        let before = states[n - 1];
        let after = states[n];
        let g = games[n - 1];
        let k = n - 1;
        assert(states[k + 1] == after);
        assert(run_step(states[k], states[k + 1], games[k].0, games[k].1));
        if !recorded(before, g.0, g.1) {
            let e = choose|e: crate::models::IndexEntryV|
                e.slug == g.0 && e.verified && e.last_version == g.1.version && e.last_download_source
                    == Some(g.1.source_label) && after == crate::index::put_entry(before, e);
            crate::index::lemma_put_lookup(before, e, e.slug);
            assert forall|j: int| 0 <= j < n implies recorded(after, (#[trigger] games[j]).0, games[j].1) by {
                if j < n - 1 {
                    assert(games[j].0 != g.0);
                    crate::index::lemma_put_lookup(before, e, games[j].0);
                }
            }
        }
    }
}

/// A second run over unchanged sources writes nothing: after a run over
/// games with distinct slugs has recorded each one it published, and the
/// state has been saved and read back, every one of those games, met again
/// with the same download while the run has budget, is unchanged.
pub proof fn lemma_rerun_unchanged(
    states: Seq<Seq<crate::models::IndexEntryV>>,
    games: Seq<(Seq<char>, crate::models::DownloadCandidateV)>,
    reloaded: &Index,
    acted: usize,
    limit: usize,
)
    requires
        states.len() == games.len() + 1,
        crate::index::slugs_distinct(states[0]),
        forall|i: int| 0 <= i < games.len() ==> run_step(states[i], #[trigger] states[i + 1], games[i].0, games[i].1),
        forall|i: int, j: int| 0 <= i < j < games.len() ==> (#[trigger] games[i]).0 != (#[trigger] games[j]).0,
        reloaded.entries_v() == crate::index::put_all(Seq::empty(), states[games.len() as int]),
        acted < limit,
    ensures
        forall|j: int|
            0 <= j < games.len() ==> game_step_spec(reloaded, acted, limit, false, (#[trigger] games[j]).0, games[j].1)
                == GameStep::Unchanged,
{
    let last = states[games.len() as int];
    lemma_run_records(states, games, games.len() as int);
    assert forall|j: int| 0 <= j < games.len() implies game_step_spec(
        reloaded,
        acted,
        limit,
        false,
        (#[trigger] games[j]).0,
        games[j].1,
    ) == GameStep::Unchanged by {
        crate::index::lemma_reload_lookup(last, games[j].0);
        assert(recorded(last, games[j].0, games[j].1));
    }
}


/// What keeps a run from starting: a run that writes (not a dry run, and
/// not a reconcile) needs the API base and then the publishing key.
pub open spec fn api_config_problem_spec(
    dry_run: bool,
    action: Option<RunAction>,
    api_base: Seq<char>,
    key: Seq<char>,
) -> Option<Seq<char>> {
    if !dry_run && action != Some(RunAction::Reconcile) {
        if api_base.len() == 0 {
            Some("gamivoid_api_base must be configured (or use --dry-run)"@)
        } else if key.len() == 0 {
            Some("gamivoid_publishing_key must be configured (or use --dry-run)"@)
        } else {
            None
        }
    } else {
        None
    }
}

/// The configuration error that stops a run before it starts, if any.
pub fn api_config_problem(config: &crate::config::Config, action: Option<RunAction>) -> (r: Option<String>)
    ensures
        r.deep_view() == api_config_problem_spec(
            config.dry_run,
            action,
            config.gamivoid_api_base@,
            config.gamivoid_publishing_key@,
        ),
{
    let reconcile = match action {
        Some(RunAction::Reconcile) => true,
        _ => false,
    };
    if !config.dry_run && !reconcile {
        if crate::text::chars_of(config.gamivoid_api_base.as_str()).len() == 0 {
            return Some(String::from_str("gamivoid_api_base must be configured (or use --dry-run)"));
        }
        if crate::text::chars_of(config.gamivoid_publishing_key.as_str()).len() == 0 {
            return Some(String::from_str("gamivoid_publishing_key must be configured (or use --dry-run)"));
        }
    }
    None
}

} // verus!
