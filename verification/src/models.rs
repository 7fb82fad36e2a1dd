//! The records that flow through a run: scraped source entries, matched
//! games, download candidates, enriched listings and state rows.
use vstd::prelude::*;
use crate::text::{eq_ignore_ascii_case, eq_ignore_case, trim, trim_str};
use crate::json::{
    as_bool, as_str, bool_of, get, items_of, member, member_spec, members_of, str_of, Json,
};

verus! {

broadcast use vstd::string::group_string_axioms;

/// The two source sites.
#[derive(Clone, Copy, Debug, PartialEq, Eq, Hash, Structural)]
pub enum SourceLabel {
    Steamrip,
    Steamunlocked,
}

impl SourceLabel {
    /// The lower-case site name ("steamrip" / "steamunlocked").
    pub fn name(&self) -> (r: String)
        ensures
            r@ == self.name_spec(),
    {
        match self {
            SourceLabel::Steamrip => String::from_str("steamrip"),
            SourceLabel::Steamunlocked => String::from_str("steamunlocked"),
        }
    }

    pub open spec fn name_spec(&self) -> Seq<char> {
        match self {
            SourceLabel::Steamrip => "steamrip"@,
            SourceLabel::Steamunlocked => "steamunlocked"@,
        }
    }
}

/// One game entry scraped from a source listing.
#[derive(Clone, Debug)]
pub struct SourceGame {
    pub title: String,
    pub download_url: String,
    pub version: Option<String>,
    pub notes: Option<String>,
    pub source_label: SourceLabel,
}

pub struct SourceGameV {
    pub title: Seq<char>,
    pub download_url: Seq<char>,
    pub version: Option<Seq<char>>,
    pub notes: Option<Seq<char>>,
    pub source_label: SourceLabel,
}

impl View for SourceGame {
    type V = SourceGameV;

    open spec fn view(&self) -> SourceGameV {
        SourceGameV {
            title: self.title@,
            download_url: self.download_url@,
            version: self.version.deep_view(),
            notes: self.notes.deep_view(),
            source_label: self.source_label,
        }
    }
}

pub fn copy_opt_string(o: &Option<String>) -> (r: Option<String>)
    ensures
        r.deep_view() == o.deep_view(),
{
    match o {
        Some(s) => Some(s.clone()),
        None => None,
    }
}

impl SourceGame {
    /// A field-by-field copy.
    pub fn duplicate(&self) -> (r: SourceGame)
        ensures
            r@ == self@,
    {
        SourceGame {
            title: self.title.clone(),
            download_url: self.download_url.clone(),
            version: copy_opt_string(&self.version),
            notes: copy_opt_string(&self.notes),
            source_label: self.source_label,
        }
    }
}

/// A download the listing may publish.
#[derive(Clone, Debug)]
pub struct DownloadCandidate {
    pub url: String,
    pub source_label: SourceLabel,
    pub version: Option<String>,
    pub notes: Option<String>,
}

pub struct DownloadCandidateV {
    pub url: Seq<char>,
    pub source_label: SourceLabel,
    pub version: Option<Seq<char>>,
    pub notes: Option<Seq<char>>,
}

impl View for DownloadCandidate {
    type V = DownloadCandidateV;

    open spec fn view(&self) -> DownloadCandidateV {
        DownloadCandidateV {
            url: self.url@,
            source_label: self.source_label,
            version: self.version.deep_view(),
            notes: self.notes.deep_view(),
        }
    }
}

impl DownloadCandidate {
    pub fn duplicate(&self) -> (r: DownloadCandidate)
        ensures
            r@ == self@,
    {
        DownloadCandidate {
            url: self.url.clone(),
            source_label: self.source_label,
            version: copy_opt_string(&self.version),
            notes: copy_opt_string(&self.notes),
        }
    }

    /// The placeholder used when there is no candidate at all: empty URL,
    /// Steamrip, no version, no notes.
    pub fn placeholder() -> (r: DownloadCandidate)
        ensures
            r@ == placeholder_candidate(),
    {
        DownloadCandidate {
            url: String::new(),
            source_label: SourceLabel::Steamrip,
            version: None,
            notes: None,
        }
    }
}

pub open spec fn placeholder_candidate() -> DownloadCandidateV {
    DownloadCandidateV {
        url: Seq::empty(),
        source_label: SourceLabel::Steamrip,
        version: None,
        notes: None,
    }
}

/// The candidate a source entry offers: its URL, site, version and notes.
pub open spec fn candidate_of(g: SourceGameV) -> DownloadCandidateV {
    DownloadCandidateV {
        url: g.download_url,
        source_label: g.source_label,
        version: g.version,
        notes: g.notes,
    }
}

impl From<SourceGame> for DownloadCandidate {
    fn from(game: SourceGame) -> (r: Self) {
        DownloadCandidate {
            url: game.download_url,
            source_label: game.source_label,
            version: game.version,
            notes: game.notes,
        }
    }
}

impl vstd::std_specs::convert::FromSpecImpl<SourceGame> for DownloadCandidate {
    open spec fn obeys_from_spec() -> bool {
        true
    }

    open spec fn from_spec(v: SourceGame) -> DownloadCandidate {
        DownloadCandidate {
            url: v.download_url,
            source_label: v.source_label,
            version: v.version,
            notes: v.notes,
        }
    }
}

/// `DownloadCandidate::from` on a copy of the entry.
pub fn to_candidate(game: &SourceGame) -> (r: DownloadCandidate)
    ensures
        r@ == candidate_of(game@),
{
    DownloadCandidate::from(game.duplicate())
}

/// One game after matching both sources.
#[derive(Clone, Debug)]
pub struct MatchedGame {
    pub normalized_title: String,
    pub raw_title: String,
    pub candidates: Vec<SourceGame>,
    pub best_download: DownloadCandidate,
}

pub struct MatchedGameV {
    pub normalized_title: Seq<char>,
    pub raw_title: Seq<char>,
    pub candidates: Seq<SourceGameV>,
    pub best_download: DownloadCandidateV,
}

pub open spec fn games_view(gs: Seq<SourceGame>) -> Seq<SourceGameV> {
    gs.map_values(|g: SourceGame| g@)
}

impl View for MatchedGame {
    type V = MatchedGameV;

    open spec fn view(&self) -> MatchedGameV {
        MatchedGameV {
            normalized_title: self.normalized_title@,
            raw_title: self.raw_title@,
            candidates: games_view(self.candidates@),
            best_download: self.best_download@,
        }
    }
}

pub fn copy_games(gs: &Vec<SourceGame>) -> (r: Vec<SourceGame>)
    ensures
        games_view(r@) == games_view(gs@),
{
    let mut r: Vec<SourceGame> = Vec::new();
    let mut i: usize = 0;
    while i < gs.len()
        invariant
            i <= gs.len(),
            r.len() == i,
            forall|k: int| 0 <= k < i ==> #[trigger] r@[k]@ == gs@[k]@,
        decreases gs.len() - i,
    {
        r.push(gs[i].duplicate());
        i += 1;
    }
    assert(games_view(r@) =~= games_view(gs@));
    r
}

impl MatchedGame {
    pub fn duplicate(&self) -> (r: MatchedGame)
        ensures
            r@ == self@,
    {
        MatchedGame {
            normalized_title: self.normalized_title.clone(),
            raw_title: self.raw_title.clone(),
            candidates: copy_games(&self.candidates),
            best_download: self.best_download.duplicate(),
        }
    }
}

pub open spec fn matched_view(ms: Seq<MatchedGame>) -> Seq<MatchedGameV> {
    ms.map_values(|m: MatchedGame| m@)
}

/// One entry of the listing's `downloadLinks` array.
#[derive(Clone, Debug)]
pub struct DownloadLink {
    pub label: String,
    pub url: String,
    pub platform: Option<String>,
    pub version: Option<String>,
    pub file_size: Option<String>,
    pub note: Option<String>,
}

pub struct DownloadLinkV {
    pub label: Seq<char>,
    pub url: Seq<char>,
    pub platform: Option<Seq<char>>,
    pub version: Option<Seq<char>>,
    pub file_size: Option<Seq<char>>,
    pub note: Option<Seq<char>>,
}

impl View for DownloadLink {
    type V = DownloadLinkV;

    open spec fn view(&self) -> DownloadLinkV {
        DownloadLinkV {
            label: self.label@,
            url: self.url@,
            platform: self.platform.deep_view(),
            version: self.version.deep_view(),
            file_size: self.file_size.deep_view(),
            note: self.note.deep_view(),
        }
    }
}

pub open spec fn links_view(ls: Seq<DownloadLink>) -> Seq<DownloadLinkV> {
    ls.map_values(|l: DownloadLink| l@)
}

/// What the game page of a source site reveals beyond its listing anchor.
#[derive(Clone, Debug)]
pub struct SourcePageDetails {
    pub download_urls: Vec<String>,
    pub download_host: Option<String>,
    pub version: Option<String>,
    pub file_size: Option<String>,
    pub developer: Option<String>,
    pub publisher: Option<String>,
    pub genres: Vec<String>,
    pub minimum: Option<String>,
    pub title: Option<String>,
}

pub struct SourcePageDetailsV {
    pub download_urls: Seq<Seq<char>>,
    pub download_host: Option<Seq<char>>,
    pub version: Option<Seq<char>>,
    pub file_size: Option<Seq<char>>,
    pub developer: Option<Seq<char>>,
    pub publisher: Option<Seq<char>>,
    pub genres: Seq<Seq<char>>,
    pub minimum: Option<Seq<char>>,
    pub title: Option<Seq<char>>,
}

impl View for SourcePageDetails {
    type V = SourcePageDetailsV;

    open spec fn view(&self) -> SourcePageDetailsV {
        SourcePageDetailsV {
            download_urls: self.download_urls.deep_view(),
            download_host: self.download_host.deep_view(),
            version: self.version.deep_view(),
            file_size: self.file_size.deep_view(),
            developer: self.developer.deep_view(),
            publisher: self.publisher.deep_view(),
            genres: self.genres.deep_view(),
            minimum: self.minimum.deep_view(),
            title: self.title.deep_view(),
        }
    }
}

pub open spec fn empty_details() -> SourcePageDetailsV {
    SourcePageDetailsV {
        download_urls: Seq::empty(),
        download_host: None,
        version: None,
        file_size: None,
        developer: None,
        publisher: None,
        genres: Seq::empty(),
        minimum: None,
        title: None,
    }
}

impl Default for SourcePageDetails {
    fn default() -> (r: Self)
        ensures
            r@ == empty_details(),
    {
        let r = SourcePageDetails {
            download_urls: Vec::new(),
            download_host: None,
            version: None,
            file_size: None,
            developer: None,
            publisher: None,
            genres: Vec::new(),
            minimum: None,
            title: None,
        };
        assert(r@.download_urls =~= Seq::<Seq<char>>::empty());
        assert(r@.genres =~= Seq::<Seq<char>>::empty());
        r
    }
}

impl SourcePageDetails {
    pub fn duplicate(&self) -> (r: SourcePageDetails)
        ensures
            r@ == self@,
    {
        SourcePageDetails {
            download_urls: copy_strings(&self.download_urls),
            download_host: copy_opt_string(&self.download_host),
            version: copy_opt_string(&self.version),
            file_size: copy_opt_string(&self.file_size),
            developer: copy_opt_string(&self.developer),
            publisher: copy_opt_string(&self.publisher),
            genres: copy_strings(&self.genres),
            minimum: copy_opt_string(&self.minimum),
            title: copy_opt_string(&self.title),
        }
    }

    /// Nothing at all was extracted from the page.
    pub fn is_empty(&self) -> (r: bool)
        ensures
            r == (self@ == empty_details()),
    {
        let r = self.download_urls.len() == 0 && self.download_host.is_none()
            && self.version.is_none() && self.file_size.is_none() && self.developer.is_none()
            && self.publisher.is_none() && self.genres.len() == 0 && self.minimum.is_none()
            && self.title.is_none();
        proof {
            assert(self.download_urls.deep_view().len() == self.download_urls.len());
            assert(self.genres.deep_view().len() == self.genres.len());
            if r {
                assert(self@.download_urls =~= Seq::<Seq<char>>::empty());
                assert(self@.genres =~= Seq::<Seq<char>>::empty());
            }
        }
        r
    }
}

/// The live category taxonomy of the site.
#[derive(Clone, Debug)]
pub struct Taxonomy {
    pub categories: Vec<String>,
}

/// First category equal to `cand` (trimmed) ignoring ASCII case.
pub open spec fn exact_match_from(cats: Seq<Seq<char>>, cand: Seq<char>, from: int) -> Option<Seq<char>>
    decreases cats.len() - from,
{
    if from < 0 || from >= cats.len() {
        None
    } else if eq_ignore_case(cats[from], trim(cand)) {
        Some(cats[from])
    } else {
        exact_match_from(cats, cand, from + 1)
    }
}

pub open spec fn exact_match_spec(cats: Seq<Seq<char>>, cand: Seq<char>) -> Option<Seq<char>> {
    exact_match_from(cats, cand, 0)
}

/// The first preference that has an exact match.
pub open spec fn first_present_from(cats: Seq<Seq<char>>, prefs: Seq<Seq<char>>, from: int) -> Option<Seq<char>>
    decreases prefs.len() - from,
{
    if from < 0 || from >= prefs.len() {
        None
    } else {
        match exact_match_spec(cats, prefs[from]) {
            Some(c) => Some(c),
            None => first_present_from(cats, prefs, from + 1),
        }
    }
}

impl Taxonomy {
    /// Exact (case-insensitive) match against the live taxonomy values.
    pub fn exact_match(&self, candidate: &str) -> (r: Option<String>)
        ensures
            r.deep_view() == exact_match_spec(self.categories.deep_view(), candidate@),
    {
        let t = trim_str(candidate);
        let mut i: usize = 0;
        let ghost cats = self.categories.deep_view();
        while i < self.categories.len()
            invariant
                i <= self.categories.len(),
                cats == self.categories.deep_view(),
                t@ == trim(candidate@),
                exact_match_spec(cats, candidate@) == exact_match_from(cats, candidate@, i as int),
            decreases self.categories.len() - i,
        {
            if eq_ignore_ascii_case(self.categories[i].as_str(), t.as_str()) {
                return Some(self.categories[i].clone());
            }
            i += 1;
        }
        None
    }

    /// The first present value from a preference list (e.g. safe fallbacks).
    pub fn first_present(&self, prefs: &[&str]) -> (r: Option<String>)
        ensures
            r.deep_view() == first_present_from(self.categories.deep_view(), prefs@.map_values(|p: &str| p@), 0),
    {
        let ghost ps = prefs@.map_values(|p: &str| p@);
        let mut i: usize = 0;
        while i < prefs.len()
            invariant
                i <= prefs.len(),
                ps == prefs@.map_values(|p: &str| p@),
                first_present_from(self.categories.deep_view(), ps, 0) == first_present_from(self.categories.deep_view(), ps, i as int),
            decreases prefs.len() - i,
        {
            let m = self.exact_match(prefs[i]);
            if m.is_some() {
                return m;
            }
            i += 1;
        }
        None
    }
}

} // verus!

verus! {

// ---------------------------------------------------------------------------
// Copies
// ---------------------------------------------------------------------------

/// A copy of a list of strings.
pub fn copy_strings(v: &Vec<String>) -> (r: Vec<String>)
    ensures
        r.deep_view() == v.deep_view(),
{
    let mut r: Vec<String> = Vec::new();
    let mut i: usize = 0;
    while i < v.len()
        invariant
            i <= v.len(),
            r.len() == i,
            forall|k: int| 0 <= k < i ==> #[trigger] r@[k]@ == v@[k]@,
        decreases v.len() - i,
    {
        r.push(v[i].clone());
        i += 1;
    }
    assert(r.deep_view() =~= v.deep_view());
    r
}

impl DownloadLink {
    pub fn duplicate(&self) -> (r: DownloadLink)
        ensures
            r@ == self@,
    {
        DownloadLink {
            label: self.label.clone(),
            url: self.url.clone(),
            platform: copy_opt_string(&self.platform),
            version: copy_opt_string(&self.version),
            file_size: copy_opt_string(&self.file_size),
            note: copy_opt_string(&self.note),
        }
    }
}

pub fn copy_links(v: &Vec<DownloadLink>) -> (r: Vec<DownloadLink>)
    ensures
        links_view(r@) == links_view(v@),
{
    let mut r: Vec<DownloadLink> = Vec::new();
    let mut i: usize = 0;
    while i < v.len()
        invariant
            i <= v.len(),
            r.len() == i,
            forall|k: int| 0 <= k < i ==> #[trigger] r@[k]@ == v@[k]@,
        decreases v.len() - i,
    {
        r.push(v[i].duplicate());
        i += 1;
    }
    assert(links_view(r@) =~= links_view(v@));
    r
}

// ---------------------------------------------------------------------------
// Listings
// ---------------------------------------------------------------------------

/// A complete listing: every field the publishing API accepts that can be
/// produced. `description` is plain text; `article_md` is safe Markdown.
#[derive(Clone, Debug)]
pub struct EnrichedGame {
    pub raw_title: String,
    pub listing_title: String,
    pub description: String,
    pub article_md: String,
    pub developer: Option<String>,
    pub publisher: Option<String>,
    pub release_date: Option<String>,
    pub platforms: Vec<String>,
    /// Primary category guess; the workflow maps it to an exact taxonomy value.
    pub category_guess: Option<String>,
    /// Extra taxonomy categories.
    pub category_guesses: Vec<String>,
    pub tags: Vec<String>,
    pub cover_image_url: Option<String>,
    pub cover_alt: Option<String>,
    pub hero_image_url: Option<String>,
    pub featured_image_url: Option<String>,
    pub featured_image_alt: Option<String>,
    pub screenshot_urls: Vec<String>,
    pub screenshot_alts: Vec<String>,
    /// Publish gate: needs 10+ characters when publishing.
    pub minimum: Option<String>,
    pub recommended: Option<String>,
    pub version: Option<String>,
    pub file_size: Option<String>,
    pub storage: Option<String>,
    pub instructions: Vec<String>,
    pub download_links: Vec<DownloadLink>,
    pub source_url: Option<String>,
    pub license_type: String,
    /// SEO title (seoTitle).
    pub seo_title: String,
    /// SEO description (seoDescription).
    pub seo_description: String,
    pub steam_app_id: Option<u64>,
    pub published_at: Option<String>,
}

pub struct EnrichedGameV {
    pub raw_title: Seq<char>,
    pub listing_title: Seq<char>,
    pub description: Seq<char>,
    pub article_md: Seq<char>,
    pub developer: Option<Seq<char>>,
    pub publisher: Option<Seq<char>>,
    pub release_date: Option<Seq<char>>,
    pub platforms: Seq<Seq<char>>,
    pub category_guess: Option<Seq<char>>,
    pub category_guesses: Seq<Seq<char>>,
    pub tags: Seq<Seq<char>>,
    pub cover_image_url: Option<Seq<char>>,
    pub cover_alt: Option<Seq<char>>,
    pub hero_image_url: Option<Seq<char>>,
    pub featured_image_url: Option<Seq<char>>,
    pub featured_image_alt: Option<Seq<char>>,
    pub screenshot_urls: Seq<Seq<char>>,
    pub screenshot_alts: Seq<Seq<char>>,
    pub minimum: Option<Seq<char>>,
    pub recommended: Option<Seq<char>>,
    pub version: Option<Seq<char>>,
    pub file_size: Option<Seq<char>>,
    pub storage: Option<Seq<char>>,
    pub instructions: Seq<Seq<char>>,
    pub download_links: Seq<DownloadLinkV>,
    pub source_url: Option<Seq<char>>,
    pub license_type: Seq<char>,
    pub seo_title: Seq<char>,
    pub seo_description: Seq<char>,
    pub steam_app_id: Option<u64>,
    pub published_at: Option<Seq<char>>,
}

impl View for EnrichedGame {
    type V = EnrichedGameV;

    open spec fn view(&self) -> EnrichedGameV {
        EnrichedGameV {
            raw_title: self.raw_title@,
            listing_title: self.listing_title@,
            description: self.description@,
            article_md: self.article_md@,
            developer: self.developer.deep_view(),
            publisher: self.publisher.deep_view(),
            release_date: self.release_date.deep_view(),
            platforms: self.platforms.deep_view(),
            category_guess: self.category_guess.deep_view(),
            category_guesses: self.category_guesses.deep_view(),
            tags: self.tags.deep_view(),
            cover_image_url: self.cover_image_url.deep_view(),
            cover_alt: self.cover_alt.deep_view(),
            hero_image_url: self.hero_image_url.deep_view(),
            featured_image_url: self.featured_image_url.deep_view(),
            featured_image_alt: self.featured_image_alt.deep_view(),
            screenshot_urls: self.screenshot_urls.deep_view(),
            screenshot_alts: self.screenshot_alts.deep_view(),
            minimum: self.minimum.deep_view(),
            recommended: self.recommended.deep_view(),
            version: self.version.deep_view(),
            file_size: self.file_size.deep_view(),
            storage: self.storage.deep_view(),
            instructions: self.instructions.deep_view(),
            download_links: links_view(self.download_links@),
            source_url: self.source_url.deep_view(),
            license_type: self.license_type@,
            seo_title: self.seo_title@,
            seo_description: self.seo_description@,
            steam_app_id: self.steam_app_id,
            published_at: self.published_at.deep_view(),
        }
    }
}

/// PATCH body: a `None` field is omitted, and the site keeps its value.
#[derive(Clone, Debug)]
pub struct GamivoidGamePatch {
    pub version: Option<String>,
    pub file_size: Option<String>,
    pub download_links: Option<Vec<DownloadLink>>,
    pub published: Option<bool>,
    pub description: Option<String>,
    pub article: Option<String>,
    pub seo_title: Option<String>,
    pub seo_description: Option<String>,
    pub minimum: Option<String>,
    pub recommended: Option<String>,
    pub instructions: Option<Vec<String>>,
    pub source_url: Option<String>,
    pub license_type: Option<String>,
    pub category: Option<String>,
    pub tags: Option<Vec<String>>,
}

pub struct GamivoidGamePatchV {
    pub version: Option<Seq<char>>,
    pub file_size: Option<Seq<char>>,
    pub download_links: Option<Seq<DownloadLinkV>>,
    pub published: Option<bool>,
    pub description: Option<Seq<char>>,
    pub article: Option<Seq<char>>,
    pub seo_title: Option<Seq<char>>,
    pub seo_description: Option<Seq<char>>,
    pub minimum: Option<Seq<char>>,
    pub recommended: Option<Seq<char>>,
    pub instructions: Option<Seq<Seq<char>>>,
    pub source_url: Option<Seq<char>>,
    pub license_type: Option<Seq<char>>,
    pub category: Option<Seq<char>>,
    pub tags: Option<Seq<Seq<char>>>,
}

pub open spec fn opt_links_view(o: Option<Vec<DownloadLink>>) -> Option<Seq<DownloadLinkV>> {
    match o {
        Some(v) => Some(links_view(v@)),
        None => None,
    }
}

impl View for GamivoidGamePatch {
    type V = GamivoidGamePatchV;

    open spec fn view(&self) -> GamivoidGamePatchV {
        GamivoidGamePatchV {
            version: self.version.deep_view(),
            file_size: self.file_size.deep_view(),
            download_links: opt_links_view(self.download_links),
            published: self.published,
            description: self.description.deep_view(),
            article: self.article.deep_view(),
            seo_title: self.seo_title.deep_view(),
            seo_description: self.seo_description.deep_view(),
            minimum: self.minimum.deep_view(),
            recommended: self.recommended.deep_view(),
            instructions: self.instructions.deep_view(),
            source_url: self.source_url.deep_view(),
            license_type: self.license_type.deep_view(),
            category: self.category.deep_view(),
            tags: self.tags.deep_view(),
        }
    }
}

/// The patch that changes nothing.
pub open spec fn empty_patch() -> GamivoidGamePatchV {
    GamivoidGamePatchV {
        version: None,
        file_size: None,
        download_links: None,
        published: None,
        description: None,
        article: None,
        seo_title: None,
        seo_description: None,
        minimum: None,
        recommended: None,
        instructions: None,
        source_url: None,
        license_type: None,
        category: None,
        tags: None,
    }
}

impl Default for GamivoidGamePatch {
    fn default() -> (r: Self)
        ensures
            r@ == empty_patch(),
    {
        GamivoidGamePatch {
            version: None,
            file_size: None,
            download_links: None,
            published: None,
            description: None,
            article: None,
            seo_title: None,
            seo_description: None,
            minimum: None,
            recommended: None,
            instructions: None,
            source_url: None,
            license_type: None,
            category: None,
            tags: None,
        }
    }
}

impl GamivoidGamePatch {
    /// Builder: include the primary category in the patch.
    pub fn with_category(self, category: &str) -> (r: Self)
        ensures
            r@ == (GamivoidGamePatchV { category: Some(category@), ..self@ }),
    {
        let mut p = self;
        p.category = Some(String::from_str(category));
        p
    }

    /// Builder: include the first 30 tags in the patch.
    pub fn with_tags(self, tags: &[String]) -> (r: Self)
        ensures
            r@ == (GamivoidGamePatchV {
                tags: Some(crate::text::strs_view(tags@).take(
                    if tags@.len() < 30 {
                        tags@.len() as int
                    } else {
                        30
                    },
                )),
                ..self@
            }),
    {
        let n: usize = if tags.len() < 30 {
            tags.len()
        } else {
            30
        };
        let mut out: Vec<String> = Vec::new();
        let mut i: usize = 0;
        while i < n
            invariant
                i <= n <= tags.len(),
                out.len() == i,
                forall|k: int| 0 <= k < i ==> #[trigger] out@[k]@ == tags@[k]@,
            decreases n - i,
        {
            out.push(tags[i].clone());
            i += 1;
        }
        assert(out.deep_view() =~= crate::text::strs_view(tags@).take(n as int));
        let mut p = self;
        p.tags = Some(out);
        p
    }
}

/// Create response envelope: `{ "game": { ... } }`.
#[derive(Clone, Debug)]
pub struct GameEnvelope {
    pub game: GamivoidGameSummary,
}

/// The part of a saved game read back from create/patch responses.
#[derive(Clone, Debug)]
pub struct GamivoidGameSummary {
    pub slug: String,
    pub published: bool,
    pub etag: Option<String>,
}

/// One owner listing on the site (reconcile).
#[derive(Clone, Debug)]
pub struct AdminGame {
    pub slug: String,
    pub title: Option<String>,
    pub published: bool,
}

/// One row of the local state: what was last published under a slug.
#[derive(Clone, Debug)]
pub struct IndexEntry {
    pub slug: String,
    pub title: Option<String>,
    pub last_version: Option<String>,
    pub last_download_source: Option<SourceLabel>,
    pub published_at: Option<String>,
    /// True only once the listing is confirmed to exist on the site.
    pub verified: bool,
}

pub struct IndexEntryV {
    pub slug: Seq<char>,
    pub title: Option<Seq<char>>,
    pub last_version: Option<Seq<char>>,
    pub last_download_source: Option<SourceLabel>,
    pub published_at: Option<Seq<char>>,
    pub verified: bool,
}

impl View for IndexEntry {
    type V = IndexEntryV;

    open spec fn view(&self) -> IndexEntryV {
        IndexEntryV {
            slug: self.slug@,
            title: self.title.deep_view(),
            last_version: self.last_version.deep_view(),
            last_download_source: self.last_download_source,
            published_at: self.published_at.deep_view(),
            verified: self.verified,
        }
    }
}

impl IndexEntry {
    pub fn duplicate(&self) -> (r: IndexEntry)
        ensures
            r@ == self@,
    {
        IndexEntry {
            slug: self.slug.clone(),
            title: copy_opt_string(&self.title),
            last_version: copy_opt_string(&self.last_version),
            last_download_source: self.last_download_source,
            published_at: copy_opt_string(&self.published_at),
            verified: self.verified,
        }
    }
}

/// The state file: last run time, the entries (one per slug) and the
/// checkpointed slugs.
#[derive(Clone, Debug)]
pub struct StateFile {
    pub last_run_at: Option<String>,
    pub index: Vec<IndexEntry>,
    pub checkpoint: Vec<String>,
}

/// One row of the exported published-games manifest.
#[derive(Clone, Debug)]
pub struct ManifestEntry {
    pub slug: String,
    pub title: Option<String>,
    pub version: Option<String>,
    pub source: Option<String>,
    pub published_at: Option<String>,
}

pub struct ManifestEntryV {
    pub slug: Seq<char>,
    pub title: Option<Seq<char>>,
    pub version: Option<Seq<char>>,
    pub source: Option<Seq<char>>,
    pub published_at: Option<Seq<char>>,
}

impl View for ManifestEntry {
    type V = ManifestEntryV;

    open spec fn view(&self) -> ManifestEntryV {
        ManifestEntryV {
            slug: self.slug@,
            title: self.title.deep_view(),
            version: self.version.deep_view(),
            source: self.source.deep_view(),
            published_at: self.published_at.deep_view(),
        }
    }
}

} // verus!

verus! {

// ---------------------------------------------------------------------------
// Owner API replies
// ---------------------------------------------------------------------------

/// The list a lenient reply holds: a bare array, else the object's `key`
/// member (else its `alt` member) when that is an array; empty otherwise.
pub open spec fn reply_list_spec(v: Json, key: Seq<char>, alt: Seq<char>) -> Seq<Json> {
    match v {
        Json::Array(a) => a@,
        Json::Object(es) => {
            let m = match member_spec(es@, key) {
                Some(x) => Some(x),
                None => member_spec(es@, alt),
            };
            match items_of(m) {
                Some(a) => a,
                None => Seq::empty(),
            }
        },
        _ => Seq::empty(),
    }
}

fn reply_list<'a>(v: &'a Json, key: &str, alt: &str) -> (r: Option<&'a Vec<Json>>)
    ensures
        match r {
            Some(a) => a@ == reply_list_spec(*v, key@, alt@),
            None => reply_list_spec(*v, key@, alt@) == Seq::<Json>::empty(),
        },
{
    match v {
        Json::Array(a) => Some(a),
        Json::Object(es) => {
            let m = match member(es, key) {
                Some(x) => Some(x),
                None => member(es, alt),
            };
            match m {
                Some(Json::Array(a)) => Some(a),
                _ => None,
            }
        },
        _ => None,
    }
}

/// An optional `title`: missing or null is none, a string is the title,
/// anything else does not read.
pub open spec fn title_field(j: Option<Json>) -> Option<Option<Seq<char>>> {
    match j {
        None => Some(None),
        Some(Json::Null) => Some(None),
        Some(Json::Str(t)) => Some(Some(t@)),
        _ => None,
    }
}

/// An optional `published`: missing is false, a boolean is itself,
/// anything else does not read.
pub open spec fn flag_field(j: Option<Json>) -> Option<bool> {
    match j {
        None => Some(false),
        Some(Json::Bool(b)) => Some(b),
        _ => None,
    }
}

/// An owner listing as (slug, title, published), read the way the listing
/// record is declared: an object with a string `slug`, an optional `title`
/// and an optional `published` (other members ignored), or the same fields
/// as a list of one to three values in that order. `None` when it does not
/// read.
pub open spec fn admin_game_spec(j: Json) -> Option<(Seq<char>, Option<Seq<char>>, bool)> {
    match j {
        Json::Object(es) => match (
            str_of(member_spec(es@, "slug"@)),
            title_field(member_spec(es@, "title"@)),
            flag_field(member_spec(es@, "published"@)),
        ) {
            (Some(s), Some(t), Some(p)) => Some((s, t, p)),
            _ => None,
        },
        Json::Array(a) => if 1 <= a@.len() <= 3 {
            match (
                str_of(Some(a@[0])),
                if a@.len() >= 2 {
                    title_field(Some(a@[1]))
                } else {
                    Some(None)
                },
                if a@.len() >= 3 {
                    flag_field(Some(a@[2]))
                } else {
                    Some(false)
                },
            ) {
                (Some(s), Some(t), Some(p)) => Some((s, t, p)),
                _ => None,
            }
        } else {
            None
        },
        _ => None,
    }
}

pub open spec fn admin_view(g: AdminGame) -> (Seq<char>, Option<Seq<char>>, bool) {
    (g.slug@, g.title.deep_view(), g.published)
}

/// The listings that read, in order.
pub open spec fn admin_games_in(items: Seq<Json>) -> Seq<(Seq<char>, Option<Seq<char>>, bool)>
    decreases items.len(),
{
    if items.len() == 0 {
        Seq::empty()
    } else {
        let prev = admin_games_in(items.drop_last());
        match admin_game_spec(items.last()) {
            Some(g) => prev.push(g),
            None => prev,
        }
    }
}

fn title_of(j: Option<&Json>) -> (r: Option<Option<String>>)
    ensures
        match r {
            Some(t) => title_field(crate::json::deref_opt(j)) == Some(t.deep_view()),
            None => title_field(crate::json::deref_opt(j)) is None,
        },
{
    match j {
        None => Some(None),
        Some(Json::Null) => Some(None),
        Some(Json::Str(_)) => Some(as_str(j)),
        _ => None,
    }
}

fn flag_of(j: Option<&Json>) -> (r: Option<bool>)
    ensures
        r == flag_field(crate::json::deref_opt(j)),
{
    match j {
        None => Some(false),
        Some(Json::Bool(b)) => Some(*b),
        _ => None,
    }
}

fn admin_game_of(j: &Json) -> (r: Option<AdminGame>)
    ensures
        match r {
            Some(g) => admin_game_spec(*j) == Some(admin_view(g)),
            None => admin_game_spec(*j) is None,
        },
{
    let (slug, title, published) = match j {
        Json::Object(es) => (
            as_str(member(es, "slug")),
            title_of(member(es, "title")),
            flag_of(member(es, "published")),
        ),
        Json::Array(a) => {
            if a.len() < 1 || a.len() > 3 {
                return None;
            }
            (
                as_str(Some(&a[0])),
                if a.len() >= 2 {
                    title_of(Some(&a[1]))
                } else {
                    Some(None)
                },
                if a.len() >= 3 {
                    flag_of(Some(&a[2]))
                } else {
                    Some(false)
                },
            )
        },
        _ => return None,
    };
    match (slug, title, published) {
        (Some(s), Some(t), Some(p)) => Some(AdminGame { slug: s, title: t, published: p }),
        _ => None,
    }
}

/// Lenient owner-list parsing: `{"games": [...]}`, `{"data": [...]}` or a
/// bare array; items that do not read as listings are dropped.
pub fn parse_admin_games(value: &Json) -> (r: Vec<AdminGame>)
    ensures
        r@.map_values(|g: AdminGame| admin_view(g)) == admin_games_in(
            reply_list_spec(*value, "games"@, "data"@),
        ),
{
    let mut out: Vec<AdminGame> = Vec::new();
    let ghost items = reply_list_spec(*value, "games"@, "data"@);
    match reply_list(value, "games", "data") {
        None => {
            assert(out@.map_values(|g: AdminGame| admin_view(g)) =~= Seq::<
                (Seq<char>, Option<Seq<char>>, bool),
            >::empty());
        },
        Some(a) => {
            let mut i: usize = 0;
            assert(a@.take(0) =~= Seq::<Json>::empty());
            assert(out@.map_values(|g: AdminGame| admin_view(g)) =~= Seq::<
                (Seq<char>, Option<Seq<char>>, bool),
            >::empty());
            while i < a.len()
                invariant
                    i <= a.len(),
                    out@.map_values(|g: AdminGame| admin_view(g)) == admin_games_in(a@.take(i as int)),
                decreases a.len() - i,
            {
                assert(a@.take(i + 1).drop_last() =~= a@.take(i as int));
                assert(a@.take(i + 1).last() == a@[i as int]);
                match admin_game_of(&a[i]) {
                    Some(g) => {
                        let ghost before = out@;
                        out.push(g);
                        assert(out@.map_values(|g: AdminGame| admin_view(g)) =~= before.map_values(
                            |g: AdminGame| admin_view(g),
                        ).push(admin_view(g)));
                    },
                    None => {},
                }
                i += 1;
            }
            assert(a@.take(a.len() as int) =~= a@);
        },
    }
    out
}

/// The cursor of a list reply: `hasMore` (required, a boolean) and
/// `nextCursor` when it is a string.
pub open spec fn cursor_spec(v: Json) -> Option<(bool, Option<Seq<char>>)> {
    match members_of(Some(v)) {
        Some(es) => match bool_of(member_spec(es, "hasMore"@)) {
            Some(h) => Some((h, str_of(member_spec(es, "nextCursor"@)))),
            None => None,
        },
        None => None,
    }
}

/// Cursor fields some list responses include.
pub fn parse_cursor(value: &Json) -> (r: Option<(bool, Option<String>)>)
    ensures
        match r {
            Some((h, n)) => cursor_spec(*value) == Some((h, n.deep_view())),
            None => cursor_spec(*value) is None,
        },
{
    match value {
        Json::Object(es) => match as_bool(member(es, "hasMore")) {
            Some(h) => Some((h, as_str(member(es, "nextCursor")))),
            None => None,
        },
        _ => None,
    }
}

/// A category's name: a string item is itself; an object is named by the
/// first of `name`, `slug`, `title`, `id` that is a string (else empty);
/// anything else is skipped.
pub open spec fn category_name(j: Json) -> Option<Seq<char>> {
    match j {
        Json::Str(s) => Some(s@),
        Json::Object(es) => Some(
            match str_of(member_spec(es@, "name"@)) {
                Some(n) => n,
                None => match str_of(member_spec(es@, "slug"@)) {
                    Some(n) => n,
                    None => match str_of(member_spec(es@, "title"@)) {
                        Some(n) => n,
                        None => match str_of(member_spec(es@, "id"@)) {
                            Some(n) => n,
                            None => Seq::empty(),
                        },
                    },
                },
            },
        ),
        _ => None,
    }
}

/// The category names, in order, that are not blank.
pub open spec fn category_names(items: Seq<Json>) -> Seq<Seq<char>>
    decreases items.len(),
{
    if items.len() == 0 {
        Seq::empty()
    } else {
        let prev = category_names(items.drop_last());
        match category_name(items.last()) {
            Some(n) => if trim(n).len() > 0 {
                prev.push(n)
            } else {
                prev
            },
            None => prev,
        }
    }
}

fn category_name_of(j: &Json) -> (r: Option<String>)
    ensures
        r.deep_view() == category_name(*j),
{
    match j {
        Json::Str(_) => as_str(Some(j)),
        Json::Object(es) => {
            match as_str(member(es, "name")) {
                Some(n) => Some(n),
                None => match as_str(member(es, "slug")) {
                    Some(n) => Some(n),
                    None => match as_str(member(es, "title")) {
                        Some(n) => Some(n),
                        None => match as_str(member(es, "id")) {
                            Some(n) => Some(n),
                            None => Some(String::new()),
                        },
                    },
                },
            }
        },
        _ => None,
    }
}

impl Taxonomy {
    /// Lenient taxonomy: `{"categories": [...]}`, `{"data": [...]}` or a
    /// bare array, of strings or of objects named by `name`, `slug`,
    /// `title` or `id`; blank names are dropped.
    pub fn from_json(value: &Json) -> (r: Taxonomy)
        ensures
            r.categories.deep_view() == category_names(reply_list_spec(*value, "categories"@, "data"@)),
    {
        let mut out: Vec<String> = Vec::new();
        match reply_list(value, "categories", "data") {
            None => {
                assert(out.deep_view() =~= Seq::<Seq<char>>::empty());
            },
            Some(a) => {
                let mut i: usize = 0;
                assert(a@.take(0) =~= Seq::<Json>::empty());
                assert(out.deep_view() =~= Seq::<Seq<char>>::empty());
                while i < a.len()
                    invariant
                        i <= a.len(),
                        out.deep_view() == category_names(a@.take(i as int)),
                    decreases a.len() - i,
                {
                    assert(a@.take(i + 1).drop_last() =~= a@.take(i as int));
                    assert(a@.take(i + 1).last() == a@[i as int]);
                    match category_name_of(&a[i]) {
                        Some(n) => {
                            let t = trim_str(n.as_str());
                            if crate::text::chars_of(t.as_str()).len() > 0 {
                                let ghost before = out.deep_view();
                                out.push(n);
                                assert(out.deep_view() =~= before.push(n@));
                            }
                        },
                        None => {},
                    }
                    i += 1;
                }
                assert(a@.take(a.len() as int) =~= a@);
            },
        }
        Taxonomy { categories: out }
    }
}

/// Whether a listing read from the site is published (a `published` member
/// that is `true`).
pub fn site_published(listing: &Json) -> (r: bool)
    ensures
        r == (bool_of(crate::json::get_spec(*listing, "published"@)) == Some(true)),
{
    match as_bool(get(listing, "published")) {
        Some(b) => b,
        None => false,
    }
}

} // verus!

