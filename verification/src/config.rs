//! Run configuration: the publishing API, the sources, batch limits and
//! the publish mode.
use vstd::prelude::*;
use crate::text::{chars_of, lower_of, lower_vec, seq_equal};

verus! {

broadcast use vstd::string::group_string_axioms;

/// Everything a run is configured with.
#[derive(Clone, Debug)]
pub struct Config {
    pub gamivoid_api_base: String,
    pub gamivoid_publishing_key: String,
    pub steam_api_key: Option<String>,
    /// SteamSpy API base for real Steam user tags (override only for testing).
    pub steamspy_api: Option<String>,
    /// Steam storefront base URL (override only for testing).
    pub steam_store_api: Option<String>,
    pub sources: Sources,
    pub batch: BatchConfig,
    pub state_path: Option<String>,
    /// Site name used in SEO copy.
    pub site_name: Option<String>,
    /// Where to export the published-games manifest.
    pub published_manifest_path: Option<String>,
    /// How listings are created: drafts (default) or published when every
    /// publish gate passes.
    pub publish_mode: PublishMode,
    /// When true, no writes are made anywhere; the run validates and logs.
    pub dry_run: bool,
}

/// The two source sites.
#[derive(Clone, Debug)]
pub struct Sources {
    pub steamrip: SourceEndpoint,
    pub steamunlocked: SourceEndpoint,
}

/// One source site: its base URL and extra request headers.
#[derive(Clone, Debug)]
pub struct SourceEndpoint {
    pub base_url: String,
    pub headers: Option<Vec<(String, String)>>,
}

/// Batch limits of one scheduled run.
#[derive(Clone, Debug)]
pub struct BatchConfig {
    /// Maximum number of publish actions in one run before resuming next time.
    pub action_limit: usize,
    /// Rough wall-clock budget per run in seconds (0 = unlimited).
    pub seconds_limit: u64,
    /// Pause between owner API requests, in milliseconds.
    pub request_pause_ms: u64,
}

pub fn default_batch_action_limit() -> (r: usize)
    ensures
        r == 200,
{
    200
}

pub fn default_batch_seconds() -> (r: u64)
    ensures
        r == 2700,
{
    2700
}

pub fn default_request_pause_ms() -> (r: u64)
    ensures
        r == 250,
{
    250
}

impl Default for BatchConfig {
    fn default() -> (r: Self)
        ensures
            r.action_limit == 200,
            r.seconds_limit == 2700,
            r.request_pause_ms == 250,
    {
        BatchConfig {
            action_limit: default_batch_action_limit(),
            seconds_limit: default_batch_seconds(),
            request_pause_ms: default_request_pause_ms(),
        }
    }
}

impl Default for SourceEndpoint {
    fn default() -> (r: Self)
        ensures
            r.base_url@.len() == 0,
            r.headers is None,
    {
        SourceEndpoint { base_url: String::new(), headers: None }
    }
}

impl Default for Sources {
    fn default() -> (r: Self)
        ensures
            r.steamrip.base_url@.len() == 0,
            r.steamunlocked.base_url@.len() == 0,
    {
        Sources { steamrip: SourceEndpoint::default(), steamunlocked: SourceEndpoint::default() }
    }
}

impl Default for Config {
    fn default() -> (r: Self)
        ensures
            r.gamivoid_api_base@.len() == 0,
            r.gamivoid_publishing_key@.len() == 0,
            r.publish_mode == PublishMode::Draft,
            !r.dry_run,
            r.batch.action_limit == 200,
    {
        Config {
            gamivoid_api_base: String::new(),
            gamivoid_publishing_key: String::new(),
            steam_api_key: None,
            steamspy_api: None,
            steam_store_api: None,
            sources: Sources::default(),
            batch: BatchConfig::default(),
            state_path: None,
            site_name: None,
            published_manifest_path: None,
            publish_mode: PublishMode::default(),
            dry_run: false,
        }
    }
}

/// Publishing mode: drafts first (safe) or direct publish.
#[derive(Clone, Copy, Debug, PartialEq, Eq, Structural)]
pub enum PublishMode {
    /// Every listing is created unpublished, to be published by hand.
    Draft,
    /// Listings passing every publish gate go live right away.
    Publish,
}

impl Default for PublishMode {
    fn default() -> (r: Self)
        ensures
            r == PublishMode::Draft,
    {
        PublishMode::Draft
    }
}

/// The mode a name selects, compared in lower case: "draft", or
/// "publish" / "published" / "live".
pub open spec fn publish_mode_spec(s: Seq<char>) -> Option<PublishMode> {
    let l = lower_of(s);
    if l == "draft"@ {
        Some(PublishMode::Draft)
    } else if l == "publish"@ || l == "published"@ || l == "live"@ {
        Some(PublishMode::Publish)
    } else {
        None
    }
}

impl PublishMode {
    pub fn parse(s: &str) -> (r: Option<PublishMode>)
        ensures
            r == publish_mode_spec(s@),
    {
        let l = lower_vec(&chars_of(s));
        if seq_equal(&l, &chars_of("draft")) {
            Some(PublishMode::Draft)
        } else if seq_equal(&l, &chars_of("publish")) || seq_equal(&l, &chars_of("published"))
            || seq_equal(&l, &chars_of("live")) {
            Some(PublishMode::Publish)
        } else {
            None
        }
    }

    pub fn is_publish(&self) -> (r: bool)
        ensures
            r == (*self == PublishMode::Publish),
    {
        match self {
            PublishMode::Publish => true,
            PublishMode::Draft => false,
        }
    }
}

} // verus!
