use autogamivoid::enrichment::{build_enriched, unresolved_lookup, EnrichmentInput};
use autogamivoid::index::Index;
use autogamivoid::models::{AdminGame, DownloadCandidate, DownloadLink, EnrichedGame, SourceLabel, Taxonomy};
use autogamivoid::workflow::{
    reset_targets,
    download_patch, existed_verified, game_create_patch_payload, game_create_payload, game_step,
    listing_update, publish_now, resolve_category, run_limit, skip_unchanged,
    time_and_budget_left, validate_publish_gates, GameStep, GateError, ListingUpdate, RunAction,
    RunCounts,
};
use autogamivoid::config::PublishMode;
use autogamivoid::workflow::{both_failed_message, choose_sources, game_for_slug, game_slugs, SourceChoice};
use autogamivoid::models::{MatchedGame, SourceGame};

fn candidate(version: &str, label: SourceLabel) -> DownloadCandidate {
    DownloadCandidate { url: "https://steamrip.com/doom-free-download/".into(), source_label: label, version: Some(version.into()), notes: None }
}

fn enriched() -> EnrichedGame {
    let input = EnrichmentInput {
        normalized_title: "doom".into(),
        raw_title: "Doom".into(),
        best_download: candidate("1.0", SourceLabel::Steamrip),
        candidates: vec![],
        steam_app_id: None,
        steam_store_api: None,
        steamspy_api: None,
        verify_images: false,
        page_details: None,
    };
    build_enriched(&input, &unresolved_lookup())
}

fn link(url: &str) -> DownloadLink {
    DownloadLink { label: "Download".into(), url: url.into(), platform: None, version: None, file_size: None, note: None }
}

#[test]
fn run_actions_parse_case_insensitively() {
    assert_eq!(RunAction::parse("SYNC"), Some(RunAction::Sync));
    assert_eq!(RunAction::parse("catalog"), Some(RunAction::Catalog));
    assert_eq!(RunAction::parse("Updates"), Some(RunAction::Updates));
    assert_eq!(RunAction::parse("reconcile"), Some(RunAction::Reconcile));
    assert_eq!(RunAction::parse("reset"), Some(RunAction::Reset));
    assert_eq!(RunAction::parse("bogus"), None);
}

#[test]
fn budget_and_limit() {
    assert_eq!(run_limit(0), 1);
    assert_eq!(run_limit(7), 7);
    assert!(time_and_budget_left(0, 1, false));
    assert!(!time_and_budget_left(1, 1, false));
    assert!(!time_and_budget_left(0, 5, true));
}

#[test]
fn recorded_games_are_skipped_until_the_download_changes() {
    let mut index = Index::new(None);
    assert!(!skip_unchanged(&index, "doom", &candidate("1.0", SourceLabel::Steamrip)));
    index.remember_verified("doom", Some("Doom".into()), Some("1.0".into()), Some(SourceLabel::Steamrip));
    assert!(existed_verified(&index, "doom"));
    assert!(skip_unchanged(&index, "doom", &candidate("1.0", SourceLabel::Steamrip)));
    assert!(!skip_unchanged(&index, "doom", &candidate("2.0", SourceLabel::Steamrip)));
    assert!(!skip_unchanged(&index, "doom", &candidate("1.0", SourceLabel::Steamunlocked)));
    index.remember("quake", None, Some("1.0".into()), Some(SourceLabel::Steamrip));
    assert!(!existed_verified(&index, "quake"));
    assert!(!skip_unchanged(&index, "quake", &candidate("1.0", SourceLabel::Steamrip)));
}

#[test]
fn counts_follow_outcomes() {
    let mut c = RunCounts::new();
    c.record_publish(false, Some(true));
    assert_eq!((c.created, c.published, c.acted), (1, 1, 1));
    c.record_publish(true, Some(false));
    assert_eq!((c.updated, c.acted), (1, 2));
    c.record_publish(false, None);
    assert_eq!((c.errors, c.acted, c.created), (1, 2, 1));
    c.record_dry_run(true);
    c.record_dry_run(false);
    assert_eq!((c.dry_run_would_publish, c.invalid, c.acted), (1, 1, 4));
}

#[test]
fn category_resolves_to_exact_taxonomy_value() {
    let mut e = enriched();
    e.category_guess = Some("rpg".into());
    e.category_guesses = vec!["Strategy".into()];
    let tax = Taxonomy { categories: vec!["RPG".into(), "Indie".into()] };
    assert_eq!(resolve_category(&e, &tax).ok(), Some("RPG".to_string()));
    e.category_guess = Some("Racing".into());
    assert_eq!(resolve_category(&e, &tax).ok(), Some("Indie".to_string()));
    let none = Taxonomy { categories: vec!["Sports".into()] };
    let err = resolve_category(&e, &none).err().unwrap();
    assert_eq!(err.first_candidate, "Racing");
}

#[test]
fn publish_gates_report_the_first_failure() {
    let tax = Taxonomy { categories: vec!["Action".into()] };
    let mut e = enriched();
    e.cover_image_url = None;
    e.hero_image_url = None;
    assert!(matches!(validate_publish_gates(&e, &tax), Err(GateError::MissingImage)));
    e.cover_image_url = Some("https://cdn.test/header.jpg".into());
    e.download_links = vec![];
    assert!(matches!(validate_publish_gates(&e, &tax), Err(GateError::NoDownloadLinks)));
    e.download_links = vec![link("ftp://x.test/a")];
    assert!(matches!(validate_publish_gates(&e, &tax), Err(GateError::DownloadNotHttp(u)) if u == "ftp://x.test/a"));
    e.download_links = vec![link(&format!("https://x.test/{}", "a".repeat(2000)))];
    assert!(matches!(validate_publish_gates(&e, &tax), Err(GateError::DownloadUrlTooLong(_))));
    e.download_links = vec![link("https://uploadhaven.com/download/x")];
    e.source_url = Some("steamrip.com/x".into());
    assert!(matches!(validate_publish_gates(&e, &tax), Err(GateError::SourceNotHttp)));
    e.source_url = None;
    e.category_guess = Some("Puzzle".into());
    assert!(matches!(validate_publish_gates(&e, &tax), Err(GateError::UnknownCategory(c)) if c == "Puzzle"));
    e.category_guess = Some("action".into());
    assert!(validate_publish_gates(&e, &tax).is_ok());
    e.category_guess = Some("Casual".into());
    assert!(validate_publish_gates(&e, &tax).is_ok());
    e.description = "too short".into();
    assert!(matches!(validate_publish_gates(&e, &tax), Err(GateError::ShortDescription)));
}

#[test]
fn create_payload_carries_slug_category_and_publish_flag() {
    let mut e = enriched();
    e.tags = (0..40).map(|i| format!("t{i}")).collect();
    let p = game_create_payload(&e, "doom-free-download", "Action", true);
    assert_eq!(p.slug, "doom-free-download");
    assert_eq!(p.category, "Action");
    assert!(p.published);
    assert_eq!(p.tags.len(), 30);
    assert_eq!(p.title, "Doom");
    assert!(p.screenshots.is_none());
    let q = game_create_payload(&e, "doom-free-download", "Action", false);
    assert!(!q.published);
}

#[test]
fn patches_send_only_what_changes() {
    let e = enriched();
    let d = download_patch(&e);
    assert_eq!(d.version, e.version);
    assert!(d.download_links.is_some());
    assert!(d.description.is_none() && d.category.is_none() && d.published.is_none());
    let full = game_create_patch_payload(&e, "Indie");
    assert_eq!(full.category.as_deref(), Some("Indie"));
    assert_eq!(full.description.as_deref(), Some(e.description.as_str()));
    assert!(full.published.is_none());
}

#[test]
fn game_steps_follow_budget_and_record() {
    let mut index = Index::new(None);
    let best = candidate("1.0", SourceLabel::Steamrip);
    assert_eq!(game_step(&index, 0, 5, false, "doom", &best), GameStep::Act { existed: false });
    assert_eq!(game_step(&index, 5, 5, false, "doom", &best), GameStep::Stop);
    assert_eq!(game_step(&index, 0, 5, true, "doom", &best), GameStep::Stop);
    index.remember_verified("doom", None, Some("1.0".into()), Some(SourceLabel::Steamrip));
    assert_eq!(game_step(&index, 0, 5, false, "doom", &best), GameStep::Unchanged);
    let newer = candidate("1.1", SourceLabel::Steamrip);
    assert_eq!(game_step(&index, 0, 5, false, "doom", &newer), GameStep::Act { existed: true });
}

#[test]
fn listing_updates_follow_the_site() {
    assert_eq!(listing_update(None), ListingUpdate::Create);
    assert_eq!(listing_update(Some(false)), ListingUpdate::Backfill);
    assert_eq!(listing_update(Some(true)), ListingUpdate::RefreshDownloads);
}

#[test]
fn listings_go_live_only_in_publish_mode_with_gates_passing() {
    let tax = Taxonomy { categories: vec!["Action".into()] };
    let mut e = enriched();
    e.cover_image_url = Some("https://cdn.test/header.jpg".into());
    e.download_links = vec![link("https://uploadhaven.com/download/x")];
    e.category_guess = None;
    assert!(publish_now(PublishMode::Publish, &e, &tax));
    assert!(!publish_now(PublishMode::Draft, &e, &tax));
    e.cover_image_url = None;
    e.hero_image_url = None;
    assert!(!publish_now(PublishMode::Publish, &e, &tax));
}

#[test]
fn reset_deletes_every_listing_and_clears_the_state() {
    let games = vec![
        AdminGame { slug: "a-free-download".into(), title: None, published: true },
        AdminGame { slug: "b-free-download".into(), title: Some("B".into()), published: false },
    ];
    assert_eq!(reset_targets(&games), vec!["a-free-download".to_string(), "b-free-download".to_string()]);
    let mut c = RunCounts::new();
    c.record_delete(true);
    c.record_delete(false);
    assert_eq!((c.removed, c.errors), (1, 1));
    let mut index = Index::new(Some("state.json".into()));
    index.remember_verified("a-free-download", None, None, None);
    index.checkpoint("a-free-download");
    index.clear();
    assert!(index.entries.is_empty());
    assert!(!index.has_been_checkpointed("a-free-download"));
    assert_eq!(index.state_path.as_deref(), Some("state.json"));
    assert!(index.manifest().is_empty());
}

#[test]
fn gate_failures_have_their_messages() {
    assert_eq!(GateError::EmptyTitle.message(), "empty title");
    assert_eq!(
        GateError::NoDownloadLinks.message(),
        "at least one downloadLinks entry is required for published listings"
    );
    assert_eq!(GateError::DownloadNotHttp("ftp://x".into()).message(), "download URL is not http(s): ftp://x");
    assert_eq!(GateError::UnknownCategory("Sports".into()).message(), "category 'Sports' not in taxonomy");
}

#[test]
fn a_run_goes_on_with_any_source_that_answered() {
    assert_eq!(choose_sources(true, true), SourceChoice::Both);
    assert_eq!(choose_sources(true, false), SourceChoice::SteamripOnly);
    assert_eq!(choose_sources(false, true), SourceChoice::SteamunlockedOnly);
    assert_eq!(choose_sources(false, false), SourceChoice::Neither);
    assert_eq!(
        both_failed_message("source scrape", "timeout", "403"),
        "both source scrapes failed: steamrip: timeout; steamunlocked: 403"
    );
}

fn matched(title: &str, url: &str) -> MatchedGame {
    let g = SourceGame {
        title: title.into(),
        download_url: url.into(),
        version: None,
        notes: None,
        source_label: SourceLabel::Steamrip,
    };
    autogamivoid::matching::match_sources(vec![g], vec![]).remove(0)
}

#[test]
fn the_last_game_under_a_slug_wins() {
    let games = vec![matched("Celeste", "https://a.test/1"), matched("Hades", "https://a.test/2"), matched("Celeste", "https://a.test/3")];
    let slugs = game_slugs(&games);
    assert_eq!(slugs[1], "hades-free-download");
    assert_eq!(game_for_slug(&slugs, "celeste-free-download"), Some(2));
    assert_eq!(game_for_slug(&slugs, "hades-free-download"), Some(1));
    assert_eq!(game_for_slug(&slugs, "doom-free-download"), None);
}

#[test]
fn second_run_over_unchanged_sources_acts_on_nothing() {
    let games = vec![("half-life-2-free-download", candidate("1.5", SourceLabel::Steamrip)), ("portal-free-download", candidate("1.0", SourceLabel::Steamrip))];
    let mut index = Index::new(Some("state.json".into()));
    for (slug, best) in &games {
        match game_step(&index, 0, 10, false, slug, best) {
            GameStep::Act { .. } => index.remember_verified(slug, None, best.version.clone(), Some(best.source_label)),
            other => panic!("first run must act, got {other:?}"),
        }
    }
    let reloaded = Index::from_state(index.state_file(None), Some("state.json".into()));
    for (slug, best) in &games {
        assert_eq!(game_step(&reloaded, 0, 10, false, slug, best), GameStep::Unchanged);
    }
}
