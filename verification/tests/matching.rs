use autogamivoid::matching::{
    match_rank, match_sources, match_sources_bucketed, normalize_title, strip_version_noise,
    title_similarity, Similarity,
};
use autogamivoid::models::{SourceGame, SourceLabel};

fn game(title: &str, url: &str, version: Option<&str>, label: SourceLabel) -> SourceGame {
    SourceGame {
        title: title.into(),
        download_url: url.into(),
        version: version.map(str::to_string),
        notes: None,
        source_label: label,
    }
}

#[test]
fn matches_identical_titles() {
    let sr = game("Half-Life 2", "https://a.test", Some("2.0"), SourceLabel::Steamrip);
    let su = game("Half-Life 2", "https://b.test", None, SourceLabel::Steamunlocked);
    let matched = match_sources(vec![sr], vec![su]);
    assert_eq!(matched.len(), 1);
    assert_eq!(matched[0].candidates.len(), 2);
    assert_eq!(matched[0].best_download.source_label, SourceLabel::Steamrip);
}

#[test]
fn matches_across_version_suffixes() {
    let sr = game("Elden Ring", "https://a.test", Some("1.10"), SourceLabel::Steamrip);
    let su = game("ELDEN RING [v1.12] Free Download", "https://b.test", None, SourceLabel::Steamunlocked);
    let matched = match_sources(vec![sr], vec![su]);
    assert_eq!(matched.len(), 1);
}

#[test]
fn keeps_unmatched_as_single_source() {
    let sr = game("Only On Steamrip", "https://a.test", None, SourceLabel::Steamrip);
    let su = game("Only On Steamunlocked", "https://b.test", None, SourceLabel::Steamunlocked);
    let matched = match_sources(vec![sr], vec![su]);
    assert_eq!(matched.len(), 2);
}

#[test]
fn bucketed_matching_matches_across_buckets() {
    let a = game("Alpha Game", "https://a.test", None, SourceLabel::Steamrip);
    let b = game("Beta Game", "https://b.test", None, SourceLabel::Steamunlocked);
    let matched = match_sources_bucketed(vec![a], vec![b]);
    assert_eq!(matched.len(), 2);
}

#[test]
fn bucketed_matching_pairs_same_title() {
    let a = game("Zombie Dawn Free Download", "https://a.test", None, SourceLabel::Steamrip);
    let b = game("Zombie Dawn (v1.2)", "https://b.test", Some("1.2"), SourceLabel::Steamunlocked);
    let matched = match_sources_bucketed(vec![a], vec![b]);
    assert_eq!(matched.len(), 1);
    assert_eq!(matched[0].candidates.len(), 2);
}

#[test]
fn dedupes_same_normalized_title() {
    let a = game("Doom", "https://a.test", None, SourceLabel::Steamrip);
    let b = game("DOOM", "https://b.test", Some("3"), SourceLabel::Steamunlocked);
    let matched = match_sources(vec![a], vec![b]);
    assert_eq!(matched.len(), 1);
    assert_eq!(matched[0].best_download.version.as_deref(), Some("3"));
}

#[test]
fn similarity_bounds() {
    // ratio 1.0 (> 0.99), 0.9 for a prefix (>= 0.5), and below the 0.85 threshold
    assert_eq!(title_similarity("Half-Life 2", "Half-Life 2"), Similarity::Identical);
    assert_eq!(title_similarity("Portal", "Portal 2"), Similarity::Prefix);
    assert_eq!(match_rank(title_similarity("Portal", "Half-Life")), 0);
}

#[test]
fn similarity_is_symmetric_on_examples() {
    for (a, b) in [("Doom", "Doom II"), ("Alpha", "Beta"), ("Game One", "Game Two")] {
        assert_eq!(title_similarity(a, b), title_similarity(b, a));
    }
}

#[test]
fn noise_is_stripped_and_titles_normalized() {
    assert_eq!(strip_version_noise("Elden Ring [v1.12] Free Download"), "elden ring [v1.12]");
    assert_eq!(strip_version_noise("Doom Free Download [v2]"), "doom");
    assert_eq!(normalize_title("  Half   LIFE "), "half life");
}

#[test]
fn partial_match_ranks() {
    match title_similarity("Abcdefghij Xyz", "Abcdefghij Qyz") {
        Similarity::Partial { matched, shorter } => {
            assert_eq!(shorter, 14);
            assert_eq!(matched, 13);
        }
        other => panic!("unexpected {:?}", other),
    }
    assert_eq!(match_rank(Similarity::Partial { matched: 17, shorter: 19 }), 1);
    assert_eq!(match_rank(Similarity::Partial { matched: 16, shorter: 19 }), 0);
}

fn offered(matched: &[autogamivoid::models::MatchedGame], url: &str) -> bool {
    matched.iter().any(|m| m.candidates.iter().any(|c| c.download_url == url))
}

#[test]
fn no_scraped_entry_is_lost() {
    let sr = vec![
        game("Doom", "https://a.test/1", Some("1.0"), SourceLabel::Steamrip),
        game("DOOM", "https://a.test/2", None, SourceLabel::Steamrip),
        game("Portal 2", "https://a.test/3", None, SourceLabel::Steamrip),
        game("Zeta", "https://a.test/4", None, SourceLabel::Steamrip),
    ];
    let su = vec![
        game("Doom Free Download", "https://b.test/1", Some("1.1"), SourceLabel::Steamunlocked),
        game("Portal", "https://b.test/2", None, SourceLabel::Steamunlocked),
        game("Alpha", "https://b.test/3", None, SourceLabel::Steamunlocked),
    ];
    let all: Vec<String> = sr.iter().chain(su.iter()).map(|g| g.download_url.clone()).collect();
    let matched = match_sources(sr.clone(), su.clone());
    for url in &all {
        assert!(offered(&matched, url), "{url} must be offered");
    }
    let bucketed = match_sources_bucketed(sr, su);
    for url in &all {
        assert!(offered(&bucketed, url), "{url} must be offered when bucketed");
    }
}

#[test]
fn exhaustive_matching_merges_equal_titles_but_one_sided_buckets_do_not() {
    let sr = vec![
        game("Doom", "https://a.test/1", None, SourceLabel::Steamrip),
        game("DOOM", "https://a.test/2", Some("2"), SourceLabel::Steamrip),
    ];
    let su = vec![game("Alpha", "https://b.test/1", None, SourceLabel::Steamunlocked)];
    let merged = match_sources(sr.clone(), su.clone());
    let doom: Vec<_> = merged.iter().filter(|m| m.normalized_title == "doom").collect();
    assert_eq!(doom.len(), 1);
    assert_eq!(doom[0].candidates.len(), 2);
    let bucketed = match_sources_bucketed(sr, su);
    assert_eq!(bucketed.iter().filter(|m| m.normalized_title == "doom").count(), 2);
}

#[test]
fn only_trailing_noise_is_stripped() {
    assert_eq!(strip_version_noise("The Game of Life"), "the game of life");
    assert_eq!(strip_version_noise("Doom Game"), "doom");
    assert_eq!(strip_version_noise("Doom PC Game Free Download"), "doom");
}

#[test]
fn matched_games_are_well_formed() {
    let sr = vec![
        game("Half-Life 2", "https://a.test/1", Some("2.0"), SourceLabel::Steamrip),
        game("Portal", "https://a.test/2", None, SourceLabel::Steamrip),
    ];
    let su = vec![
        game("HALF-LIFE 2 Free Download", "https://b.test/1", None, SourceLabel::Steamunlocked),
        game("Quake", "https://b.test/2", Some("1.1"), SourceLabel::Steamunlocked),
    ];
    for m in match_sources(sr, su) {
        assert!(!m.candidates.is_empty());
        assert_eq!(m.normalized_title, normalize_title(&m.raw_title));
        assert!(m.candidates.iter().any(|c| c.download_url == m.best_download.url));
    }
}

#[test]
fn every_entry_is_offered_exactly_once() {
    let sr = vec![
        game("Hollow Knight", "https://a.test/1", Some("1.5"), SourceLabel::Steamrip),
        game("Celeste", "https://a.test/2", None, SourceLabel::Steamrip),
        game("Hollow Knight v1.5", "https://a.test/3", None, SourceLabel::Steamrip),
    ];
    let su = vec![
        game("Hollow Knight", "https://b.test/1", None, SourceLabel::Steamunlocked),
        game("Hades", "https://b.test/2", None, SourceLabel::Steamunlocked),
        game("Celeste", "https://b.test/3", None, SourceLabel::Steamunlocked),
    ];
    let urls: Vec<String> = sr.iter().chain(su.iter()).map(|g| g.download_url.clone()).collect();
    let matched = match_sources(sr, su);
    let offered: Vec<String> =
        matched.iter().flat_map(|m| m.candidates.iter().map(|c| c.download_url.clone())).collect();
    assert_eq!(offered.len(), urls.len());
    for u in &urls {
        assert_eq!(offered.iter().filter(|o| *o == u).count(), 1, "{u}");
    }
}

#[test]
fn bucketed_matching_offers_every_entry_exactly_once() {
    let sr = vec![
        game("Alpha Game", "https://a.test/1", None, SourceLabel::Steamrip),
        game("Beta Game", "https://a.test/2", Some("2.0"), SourceLabel::Steamrip),
        game("alpha game v2", "https://a.test/3", None, SourceLabel::Steamrip),
        game("7 Days", "https://a.test/4", None, SourceLabel::Steamrip),
    ];
    let su = vec![
        game("Alpha Game", "https://b.test/1", None, SourceLabel::Steamunlocked),
        game("Gamma", "https://b.test/2", None, SourceLabel::Steamunlocked),
        game("Beta Game", "https://b.test/3", None, SourceLabel::Steamunlocked),
    ];
    let urls: Vec<String> = sr.iter().chain(su.iter()).map(|g| g.download_url.clone()).collect();
    let matched = match_sources_bucketed(sr, su);
    let offered: Vec<String> =
        matched.iter().flat_map(|m| m.candidates.iter().map(|c| c.download_url.clone())).collect();
    assert_eq!(offered.len(), urls.len());
    for u in &urls {
        assert_eq!(offered.iter().filter(|o| *o == u).count(), 1, "{u}");
    }
}
