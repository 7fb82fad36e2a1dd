use autogamivoid::index::{now_rfc3339, rfc3339_from_secs, Index};
use autogamivoid::models::{AdminGame, SourceLabel};

#[test]
fn remember_and_detect_changes() {
    let mut index = Index::new(None);
    assert!(index.has_changes("doom", None, &SourceLabel::Steamrip));

    index.remember("doom", Some("DOOM".into()), Some("1.0".into()), Some(SourceLabel::Steamrip));
    assert!(!index.has_changes("doom", Some("1.0"), &SourceLabel::Steamrip));
    assert!(index.has_changes("doom", Some("2.0"), &SourceLabel::Steamrip));
    assert!(index.has_changes("doom", Some("1.0"), &SourceLabel::Steamunlocked));
    assert_eq!(index.entry("doom").unwrap().title.as_deref(), Some("DOOM"));
    assert!(index.entry("doom").unwrap().published_at.is_some());
}

#[test]
fn timestamp_is_rfc3339_like() {
    let ts = now_rfc3339();
    assert_eq!(ts.len(), 20);
    assert!(ts.ends_with('Z'));
    assert_eq!(&ts[4..5], "-");
}

#[test]
fn fixed_timestamps() {
    assert_eq!(rfc3339_from_secs(0), "1970-01-01T00:00:00Z");
    assert_eq!(rfc3339_from_secs(951782400), "2000-02-29T00:00:00Z");
    assert_eq!(rfc3339_from_secs(1700000000), "2023-11-14T22:13:20Z");
}

#[test]
fn remember_keeps_first_time_and_reconcile_heals() {
    let mut index = Index::new(Some("/tmp/state.json".into()));
    index.remember("a", None, Some("1".into()), Some(SourceLabel::Steamrip));
    let first = index.entry("a").unwrap().published_at.clone();
    index.remember("a", Some("A".into()), Some("2".into()), Some(SourceLabel::Steamrip));
    assert_eq!(index.entry("a").unwrap().published_at, first);
    assert_eq!(index.entries.len(), 1);
    index.remember_verified("b", None, None, None);
    index.checkpoint("b");
    index.checkpoint("b");
    assert!(index.has_been_checkpointed("b"));
    assert!(!index.has_been_checkpointed("a"));
    assert_eq!(index.unverified(), vec!["a".to_string()]);
    let site = vec![
        AdminGame { slug: "a".into(), title: Some("Site A".into()), published: true },
        AdminGame { slug: "c".into(), title: None, published: false },
    ];
    let (published, drafts) = index.reconcile_with_site(&site);
    assert_eq!((published, drafts), (1, 1));
    assert!(index.entry("a").unwrap().verified);
    assert_eq!(index.entry("a").unwrap().title.as_deref(), Some("A"));
    assert!(index.entry("c").unwrap().verified);
    assert!(!index.entry("b").unwrap().verified);
    let rows = index.manifest();
    let slugs: Vec<&str> = rows.iter().map(|r| r.slug.as_str()).collect();
    assert_eq!(slugs, vec!["a", "b", "c"]);
    assert_eq!(rows[0].source.as_deref(), Some("steamrip"));
    assert!(index.manifest_path().unwrap().ends_with("published-games.json"));
    index.record_update("a", Some("3".into()), SourceLabel::Steamunlocked);
    assert!(!index.has_changes("a", Some("3"), &SourceLabel::Steamunlocked));
}

#[test]
fn state_file_reloads_every_entry_and_checkpoint() {
    let mut index = Index::new(Some("state.json".into()));
    index.remember_verified("doom", Some("Doom".into()), Some("1.0".into()), Some(SourceLabel::Steamrip));
    index.remember("quake", None, None, Some(SourceLabel::Steamunlocked));
    index.checkpoint("doom");
    let mut state = index.state_file(Some("2024-01-01T00:00:00Z".into()));
    state.index.reverse();
    let back = Index::from_state(state, Some("state.json".into()));
    assert_eq!(back.entries.len(), 2);
    let doom = back.entry("doom").unwrap();
    assert_eq!(doom.last_version.as_deref(), Some("1.0"));
    assert!(doom.verified);
    let quake = back.entry("quake").unwrap();
    assert!(!quake.verified);
    assert_eq!(quake.last_download_source, Some(SourceLabel::Steamunlocked));
    assert!(back.has_been_checkpointed("doom"));
    assert!(!back.has_been_checkpointed("quake"));
    assert!(!back.has_changes("doom", Some("1.0"), &SourceLabel::Steamrip));
}

#[test]
fn manifest_lists_every_entry_in_slug_order() {
    let mut index = Index::new(None);
    for slug in ["zeta", "alpha", "mid", "beta"] {
        index.remember(slug, None, Some("1".into()), Some(SourceLabel::Steamrip));
    }
    let rows = index.manifest();
    let slugs: Vec<&str> = rows.iter().map(|r| r.slug.as_str()).collect();
    assert_eq!(slugs, vec!["alpha", "beta", "mid", "zeta"]);
    assert_eq!(rows[0].source.as_deref(), Some("steamrip"));
    assert_eq!(rows[0].version.as_deref(), Some("1"));
}

#[test]
fn reconcile_inserts_site_listings_and_fills_missing_titles() {
    let mut index = Index::new(None);
    index.remember("known", None, Some("1.0".into()), Some(SourceLabel::Steamrip));
    let site = vec![
        AdminGame { slug: "new".into(), title: None, published: true },
        AdminGame { slug: "known".into(), title: Some("Known Game".into()), published: false },
        AdminGame { slug: "new".into(), title: Some("New Game".into()), published: true },
        AdminGame { slug: "known".into(), title: Some("Other Title".into()), published: false },
    ];
    let (published, drafts) = index.reconcile_with_site(&site);
    assert_eq!((published, drafts), (2, 2));
    let fresh = index.entry("new").unwrap();
    assert_eq!(fresh.title.as_deref(), Some("New Game"));
    assert!(fresh.last_version.is_none());
    assert!(fresh.last_download_source.is_none());
    assert!(fresh.published_at.as_deref().map(|t| t.ends_with('Z')).unwrap_or(false));
    assert!(fresh.verified);
    let known = index.entry("known").unwrap();
    assert_eq!(known.title.as_deref(), Some("Known Game"));
    assert_eq!(known.last_version.as_deref(), Some("1.0"));
    assert!(known.verified);
}

#[test]
fn manifest_sits_beside_the_state_file() {
    let index = Index::new(Some("/var/lib/agv/state.json".into()));
    assert_eq!(index.manifest_path().as_deref(), Some("/var/lib/agv/published-games.json"));
    let bare = Index::new(Some("state.json".into()));
    assert_eq!(bare.manifest_path().as_deref(), Some("published-games.json"));
    assert!(Index::new(None).manifest_path().is_none());
}
