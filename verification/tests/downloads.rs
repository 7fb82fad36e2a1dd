use autogamivoid::downloads::choose_download;
use autogamivoid::models::{DownloadCandidate, SourceLabel};

#[test]
fn prefers_newer_version_and_steamrip_tiebreak() {
    let older = DownloadCandidate {
        url: "https://a.test".into(),
        source_label: SourceLabel::Steamrip,
        version: Some("1.0".into()),
        notes: None,
    };
    let newer_unlocked = DownloadCandidate {
        url: "https://b.test".into(),
        source_label: SourceLabel::Steamunlocked,
        version: Some("2.0".into()),
        notes: None,
    };
    let chosen = choose_download(&[older, newer_unlocked]);
    assert_eq!(chosen.source_label, SourceLabel::Steamunlocked);
    assert_eq!(chosen.version.as_deref(), Some("2.0"));
}

#[test]
fn empty_candidates_fall_back_to_placeholder() {
    let chosen = choose_download(&[]);
    assert!(chosen.url.is_empty());
}

#[test]
fn versioned_beats_unversioned_and_tie_keeps_steamrip() {
    let a = DownloadCandidate {
        url: "https://a.test".into(),
        source_label: SourceLabel::Steamunlocked,
        version: None,
        notes: None,
    };
    let b = DownloadCandidate {
        url: "https://b.test".into(),
        source_label: SourceLabel::Steamunlocked,
        version: Some("1.0".into()),
        notes: None,
    };
    assert_eq!(choose_download(&[a, b]).url, "https://b.test");
    let c = DownloadCandidate {
        url: "https://c.test".into(),
        source_label: SourceLabel::Steamunlocked,
        version: Some("1.0".into()),
        notes: None,
    };
    let d = DownloadCandidate {
        url: "https://d.test".into(),
        source_label: SourceLabel::Steamrip,
        version: Some("1.0".into()),
        notes: None,
    };
    assert_eq!(choose_download(&[c, d]).url, "https://d.test");
}

#[test]
fn the_pick_beats_or_ties_every_candidate() {
    let c = |url: &str, label: SourceLabel, version: Option<&str>| DownloadCandidate {
        url: url.into(),
        source_label: label,
        version: version.map(str::to_string),
        notes: None,
    };
    let cands = vec![
        c("https://a", SourceLabel::Steamrip, Some("1.0")),
        c("https://b", SourceLabel::Steamunlocked, Some("2.0")),
        c("https://c", SourceLabel::Steamunlocked, None),
        c("https://d", SourceLabel::Steamrip, Some("v2.0")),
        c("https://e", SourceLabel::Steamunlocked, Some("1.10")),
    ];
    let chosen = choose_download(&cands);
    assert_eq!(chosen.url, "https://d");
}

#[test]
fn ties_keep_the_first_candidate() {
    let c = |url: &str| DownloadCandidate {
        url: url.into(),
        source_label: SourceLabel::Steamunlocked,
        version: Some("1.0".into()),
        notes: None,
    };
    assert_eq!(choose_download(&[c("https://first"), c("https://second")]).url, "https://first");
}

#[test]
fn pick_is_the_first_candidate_nothing_beats() {
    let c = |url: &str, v: Option<&str>, label: SourceLabel| DownloadCandidate {
        url: url.into(),
        source_label: label,
        version: v.map(str::to_string),
        notes: None,
    };
    let cands = vec![
        c("https://a.test/0", None, SourceLabel::Steamrip),
        c("https://a.test/1", Some("1.9"), SourceLabel::Steamunlocked),
        c("https://a.test/2", Some("1.10"), SourceLabel::Steamunlocked),
        c("https://a.test/3", Some("1.10"), SourceLabel::Steamrip),
        c("https://a.test/5", Some("1.10"), SourceLabel::Steamrip),
    ];
    assert_eq!(choose_download(&cands).url, "https://a.test/3");
    let ties = vec![c("https://b.test/0", Some("2"), SourceLabel::Steamrip), c("https://b.test/1", Some("2"), SourceLabel::Steamrip)];
    assert_eq!(choose_download(&ties).url, "https://b.test/0");
}
