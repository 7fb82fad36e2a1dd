use autogamivoid::json::reply_json;
use autogamivoid::enrichment::vote_count;
use autogamivoid::text::parse_u64;
use autogamivoid::enrichment::listing_title;
use autogamivoid::enrichment::{
    build_enriched, clean_version_marker, download_links_for, format_requirements, parse_pc_requirements,
    pick_steam_app, rank_spy_tags, strip_html, titlecase, unresolved_lookup, EnrichmentInput, ImageChecks,
    PcRequirements, SteamAppData, SteamLookup, steam_details_from, image_candidates,
    images_from_steam, steam_details_from_reply, app_from_search_reply, spy_tags_from_reply,
};
use autogamivoid::models::{DownloadCandidate, SourceLabel, SourcePageDetails};

fn input() -> EnrichmentInput {
    EnrichmentInput {
        normalized_title: "some game".into(),
        raw_title: "  Some Game  ".into(),
        best_download: DownloadCandidate {
            url: "https://example.test".into(),
            source_label: SourceLabel::Steamrip,
            version: Some("1.0".into()),
            notes: None,
        },
        candidates: vec![],
        steam_app_id: None,
        steam_store_api: Some("http://127.0.0.1:1".into()),
        steamspy_api: Some("http://127.0.0.1:1".into()),
        verify_images: false,
        page_details: None,
    }
}

#[test]
fn fallback_listing_is_publish_ready() {
    let enriched = build_enriched(&input(), &unresolved_lookup());
    assert!(enriched.article_md.contains("## About"));
    assert!(enriched.seo_title.contains("Free Download"));
    assert!(!enriched.seo_description.is_empty());
    assert!(enriched.description.chars().count() >= 30);
    assert!(enriched.minimum.as_deref().map(|m| m.chars().count() >= 10).unwrap_or(false));
    assert!(enriched.version.is_some());
    assert!(enriched.file_size.is_some());
    assert!(enriched.storage.is_some());
    assert!(enriched.license_type.chars().count() >= 3);
    assert!(!enriched.instructions.is_empty());
}

#[test]
fn download_links_are_filehost_only_and_never_name_sources() {
    let mut inp = input();
    inp.candidates = vec![DownloadCandidate {
        url: "https://dl.test/game".into(),
        source_label: SourceLabel::Steamunlocked,
        version: Some("2.0".into()),
        notes: None,
    }];
    inp.page_details = Some(SourcePageDetails {
        download_urls: vec!["https://uploadhaven.com/download/xyz".into()],
        download_host: Some("Uploadhaven".into()),
        ..Default::default()
    });
    let enriched = build_enriched(&inp, &unresolved_lookup());
    assert_eq!(enriched.download_links.first().unwrap().url, "https://uploadhaven.com/download/xyz");
    let mut serialized = String::new();
    for l in &enriched.download_links {
        for s in [Some(&l.label), Some(&l.url), l.platform.as_ref(), l.version.as_ref(), l.file_size.as_ref(), l.note.as_ref()]
            .into_iter()
            .flatten()
        {
            serialized.push_str(s);
            serialized.push('\n');
        }
    }
    assert!(!serialized.contains("steamunlocked"));
    assert!(!serialized.contains("steamrip"));
    assert!(!serialized.contains("store.steampowered.com"));
    assert!(enriched.source_url.is_some());
    assert!(!enriched.source_url.as_deref().unwrap().contains("dl.test"));
}

#[test]
fn page_details_supply_direct_download_and_size() {
    let mut inp = input();
    inp.page_details = Some(SourcePageDetails {
        download_urls: vec!["https://uploadhaven.com/download/abc123".into()],
        download_host: Some("Uploadhaven".into()),
        version: Some("1.0".into()),
        file_size: Some("28.11 GB".into()),
        developer: Some("Page Dev".into()),
        publisher: None,
        genres: vec!["Simulation".into()],
        minimum: Some("OS: Windows 10\nMemory: 8 GB RAM".into()),
        title: None,
    });
    let enriched = build_enriched(&inp, &unresolved_lookup());
    let first = enriched.download_links.first().unwrap();
    assert_eq!(first.url, "https://uploadhaven.com/download/abc123");
    assert_eq!(first.file_size.as_deref(), Some("28.11 GB"));
    assert_eq!(enriched.file_size.as_deref(), Some("28.11 GB"));
    assert_eq!(enriched.developer.as_deref(), Some("Page Dev"));
    assert!(enriched.cover_image_url.is_none());
    assert!(enriched.hero_image_url.is_none());
    assert!(enriched.screenshot_urls.is_empty());
    assert!(enriched.minimum.as_deref().unwrap().contains("Windows 10"));
}

#[test]
fn version_falls_back_to_page_marker() {
    let mut inp = input();
    inp.best_download.version = None;
    inp.page_details = Some(SourcePageDetails { version: Some("1.15".into()), ..Default::default() });
    let enriched = build_enriched(&inp, &unresolved_lookup());
    assert_eq!(enriched.version.as_deref(), Some("1.15"));
}

#[test]
fn pc_requirements_object_and_array_both_parse() {
    let obj = reply_json(
        r#"{"minimum":"<ul><li>OS: Win 10</li></ul>","recommended":"<ul><li>16 GB</li></ul>"}"#,
    );
    let (min, rec) = parse_pc_requirements(Some(&obj));
    assert_eq!(min.as_deref(), Some("<ul><li>OS: Win 10</li></ul>"));
    assert_eq!(rec.as_deref(), Some("<ul><li>16 GB</li></ul>"));

    let arr = reply_json(
        r#"[{"title":"Minimum","requirements":"<p>2 GB RAM</p>"},{"title":"Recommended","requirements":"<p>8 GB RAM</p>"}]"#,
    );
    let (min, rec) = parse_pc_requirements(Some(&arr));
    assert_eq!(min.as_deref(), Some("<p>2 GB RAM</p>"));
    assert_eq!(rec.as_deref(), Some("<p>8 GB RAM</p>"));
}

#[test]
fn requirements_html_is_stripped_to_plain_text() {
    let obj = reply_json(r#"{"minimum":"<strong>OS:</strong> Windows 10<br>Memory: 8 GB RAM"}"#);
    let (min, _) = parse_pc_requirements(Some(&obj));
    let stripped = min.as_deref().map(strip_html).unwrap_or_default();
    assert!(stripped.contains("Windows 10"));
    assert!(stripped.contains("8 GB RAM"));
    assert!(!stripped.contains('<'));
}

#[test]
fn strips_html_entities() {
    assert_eq!(strip_html("<p>Hello &amp; world</p>"), "Hello & world");
}

#[test]
fn unresolved_titles_keep_entities_out_of_copy() {
    let mut inp = input();
    inp.raw_title = "  Birds Aren&#039;t Real  ".into();
    let enriched = build_enriched(&inp, &unresolved_lookup());
    assert!(!enriched.article_md.contains("&#039;"));
    assert!(enriched.article_md.contains("Birds Aren't Real"));
}

#[test]
fn glued_requirements_split_into_label_lines() {
    let glued = "Minimum:Requires a 64-bit processor and operating systemOS *: Windows 7, Windows 8 or Windows 10Processor: AMD or Intel Dual-Core processor running at ~3.3 GHz.Memory: 4 GB RAMGraphics: DirectX 11 compatible NVIDIA, ATI/AMD graphic card with 4GB of dedicated VRAM.DirectX: Version 11Storage: 2 GB available spaceSound Card: Any";
    let out = format_requirements(glued);
    for line in [
        "OS *: Windows 7, Windows 8 or Windows 10",
        "Processor: AMD or Intel Dual-Core processor running at ~3.3 GHz.",
        "Memory: 4 GB RAM",
        "Graphics: DirectX 11 compatible NVIDIA, ATI/AMD graphic card with 4GB of dedicated VRAM.",
        "DirectX: Version 11",
        "Storage: 2 GB available space",
        "Sound Card: Any",
    ] {
        assert!(out.lines().any(|l| l == line), "missing line: {line}\nGot:\n{out}");
    }
    assert!(out.contains("Requires a 64-bit processor"));
    assert!(!out.lines().any(|l| l.starts_with("Minimum:")));
}

#[test]
fn version_defaults_to_latest_and_title_gets_keyword() {
    let mut inp = input();
    inp.best_download.version = None;
    let enriched = build_enriched(&inp, &unresolved_lookup());
    assert_eq!(enriched.version.as_deref(), Some("Latest"));
    assert_eq!(enriched.listing_title, "Some Game Free Download");
}

#[test]
fn version_marker_is_cleaned_not_repeated() {
    assert_eq!(clean_version_marker("1.15 | Full Version"), "1.15");
    assert_eq!(clean_version_marker("Full game (v1.0.1)"), "1.0.1");
    assert_eq!(clean_version_marker("v2.3"), "2.3");
    assert_eq!(clean_version_marker("   "), "Latest");
}

#[test]
fn titlecase_capitalizes_each_word() {
    assert_eq!(titlecase("sound  card"), "Sound Card");
}

#[test]
fn download_links_take_at_most_four_mirrors() {
    let page = SourcePageDetails {
        download_urls: (0..6).map(|i| format!("https://gofile.io/d/{i}")).collect(),
        file_size: Some("1 GB".into()),
        ..Default::default()
    };
    let links = download_links_for(&page, "1.0");
    assert_eq!(links.len(), 4);
    assert_eq!(links[0].label, "Direct Download");
    assert_eq!(links[3].label, "Mirror Download 3");
    assert_eq!(
        links[1].note.as_deref(),
        Some("Fast file-host download via Gofile. If a short wait appears, click the button shown and the file starts.")
    );
    let long = SourcePageDetails { download_urls: vec![format!("https://x.test/{}", "a".repeat(2000))], ..Default::default() };
    assert!(download_links_for(&long, "1.0").is_empty());
}

#[test]
fn steam_lookup_supplies_images_tags_and_details() {
    let data = SteamAppData {
        short_description: None,
        detailed_description: Some("<p>A &amp; B</p>".into()),
        developers: vec!["Dev".into(), "Other".into()],
        publishers: vec![],
        release_date: Some("1 Jan, 2020".into()),
        windows: true,
        mac: false,
        linux: true,
        categories: vec!["Single-player".into()],
        genres: vec!["Action".into()],
        screenshots: (0..10).map(|i| format!("https://img.test/{i}.jpg")).collect(),
        pc_requirements: PcRequirements::Missing,
    };
    let details = steam_details_from(&data);
    assert_eq!(details.description.as_deref(), Some("A & B"));
    assert_eq!(details.developer.as_deref(), Some("Dev"));
    assert_eq!(details.platforms, Some(vec!["Windows".to_string(), "Linux".to_string()]));
    assert_eq!(details.screenshots.len(), 8);
    let tags = rank_spy_tags(&vec![("FPS".into(), 5), ("Action".into(), 9), ("Shooter".into(), 5)]).unwrap();
    assert_eq!(tags, vec!["Action", "FPS", "Shooter"]);
    assert!(rank_spy_tags(&vec![]).is_none());
    let mut inp = input();
    inp.steam_app_id = Some(42);
    let lookup = SteamLookup {
        resolved_app_id: None,
        details: Some(details),
        spy_tags: Some(tags),
        image_checks: ImageChecks { cover_main: false, cover_fallback: false, hero_main: false, hero_fallback: false, screenshots: vec![] },
    };
    let enriched = build_enriched(&inp, &lookup);
    assert_eq!(
        enriched.cover_image_url.as_deref(),
        Some("https://cdn.cloudflare.steamstatic.com/steam/apps/42/header.jpg")
    );
    assert_eq!(enriched.cover_alt.as_deref(), Some("Some Game cover art"));
    assert_eq!(enriched.screenshot_alts[1], "Some Game gameplay screenshot 2");
    assert_eq!(enriched.category_guess.as_deref(), Some("Action"));
    assert_eq!(enriched.tags, vec!["Action", "FPS", "Shooter"]);
    assert_eq!(enriched.category_guesses, vec!["Action", "FPS", "Shooter"]);
    assert_eq!(enriched.steam_app_id, Some(42));
}

#[test]
fn checked_images_fall_back() {
    let c = image_candidates(7, &vec!["s1".into(), "s2".into()]);
    let checks = ImageChecks { cover_main: false, cover_fallback: true, hero_main: false, hero_fallback: false, screenshots: vec![false, true] };
    let img = images_from_steam(&c, true, &checks);
    assert_eq!(img.cover.as_deref(), Some("https://cdn.cloudflare.steamstatic.com/steam/apps/7/capsule_616x353.jpg"));
    assert_eq!(img.hero, img.cover);
    assert_eq!(img.featured.as_deref(), Some("s1"));
    assert_eq!(img.screenshots, vec!["s2".to_string()]);
}

#[test]
fn steam_hits_pick_the_best_similar_title() {
    let hits = vec![(1u64, "Portal 2 Soundtrack".to_string()), (2, "Portal 2".to_string()), (3, "Portal 2".to_string())];
    assert_eq!(pick_steam_app("Portal 2", &hits), Some(2));
    assert_eq!(pick_steam_app("   ", &hits), None);
    assert_eq!(pick_steam_app("Half-Life", &hits), None);
}

#[test]
fn listing_titles_carry_the_keyword_once_within_120_chars() {
    assert_eq!(listing_title("Doom"), "Doom Free Download");
    assert_eq!(listing_title("Doom Free Download"), "Doom Free Download");
    assert_eq!(listing_title("   "), "Game Free Download");
    let long = "Word ".repeat(40);
    let t = listing_title(&long);
    assert!(t.chars().count() <= 120);
    assert!(t.ends_with(" Free Download"));
    assert!(!t.contains("  "));
}

fn steam_lookup_with(platforms: Option<Vec<String>>, shots: usize) -> SteamLookup {
    let mut details = autogamivoid::enrichment::SteamDetails::default();
    details.platforms = platforms;
    details.screenshots = (0..shots).map(|i| format!("https://img.test/{i}.jpg")).collect();
    SteamLookup {
        resolved_app_id: None,
        details: Some(details),
        spy_tags: None,
        image_checks: ImageChecks { cover_main: false, cover_fallback: false, hero_main: false, hero_fallback: false, screenshots: vec![] },
    }
}

#[test]
fn platforms_and_version_are_never_blank() {
    let mut inp = input();
    inp.steam_app_id = Some(7);
    inp.best_download.version = Some("  v  ".into());
    let enriched = build_enriched(&inp, &steam_lookup_with(Some(vec![]), 0));
    assert_eq!(enriched.platforms, vec!["Windows".to_string()]);
    assert_eq!(enriched.version.as_deref(), Some("Latest"));
    let enriched = build_enriched(&inp, &steam_lookup_with(Some(vec!["Linux".into()]), 0));
    assert_eq!(enriched.platforms, vec!["Linux".to_string()]);
}

#[test]
fn featured_image_and_screenshots_come_from_steam() {
    let mut inp = input();
    inp.steam_app_id = Some(7);
    let enriched = build_enriched(&inp, &steam_lookup_with(None, 10));
    assert_eq!(enriched.featured_image_url.as_deref(), Some("https://img.test/0.jpg"));
    assert_eq!(enriched.screenshot_urls.len(), 8);
    assert_eq!(enriched.screenshot_urls[7], "https://img.test/7.jpg");
    let unresolved = build_enriched(&input(), &steam_lookup_with(None, 10));
    assert!(unresolved.featured_image_url.is_none());
    assert!(unresolved.screenshot_urls.is_empty());
}

#[test]
fn listing_is_the_same_whatever_the_source_site() {
    let a = input();
    let mut b = input();
    b.best_download.source_label = SourceLabel::Steamunlocked;
    let ea = build_enriched(&a, &unresolved_lookup());
    let eb = build_enriched(&b, &unresolved_lookup());
    assert_eq!(ea.article_md, eb.article_md);
    assert_eq!(ea.description, eb.description);
    assert_eq!(ea.seo_title, eb.seo_title);
    assert_eq!(ea.seo_description, eb.seo_description);
    assert_eq!(ea.license_type, eb.license_type);
    assert_eq!(ea.instructions, eb.instructions);
}

#[test]
fn vote_counts_parse_like_std() {
    assert_eq!(parse_u64("123"), Some(123));
    assert_eq!(parse_u64("+7"), Some(7));
    assert_eq!(parse_u64("18446744073709551615"), Some(u64::MAX));
    assert_eq!(parse_u64("18446744073709551616"), None);
    assert_eq!(parse_u64(""), None);
    assert_eq!(parse_u64("+"), None);
    assert_eq!(parse_u64("-1"), None);
    assert_eq!(parse_u64("12a"), None);
    for s in ["0", "42", "+0", " 1", "99999999999999999999", "00017"] {
        assert_eq!(parse_u64(s), s.parse::<u64>().ok(), "{s}");
    }
    assert_eq!(vote_count(Some("321"), None), 321);
    assert_eq!(vote_count(Some("many"), Some(4)), 4);
    assert_eq!(vote_count(None, Some(9)), 9);
    assert_eq!(vote_count(None, None), 0);
}

#[test]
fn steam_replies_are_read_from_their_json() {
    let body = r#"{"42":{"success":true,"data":{"short_description":"Fast game","developers":["Dev",7],"release_date":{"date":"1 Jan, 2020"},"platforms":{"windows":true,"linux":"yes","mac":false},"genres":[{"description":"Action"},{"id":1}],"screenshots":[{"path_full":"https://img.test/1.jpg"}],"pc_requirements":{"minimum":"<p>4 GB RAM</p>"}}}}"#;
    let d = steam_details_from_reply(body, 42).unwrap();
    assert_eq!(d.description.as_deref(), Some("Fast game"));
    assert_eq!(d.developer.as_deref(), Some("Dev"));
    assert_eq!(d.release_date.as_deref(), Some("1 Jan, 2020"));
    assert_eq!(d.platforms, Some(vec!["Windows".to_string()]));
    assert_eq!(d.genres, vec!["Action"]);
    assert_eq!(d.screenshots, vec!["https://img.test/1.jpg"]);
    assert_eq!(d.minimum.as_deref(), Some("<p>4 GB RAM</p>"));
    assert!(steam_details_from_reply(body, 43).is_none());
    assert!(steam_details_from_reply("<html>", 42).is_none());

    let search = r#"{"items":[{"id":1,"name":"Portal 2 Soundtrack"},{"id":2,"name":"Portal 2"}]}"#;
    assert_eq!(app_from_search_reply("Portal 2", search), Some(2));
    assert_eq!(app_from_search_reply("Portal 2", r#"{"items":[{"id":2}]}"#), None);
    assert_eq!(app_from_search_reply("Portal 2", "nope"), None);

    let spy = r#"{"tags":{"FPS":"5","Action":9,"Shooter":5}}"#;
    assert_eq!(spy_tags_from_reply(spy), Some(vec!["Action".to_string(), "FPS".into(), "Shooter".into()]));
    assert_eq!(spy_tags_from_reply(r#"{"tags":[]}"#), None);
    assert_eq!(spy_tags_from_reply(r#"{"tags":{}}"#), None);
}
