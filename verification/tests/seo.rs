use autogamivoid::models::SourceLabel;
use autogamivoid::seo::{ascii_punctuation, build_listing, install_steps, SeoInput};

const SEO_TITLE_MAX: usize = 120;
const SEO_DESC_MAX: usize = 320;

fn input<'a>(
    title: &'a str,
    version: Option<&'a str>,
    blurb: Option<&'a str>,
    developer: Option<&'a str>,
    tags: &'a [String],
    category: Option<&'a str>,
    platforms: &'a [String],
    label: &'a SourceLabel,
) -> SeoInput<'a> {
    SeoInput {
        title,
        version,
        source_label: label,
        steam_blurb: blurb,
        developer,
        publisher: None,
        release_date: Some("12 Mar, 2020"),
        platforms,
        tags,
        category,
    }
}

fn windows() -> Vec<String> {
    vec!["Windows".to_string()]
}

#[test]
fn seo_title_matches_intent_and_length() {
    let tags = vec!["Action".to_string()];
    let platforms = windows();
    let label = SourceLabel::Steamrip;
    let seo = build_listing(&input("Doom", Some("1.0"), None, Some("id Software"), &tags, Some("Action"), &platforms, &label));
    assert_eq!(seo.seo_title, "Doom Free Download PC Game (v1.0)");
    assert!(seo.seo_title.chars().count() <= SEO_TITLE_MAX);
}

#[test]
fn seo_description_under_limit_with_cta() {
    let tags: Vec<String> = vec![];
    let platforms = windows();
    let label = SourceLabel::Steamrip;
    let seo = build_listing(&input(
        "Elden Ring",
        Some("1.10"),
        None,
        Some("FromSoftware"),
        &tags,
        Some("RPG"),
        &platforms,
        &label,
    ));
    assert!(seo.seo_description.chars().count() <= SEO_DESC_MAX);
    assert!(seo.seo_description.contains("Elden Ring"));
    assert!(seo.seo_description.to_lowercase().contains("download"));
}

#[test]
fn article_is_markdown_without_html_or_dashes() {
    let tags = vec!["RPG".to_string()];
    let platforms = windows();
    let label = SourceLabel::Steamrip;
    let seo = build_listing(&input(
        "Doom",
        Some("1.0"),
        Some("Hell breaks loose."),
        Some("id Software"),
        &tags,
        Some("Action"),
        &platforms,
        &label,
    ));
    let body = &seo.article_md;
    assert!(body.contains("## About Doom"));
    assert!(body.contains("Hell breaks loose."));
    assert!(body.contains("- **Developer:** id Software"));
    assert!(body.contains("## How to Download & Install Doom"));
    assert!(!body.contains("<h2>"));
    assert!(!body.contains('\u{2013}'));
    assert!(!body.contains('\u{2014}'));
}

#[test]
fn long_titles_get_truncated_seo_title() {
    let tags: Vec<String> = vec![];
    let platforms = windows();
    let label = SourceLabel::Steamrip;
    let long = "A Very Long Game Title That Goes On And On And Eventually Exceeds One Hundred And Twenty Characters Which Forces The Generator To Truncate The Title At A Word Boundary";
    let seo = build_listing(&input(long, Some("1.0"), None, None, &tags, None, &platforms, &label));
    assert!(seo.seo_title.chars().count() <= SEO_TITLE_MAX);
}

#[test]
fn description_is_plain_text_and_long_enough() {
    let tags: Vec<String> = vec![];
    let platforms = windows();
    let label = SourceLabel::Steamrip;
    let seo = build_listing(&input("Short Game", None, None, None, &tags, None, &platforms, &label));
    assert!(!seo.description.contains('<'));
    assert!(seo.description.chars().count() >= 30, "must satisfy the published-game 30-char minimum");
}

#[test]
fn smart_quotes_and_dashes_are_normalized() {
    assert_eq!(ascii_punctuation("a\u{2014}b"), "a-b");
    assert_eq!(ascii_punctuation("it\u{2019}s"), "it's");
}

#[test]
fn seo_title_without_version_has_no_parenthesis() {
    let tags: Vec<String> = vec![];
    let platforms = windows();
    let label = SourceLabel::Steamunlocked;
    let seo = build_listing(&input("Doom", None, None, None, &tags, None, &platforms, &label));
    assert_eq!(seo.seo_title, "Doom Free Download PC Game");
}

#[test]
fn bundle_length_bounds_hold_for_a_very_long_blurb() {
    let tags: Vec<String> = vec![];
    let platforms = windows();
    let label = SourceLabel::Steamrip;
    let blurb = "word ".repeat(200);
    let seo = build_listing(&input("Game", Some("2.0"), Some(&blurb), None, &tags, None, &platforms, &label));
    assert!(seo.seo_description.chars().count() <= SEO_DESC_MAX);
    assert!(seo.seo_title.chars().count() <= SEO_TITLE_MAX);
    assert!(seo.description.chars().count() >= 30);
}

#[test]
fn install_steps_name_the_game() {
    let steps = install_steps("Doom");
    assert!(!steps.is_empty());
    assert!(steps.iter().any(|s| s.contains("Doom")));
}

#[test]
fn ascii_punctuation_leaves_plain_text_alone() {
    assert_eq!(ascii_punctuation("plain text - ok"), "plain text - ok");
    assert_eq!(ascii_punctuation("\u{201c}quoted\u{201d}"), "\"quoted\"");
}

#[test]
fn copy_holds_no_typographic_dashes() {
    let tags = vec!["Action \u{2013} RPG".to_string()];
    let platforms = windows();
    let label = SourceLabel::Steamunlocked;
    let seo = build_listing(&input(
        "Doom",
        Some("1.0\u{2014}beta"),
        Some("Fast \u{2014} brutal."),
        Some("id \u{2013} Software"),
        &tags,
        Some("Shooter \u{2014} FPS"),
        &platforms,
        &label,
    ));
    for text in [&seo.seo_title, &seo.seo_description, &seo.article_md] {
        assert!(!text.contains('\u{2013}') && !text.contains('\u{2014}'), "{text}");
    }
    let dashed = build_listing(&input("Half\u{2014}Life", None, None, None, &tags, None, &platforms, &label));
    assert!(!dashed.seo_title.contains('\u{2014}'));
    assert!(dashed.article_md.contains("## About Half\u{2014}Life"));
}

#[test]
fn copy_never_names_the_source_site() {
    let tags: Vec<String> = vec![];
    let platforms = windows();
    let rip = SourceLabel::Steamrip;
    let unlocked = SourceLabel::Steamunlocked;
    let a = build_listing(&input("Doom", Some("1.0"), None, None, &tags, None, &platforms, &rip));
    let b = build_listing(&input("Doom", Some("1.0"), None, None, &tags, None, &platforms, &unlocked));
    assert_eq!(a.article_md, b.article_md);
    assert_eq!(a.seo_title, b.seo_title);
    assert_eq!(a.seo_description, b.seo_description);
    assert_eq!(a.description, b.description);
    let lower = a.article_md.to_lowercase();
    assert!(!lower.contains("steamrip") && !lower.contains("steamunlocked"));
}

#[test]
fn seo_title_is_capped_even_for_one_long_word() {
    let tags: Vec<String> = vec![];
    let platforms = windows();
    let label = SourceLabel::Steamrip;
    let word = "X".repeat(130);
    let seo = build_listing(&input(&word, Some("1.0"), None, None, &tags, None, &platforms, &label));
    assert_eq!(seo.seo_title.chars().count(), 120);
    let dots = "\u{2026}".repeat(50);
    let seo = build_listing(&input(&dots, None, None, None, &tags, None, &platforms, &label));
    assert!(seo.seo_title.chars().count() <= 120);
    assert!(!seo.seo_title.contains('\u{2026}'));
}
