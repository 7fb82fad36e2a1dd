use autogamivoid::slug::slug_from_title;

#[test]
fn slug_keeps_stable_form_with_free_download_suffix() {
    assert_eq!(slug_from_title("  The  Longest  Journey  "), "the-longest-journey-free-download");
    assert_eq!(slug_from_title("Half-Life 2"), "half-life-2-free-download");
    assert_eq!(slug_from_title("Some Game [v2.0]"), "some-game-v20-free-download");
}

#[test]
fn slug_respects_100_char_cap_including_suffix() {
    let long = "A Very Long Game Title That Goes On And On And Eventually Exceeds The One Hundred Character Slug Limit Which Forces Truncation";
    let slug = slug_from_title(long);
    assert!(slug.chars().count() <= 100);
    assert!(slug.ends_with("-free-download"));
}

#[test]
fn slug_never_suffixes_twice() {
    assert_eq!(slug_from_title("Game Free Download"), "game-free-download");
}

#[test]
fn empty_title_still_produces_valid_slug() {
    let slug = slug_from_title("###");
    assert_eq!(slug, "game-free-download");
}

#[test]
fn slug_is_at_most_100_bytes_for_long_titles() {
    let long = "Word ".repeat(60);
    let slug = slug_from_title(&long);
    assert!(slug.len() <= 100);
    assert!(slug.ends_with("-free-download"));
}

#[test]
fn slug_keyword_appears_once_at_the_end() {
    assert_eq!(slug_from_title("Free Download"), "game-free-download");
    assert_eq!(slug_from_title("Xfree Download"), "xfree-download-free-download");
    let t = format!("{} Free Download", "a".repeat(80));
    assert_eq!(slug_from_title(&t), format!("{}-free-download", "a".repeat(80)));
    assert_eq!(slug_from_title("Doom Free Download Free Download"), "doom-free-download");
}

#[test]
fn slug_cut_never_splits_a_character() {
    let t = format!("a{}", "é".repeat(60));
    let slug = slug_from_title(&t);
    assert!(slug.len() <= 100);
    assert!(slug.ends_with("-free-download"));
}
