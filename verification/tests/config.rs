use autogamivoid::config::{BatchConfig, Config, PublishMode};
use autogamivoid::workflow::{api_config_problem, RunAction};

#[test]
fn parses_modes() {
    assert_eq!(PublishMode::parse("draft"), Some(PublishMode::Draft));
    assert_eq!(PublishMode::parse("Publish"), Some(PublishMode::Publish));
    assert_eq!(PublishMode::parse("nope"), None);
    assert!(!PublishMode::default().is_publish());
    assert!(PublishMode::Publish.is_publish());
}

#[test]
fn live_and_published_mean_publish_and_defaults_hold() {
    assert_eq!(PublishMode::parse("LIVE"), Some(PublishMode::Publish));
    assert_eq!(PublishMode::parse("published"), Some(PublishMode::Publish));
    let b = BatchConfig::default();
    assert_eq!((b.action_limit, b.seconds_limit, b.request_pause_ms), (200, 2700, 250));
    let c = Config::default();
    assert!(!c.dry_run);
    assert_eq!(c.publish_mode, PublishMode::Draft);
}

#[test]
fn writing_runs_need_the_api_base_and_key() {
    let mut c = Config::default();
    c.gamivoid_api_base = String::new();
    c.gamivoid_publishing_key = String::new();
    assert_eq!(
        api_config_problem(&c, None).as_deref(),
        Some("gamivoid_api_base must be configured (or use --dry-run)")
    );
    c.gamivoid_api_base = "https://gamivoid.site".into();
    assert_eq!(
        api_config_problem(&c, Some(RunAction::Sync)).as_deref(),
        Some("gamivoid_publishing_key must be configured (or use --dry-run)")
    );
    assert!(api_config_problem(&c, Some(RunAction::Reconcile)).is_none());
    c.dry_run = true;
    assert!(api_config_problem(&c, None).is_none());
    c.dry_run = false;
    c.gamivoid_publishing_key = "k".into();
    assert!(api_config_problem(&c, None).is_none());
}
