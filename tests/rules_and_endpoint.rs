use urlwasher::clipboard::should_write_back;
use urlwasher::mixer::{answer_text, requested_url};
use urlwasher::{
    rule_set, AppError, ClipboardPoller, DirtyUrlRule, UrlWasher, UrlWasherConfig, UserError,
    WashError, WashStep, WashingProgram, WebUrl,
};

fn parse(s: &str) -> WebUrl {
    WebUrl::parse(s).expect(s)
}

#[test]
fn cleans_url() {
    // The query parameter `url` as the endpoint receives it, percent-decoded.
    let url = requested_url("https://youtube.com/watch?v=d2348942389234&t=123&si=fdgfsdfg").unwrap();
    let mut washer = UrlWasher::default();
    let outcome = match washer.wash(&url) {
        WashStep::Finished(o) => o,
        other => panic!("unexpected step {other:?}"),
    };
    let body = answer_text(&url, outcome).unwrap();
    assert_eq!(body, "https://youtube.com/watch?v=d2348942389234&t=123");
}

#[test]
fn endpoint_answers() {
    assert_eq!(requested_url("nope").err(), Some(AppError::User(UserError::InvalidUrl)));
    let url = parse("https://example.com/a?b=c");
    assert_eq!(answer_text(&url, Ok(None)).unwrap(), "https://example.com/a?b=c");
    assert_eq!(
        answer_text(&url, Ok(Some(parse("https://example.com/a")))).unwrap(),
        "https://example.com/a"
    );
    assert_eq!(
        answer_text(&url, Err(WashError::MixerRequestFailed)).err(),
        Some(AppError::Internal(WashError::MixerRequestFailed))
    );
}

#[test]
fn error_statuses() {
    let user = AppError::from(UserError::InvalidUrl);
    assert_eq!(user, AppError::User(UserError::InvalidUrl));
    assert_eq!(user.status(), 400);
    assert_eq!(user.message(), "invalid url");
    let internal = AppError::from(WashError::NetworkError);
    assert_eq!(internal.status(), 500);
    assert_eq!(internal.message(), "internal server error");
    assert_eq!(AppError::Internal(WashError::InvalidUrl).status(), 400);
}

#[test]
fn rule_table_order_and_contents() {
    let rules = rule_set();
    let names: Vec<&str> = rules.iter().map(|r| r.name.as_str()).collect();
    assert_eq!(
        names,
        vec!["youtu.be", "youtube.com & music.youtube.com", "twitter.com", "vm.tiktok.com", "on.soundcloud.com"]
    );
    assert!(rules[1].matches_domain("music.youtube.com"));
    assert!(!rules[1].matches_domain("Music.youtube.com"));
    assert!(!rules[0].matches_domain("youtube.com"));
    assert!(rules[3].washing_programs[0].is_resolve_redirection());
    assert!(!rules[3].washing_programs[1].is_resolve_redirection());
}

fn rule_with_pattern(pattern: Vec<Option<&str>>) -> DirtyUrlRule {
    DirtyUrlRule {
        name: "test".to_string(),
        domains: vec!["example.com".to_string()],
        path_pattern: pattern.into_iter().map(|p| p.map(|s| s.to_string())).collect(),
        washing_programs: vec![WashingProgram::RemoveAllParams],
    }
}

#[test]
fn path_patterns() {
    let rule = rule_with_pattern(vec![Some("watch"), None, Some("x")]);
    assert!(rule.matches_path(&parse("https://example.com/watch/anything/x")));
    assert!(rule.matches_path(&parse("https://example.com/watch/1/x/more/segments")));
    assert!(!rule.matches_path(&parse("https://example.com/watch/1/y")));
    assert!(!rule.matches_path(&parse("https://example.com/watch/1")));
    assert!(!rule.matches_path(&parse("https://example.com/other/1/x")));
    let open = rule_with_pattern(vec![]);
    assert!(open.matches_path(&parse("https://example.com/")));
    let wildcard_tail = rule_with_pattern(vec![Some("a"), None]);
    assert!(wildcard_tail.matches_path(&parse("https://example.com/a")));
    assert!(!rule.matches_path(&parse("mailto:a@example.com")));
}

#[test]
fn remove_some_params_builds_names() {
    match WashingProgram::remove_some_params(&["si", "utm_source"]) {
        WashingProgram::RemoveSomeParams(names) => assert_eq!(names, vec!["si", "utm_source"]),
        other => panic!("unexpected program {other:?}"),
    }
}

#[test]
fn first_matching_rule_wins() {
    // Both rules cover youtu.be; only the first one's programs run.
    let mut washer = UrlWasher::new(UrlWasherConfig::default());
    match washer.wash(&parse("https://youtu.be/a?si=1&t=2")) {
        WashStep::Finished(Ok(Some(w))) => assert_eq!(w.text(), "https://youtu.be/a?t=2"),
        other => panic!("unexpected step {other:?}"),
    }
}

#[test]
fn clipboard_poller_notices_changes() {
    let mut poller = ClipboardPoller::new();
    assert_eq!(poller.last_text(), "");
    assert!(!poller.poll(String::new()));
    assert!(poller.poll("a".to_string()));
    assert!(!poller.poll("a".to_string()));
    poller.set_text("b".to_string());
    assert!(!poller.poll("b".to_string()));
    assert!(poller.poll("c".to_string()));
}

#[test]
fn write_back_only_when_clipboard_unchanged() {
    let dirty = "x?si=1".to_string();
    let clean = "x".to_string();
    assert!(should_write_back(&dirty, &clean, &Some(dirty.clone())));
    assert!(!should_write_back(&dirty, &clean, &Some("other".to_string())));
    assert!(!should_write_back(&dirty, &clean, &None));
    assert!(!should_write_back(&dirty, &dirty, &Some(dirty.clone())));
}
