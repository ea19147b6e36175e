use urlwasher::{
    redirect_target, LocationHeader, RedirectReply, RedirectRequest, RedirectWashPolicy,
    UrlWasher, UrlWasherConfig, WashError, WashStep, WebUrl,
};

fn parse(s: &str) -> WebUrl {
    WebUrl::parse(s).expect(s)
}

/// Washes a URL whose rule needs no network.
fn wash_offline(washer: &mut UrlWasher, dirty: &str) -> Option<String> {
    match washer.wash(&parse(dirty)) {
        WashStep::Finished(Ok(Some(w))) => Some(w.text()),
        WashStep::Finished(Ok(None)) => None,
        other => panic!("unexpected step for {dirty}: {other:?}"),
    }
}

fn redirect_to(location: &str) -> RedirectReply {
    RedirectReply::Answered {
        status: 301,
        location: LocationHeader::Text(location.to_string()),
        body: None,
    }
}

/// Washes a URL whose rule resolves a redirect, answering the request with `reply`.
fn wash_answering(washer: &mut UrlWasher, dirty: &str, reply: RedirectReply) -> Result<Option<String>, WashError> {
    match washer.wash(&parse(dirty)) {
        WashStep::Resolve(pending) => {
            let target = redirect_target(pending.request(), &reply);
            match washer.resume(pending, target) {
                WashStep::Finished(r) => r.map(|o| o.map(|w| w.text())),
                other => panic!("unexpected step for {dirty}: {other:?}"),
            }
        }
        other => panic!("expected a redirect request for {dirty}: {other:?}"),
    }
}

#[test]
fn test_cleaning() {
    let mut washer = UrlWasher::new(UrlWasherConfig::default());
    let tests = [
        (
            "https://youtu.be/lSwnPoo9ZK0?si=TrackingParamValue&t=65",
            "https://youtu.be/lSwnPoo9ZK0?t=65",
        ),
        (
            "https://music.youtube.com/watch?v=lSwnPoo9ZK0&si=ETK0gAaXYGNy2aJ6",
            "https://music.youtube.com/watch?v=lSwnPoo9ZK0",
        ),
        (
            "https://x.com/sekurak/status/1737942071431073818?s=46&t=eLM_fuufufjf",
            "https://x.com/sekurak/status/1737942071431073818",
        ),
    ];
    for (dirty, clean) in tests {
        let clean_url = parse(clean);
        assert_eq!(
            clean_url.text(),
            wash_offline(&mut washer, dirty).expect(dirty),
            "Invalid wash result of dirty url {dirty}"
        );
    }
    // The short links redirect; the answers below are what their servers send.
    let redirects = [
        (
            "https://vm.tiktok.com/ZGJoJs8jb/",
            "https://www.tiktok.com/@i0ki.clips/video/7297742182851611936?_r=1&_t=8iVRMK3y1Qa",
            "https://www.tiktok.com/@i0ki.clips/video/7297742182851611936",
        ),
        (
            "https://on.soundcloud.com/VLwCL",
            "https://soundcloud.com/djwipeoutnxc/i-c-right-thru-2-u?utm_source=clipboard&utm_medium=text",
            "https://soundcloud.com/djwipeoutnxc/i-c-right-thru-2-u",
        ),
    ];
    for (dirty, location, clean) in redirects {
        let clean_url = parse(clean);
        assert_eq!(
            clean_url.text(),
            wash_answering(&mut washer, dirty, redirect_to(location)).expect(dirty).expect(dirty),
            "Invalid wash result of dirty url {dirty}"
        );
    }
}

#[test]
fn unrelated_url_is_no_match() {
    let mut washer = UrlWasher::default();
    assert_eq!(wash_offline(&mut washer, "https://example.com/unrelated?x=1"), None);
    assert_eq!(wash_offline(&mut washer, "https://example.com/unrelated?si=1"), None);
}

#[test]
fn other_schemes_are_no_match() {
    let mut washer = UrlWasher::default();
    assert_eq!(wash_offline(&mut washer, "ftp://youtu.be/abc?si=1"), None);
    assert_eq!(wash_offline(&mut washer, "mailto:someone@x.com"), None);
}

#[test]
fn ip_hosts_are_no_match() {
    let mut washer = UrlWasher::default();
    assert_eq!(wash_offline(&mut washer, "http://127.0.0.1/watch?si=1"), None);
}

#[test]
fn washing_a_washed_url_changes_nothing() {
    let dirty = [
        "https://youtu.be/lSwnPoo9ZK0?si=TrackingParamValue&t=65",
        "https://www.youtube.com/watch?si=a&v=b&si=c",
        "https://youtu.be/abc?si=only",
        "https://x.com/a/status/1?s=46#frag",
        "https://youtu.be/abc?t=a%20b&si=1&q=%26x",
    ];
    for d in dirty {
        let mut first = UrlWasher::default();
        let once = wash_offline(&mut first, d).expect(d);
        let mut second = UrlWasher::default();
        let twice = wash_offline(&mut second, &once).expect(&once);
        assert_eq!(once, twice);
    }
}

#[test]
fn ignored_redirect_rule_still_strips_query_and_is_stable() {
    let mut config = UrlWasherConfig::default();
    config.set_policy("vm.tiktok.com".to_string(), RedirectWashPolicy::Ignore);
    let mut washer = UrlWasher::new(config);
    let once = wash_offline(&mut washer, "https://vm.tiktok.com/ZGJoJs8jb/?a=1").unwrap();
    assert_eq!(once, "https://vm.tiktok.com/ZGJoJs8jb/");
    let twice = wash_offline(&mut washer, &once).unwrap();
    assert_eq!(once, twice);
}

#[test]
fn second_wash_is_served_from_cache() {
    let mut washer = UrlWasher::default();
    let dirty = "https://vm.tiktok.com/ZGJoJs8jb/";
    let first = wash_answering(
        &mut washer,
        dirty,
        redirect_to("https://www.tiktok.com/@a/video/1?x=2"),
    );
    assert_eq!(first, Ok(Some("https://www.tiktok.com/@a/video/1".to_string())));
    // No request this time: the cached result comes back at once.
    assert_eq!(
        wash_offline(&mut washer, dirty),
        Some("https://www.tiktok.com/@a/video/1".to_string())
    );
}

#[test]
fn failed_wash_is_not_cached() {
    let mut washer = UrlWasher::default();
    let dirty = "https://on.soundcloud.com/VLwCL";
    assert_eq!(
        wash_answering(&mut washer, dirty, RedirectReply::Unreachable),
        Err(WashError::NetworkError)
    );
    // The second try asks again.
    match washer.wash(&parse(dirty)) {
        WashStep::Resolve(p) => match p.request() {
            RedirectRequest::Direct { target } => assert_eq!(target.text(), dirty),
            other => panic!("unexpected request {other:?}"),
        },
        other => panic!("unexpected step {other:?}"),
    }
}

#[test]
fn query_stripping_keeps_order_and_repeats() {
    let mut washer = UrlWasher::default();
    assert_eq!(
        wash_offline(&mut washer, "https://youtu.be/x?a=1&si=2&a=1&b=3&si=4"),
        Some("https://youtu.be/x?a=1&a=1&b=3".to_string())
    );
    assert_eq!(
        wash_offline(&mut washer, "https://youtu.be/x?si=1"),
        Some("https://youtu.be/x".to_string())
    );
    assert_eq!(
        wash_offline(&mut washer, "https://youtu.be/x?"),
        Some("https://youtu.be/x".to_string())
    );
    assert_eq!(
        wash_offline(&mut washer, "https://youtu.be/x"),
        Some("https://youtu.be/x".to_string())
    );
}

#[test]
fn query_stripping_reencodes_kept_pairs_and_keeps_fragment() {
    let mut washer = UrlWasher::default();
    assert_eq!(
        wash_offline(&mut washer, "https://youtu.be/x?t=a%20b&si=1#at"),
        Some("https://youtu.be/x?t=a+b#at".to_string())
    );
}

#[test]
fn remove_all_params_drops_query_keeps_fragment() {
    let mut washer = UrlWasher::default();
    assert_eq!(
        wash_offline(&mut washer, "https://twitter.com/a/status/1?s=20&t=x#top"),
        Some("https://twitter.com/a/status/1#top".to_string())
    );
}

#[test]
fn parse_normalizes_url() {
    let u = parse("HTTPS://YouTu.Be/abc?si=1");
    assert_eq!(u.text(), "https://youtu.be/abc?si=1");
    assert_eq!(u.domain.as_deref(), Some("youtu.be"));
    assert_eq!(u.segments, Some(vec!["abc".to_string()]));
    assert_eq!(u.query.as_deref(), Some("si=1"));
    assert!(WebUrl::parse("not a url").is_none());
}

#[test]
fn via_mixer_without_instance_fails() {
    let mut config = UrlWasherConfig::default();
    config.set_policy("on.soundcloud.com".to_string(), RedirectWashPolicy::ViaMixer);
    let mut washer = UrlWasher::new(config);
    match washer.wash(&parse("https://on.soundcloud.com/VLwCL")) {
        WashStep::Finished(r) => assert_eq!(r.err(), Some(WashError::MixerNotConfigured)),
        other => panic!("unexpected step {other:?}"),
    }
}

#[test]
fn via_mixer_asks_the_mixer() {
    let mut config = UrlWasherConfig::default();
    config.mixer_instance = Some(parse("https://mixer.example/"));
    config.set_policy("on.soundcloud.com".to_string(), RedirectWashPolicy::ViaMixer);
    let mut washer = UrlWasher::new(config);
    match washer.wash(&parse("https://on.soundcloud.com/VLwCL")) {
        WashStep::Resolve(p) => {
            match p.request() {
                RedirectRequest::ViaMixer { mixer, target } => {
                    assert_eq!(mixer.text(), "https://mixer.example/");
                    assert_eq!(target.text(), "https://on.soundcloud.com/VLwCL");
                }
                other => panic!("unexpected request {other:?}"),
            }
            let reply = RedirectReply::Answered {
                status: 200,
                location: LocationHeader::Absent,
                body: Some("https://soundcloud.com/a/b?utm=1".to_string()),
            };
            let target = redirect_target(p.request(), &reply);
            match washer.resume(p, target) {
                WashStep::Finished(Ok(Some(w))) => assert_eq!(w.text(), "https://soundcloud.com/a/b"),
                other => panic!("unexpected step {other:?}"),
            }
        }
        other => panic!("unexpected step {other:?}"),
    }
}

fn direct() -> RedirectRequest {
    RedirectRequest::Direct { target: parse("https://vm.tiktok.com/x/") }
}

fn via_mixer() -> RedirectRequest {
    RedirectRequest::ViaMixer { mixer: parse("https://m.example/"), target: parse("https://vm.tiktok.com/x/") }
}

fn answered(status: u16, location: LocationHeader, body: Option<&str>) -> RedirectReply {
    RedirectReply::Answered { status, location, body: body.map(|b| b.to_string()) }
}

#[test]
fn redirect_target_errors() {
    assert_eq!(redirect_target(&direct(), &RedirectReply::Unreachable).err(), Some(WashError::NetworkError));
    assert_eq!(
        redirect_target(&direct(), &answered(200, LocationHeader::Absent, None)).err(),
        Some(WashError::MissingRedirectTarget)
    );
    assert_eq!(
        redirect_target(&direct(), &answered(301, LocationHeader::NotText, None)).err(),
        Some(WashError::InvalidRedirectTarget)
    );
    assert_eq!(
        redirect_target(&direct(), &answered(301, LocationHeader::Text("/relative".to_string()), None)).err(),
        Some(WashError::InvalidRedirectTarget)
    );
    assert_eq!(
        redirect_target(&via_mixer(), &RedirectReply::Unreachable).err(),
        Some(WashError::MixerRequestFailed)
    );
    assert_eq!(
        redirect_target(&via_mixer(), &answered(429, LocationHeader::Absent, Some("https://a.b/"))).err(),
        Some(WashError::MixerRequestFailed)
    );
    assert_eq!(
        redirect_target(&via_mixer(), &answered(200, LocationHeader::Absent, None)).err(),
        Some(WashError::MixerRequestFailed)
    );
    assert_eq!(
        redirect_target(&via_mixer(), &answered(200, LocationHeader::Absent, Some("garbage"))).err(),
        Some(WashError::InvalidMixerResponse)
    );
}

#[test]
fn redirect_target_successes() {
    let r = redirect_target(&direct(), &answered(302, LocationHeader::Text("https://www.tiktok.com/v/1".to_string()), None));
    assert_eq!(r.unwrap().text(), "https://www.tiktok.com/v/1");
    let r = redirect_target(&via_mixer(), &answered(200, LocationHeader::Absent, Some("https://www.tiktok.com/v/2")));
    assert_eq!(r.unwrap().text(), "https://www.tiktok.com/v/2");
}

#[test]
fn config_defaults_and_lookup() {
    let config = UrlWasherConfig::default();
    assert!(config.mixer_instance.is_none());
    assert_eq!(config.policy_for(&"vm.tiktok.com".to_string()), RedirectWashPolicy::Locally);
    assert_eq!(config.policy_for(&"on.soundcloud.com".to_string()), RedirectWashPolicy::Locally);
    assert_eq!(config.policy_for(&"youtu.be".to_string()), RedirectWashPolicy::Ignore);
    assert_eq!(config.policy_for(&"unknown".to_string()), RedirectWashPolicy::Ignore);
    assert_eq!(config.redirect_policy.len(), 2);
}

#[test]
fn policy_labels() {
    assert_eq!(RedirectWashPolicy::Ignore.label(), "ignore");
    assert_eq!(RedirectWashPolicy::Locally.label(), "locally");
    assert_eq!(RedirectWashPolicy::ViaMixer.label(), "via mixer");
}

#[test]
fn set_policy_replaces_and_keeps_names_unique() {
    let mut config = UrlWasherConfig::default();
    assert!(config.is_well_formed());
    config.set_policy("vm.tiktok.com".to_string(), RedirectWashPolicy::ViaMixer);
    assert_eq!(config.redirect_policy.len(), 2);
    assert_eq!(config.policy_for(&"vm.tiktok.com".to_string()), RedirectWashPolicy::ViaMixer);
    config.set_policy("youtu.be".to_string(), RedirectWashPolicy::Locally);
    assert_eq!(config.redirect_policy.len(), 3);
    assert!(config.is_well_formed());
    config.redirect_policy.push(("youtu.be".to_string(), RedirectWashPolicy::Ignore));
    assert!(!config.is_well_formed());
}

#[test]
fn cache_keeps_entry_until_capacity_other_urls_are_stored() {
    let mut washer = UrlWasher::default();
    let dirty = "https://vm.tiktok.com/KEEP/";
    let target = "https://www.tiktok.com/@k/video/1";
    assert_eq!(wash_answering(&mut washer, dirty, redirect_to(target)), Ok(Some(target.to_string())));
    for i in 0..1023 {
        let other = format!("https://youtu.be/v{i}?si=x");
        assert!(wash_offline(&mut washer, &other).is_some());
    }
    // Still cached after 1023 other entries: no request needed.
    assert_eq!(wash_offline(&mut washer, dirty), Some(target.to_string()));
    // That lookup made it the most recent again; 1024 new entries push it out.
    for i in 0..1024 {
        let other = format!("https://youtu.be/w{i}?si=x");
        assert!(wash_offline(&mut washer, &other).is_some());
    }
    match washer.wash(&parse(dirty)) {
        WashStep::Resolve(_) => {}
        other => panic!("expected the entry to be evicted: {other:?}"),
    }
}
