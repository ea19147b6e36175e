use urlwasher::text_washer::{is_separator_char, join_text, split_text, url_token};
use urlwasher::{
    redirect_target, LocationHeader, RedirectReply, TextWasher, UrlWasherConfig, WashError,
};

/// Washes text whose URLs need no network.
fn wash_offline(washer: &mut TextWasher, text: &str) -> String {
    let job = washer.wash(text);
    assert!(job.request().is_none(), "unexpected redirect request");
    assert!(job.is_done());
    job.text()
}

#[test]
fn properly_removes_tracking() {
    let mut text_washer = TextWasher::default();
    let cleaned = wash_offline(&mut text_washer, "lorem ipsum https://music.youtube.com/watch?v=IeojlW7SwlQ&si=TRACKING1 lorem https://music.youtube.com/watch?v=CC5ca6Hsb2Q&si=TRACKING2
        https://music.youtube.com/watch?v=OCAuoCSWIOQ&si=TRACKING3
        ipsum");
    assert_eq!("lorem ipsum https://music.youtube.com/watch?v=IeojlW7SwlQ lorem https://music.youtube.com/watch?v=CC5ca6Hsb2Q
        https://music.youtube.com/watch?v=OCAuoCSWIOQ
        ipsum", cleaned);
}

#[test]
fn short_example_keeps_spacing() {
    let mut washer = TextWasher::default();
    assert_eq!(wash_offline(&mut washer, "see https://youtu.be/abc?si=X here"), "see https://youtu.be/abc here");
}

#[test]
fn mixed_whitespace_is_kept_exactly() {
    let mut washer = TextWasher::default();
    let text = "\t a\r\n\nhttps://youtu.be/abc?si=X\u{3000}b  \u{a0}c\n";
    assert_eq!(
        wash_offline(&mut washer, text),
        "\t a\r\n\nhttps://youtu.be/abc\u{3000}b  \u{a0}c\n"
    );
}

#[test]
fn text_without_matching_urls_is_unchanged() {
    let mut washer = TextWasher::default();
    for text in [
        "",
        " ",
        "plain words only",
        "https://example.com/unrelated?x=1 and http://example.org/?si=1",
        "youtu.be/abc?si=1 lacks a scheme",
        "https:// is not a url",
    ] {
        assert_eq!(wash_offline(&mut washer, text), text);
    }
}

#[test]
fn text_with_redirect_waits_for_the_answer() {
    let mut washer = TextWasher::new(UrlWasherConfig::default());
    let mut job = washer.wash("a https://vm.tiktok.com/X/ b https://youtu.be/q?si=1");
    assert!(!job.is_done());
    let target = {
        let request = job.request().expect("a request");
        let reply = RedirectReply::Answered {
            status: 301,
            location: LocationHeader::Text("https://www.tiktok.com/@u/video/9?is_from_webapp=1".to_string()),
            body: None,
        };
        redirect_target(request, &reply)
    };
    washer.resume(&mut job, target);
    assert!(job.is_done());
    assert_eq!(job.text(), "a https://www.tiktok.com/@u/video/9 b https://youtu.be/q");
}

#[test]
fn failed_token_is_kept() {
    let mut washer = TextWasher::default();
    let mut job = washer.wash("x https://on.soundcloud.com/VLwCL y");
    assert!(job.request().is_some());
    washer.resume(&mut job, Err(WashError::NetworkError));
    assert!(job.is_done());
    assert_eq!(job.text(), "x https://on.soundcloud.com/VLwCL y");
}

#[test]
fn split_and_join() {
    let (tokens, seps) = split_text("a  b\tc");
    assert_eq!(tokens, vec!["a", "", "b", "c"]);
    assert_eq!(seps, vec![' ', ' ', '\t']);
    assert_eq!(join_text(&tokens, &seps), "a  b\tc");
    let (tokens, seps) = split_text("");
    assert_eq!(tokens, vec![""]);
    assert!(seps.is_empty());
    let (tokens, seps) = split_text(" x ");
    assert_eq!(tokens, vec!["", "x", ""]);
    assert_eq!(join_text(&tokens, &seps), " x ");
}

#[test]
fn separators_follow_unicode_whitespace() {
    for c in ['\t', '\n', '\u{b}', '\u{c}', '\r', ' ', '\u{85}', '\u{a0}', '\u{1680}', '\u{2000}', '\u{200a}', '\u{2028}', '\u{2029}', '\u{202f}', '\u{205f}', '\u{3000}'] {
        assert!(is_separator_char(c), "{c:?}");
        assert_eq!(is_separator_char(c), c.is_whitespace());
    }
    for c in ['a', '\u{200b}', '\u{180e}', '\u{feff}', '-', '\u{0}'] {
        assert!(!is_separator_char(c), "{c:?}");
        assert_eq!(is_separator_char(c), c.is_whitespace());
    }
}

#[test]
fn url_tokens() {
    assert!(url_token("https://youtu.be/a").is_some());
    assert!(url_token("http://youtu.be/a").is_some());
    assert!(url_token("ftp://youtu.be/a").is_none());
    assert!(url_token("xhttps://youtu.be/a").is_none());
    assert!(url_token("https://").is_none());
}
