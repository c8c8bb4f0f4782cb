use whatsapp_lite::navigation::{
    navigation_action, navigation_to, open_external_url, NavigationAction, Url,
};

#[test]
fn navigation_blocks_about_blank_without_opener() {
    let url = Url::parse("about:blank").unwrap();
    assert_eq!(navigation_action(&url), NavigationAction::Block);
}

#[test]
fn navigation_opens_only_external_http_urls() {
    let whatsapp = Url::parse("https://web.whatsapp.com/").unwrap();
    let external = Url::parse("https://example.com/").unwrap();

    assert_eq!(navigation_action(&whatsapp), NavigationAction::Allow);
    assert_eq!(navigation_action(&external), NavigationAction::OpenExternal);
}

#[test]
fn url_parts_come_from_the_parser() {
    let url = Url::parse("HTTPS://Web.WhatsApp.com:443/a?b#c").unwrap();
    assert_eq!(url.scheme, "https");
    assert_eq!(url.host.as_deref(), Some("web.whatsapp.com"));
    let url = Url::parse("mailto:a@whatsapp.com").unwrap();
    assert_eq!(url.scheme, "mailto");
    assert_eq!(url.host, None);
    assert!(Url::parse("no url").is_none());
}

#[test]
fn whatsapp_and_its_subdomains_stay_in_the_window() {
    for text in [
        "https://whatsapp.com",
        "http://faq.whatsapp.com/x",
        "https://media.cdn.whatsapp.net/y",
        "https://WEB.WHATSAPP.COM",
    ] {
        assert_eq!(navigation_to(text), NavigationAction::Allow);
    }
}

#[test]
fn lookalikes_leave_the_window() {
    for text in [
        "https://evilwhatsapp.com/",
        "https://whatsapp.com.example.org/",
        "https://whatsapp.net/",
        "https://example.org/web.whatsapp.com",
        "https://web.whatsapp.com@example.org/",
    ] {
        assert_eq!(navigation_to(text), NavigationAction::OpenExternal);
    }
}

#[test]
fn other_schemes_are_blocked() {
    for text in [
        "about:blank",
        "ftp://web.whatsapp.com/",
        "javascript:alert(1)",
        "file:///etc/passwd",
        "blob:https://web.whatsapp.com/1",
        "not a url",
    ] {
        assert_eq!(navigation_to(text), NavigationAction::Block);
    }
}

#[test]
fn actions_say_where_to_go() {
    assert!(NavigationAction::Allow.stays_in_window());
    assert!(!NavigationAction::Allow.opens_browser());
    assert!(!NavigationAction::OpenExternal.stays_in_window());
    assert!(NavigationAction::OpenExternal.opens_browser());
    assert!(!NavigationAction::Block.stays_in_window());
    assert!(!NavigationAction::Block.opens_browser());
}

#[test]
fn browser_gets_trimmed_web_urls_only() {
    assert_eq!(
        open_external_url("  HTTPS://Example.com/A  ").unwrap(),
        "HTTPS://Example.com/A"
    );
    assert_eq!(open_external_url("http://x").unwrap(), "http://x");
    for text in ["", "http:/x", "ftp://x", "javascript:http://", "https"] {
        assert_eq!(
            open_external_url(text).unwrap_err(),
            "Apenas URLs HTTP/HTTPS sao permitidas"
        );
    }
}
