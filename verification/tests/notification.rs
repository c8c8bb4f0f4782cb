use whatsapp_lite::notification::{
    avatar_cutoff, avatar_file_name, click_script, is_stale_avatar, send_notification, toast_tag,
    toast_xml, xml_escape, AVATAR_MAX_AGE, TOAST_GROUP,
};

#[test]
fn markup_is_escaped() {
    assert_eq!(
        xml_escape("a<b> & \"c\" 'd' é"),
        "a&lt;b&gt; &amp; &quot;c&quot; &apos;d&apos; é"
    );
    assert_eq!(xml_escape("&amp;"), "&amp;amp;");
    assert_eq!(xml_escape(""), "");
}

#[test]
fn toast_without_a_picture() {
    assert_eq!(
        toast_xml("A & B", "<oi>", None),
        r#"<toast duration="short"><visual><binding template="ToastGeneric"><text>A &amp; B</text><text>&lt;oi&gt;</text></binding></visual></toast>"#
    );
}

#[test]
fn toast_with_a_picture() {
    assert_eq!(
        toast_xml("t", "b", Some("C:\\Temp\\it's.png")),
        r#"<toast duration="short"><visual><binding template="ToastGeneric"><image placement="appLogoOverride" hint-crop="circle" src="file:///C:\Temp\it&apos;s.png" alt="avatar" /><text>t</text><text>b</text></binding></visual></toast>"#
    );
}

#[test]
fn tags_are_cleaned_and_cut() {
    assert_eq!(toast_tag(" 55 11\t99@c.us\n").as_deref(), Some("551199@c.us"));
    assert_eq!(toast_tag("\u{a0}\u{7f} \u{85}"), None);
    assert_eq!(toast_tag(""), None);
    assert_eq!(toast_tag(&"é".repeat(70)).unwrap(), "é".repeat(64));
    assert_eq!(toast_tag("ok@g.us").as_deref(), Some("ok@g.us"));
    assert_eq!(TOAST_GROUP, "wa-lite");
}

#[test]
fn click_script_quotes_the_identity() {
    assert_eq!(
        click_script("7").as_deref(),
        Some("window.__waLiteOnNotifClick && window.__waLiteOnNotifClick(\"7\");")
    );
    assert_eq!(
        click_script("a\"b\\c").as_deref(),
        Some("window.__waLiteOnNotifClick && window.__waLiteOnNotifClick(\"a\\\"b\\\\c\");")
    );
    assert_eq!(click_script(""), None);
}

#[test]
fn avatar_files_hang_on_the_chat() {
    assert_eq!(
        avatar_file_name("5511@c.us", "9"),
        "wa_lite_avatar_5511cus.png"
    );
    assert_eq!(
        avatar_file_name("5511@c.us", "10"),
        "wa_lite_avatar_5511cus.png"
    );
    assert_eq!(avatar_file_name("", "n-12"), "wa_lite_avatar_n12.png");
    assert_eq!(avatar_file_name("@@", "12"), "wa_lite_avatar.png");
    assert_eq!(avatar_file_name("", ""), "wa_lite_avatar.png");
    assert_eq!(
        avatar_file_name(&"a".repeat(99), ""),
        format!("wa_lite_avatar_{}.png", "a".repeat(64))
    );
    assert_eq!(avatar_file_name("../é/x", ""), "wa_lite_avatar_x.png");
}

#[test]
fn old_avatars_are_stale() {
    let now: i128 = 10 * AVATAR_MAX_AGE;
    let cutoff = avatar_cutoff(now).unwrap();
    assert_eq!(cutoff, 9 * 86_400_000_000_000);
    let name = avatar_file_name("x", "");
    assert!(is_stale_avatar(&name, cutoff - 1, cutoff));
    assert!(!is_stale_avatar(&name, cutoff, cutoff));
    assert!(!is_stale_avatar("wa_lite_avatar.png", 0, cutoff));
    assert!(!is_stale_avatar("wa_lite_avatar_x.jpg", 0, cutoff));
    assert!(!is_stale_avatar("xwa_lite_avatar_x.png", 0, cutoff));
    assert_eq!(avatar_cutoff(i128::MIN + 1), None);
    assert_eq!(avatar_cutoff(0), Some(-AVATAR_MAX_AGE));
}

#[test]
fn blank_texts_get_their_defaults() {
    let n = send_notification(false, " \n", "\t", &None, None, None).unwrap();
    assert_eq!(n.title, "WhatsApp Lite");
    assert_eq!(n.body, "Nova mensagem");
    assert_eq!(n.avatar_file, None);
    assert_eq!(n.tag, "");
    assert_eq!(n.click_id, "");
}

#[test]
fn full_notification_keeps_what_it_was_given() {
    let n = send_notification(
        false,
        " Ana ",
        " oi ",
        &Some(vec![1]),
        Some("3".to_string()),
        Some("55@c.us".to_string()),
    )
    .unwrap();
    assert_eq!(n.title, "Ana");
    assert_eq!(n.body, "oi");
    assert_eq!(n.avatar_file.as_deref(), Some("wa_lite_avatar_55cus.png"));
    assert_eq!(n.tag, "55@c.us");
    assert_eq!(n.click_id, "3");
}

#[test]
fn picture_without_bytes_is_no_picture() {
    let n = send_notification(false, "t", "b", &Some(vec![]), None, None).unwrap();
    assert_eq!(n.avatar_file, None);
}

#[test]
fn quiet_means_no_notification() {
    assert!(send_notification(true, "t", "b", &None, None, None).is_none());
}
