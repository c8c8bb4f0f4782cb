//! Native notifications: the XML of the toast, the names of the avatar files, and
//! the script that a click runs in the page.

use crate::text::{
    ascii_alphanumeric, chars_of, control, ends_with, expanded, is_ascii_alphanumeric, is_control,
    is_whitespace, kept_if, law_expansion_goes_by_characters, law_selection_is_the_beginning,
    lemma_expanded_first, lemma_expanded_is_injective, lemma_selected, select, selected,
    starts_with, str_text, text_of, trim, trimmed, whitespace,
};
use vstd::prelude::*;

verus! {

/// How many characters of a tag or of a key are used.
pub const MAX_TAG_LEN: usize = 64;

/// The group of all toasts. Together with the tag it makes a toast replace the one
/// before it of the same chat.
pub const TOAST_GROUP: &'static str = "wa-lite";

// ---------------------------------------------------------------------------
// The toast
// ---------------------------------------------------------------------------

/// A character as XML text.
pub open spec fn xml_entity(c: char) -> Seq<char> {
    if c == '&' {
        "&amp;"@
    } else if c == '<' {
        "&lt;"@
    } else if c == '>' {
        "&gt;"@
    } else if c == '"' {
        "&quot;"@
    } else if c == '\'' {
        "&apos;"@
    } else {
        seq![c]
    }
}

/// A text as XML text.
pub open spec fn xml_escaped(s: Seq<char>) -> Seq<char> {
    expanded(s, |c: char| xml_entity(c))
}

pub fn xml_escape(s: &str) -> (r: String)
    ensures
        r@ == xml_escaped(s@),
{
    let chars = chars_of(s);
    let mut out = String::new();
    for i in 0..chars.len()
        invariant
            chars@ == s@,
            out@ == xml_escaped(s@.take(i as int)),
    {
        let c = chars[i];
        assert(s@.take(i + 1).drop_last() =~= s@.take(i as int));
        if c == '&' {
            out.append("&amp;");
        } else if c == '<' {
            out.append("&lt;");
        } else if c == '>' {
            out.append("&gt;");
        } else if c == '"' {
            out.append("&quot;");
        } else if c == '\'' {
            out.append("&apos;");
        } else {
            out.push(c);
            assert(out@ =~= xml_escaped(s@.take(i as int)) + seq![c]);
        }
    }
    assert(s@.take(s@.len() as int) =~= s@);
    out
}

/// The picture of a toast, where there is one.
pub open spec fn image_xml(avatar_path: Option<Seq<char>>) -> Seq<char> {
    match avatar_path {
        Some(path) => "<image placement=\"appLogoOverride\" hint-crop=\"circle\" src=\"file:///"@
            + xml_escaped(path) + "\" alt=\"avatar\" />"@,
        None => Seq::empty(),
    }
}

/// The XML of a toast.
pub open spec fn toast_content(
    title: Seq<char>,
    body: Seq<char>,
    avatar_path: Option<Seq<char>>,
) -> Seq<char> {
    "<toast duration=\"short\"><visual><binding template=\"ToastGeneric\">"@ + image_xml(
        avatar_path,
    ) + "<text>"@ + xml_escaped(title) + "</text><text>"@ + xml_escaped(body)
        + "</text></binding></visual></toast>"@
}

pub fn toast_xml(title: &str, body: &str, avatar_path: Option<&str>) -> (r: String)
    ensures
        r@ == toast_content(title@, body@, str_text(avatar_path)),
{
    let mut xml =
        "<toast duration=\"short\"><visual><binding template=\"ToastGeneric\">".to_string();
    let ghost head = xml@;
    match avatar_path {
        Some(path) => {
            let escaped = xml_escape(path);
            xml.append("<image placement=\"appLogoOverride\" hint-crop=\"circle\" src=\"file:///");
            xml.append(escaped.as_str());
            xml.append("\" alt=\"avatar\" />");
        },
        None => {},
    }
    assert(xml@ =~= head + image_xml(str_text(avatar_path)));
    let title_xml = xml_escape(title);
    let body_xml = xml_escape(body);
    xml.append("<text>");
    xml.append(title_xml.as_str());
    xml.append("</text><text>");
    xml.append(body_xml.as_str());
    xml.append("</text></binding></visual></toast>");
    xml
}

pub open spec fn is_tag_char(c: char) -> bool {
    !is_control(c) && !is_whitespace(c)
}

fn tag_char(c: char) -> (r: bool)
    ensures
        r == is_tag_char(c),
{
    !control(c) && !whitespace(c)
}

/// The tag of a toast for the tag of a chat: the first characters of it that are
/// neither control characters nor white space. Without any there is no tag.
pub open spec fn tag_for(tag: Seq<char>) -> Option<Seq<char>> {
    let clean = selected(tag, |c: char| is_tag_char(c), MAX_TAG_LEN as nat);
    if clean.len() == 0 {
        None
    } else {
        Some(clean)
    }
}

pub fn toast_tag(tag: &str) -> (r: Option<String>)
    ensures
        text_of(r) == tag_for(tag@),
{
    let clean = select(tag, tag_char, MAX_TAG_LEN, Ghost(|c: char| is_tag_char(c)));
    if clean.as_str().is_empty() {
        None
    } else {
        Some(clean)
    }
}

// ---------------------------------------------------------------------------
// The click
// ---------------------------------------------------------------------------

/// A character inside a script string between double quotes.
pub open spec fn js_char(c: char) -> Seq<char> {
    if c == '\\' {
        "\\\\"@
    } else if c == '"' {
        "\\\""@
    } else {
        seq![c]
    }
}

pub open spec fn js_escaped(s: Seq<char>) -> Seq<char> {
    expanded(s, |c: char| js_char(c))
}

fn js_escape(s: &str) -> (r: String)
    ensures
        r@ == js_escaped(s@),
{
    let chars = chars_of(s);
    let mut out = String::new();
    for i in 0..chars.len()
        invariant
            chars@ == s@,
            out@ == js_escaped(s@.take(i as int)),
    {
        let c = chars[i];
        assert(s@.take(i + 1).drop_last() =~= s@.take(i as int));
        if c == '\\' {
            out.append("\\\\");
        } else if c == '"' {
            out.append("\\\"");
        } else {
            out.push(c);
            assert(out@ =~= js_escaped(s@.take(i as int)) + seq![c]);
        }
    }
    assert(s@.take(s@.len() as int) =~= s@);
    out
}

/// The script that tells the page which notification was clicked, where the
/// notification has an identity.
pub open spec fn script_for_click(click_id: Seq<char>) -> Option<Seq<char>> {
    if click_id.len() == 0 {
        None
    } else {
        Some(
            "window.__waLiteOnNotifClick && window.__waLiteOnNotifClick(\""@ + js_escaped(click_id)
                + "\");"@,
        )
    }
}

pub fn click_script(click_id: &str) -> (r: Option<String>)
    ensures
        text_of(r) == script_for_click(click_id@),
{
    if click_id.is_empty() {
        return None;
    }
    let escaped = js_escape(click_id);
    let mut script =
        "window.__waLiteOnNotifClick && window.__waLiteOnNotifClick(\"".to_string();
    script.append(escaped.as_str());
    script.append("\");");
    Some(script)
}

// ---------------------------------------------------------------------------
// The avatar files
// ---------------------------------------------------------------------------

/// The letters and digits of a key that go into a file name.
pub open spec fn safe_key(key: Seq<char>) -> Seq<char> {
    selected(key, |c: char| is_ascii_alphanumeric(c), MAX_TAG_LEN as nat)
}

/// The file for the avatar of a chat. It hangs on the tag of the chat, so that
/// one person has one file, and on the notification where there is no tag.
pub open spec fn avatar_file(tag: Seq<char>, notification_id: Seq<char>) -> Seq<char> {
    let key = safe_key(
        if tag.len() > 0 {
            tag
        } else {
            notification_id
        },
    );
    if key.len() == 0 {
        "wa_lite_avatar.png"@
    } else {
        "wa_lite_avatar_"@ + key + ".png"@
    }
}

pub fn avatar_file_name(tag: &str, notification_id: &str) -> (r: String)
    ensures
        r@ == avatar_file(tag@, notification_id@),
{
    let key = if !tag.is_empty() {
        tag
    } else {
        notification_id
    };
    let safe = select(
        key,
        ascii_alphanumeric,
        MAX_TAG_LEN,
        Ghost(|c: char| is_ascii_alphanumeric(c)),
    );
    if safe.as_str().is_empty() {
        "wa_lite_avatar.png".to_string()
    } else {
        let mut name = "wa_lite_avatar_".to_string();
        name.append(safe.as_str());
        name.append(".png");
        name
    }
}

/// How old an avatar file may become, in nanoseconds: one day.
pub const AVATAR_MAX_AGE: i128 = 24 * 60 * 60 * 1_000_000_000;

/// The names of the avatar files that belong to a chat.
pub open spec fn is_avatar_file(name: Seq<char>) -> bool {
    "wa_lite_avatar_"@.is_prefix_of(name) && ".png"@.is_suffix_of(name)
}

/// The moment before which an avatar file is too old, as nanoseconds from the
/// Unix epoch on, where the clock reaches that far.
pub fn avatar_cutoff(now: i128) -> (r: Option<i128>)
    ensures
        r == if now - AVATAR_MAX_AGE >= i128::MIN {
            Some((now - AVATAR_MAX_AGE) as i128)
        } else {
            None
        },
{
    now.checked_sub(AVATAR_MAX_AGE)
}

/// Whether a file of the temporary directory is an avatar that nobody needs any
/// more.
pub fn is_stale_avatar(name: &str, modified: i128, cutoff: i128) -> (r: bool)
    ensures
        r == (is_avatar_file(name@) && modified < cutoff),
{
    starts_with(name, "wa_lite_avatar_") && ends_with(name, ".png") && modified < cutoff
}

// ---------------------------------------------------------------------------
// The notification
// ---------------------------------------------------------------------------

/// A notification that is ready to be shown.
#[derive(Debug)]
pub struct Notification {
    pub title: String,
    pub body: String,
    /// The file that the picture goes into, where there is a picture.
    pub avatar_file: Option<String>,
    pub tag: String,
    pub click_id: String,
}

/// What a notification says.
pub struct NotificationView {
    pub title: Seq<char>,
    pub body: Seq<char>,
    pub avatar_file: Option<Seq<char>>,
    pub tag: Seq<char>,
    pub click_id: Seq<char>,
}

impl View for Notification {
    type V = NotificationView;

    open spec fn view(&self) -> NotificationView {
        NotificationView {
            title: self.title@,
            body: self.body@,
            avatar_file: text_of(self.avatar_file),
            tag: self.tag@,
            click_id: self.click_id@,
        }
    }
}

/// A text without white space at its ends, or another one where it is blank.
pub open spec fn or_default(text: Seq<char>, default: Seq<char>) -> Seq<char> {
    if trimmed(text).len() == 0 {
        default
    } else {
        trimmed(text)
    }
}

pub open spec fn or_empty(text: Option<Seq<char>>) -> Seq<char> {
    match text {
        Some(t) => t,
        None => Seq::empty(),
    }
}

/// The notification for a request of the page.
pub open spec fn notification_for(
    title: Seq<char>,
    body: Seq<char>,
    has_image: bool,
    notification_id: Option<Seq<char>>,
    tag: Option<Seq<char>>,
) -> NotificationView {
    NotificationView {
        title: or_default(title, "WhatsApp Lite"@),
        body: or_default(body, "Nova mensagem"@),
        avatar_file: if has_image {
            Some(avatar_file(or_empty(tag), or_empty(notification_id)))
        } else {
            None
        },
        tag: or_empty(tag),
        click_id: or_empty(notification_id),
    }
}

fn text_or(text: &str, default: &str) -> (r: String)
    ensures
        r@ == or_default(text@, default@),
{
    let clean = trim(text);
    if clean.as_str().is_empty() {
        default.to_string()
    } else {
        clean
    }
}

fn text_or_empty(text: Option<String>) -> (r: String)
    ensures
        r@ == or_empty(text_of(text)),
{
    match text {
        Some(t) => t,
        None => String::new(),
    }
}

/// The notification to show for a request of the page. While the system asks for
/// quiet there is none. A picture without bytes is no picture.
pub fn send_notification(
    do_not_disturb: bool,
    title: &str,
    body: &str,
    image_bytes: &Option<Vec<u8>>,
    notification_id: Option<String>,
    tag: Option<String>,
) -> (r: Option<Notification>)
    ensures
        r is None == do_not_disturb,
        r matches Some(n) ==> n@ == notification_for(
            title@,
            body@,
            image_bytes is Some && image_bytes->0@.len() > 0,
            text_of(notification_id),
            text_of(tag),
        ),
{
    if do_not_disturb {
        return None;
    }
    let click_id = text_or_empty(notification_id);
    let tag = text_or_empty(tag);
    let has_image = match image_bytes {
        Some(bytes) => bytes.len() > 0,
        None => false,
    };
    let avatar_file = if has_image {
        Some(avatar_file_name(tag.as_str(), click_id.as_str()))
    } else {
        None
    };
    Some(
        Notification {
            title: text_or(title, "WhatsApp Lite"),
            body: text_or(body, "Nova mensagem"),
            avatar_file,
            tag,
            click_id,
        },
    )
}

// ---------------------------------------------------------------------------
// Laws of the texts
// ---------------------------------------------------------------------------

pub open spec fn is_markup(c: char) -> bool {
    c == '<' || c == '>' || c == '"' || c == '\''
}

/// A text cannot break out of its place in the toast: its XML form holds no
/// character that begins or ends a tag or an attribute.
pub proof fn law_escaped_text_holds_no_markup(s: Seq<char>)
    ensures
        forall|i: int| 0 <= i < xml_escaped(s).len() ==> !is_markup(#[trigger] xml_escaped(s)[i]),
    decreases s.len(),
{
    if s.len() > 0 {
        law_escaped_text_holds_no_markup(s.drop_last());
        reveal_strlit("&amp;");
        reveal_strlit("&lt;");
        reveal_strlit("&gt;");
        reveal_strlit("&quot;");
        reveal_strlit("&apos;");
        let before = xml_escaped(s.drop_last());
        let part = xml_entity(s.last());
        assert(xml_escaped(s) == before + part);
        assert forall|i: int| 0 <= i < xml_escaped(s).len() implies !is_markup(
            #[trigger] xml_escaped(s)[i],
        ) by {
            if i < before.len() {
                assert(xml_escaped(s)[i] == before[i]);
            } else {
                assert(xml_escaped(s)[i] == part[i - before.len()]);
            }
        }
    }
}

/// Nothing of a text is lost in its XML form: different texts have different
/// forms.
pub proof fn law_xml_form_is_injective(a: Seq<char>, b: Seq<char>)
    requires
        xml_escaped(a) == xml_escaped(b),
    ensures
        a == b,
{
    let f = |c: char| xml_entity(c);
    reveal_strlit("&amp;");
    reveal_strlit("&lt;");
    reveal_strlit("&gt;");
    reveal_strlit("&quot;");
    reveal_strlit("&apos;");
    assert forall|c: char, d: char| c != d implies !(#[trigger] f(c)).is_prefix_of(
        #[trigger] f(d),
    ) by {
        if f(c).is_prefix_of(f(d)) {
            assert(f(c)[0] == f(d)[0]);
            if f(c).len() > 1 {
                assert(f(c)[1] == f(d)[1] && f(c)[2] == f(d)[2]);
            }
        }
    }
    lemma_expanded_is_injective(a, b, f);
}

/// A character that a script string cannot hold as it is.
pub open spec fn is_line_end(c: char) -> bool {
    c == '\n' || c == '\r'
}

pub open spec fn has_line_end(s: Seq<char>) -> bool {
    exists|i: int| 0 <= i < s.len() && is_line_end(#[trigger] s[i])
}

/// Where a script string that began before `s` ends, or breaks off: at the first
/// double quote that no backslash takes for itself, or at a line end.
pub open spec fn string_end(s: Seq<char>) -> int
    decreases s.len(),
{
    if s.len() == 0 || s[0] == '"' || is_line_end(s[0]) {
        0
    } else if s[0] == '\\' && s.len() > 1 {
        2 + string_end(s.skip(2))
    } else {
        1 + string_end(s.skip(1))
    }
}

/// An identity without line ends cannot break out of the string that carries it:
/// the string ends where the identity ends, whatever follows.
pub proof fn law_click_identity_stays_in_its_string(id: Seq<char>, rest: Seq<char>)
    requires
        !has_line_end(id),
    ensures
        string_end(js_escaped(id) + seq!['"'] + rest) == js_escaped(id).len(),
    decreases id.len(),
{
    let f = |c: char| js_char(c);
    let tail = seq!['"'] + rest;
    let s = js_escaped(id) + seq!['"'] + rest;
    if id.len() == 0 {
        assert(s[0] == '"');
    } else {
        reveal_strlit("\\\\");
        reveal_strlit("\\\"");
        lemma_expanded_first(id, f);
        assert(!is_line_end(id[0]));
        assert forall|i: int| 0 <= i < id.drop_first().len() implies !is_line_end(
            #[trigger] id.drop_first()[i],
        ) by {
            assert(!is_line_end(id[i + 1]));
        }
        law_click_identity_stays_in_its_string(id.drop_first(), rest);
        let x = js_char(id.first());
        let t = js_escaped(id.drop_first()) + seq!['"'] + rest;
        assert(s =~= x + t);
        assert(s[0] == x[0]);
        assert(s.skip(x.len() as int) =~= t);
        assert(js_escaped(id).len() == x.len() + js_escaped(id.drop_first()).len());
    }
}

/// The page can tell notifications apart: different identities give different
/// scripts.
pub proof fn law_click_identities_stay_apart(a: Seq<char>, b: Seq<char>)
    requires
        js_escaped(a) == js_escaped(b),
    ensures
        a == b,
{
    let f = |c: char| js_char(c);
    reveal_strlit("\\\\");
    reveal_strlit("\\\"");
    assert forall|c: char, d: char| c != d implies !(#[trigger] f(c)).is_prefix_of(
        #[trigger] f(d),
    ) by {
        if f(c).is_prefix_of(f(d)) {
            assert(f(c)[0] == f(d)[0]);
            if f(c).len() > 1 {
                assert(f(c)[1] == f(d)[1]);
            }
        }
    }
    lemma_expanded_is_injective(a, b, f);
}

/// A tag fits the limit of the system and holds neither control characters nor
/// white space. A tag that is so already stays as it is.
pub proof fn law_tag_fits(tag: Seq<char>)
    ensures
        tag_for(tag) matches Some(t) ==> 0 < t.len() <= MAX_TAG_LEN && forall|i: int|
            0 <= i < t.len() ==> is_tag_char(#[trigger] t[i]),
        0 < tag.len() <= MAX_TAG_LEN && (forall|i: int|
            0 <= i < tag.len() ==> is_tag_char(#[trigger] tag[i])) ==> tag_for(tag) == Some(tag),
{
    let p = |c: char| is_tag_char(c);
    lemma_selected(tag, p, MAX_TAG_LEN as nat);
    if forall|i: int| 0 <= i < tag.len() ==> is_tag_char(#[trigger] tag[i]) {
        assert forall|i: int| 0 <= i < tag.len() implies p(#[trigger] tag[i]) by {}
    }
    match tag_for(tag) {
        Some(t) => {
            assert forall|i: int| 0 <= i < t.len() implies is_tag_char(#[trigger] t[i]) by {
                assert(p(t[i]));
            }
        },
        None => {},
    }
}

/// The avatar file of a chat lies in the temporary directory itself: its name
/// holds letters, digits and underscores, one dot, and no separator.
pub proof fn law_avatar_file_stays_put(tag: Seq<char>, notification_id: Seq<char>)
    ensures
        forall|i: int|
            0 <= i < avatar_file(tag, notification_id).len() ==> {
                let c = #[trigger] avatar_file(tag, notification_id)[i];
                is_ascii_alphanumeric(c) || c == '_' || c == '.'
            },
        avatar_file(tag, notification_id).first() == 'w',
        avatar_file(tag, notification_id).len() <= 83,
{
    let raw = if tag.len() > 0 {
        tag
    } else {
        notification_id
    };
    let p = |c: char| is_ascii_alphanumeric(c);
    let key = safe_key(raw);
    lemma_selected(raw, p, MAX_TAG_LEN as nat);
    reveal_strlit("wa_lite_avatar.png");
    reveal_strlit("wa_lite_avatar_");
    reveal_strlit(".png");
    let name = avatar_file(tag, notification_id);
    let head = "wa_lite_avatar_"@;
    if key.len() > 0 {
        assert forall|i: int| 0 <= i < name.len() implies (is_ascii_alphanumeric(
            #[trigger] name[i],
        ) || name[i] == '_' || name[i] == '.') by {
            if i < head.len() {
                assert(name[i] == head[i]);
            } else if i < head.len() + key.len() {
                assert(name[i] == key[i - head.len()]);
                assert(p(key[i - head.len()]));
            } else {
                assert(name[i] == ".png"@[i - head.len() - key.len()]);
            }
        }
        assert(name[0] == head[0]);
    }
}

/// What is written for a chat is found again when old avatars are removed.
pub proof fn law_avatar_of_a_chat_is_removed_in_the_end(
    tag: Seq<char>,
    notification_id: Seq<char>,
)
    requires
        safe_key(
            if tag.len() > 0 {
                tag
            } else {
                notification_id
            },
        ).len() > 0,
    ensures
        is_avatar_file(avatar_file(tag, notification_id)),
{
    let name = avatar_file(tag, notification_id);
    let head = "wa_lite_avatar_"@;
    let end = ".png"@;
    assert(name.take(head.len() as int) =~= head);
    assert(name.subrange(name.len() - end.len(), name.len() as int) =~= end);
}

/// One chat has one avatar file, whichever notification it comes with.
pub proof fn law_one_chat_one_avatar_file(
    tag: Seq<char>,
    first_id: Seq<char>,
    second_id: Seq<char>,
)
    requires
        tag.len() > 0,
    ensures
        avatar_file(tag, first_id) == avatar_file(tag, second_id),
{
}

// ---------------------------------------------------------------------------
// Laws of what a notification says and does
// ---------------------------------------------------------------------------

/// A notification hands on what it was asked with, with or without a picture: the
/// identity and the tag of the request, which are empty only where the request had
/// none, and its texts without the white space around them.
pub proof fn law_notification_hands_on_the_request(
    title: Seq<char>,
    body: Seq<char>,
    has_image: bool,
    notification_id: Option<Seq<char>>,
    tag: Option<Seq<char>>,
)
    ensures
        ({
            let n = notification_for(title, body, has_image, notification_id, tag);
            &&& notification_id is Some ==> n.click_id == notification_id->0
            &&& notification_id is None ==> n.click_id.len() == 0
            &&& tag is Some ==> n.tag == tag->0
            &&& tag is None ==> n.tag.len() == 0
            &&& trimmed(title).len() > 0 ==> n.title == trimmed(title)
            &&& trimmed(title).len() == 0 ==> n.title == "WhatsApp Lite"@
            &&& trimmed(body).len() > 0 ==> n.body == trimmed(body)
            &&& trimmed(body).len() == 0 ==> n.body == "Nova mensagem"@
            &&& n.avatar_file is Some <==> has_image
        }),
{
}

/// The picture changes nothing about a notification but its file.
pub proof fn law_picture_changes_only_the_file(
    title: Seq<char>,
    body: Seq<char>,
    notification_id: Option<Seq<char>>,
    tag: Option<Seq<char>>,
)
    ensures
        ({
            let with = notification_for(title, body, true, notification_id, tag);
            let without = notification_for(title, body, false, notification_id, tag);
            &&& with.title == without.title
            &&& with.body == without.body
            &&& with.tag == without.tag
            &&& with.click_id == without.click_id
            &&& with.avatar_file == Some(avatar_file(with.tag, with.click_id))
        }),
{
}

/// A click on any notification with an identity runs the script for that identity.
pub proof fn law_click_opens_the_chat_of_the_request(
    title: Seq<char>,
    body: Seq<char>,
    has_image: bool,
    id: Seq<char>,
    tag: Option<Seq<char>>,
)
    requires
        id.len() > 0,
    ensures
        script_for_click(notification_for(title, body, has_image, Some(id), tag).click_id) == Some(
            "window.__waLiteOnNotifClick && window.__waLiteOnNotifClick(\""@ + js_escaped(id)
                + "\");"@,
        ),
{
}

/// Without an identity there is nothing to run.
pub proof fn law_click_without_identity_runs_nothing(id: Seq<char>)
    ensures
        script_for_click(id) is None <==> id.len() == 0,
{
}

/// A view of a notification leaves nothing of it out.
pub proof fn law_notification_tells_everything(n: Notification)
    ensures
        n@.title == n.title@,
        n@.body == n.body@,
        n@.tag == n.tag@,
        n@.click_id == n.click_id@,
        n@.avatar_file is Some <==> n.avatar_file is Some,
        n.avatar_file is Some ==> n@.avatar_file->0 == n.avatar_file->0@,
{
}

/// The XML form of a text goes character by character: five characters have an
/// entity, and every other stands for itself.
pub proof fn law_xml_form_goes_by_characters(a: Seq<char>, b: Seq<char>, c: char)
    ensures
        xml_escaped(a + b) == xml_escaped(a) + xml_escaped(b),
        xml_escaped(Seq::<char>::empty()).len() == 0,
        xml_escaped(seq!['&']) == "&amp;"@,
        xml_escaped(seq!['<']) == "&lt;"@,
        xml_escaped(seq!['>']) == "&gt;"@,
        xml_escaped(seq!['"']) == "&quot;"@,
        xml_escaped(seq!['\'']) == "&apos;"@,
        c != '&' && c != '<' && c != '>' && c != '"' && c != '\'' ==> xml_escaped(seq![c])
            == seq![c],
{
    let f = |c: char| xml_entity(c);
    law_expansion_goes_by_characters(a, b, c, f);
    law_expansion_goes_by_characters(a, b, '&', f);
    law_expansion_goes_by_characters(a, b, '<', f);
    law_expansion_goes_by_characters(a, b, '>', f);
    law_expansion_goes_by_characters(a, b, '"', f);
    law_expansion_goes_by_characters(a, b, '\'', f);
}

/// The form of a text inside a script string goes character by character: a backslash
/// and a double quote get a backslash before them, and every other character stands
/// for itself.
pub proof fn law_script_form_goes_by_characters(a: Seq<char>, b: Seq<char>, c: char)
    ensures
        js_escaped(a + b) == js_escaped(a) + js_escaped(b),
        js_escaped(Seq::<char>::empty()).len() == 0,
        js_escaped(seq!['\\']) == seq!['\\', '\\'],
        js_escaped(seq!['"']) == seq!['\\', '"'],
        c != '\\' && c != '"' ==> js_escaped(seq![c]) == seq![c],
{
    let f = |c: char| js_char(c);
    reveal_strlit("\\\\");
    reveal_strlit("\\\"");
    law_expansion_goes_by_characters(a, b, c, f);
    law_expansion_goes_by_characters(a, b, '\\', f);
    law_expansion_goes_by_characters(a, b, '"', f);
    assert("\\\\"@ =~= seq!['\\', '\\']);
    assert("\\\""@ =~= seq!['\\', '"']);
}

/// A toast shows its title and its body, each in an element of its own, and before
/// them its picture where it has one.
pub proof fn law_toast_shows_title_and_body(title: Seq<char>, body: Seq<char>, path: Seq<char>)
    ensures
        ({
            let head = "<toast duration=\"short\"><visual><binding template=\"ToastGeneric\">"@;
            let texts = "<text>"@ + xml_escaped(title) + "</text><text>"@ + xml_escaped(body)
                + "</text></binding></visual></toast>"@;
            let picture =
                "<image placement=\"appLogoOverride\" hint-crop=\"circle\" src=\"file:///"@
                + xml_escaped(path) + "\" alt=\"avatar\" />"@;
            &&& toast_content(title, body, None) == head + texts
            &&& toast_content(title, body, Some(path)) == head + picture + texts
        }),
{
    let head = "<toast duration=\"short\"><visual><binding template=\"ToastGeneric\">"@;
    let texts = "<text>"@ + xml_escaped(title) + "</text><text>"@ + xml_escaped(body)
        + "</text></binding></visual></toast>"@;
    let picture = "<image placement=\"appLogoOverride\" hint-crop=\"circle\" src=\"file:///"@
        + xml_escaped(path) + "\" alt=\"avatar\" />"@;
    assert(toast_content(title, body, None) =~= head + texts);
    assert(toast_content(title, body, Some(path)) =~= head + picture + texts);
}

/// The tag of a toast is the beginning of that of the chat, without its control
/// characters and white space, and 64 characters long at most: it is cut only where
/// it is longer, and missing only where nothing is left.
pub proof fn law_tag_is_the_beginning_of_the_chat_tag(tag: Seq<char>)
    ensures
        ({
            let all = expanded(tag, kept_if(|c: char| !is_control(c) && !is_whitespace(c)));
            &&& tag_for(tag) is None <==> all.len() == 0
            &&& tag_for(tag) matches Some(t) ==> t == if all.len() <= 64 {
                all
            } else {
                all.take(64)
            }
        }),
{
    let p = |c: char| is_tag_char(c);
    let q = |c: char| !is_control(c) && !is_whitespace(c);
    assert(p =~= q);
    law_selection_is_the_beginning(tag, p, 64);
    let all = expanded(tag, kept_if(p));
    if all.len() <= 64 {
        assert(all.take(all.len() as int) =~= all);
    }
}

/// The file of a picture is named by the letters and digits of the tag of the chat,
/// and of the identity where there is no tag: the first 64 of them, all of them where
/// there are fewer.
pub proof fn law_avatar_file_is_named_by_its_key(tag: Seq<char>, id: Seq<char>)
    ensures
        ({
            let key = if tag.len() > 0 {
                tag
            } else {
                id
            };
            let all = expanded(key, kept_if(|c: char| is_ascii_alphanumeric(c)));
            &&& all.len() == 0 ==> avatar_file(tag, id) == "wa_lite_avatar.png"@
            &&& 0 < all.len() <= 64 ==> avatar_file(tag, id) == "wa_lite_avatar_"@ + all + ".png"@
            &&& all.len() > 64 ==> avatar_file(tag, id) == "wa_lite_avatar_"@ + all.take(64)
                + ".png"@
        }),
{
    let key = if tag.len() > 0 {
        tag
    } else {
        id
    };
    let p = |c: char| is_ascii_alphanumeric(c);
    law_selection_is_the_beginning(key, p, 64);
    let all = expanded(key, kept_if(p));
    if all.len() <= 64 {
        assert(all.take(all.len() as int) =~= all);
    }
}

/// A picture is too old after a day, and only files with the name of one are removed:
/// whatever stands between the beginning and the end of that name.
pub proof fn law_names_of_avatar_files(middle: Seq<char>, name: Seq<char>)
    ensures
        AVATAR_MAX_AGE == 86_400_000_000_000,
        is_avatar_file("wa_lite_avatar_"@ + middle + ".png"@),
        is_avatar_file(name) ==> "wa_lite_avatar_"@.is_prefix_of(name) && ".png"@.is_suffix_of(
            name,
        ),
{
    let full = "wa_lite_avatar_"@ + middle + ".png"@;
    let head = "wa_lite_avatar_"@;
    let end = ".png"@;
    assert(full.take(head.len() as int) =~= head);
    assert(full.subrange(full.len() - end.len(), full.len() as int) =~= end);
}

/// All toasts are in one group, and 64 characters of a tag are used.
pub proof fn law_toast_limits()
    ensures
        TOAST_GROUP@ == "wa-lite"@,
        MAX_TAG_LEN == 64,
{
}

} // verus!
