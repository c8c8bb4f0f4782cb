//! Where the window may go: WhatsApp stays in it, other sites open in the browser
//! of the system, and nothing else opens at all.

use crate::text::{
    ascii_lowercased, ends_with, is_same_letter, law_trim_is_idempotent, outcome, starts_with,
    str_eq, text_of, to_ascii_lowercase, trim, trimmed,
};
use vstd::prelude::*;

verus! {

/// The parts of a URL that decide about it.
#[derive(Debug)]
pub struct Url {
    pub scheme: String,
    pub host: Option<String>,
}

/// What a URL says.
pub struct UrlView {
    pub scheme: Seq<char>,
    pub host: Option<Seq<char>>,
}

impl View for Url {
    type V = UrlView;

    open spec fn view(&self) -> UrlView {
        UrlView { scheme: self.scheme@, host: text_of(self.host) }
    }
}

/// The scheme and the host that `Url::parse` of the url crate finds in a text,
/// where the text is a URL.
pub uninterp spec fn url_parts(text: Seq<char>) -> Option<(Seq<char>, Option<Seq<char>>)>;

/// `Url::parse` of the url crate, with the `scheme` and the `host_str` of what it
/// gives.
#[verifier::external_body]
fn parse_url(text: &str) -> (r: Option<(String, Option<String>)>)
    ensures
        match r {
            Some(parts) => url_parts(text@) == Some(
                (parts.0@, text_of(parts.1)),
            ),
            None => url_parts(text@) is None,
        },
{
    url::Url::parse(text).ok().map(
        |url| (url.scheme().to_string(), url.host_str().map(|host| host.to_string())),
    )
}

impl Url {
    /// The URL that a text is.
    pub fn parse(text: &str) -> (r: Option<Url>)
        ensures
            match r {
                Some(url) => url_parts(text@) == Some((url@.scheme, url@.host)),
                None => url_parts(text@) is None,
            },
    {
        match parse_url(text) {
            Some((scheme, host)) => Some(Url { scheme, host }),
            None => None,
        }
    }
}

#[derive(Clone, Copy, Debug, PartialEq, Eq, Structural)]
pub enum NavigationAction {
    Allow,
    OpenExternal,
    Block,
}

/// The hosts that belong to WhatsApp.
pub open spec fn is_whatsapp_host(host: Seq<char>) -> bool {
    ||| host == "web.whatsapp.com"@
    ||| host == "whatsapp.com"@
    ||| ".whatsapp.com"@.is_suffix_of(host)
    ||| ".whatsapp.net"@.is_suffix_of(host)
}

pub open spec fn is_web_scheme(scheme: Seq<char>) -> bool {
    scheme == "http"@ || scheme == "https"@
}

/// What becomes of a navigation.
pub open spec fn action_for(url: UrlView) -> NavigationAction {
    if !is_web_scheme(url.scheme) {
        NavigationAction::Block
    } else if url.host is Some && is_whatsapp_host(url.host->0) {
        NavigationAction::Allow
    } else {
        NavigationAction::OpenExternal
    }
}

fn whatsapp_host(host: &str) -> (r: bool)
    ensures
        r == is_whatsapp_host(host@),
{
    str_eq(host, "web.whatsapp.com") || str_eq(host, "whatsapp.com") || ends_with(
        host,
        ".whatsapp.com",
    ) || ends_with(host, ".whatsapp.net")
}

pub fn navigation_action(url: &Url) -> (r: NavigationAction)
    ensures
        r == action_for(url@),
{
    let scheme = url.scheme.as_str();
    if !str_eq(scheme, "http") && !str_eq(scheme, "https") {
        return NavigationAction::Block;
    }
    let allowed = match &url.host {
        Some(host) => whatsapp_host(host.as_str()),
        None => false,
    };
    if allowed {
        NavigationAction::Allow
    } else {
        NavigationAction::OpenExternal
    }
}

/// What becomes of a navigation to the URL that a text is. A text that is no URL
/// leads nowhere.
pub fn navigation_to(text: &str) -> (r: NavigationAction)
    ensures
        r == match url_parts(text@) {
            Some(parts) => action_for(UrlView { scheme: parts.0, host: parts.1 }),
            None => NavigationAction::Block,
        },
{
    match Url::parse(text) {
        Some(url) => navigation_action(&url),
        None => NavigationAction::Block,
    }
}

impl NavigationAction {
    /// The window itself goes there.
    pub fn stays_in_window(self) -> (r: bool)
        ensures
            r == (self == NavigationAction::Allow),
    {
        self == NavigationAction::Allow
    }

    /// The browser of the system goes there.
    pub fn opens_browser(self) -> (r: bool)
        ensures
            r == (self == NavigationAction::OpenExternal),
    {
        self == NavigationAction::OpenExternal
    }
}

/// Whether a text begins like the URL of a web page, in whatever ASCII case.
pub open spec fn looks_like_web_url(text: Seq<char>) -> bool {
    "http://"@.is_prefix_of(ascii_lowercased(text)) || "https://"@.is_prefix_of(
        ascii_lowercased(text),
    )
}

/// The URL to hand to the browser of the system for a text, or the message that
/// refuses it.
pub open spec fn external_url(text: Seq<char>) -> Result<Seq<char>, Seq<char>> {
    if looks_like_web_url(trimmed(text)) {
        Ok(trimmed(text))
    } else {
        Err("Apenas URLs HTTP/HTTPS sao permitidas"@)
    }
}

pub fn open_external_url(url: &str) -> (r: Result<String, String>)
    ensures
        outcome(r) == external_url(url@),
{
    let url = trim(url);
    let lower = to_ascii_lowercase(url.as_str());
    if starts_with(lower.as_str(), "http://") || starts_with(lower.as_str(), "https://") {
        Ok(url)
    } else {
        Err("Apenas URLs HTTP/HTTPS sao permitidas".to_string())
    }
}

/// Only the web leaves the app or stays in it: with any other scheme, whatever
/// the host, a navigation ends.
pub proof fn law_other_schemes_are_blocked(url: UrlView)
    requires
        url.scheme != "http"@,
        url.scheme != "https"@,
    ensures
        action_for(url) == NavigationAction::Block,
{
}

/// The window stays with WhatsApp: a host that it goes to is WhatsApp's domain or
/// ends in it behind a dot, so a foreign domain whose name merely ends alike does
/// not pass.
pub proof fn law_window_stays_with_whatsapp(url: UrlView)
    requires
        action_for(url) == NavigationAction::Allow,
    ensures
        url.scheme == "http"@ || url.scheme == "https"@,
        url.host is Some,
        url.host->0 == "whatsapp.com"@ || ".whatsapp.com"@.is_suffix_of(url.host->0)
            || ".whatsapp.net"@.is_suffix_of(url.host->0),
{
    reveal_strlit("web.whatsapp.com");
    reveal_strlit(".whatsapp.com");
    let a = "web.whatsapp.com"@;
    assert(a.subrange(3, 16) =~= ".whatsapp.com"@);
}

/// What is handed to the browser is handed on unchanged when it is asked for
/// again.
pub proof fn law_external_url_is_stable(text: Seq<char>)
    requires
        external_url(text) is Ok,
    ensures
        external_url(external_url(text)->Ok_0) == external_url(text),
{
    law_trim_is_idempotent(text);
}

// ---------------------------------------------------------------------------
// Laws of where each URL goes
// ---------------------------------------------------------------------------

/// Every page of WhatsApp stays in the window, under either scheme of the web: its
/// domain, and whatever stands before a dot and one of its two domains.
pub proof fn law_whatsapp_stays_in_the_window(url: UrlView, sub: Seq<char>)
    requires
        url.scheme == "http"@ || url.scheme == "https"@,
        url.host == Some("whatsapp.com"@) || url.host == Some(sub + ".whatsapp.com"@) || url.host
            == Some(sub + ".whatsapp.net"@),
    ensures
        action_for(url) == NavigationAction::Allow,
{
    let com = sub + ".whatsapp.com"@;
    let net = sub + ".whatsapp.net"@;
    assert(com.subrange(sub.len() as int, com.len() as int) =~= ".whatsapp.com"@);
    assert(net.subrange(sub.len() as int, net.len() as int) =~= ".whatsapp.net"@);
}

/// Every other page of the web opens in the browser of the system, under either
/// scheme, whether it has a host or not.
pub proof fn law_other_pages_open_in_the_browser(url: UrlView)
    requires
        url.scheme == "http"@ || url.scheme == "https"@,
        url.host is Some ==> url.host->0 != "whatsapp.com"@ && forall|sub: Seq<char>|
            url.host->0 != #[trigger] (sub + ".whatsapp.com"@) && url.host->0 != sub
                + ".whatsapp.net"@,
    ensures
        action_for(url) == NavigationAction::OpenExternal,
{
    if url.host is Some {
        let host = url.host->0;
        if ".whatsapp.com"@.is_suffix_of(host) {
            let sub = host.take(host.len() - ".whatsapp.com"@.len());
            assert(host =~= sub + ".whatsapp.com"@);
        }
        if ".whatsapp.net"@.is_suffix_of(host) {
            let sub = host.take(host.len() - ".whatsapp.net"@.len());
            assert(sub + ".whatsapp.com"@ == sub + ".whatsapp.com"@);
            assert(host =~= sub + ".whatsapp.net"@);
        }
        reveal_strlit("web.whatsapp.com");
        reveal_strlit(".whatsapp.com");
        if host == "web.whatsapp.com"@ {
            let sub = seq!['w', 'e', 'b'];
            assert(host =~= sub + ".whatsapp.com"@);
        }
    }
}

/// Both schemes of the web are treated alike, and the host alone decides between them.
pub proof fn law_both_schemes_are_treated_alike(host: Option<Seq<char>>)
    ensures
        action_for(UrlView { scheme: "http"@, host }) == action_for(
            UrlView { scheme: "https"@, host },
        ),
        action_for(UrlView { scheme: "http"@, host }) != NavigationAction::Block,
{
}

/// A text that begins with one of the two schemes of the web, in whatever case, goes
/// to the browser as it is but for the white space around it; any other is refused.
pub proof fn law_web_links_go_to_the_browser(text: Seq<char>)
    ensures
        ({
            let t = trimmed(text);
            let plain = t.len() >= 7 && forall|i: int|
                0 <= i < 7 ==> is_same_letter(#[trigger] t[i], "http://"@[i]);
            let secure = t.len() >= 8 && forall|i: int|
                0 <= i < 8 ==> is_same_letter(#[trigger] t[i], "https://"@[i]);
            &&& plain || secure ==> external_url(text) == Ok::<Seq<char>, Seq<char>>(t)
            &&& !plain && !secure ==> external_url(text) == Err::<Seq<char>, Seq<char>>(
                "Apenas URLs HTTP/HTTPS sao permitidas"@,
            )
        }),
{
    let t = trimmed(text);
    let low = ascii_lowercased(t);
    reveal_strlit("http://");
    reveal_strlit("https://");
    lemma_begins_in_any_case(t, "http://"@);
    lemma_begins_in_any_case(t, "https://"@);
}

proof fn lemma_begins_in_any_case(t: Seq<char>, prefix: Seq<char>)
    requires
        forall|i: int| 0 <= i < prefix.len() ==> !('A' <= #[trigger] prefix[i] <= 'Z'),
    ensures
        prefix.is_prefix_of(ascii_lowercased(t)) <==> t.len() >= prefix.len() && forall|i: int|
            0 <= i < prefix.len() ==> is_same_letter(#[trigger] t[i], prefix[i]),
{
    let low = ascii_lowercased(t);
    if prefix.is_prefix_of(low) {
        assert forall|i: int| 0 <= i < prefix.len() implies is_same_letter(
            #[trigger] t[i],
            prefix[i],
        ) by {
            assert(low.take(prefix.len() as int)[i] == low[i]);
        }
    }
    if t.len() >= prefix.len() && forall|i: int|
        0 <= i < prefix.len() ==> is_same_letter(#[trigger] t[i], prefix[i]) {
        assert forall|i: int| 0 <= i < prefix.len() implies low[i] == prefix[i] by {
            assert(is_same_letter(t[i], prefix[i]));
            assert(!('A' <= prefix[i] <= 'Z'));
        }
        assert(low.take(prefix.len() as int) =~= prefix);
    }
}

/// What decides about a URL is all of its scheme and all of its host.
pub proof fn law_url_tells_everything(url: Url)
    ensures
        url@.scheme == url.scheme@,
        url@.host is Some <==> url.host is Some,
        url.host is Some ==> url@.host->0 == url.host->0@,
{
}

} // verus!
