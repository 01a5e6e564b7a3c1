//! The session with the browser: where it listens, and the app id that its
//! pages send.

use crate::json::{read_json_text, Json};
use crate::pattern::{find, group};
use crate::text::trim_end_matches;
use vstd::prelude::*;

verus! {

use crate::json::{json_of_text, JsonTree};
use crate::pattern::{found, group_text};
use crate::text::{law_runs_come_off_the_ends, without_trailing};

// --- the app id ----------------------------------------------------------------------

/// The app id that is sent until a page gives another.
pub const FALLBACK_APP_ID: &'static str = "936619743392459";

/// The patterns of an app id in a page, the first to be tried first. Group 1 is
/// the id.
pub const APP_ID_PATTERNS: [&'static str; 4] = [
    r#""appId"\s*:\s*"([0-9]{10,20})""#,
    r#""X-IG-App-ID"\s*:\s*"([0-9]{10,20})""#,
    r#"X-IG-App-ID['":\s]+([0-9]{10,20})"#,
    r#""app_id"\s*:\s*"([0-9]{10,20})""#,
];

/// What the first of the patterns from `i` on that is found in a page gives.
pub open spec fn app_id_in(html: Seq<char>, i: int) -> Option<Seq<char>>
    decreases 4 - i,
{
    if i < 0 || i >= 4 {
        None
    } else {
        match found(APP_ID_PATTERNS[i]@, html) {
            Some(groups) => group_text(groups, 1),
            None => app_id_in(html, i + 1),
        }
    }
}

/// Looks for an app id in a page.
pub fn find_app_id(html: &str) -> (r: Option<String>)
    ensures
        match r {
            Some(id) => app_id_in(html@, 0) == Some(id@),
            None => app_id_in(html@, 0) is None,
        },
{
    let mut i: usize = 0;
    while i < 4
        invariant
            0 <= i <= 4,
            app_id_in(html@, 0) == app_id_in(html@, i as int),
        decreases 4 - i,
    {
        if let Some(groups) = find(APP_ID_PATTERNS[i], html) {
            return match group(&groups, 1) {
                Some(id) => Some(id.clone()),
                None => None,
            };
        }
        i += 1;
    }
    None
}

/// The app id after a page was seen: the one that it holds, or else the one
/// from before.
pub open spec fn app_id_after(current: Seq<char>, html: Seq<char>) -> Seq<char> {
    if html.len() == 0 {
        current
    } else {
        match app_id_in(html, 0) {
            Some(id) => id,
            None => current,
        }
    }
}

pub fn extract_app_id(current: String, html: &str) -> (r: String)
    ensures
        r@ == app_id_after(current@, html@),
{
    if html.is_empty() {
        return current;
    }
    match find_app_id(html) {
        Some(id) => id,
        None => current,
    }
}

// --- where the browser listens -------------------------------------------------------

/// The address that tells the browser's version.
pub open spec fn version_address(browser_url: Seq<char>) -> Seq<char> {
    without_trailing(browser_url, '/') + "/json/version"@
}

pub fn version_url(browser_url: &str) -> (r: String)
    ensures
        r@ == version_address(browser_url@),
{
    let mut url = trim_end_matches(browser_url, '/').to_owned();
    url.append("/json/version");
    url
}

/// The address of the browser's socket in what it tells of its version, or the
/// message that there is none.
pub open spec fn socket_in(doc: JsonTree, version_url: Seq<char>) -> Result<Seq<char>, Seq<char>> {
    match doc.field_text("webSocketDebuggerUrl"@) {
        Some(url) => Ok(url),
        None => Err("no webSocketDebuggerUrl in "@ + version_url),
    }
}

/// Reads the address of the browser's socket.
pub fn socket_from_json(doc: &Json, version_url: &str) -> (r: Result<String, String>)
    ensures
        match r {
            Ok(url) => socket_in(doc@, version_url@) == Ok::<Seq<char>, Seq<char>>(url@),
            Err(e) => socket_in(doc@, version_url@) == Err::<Seq<char>, Seq<char>>(e@),
        },
{
    match doc.get_str("webSocketDebuggerUrl") {
        Some(url) => Ok(url.clone()),
        None => {
            let mut message = "no webSocketDebuggerUrl in ".to_owned();
            message.append(version_url);
            Err(message)
        },
    }
}

/// Reads the address of the browser's socket from what it tells of its
/// version.
pub fn socket_from_text(text: &str, version_url: &str) -> (r: Result<String, String>)
    ensures
        match json_of_text(text@) {
            Ok(doc) => match r {
                Ok(url) => socket_in(doc, version_url@) == Ok::<Seq<char>, Seq<char>>(url@),
                Err(e) => socket_in(doc, version_url@) == Err::<Seq<char>, Seq<char>>(e@),
            },
            Err(m) => r matches Err(e) && e@ == m,
        },
{
    match read_json_text(text) {
        Ok(doc) => socket_from_json(&doc, version_url),
        Err(m) => Err(m),
    }
}

/// The message for a browser that cannot be reached.
pub fn connect_error(browser_url: &str, e: &str) -> (r: String)
    ensures
        r@ == "connect "@ + browser_url@ + ": "@ + e@,
{
    let mut message = "connect ".to_owned();
    message.append(browser_url);
    message.append(": ");
    message.append(e);
    message
}

// --- laws ----------------------------------------------------------------------------

proof fn lemma_app_id(html: Seq<char>, i: int)
    requires
        0 <= i <= 4,
    ensures
        forall|k: int|
            i <= k < 4 && found(#[trigger] APP_ID_PATTERNS[k]@, html) is Some && (forall|j: int|
                i <= j < k ==> found(#[trigger] APP_ID_PATTERNS[j]@, html) is None) ==> app_id_in(
                html,
                i,
            ) == group_text(found(APP_ID_PATTERNS[k]@, html)->0, 1),
        (forall|j: int| i <= j < 4 ==> found(#[trigger] APP_ID_PATTERNS[j]@, html) is None)
            ==> app_id_in(html, i) is None,
    decreases 4 - i,
{
    if i < 4 {
        lemma_app_id(html, i + 1);
        if found(APP_ID_PATTERNS[i]@, html) is None {
            assert forall|k: int|
                i <= k < 4 && found(#[trigger] APP_ID_PATTERNS[k]@, html) is Some && (forall|j: int|
                    i <= j < k ==> found(
                        #[trigger] APP_ID_PATTERNS[j]@,
                        html,
                    ) is None) implies app_id_in(html, i) == group_text(
                found(APP_ID_PATTERNS[k]@, html)->0,
                1,
            ) by {
                assert(k >= i + 1);
                assert forall|j: int| i + 1 <= j < k implies found(
                    #[trigger] APP_ID_PATTERNS[j]@,
                    html,
                ) is None by {}
            }
        }
    }
}

/// The app id of a page is what the first pattern that is found in it captures;
/// a page without one, or without anything, leaves the id as it was.
pub proof fn law_app_id_is_the_first_found(current: Seq<char>, html: Seq<char>, k: int)
    requires
        0 <= k < 4,
    ensures
        html.len() == 0 ==> app_id_after(current, html) == current,
        (forall|j: int| 0 <= j < 4 ==> found(#[trigger] APP_ID_PATTERNS[j]@, html) is None)
            ==> app_id_after(current, html) == current,
        html.len() > 0 && (found(APP_ID_PATTERNS[k]@, html) matches Some(groups) && groups.len() > 1
            && groups[1] is Some) && (forall|j: int|
            0 <= j < k ==> found(#[trigger] APP_ID_PATTERNS[j]@, html) is None) ==> app_id_after(
            current,
            html,
        ) == found(APP_ID_PATTERNS[k]@, html)->0[1]->0,
{
    lemma_app_id(html, 0);
}

/// Slashes at the end of the browser's address do not matter.
pub proof fn law_version_is_asked_below_the_address(url: Seq<char>, n: nat)
    requires
        url.len() > 0,
        url[0] != '/',
        url.last() != '/',
    ensures
        version_address(url + Seq::new(n, |i: int| '/')) == url + "/json/version"@,
{
    law_runs_come_off_the_ends(url, '/', n);
}

/// The socket's address is the text under its key; anything else is an error
/// that says where it was looked for.
pub proof fn law_socket_is_read_from_its_key(doc: JsonTree, url: Seq<char>, version_url: Seq<char>)
    ensures
        socket_in(doc, version_url) == Ok::<Seq<char>, Seq<char>>(url) <==> doc.field(
            "webSocketDebuggerUrl"@,
        ) == Some(JsonTree::Text(url)),
        socket_in(doc, version_url) matches Err(e) ==> e == "no webSocketDebuggerUrl in "@
            + version_url,
{
}

} // verus!
