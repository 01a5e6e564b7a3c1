//! GraphQL queries that a profile page issued, and how they are replayed.

use crate::json::{
    into_object, js_str, map_contains_key, map_insert, new_map, null_value, object_value,
    read_json_text, text_value, value_from_str, value_to_string, Json,
};
use crate::script::GRAPHQL_FN;
use std::collections::BTreeMap;
use vstd::prelude::*;

verus! {

use crate::json::{entry_from, json_of_text, quoted, text_of_json, with_entry, JsonTree};

/// A persisted query as the page issued it. The variables are kept as the text
/// that was sent, so that all but a few of them can be sent again as they were.
#[derive(Debug)]
pub struct CapturedQuery {
    pub friendly_name: String,
    pub doc_id: String,
    pub variables: String,
    pub fb_dtsg: String,
    pub lsd: String,
    pub jazoest: String,
    /// The headers of the request.
    pub headers: BTreeMap<String, String>,
}

/// What a captured query says.
pub struct QueryView {
    pub friendly_name: Seq<char>,
    pub doc_id: Seq<char>,
    pub variables: Seq<char>,
    pub fb_dtsg: Seq<char>,
    pub lsd: Seq<char>,
    pub jazoest: Seq<char>,
    pub headers: Map<String, String>,
}

impl View for CapturedQuery {
    type V = QueryView;

    open spec fn view(&self) -> QueryView {
        QueryView {
            friendly_name: self.friendly_name@,
            doc_id: self.doc_id@,
            variables: self.variables@,
            fb_dtsg: self.fb_dtsg@,
            lsd: self.lsd@,
            jazoest: self.jazoest@,
            headers: self.headers@,
        }
    }
}

impl Clone for CapturedQuery {
    fn clone(&self) -> (r: Self)
        ensures
            r@ == self@,
    {
        CapturedQuery {
            friendly_name: self.friendly_name.clone(),
            doc_id: self.doc_id.clone(),
            variables: self.variables.clone(),
            fb_dtsg: self.fb_dtsg.clone(),
            lsd: self.lsd.clone(),
            jazoest: self.jazoest.clone(),
            headers: self.headers.clone(),
        }
    }
}

/// A query that says nothing.
pub open spec fn empty_query() -> QueryView {
    QueryView {
        friendly_name: Seq::empty(),
        doc_id: Seq::empty(),
        variables: Seq::empty(),
        fb_dtsg: Seq::empty(),
        lsd: Seq::empty(),
        jazoest: Seq::empty(),
        headers: Map::empty(),
    }
}

impl Default for CapturedQuery {
    fn default() -> (r: Self)
        ensures
            r@ == empty_query(),
    {
        let r = CapturedQuery {
            friendly_name: String::new(),
            doc_id: String::new(),
            variables: String::new(),
            fb_dtsg: String::new(),
            lsd: String::new(),
            jazoest: String::new(),
            headers: BTreeMap::new(),
        };
        assert(r.doc_id@ =~= Seq::<char>::empty());
        r
    }
}

// --- what kind of query it is --------------------------------------------------------

/// Whether variables drive a paged connection.
pub open spec fn pages(doc: JsonTree) -> bool {
    doc.has_value("first"@)
}

/// Whether variables name the account by its username.
pub open spec fn names_user(doc: JsonTree) -> bool {
    doc.field_text("username"@) is Some
}

/// Whether variables drive a paged connection.
pub fn variables_page(doc: &Json) -> (r: bool)
    ensures
        r == pages(doc@),
{
    doc.holds_value("first")
}

/// Whether variables name the account by its username.
pub fn variables_name_user(doc: &Json) -> (r: bool)
    ensures
        r == names_user(doc@),
{
    doc.get_str("username").is_some()
}

// --- variables for another page ------------------------------------------------------

/// The cursor variable: null for the first page.
pub open spec fn cursor_value(after: Seq<char>) -> JsonTree {
    if after.len() == 0 {
        JsonTree::Null
    } else {
        JsonTree::Text(after)
    }
}

/// The variables with the username set, and the cursor too where there is one
/// or there was one before. What is no table is left as it is.
pub open spec fn rewritten(doc: JsonTree, username: Seq<char>, after: Seq<char>) -> JsonTree {
    match doc {
        JsonTree::Table(entries) => {
            let named = with_entry(entries, "username"@, JsonTree::Text(username));
            if entry_from(named, "after"@, 0) is Some || after.len() > 0 {
                JsonTree::Table(with_entry(named, "after"@, cursor_value(after)))
            } else {
                JsonTree::Table(named)
            }
        },
        _ => doc,
    }
}

/// The variables that a text writes; none where it writes no document.
pub open spec fn variables_doc(variables: Seq<char>) -> JsonTree {
    match json_of_text(variables) {
        Ok(doc) => doc,
        Err(_) => JsonTree::Table(Seq::empty()),
    }
}

impl CapturedQuery {
    /// Whether the query can be replayed.
    pub open spec fn usable(self) -> bool {
        self.doc_id@.len() > 0 && self.variables@.len() > 0
    }

    pub fn is_usable(&self) -> (r: bool)
        ensures
            r == self.usable(),
    {
        !self.doc_id.as_str().is_empty() && !self.variables.as_str().is_empty()
    }

    /// Whether the query drives a paged connection: the posts.
    pub fn is_paginated(&self) -> (r: bool)
        ensures
            r == (json_of_text(self.variables@) matches Ok(doc) && pages(doc)),
    {
        match read_json_text(self.variables.as_str()) {
            Ok(doc) => variables_page(&doc),
            Err(_) => false,
        }
    }

    pub fn keys_on_username(&self) -> (r: bool)
        ensures
            r == (json_of_text(self.variables@) matches Ok(doc) && names_user(doc)),
    {
        match read_json_text(self.variables.as_str()) {
            Ok(doc) => variables_name_user(&doc),
            Err(_) => false,
        }
    }

    /// The variables to send for the page of an account behind a cursor. All
    /// but the username and the cursor are sent as they were.
    pub fn variables_for(&self, username: &str, after: &str) -> (r: String)
        ensures
            r@ == text_of_json(rewritten(variables_doc(self.variables@), username@, after@)),
    {
        let doc = match value_from_str(self.variables.as_str()) {
            Ok(doc) => doc,
            Err(_) => object_value(new_map()),
        };
        match into_object(doc) {
            Ok(mut map) => {
                map_insert(&mut map, "username", text_value(username));
                if map_contains_key(&map, "after") || !after.is_empty() {
                    let cursor = if after.is_empty() {
                        null_value()
                    } else {
                        text_value(after)
                    };
                    map_insert(&mut map, "after", cursor);
                }
                value_to_string(&object_value(map))
            },
            Err(other) => value_to_string(&other),
        }
    }
}

// --- the catalog ---------------------------------------------------------------------

/// The latest tokens of the session. They belong to the session and not to a
/// query, so an older query is replayed with the latest ones.
#[derive(Debug)]
pub struct Tokens {
    pub fb_dtsg: String,
    pub lsd: String,
    pub jazoest: String,
    pub headers: BTreeMap<String, String>,
}

/// What the tokens say.
pub struct TokensView {
    pub fb_dtsg: Seq<char>,
    pub lsd: Seq<char>,
    pub jazoest: Seq<char>,
    pub headers: Map<String, String>,
}

impl View for Tokens {
    type V = TokensView;

    open spec fn view(&self) -> TokensView {
        TokensView {
            fb_dtsg: self.fb_dtsg@,
            lsd: self.lsd@,
            jazoest: self.jazoest@,
            headers: self.headers@,
        }
    }
}

/// The queries that were captured so far. They are kept from one profile to
/// the next, so that a page that issues none can still be read.
#[derive(Debug)]
pub struct QueryCatalog {
    pub posts: Option<CapturedQuery>,
    pub profile: Option<CapturedQuery>,
    pub tokens: Tokens,
}

/// What a catalog holds.
pub struct CatalogView {
    pub posts: Option<QueryView>,
    pub profile: Option<QueryView>,
    pub tokens: TokensView,
}

/// What an optional query says.
pub open spec fn query_view(q: Option<CapturedQuery>) -> Option<QueryView> {
    match q {
        Some(q) => Some(q@),
        None => None,
    }
}

impl View for QueryCatalog {
    type V = CatalogView;

    open spec fn view(&self) -> CatalogView {
        CatalogView {
            posts: query_view(self.posts),
            profile: query_view(self.profile),
            tokens: self.tokens@,
        }
    }
}

/// What a catalog holds at first.
pub open spec fn empty_catalog() -> CatalogView {
    CatalogView {
        posts: None,
        profile: None,
        tokens: TokensView {
            fb_dtsg: Seq::empty(),
            lsd: Seq::empty(),
            jazoest: Seq::empty(),
            headers: Map::empty(),
        },
    }
}

/// The newer of two tokens; one that is empty is no token.
pub open spec fn fresher(newer: Seq<char>, older: Seq<char>) -> Seq<char> {
    if newer.len() > 0 {
        newer
    } else {
        older
    }
}

/// The tokens after a query was seen.
pub open spec fn tokens_after(t: TokensView, q: QueryView) -> TokensView {
    TokensView {
        fb_dtsg: fresher(q.fb_dtsg, t.fb_dtsg),
        lsd: fresher(q.lsd, t.lsd),
        jazoest: fresher(q.jazoest, t.jazoest),
        headers: if q.headers.is_empty() {
            t.headers
        } else {
            q.headers
        },
    }
}

/// The catalog after a query was seen, by whether the query names the account
/// and whether it pages.
pub open spec fn noted(c: CatalogView, q: QueryView, keyed: bool, paged: bool) -> CatalogView {
    CatalogView {
        posts: if keyed && paged {
            Some(q)
        } else {
            c.posts
        },
        profile: if keyed && !paged {
            Some(q)
        } else {
            c.profile
        },
        tokens: tokens_after(c.tokens, q),
    }
}

/// The catalog after a query was seen. One that cannot be replayed is passed
/// over.
pub open spec fn folded_one(c: CatalogView, q: QueryView) -> CatalogView {
    if q.doc_id.len() == 0 || q.variables.len() == 0 {
        c
    } else {
        noted(
            c,
            q,
            json_of_text(q.variables) matches Ok(doc) && names_user(doc),
            json_of_text(q.variables) matches Ok(doc) && pages(doc),
        )
    }
}

/// The catalog after the first `n` queries were seen.
pub open spec fn folded(c: CatalogView, seen: Seq<QueryView>, n: nat) -> CatalogView
    decreases n,
{
    if n == 0 {
        c
    } else {
        folded_one(folded(c, seen, (n - 1) as nat), seen[n - 1])
    }
}

/// What a list of queries says.
pub open spec fn query_views(seen: Seq<CapturedQuery>) -> Seq<QueryView> {
    Seq::new(seen.len(), |i: int| seen[i]@)
}

impl QueryCatalog {
    pub fn new() -> (r: Self)
        ensures
            r@ == empty_catalog(),
    {
        let tokens = Tokens {
            fb_dtsg: String::new(),
            lsd: String::new(),
            jazoest: String::new(),
            headers: BTreeMap::new(),
        };
        assert(tokens.lsd@ =~= Seq::<char>::empty());
        QueryCatalog { posts: None, profile: None, tokens }
    }

    /// Notes a query, by whether it names the account and whether it pages.
    pub fn note(&mut self, q: &CapturedQuery, keyed: bool, paged: bool)
        ensures
            final(self)@ == noted(old(self)@, q@, keyed, paged),
    {
        if !q.fb_dtsg.as_str().is_empty() {
            self.tokens.fb_dtsg = q.fb_dtsg.clone();
        }
        if !q.lsd.as_str().is_empty() {
            self.tokens.lsd = q.lsd.clone();
        }
        if !q.jazoest.as_str().is_empty() {
            self.tokens.jazoest = q.jazoest.clone();
        }
        if !q.headers.is_empty() {
            self.tokens.headers = q.headers.clone();
        }
        if keyed {
            if paged {
                self.posts = Some(q.clone());
            } else {
                self.profile = Some(q.clone());
            }
        }
    }

    /// Folds the queries that a page issued into the catalog, in order.
    pub fn harvest_queries(&mut self, seen: &Vec<CapturedQuery>)
        ensures
            final(self)@ == folded(old(self)@, query_views(seen@), seen@.len()),
    {
        let ghost start = self@;
        let ghost views = query_views(seen@);
        let mut i: usize = 0;
        while i < seen.len()
            invariant
                0 <= i <= seen@.len(),
                views == query_views(seen@),
                self@ == folded(start, views, i as nat),
            decreases seen@.len() - i,
        {
            let q = &seen[i];
            assert(views[i as int] == q@);
            if q.is_usable() {
                let keyed = q.keys_on_username();
                let paged = q.is_paginated();
                self.note(q, keyed, paged);
            }
            i += 1;
        }
    }

    pub fn posts_query(&self) -> (r: Option<CapturedQuery>)
        ensures
            query_view(r) == self@.posts,
    {
        match &self.posts {
            Some(q) => Some(q.clone()),
            None => None,
        }
    }

    pub fn profile_query(&self) -> (r: Option<CapturedQuery>)
        ensures
            query_view(r) == self@.profile,
    {
        match &self.profile {
            Some(q) => Some(q.clone()),
            None => None,
        }
    }
}

// --- replaying -----------------------------------------------------------------------

/// What `serde_json::to_string` makes of request headers: a JSON object, or
/// nothing where it fails.
pub uninterp spec fn json_of_headers(headers: Map<String, String>) -> Option<Seq<char>>;

/// Calls `serde_json::to_string` on request headers. What it gives is only
/// named; a `BTreeMap` is walked in the order of its keys, so it depends on the
/// headers alone.
#[verifier::external_body]
fn headers_to_json(headers: &BTreeMap<String, String>) -> (r: Result<String, serde_json::Error>)
    ensures
        json_of_headers(headers@) == match r {
            Ok(s) => Some(s@),
            Err(_) => None,
        },
{
    serde_json::to_string(headers)
}

/// The text of request headers, or an empty object.
pub open spec fn headers_or_none(json: Option<Seq<char>>) -> Seq<char> {
    match json {
        Some(s) => s,
        None => "{}"@,
    }
}

/// The expression that replays a query: a call of the replaying function with
/// everything it needs as string literals.
pub open spec fn replay_call(
    q: QueryView,
    variables: Seq<char>,
    tokens: TokensView,
    app_id: Seq<char>,
    headers: Seq<char>,
) -> Seq<char> {
    GRAPHQL_FN@ + "("@ + quoted(q.doc_id) + ", "@ + quoted(variables) + ", "@ + quoted(
        tokens.fb_dtsg,
    ) + ", "@ + quoted(tokens.lsd) + ", "@ + quoted(tokens.jazoest) + ", "@ + quoted(
        q.friendly_name,
    ) + ", "@ + quoted(app_id) + ", "@ + quoted(headers) + ")"@
}

fn append_argument(out: &mut String, s: &str)
    ensures
        final(out)@ == old(out)@ + ", "@ + quoted(s@),
{
    let literal = js_str(s);
    out.append(", ");
    out.append(literal.as_str());
}

/// The expression that replays a query with the given headers, as JSON.
pub fn replay_expression(
    q: &CapturedQuery,
    variables: &str,
    tokens: &Tokens,
    app_id: &str,
    headers: &str,
) -> (r: String)
    ensures
        r@ == replay_call(q@, variables@, tokens@, app_id@, headers@),
{
    let mut out = GRAPHQL_FN.to_owned();
    out.append("(");
    let first = js_str(q.doc_id.as_str());
    out.append(first.as_str());
    append_argument(&mut out, variables);
    append_argument(&mut out, tokens.fb_dtsg.as_str());
    append_argument(&mut out, tokens.lsd.as_str());
    append_argument(&mut out, tokens.jazoest.as_str());
    append_argument(&mut out, q.friendly_name.as_str());
    append_argument(&mut out, app_id);
    append_argument(&mut out, headers);
    out.append(")");
    out
}

impl QueryCatalog {
    /// The expression that replays a query with the latest tokens.
    pub fn issue_expression(&self, q: &CapturedQuery, variables: &str, app_id: &str) -> (r: String)
        ensures
            r@ == replay_call(
                q@,
                variables@,
                self@.tokens,
                app_id@,
                headers_or_none(json_of_headers(self@.tokens.headers)),
            ),
    {
        let headers = match headers_to_json(&self.tokens.headers) {
            Ok(s) => s,
            Err(_) => "{}".to_owned(),
        };
        replay_expression(q, variables, &self.tokens, app_id, headers.as_str())
    }
}

// --- laws ----------------------------------------------------------------------------

proof fn lemma_with_entry(
    entries: Seq<(Seq<char>, JsonTree)>,
    key: Seq<char>,
    value: JsonTree,
    other: Seq<char>,
)
    ensures
        entry_from(with_entry(entries, key, value), other, 0) == (if other == key {
            Some(value)
        } else {
            entry_from(entries, other, 0)
        }),
    decreases entries.len(),
{
    let out = with_entry(entries, key, value);
    if entries.len() == 0 {
        assert(entry_from(out, other, 1) is None);
    } else if entries[0].0 == key {
        lemma_entries_behind(out, other);
        lemma_entries_behind(entries, other);
        assert(out.drop_first() =~= entries.drop_first());
    } else {
        lemma_entries_behind(out, other);
        lemma_entries_behind(entries, other);
        if crate::json::sorts_before(key, entries[0].0) {
            assert(out.drop_first() =~= entries);
        } else {
            lemma_with_entry(entries.drop_first(), key, value, other);
            assert(out.drop_first() =~= with_entry(entries.drop_first(), key, value));
        }
    }
}

/// What is looked up behind the first entry is looked up in the rest.
proof fn lemma_entries_behind(entries: Seq<(Seq<char>, JsonTree)>, key: Seq<char>)
    requires
        entries.len() > 0,
    ensures
        entry_from(entries, key, 1) == entry_from(entries.drop_first(), key, 0),
{
    lemma_entry_shift(entries, key, 0);
}

proof fn lemma_entry_shift(entries: Seq<(Seq<char>, JsonTree)>, key: Seq<char>, i: int)
    requires
        entries.len() > 0,
        0 <= i <= entries.len() - 1,
    ensures
        entry_from(entries, key, i + 1) == entry_from(entries.drop_first(), key, i),
    decreases entries.len() - i,
{
    if i < entries.len() - 1 {
        lemma_entry_shift(entries, key, i + 1);
    }
}

/// A rewrite of the variables sets the username, and leaves every variable but
/// the username and the cursor as it was.
pub proof fn law_rewrite_keeps_the_rest(
    doc: JsonTree,
    username: Seq<char>,
    after: Seq<char>,
    key: Seq<char>,
)
    requires
        doc is Table,
    ensures
        rewritten(doc, username, after).field("username"@) == Some(JsonTree::Text(username)),
        key != "username"@ && key != "after"@ ==> rewritten(doc, username, after).field(key)
            == doc.field(key),
{
    let entries = doc->Table_0;
    let named = with_entry(entries, "username"@, JsonTree::Text(username));
    reveal_strlit("username");
    reveal_strlit("after");
    assert("username"@.len() != "after"@.len());
    lemma_with_entry(entries, "username"@, JsonTree::Text(username), "username"@);
    lemma_with_entry(entries, "username"@, JsonTree::Text(username), key);
    lemma_with_entry(named, "after"@, cursor_value(after), "username"@);
    lemma_with_entry(named, "after"@, cursor_value(after), key);
}

/// The first page of a paged query is asked for with a null cursor, any other
/// with its own, and a query that had no cursor gets none for its first page.
pub proof fn law_rewrite_sets_the_cursor(doc: JsonTree, username: Seq<char>, after: Seq<char>)
    requires
        doc is Table,
    ensures
        rewritten(doc, username, after).field("after"@) == (if after.len() > 0 {
            Some(JsonTree::Text(after))
        } else if doc.field("after"@) is Some {
            Some(JsonTree::Null)
        } else {
            None
        }),
{
    let entries = doc->Table_0;
    let named = with_entry(entries, "username"@, JsonTree::Text(username));
    reveal_strlit("username");
    reveal_strlit("after");
    assert("username"@.len() != "after"@.len());
    lemma_with_entry(entries, "username"@, JsonTree::Text(username), "after"@);
    lemma_with_entry(named, "after"@, cursor_value(after), "after"@);
}

/// Pages that issue no query that can be replayed leave the catalog as it was.
pub proof fn law_unusable_queries_change_nothing(c: CatalogView, seen: Seq<QueryView>, n: nat)
    requires
        n <= seen.len(),
        forall|i: int|
            0 <= i < seen.len() ==> (#[trigger] seen[i]).doc_id.len() == 0
                || seen[i].variables.len() == 0,
    ensures
        folded(c, seen, n) == c,
    decreases n,
{
    if n > 0 {
        law_unusable_queries_change_nothing(c, seen, (n - 1) as nat);
    }
}

/// Whether a query can be replayed: it says which query it is, and with which
/// variables.
pub open spec fn can_replay(q: QueryView) -> bool {
    q.doc_id.len() > 0 && q.variables.len() > 0
}

/// Whether the variables of a query name the account, and drive a paged
/// connection or not as `paged` says.
pub open spec fn asks(q: QueryView, paged: bool) -> bool {
    &&& can_replay(q)
    &&& json_of_text(q.variables) matches Ok(doc) && {
        &&& doc.field("username"@) matches Some(JsonTree::Text(_))
        &&& paged == (doc.field("first"@) is Some && doc.field("first"@) != Some(JsonTree::Null))
    }
}

proof fn lemma_latest(c: CatalogView, seen: Seq<QueryView>, n: nat)
    requires
        n <= seen.len(),
    ensures
        (forall|j: int| 0 <= j < n ==> !asks(#[trigger] seen[j], true)) ==> folded(
            c,
            seen,
            n,
        ).posts == c.posts,
        (forall|j: int| 0 <= j < n ==> !asks(#[trigger] seen[j], false)) ==> folded(
            c,
            seen,
            n,
        ).profile == c.profile,
        forall|k: int|
            0 <= k < n && asks(#[trigger] seen[k], true) && (forall|j: int|
                k < j < n ==> !asks(#[trigger] seen[j], true)) ==> folded(c, seen, n).posts == Some(
                seen[k],
            ),
        forall|k: int|
            0 <= k < n && asks(#[trigger] seen[k], false) && (forall|j: int|
                k < j < n ==> !asks(#[trigger] seen[j], false)) ==> folded(c, seen, n).profile
                == Some(seen[k]),
    decreases n,
{
    if n > 0 {
        let m = (n - 1) as nat;
        lemma_latest(c, seen, m);
        let q = seen[n - 1];
        if forall|j: int| 0 <= j < n ==> !asks(#[trigger] seen[j], true) {
            assert(!asks(seen[n - 1], true));
        }
        if forall|j: int| 0 <= j < n ==> !asks(#[trigger] seen[j], false) {
            assert(!asks(seen[n - 1], false));
        }
        assert forall|k: int|
            0 <= k < n && asks(#[trigger] seen[k], true) && (forall|j: int|
                k < j < n ==> !asks(#[trigger] seen[j], true)) implies folded(c, seen, n).posts
            == Some(seen[k]) by {
            if k < n - 1 {
                assert(!asks(seen[n - 1], true));
            }
        }
        assert forall|k: int|
            0 <= k < n && asks(#[trigger] seen[k], false) && (forall|j: int|
                k < j < n ==> !asks(#[trigger] seen[j], false)) implies folded(c, seen, n).profile
            == Some(seen[k]) by {
            if k < n - 1 {
                assert(!asks(seen[n - 1], false));
            }
        }
    }
}

/// The last query of a page that pages through an account's posts is the posts
/// query from then on, whole as it was issued, and the last one that names the
/// account without paging is the profile query; where the page issued none, the
/// one from before stays.
pub proof fn law_latest_queries_are_kept(c: CatalogView, seen: Seq<QueryView>, k: int)
    requires
        0 <= k < seen.len(),
    ensures
        asks(seen[k], true) && (forall|j: int|
            k < j < seen.len() ==> !asks(#[trigger] seen[j], true)) ==> folded(
            c,
            seen,
            seen.len(),
        ).posts == Some(seen[k]),
        asks(seen[k], false) && (forall|j: int|
            k < j < seen.len() ==> !asks(#[trigger] seen[j], false)) ==> folded(
            c,
            seen,
            seen.len(),
        ).profile == Some(seen[k]),
        (forall|j: int| 0 <= j < seen.len() ==> !asks(#[trigger] seen[j], true)) ==> folded(
            c,
            seen,
            seen.len(),
        ).posts == c.posts,
        (forall|j: int| 0 <= j < seen.len() ==> !asks(#[trigger] seen[j], false)) ==> folded(
            c,
            seen,
            seen.len(),
        ).profile == c.profile,
{
    lemma_latest(c, seen, seen.len());
}

proof fn lemma_latest_tokens(c: CatalogView, seen: Seq<QueryView>, n: nat, k: int)
    requires
        n <= seen.len(),
        0 <= k < n,
        can_replay(seen[k]),
    ensures
        seen[k].fb_dtsg.len() > 0 && (forall|j: int|
            k < j < n && can_replay(#[trigger] seen[j]) ==> seen[j].fb_dtsg.len() == 0) ==> folded(
            c,
            seen,
            n,
        ).tokens.fb_dtsg == seen[k].fb_dtsg,
        seen[k].lsd.len() > 0 && (forall|j: int|
            k < j < n && can_replay(#[trigger] seen[j]) ==> seen[j].lsd.len() == 0) ==> folded(
            c,
            seen,
            n,
        ).tokens.lsd == seen[k].lsd,
        seen[k].jazoest.len() > 0 && (forall|j: int|
            k < j < n && can_replay(#[trigger] seen[j]) ==> seen[j].jazoest.len() == 0) ==> folded(
            c,
            seen,
            n,
        ).tokens.jazoest == seen[k].jazoest,
        !seen[k].headers.is_empty() && (forall|j: int|
            k < j < n && can_replay(#[trigger] seen[j]) ==> seen[j].headers.is_empty()) ==> folded(
            c,
            seen,
            n,
        ).tokens.headers == seen[k].headers,
    decreases n,
{
    if k < n - 1 {
        lemma_latest_tokens(c, seen, (n - 1) as nat, k);
        assert(seen[n - 1] == seen[n - 1]);
        if can_replay(seen[n - 1]) {
            assert(can_replay(seen[n - 1]));
        }
    }
}

/// The tokens and headers of the session are those of the last query that can be
/// replayed and carries any, whatever account that query is about.
pub proof fn law_latest_tokens_are_kept(c: CatalogView, seen: Seq<QueryView>, k: int)
    requires
        0 <= k < seen.len(),
        can_replay(seen[k]),
    ensures
        ({
            let t = folded(c, seen, seen.len()).tokens;
            &&& seen[k].fb_dtsg.len() > 0 && (forall|j: int|
                k < j < seen.len() && can_replay(#[trigger] seen[j]) ==> seen[j].fb_dtsg.len()
                    == 0) ==> t.fb_dtsg == seen[k].fb_dtsg
            &&& seen[k].lsd.len() > 0 && (forall|j: int|
                k < j < seen.len() && can_replay(#[trigger] seen[j]) ==> seen[j].lsd.len() == 0)
                ==> t.lsd == seen[k].lsd
            &&& seen[k].jazoest.len() > 0 && (forall|j: int|
                k < j < seen.len() && can_replay(#[trigger] seen[j]) ==> seen[j].jazoest.len()
                    == 0) ==> t.jazoest == seen[k].jazoest
            &&& !seen[k].headers.is_empty() && (forall|j: int|
                k < j < seen.len() && can_replay(#[trigger] seen[j]) ==> seen[j].headers.is_empty())
                ==> t.headers == seen[k].headers
        }),
{
    lemma_latest_tokens(c, seen, seen.len(), k);
}

proof fn lemma_no_tokens(c: CatalogView, seen: Seq<QueryView>, n: nat)
    requires
        n <= seen.len(),
    ensures
        (forall|j: int|
            0 <= j < n && can_replay(#[trigger] seen[j]) ==> seen[j].fb_dtsg.len() == 0) ==> folded(
            c,
            seen,
            n,
        ).tokens.fb_dtsg == c.tokens.fb_dtsg,
        (forall|j: int| 0 <= j < n && can_replay(#[trigger] seen[j]) ==> seen[j].lsd.len() == 0)
            ==> folded(c, seen, n).tokens.lsd == c.tokens.lsd,
        (forall|j: int|
            0 <= j < n && can_replay(#[trigger] seen[j]) ==> seen[j].jazoest.len() == 0) ==> folded(
            c,
            seen,
            n,
        ).tokens.jazoest == c.tokens.jazoest,
        (forall|j: int|
            0 <= j < n && can_replay(#[trigger] seen[j]) ==> seen[j].headers.is_empty()) ==> folded(
            c,
            seen,
            n,
        ).tokens.headers == c.tokens.headers,
    decreases n,
{
    if n > 0 {
        lemma_no_tokens(c, seen, (n - 1) as nat);
        if can_replay(seen[n - 1]) {
            assert(can_replay(seen[n - 1]));
        }
    }
}

/// Tokens that no query of a page carries stay as they were.
pub proof fn law_tokens_outlast_pages_without_any(c: CatalogView, seen: Seq<QueryView>)
    ensures
        ({
            let t = folded(c, seen, seen.len()).tokens;
            &&& (forall|j: int|
                0 <= j < seen.len() && can_replay(#[trigger] seen[j]) ==> seen[j].fb_dtsg.len()
                    == 0) ==> t.fb_dtsg == c.tokens.fb_dtsg
            &&& (forall|j: int|
                0 <= j < seen.len() && can_replay(#[trigger] seen[j]) ==> seen[j].lsd.len() == 0)
                ==> t.lsd == c.tokens.lsd
            &&& (forall|j: int|
                0 <= j < seen.len() && can_replay(#[trigger] seen[j]) ==> seen[j].jazoest.len()
                    == 0) ==> t.jazoest == c.tokens.jazoest
            &&& (forall|j: int|
                0 <= j < seen.len() && can_replay(#[trigger] seen[j]) ==> seen[j].headers.is_empty())
                ==> t.headers == c.tokens.headers
        }),
{
    lemma_no_tokens(c, seen, seen.len());
}

/// Variables that cannot be read are replaced by the username, and the cursor
/// where there is one; what is no table of variables is sent as it was.
pub proof fn law_unreadable_variables_are_made_anew(
    variables: Seq<char>,
    doc: JsonTree,
    username: Seq<char>,
    after: Seq<char>,
    key: Seq<char>,
)
    ensures
        json_of_text(variables) is Err ==> {
            let made = rewritten(variables_doc(variables), username, after);
            &&& made is Table
            &&& made.field("username"@) == Some(JsonTree::Text(username))
            &&& key != "username"@ && key != "after"@ ==> made.field(key) is None
            &&& made.field("after"@) is Some <==> after.len() > 0
        },
        json_of_text(variables) matches Ok(d) ==> variables_doc(variables) == d,
        doc !is Table ==> rewritten(doc, username, after) == doc,
        doc is Table ==> rewritten(doc, username, after) is Table,
{
    let none = JsonTree::Table(Seq::empty());
    law_rewrite_keeps_the_rest(none, username, after, key);
    law_rewrite_sets_the_cursor(none, username, after);
}

/// The arguments of a call, one behind the other, each a string literal.
pub open spec fn arguments(list: Seq<Seq<char>>) -> Seq<char>
    decreases list.len(),
{
    if list.len() == 0 {
        Seq::empty()
    } else if list.len() == 1 {
        quoted(list[0])
    } else {
        arguments(list.drop_last()) + ", "@ + quoted(list.last())
    }
}

/// A replay hands the replaying function the query's id, the new variables, the
/// session's tokens, the query's name, the app id and the session's headers, in
/// this order.
pub proof fn law_replays_hand_over_everything(
    q: QueryView,
    variables: Seq<char>,
    t: TokensView,
    app_id: Seq<char>,
    headers: Seq<char>,
)
    ensures
        replay_call(q, variables, t, app_id, headers) == GRAPHQL_FN@ + "("@ + arguments(
            seq![
                q.doc_id,
                variables,
                t.fb_dtsg,
                t.lsd,
                t.jazoest,
                q.friendly_name,
                app_id,
                headers,
            ],
        ) + ")"@,
{
    let all = seq![
        q.doc_id,
        variables,
        t.fb_dtsg,
        t.lsd,
        t.jazoest,
        q.friendly_name,
        app_id,
        headers,
    ];
    reveal_with_fuel(arguments, 8);
    let a7 = all.drop_last();
    let a6 = a7.drop_last();
    let a5 = a6.drop_last();
    let a4 = a5.drop_last();
    let a3 = a4.drop_last();
    let a2 = a3.drop_last();
    let a1 = a2.drop_last();
    assert(a1.len() == 1 && a1[0] == q.doc_id);
    assert(a2.last() == variables && a3.last() == t.fb_dtsg && a4.last() == t.lsd);
    assert(a5.last() == t.jazoest && a6.last() == q.friendly_name && a7.last() == app_id);
    assert(replay_call(q, variables, t, app_id, headers) =~= GRAPHQL_FN@ + "("@ + arguments(all)
        + ")"@);
}

/// Nothing is invented where the headers cannot be written.
pub proof fn law_headers_are_sent_or_left_empty(s: Seq<char>)
    ensures
        headers_or_none(Some(s)) == s,
        headers_or_none(None) == "{}"@,
{
}

/// What a query and a catalog are known by leaves nothing of them out; a new
/// catalog holds nothing.
pub proof fn law_queries_are_known_whole(q: CapturedQuery, c: QueryCatalog, t: Tokens)
    ensures
        q@.friendly_name == q.friendly_name@ && q@.doc_id == q.doc_id@,
        q@.variables == q.variables@ && q@.fb_dtsg == q.fb_dtsg@ && q@.lsd == q.lsd@,
        q@.jazoest == q.jazoest@ && q@.headers == q.headers@,
        t@.fb_dtsg == t.fb_dtsg@ && t@.lsd == t.lsd@ && t@.jazoest == t.jazoest@,
        t@.headers == t.headers@,
        c.posts is Some <==> c@.posts is Some,
        c.posts matches Some(p) ==> c@.posts == Some(p@),
        c.profile is Some <==> c@.profile is Some,
        c.profile matches Some(p) ==> c@.profile == Some(p@),
        c@.tokens == c.tokens@,
        empty_catalog().posts is None && empty_catalog().profile is None,
        empty_catalog().tokens.fb_dtsg.len() == 0 && empty_catalog().tokens.lsd.len() == 0,
        empty_catalog().tokens.jazoest.len() == 0 && empty_catalog().tokens.headers.is_empty(),
{
}

/// A query can be replayed when it has an id and variables; variables page when
/// they say how many to give first, and name the account by its username.
pub proof fn law_queries_are_told_by_their_variables(q: CapturedQuery, doc: JsonTree)
    ensures
        q.usable() <==> can_replay(q@),
        pages(doc) <==> doc.field("first"@) is Some && doc.field("first"@) != Some(JsonTree::Null),
        names_user(doc) <==> (doc.field("username"@) matches Some(JsonTree::Text(_))),
{
}

} // verus!
