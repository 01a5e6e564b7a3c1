//! A page of a profile's posts, as a GraphQL response carries it.

use crate::double::{positive, truncate};
use crate::json::{read_json, Json};
use crate::record::RecentPost;
use crate::text::eq_ignore_ascii_case;
use vstd::prelude::*;

verus! {

use crate::double::{is_positive, truncated};
use crate::json::{json_of_bytes, trees, JsonTree};
use crate::record::{bare_post, post_views, PostView};
use crate::text::{lemma_rising_push, rising, same_ignoring_ascii_case};

/// The key of the posts connection. Where it is renamed, the first object that
/// looks like a connection stands in for it.
pub const FEED_CONNECTION_KEY: &'static str = "xdt_api__v1__feed__user_timeline_graphql_connection";

/// One page of posts.
#[derive(Debug)]
pub struct FeedPage {
    pub posts: Vec<RecentPost>,
    /// How many items the response held, so that a response without items can
    /// be told from one whose items gave no post.
    pub raw_count: usize,
    /// Opaque continuation token.
    pub next_cursor: String,
    pub has_more: bool,
}

/// What a page of posts says.
pub struct FeedView {
    pub posts: Seq<PostView>,
    pub raw_count: nat,
    pub next_cursor: Seq<char>,
    pub has_more: bool,
}

impl View for FeedPage {
    type V = FeedView;

    open spec fn view(&self) -> FeedView {
        FeedView {
            posts: post_views(self.posts@),
            raw_count: self.raw_count as nat,
            next_cursor: self.next_cursor@,
            has_more: self.has_more,
        }
    }
}

/// Why a response gave no page of posts.
#[derive(Debug)]
pub enum FeedError {
    /// It is no JSON, for the reason given.
    Json(String),
    /// It reports an error of its own.
    Graphql(String),
    NoConnection,
    NoEdges,
}

/// Why a response gives no page of posts.
pub enum FeedFault {
    Json(Seq<char>),
    Graphql(Seq<char>),
    NoConnection,
    NoEdges,
}

impl View for FeedError {
    type V = FeedFault;

    open spec fn view(&self) -> FeedFault {
        match self {
            FeedError::Json(m) => FeedFault::Json(m@),
            FeedError::Graphql(m) => FeedFault::Graphql(m@),
            FeedError::NoConnection => FeedFault::NoConnection,
            FeedError::NoEdges => FeedFault::NoEdges,
        }
    }
}

impl FeedFault {
    /// The message that is logged.
    pub open spec fn text(self) -> Seq<char> {
        match self {
            FeedFault::Json(m) => m,
            FeedFault::Graphql(m) => "graphql error: "@ + m,
            FeedFault::NoConnection => "no posts connection in response"@,
            FeedFault::NoEdges => "connection has no edges"@,
        }
    }
}

impl FeedError {
    pub fn message(&self) -> (r: String)
        ensures
            r@ == self@.text(),
    {
        match self {
            FeedError::Json(m) => m.clone(),
            FeedError::Graphql(m) => {
                let mut out = "graphql error: ".to_owned();
                out.append(m.as_str());
                out
            },
            FeedError::NoConnection => "no posts connection in response".to_owned(),
            FeedError::NoEdges => "connection has no edges".to_owned(),
        }
    }
}

// --- one post ------------------------------------------------------------------------

/// A text, or the empty one where there is none.
pub open spec fn or_empty(o: Option<Seq<char>>) -> Seq<char> {
    match o {
        Some(s) => s,
        None => Seq::empty(),
    }
}

/// The first code that is not empty among the items from `i` on.
pub open spec fn first_code(items: Seq<JsonTree>, i: int) -> Seq<char>
    decreases items.len() - i,
{
    if i < 0 || i >= items.len() {
        Seq::empty()
    } else if or_empty(items[i].field_text("code"@)).len() > 0 {
        or_empty(items[i].field_text("code"@))
    } else {
        first_code(items, i + 1)
    }
}

/// The shortcode of an item: its own, or else the first that a child of a
/// carousel has.
pub open spec fn item_code(it: JsonTree) -> Seq<char> {
    let own = or_empty(it.field_text("code"@));
    if own.len() > 0 {
        own
    } else {
        match it.field_items("carousel_media"@) {
            Some(children) => first_code(children, 0),
            None => Seq::empty(),
        }
    }
}

fn code_of_item(it: &Json) -> (r: Option<String>)
    ensures
        match r {
            Some(code) => code@.len() > 0 && code@ == item_code(it@),
            None => item_code(it@).len() == 0,
        },
{
    if let Some(code) = it.get_str("code") {
        if !code.as_str().is_empty() {
            return Some(code.clone());
        }
    }
    if let Some(children) = it.get_array("carousel_media") {
        let ghost items = trees(children@);
        let mut i: usize = 0;
        while i < children.len()
            invariant
                0 <= i <= children@.len(),
                items == trees(children@),
                first_code(items, 0) == first_code(items, i as int),
                item_code(it@) == first_code(items, 0),
            decreases children@.len() - i,
        {
            assert(items[i as int] == children@[i as int]@);
            if let Some(code) = children[i].get_str("code") {
                if !code.as_str().is_empty() {
                    return Some(code.clone());
                }
            }
            i += 1;
        }
    }
    None
}

/// Whether an item says that it is a video.
pub open spec fn is_video_item(it: JsonTree) -> bool {
    match it.field_double("media_type"@) {
        Some(bits) => truncated(bits) == 2,
        None => false,
    }
}

fn item_is_video(it: &Json) -> (r: bool)
    ensures
        r == is_video_item(it@),
{
    match it.get_double("media_type") {
        Some(bits) => truncate(bits) == 2,
        None => false,
    }
}

/// Whether one of the items is a video.
pub open spec fn any_video(items: Seq<JsonTree>) -> bool {
    exists|i: int| 0 <= i < items.len() && is_video_item(#[trigger] items[i])
}

/// How many media an item has, whether it is a carousel, and whether there is a
/// video among them. An item without children is a single medium.
pub open spec fn media_facts(it: JsonTree) -> (Option<i64>, Option<bool>, Option<bool>) {
    match it.field_items("carousel_media"@) {
        Some(children) => (
            Some(children.len() as i64),
            Some(true),
            if any_video(children) {
                Some(true)
            } else {
                None
            },
        ),
        None => (
            Some(1i64),
            None,
            if is_video_item(it) {
                Some(true)
            } else {
                None
            },
        ),
    }
}

fn media_facts_from_feed_item(it: &Json) -> (r: (Option<i64>, Option<bool>, Option<bool>))
    ensures
        r == media_facts(it@),
{
    if let Some(children) = it.get_array("carousel_media") {
        let ghost items = trees(children@);
        let mut has_video = false;
        let mut i: usize = 0;
        while i < children.len()
            invariant
                0 <= i <= children@.len(),
                items == trees(children@),
                has_video == exists|k: int| 0 <= k < i && is_video_item(#[trigger] items[k]),
            decreases children@.len() - i,
        {
            assert(items[i as int] == children@[i as int]@);
            if item_is_video(&children[i]) {
                has_video = true;
            }
            i += 1;
        }
        let count: usize = children.len();
        return (
            Some(count as i64),
            Some(true),
            if has_video {
                Some(true)
            } else {
                None
            },
        );
    }
    (
        Some(1),
        None,
        if item_is_video(it) {
            Some(true)
        } else {
            None
        },
    )
}

/// The width that an image candidate gives; 0 where it gives none.
pub open spec fn candidate_width(c: JsonTree) -> i64 {
    match c.field_double("width"@) {
        Some(bits) => truncated(bits),
        None => 0,
    }
}

/// The address and width of the widest of the first `n` candidates that have
/// an address; the first of those that are equally wide. Where there is none,
/// or none is at least 0 wide, the address is empty and the width -1.
pub open spec fn widest(cands: Seq<JsonTree>, n: nat) -> (Seq<char>, i64)
    decreases n,
{
    if n == 0 {
        (Seq::empty(), -1i64)
    } else {
        let before = widest(cands, (n - 1) as nat);
        let c = cands[n - 1];
        let url = or_empty(c.field_text("url"@));
        if url.len() > 0 && candidate_width(c) > before.1 {
            (url, candidate_width(c))
        } else {
            before
        }
    }
}

/// The image candidates of an item.
pub open spec fn image_candidates(it: JsonTree) -> Seq<JsonTree> {
    match it.field("image_versions2"@) {
        Some(v) => match v.field_items("candidates"@) {
            Some(cands) => cands,
            None => Seq::empty(),
        },
        None => Seq::empty(),
    }
}

/// The address of the widest image of an item itself.
pub open spec fn own_image(it: JsonTree) -> Seq<char> {
    widest(image_candidates(it), image_candidates(it).len()).0
}

/// The address of the widest image of an item, or else of its first child.
pub open spec fn item_image(it: JsonTree) -> Seq<char> {
    if own_image(it).len() > 0 {
        own_image(it)
    } else {
        match it.field_items("carousel_media"@) {
            Some(children) => if children.len() > 0 {
                own_image(children[0])
            } else {
                Seq::empty()
            },
            None => Seq::empty(),
        }
    }
}

fn candidates_best_url(it: &Json) -> (r: String)
    ensures
        r@ == own_image(it@),
{
    let mut best = String::new();
    let mut best_width: i64 = -1;
    if let Some(versions) = it.get("image_versions2") {
        if let Some(cands) = versions.get_array("candidates") {
            let ghost items = trees(cands@);
            let mut i: usize = 0;
            while i < cands.len()
                invariant
                    0 <= i <= cands@.len(),
                    items == trees(cands@),
                    items == image_candidates(it@),
                    widest(items, i as nat) == (best@, best_width),
                decreases cands@.len() - i,
            {
                assert(items[i as int] == cands@[i as int]@);
                if let Some(url) = cands[i].get_str("url") {
                    if !url.as_str().is_empty() {
                        let width: i64 = match cands[i].get_double("width") {
                            Some(bits) => truncate(bits),
                            None => 0,
                        };
                        if width > best_width {
                            best_width = width;
                            best = url.clone();
                        }
                    }
                }
                i += 1;
            }
        }
    }
    best
}

fn best_image_url(it: &Json) -> (r: String)
    ensures
        r@ == item_image(it@),
{
    let own = candidates_best_url(it);
    if !own.as_str().is_empty() {
        return own;
    }
    if let Some(children) = it.get_array("carousel_media") {
        if children.len() > 0 {
            assert(trees(children@)[0] == children@[0]@);
            return candidates_best_url(&children[0]);
        }
    }
    assert(Seq::<char>::empty() =~= own@);
    own
}

/// The caption of an item; an empty one is none.
pub open spec fn item_caption(it: JsonTree) -> Option<Seq<char>> {
    match it.field("caption"@) {
        Some(c) => match c.field_text("text"@) {
            Some(s) => if s.len() > 0 {
                Some(s)
            } else {
                None
            },
            None => None,
        },
        None => None,
    }
}

/// When an item was taken; a time that is not positive is none.
pub open spec fn item_time(it: JsonTree) -> Option<i64> {
    match it.field_double("taken_at"@) {
        Some(bits) => if is_positive(bits) {
            Some(truncated(bits))
        } else {
            None
        },
        None => None,
    }
}

/// The post that an item of a feed describes: none where no shortcode can be
/// found.
pub open spec fn item_post(it: JsonTree) -> Option<PostView> {
    if item_code(it).len() == 0 {
        None
    } else {
        Some(
            PostView {
                caption: item_caption(it),
                is_video: if is_video_item(it) {
                    Some(true)
                } else {
                    None
                },
                taken_at_unix: item_time(it),
                display_url: if item_image(it).len() > 0 {
                    Some(item_image(it))
                } else {
                    None
                },
                media_count: media_facts(it).0,
                is_carousel: media_facts(it).1,
                has_video: media_facts(it).2,
                ..bare_post(item_code(it))
            },
        )
    }
}

/// Builds a post from an item of a feed.
pub fn post_from_feed_item(it: &Json) -> (r: Option<RecentPost>)
    ensures
        match r {
            Some(p) => item_post(it@) == Some(p@),
            None => item_post(it@) is None,
        },
{
    let code = match code_of_item(it) {
        Some(code) => code,
        None => {
            return None;
        },
    };
    let mut post = RecentPost::new(code);
    if let Some(bits) = it.get_double("taken_at") {
        if positive(bits) {
            post.taken_at_unix = Some(truncate(bits));
        }
    }
    if let Some(caption) = it.get("caption") {
        if let Some(text) = caption.get_str("text") {
            if !text.as_str().is_empty() {
                post.caption = Some(text.clone());
            }
        }
    }
    if item_is_video(it) {
        post.is_video = Some(true);
    }
    let (count, carousel, video) = media_facts_from_feed_item(it);
    post.media_count = count;
    post.is_carousel = carousel;
    post.has_video = video;
    let image = best_image_url(it);
    if !image.as_str().is_empty() {
        post.display_url = Some(image);
    }
    Some(post)
}

// --- the page ------------------------------------------------------------------------

/// Whether a document looks like a connection.
pub open spec fn looks_like_connection(v: JsonTree) -> bool {
    &&& v.field_items("edges"@) is Some
    &&& v.field("page_info"@) is Some
}

/// The first of the entries from `i` on that looks like a connection.
pub open spec fn first_connection(entries: Seq<(Seq<char>, JsonTree)>, i: int) -> Option<JsonTree>
    decreases entries.len() - i,
{
    if i < 0 || i >= entries.len() {
        None
    } else if looks_like_connection(entries[i].1) {
        Some(entries[i].1)
    } else {
        first_connection(entries, i + 1)
    }
}

/// The posts connection of a response: the one under the known key, or else
/// the first that looks like one.
pub open spec fn connection(doc: JsonTree) -> Option<JsonTree> {
    match doc.field("data"@) {
        Some(data) => match data {
            JsonTree::Table(entries) => match data.field(FEED_CONNECTION_KEY@) {
                Some(v) => if v is Table {
                    Some(v)
                } else {
                    first_connection(entries, 0)
                },
                None => first_connection(entries, 0),
            },
            _ => None,
        },
        None => None,
    }
}

fn find_connection(doc: &Json) -> (r: Option<&Json>)
    ensures
        match r {
            Some(v) => connection(doc@) == Some(v@),
            None => connection(doc@) is None,
        },
{
    let data = match doc.get("data") {
        Some(data) => data,
        None => {
            return None;
        },
    };
    match data {
        Json::Table(entries) => {
            if let Some(v) = data.get(FEED_CONNECTION_KEY) {
                if v.is_object() {
                    return Some(v);
                }
            }
            let ghost all = data@->Table_0;
            let mut i: usize = 0;
            while i < entries.len()
                invariant
                    0 <= i <= entries@.len() == all.len(),
                    *data == Json::Table(*entries),
                    data@ == JsonTree::Table(all),
                    connection(doc@) == first_connection(all, i as int),
                decreases entries@.len() - i,
            {
                assert(all[i as int] == (entries@[i as int].0@, entries@[i as int].1@));
                let v = &entries[i].1;
                if v.get_array("edges").is_some() && v.get("page_info").is_some() {
                    return Some(v);
                }
                i += 1;
            }
            None
        },
        _ => None,
    }
}

/// The posts that the first `n` edges carry.
pub open spec fn edge_posts(edges: Seq<JsonTree>, n: nat) -> Seq<PostView>
    decreases n,
{
    if n == 0 {
        Seq::empty()
    } else {
        let before = edge_posts(edges, (n - 1) as nat);
        match edges[n - 1].field("node"@) {
            Some(node) => if node is Table {
                match item_post(node) {
                    Some(p) => before.push(p),
                    None => before,
                }
            } else {
                before
            },
            None => before,
        }
    }
}

/// The error that a response reports, if it does.
pub open spec fn reported_error(doc: JsonTree) -> Option<Seq<char>> {
    match doc.field_items("errors"@) {
        Some(errs) => if errs.len() > 0 {
            match errs[0].field_text("message"@) {
                Some(m) => Some(m),
                None => Some("unknown"@),
            }
        } else {
            None
        },
        None => None,
    }
}

/// The continuation token of a connection; empty where it gives none.
pub open spec fn end_cursor(conn: JsonTree) -> Seq<char> {
    match conn.field("page_info"@) {
        Some(info) => or_empty(info.field_text("end_cursor"@)),
        None => Seq::empty(),
    }
}

/// Whether a connection says that more pages follow.
pub open spec fn has_next_page(conn: JsonTree) -> bool {
    match conn.field("page_info"@) {
        Some(info) => info.field_truth("has_next_page"@) == Some(true),
        None => false,
    }
}

/// The page of posts that a response carries.
pub open spec fn feed_of(doc: JsonTree) -> Result<FeedView, FeedFault> {
    match reported_error(doc) {
        Some(m) => Err(FeedFault::Graphql(m)),
        None => match connection(doc) {
            None => Err(FeedFault::NoConnection),
            Some(conn) => match conn.field_items("edges"@) {
                None => Err(FeedFault::NoEdges),
                Some(edges) => Ok(
                    FeedView {
                        posts: edge_posts(edges, edges.len()),
                        raw_count: edges.len(),
                        next_cursor: end_cursor(conn),
                        has_more: has_next_page(conn),
                    },
                ),
            },
        },
    }
}

/// Reads a page of posts from a response.
pub fn feed_from_json(doc: &Json) -> (r: Result<FeedPage, FeedError>)
    ensures
        match r {
            Ok(page) => feed_of(doc@) == Ok::<FeedView, FeedFault>(page@),
            Err(e) => feed_of(doc@) == Err::<FeedView, FeedFault>(e@),
        },
        r matches Ok(page) ==> (connection(doc@) matches Some(conn) && conn.field(
            "edges"@,
        ) matches Some(JsonTree::List(edges)) && forall|i: int|
            0 <= i < edges.len() && #[trigger] carries_post(edges[i]) ==> exists|k: int|
                0 <= k < page@.posts.len() && gives_code(
                    edges[i].field("node"@)->0,
                    (#[trigger] page@.posts[k]).shortcode,
                )),
{
    if let Some(errs) = doc.get_array("errors") {
        if errs.len() > 0 {
            assert(trees(errs@)[0] == errs@[0]@);
            let message = match errs[0].get_str("message") {
                Some(m) => m.clone(),
                None => "unknown".to_owned(),
            };
            return Err(FeedError::Graphql(message));
        }
    }
    let conn = match find_connection(doc) {
        Some(conn) => conn,
        None => {
            return Err(FeedError::NoConnection);
        },
    };
    let edges = match conn.get_array("edges") {
        Some(edges) => edges,
        None => {
            return Err(FeedError::NoEdges);
        },
    };
    let ghost items = trees(edges@);
    let mut posts: Vec<RecentPost> = Vec::new();
    let mut i: usize = 0;
    assert(post_views(posts@) =~= edge_posts(items, 0));
    while i < edges.len()
        invariant
            0 <= i <= edges@.len(),
            items == trees(edges@),
            post_views(posts@) == edge_posts(items, i as nat),
        decreases edges@.len() - i,
    {
        assert(items[i as int] == edges@[i as int]@);
        if let Some(node) = edges[i].get("node") {
            if node.is_object() {
                if let Some(p) = post_from_feed_item(node) {
                    let ghost before = posts@;
                    posts.push(p);
                    assert(post_views(posts@) =~= post_views(before).push(p@));
                }
            }
        }
        i += 1;
    }
    let mut next_cursor = String::new();
    let mut has_more = false;
    assert(next_cursor@ =~= Seq::<char>::empty());
    if let Some(info) = conn.get("page_info") {
        if let Some(cursor) = info.get_str("end_cursor") {
            next_cursor = cursor.clone();
        }
        if let Some(more) = info.get_bool("has_next_page") {
            has_more = more;
        }
    }
    let page = FeedPage { posts, raw_count: edges.len(), next_cursor, has_more };
    proof {
        let at = law_page_has_every_post(doc@, page@);
        assert(conn@.field("edges"@) == Some(JsonTree::List(items)));
        assert forall|i: int|
            0 <= i < items.len() && #[trigger] carries_post(items[i]) implies exists|k: int|
            0 <= k < page@.posts.len() && gives_code(
                items[i].field("node"@)->0,
                (#[trigger] page@.posts[k]).shortcode,
            ) by {
            let k = choose|k: int| 0 <= k < at.len() && at[k] == i;
            law_item_with_a_shortcode_is_a_post(items[at[k]].field("node"@)->0);
            assert(gives_code(items[i].field("node"@)->0, page@.posts[k].shortcode));
        }
    }
    Ok(page)
}

/// The page of posts that bytes carry.
pub open spec fn feed_of_bytes(raw: Seq<u8>) -> Result<FeedView, FeedFault> {
    match json_of_bytes(raw) {
        Ok(doc) => feed_of(doc),
        Err(m) => Err(FeedFault::Json(m)),
    }
}

/// Reads a page of posts from the bytes of a response.
pub fn parse_graphql_feed(raw: &[u8]) -> (r: Result<FeedPage, FeedError>)
    ensures
        match r {
            Ok(page) => feed_of_bytes(raw@) == Ok::<FeedView, FeedFault>(page@),
            Err(e) => feed_of_bytes(raw@) == Err::<FeedView, FeedFault>(e@),
        },
{
    match read_json(raw) {
        Ok(doc) => feed_from_json(&doc),
        Err(m) => Err(FeedError::Json(m)),
    }
}

// --- the owner's id --------------------------------------------------------------------

/// An id as a text: a text that is not empty, or a number's text.
pub open spec fn id_text(v: Option<JsonTree>) -> Option<Seq<char>> {
    match v {
        Some(JsonTree::Text(s)) => if s.len() > 0 {
            Some(s)
        } else {
            None
        },
        Some(JsonTree::Number(n)) => Some(n.text),
        _ => None,
    }
}

/// The id of an account: its `pk`, or else its `id`.
pub open spec fn account_id(owner: JsonTree) -> Option<Seq<char>> {
    match id_text(owner.field("pk"@)) {
        Some(id) => Some(id),
        None => id_text(owner.field("id"@)),
    }
}

/// Whether an account goes by the username, in capitals or not.
pub open spec fn goes_by(owner: JsonTree, username: Seq<char>) -> bool {
    match owner.field_text("username"@) {
        Some(name) => same_ignoring_ascii_case(name, username),
        None => false,
    }
}

/// The id of the first account that goes by the username and has one, among
/// the owners of the edges from `i` on. The search ends at an edge that has no
/// node.
pub open spec fn owner_id(edges: Seq<JsonTree>, username: Seq<char>, i: int) -> Option<Seq<char>>
    decreases edges.len() - i,
{
    if i < 0 || i >= edges.len() {
        None
    } else {
        match edges[i].field("node"@) {
            None => None,
            Some(node) => match node.field("user"@) {
                Some(owner) => if owner is Table && goes_by(owner, username) && account_id(
                    owner,
                ) is Some {
                    account_id(owner)
                } else {
                    owner_id(edges, username, i + 1)
                },
                None => owner_id(edges, username, i + 1),
            },
        }
    }
}

/// The id of the account that a page of posts belongs to.
pub open spec fn feed_owner_id(doc: JsonTree, username: Seq<char>) -> Option<Seq<char>> {
    match connection(doc) {
        Some(conn) => match conn.field_items("edges"@) {
            Some(edges) => owner_id(edges, username, 0),
            None => None,
        },
        None => None,
    }
}

fn id_of(v: Option<&Json>) -> (r: Option<String>)
    ensures
        match r {
            Some(id) => id_text(
                match v {
                    Some(j) => Some(j@),
                    None => None,
                },
            ) == Some(id@),
            None => id_text(
                match v {
                    Some(j) => Some(j@),
                    None => None,
                },
            ) is None,
        },
{
    match v {
        Some(j) => match j {
            Json::Text(s) => if s.as_str().is_empty() {
                None
            } else {
                Some(s.clone())
            },
            Json::Number(n) => Some(n.text.clone()),
            _ => None,
        },
        None => None,
    }
}

/// Whether the account goes by the username.
pub(crate) fn is_account(owner: &Json, username: &str) -> (r: bool)
    ensures
        r == goes_by(owner@, username@),
{
    match owner.get_str("username") {
        Some(name) => eq_ignore_ascii_case(name.as_str(), username),
        None => false,
    }
}

/// The id of the account that a page of posts belongs to. Only an owner that
/// goes by the username counts: reposts and shared posts carry someone else's.
pub fn user_id_from_json(doc: &Json, username: &str) -> (r: Option<String>)
    ensures
        match r {
            Some(id) => feed_owner_id(doc@, username@) == Some(id@),
            None => feed_owner_id(doc@, username@) is None,
        },
{
    let conn = match find_connection(doc) {
        Some(conn) => conn,
        None => {
            return None;
        },
    };
    let edges = match conn.get_array("edges") {
        Some(edges) => edges,
        None => {
            return None;
        },
    };
    let ghost items = trees(edges@);
    let mut i: usize = 0;
    while i < edges.len()
        invariant
            0 <= i <= edges@.len(),
            items == trees(edges@),
            feed_owner_id(doc@, username@) == owner_id(items, username@, i as int),
        decreases edges@.len() - i,
    {
        assert(items[i as int] == edges@[i as int]@);
        let node = match edges[i].get("node") {
            Some(node) => node,
            None => {
                return None;
            },
        };
        if let Some(owner) = node.get("user") {
            if owner.is_object() && is_account(owner, username) {
                if let Some(id) = id_of(owner.get("pk")) {
                    return Some(id);
                }
                if let Some(id) = id_of(owner.get("id")) {
                    return Some(id);
                }
            }
        }
        i += 1;
    }
    None
}

/// The id of the account that the page of posts in these bytes belongs to.
pub open spec fn feed_owner_id_of_bytes(raw: Seq<u8>, username: Seq<char>) -> Option<Seq<char>> {
    match json_of_bytes(raw) {
        Ok(doc) => feed_owner_id(doc, username),
        Err(_) => None,
    }
}

/// Reads the owner's id from the bytes of a response. See `user_id_from_json`.
pub fn user_id_from_feed(raw: &[u8], username: &str) -> (r: Option<String>)
    ensures
        match r {
            Some(id) => feed_owner_id_of_bytes(raw@, username@) == Some(id@),
            None => feed_owner_id_of_bytes(raw@, username@) is None,
        },
{
    match read_json(raw) {
        Ok(doc) => user_id_from_json(&doc, username),
        Err(_) => None,
    }
}

// --- laws ----------------------------------------------------------------------------

/// The owner that an edge names, if it names one.
pub open spec fn edge_owner(edge: JsonTree) -> Option<JsonTree> {
    match edge.field("node"@) {
        Some(node) => node.field("user"@),
        None => None,
    }
}

proof fn lemma_owner_id(edges: Seq<JsonTree>, username: Seq<char>, i: int)
    requires
        0 <= i,
    ensures
        owner_id(edges, username, i) matches Some(id) ==> exists|k: int|
            0 <= k < edges.len() && (edge_owner(#[trigger] edges[k]) matches Some(owner) && goes_by(
                owner,
                username,
            ) && account_id(owner) == Some(id)),
    decreases edges.len() - i,
{
    if i < edges.len() {
        lemma_owner_id(edges, username, i + 1);
        assert(edges[i] == edges[i]);
    }
}

/// An id is never someone else's: it is that of an owner, named by one of the
/// posts, who goes by the username.
pub proof fn law_owner_id_is_the_accounts_own(doc: JsonTree, username: Seq<char>)
    ensures
        feed_owner_id(doc, username) matches Some(id) ==> (connection(doc) matches Some(conn) && (
        conn.field_items("edges"@) matches Some(edges) && exists|k: int|
            0 <= k < edges.len() && (edge_owner(#[trigger] edges[k]) matches Some(owner) && goes_by(
                owner,
                username,
            ) && account_id(owner) == Some(id)))),
{
    if let Some(conn) = connection(doc) {
        if let Some(edges) = conn.field_items("edges"@) {
            lemma_owner_id(edges, username, 0);
        }
    }
}

/// Whether a post has a shortcode and the address that goes with it.
pub open spec fn is_addressed(p: PostView) -> bool {
    p.shortcode.len() > 0 && p.url == bare_post(p.shortcode).url
}

proof fn lemma_edge_posts(edges: Seq<JsonTree>, n: nat)
    ensures
        edge_posts(edges, n).len() <= n,
        forall|i: int|
            0 <= i < edge_posts(edges, n).len() ==> is_addressed(#[trigger] edge_posts(edges, n)[i]),
    decreases n,
{
    if n > 0 {
        lemma_edge_posts(edges, (n - 1) as nat);
    }
}

/// Every post of a page has a shortcode and the address that goes with it, and
/// there are no more posts than the response held items.
pub proof fn law_every_post_has_a_shortcode(doc: JsonTree)
    ensures
        feed_of(doc) matches Ok(page) ==> {
            &&& page.posts.len() <= page.raw_count
            &&& forall|i: int|
                0 <= i < page.posts.len() ==> is_addressed(#[trigger] page.posts[i])
        },
{
    if let Some(conn) = connection(doc) {
        if let Some(edges) = conn.field_items("edges"@) {
            lemma_edge_posts(edges, edges.len());
        }
    }
}

proof fn lemma_widest(cands: Seq<JsonTree>, n: nat)
    requires
        n <= cands.len(),
    ensures
        widest(cands, n).1 >= -1,
        forall|i: int|
            0 <= i < n && or_empty((#[trigger] cands[i]).field_text("url"@)).len() > 0
                ==> candidate_width(cands[i]) <= widest(cands, n).1,
        widest(cands, n).1 >= 0 ==> exists|i: int|
            0 <= i < n && or_empty((#[trigger] cands[i]).field_text("url"@)) == widest(
                cands,
                n,
            ).0 && candidate_width(cands[i]) == widest(cands, n).1,
    decreases n,
{
    if n > 0 {
        lemma_widest(cands, (n - 1) as nat);
        assert(cands[n - 1] == cands[n - 1]);
    }
}

/// The image of a post is the widest there is: no candidate with an address is
/// wider than the one whose address is taken.
pub proof fn law_image_is_the_widest(it: JsonTree, i: int)
    requires
        0 <= i < image_candidates(it).len(),
        or_empty(image_candidates(it)[i].field_text("url"@)).len() > 0,
        candidate_width(image_candidates(it)[i]) >= 0,
    ensures
        exists|k: int|
            0 <= k < image_candidates(it).len() && own_image(it) == or_empty(
                (#[trigger] image_candidates(it)[k]).field_text("url"@),
            ) && candidate_width(image_candidates(it)[k]) >= candidate_width(
                image_candidates(it)[i],
            ),
{
    lemma_widest(image_candidates(it), image_candidates(it).len());
}

/// Whether an item has a shortcode, of its own or of one of its children.
pub open spec fn has_shortcode(it: JsonTree) -> bool {
    ||| it.field("code"@) matches Some(JsonTree::Text(c)) && c.len() > 0
    ||| it.field("carousel_media"@) matches Some(JsonTree::List(children)) && exists|i: int|
        0 <= i < children.len() && ((#[trigger] children[i]).field("code"@) matches Some(
            JsonTree::Text(c),
        ) && c.len() > 0)
}

/// Whether an item gives the code itself, or, where it gives none, is a carousel
/// whose first child with a code gives it.
pub open spec fn gives_code(it: JsonTree, code: Seq<char>) -> bool {
    if it.field("code"@) matches Some(JsonTree::Text(c)) && c.len() > 0 {
        it.field("code"@) == Some(JsonTree::Text(code))
    } else {
        it.field("carousel_media"@) matches Some(JsonTree::List(children)) && exists|i: int|
            0 <= i < children.len() && (#[trigger] children[i]).field("code"@) == Some(
                JsonTree::Text(code),
            ) && forall|j: int|
                0 <= j < i ==> !((#[trigger] children[j]).field("code"@) matches Some(
                    JsonTree::Text(c),
                ) && c.len() > 0)
    }
}

proof fn lemma_first_code(items: Seq<JsonTree>, i: int)
    requires
        0 <= i,
    ensures
        first_code(items, i).len() > 0 ==> exists|k: int|
            i <= k < items.len() && (#[trigger] items[k]).field("code"@) == Some(
                JsonTree::Text(first_code(items, i)),
            ) && forall|j: int|
                i <= j < k ==> !((#[trigger] items[j]).field("code"@) matches Some(
                    JsonTree::Text(c),
                ) && c.len() > 0),
        first_code(items, i).len() == 0 ==> forall|j: int|
            i <= j < items.len() ==> !((#[trigger] items[j]).field("code"@) matches Some(
                JsonTree::Text(c),
            ) && c.len() > 0),
    decreases items.len() - i,
{
    if i < items.len() {
        lemma_first_code(items, i + 1);
        if or_empty(items[i].field_text("code"@)).len() > 0 {
            assert(items[i].field("code"@) == Some(JsonTree::Text(first_code(items, i))));
        } else if first_code(items, i + 1).len() > 0 {
            let k = choose|k: int|
                i + 1 <= k < items.len() && (#[trigger] items[k]).field("code"@) == Some(
                    JsonTree::Text(first_code(items, i + 1)),
                ) && forall|j: int|
                    i + 1 <= j < k ==> !((#[trigger] items[j]).field("code"@) matches Some(
                        JsonTree::Text(c),
                    ) && c.len() > 0);
            assert(items[k].field("code"@) == Some(JsonTree::Text(first_code(items, i))));
        }
    }
}

/// An item is a post exactly when it has a shortcode, be it a photo, a video or
/// a carousel; and the post has that shortcode.
pub proof fn law_item_with_a_shortcode_is_a_post(it: JsonTree)
    ensures
        item_post(it) is Some <==> has_shortcode(it),
        item_post(it) matches Some(p) ==> p.shortcode.len() > 0 && gives_code(it, p.shortcode),
{
    if let Some(JsonTree::List(children)) = it.field("carousel_media"@) {
        lemma_first_code(children, 0);
    }
}

/// Whether a document says that it is a video: the number under `media_type`
/// comes to 2.
pub open spec fn marked_video(t: JsonTree) -> bool {
    t.field("media_type"@) matches Some(JsonTree::Number(n)) && (n.bits matches Some(bits)
        && truncated(bits) == 2)
}

/// A post says what its item says, field by field.
pub proof fn law_post_says_what_its_item_says(it: JsonTree, p: PostView)
    requires
        item_post(it) == Some(p),
    ensures
        p.url == "https://www.instagram.com/p/"@ + p.shortcode + "/"@,
        forall|s: Seq<char>| #[trigger]
            opt_is(p.caption, s) <==> (s.len() > 0 && (it.field("caption"@) matches Some(c)
                && c.field("text"@) == Some(JsonTree::Text(s)))),
        p.taken_at_unix == (if it.field("taken_at"@) matches Some(JsonTree::Number(n)) && (
        n.bits matches Some(bits) && is_positive(bits)) {
            Some(truncated(it.field("taken_at"@)->0->Number_0.bits->0))
        } else {
            None
        }),
        p.is_video == (if marked_video(it) {
            Some(true)
        } else {
            None
        }),
        it.field("carousel_media"@) matches Some(JsonTree::List(children)) ==> {
            &&& p.is_carousel == Some(true)
            &&& p.media_count == Some(children.len() as i64)
            &&& p.has_video == Some(true) <==> exists|i: int|
                0 <= i < children.len() && marked_video(#[trigger] children[i])
        },
        !(it.field("carousel_media"@) matches Some(JsonTree::List(_))) ==> {
            &&& p.is_carousel is None
            &&& p.media_count == Some(1i64)
            &&& p.has_video == p.is_video
        },
        p.has_video != Some(false),
        p.local_path is None,
        p.display_url is Some <==> item_image(it).len() > 0,
        p.display_url matches Some(url) ==> url == item_image(it),
{
    assert forall|s: Seq<char>| #[trigger]
        opt_is(p.caption, s) <==> (s.len() > 0 && (it.field("caption"@) matches Some(c) && c.field(
            "text"@,
        ) == Some(JsonTree::Text(s)))) by {
        if let Some(c) = it.field("caption"@) {
            assert(c.field_text("text"@) == Some(s) <==> c.field("text"@) == Some(
                JsonTree::Text(s),
            ));
        }
    }
    if let Some(JsonTree::List(children)) = it.field("carousel_media"@) {
        if any_video(children) {
            let i = choose|i: int| 0 <= i < children.len() && is_video_item(#[trigger] children[i]);
            assert(marked_video(children[i]));
        }
        if exists|i: int| 0 <= i < children.len() && marked_video(#[trigger] children[i]) {
            let i = choose|i: int| 0 <= i < children.len() && marked_video(#[trigger] children[i]);
            assert(is_video_item(children[i]));
        }
    }
}

/// Whether an optional text is this one.
pub open spec fn opt_is(o: Option<Seq<char>>, s: Seq<char>) -> bool {
    o == Some(s)
}

/// The candidates for the image of an item.
pub open spec fn listed_candidates(it: JsonTree) -> Seq<JsonTree> {
    if it.field("image_versions2"@) matches Some(v) && v.field("candidates"@) matches Some(
        JsonTree::List(_),
    ) {
        it.field("image_versions2"@)->0.field("candidates"@)->0->List_0
    } else {
        Seq::empty()
    }
}

/// Whether a candidate has an address.
pub open spec fn has_address(c: JsonTree) -> bool {
    c.field("url"@) matches Some(JsonTree::Text(u)) && u.len() > 0
}

/// How wide a candidate says it is; 0 where it does not say.
pub open spec fn stated_width(c: JsonTree) -> i64 {
    if c.field("width"@) matches Some(JsonTree::Number(n)) && n.bits is Some {
        truncated(c.field("width"@)->0->Number_0.bits->0)
    } else {
        0
    }
}

/// Whether the `k`-th candidate is the one to take: it has an address, is at
/// least 0 wide, none with an address is wider, and none before it is as wide.
pub open spec fn is_best(cands: Seq<JsonTree>, k: int) -> bool {
    &&& 0 <= k < cands.len()
    &&& has_address(cands[k])
    &&& stated_width(cands[k]) >= 0
    &&& forall|i: int|
        0 <= i < cands.len() && has_address(#[trigger] cands[i]) ==> stated_width(cands[i])
            <= stated_width(cands[k])
    &&& forall|i: int|
        0 <= i < k && has_address(#[trigger] cands[i]) ==> stated_width(cands[i]) < stated_width(
            cands[k],
        )
}

proof fn lemma_widest_is_best(cands: Seq<JsonTree>, n: nat) -> (k: int)
    requires
        n <= cands.len(),
    ensures
        widest(cands, n).1 >= -1,
        widest(cands, n).1 >= 0 ==> {
            &&& is_best(cands.take(n as int), k)
            &&& cands[k].field("url"@) == Some(JsonTree::Text(widest(cands, n).0))
            &&& stated_width(cands[k]) == widest(cands, n).1
        },
        widest(cands, n).1 < 0 ==> widest(cands, n).0.len() == 0 && forall|i: int|
            0 <= i < n && has_address(#[trigger] cands[i]) ==> stated_width(cands[i]) < 0,
    decreases n,
{
    if n == 0 {
        0
    } else {
        let k = lemma_widest_is_best(cands, (n - 1) as nat);
        let c = cands[n - 1];
        let some = cands.take(n as int);
        let fewer = cands.take(n - 1);
        assert forall|i: int| 0 <= i < n - 1 implies #[trigger] some[i] == fewer[i] by {}
        assert(some[n - 1] == c);
        if or_empty(c.field_text("url"@)).len() > 0 && candidate_width(c) > widest(
            cands,
            (n - 1) as nat,
        ).1 {
            assert forall|i: int| 0 <= i < n - 1 && has_address(#[trigger] some[i]) implies stated_width(
                some[i],
            ) < stated_width(some[n - 1]) by {
                assert(some[i] == fewer[i]);
                assert(cands[i] == fewer[i]);
            }
            n - 1
        } else {
            k
        }
    }
}

/// The image of an item is the widest of its candidates, the first of those that
/// are equally wide; there is none exactly when no candidate with an address is
/// at least 0 wide.
pub proof fn law_image_is_the_best_candidate(it: JsonTree)
    ensures
        own_image(it).len() > 0 ==> exists|k: int|
            is_best(listed_candidates(it), k) && (#[trigger] listed_candidates(it)[k]).field(
                "url"@,
            ) == Some(JsonTree::Text(own_image(it))),
        own_image(it).len() == 0 <==> forall|i: int|
            0 <= i < listed_candidates(it).len() && has_address(
                #[trigger] listed_candidates(it)[i],
            ) ==> stated_width(listed_candidates(it)[i]) < 0,
{
    let cands = listed_candidates(it);
    assert(cands == image_candidates(it));
    let k = lemma_widest_is_best(cands, cands.len());
    assert(cands.take(cands.len() as int) =~= cands);
    if widest(cands, cands.len()).1 >= 0 {
        assert(has_address(cands[k]));
        assert(own_image(it).len() > 0);
    }
}

/// An item without an image of its own has that of its first child, and no
/// other.
pub proof fn law_image_of_the_first_child_stands_in(it: JsonTree)
    ensures
        own_image(it).len() > 0 ==> item_image(it) == own_image(it),
        own_image(it).len() == 0 ==> item_image(it) == (if it.field("carousel_media"@) matches Some(
            JsonTree::List(children),
        ) && children.len() > 0 {
            own_image(it.field("carousel_media"@)->0->List_0[0])
        } else {
            Seq::<char>::empty()
        }),
{
}

/// Whether an edge carries an item with a shortcode.
pub open spec fn carries_post(edge: JsonTree) -> bool {
    edge.field("node"@) matches Some(node) && node is Table && has_shortcode(node)
}

proof fn lemma_posts_of_edges(edges: Seq<JsonTree>, n: nat) -> (at: Seq<int>)
    requires
        n <= edges.len(),
    ensures
        rising(at, n),
        at.len() == edge_posts(edges, n).len(),
        forall|k: int|
            0 <= k < at.len() ==> carries_post(edges[#[trigger] at[k]]) && item_post(
                edges[at[k]].field("node"@)->0,
            ) == Some(edge_posts(edges, n)[k]),
        forall|i: int| 0 <= i < n && carries_post(#[trigger] edges[i]) ==> at.contains(i),
    decreases n,
{
    if n == 0 {
        Seq::empty()
    } else {
        let before = lemma_posts_of_edges(edges, (n - 1) as nat);
        let edge = edges[n - 1];
        lemma_rising_push(before, (n - 1) as nat);
        if let Some(node) = edge.field("node"@) {
            law_item_with_a_shortcode_is_a_post(node);
        }
        if carries_post(edge) {
            let at = before.push(n - 1);
            assert forall|i: int| 0 <= i < n && carries_post(#[trigger] edges[i]) implies at.contains(
                i,
            ) by {
                if i < n - 1 {
                    let k = choose|k: int| 0 <= k < before.len() && before[k] == i;
                    assert(at[k] == i);
                } else {
                    assert(at[before.len() as int] == i);
                }
            }
            assert forall|k: int| 0 <= k < at.len() implies carries_post(edges[#[trigger] at[k]])
                && item_post(edges[at[k]].field("node"@)->0) == Some(edge_posts(edges, n)[k]) by {
                if k < before.len() {
                    assert(at[k] == before[k]);
                }
            }
            at
        } else {
            before
        }
    }
}

/// The posts of a page are, in order, those of all its edges that carry an item
/// with a shortcode: none of them is left out, none comes twice, and no other is
/// there.
pub proof fn law_page_has_every_post(doc: JsonTree, page: FeedView) -> (at: Seq<int>)
    requires
        feed_of(doc) == Ok::<FeedView, FeedFault>(page),
    ensures
        connection(doc) matches Some(conn) && conn.field("edges"@) matches Some(
            JsonTree::List(edges),
        ) && {
            &&& page.raw_count == edges.len()
            &&& rising(at, edges.len())
            &&& page.posts.len() == at.len()
            &&& forall|k: int|
                0 <= k < at.len() ==> item_post(edges[#[trigger] at[k]].field("node"@)->0) == Some(
                    page.posts[k],
                )
            &&& forall|i: int|
                0 <= i < edges.len() ==> (#[trigger] carries_post(edges[i]) <==> at.contains(i))
        },
{
    let conn = connection(doc)->0;
    let edges = conn.field("edges"@)->0->List_0;
    let at = lemma_posts_of_edges(edges, edges.len());
    assert forall|i: int| 0 <= i < edges.len() implies (#[trigger] carries_post(edges[i])
        <==> at.contains(i)) by {
        if at.contains(i) {
            let k = choose|k: int| 0 <= k < at.len() && at[k] == i;
            assert(carries_post(edges[at[k]]));
        }
    }
    at
}

/// A page says where it goes on as its connection says it.
pub proof fn law_page_says_where_it_goes_on(doc: JsonTree, page: FeedView)
    requires
        feed_of(doc) == Ok::<FeedView, FeedFault>(page),
    ensures
        connection(doc) matches Some(conn) && {
            &&& page.next_cursor == (if conn.field("page_info"@) matches Some(info) && info.field(
                "end_cursor"@,
            ) matches Some(JsonTree::Text(_)) {
                conn.field("page_info"@)->0.field("end_cursor"@)->0->Text_0
            } else {
                Seq::<char>::empty()
            })
            &&& page.has_more <==> (conn.field("page_info"@) matches Some(info) && info.field(
                "has_next_page"@,
            ) == Some(JsonTree::Bool(true)))
        },
{
}

/// A response is refused exactly for the first error that it reports, or for
/// want of a connection with edges.
pub proof fn law_responses_are_refused_for_a_reason(doc: JsonTree)
    ensures
        doc.field("errors"@) matches Some(JsonTree::List(errs)) && errs.len() > 0 ==> feed_of(doc)
            == Err::<FeedView, FeedFault>(
            FeedFault::Graphql(
                if doc.field("errors"@)->0->List_0[0].field("message"@) matches Some(
                    JsonTree::Text(_),
                ) {
                    doc.field("errors"@)->0->List_0[0].field("message"@)->0->Text_0
                } else {
                    "unknown"@
                },
            ),
        ),
        !(doc.field("errors"@) matches Some(JsonTree::List(errs)) && errs.len() > 0) ==> {
            &&& connection(doc) is None <==> feed_of(doc) == Err::<FeedView, FeedFault>(
                FeedFault::NoConnection,
            )
            &&& feed_of(doc) is Ok <==> (connection(doc) matches Some(conn) && conn.field(
                "edges"@,
            ) matches Some(JsonTree::List(_)))
        },
{
}

/// Whether a document has edges and says where its page goes on.
pub open spec fn is_connection_shaped(v: JsonTree) -> bool {
    v.field("edges"@) matches Some(JsonTree::List(_)) && v.field("page_info"@) is Some
}

proof fn lemma_first_connection(entries: Seq<(Seq<char>, JsonTree)>, i: int)
    requires
        0 <= i,
    ensures
        match first_connection(entries, i) {
            Some(v) => exists|k: int|
                i <= k < entries.len() && (#[trigger] entries[k]).1 == v && is_connection_shaped(v)
                    && forall|j: int|
                    i <= j < k ==> !is_connection_shaped((#[trigger] entries[j]).1),
            None => forall|j: int|
                i <= j < entries.len() ==> !is_connection_shaped((#[trigger] entries[j]).1),
        },
    decreases entries.len() - i,
{
    if i < entries.len() {
        lemma_first_connection(entries, i + 1);
        if looks_like_connection(entries[i].1) {
            assert(entries[i].1 == first_connection(entries, i)->0);
        } else if let Some(v) = first_connection(entries, i + 1) {
            let k = choose|k: int|
                i + 1 <= k < entries.len() && (#[trigger] entries[k]).1 == v
                    && is_connection_shaped(v) && forall|j: int|
                    i + 1 <= j < k ==> !is_connection_shaped((#[trigger] entries[j]).1);
            assert(entries[k].1 == v);
        }
    }
}

/// The connection is what the data hold under the known key, where that is a
/// table, and else the first thing in them that has the shape of one.
pub proof fn law_connection_is_found_by_key_or_shape(doc: JsonTree)
    ensures
        !(doc.field("data"@) matches Some(JsonTree::Table(_))) ==> connection(doc) is None,
        doc.field("data"@) matches Some(JsonTree::Table(entries)) ==> {
            let data = doc.field("data"@)->0;
            let known = data.field("xdt_api__v1__feed__user_timeline_graphql_connection"@);
            if known matches Some(v) && v is Table {
                connection(doc) == known
            } else {
                match connection(doc) {
                    Some(v) => exists|k: int|
                        0 <= k < entries.len() && (#[trigger] entries[k]).1 == v
                            && is_connection_shaped(v) && forall|j: int|
                            0 <= j < k ==> !is_connection_shaped((#[trigger] entries[j]).1),
                    None => forall|j: int|
                        0 <= j < entries.len() ==> !is_connection_shaped(
                            (#[trigger] entries[j]).1,
                        ),
                }
            }
        },
{
    if let Some(JsonTree::Table(entries)) = doc.field("data"@) {
        lemma_first_connection(entries, 0);
    }
}

/// The id that an owner gives: its `pk`, or else its `id`, where that is a text
/// that is not empty or a number.
pub open spec fn gives_id(owner: JsonTree, id: Seq<char>) -> bool {
    if usable_id(owner.field("pk"@)) {
        id_written(owner.field("pk"@), id)
    } else {
        id_written(owner.field("id"@), id)
    }
}

/// Whether a field can be an id.
pub open spec fn usable_id(v: Option<JsonTree>) -> bool {
    ||| v matches Some(JsonTree::Text(s)) && s.len() > 0
    ||| v matches Some(JsonTree::Number(_))
}

/// Whether a field writes the id.
pub open spec fn id_written(v: Option<JsonTree>, id: Seq<char>) -> bool {
    ||| v == Some(JsonTree::Text(id)) && id.len() > 0
    ||| v matches Some(JsonTree::Number(n)) && n.text == id
}

/// Whether an edge names an owner that goes by the username and has an id.
pub open spec fn names_owner(edge: JsonTree, username: Seq<char>) -> bool {
    edge.field("node"@) matches Some(node) && node.field("user"@) matches Some(owner) && owner.field(
        "username"@,
    ) matches Some(JsonTree::Text(name)) && same_ignoring_ascii_case(name, username) && (usable_id(
        owner.field("pk"@),
    ) || usable_id(owner.field("id"@)))
}

proof fn lemma_owner_found(edges: Seq<JsonTree>, username: Seq<char>, i: int)
    requires
        0 <= i,
    ensures
        match owner_id(edges, username, i) {
            Some(id) => exists|k: int|
                i <= k < edges.len() && names_owner(#[trigger] edges[k], username) && gives_id(
                    edges[k].field("node"@)->0.field("user"@)->0,
                    id,
                ) && forall|j: int|
                    i <= j < k ==> (#[trigger] edges[j]).field("node"@) is Some && !names_owner(
                        edges[j],
                        username,
                    ),
            None => forall|k: int|
                i <= k < edges.len() && names_owner(#[trigger] edges[k], username) ==> exists|j:
                    int|
                    i <= j < k && (#[trigger] edges[j]).field("node"@) is None,
        },
    decreases edges.len() - i,
{
    if i < edges.len() {
        lemma_owner_found(edges, username, i + 1);
        let edge = edges[i];
        if let Some(node) = edge.field("node"@) {
            if let Some(owner) = node.field("user"@) {
                if owner is Table && goes_by(owner, username) && account_id(owner) is Some {
                    assert(names_owner(edges[i], username));
                }
            }
            if names_owner(edges[i], username) {
                let owner = node.field("user"@)->0;
                assert(owner is Table);
                assert(account_id(owner) is Some);
                assert(gives_id(owner, account_id(owner)->0));
                assert(owner_id(edges, username, i) == account_id(owner));
            } else {
                assert(owner_id(edges, username, i) == owner_id(edges, username, i + 1));
                match owner_id(edges, username, i + 1) {
                    Some(id) => {
                        let k = choose|k: int|
                            i + 1 <= k < edges.len() && names_owner(#[trigger] edges[k], username)
                                && gives_id(edges[k].field("node"@)->0.field("user"@)->0, id)
                                && forall|j: int|
                                i + 1 <= j < k ==> (#[trigger] edges[j]).field("node"@) is Some
                                    && !names_owner(edges[j], username);
                        assert(names_owner(edges[k], username));
                    },
                    None => {
                        assert forall|k: int|
                            i <= k < edges.len() && names_owner(
                                #[trigger] edges[k],
                                username,
                            ) implies exists|j: int|
                            i <= j < k && (#[trigger] edges[j]).field("node"@) is None by {
                            assert(k >= i + 1);
                            let j = choose|j: int|
                                i + 1 <= j < k && (#[trigger] edges[j]).field("node"@) is None;
                            assert(edges[j].field("node"@) is None);
                        }
                    },
                }
            }
        } else {
            assert forall|k: int|
                i <= k < edges.len() && names_owner(#[trigger] edges[k], username) implies exists|
                j: int,
            | i <= j < k && (#[trigger] edges[j]).field("node"@) is None by {
                assert(k != i);
                assert(edges[i].field("node"@) is None);
            }
        }
    }
}

/// The id of the owner of a page is that of the first edge that names the
/// account with an id, where no edge before it lacks its node; and where there
/// is such an edge, its id is found.
pub proof fn law_owner_id_is_the_first(doc: JsonTree, username: Seq<char>, edges: Seq<JsonTree>)
    requires
        connection(doc) matches Some(conn) && conn.field("edges"@) == Some(JsonTree::List(edges)),
    ensures
        match feed_owner_id(doc, username) {
            Some(id) => exists|k: int|
                0 <= k < edges.len() && names_owner(#[trigger] edges[k], username) && gives_id(
                    edges[k].field("node"@)->0.field("user"@)->0,
                    id,
                ) && forall|j: int|
                    0 <= j < k ==> (#[trigger] edges[j]).field("node"@) is Some && !names_owner(
                        edges[j],
                        username,
                    ),
            None => forall|k: int|
                0 <= k < edges.len() && names_owner(#[trigger] edges[k], username) ==> exists|j:
                    int|
                    0 <= j < k && (#[trigger] edges[j]).field("node"@) is None,
        },
{
    lemma_owner_found(edges, username, 0);
}

/// What is no JSON is reported with the reason, and what is JSON is read as the
/// document that it writes.
pub proof fn law_bytes_are_read_as_documents(raw: Seq<u8>, username: Seq<char>)
    ensures
        json_of_bytes(raw) matches Ok(doc) ==> feed_of_bytes(raw) == feed_of(doc)
            && feed_owner_id_of_bytes(raw, username) == feed_owner_id(doc, username),
        json_of_bytes(raw) matches Err(m) ==> feed_of_bytes(raw) == Err::<FeedView, FeedFault>(
            FeedFault::Json(m),
        ) && feed_owner_id_of_bytes(raw, username) is None,
{
}

/// What a page of posts is known by leaves nothing of it out.
pub proof fn law_pages_are_known_whole(p: FeedPage)
    ensures
        p@.posts.len() == p.posts@.len(),
        forall|i: int| 0 <= i < p.posts@.len() ==> #[trigger] p@.posts[i] == p.posts@[i]@,
        p@.next_cursor == p.next_cursor@ && p@.has_more == p.has_more,
        p@.raw_count == p.raw_count,
{
}

/// Each reason for which a response is refused is told in words of its own.
pub proof fn law_refusals_are_told(m: Seq<char>)
    ensures
        FeedFault::Json(m).text() == m,
        FeedFault::Graphql(m).text() == "graphql error: "@ + m,
        FeedFault::NoConnection.text() == "no posts connection in response"@,
        FeedFault::NoEdges.text() == "connection has no edges"@,
{
}

} // verus!
