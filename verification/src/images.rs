//! Which images are downloaded, and where they go.

use crate::config::join_path;
use crate::record::ScrapeResult;
use vstd::prelude::*;

verus! {

use crate::config::path_join;
use crate::record::{post_views, PostView, RecordView};

/// The header that tells an image server who asks.
pub const USER_AGENT: &'static str =
    "Mozilla/5.0 (Macintosh; Intel Mac OS X 10_15_7) AppleWebKit/537.36 (KHTML, like Gecko) Chrome/126.0.0.0 Safari/537.36";

/// Where images are downloaded to.
#[derive(Debug)]
pub struct Downloader {
    pub dir: String,
}

/// The image of a post, where it has one.
pub open spec fn image_of(p: PostView) -> Option<Seq<char>> {
    match p.display_url {
        Some(url) => if url.len() > 0 {
            Some(url)
        } else {
            None
        },
        None => None,
    }
}

/// The first of the posts from `i` on that has an image.
pub open spec fn next_with_image(posts: Seq<PostView>, i: int) -> Option<int>
    decreases posts.len() - i,
{
    if i < 0 || i >= posts.len() {
        None
    } else if image_of(posts[i]) is Some {
        Some(i)
    } else {
        next_with_image(posts, i + 1)
    }
}

/// What the posts of a record say; none where it has no list.
pub open spec fn posts_of(r: RecordView) -> Seq<PostView> {
    match r.recent_posts {
        Some(posts) => posts,
        None => Seq::empty(),
    }
}

/// Where the images of an account go: `<dir>/<username>`.
pub open spec fn user_dir_of(dir: Seq<char>, username: Seq<char>) -> Seq<char> {
    path_join(dir, username)
}

/// Where the image of a post goes: `<dir>/<username>/<shortcode>.jpg`.
pub open spec fn target_of(dir: Seq<char>, username: Seq<char>, code: Seq<char>) -> Seq<char> {
    path_join(user_dir_of(dir, username), code + ".jpg"@)
}

/// A record with the place of the image of one of its posts.
pub open spec fn with_local_path(r: RecordView, i: int, path: Seq<char>) -> RecordView {
    RecordView {
        recent_posts: Some(
            posts_of(r).update(i, PostView { local_path: Some(path), ..posts_of(r)[i] }),
        ),
        ..r
    }
}

pub fn new(dir: &str) -> (r: Downloader)
    ensures
        r.dir@ == dir@,
{
    Downloader { dir: dir.to_owned() }
}

impl Downloader {
    /// Whether there is anything to do for a record: a place to put images,
    /// and a post.
    pub fn has_work(&self, record: &ScrapeResult) -> (r: bool)
        ensures
            r == (self.dir@.len() > 0 && posts_of(record@).len() > 0),
    {
        !self.dir.as_str().is_empty() && match &record.recent_posts {
            Some(posts) => posts.len() > 0,
            None => false,
        }
    }

    /// Where the images of a record go.
    pub fn user_dir(&self, record: &ScrapeResult) -> (r: String)
        ensures
            r@ == user_dir_of(self.dir@, record.username@),
    {
        join_path(self.dir.as_str(), record.username.as_str())
    }

    /// The next post with an image that is not behind `from`, as its place in
    /// the list, with the address of the image and where it goes.
    pub fn next_image(&self, record: &ScrapeResult, from: usize) -> (r: Option<
        (usize, String, String),
    >)
        ensures
            match r {
                Some((i, url, target)) => {
                    &&& next_with_image(posts_of(record@), from as int) == Some(i as int)
                    &&& from <= i < posts_of(record@).len()
                    &&& image_of(posts_of(record@)[i as int]) == Some(url@)
                    &&& target@ == target_of(
                        self.dir@,
                        record.username@,
                        posts_of(record@)[i as int].shortcode,
                    )
                },
                None => next_with_image(posts_of(record@), from as int) is None,
            },
    {
        let ghost views = posts_of(record@);
        match &record.recent_posts {
            Some(posts) => {
                let mut i: usize = from;
                while i < posts.len()
                    invariant
                        from <= i,
                        views == post_views(posts@),
                        views == posts_of(record@),
                        next_with_image(views, from as int) == next_with_image(views, i as int),
                    decreases posts@.len() - i,
                {
                    assert(views[i as int] == posts@[i as int]@);
                    if let Some(url) = &posts[i].display_url {
                        if !url.as_str().is_empty() {
                            let mut name = posts[i].shortcode.clone();
                            name.append(".jpg");
                            let target = join_path(self.user_dir(record).as_str(), name.as_str());
                            return Some((i, url.clone(), target));
                        }
                    }
                    i += 1;
                }
                None
            },
            None => None,
        }
    }
}

/// Notes that the place of the images could not be made.
pub fn note_no_dir(record: &mut ScrapeResult, e: &str)
    ensures
        final(record)@ == (RecordView {
            errors: old(record)@.errors.push("images_mkdir: "@ + e@),
            ..old(record)@
        }),
{
    let mut message = "images_mkdir: ".to_owned();
    message.append(e);
    record.push_error(message);
}

/// Notes that the image of a post could not be downloaded.
pub open spec fn without_image(r: RecordView, i: int, e: Seq<char>) -> RecordView {
    RecordView {
        errors: r.errors.push("image "@ + posts_of(r)[i].shortcode + ": "@ + e),
        ..r
    }
}

pub fn note_no_image(record: &mut ScrapeResult, i: usize, e: &str)
    requires
        i < posts_of(old(record)@).len(),
    ensures
        final(record)@ == without_image(old(record)@, i as int, e@),
{
    let mut message = "image ".to_owned();
    if let Some(posts) = &record.recent_posts {
        message.append(posts[i].shortcode.as_str());
    }
    message.append(": ");
    message.append(e);
    record.push_error(message);
}

/// Notes where the image of a post is.
pub fn note_image(record: &mut ScrapeResult, i: usize, target: String)
    requires
        i < posts_of(old(record)@).len(),
    ensures
        final(record)@ == with_local_path(old(record)@, i as int, target@),
{
    let ghost before = posts_of(record@);
    let mut list = match record.recent_posts.take() {
        Some(list) => list,
        None => Vec::new(),
    };
    let mut post = list[i].clone();
    post.local_path = Some(target);
    list.set(i, post);
    assert(post_views(list@) =~= before.update(i as int, post@));
    record.recent_posts = Some(list);
}

// --- laws ----------------------------------------------------------------------------

proof fn lemma_next_with_image(posts: Seq<PostView>, i: int)
    requires
        0 <= i,
    ensures
        match next_with_image(posts, i) {
            Some(k) => {
                &&& i <= k < posts.len()
                &&& image_of(posts[k]) is Some
                &&& forall|j: int| i <= j < k ==> image_of(#[trigger] posts[j]) is None
            },
            None => forall|j: int|
                i <= j < posts.len() ==> image_of(#[trigger] posts[j]) is None,
        },
    decreases posts.len() - i,
{
    if i < posts.len() {
        lemma_next_with_image(posts, i + 1);
    }
}

/// No post with an image is passed over, and none without one is downloaded.
pub proof fn law_images_are_taken_in_order(posts: Seq<PostView>, from: int)
    requires
        0 <= from,
    ensures
        next_with_image(posts, from) matches Some(k) ==> from <= k < posts.len() && image_of(
            posts[k],
        ) is Some,
        forall|j: int|
            from <= j < posts.len() && image_of(#[trigger] posts[j]) is Some ==> (next_with_image(
                posts,
                from,
            ) matches Some(k) && k <= j),
{
    lemma_next_with_image(posts, from);
}

/// To note where an image is leaves the other posts, and everything else of
/// the record, as it was.
pub proof fn law_local_path_changes_one_post(r: RecordView, i: int, path: Seq<char>)
    requires
        0 <= i < posts_of(r).len(),
    ensures
        posts_of(with_local_path(r, i, path)).len() == posts_of(r).len(),
        posts_of(with_local_path(r, i, path))[i].local_path == Some(path),
        posts_of(with_local_path(r, i, path))[i].shortcode == posts_of(r)[i].shortcode,
        forall|j: int|
            0 <= j < posts_of(r).len() && j != i ==> #[trigger] posts_of(
                with_local_path(r, i, path),
            )[j] == posts_of(r)[j],
        with_local_path(r, i, path).errors == r.errors,
{
}

/// A post has an image exactly when it says an address that is not empty.
pub proof fn law_images_have_addresses(p: PostView)
    ensures
        forall|url: Seq<char>| #[trigger]
            shows(p, url) <==> (p.display_url == Some(url) && url.len() > 0),
{
}

/// Whether the image of a post is at the address.
pub open spec fn shows(p: PostView, url: Seq<char>) -> bool {
    image_of(p) == Some(url)
}

/// An image goes to its account's directory, under the shortcode of its post.
pub proof fn law_images_go_to_their_account(
    dir: Seq<char>,
    username: Seq<char>,
    code: Seq<char>,
)
    requires
        dir.len() > 0,
        dir.last() != '/',
        username.len() > 0,
        username[0] != '/',
        username.last() != '/',
        code.len() > 0,
        code[0] != '/',
    ensures
        user_dir_of(dir, username) == dir + "/"@ + username,
        target_of(dir, username, code) == dir + "/"@ + username + "/"@ + code + ".jpg"@,
{
    reveal_strlit("/");
    let place = dir.push('/') + username;
    assert(dir + "/"@ =~= dir.push('/'));
    assert(place.last() == username.last());
    let name = code + ".jpg"@;
    assert(name[0] == code[0]);
    assert(place.push('/') + name =~= dir + "/"@ + username + "/"@ + code + ".jpg"@);
}

/// An image that could not be had is noted by its post and what went wrong,
/// behind what was noted before, and nothing else changes.
pub proof fn law_missing_images_are_noted(r: RecordView, i: int, e: Seq<char>)
    ensures
        without_image(r, i, e).errors == r.errors + seq![
            "image "@ + posts_of(r)[i].shortcode + ": "@ + e,
        ],
        (RecordView { errors: r.errors, ..without_image(r, i, e) }) == r,
{
    assert(without_image(r, i, e).errors =~= r.errors + seq![
        "image "@ + posts_of(r)[i].shortcode + ": "@ + e,
    ]);
}

} // verus!
