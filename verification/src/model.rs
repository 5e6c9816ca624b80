use vstd::prelude::*;
use vstd::string::StringExecFns;

use crate::scrape::first_paragraph_of;

verus! {

/// Identifies one remote profile: the service it lives on and the user id there.
#[derive(Clone, Copy)]
pub struct KemonoFeed<'a> {
    pub service: &'a str,
    pub user_id: &'a str,
}

/// Mathematical model of a `KemonoFeed`.
#[verifier::ext_equal]
pub ghost struct IdentityModel {
    pub service: Seq<char>,
    pub user_id: Seq<char>,
}

impl<'a> View for KemonoFeed<'a> {
    type V = IdentityModel;

    open spec fn view(&self) -> IdentityModel {
        IdentityModel { service: self.service@, user_id: self.user_id@ }
    }
}

/// A naive date-time, no timezone attached; the feed interprets it as UTC.
#[derive(Clone, Copy, PartialEq, Eq, Structural, Debug)]
pub struct Timestamp {
    pub year: u16,
    pub month: u8,
    pub day: u8,
    pub hour: u8,
    pub minute: u8,
    pub second: u8,
}

impl Timestamp {
    /// Field ranges of a calendar date with a clock time, as rendering needs them.
    pub open spec fn wf(self) -> bool {
        &&& self.year <= 9999
        &&& 1 <= self.month <= 12
        &&& 1 <= self.day <= 31
        &&& self.hour <= 23
        &&& self.minute <= 59
        &&& self.second <= 59
    }

    /// Runtime check of `wf`, so that unverified callers can test a
    /// timestamp before handing it to a function that requires `wf`.
    pub fn is_wf(&self) -> (b: bool)
        ensures
            b == self.wf(),
    {
        self.year <= 9999 && 1 <= self.month && self.month <= 12 && 1 <= self.day
            && self.day <= 31 && self.hour <= 23 && self.minute <= 59 && self.second <= 59
    }
}

/// The sentinel timestamp of a feed without entries: the Unix epoch.
pub open spec fn epoch_ts() -> Timestamp {
    Timestamp { year: 1970, month: 1, day: 1, hour: 0, minute: 0, second: 0 }
}

/// The Unix epoch, `1970-01-01T00:00:00Z`.
pub fn epoch_timestamp() -> (t: Timestamp)
    ensures
        t == epoch_ts(),
{
    Timestamp { year: 1970, month: 1, day: 1, hour: 0, minute: 0, second: 0 }
}

/// One remote post, as the listing endpoint delivers it.
pub struct KemonoPost {
    pub id: String,
    pub title: String,
    pub content: String,
    pub published: Timestamp,
}

/// Mathematical model of a `KemonoPost`.
#[verifier::ext_equal]
pub ghost struct PostModel {
    pub id: Seq<char>,
    pub title: Seq<char>,
    pub content: Seq<char>,
    pub published: Timestamp,
}

impl View for KemonoPost {
    type V = PostModel;

    open spec fn view(&self) -> PostModel {
        PostModel {
            id: self.id@,
            title: self.title@,
            content: self.content@,
            published: self.published,
        }
    }
}

impl DeepView for KemonoPost {
    type V = PostModel;

    open spec fn deep_view(&self) -> PostModel {
        self.view()
    }
}

/// One Atom entry, derived one-to-one from a post.
pub struct FeedEntry {
    pub id: String,
    pub title: String,
    pub link: String,
    pub updated: Timestamp,
    pub summary: Option<String>,
}

/// Mathematical model of a `FeedEntry`.
#[verifier::ext_equal]
pub ghost struct EntryModel {
    pub id: Seq<char>,
    pub title: Seq<char>,
    pub link: Seq<char>,
    pub updated: Timestamp,
    pub summary: Option<Seq<char>>,
}

impl View for FeedEntry {
    type V = EntryModel;

    open spec fn view(&self) -> EntryModel {
        EntryModel {
            id: self.id@,
            title: self.title@,
            link: self.link@,
            updated: self.updated,
            summary: self.summary.deep_view(),
        }
    }
}

impl DeepView for FeedEntry {
    type V = EntryModel;

    open spec fn deep_view(&self) -> EntryModel {
        self.view()
    }
}

/// The assembled feed, ready for serialization.
pub struct FeedDocument {
    pub id: String,
    pub title: String,
    pub updated: Timestamp,
    pub author: String,
    pub link: String,
    pub icon: String,
    pub entries: Vec<FeedEntry>,
}

/// Mathematical model of a `FeedDocument`.
#[verifier::ext_equal]
pub ghost struct DocModel {
    pub id: Seq<char>,
    pub title: Seq<char>,
    pub updated: Timestamp,
    pub author: Seq<char>,
    pub link: Seq<char>,
    pub icon: Seq<char>,
    pub entries: Seq<EntryModel>,
}

impl View for FeedDocument {
    type V = DocModel;

    open spec fn view(&self) -> DocModel {
        DocModel {
            id: self.id@,
            title: self.title@,
            updated: self.updated,
            author: self.author@,
            link: self.link@,
            icon: self.icon@,
            entries: self.entries.deep_view(),
        }
    }
}

/// How a step of the pipeline fails; assembly and serialization themselves
/// introduce no failures.
#[derive(Clone, Copy, PartialEq, Eq, Structural, Debug)]
pub enum FeedError {
    /// The network call failed or answered with a non-success status.
    Fetch,
    /// The response body did not parse as the expected JSON shape.
    Decode,
    /// The expected HTML element is absent from the profile page.
    NotFound,
}

pub open spec fn base_url() -> Seq<char> {
    "https://kemono.su"@
}

pub open spec fn base_img_url() -> Seq<char> {
    "https://img.kemono.su"@
}

/// The profile page of an identity: `{base}/{service}/user/{user_id}`.
pub open spec fn profile_link_of(idt: IdentityModel) -> Seq<char> {
    base_url() + "/"@ + idt.service + "/user/"@ + idt.user_id
}

/// The deep link of one post: `{base}/{service}/user/{user_id}/post/{id}`.
/// Path segments are taken verbatim; nothing is percent-encoded, a known
/// limitation for identifiers holding reserved characters.
pub open spec fn post_link_of(idt: IdentityModel, post_id: Seq<char>) -> Seq<char> {
    profile_link_of(idt) + "/post/"@ + post_id
}

/// The icon of an identity: `{img-base}/icons/{service}/{user_id}`.
pub open spec fn icon_link_of(idt: IdentityModel) -> Seq<char> {
    base_img_url() + "/icons/"@ + idt.service + "/"@ + idt.user_id
}

/// The document id: a fixed namespace token followed by service and user id.
pub open spec fn feed_id_of(idt: IdentityModel) -> Seq<char> {
    "kemono-feed/"@ + idt.service + "/"@ + idt.user_id
}

/// The document title: `Posts of {display name} from {service}`.
pub open spec fn feed_title_of(name: Seq<char>, service: Seq<char>) -> Seq<char> {
    "Posts of "@ + name + " from "@ + service
}

/// What `kemono_entry` returns: the post's own fields, the derived deep
/// link, and the first paragraph of the content as the summary.
pub open spec fn entry_of(idt: IdentityModel, p: PostModel) -> EntryModel {
    EntryModel {
        id: p.id,
        title: p.title,
        link: post_link_of(idt, p.id),
        updated: p.published,
        summary: first_paragraph_of(p.content),
    }
}

/// What `kemono_feed` returns: one entry per post in input order, and the
/// document's `updated` taken from the first entry, or the epoch sentinel
/// when there are no posts.
pub open spec fn doc_of(idt: IdentityModel, name: Seq<char>, posts: Seq<PostModel>) -> DocModel {
    DocModel {
        id: feed_id_of(idt),
        title: feed_title_of(name, idt.service),
        updated: if posts.len() == 0 {
            epoch_ts()
        } else {
            posts[0].published
        },
        author: name,
        link: profile_link_of(idt),
        icon: icon_link_of(idt),
        entries: posts.map_values(|p: PostModel| entry_of(idt, p)),
    }
}

/// Maps one post to one Atom entry: the post's own id and title, the
/// derived deep link, the naive published time reinterpreted as UTC, and
/// the first paragraph of the content as the summary — absent exactly when
/// the content holds no paragraph element.
pub fn kemono_entry(feed: KemonoFeed<'_>, post: KemonoPost) -> (e: FeedEntry)
    ensures
        e@ == entry_of(feed@, post@),
        e@.summary == first_paragraph_of(post@.content),
{
    let mut link = kemono_link(feed);
    link.append("/post/");
    link.append(post.id.as_str());
    let summary = crate::scrape::first_paragraph(post.content.as_str());
    let e = FeedEntry {
        id: post.id,
        title: post.title,
        link,
        updated: post.published,
        summary,
    };
    proof {
        assert(e@.link =~= post_link_of(feed@, post@.id));
        assert(e@ =~= entry_of(feed@, post@));
    }
    e
}

/// Assembles the feed document from an identity, a display name, and the
/// posts in the order the listing delivered them: one entry per post, same
/// order; `updated` is the first entry's `updated`, or the epoch sentinel
/// when there are no posts.
pub fn kemono_feed(feed: KemonoFeed<'_>, name: String, posts: Vec<KemonoPost>) -> (d:
    FeedDocument)
    ensures
        d@ == doc_of(feed@, name@, posts.deep_view()),
        d@.entries.len() == posts@.len(),
        forall|i: int|
            0 <= i < posts@.len() ==> d@.entries[i] == entry_of(feed@, posts@[i]@),
        posts@.len() == 0 ==> d@.updated == epoch_ts(),
        posts@.len() > 0 ==> d@.updated == d@.entries[0].updated,
{
    let updated: Timestamp = if posts.len() == 0 {
        epoch_timestamp()
    } else {
        posts[0].published
    };

    let mut id = String::from_str("kemono-feed/");
    id.append(feed.service);
    id.append("/");
    id.append(feed.user_id);

    let mut title = String::from_str("Posts of ");
    title.append(name.as_str());
    title.append(" from ");
    title.append(feed.service);

    let mut icon = String::from_str("https://img.kemono.su");
    icon.append("/icons/");
    icon.append(feed.service);
    icon.append("/");
    icon.append(feed.user_id);

    let link = kemono_link(feed);

    let ghost posts_model = posts.deep_view();
    let mut entries: Vec<FeedEntry> = Vec::new();
    let mut i: usize = 0;
    while i < posts.len()
        invariant
            i <= posts.len(),
            posts_model == posts.deep_view(),
            posts_model.len() == posts@.len(),
            entries.deep_view() =~= posts_model.take(i as int).map_values(
                |p: PostModel| entry_of(feed@, p),
            ),
        decreases posts.len() - i,
    {
        let p = &posts[i];
        let e = kemono_entry(
            feed,
            KemonoPost {
                id: p.id.clone(),
                title: p.title.clone(),
                content: p.content.clone(),
                published: p.published,
            },
        );
        entries.push(e);
        proof {
            assert(posts_model.take(i + 1) =~= posts_model.take(i as int).push(
                posts_model[i as int],
            ));
            assert(posts_model.take(i + 1).map_values(|p: PostModel| entry_of(feed@, p))
                =~= posts_model.take(i as int).map_values(|p: PostModel| entry_of(feed@, p)).push(
                entry_of(feed@, posts_model[i as int]),
            ));
        }
        i += 1;
    }
    proof {
        assert(posts_model.take(posts_model.len() as int) =~= posts_model);
    }

    let d = FeedDocument { id, title, updated, author: name, link, icon, entries };
    proof {
        assert(d@.id =~= feed_id_of(feed@));
        assert(d@.title =~= feed_title_of(name@, feed@.service));
        assert(d@.icon =~= icon_link_of(feed@));
        assert(d@ =~= doc_of(feed@, name@, posts.deep_view()));
    }
    d
}

/// The profile page URL of an identity.
pub fn kemono_link(feed: KemonoFeed<'_>) -> (r: String)
    ensures
        r@ == profile_link_of(feed@),
{
    let mut out = String::from_str("https://kemono.su");
    out.append("/");
    out.append(feed.service);
    out.append("/user/");
    out.append(feed.user_id);
    proof {
        assert(out@ =~= profile_link_of(feed@));
    }
    out
}

} // verus!
