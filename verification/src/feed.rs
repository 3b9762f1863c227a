//! RSS feeds: the channel of a list of posts, its file and its text.
use vstd::prelude::*;
use crate::order::Instant;
use crate::post::{now_instant, Configuration, Post};
use crate::text::{chars_equal, chars_of, extend_chars, string_from_chars};

verus! {

broadcast use vstd::string::group_string_axioms;

/// One item of a feed.
pub struct FeedItem {
    pub title: String,
    pub link: String,
    pub pub_date: String,
    pub description: String,
}

/// A feed's channel.
pub struct FeedChannel {
    pub title: String,
    pub link: String,
    pub description: String,
    pub items: Vec<FeedItem>,
}

/// The character sequences of a feed's items: title, link, publication
/// date, description.
pub open spec fn items_view(items: Seq<FeedItem>) -> Seq<(Seq<char>, Seq<char>, Seq<char>, Seq<char>)> {
    items.map_values(|i: FeedItem| (i.title@, i.link@, i.pub_date@, i.description@))
}

/// The XML the rss crate writes for a channel with the given title, link,
/// description and items (title, link, publication date, description).
pub uninterp spec fn rss_xml(
    title: Seq<char>,
    link: Seq<char>,
    description: Seq<char>,
    items: Seq<(Seq<char>, Seq<char>, Seq<char>, Seq<char>)>,
) -> Seq<char>;

/// The XML of a channel.
pub open spec fn channel_xml(c: FeedChannel) -> Seq<char> {
    rss_xml(c.title@, c.link@, c.description@, items_view(c.items@))
}

/// `rss::Channel`'s `to_string` (its `Display`), for a channel with the
/// given title, link and description whose items carry a title, link,
/// publication date and description. Trusted: the text is `rss_xml` of
/// those values; what that XML is, is not spelled out.
#[verifier::external_body]
pub(crate) fn render_channel(channel: &FeedChannel) -> (r: String)
    ensures
        r@ == rss_xml(channel.title@, channel.link@, channel.description@, items_view(channel.items@)),
{
    let items: Vec<rss::Item> = channel.items.iter().map(|i| rss::Item {
        title: Some(i.title.clone()),
        link: Some(i.link.clone()),
        pub_date: Some(i.pub_date.clone()),
        description: Some(i.description.clone()),
        ..Default::default()
    }).collect();
    let c = rss::Channel {
        title: channel.title.clone(),
        link: channel.link.clone(),
        description: channel.description.clone(),
        items,
        ..Default::default()
    };
    c.to_string()
}

/// The RFC 2822 text that chrono's `to_rfc2822` writes for the instant
/// (`secs`, `nanos`) seen at a fixed offset of `offset` seconds east of UTC.
pub uninterp spec fn rfc2822_text(secs: i64, nanos: u32, offset: i32) -> Seq<char>;

/// The first second of year 0 and the last second of year 9999, in UTC:
/// `to_rfc2822` writes only dates of those years and panics on others.
pub open spec fn rfc2822_utc_range(secs: i64) -> bool {
    -62167219200 <= secs <= 253402300799
}

/// Instants whose date lies within years 0 to 9999 at every offset of less
/// than a day, so in any time zone.
pub open spec fn rfc2822_local_range(secs: i64) -> bool {
    -62167219200 + 86399 <= secs <= 253402300799 - 86399
}

/// Whether an instant lies in `rfc2822_utc_range`.
pub fn in_rfc2822_utc_range(i: Instant) -> (r: bool)
    ensures
        r == rfc2822_utc_range(i.secs),
{
    -62167219200 <= i.secs && i.secs <= 253402300799
}

/// Whether an instant lies in `rfc2822_local_range`.
pub fn in_rfc2822_local_range(i: Instant) -> (r: bool)
    ensures
        r == rfc2822_local_range(i.secs),
{
    -62167219200 + 86399 <= i.secs && i.secs <= 253402300799 - 86399
}

/// chrono's `DateTime::from_timestamp` and `to_rfc2822` in UTC. Trusted: the
/// text is `rfc2822_text` of the instant at offset 0 (UTC's offset is the
/// fixed offset 0). `to_rfc2822` panics outside years 0 to 9999, which the
/// `requires` leaves out; `from_timestamp` represents every instant the
/// `requires` admits, so the empty-text arm is never taken.
#[verifier::external_body]
pub(crate) fn rfc2822_utc(i: Instant) -> (r: String)
    requires
        rfc2822_utc_range(i.secs),
    ensures
        r@ == rfc2822_text(i.secs, i.nanos, 0),
{
    match chrono::DateTime::from_timestamp(i.secs, i.nanos) {
        Some(d) => d.to_rfc2822(),
        None => String::new(),
    }
}

/// `text` is the RFC 2822 text of the instant at some offset of less than a
/// day.
pub open spec fn rfc2822_at_some_offset(text: Seq<char>, secs: i64, nanos: u32) -> bool {
    exists|off: i32| -86400 < off < 86400 && text == rfc2822_text(secs, nanos, off)
}

/// chrono's `DateTime::from_timestamp`, `with_timezone(&Local)` and
/// `to_rfc2822`. Trusted: the text is `rfc2822_text` of the instant at some
/// offset of less than a day (chrono's fixed offsets are); which offset is
/// the machine's time zone's and is not stated. The `requires` keeps the
/// local date within years 0 to 9999, outside which `to_rfc2822` panics;
/// `from_timestamp` represents every such instant, so the empty-text arm is
/// never taken.
#[verifier::external_body]
pub(crate) fn rfc2822_local(i: Instant) -> (r: String)
    requires
        rfc2822_local_range(i.secs),
    ensures
        rfc2822_at_some_offset(r@, i.secs, i.nanos),
{
    match chrono::DateTime::from_timestamp(i.secs, i.nanos) {
        Some(d) => d.with_timezone(&chrono::Local).to_rfc2822(),
        None => String::new(),
    }
}

/// The name of the main feed; any other name is a category's.
pub open spec fn is_main_feed(name: Seq<char>) -> bool {
    name == "cmain"@
}

/// The file a feed is written to: `./output/rss.xml` for the main feed,
/// `./output/categories/{name}.xml` for a category.
pub open spec fn feed_path_spec(name: Seq<char>) -> Seq<char> {
    if is_main_feed(name) {
        "./output/rss.xml"@
    } else {
        "./output/categories/"@ + name + ".xml"@
    }
}

/// The file a feed is written to.
pub fn feed_path(name: &str) -> (r: String)
    ensures
        r@ == feed_path_spec(name@),
{
    if chars_equal(&chars_of(name), &chars_of("cmain")) {
        String::from_str("./output/rss.xml")
    } else {
        let mut v = chars_of("./output/categories/");
        extend_chars(&mut v, &chars_of(name));
        extend_chars(&mut v, &chars_of(".xml"));
        string_from_chars(&v)
    }
}

/// The XML declaration written before a feed.
pub open spec fn xml_declaration() -> Seq<char> {
    "<?xml version=\"1.0\" encoding=\"UTF-8\"?>"@
}

/// The text of a feed file: the XML declaration, the feed, a line feed.
pub open spec fn rss_file_text(xml: Seq<char>) -> Seq<char> {
    xml_declaration() + xml + "\n"@
}

/// The text of a feed file holding `xml`.
pub fn save_rss_text(xml: &str) -> (r: String)
    ensures
        r@ == rss_file_text(xml@),
{
    let mut v = chars_of("<?xml version=\"1.0\" encoding=\"UTF-8\"?>");
    extend_chars(&mut v, &chars_of(xml));
    extend_chars(&mut v, &chars_of("\n"));
    string_from_chars(&v)
}

/// A feed ready to be written.
pub struct FeedFile {
    pub path: String,
    /// When the feed was made: the publication date of changed posts.
    pub generated_at: Instant,
    pub channel: FeedChannel,
    /// The text of the file.
    pub contents: String,
}

/// `f` is the feed `name` of the listed posts under `conf`: the site's
/// title, address and title again as channel title, link and description;
/// one item per listed post, in order, with its title, address and body;
/// changed posts dated in UTC when the feed was made, the others dated by
/// their own instant at an offset of less than a day (the machine's time
/// zone).
pub open spec fn is_feed_of(
    f: FeedFile,
    posts: Seq<Post>,
    listing: Seq<usize>,
    name: Seq<char>,
    conf: &Configuration,
) -> bool {
    &&& f.path@ == feed_path_spec(name)
    &&& f.channel.title@ == conf.title@
    &&& f.channel.link@ == conf.url@
    &&& f.channel.description@ == conf.title@
    &&& f.channel.items@.len() == listing.len()
    &&& forall|i: int|
        0 <= i < listing.len() ==> {
            let it = #[trigger] f.channel.items@[i];
            let p = posts[listing[i] as int];
            &&& it.title@ == p.title@
            &&& it.link@ == p.url@
            &&& it.description@ == p.body@
            &&& p.changed ==> it.pub_date@ == rfc2822_text(f.generated_at.secs, f.generated_at.nanos, 0)
            &&& !p.changed ==> rfc2822_at_some_offset(it.pub_date@, p.date.secs, p.date.nanos)
        }
    &&& f.contents@ == rss_file_text(channel_xml(f.channel))
}

/// The unchanged listed posts have dates that can be written in any time
/// zone.
pub open spec fn feed_dates_writable(posts: Seq<Post>, listing: Seq<usize>) -> bool {
    forall|i: int|
        0 <= i < listing.len() ==> {
            let p = #[trigger] posts[listing[i] as int];
            !p.changed ==> rfc2822_local_range(p.date.secs)
        }
}

/// Some listed post is marked changed (and so is dated by the clock).
pub open spec fn listing_has_changed(posts: Seq<Post>, listing: Seq<usize>) -> bool {
    exists|i: int| 0 <= i < listing.len() && (#[trigger] posts[listing[i] as int]).changed
}

/// Whether some listed post is marked changed.
fn any_changed(posts: &Vec<Post>, listing: &Vec<usize>) -> (r: bool)
    requires
        forall|i: int| 0 <= i < listing.len() ==> #[trigger] listing@[i] < posts.len(),
    ensures
        r == listing_has_changed(posts@, listing@),
{
    let m = listing.len();
    for t in 0..m
        invariant
            m == listing.len(),
            forall|i: int| 0 <= i < listing.len() ==> #[trigger] listing@[i] < posts.len(),
            forall|i: int| 0 <= i < t ==> !(#[trigger] posts@[listing@[i] as int]).changed,
    {
        if posts[listing[t]].changed {
            assert(posts@[listing@[t as int] as int].changed);
            return true;
        }
    }
    false
}

/// Makes the feed `name` of the posts `posts[listing[0]], ...` as made at
/// the instant `now`, up to writing the file. The instant is written only
/// for changed posts, so it needs to lie within years 0 to 9999 only when
/// some listed post is changed.
pub fn feed_at(
    posts: &Vec<Post>,
    listing: &Vec<usize>,
    name: &str,
    conf: &Configuration,
    now: Instant,
) -> (f: FeedFile)
    requires
        forall|i: int| 0 <= i < listing.len() ==> #[trigger] listing@[i] < posts.len(),
        feed_dates_writable(posts@, listing@),
        listing_has_changed(posts@, listing@) ==> rfc2822_utc_range(now.secs),
    ensures
        is_feed_of(f, posts@, listing@, name@, conf),
        f.generated_at == now,
{
    let mut items: Vec<FeedItem> = Vec::new();
    let m = listing.len();
    for t in 0..m
        invariant
            m == listing.len(),
            forall|i: int| 0 <= i < listing.len() ==> #[trigger] listing@[i] < posts.len(),
            feed_dates_writable(posts@, listing@),
            listing_has_changed(posts@, listing@) ==> rfc2822_utc_range(now.secs),
            items.len() == t,
            forall|i: int|
                0 <= i < t ==> {
                    let it = #[trigger] items@[i];
                    let p = posts@[listing@[i] as int];
                    &&& it.title@ == p.title@
                    &&& it.link@ == p.url@
                    &&& it.description@ == p.body@
                    &&& p.changed ==> it.pub_date@ == rfc2822_text(now.secs, now.nanos, 0)
                    &&& !p.changed ==> rfc2822_at_some_offset(it.pub_date@, p.date.secs, p.date.nanos)
                },
    {
        let p = &posts[listing[t]];
        assert(posts@[listing@[t as int] as int] == *p);
        let pub_date = if p.changed {
            assert(posts@[listing@[t as int] as int].changed);
            rfc2822_utc(now)
        } else {
            rfc2822_local(p.date)
        };
        items.push(
            FeedItem {
                title: p.title.clone(),
                link: p.url.clone(),
                pub_date,
                description: p.body.clone(),
            },
        );
    }
    let channel = FeedChannel {
        title: conf.title.clone(),
        link: conf.url.clone(),
        description: conf.title.clone(),
        items,
    };
    let xml = render_channel(&channel);
    let contents = save_rss_text(xml.as_str());
    FeedFile { path: feed_path(name), generated_at: now, channel, contents }
}

/// Makes the feed `name` of the posts `posts[listing[0]], ...` as made now,
/// up to writing the file. `Err` with the instant the clock read when some
/// listed post is changed and that instant lies outside years 0 to 9999,
/// which RFC 2822 dates cannot express.
pub fn build_feeds(posts: &Vec<Post>, listing: &Vec<usize>, name: &str, conf: &Configuration) -> (r: Result<FeedFile, Instant>)
    requires
        forall|i: int| 0 <= i < listing.len() ==> #[trigger] listing@[i] < posts.len(),
        feed_dates_writable(posts@, listing@),
    ensures
        r matches Ok(f) ==> is_feed_of(f, posts@, listing@, name@, conf),
        r matches Ok(f) ==> (listing_has_changed(posts@, listing@) ==> rfc2822_utc_range(f.generated_at.secs)),
        r matches Err(t) ==> listing_has_changed(posts@, listing@) && !rfc2822_utc_range(t.secs),
        !listing_has_changed(posts@, listing@) ==> r is Ok,
{
    let now = now_instant();
    if any_changed(posts, listing) && !in_rfc2822_utc_range(now) {
        Err(now)
    } else {
        Ok(feed_at(posts, listing, name, conf, now))
    }
}

} // verus!
