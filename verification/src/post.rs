//! Posts: the site configuration, a post as read from its source text,
//! its tags, and the copy of a post handed to templates.
use vstd::prelude::*;
use vstd::utf8::encode_utf8;
use crate::meta::{end_marker, lemma_metadata_ignores_appended, lines_of, metadata_ok, metadata_spec, read_metadata, MetaSpec};
use crate::order::Instant;
use crate::slug::{
    create_slug, slug_spec,
};
use crate::text::{
    chars_of, digit_char, extend_chars, has_prefix, split_chars, split_spec, string_from_chars, trim,
    trim_spec,
};

verus! {

broadcast use vstd::string::group_string_axioms;

/// A link shown on every page of the site.
pub struct PageLink {
    pub link: String,
    pub text: String,
}

/// The site's configuration (`conf.json`).
pub struct Configuration {
    pub author: String,
    pub title: String,
    pub url: String,
    pub content_footer: String,
    pub disqus: String,
    pub email: String,
    pub description: String,
    pub logo: String,
    pub links: Vec<PageLink>,
    pub withamp: bool,
}

/// A post, read from its source text.
pub struct Post<'a> {
    pub title: String,
    pub slug: String,
    pub author: String,
    /// The whole source rendered from Markdown to HTML.
    pub body: String,
    /// Lower-case hex SHA-256 of the source text.
    pub hash: String,
    /// When the post was published.
    pub date: Instant,
    /// The date as written in the source.
    pub sdate: String,
    /// Tag slug to tag name; no slug occurs twice.
    pub tags: Vec<(String, String)>,
    /// Whether the post is to be rebuilt.
    pub changed: bool,
    /// Where the built post is published.
    pub url: String,
    pub conf: &'a Configuration,
}

/// The copy of a post that templates are rendered with.
pub struct SerialPost<'a> {
    pub title: String,
    pub slug: String,
    pub author: String,
    pub body: String,
    pub hash: String,
    pub sdate: String,
    pub tags: Vec<(String, String)>,
    pub changed: bool,
    pub url: String,
    pub conf: &'a Configuration,
}

// ---------------------------------------------------------------------
// Tags
// ---------------------------------------------------------------------

/// The character sequences of a list of string pairs.
pub open spec fn pairs_view(v: Seq<(String, String)>) -> Seq<(Seq<char>, Seq<char>)> {
    v.map_values(|e: (String, String)| (e.0@, e.1@))
}

/// The map a list of key/value pairs stands for: pairs inserted in order,
/// a later value for a key replacing an earlier one.
pub open spec fn entries_map(e: Seq<(Seq<char>, Seq<char>)>) -> Map<Seq<char>, Seq<char>>
    decreases e.len(),
{
    if e.len() == 0 {
        Map::empty()
    } else {
        entries_map(e.drop_last()).insert(e.last().0, e.last().1)
    }
}

/// No key occurs twice.
pub open spec fn keys_distinct(e: Seq<(Seq<char>, Seq<char>)>) -> bool {
    forall|i: int, j: int| 0 <= i < j < e.len() ==> e[i].0 != e[j].0
}

/// The tag names of a tag line: its comma-separated parts, trimmed.
pub open spec fn tag_words(tagline: Seq<char>) -> Seq<Seq<char>> {
    split_spec(tagline, ',').map_values(|w: Seq<char>| trim_spec(w))
}

/// Tag names inserted in order into a map from slug to name.
pub open spec fn tag_map(words: Seq<Seq<char>>) -> Map<Seq<char>, Seq<char>>
    decreases words.len(),
{
    if words.len() == 0 {
        Map::empty()
    } else {
        tag_map(words.drop_last()).insert(slug_spec(words.last()), words.last())
    }
}

/// The tags of a tag line: each name under its slug.
pub open spec fn tags_spec(tagline: Seq<char>) -> Map<Seq<char>, Seq<char>> {
    tag_map(tag_words(tagline))
}

proof fn lemma_entries_map_update(e: Seq<(Seq<char>, Seq<char>)>, i: int, v: Seq<char>)
    requires
        keys_distinct(e),
        0 <= i < e.len(),
    ensures
        entries_map(e.update(i, (e[i].0, v))) == entries_map(e).insert(e[i].0, v),
    decreases e.len(),
{
    let k = e[i].0;
    let u = e.update(i, (k, v));
    if i == e.len() - 1 {
        assert(u.drop_last() =~= e.drop_last());
        assert(entries_map(u) =~= entries_map(e).insert(k, v));
    } else {
        let d = e.drop_last();
        assert(u.drop_last() =~= d.update(i, (k, v)));
        assert(keys_distinct(d));
        lemma_entries_map_update(d, i, v);
        assert(e.last().0 != k);
        assert(entries_map(u) =~= entries_map(e).insert(k, v));
    }
}

/// Inserts `(k, v)`: replaces the value of key `k` if present, else adds it.
pub fn insert_entry(entries: &mut Vec<(String, String)>, k: String, v: String)
    requires
        keys_distinct(pairs_view(old(entries)@)),
    ensures
        keys_distinct(pairs_view(final(entries)@)),
        entries_map(pairs_view(final(entries)@)) == entries_map(pairs_view(old(entries)@)).insert(
            k@,
            v@,
        ),
{
    let n = entries.len();
    for i in 0..n
        invariant
            n == entries.len(),
            entries@ == old(entries)@,
            keys_distinct(pairs_view(entries@)),
            forall|j: int| 0 <= j < i ==> (#[trigger] entries@[j]).0@ != k@,
    {
        if entries[i].0 == k {
            let ghost e = pairs_view(entries@);
            proof {
                lemma_entries_map_update(e, i as int, v@);
            }
            entries.set(i, (k, v));
            assert(pairs_view(entries@) =~= e.update(i as int, (e[i as int].0, v@)));
            assert(keys_distinct(pairs_view(entries@)));
            return;
        }
    }
    let ghost e = pairs_view(entries@);
    entries.push((k, v));
    assert(pairs_view(entries@) =~= e.push((k@, v@)));
    assert(pairs_view(entries@).drop_last() =~= e);
}

/// The tags of a tag line: each comma-separated part, trimmed, under its
/// slug; a later part with the same slug replaces an earlier one.
pub fn tags_of_line(tagline: &str) -> (r: Vec<(String, String)>)
    ensures
        keys_distinct(pairs_view(r@)),
        entries_map(pairs_view(r@)) == tags_spec(tagline@),
{
    let chars = chars_of(tagline);
    let parts = split_chars(&chars, ',');
    let ghost words = tag_words(tagline@);
    let mut r: Vec<(String, String)> = Vec::new();
    let n = parts.len();
    assert(entries_map(pairs_view(r@)) =~= tag_map(words.take(0)));
    for i in 0..n
        invariant
            n == parts.len(),
            words == tag_words(tagline@),
            words.len() == n,
            forall|j: int| 0 <= j < n ==> #[trigger] words[j] == trim_spec(parts@[j]@),
            keys_distinct(pairs_view(r@)),
            entries_map(pairs_view(r@)) == tag_map(words.take(i as int)),
    {
        let w = string_from_chars(&trim(&parts[i]));
        let ws = w.clone();
        let k = create_slug(ws);
        insert_entry(&mut r, k, w);
        proof {
            assert(words.take(i + 1).drop_last() =~= words.take(i as int));
            assert(words.take(i + 1).last() == words[i as int]);
        }
    }
    assert(words.take(n as int) =~= words);
    r
}

/// Law: in the tags of any tag line, every slug is the slug of the name
/// stored under it.
pub proof fn lemma_tag_keys_are_slugs(words: Seq<Seq<char>>)
    ensures
        forall|k: Seq<char>| #[trigger]
            tag_map(words).dom().contains(k) ==> k == slug_spec(tag_map(words)[k]),
    decreases words.len(),
{
    if words.len() > 0 {
        let prev = tag_map(words.drop_last());
        lemma_tag_keys_are_slugs(words.drop_last());
        assert forall|k: Seq<char>| #[trigger]
            tag_map(words).dom().contains(k) implies k == slug_spec(tag_map(words)[k]) by {
            if k != slug_spec(words.last()) {
                assert(prev.dom().contains(k));
            }
        }
    }
}

// ---------------------------------------------------------------------
// Outside computations on a post's text
// ---------------------------------------------------------------------

/// The HTML that pulldown-cmark renders from Markdown `text` with the given
/// extensions (strikethrough, task lists, tables) switched on.
pub uninterp spec fn markdown_html(
    text: Seq<char>,
    strikethrough: bool,
    tasklists: bool,
    tables: bool,
) -> Seq<char>;

/// Which Markdown extensions to switch on.
pub struct MarkdownOptions {
    pub strikethrough: bool,
    pub tasklists: bool,
    pub tables: bool,
}

/// `pulldown_cmark::Parser::new_ext` over `text` with the given extensions,
/// its events written out by `pulldown_cmark::html::push_html`. Trusted:
/// the HTML is `markdown_html` of the text and the options; what that HTML
/// is, is not spelled out.
#[verifier::external_body]
pub(crate) fn render_markdown(text: &str, options: &MarkdownOptions) -> (r: String)
    ensures
        r@ == markdown_html(text@, options.strikethrough, options.tasklists, options.tables),
{
    let mut opts = pulldown_cmark::Options::empty();
    opts.set(pulldown_cmark::Options::ENABLE_STRIKETHROUGH, options.strikethrough);
    opts.set(pulldown_cmark::Options::ENABLE_TASKLISTS, options.tasklists);
    opts.set(pulldown_cmark::Options::ENABLE_TABLES, options.tables);
    let mut html = String::new();
    pulldown_cmark::html::push_html(&mut html, pulldown_cmark::Parser::new_ext(text, opts));
    html
}

/// The SHA-256 digest of `data`.
pub uninterp spec fn sha256(data: Seq<u8>) -> Seq<u8>;

/// `sha2::Sha256::digest`. Trusted: the digest is `sha256(data)`, and it is
/// 32 bytes long (the hash's output size).
#[verifier::external_body]
pub(crate) fn sha256_digest(data: &[u8]) -> (r: Vec<u8>)
    ensures
        r@ == sha256(data@),
        r@.len() == 32,
{
    <sha2::Sha256 as sha2::Digest>::digest(data).to_vec()
}

/// The lower-case hexadecimal digit for `d < 16`.
pub open spec fn hex_digit(d: nat) -> char {
    if d < 10 {
        digit_char(d)
    } else {
        ((d + 87) as u8) as char
    }
}

/// Each byte as two lower-case hexadecimal digits, high nibble first.
pub open spec fn lower_hex(data: Seq<u8>) -> Seq<char>
    decreases data.len(),
{
    if data.len() == 0 {
        Seq::<char>::empty()
    } else {
        lower_hex(data.drop_last()) + seq![
            hex_digit((data.last() / 16) as nat),
            hex_digit((data.last() % 16) as nat),
        ]
    }
}

/// Two hex digits per byte.
pub proof fn lemma_lower_hex_len(data: Seq<u8>)
    ensures
        lower_hex(data).len() == 2 * data.len(),
    decreases data.len(),
{
    if data.len() > 0 {
        lemma_lower_hex_len(data.drop_last());
    }
}

/// `hex::encode`. Trusted: each byte becomes two lower-case hex digits,
/// high nibble first, in order.
#[verifier::external_body]
pub(crate) fn hex_encode(data: &[u8]) -> (r: String)
    ensures
        r@ == lower_hex(data@),
{
    hex::encode(data)
}

/// The format of the date line: `2020-01-31T20:15:00+05:30`.
pub const POST_DATE_FORMAT: &'static str = "%Y-%m-%dT%H:%M:%S%:z";

/// The instant (seconds since the epoch, nanoseconds) that chrono's
/// `DateTime::parse_from_str` reads from `text` in `format`; `None` where
/// it reports an error.
pub uninterp spec fn parsed_instant(text: Seq<char>, format: Seq<char>) -> Option<(i64, u32)>;

/// `chrono::DateTime::parse_from_str`, read back by `timestamp` and
/// `timestamp_subsec_nanos`. Trusted: the result is `parsed_instant` of the
/// text and the format.
#[verifier::external_body]
pub(crate) fn parse_instant(text: &str, format: &str) -> (r: Option<Instant>)
    ensures
        match r {
            Some(i) => parsed_instant(text@, format@) == Some((i.secs, i.nanos)),
            None => parsed_instant(text@, format@) is None,
        },
{
    match chrono::DateTime::parse_from_str(text, format) {
        Ok(d) => Some(Instant { secs: d.timestamp(), nanos: d.timestamp_subsec_nanos() }),
        Err(_) => None,
    }
}

/// `chrono::Local::now`, as an instant. Trusted for nothing: the clock
/// decides what it returns.
#[verifier::external_body]
pub(crate) fn now_instant() -> (r: Instant) {
    let d = chrono::Local::now();
    Instant { secs: d.timestamp(), nanos: d.timestamp_subsec_nanos() }
}

// ---------------------------------------------------------------------
// Reading a post
// ---------------------------------------------------------------------

/// The author shown for a post: its own author if it names one, else the
/// configured author.
pub open spec fn post_author(meta_author: Seq<char>, conf_author: Seq<char>) -> Seq<char> {
    if meta_author.len() == 0 {
        conf_author
    } else {
        meta_author
    }
}

/// Where a post with slug `slug` is published: `{site}posts/{slug}.html`.
pub open spec fn post_url(site: Seq<char>, slug: Seq<char>) -> Seq<char> {
    site + "posts/"@ + slug + ".html"@
}

/// Whether the text of a post can be read: every metadata line can be
/// sliced and every date line is a date.
pub open spec fn post_readable(content: Seq<char>) -> bool {
    let m = metadata_spec(content);
    &&& metadata_ok(content)
    &&& forall|i: int| 0 <= i < m.dates.len() ==> (#[trigger] parsed_instant(m.dates[i], POST_DATE_FORMAT@)) is Some
}

/// `p` is the post read from `content` under `conf` (but for the
/// publication instant of a post without date line, which is the time it
/// was read).
pub open spec fn is_post_of(p: Post, content: Seq<char>, conf: &Configuration) -> bool {
    let m = metadata_spec(content);
    &&& p.title@ == m.title
    &&& p.slug@ == m.slug
    &&& p.sdate@ == m.date
    &&& p.author@ == post_author(m.author, conf.author@)
    &&& p.body@ == markdown_html(content, true, true, true)
    &&& p.hash@ == lower_hex(sha256(encode_utf8(content)))
    &&& p.hash@.len() == 64
    &&& m.dates.len() > 0 ==> parsed_instant(m.dates.last(), POST_DATE_FORMAT@) == Some(
        (p.date.secs, p.date.nanos),
    )
    &&& keys_distinct(pairs_view(p.tags@))
    &&& entries_map(pairs_view(p.tags@)) == tags_spec(m.tagline)
    &&& !p.changed
    &&& p.url@ == post_url(conf.url@, m.slug)
    &&& p.conf == conf
}

/// Reads a post from the text of its source file: metadata, rendered
/// body, content hash, tags and URL.
pub fn read_post<'a>(content: &str, conf: &'a Configuration) -> (p: Post<'a>)
    requires
        post_readable(content@),
    ensures
        is_post_of(p, content@, conf),
{
    let meta = read_metadata(content).unwrap();
    let ghost m: MetaSpec = meta@;
    let mut date = now_instant();
    let nd = meta.dates.len();
    for i in 0..nd
        invariant
            nd == meta.dates.len(),
            meta@ == m,
            m == metadata_spec(content@),
            post_readable(content@),
            i > 0 ==> parsed_instant(m.dates[i - 1], POST_DATE_FORMAT@) == Some(
                (date.secs, date.nanos),
            ),
    {
        assert(m.dates[i as int] == meta.dates@[i as int]@);
        assert(parsed_instant(m.dates[i as int], POST_DATE_FORMAT@) is Some);
        date = parse_instant(meta.dates[i].as_str(), POST_DATE_FORMAT).unwrap();
    }
    let author = if meta.author.as_str().is_empty() {
        conf.author.clone()
    } else {
        meta.author.clone()
    };
    let tags = tags_of_line(meta.tagline.as_str());
    let options = MarkdownOptions { strikethrough: true, tasklists: true, tables: true };
    let body = render_markdown(content, &options);
    let digest = sha256_digest(content.as_bytes());
    let hash = hex_encode(digest.as_slice());
    proof {
        lemma_lower_hex_len(digest@);
    }
    let mut url = chars_of(conf.url.as_str());
    extend_chars(&mut url, &chars_of("posts/"));
    extend_chars(&mut url, &chars_of(meta.slug.as_str()));
    extend_chars(&mut url, &chars_of(".html"));
    Post {
        title: meta.title,
        slug: meta.slug,
        author,
        body,
        hash,
        date,
        sdate: meta.date,
        tags,
        changed: false,
        url: string_from_chars(&url),
        conf,
    }
}

/// Reads a post from the text of its source file, or gives `None` when the
/// text cannot be read as a post: a metadata line too short to slice, or a
/// date line that is not a date.
pub fn try_read_post<'a>(content: &str, conf: &'a Configuration) -> (r: Option<Post<'a>>)
    ensures
        r is Some <==> post_readable(content@),
        r matches Some(p) ==> is_post_of(p, content@, conf),
{
    let meta = match read_metadata(content) {
        Some(m) => m,
        None => return None,
    };
    let nd = meta.dates.len();
    for i in 0..nd
        invariant
            nd == meta.dates.len(),
            meta@ == metadata_spec(content@),
            forall|j: int| 0 <= j < i ==> (#[trigger] parsed_instant(meta@.dates[j], POST_DATE_FORMAT@)) is Some,
    {
        assert(meta@.dates[i as int] == meta.dates@[i as int]@);
        if parse_instant(meta.dates[i].as_str(), POST_DATE_FORMAT).is_none() {
            return None;
        }
    }
    Some(read_post(content, conf))
}

fn clone_pairs(v: &Vec<(String, String)>) -> (r: Vec<(String, String)>)
    ensures
        r@ == v@,
{
    let mut r: Vec<(String, String)> = Vec::new();
    let n = v.len();
    for i in 0..n
        invariant
            n == v.len(),
            r@ == v@.take(i as int),
    {
        let e = (v[i].0.clone(), v[i].1.clone());
        r.push(e);
        assert(v@.take(i + 1) =~= v@.take(i as int).push(v@[i as int]));
    }
    assert(v@.take(n as int) =~= v@);
    r
}

/// `s` carries the fields of `p` that templates see (all but the
/// publication instant); its changed mark is `p`'s.
pub open spec fn is_serial_of(s: SerialPost, p: Post) -> bool {
    &&& s.title == p.title
    &&& s.slug == p.slug
    &&& s.author == p.author
    &&& s.body == p.body
    &&& s.hash == p.hash
    &&& s.sdate == p.sdate
    &&& s.tags@ == p.tags@
    &&& s.changed == p.changed
    &&& s.url == p.url
    &&& s.conf == p.conf
}

impl<'a> SerialPost<'a> {
    /// The copy of `post` handed to templates.
    pub fn new(post: &Post<'a>) -> (s: SerialPost<'a>)
        ensures
            is_serial_of(s, *post),
    {
        SerialPost {
            title: post.title.clone(),
            slug: post.slug.clone(),
            body: post.body.clone(),
            hash: post.hash.clone(),
            sdate: post.sdate.clone(),
            tags: clone_pairs(&post.tags),
            changed: post.changed,
            author: post.author.clone(),
            url: post.url.clone(),
            conf: post.conf,
        }
    }
}

/// Law: text appended to a post after a line that starts with `-->` does
/// not change what is read from its metadata: title, slug, date text,
/// publication instant (when it has a date line), author, tags and
/// address stay the same.
pub proof fn lemma_read_post_ignores_appended(
    p1: Post,
    p2: Post,
    c: Seq<char>,
    s: Seq<char>,
    conf: &Configuration,
)
    requires
        exists|k: int| 0 <= k < lines_of(c).len() && has_prefix(#[trigger] lines_of(c)[k], end_marker()),
        is_post_of(p1, c, conf),
        is_post_of(p2, c + s, conf),
    ensures
        p2.title@ == p1.title@,
        p2.slug@ == p1.slug@,
        p2.sdate@ == p1.sdate@,
        p2.author@ == p1.author@,
        p2.url@ == p1.url@,
        entries_map(pairs_view(p2.tags@)) == entries_map(pairs_view(p1.tags@)),
        metadata_spec(c).dates.len() > 0 ==> p2.date == p1.date,
{
    lemma_metadata_ignores_appended(c, s);
}

} // verus!
