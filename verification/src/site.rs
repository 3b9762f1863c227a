//! Planning a rebuild of the site: which posts are rebuilt, the
//! categories, the listings and feeds of each category, and the main feed.
use vstd::prelude::*;
use crate::index::{is_display_order, newest_first, ties_by_position};
use crate::order::{instant_less, instant_lt, is_stable_sort, stable_sort, Instant};
use crate::post::{entries_map, insert_entry, keys_distinct, pairs_view, tag_map, Configuration, Post};
use crate::index::{last_index_path, numbered_index_path};
use crate::feed::feed_path_spec;
use crate::slug::{lemma_slug_shape, slug_spec};
use crate::text::{decimal, digit_char};

verus! {

/// What the category overview page is rendered with.
pub struct Catpage<'a> {
    /// Category slug to category name.
    pub cats: Vec<(String, String)>,
    pub conf: &'a Configuration,
}

/// The index pages and the feed of one category to be rebuilt.
pub struct CategoryJob {
    pub slug: String,
    /// Positions of the category's posts, newest first.
    pub listing: Vec<usize>,
    /// Positions of the posts of its feed: the first ten of `listing`.
    pub feed: Vec<usize>,
}

/// What a rebuild does with a list of posts.
pub struct RebuildPlan {
    /// Positions of the posts that are rendered and written again.
    pub build_posts: Vec<usize>,
    /// Category slug to category name, over all posts; no slug twice.
    pub categories: Vec<(String, String)>,
    /// The categories of rebuilt posts: their index pages and feeds are
    /// rebuilt.
    pub jobs: Vec<CategoryJob>,
    /// Positions of the posts of the main index, in file order.
    pub index_listing: Vec<usize>,
    /// Positions of the posts of the main feed, if it is rebuilt.
    pub main_feed: Option<Vec<usize>>,
}

/// The instants of the posts.
pub open spec fn post_keys(posts: Seq<Post>) -> Seq<Instant> {
    posts.map_values(|p: Post| p.date)
}

/// The tag maps of the posts.
pub open spec fn tag_maps(posts: Seq<Post>) -> Seq<Map<Seq<char>, Seq<char>>> {
    posts.map_values(|p: Post| entries_map(pairs_view(p.tags@)))
}

/// All tags of the posts: slug to name, a later post's name for a slug
/// replacing an earlier one.
pub open spec fn category_names(maps: Seq<Map<Seq<char>, Seq<char>>>) -> Map<Seq<char>, Seq<char>>
    decreases maps.len(),
{
    if maps.len() == 0 {
        Map::empty()
    } else {
        category_names(maps.drop_last()).union_prefer_right(maps.last())
    }
}

/// The positions below `m` of the posts tagged `slug`, in increasing order.
pub open spec fn members(maps: Seq<Map<Seq<char>, Seq<char>>>, slug: Seq<char>, m: nat) -> Seq<usize>
    decreases m,
{
    if m == 0 {
        Seq::<usize>::empty()
    } else {
        let r = members(maps, slug, (m - 1) as nat);
        if maps[m - 1].dom().contains(slug) {
            r.push((m - 1) as usize)
        } else {
            r
        }
    }
}

/// The posts of a feed: the first ten of a listing.
pub open spec fn feed_of(listing: Seq<usize>) -> Seq<usize> {
    if listing.len() <= 10 {
        listing
    } else {
        listing.take(10)
    }
}

/// The positions `0..n`, in order.
pub open spec fn upto(n: nat) -> Seq<usize> {
    Seq::new(n, |i: int| i as usize)
}

/// `job` rebuilds category `slug` of the posts.
pub open spec fn is_category_job(job: CategoryJob, slug: Seq<char>, posts: Seq<Post>) -> bool {
    &&& job.slug@ == slug
    &&& is_display_order(post_keys(posts), members(tag_maps(posts), slug, posts.len()), job.listing@)
    &&& job.feed@ == feed_of(job.listing@)
}

/// Post `i` is rebuilt: everything is, or its built page is stale (missing,
/// or older than its source).
pub open spec fn is_rebuilt(rebuildall: bool, stale: Seq<bool>, i: int) -> bool {
    rebuildall || stale[i]
}

/// The positions below `m` of the posts that are rebuilt, in order.
pub open spec fn rebuilt_upto(rebuildall: bool, stale: Seq<bool>, m: nat) -> Seq<usize>
    decreases m,
{
    if m == 0 {
        Seq::<usize>::empty()
    } else {
        let r = rebuilt_upto(rebuildall, stale, (m - 1) as nat);
        if is_rebuilt(rebuildall, stale, m - 1) {
            r.push((m - 1) as usize)
        } else {
            r
        }
    }
}

/// Some rebuilt post is tagged `slug`.
pub open spec fn is_touched(
    maps: Seq<Map<Seq<char>, Seq<char>>>,
    rebuildall: bool,
    stale: Seq<bool>,
    slug: Seq<char>,
) -> bool {
    exists|i: int|
        0 <= i < maps.len() && is_rebuilt(rebuildall, stale, i) && #[trigger] maps[i].dom().contains(
            slug,
        )
}

/// The slugs among `cats` that some rebuilt post is tagged with, in order.
pub open spec fn touched_slugs(
    cats: Seq<(Seq<char>, Seq<char>)>,
    maps: Seq<Map<Seq<char>, Seq<char>>>,
    rebuildall: bool,
    stale: Seq<bool>,
) -> Seq<Seq<char>>
    decreases cats.len(),
{
    if cats.len() == 0 {
        Seq::<Seq<char>>::empty()
    } else {
        let r = touched_slugs(cats.drop_last(), maps, rebuildall, stale);
        if is_touched(maps, rebuildall, stale, cats.last().0) {
            r.push(cats.last().0)
        } else {
            r
        }
    }
}

/// `post` is `before`, marked changed when it is rebuilt.
pub open spec fn is_marked(post: Post, before: Post, rebuilt: bool) -> bool {
    post == Post { changed: before.changed || rebuilt, ..before }
}

/// `plan` is what a rebuild does with `posts`: everything when
/// `rebuildall`, otherwise the posts whose built page is stale. Every
/// category of a rebuilt post gets its index pages and feed rebuilt, and
/// so does the main feed when some post is rebuilt.
pub open spec fn is_rebuild_plan(
    plan: RebuildPlan,
    posts: Seq<Post>,
    rebuildall: bool,
    stale: Seq<bool>,
) -> bool {
    let n = posts.len();
    let cats = pairs_view(plan.categories@);
    let slugs = touched_slugs(cats, tag_maps(posts), rebuildall, stale);
    &&& plan.build_posts@ == rebuilt_upto(rebuildall, stale, n)
    &&& keys_distinct(cats)
    &&& entries_map(cats) == category_names(tag_maps(posts))
    &&& plan.index_listing@ == upto(n)
    &&& plan.jobs.len() == slugs.len()
    &&& forall|i: int|
        0 <= i < plan.jobs.len() ==> is_category_job(#[trigger] plan.jobs@[i], slugs[i], posts)
    &&& (plan.main_feed is Some <==> plan.build_posts.len() > 0)
    &&& plan.main_feed matches Some(f) ==> exists|d: Seq<usize>|
        is_stable_sort(post_keys(posts), d, true) && f@ == feed_of(d)
}

proof fn lemma_union_insert(
    m: Map<Seq<char>, Seq<char>>,
    e: Map<Seq<char>, Seq<char>>,
    k: Seq<char>,
    v: Seq<char>,
)
    ensures
        m.union_prefer_right(e.insert(k, v)) == m.union_prefer_right(e).insert(k, v),
{
    assert(m.union_prefer_right(e.insert(k, v)) =~= m.union_prefer_right(e).insert(k, v));
}

proof fn lemma_entries_dom(e: Seq<(Seq<char>, Seq<char>)>, k: Seq<char>)
    ensures
        entries_map(e).dom().contains(k) <==> exists|i: int| 0 <= i < e.len() && (#[trigger] e[i]).0 == k,
    decreases e.len(),
{
    if e.len() > 0 {
        lemma_entries_dom(e.drop_last(), k);
        if entries_map(e.drop_last()).dom().contains(k) {
            let i = choose|i: int| 0 <= i < e.drop_last().len() && (#[trigger] e.drop_last()[i]).0 == k;
            assert(e[i] == e.drop_last()[i]);
        }
        if exists|i: int| 0 <= i < e.len() && (#[trigger] e[i]).0 == k {
            let i = choose|i: int| 0 <= i < e.len() && (#[trigger] e[i]).0 == k;
            if i < e.len() - 1 {
                assert(e.drop_last()[i] == e[i]);
            }
        }
    }
}

/// Whether a post's tags hold the slug `slug`.
fn has_tag(tags: &Vec<(String, String)>, slug: &String) -> (r: bool)
    ensures
        r == entries_map(pairs_view(tags@)).dom().contains(slug@),
{
    proof {
        lemma_entries_dom(pairs_view(tags@), slug@);
    }
    let n = tags.len();
    for i in 0..n
        invariant
            n == tags.len(),
            forall|j: int| 0 <= j < i ==> (#[trigger] pairs_view(tags@)[j]).0 != slug@,
    {
        if tags[i].0 == *slug {
            let ghost e = pairs_view(tags@);
            assert(e[i as int].0 == slug@);
            assert(exists|j: int| 0 <= j < e.len() && (#[trigger] e[j]).0 == slug@);
            proof {
                lemma_entries_dom(e, slug@);
            }
            return true;
        }
    }
    false
}

/// The first ten positions of a listing (all of them if fewer).
fn first_ten(v: &Vec<usize>) -> (r: Vec<usize>)
    ensures
        r@ == feed_of(v@),
{
    let m = if v.len() <= 10 {
        v.len()
    } else {
        10
    };
    let mut r: Vec<usize> = Vec::new();
    for i in 0..m
        invariant
            m <= v.len(),
            m == (if v.len() <= 10 { v.len() } else { 10 }),
            r@ == v@.take(i as int),
    {
        r.push(v[i]);
        assert(r@ =~= v@.take(i + 1));
    }
    assert(v@.take(m as int) =~= feed_of(v@));
    r
}

proof fn lemma_members_increasing(maps: Seq<Map<Seq<char>, Seq<char>>>, slug: Seq<char>, m: nat)
    requires
        m <= maps.len(),
        maps.len() <= usize::MAX,
    ensures
        forall|i: int| 0 <= i < members(maps, slug, m).len() ==> #[trigger] members(maps, slug, m)[i] < m,
        forall|i: int, j: int|
            0 <= i < j < members(maps, slug, m).len() ==> members(maps, slug, m)[i] < members(
                maps,
                slug,
                m,
            )[j],
    decreases m,
{
    if m > 0 {
        let r = members(maps, slug, (m - 1) as nat);
        lemma_members_increasing(maps, slug, (m - 1) as nat);
        let s = members(maps, slug, m);
        if maps[m - 1].dom().contains(slug) {
            assert(s == r.push((m - 1) as usize));
            assert forall|i: int| 0 <= i < s.len() implies #[trigger] s[i] < m by {
                if i < r.len() {
                    assert(s[i] == r[i]);
                }
            }
            assert forall|i: int, j: int| 0 <= i < j < s.len() implies s[i] < s[j] by {
                assert(s[i] == r[i]);
                if j < r.len() {
                    assert(s[j] == r[j]);
                }
            }
        } else {
            assert(s == r);
        }
    }
}

/// Plans a rebuild of the site from its posts. A post is rebuilt when
/// `rebuildall` holds or its built page is stale (`stale[i]`); each rebuilt
/// post is marked changed, every category of a rebuilt post gets its index
/// pages and feed rebuilt, and so does the main feed when some post is
/// rebuilt; the main index is always laid out.
pub fn rebuild(posts: &mut Vec<Post>, rebuildall: bool, stale: &Vec<bool>) -> (plan: RebuildPlan)
    requires
        old(posts).len() <= u32::MAX,
        stale.len() == old(posts).len(),
    ensures
        final(posts).len() == old(posts).len(),
        forall|i: int|
            0 <= i < old(posts).len() ==> is_marked(
                #[trigger] final(posts)@[i],
                old(posts)@[i],
                is_rebuilt(rebuildall, stale@, i),
            ),
        is_rebuild_plan(plan, old(posts)@, rebuildall, stale@),
{
    let n = posts.len();
    let ghost before = posts@;
    let ghost maps = tag_maps(before);
    // All categories: slug to name.
    let mut cats: Vec<(String, String)> = Vec::new();
    for i in 0..n
        invariant
            n == posts.len(),
            posts@ == before,
            maps == tag_maps(before),
            keys_distinct(pairs_view(cats@)),
            entries_map(pairs_view(cats@)) == category_names(maps.take(i as int)),
    {
        let tags = &posts[i].tags;
        let nt = tags.len();
        let ghost base = category_names(maps.take(i as int));
        assert(maps[i as int] == entries_map(pairs_view(tags@)));
        assert(pairs_view(tags@).take(0) =~= Seq::<(Seq<char>, Seq<char>)>::empty());
        assert(base.union_prefer_right(Map::empty()) =~= base);
        for t in 0..nt
            invariant
                nt == tags.len(),
                keys_distinct(pairs_view(cats@)),
                entries_map(pairs_view(cats@)) == base.union_prefer_right(
                    entries_map(pairs_view(tags@).take(t as int)),
                ),
        {
            let k = tags[t].0.clone();
            let v = tags[t].1.clone();
            insert_entry(&mut cats, k, v);
            proof {
                let e = pairs_view(tags@);
                assert(e.take(t + 1).drop_last() =~= e.take(t as int));
                lemma_union_insert(base, entries_map(e.take(t as int)), e[t as int].0, e[t as int].1);
            }
        }
        assert(pairs_view(tags@).take(nt as int) =~= pairs_view(tags@));
        assert(maps.take(i + 1).drop_last() =~= maps.take(i as int));
    }
    assert(maps.take(n as int) =~= maps);
    // The instants of the posts.
    let mut keys: Vec<Instant> = Vec::new();
    for i in 0..n
        invariant
            n == posts.len(),
            posts@ == before,
            keys@ == post_keys(before).take(i as int),
    {
        keys.push(posts[i].date);
        assert(keys@ =~= post_keys(before).take(i + 1));
    }
    assert(keys@ =~= post_keys(before));
    // The posts to rebuild.
    let mut build_posts: Vec<usize> = Vec::new();
    for i in 0..n
        invariant
            n == stale.len(),
            build_posts@ == rebuilt_upto(rebuildall, stale@, i as nat),
    {
        if rebuildall || stale[i] {
            build_posts.push(i);
        }
    }
    // The categories of rebuilt posts.
    let mut jobs: Vec<CategoryJob> = Vec::new();
    let nc = cats.len();
    let ghost cv = pairs_view(cats@);
    for c in 0..nc
        invariant
            nc == cats.len(),
            cv == pairs_view(cats@),
            n == posts.len() == stale.len(),
            n <= u32::MAX,
            posts@ == before,
            maps == tag_maps(before),
            maps.len() == n,
            keys@ == post_keys(before),
            jobs.len() == touched_slugs(cv.take(c as int), maps, rebuildall, stale@).len(),
            forall|i: int|
                0 <= i < jobs.len() ==> is_category_job(
                    #[trigger] jobs@[i],
                    touched_slugs(cv.take(c as int), maps, rebuildall, stale@)[i],
                    before,
                ),
    {
        let slug = &cats[c].0;
        let mut ms: Vec<usize> = Vec::new();
        let mut touched = false;
        for i in 0..n
            invariant
                n == posts.len() == stale.len(),
                posts@ == before,
                maps == tag_maps(before),
                maps.len() == n,
                ms@ == members(maps, slug@, i as nat),
                touched == exists|j: int|
                    0 <= j < i && is_rebuilt(rebuildall, stale@, j) && #[trigger] maps[j].dom().contains(
                        slug@,
                    ),
        {
            assert(maps[i as int] == entries_map(pairs_view(posts@[i as int].tags@)));
            if has_tag(&posts[i].tags, slug) {
                ms.push(i);
                if rebuildall || stale[i] {
                    touched = true;
                }
            }
        }
        let ghost prev = touched_slugs(cv.take(c as int), maps, rebuildall, stale@);
        assert(cv.take(c + 1).drop_last() =~= cv.take(c as int));
        assert(cv.take(c + 1).last() == cv[c as int]);
        assert(cv[c as int].0 == slug@);
        assert(touched == is_touched(maps, rebuildall, stale@, slug@));
        if touched {
            proof {
                lemma_members_increasing(maps, slug@, n as nat);
            }
            let listing = newest_first(&keys, &ms);
            let feed = first_ten(&listing);
            let ghost old_jobs = jobs@;
            jobs.push(CategoryJob { slug: slug.clone(), listing, feed });
            assert forall|i: int|
                0 <= i < jobs.len() implies is_category_job(
                #[trigger] jobs@[i],
                touched_slugs(cv.take(c + 1), maps, rebuildall, stale@)[i],
                before,
            ) by {
                if i < old_jobs.len() {
                    assert(jobs@[i] == old_jobs[i]);
                }
            }
        }
    }
    assert(cv.take(nc as int) =~= cv);
    // The main feed.
    let main_feed = if build_posts.len() > 0 {
        let d = stable_sort(&keys, true);
        Some(first_ten(&d))
    } else {
        None
    };
    // The main index lists every post in file order.
    let mut index_listing: Vec<usize> = Vec::new();
    for i in 0..n
        invariant
            index_listing@ == upto(i as nat),
    {
        index_listing.push(i);
        assert(index_listing@ =~= upto((i + 1) as nat));
    }
    // Every rebuilt post is marked changed.
    for i in 0..n
        invariant
            n == posts.len() == before.len() == stale.len(),
            forall|j: int|
                0 <= j < i ==> is_marked(#[trigger] posts@[j], before[j], is_rebuilt(rebuildall, stale@, j)),
            forall|j: int| i <= j < n ==> #[trigger] posts@[j] == before[j],
    {
        let mark = rebuildall || stale[i];
        let now_changed = posts[i].changed || mark;
        posts[i].changed = now_changed;
    }
    RebuildPlan { build_posts, categories: cats, jobs, index_listing, main_feed }
}

// ---------------------------------------------------------------------
// Where the site's files go
// ---------------------------------------------------------------------

/// No character of `s` is a slash.
pub open spec fn no_slash(s: Seq<char>) -> bool {
    forall|i: int| 0 <= i < s.len() ==> #[trigger] s[i] != '/'
}

/// The directories under `./output/` that the site is written to.
pub open spec fn is_output_dir(dir: Seq<char>) -> bool {
    dir == ""@ || dir == "posts/"@ || dir == "pages/"@ || dir == "categories/"@
}

/// `path` names an HTML or XML file directly inside `./output/` or one of
/// its `posts/`, `pages/` and `categories/` directories.
pub open spec fn in_output(path: Seq<char>) -> bool {
    exists|dir: Seq<char>, base: Seq<char>, ext: Seq<char>|
        is_output_dir(dir) && no_slash(base) && (ext == ".html"@ || ext == ".xml"@) && path
            == #[trigger] ("./output/"@ + dir + base + ext)
}

proof fn lemma_decimal_no_slash(n: nat)
    ensures
        no_slash(decimal(n)),
    decreases n,
{
    let d = digit_char(n % 10);
    assert((d as u32) == (n % 10) + 48);
    if n < 10 {
        assert(decimal(n) =~= seq![digit_char(n)]);
    } else {
        lemma_decimal_no_slash(n / 10);
        let p = decimal(n / 10);
        assert forall|i: int| 0 <= i < decimal(n).len() implies #[trigger] decimal(n)[i] != '/' by {
            if i < p.len() {
                assert(decimal(n)[i] == p[i]);
            }
        }
    }
}

proof fn lemma_in_output(path: Seq<char>, dir: Seq<char>, base: Seq<char>, ext: Seq<char>)
    requires
        is_output_dir(dir),
        no_slash(base),
        ext == ".html"@ || ext == ".xml"@,
        path == "./output/"@ + dir + base + ext,
    ensures
        in_output(path),
{
}

/// Law: for a name and a slug without slashes, every file the site builder
/// writes for them (the pages of an index, its feed, the page of a post or
/// of a standalone page) lies inside `./output/`.
pub proof fn lemma_output_paths(name: Seq<char>, slug: Seq<char>, index: nat)
    requires
        no_slash(name),
        no_slash(slug),
    ensures
        in_output(numbered_index_path(name, index)),
        in_output(last_index_path(name)),
        in_output(feed_path_spec(name)),
        in_output("./output/posts/"@ + slug + ".html"@),
        in_output("./output/pages/"@ + slug + ".html"@),
{
    reveal_strlit("./output/");
    reveal_strlit("./output/categories/");
    reveal_strlit("./output/posts/");
    reveal_strlit("./output/pages/");
    reveal_strlit("./output/rss.xml");
    reveal_strlit("categories/");
    reveal_strlit("posts/");
    reveal_strlit("pages/");
    reveal_strlit("");
    reveal_strlit("-");
    reveal_strlit("rss");
    reveal_strlit(".html");
    reveal_strlit(".xml");
    let top = "./output/"@;
    let cat = "categories/"@;
    let dir = if name == "index"@ { ""@ } else { cat };
    lemma_decimal_no_slash(index);
    let dec = decimal(index);
    let base = name + "-"@ + dec;
    assert forall|i: int| 0 <= i < base.len() implies #[trigger] base[i] != '/' by {
        if i < name.len() {
            assert(base[i] == name[i]);
        } else if i == name.len() {
        } else {
            assert(base[i] == dec[i - name.len() - 1]);
        }
    }
    assert(numbered_index_path(name, index) =~= top + dir + base + ".html"@);
    lemma_in_output(numbered_index_path(name, index), dir, base, ".html"@);
    assert(last_index_path(name) =~= top + dir + name + ".html"@);
    lemma_in_output(last_index_path(name), dir, name, ".html"@);
    if name == "cmain"@ {
        assert(no_slash("rss"@));
        assert(feed_path_spec(name) =~= top + ""@ + "rss"@ + ".xml"@);
        lemma_in_output(feed_path_spec(name), ""@, "rss"@, ".xml"@);
    } else {
        assert(feed_path_spec(name) =~= top + cat + name + ".xml"@);
        lemma_in_output(feed_path_spec(name), cat, name, ".xml"@);
    }
    assert("./output/posts/"@ + slug + ".html"@ =~= top + "posts/"@ + slug + ".html"@);
    lemma_in_output("./output/posts/"@ + slug + ".html"@, "posts/"@, slug, ".html"@);
    assert("./output/pages/"@ + slug + ".html"@ =~= top + "pages/"@ + slug + ".html"@);
    lemma_in_output("./output/pages/"@ + slug + ".html"@, "pages/"@, slug, ".html"@);
}

/// Law: a category slug taken from a tag line holds no slash, so the
/// category's index pages and feed lie inside `./output/`.
pub proof fn lemma_category_slugs_no_slash(words: Seq<Seq<char>>, k: Seq<char>)
    requires
        tag_map(words).dom().contains(k),
    ensures
        no_slash(k),
{
    crate::post::lemma_tag_keys_are_slugs(words);
    let name = tag_map(words)[k];
    lemma_slug_shape(name);
    let s = slug_spec(name);
    assert forall|i: int| 0 <= i < s.len() implies #[trigger] s[i] != '/' by {
        assert(crate::slug::is_slug_char(s[i]));
    }
}

// ---------------------------------------------------------------------
// Which posts a rebuild builds
// ---------------------------------------------------------------------

proof fn lemma_rebuilt_all(stale: Seq<bool>, m: nat)
    requires
        m <= usize::MAX + 1,
    ensures
        rebuilt_upto(true, stale, m) == upto(m),
    decreases m,
{
    if m > 0 {
        lemma_rebuilt_all(stale, (m - 1) as nat);
        assert(upto((m - 1) as nat).push((m - 1) as usize) =~= upto(m));
    }
}

proof fn lemma_rebuilt_members(rebuildall: bool, stale: Seq<bool>, m: nat)
    requires
        m <= stale.len(),
        m <= usize::MAX + 1,
    ensures
        forall|i: int|
            #![trigger rebuilt_upto(rebuildall, stale, m).contains(i as usize)]
            #![trigger is_rebuilt(rebuildall, stale, i)]
            0 <= i < m ==> (rebuilt_upto(rebuildall, stale, m).contains(i as usize) <==> is_rebuilt(rebuildall, stale, i)),
        forall|k: int| 0 <= k < rebuilt_upto(rebuildall, stale, m).len() ==> #[trigger] rebuilt_upto(rebuildall, stale, m)[k] < m,
    decreases m,
{
    if m > 0 {
        let r = rebuilt_upto(rebuildall, stale, (m - 1) as nat);
        lemma_rebuilt_members(rebuildall, stale, (m - 1) as nat);
        let s = rebuilt_upto(rebuildall, stale, m);
        assert forall|k: int| 0 <= k < s.len() implies #[trigger] s[k] < m by {
            if k < r.len() {
                assert(s[k] == r[k]);
            }
        }
        assert forall|i: int| 0 <= i < m implies (s.contains(i as usize) <==> is_rebuilt(rebuildall, stale, i)) by {
            if i < m - 1 {
                if r.contains(i as usize) {
                    let k = choose|k: int| 0 <= k < r.len() && r[k] == i as usize;
                    assert(s[k] == r[k]);
                }
                if s.contains(i as usize) {
                    let k = choose|k: int| 0 <= k < s.len() && s[k] == i as usize;
                    if k < r.len() {
                        assert(s[k] == r[k]);
                    } else {
                        assert(s[k] == (m - 1) as usize);
                    }
                }
            } else {
                if is_rebuilt(rebuildall, stale, i) {
                    assert(s[s.len() - 1] == (m - 1) as usize);
                } else {
                    if s.contains(i as usize) {
                        let k = choose|k: int| 0 <= k < s.len() && s[k] == i as usize;
                        assert(s[k] == r[k]);
                    }
                }
            }
        }
    }
}

/// Law: a full rebuild builds every post, in order.
pub proof fn lemma_full_rebuild_builds_every_post(plan: RebuildPlan, posts: Seq<Post>, stale: Seq<bool>)
    requires
        is_rebuild_plan(plan, posts, true, stale),
        posts.len() <= usize::MAX,
    ensures
        plan.build_posts@ == upto(posts.len()),
{
    lemma_rebuilt_all(stale, posts.len());
}

/// Law: a plain run builds exactly the posts whose built page is stale
/// (missing or older than the source), and rebuilds the main feed exactly
/// when there is one.
pub proof fn lemma_plain_rebuild_builds_stale_posts(plan: RebuildPlan, posts: Seq<Post>, stale: Seq<bool>)
    requires
        is_rebuild_plan(plan, posts, false, stale),
        stale.len() == posts.len(),
        posts.len() <= usize::MAX,
    ensures
        forall|i: int| 0 <= i < posts.len() ==> (#[trigger] plan.build_posts@.contains(i as usize) <==> stale[i]),
        plan.main_feed is Some <==> exists|i: int| 0 <= i < posts.len() && stale[i],
{
    lemma_rebuilt_members(false, stale, posts.len());
    let b = plan.build_posts@;
    if exists|i: int| 0 <= i < posts.len() && stale[i] {
        let i = choose|i: int| 0 <= i < posts.len() && stale[i];
        assert(is_rebuilt(false, stale, i));
        assert(b.contains(i as usize));
    }
    if b.len() > 0 {
        assert(b[0] < posts.len());
        let j = b[0] as int;
        assert(b.contains(j as usize));
        assert(is_rebuilt(false, stale, j));
        assert(stale[j]);
    }
}

/// A post's built page is stale: it is missing (or its time cannot be
/// read), or it was last written before its source.
pub open spec fn page_stale(built: Option<Instant>, source: Option<Instant>) -> bool {
    match (built, source) {
        (Some(b), Some(s)) => instant_lt(b, s),
        _ => true,
    }
}

/// Whether a post's built page is stale, from the modification times of
/// the built page and of its source file (`None` where a time cannot be
/// read, a missing page among them).
pub fn is_stale(built: Option<Instant>, source: Option<Instant>) -> (r: bool)
    ensures
        r == page_stale(built, source),
{
    match (built, source) {
        (Some(b), Some(s)) => instant_less(b, s),
        _ => true,
    }
}

/// Law: every feed a rebuild plans holds the first ten posts of its
/// newest-first listing, or all of them when there are fewer: each
/// category's feed is the start of its listing, and the main feed the
/// start of the posts sorted newest first.
pub proof fn lemma_feeds_hold_ten_newest(
    plan: RebuildPlan,
    posts: Seq<Post>,
    rebuildall: bool,
    stale: Seq<bool>,
)
    requires
        is_rebuild_plan(plan, posts, rebuildall, stale),
    ensures
        forall|i: int|
            0 <= i < plan.jobs.len() ==> {
                let job = #[trigger] plan.jobs@[i];
                &&& job.feed@.len() == (if job.listing@.len() < 10 { job.listing@.len() } else { 10 })
                &&& job.feed@ == job.listing@.take(job.feed@.len() as int)
            },
        plan.main_feed matches Some(f) ==> exists|d: Seq<usize>|
            is_stable_sort(post_keys(posts), d, true) && f@.len() == (if posts.len() < 10 { posts.len() } else { 10 })
                && f@ == d.take(f@.len() as int),
{
    assert forall|i: int| 0 <= i < plan.jobs.len() implies {
        let job = #[trigger] plan.jobs@[i];
        &&& job.feed@.len() == (if job.listing@.len() < 10 { job.listing@.len() } else { 10 })
        &&& job.feed@ == job.listing@.take(job.feed@.len() as int)
    } by {
        let l = plan.jobs@[i].listing@;
        if l.len() <= 10 {
            assert(l.take(l.len() as int) =~= l);
        }
    }
    if plan.main_feed is Some {
        let f = plan.main_feed->0;
        let d = choose|d: Seq<usize>| is_stable_sort(post_keys(posts), d, true) && f@ == feed_of(d);
        assert(d.len() == posts.len());
        if d.len() <= 10 {
            assert(d.take(d.len() as int) =~= d);
        }
    }
}

/// Law: a post whose built page is missing, or whose source was modified
/// in a later second than its page was built, is stale; a page built in a
/// later second than its source was modified is not.
pub proof fn lemma_stale_when_source_newer(built: Option<Instant>, source: Option<Instant>)
    ensures
        built is None ==> page_stale(built, source),
        source is None ==> page_stale(built, source),
        (built matches Some(b) && source matches Some(s) && b.secs < s.secs) ==> page_stale(built, source),
        (built matches Some(b) && source matches Some(s) && s.secs < b.secs) ==> !page_stale(built, source),
{
    if let (Some(b), Some(s)) = (built, source) {
        crate::order::lemma_instant_order_is_time(b, s);
    }
}

} // verus!
