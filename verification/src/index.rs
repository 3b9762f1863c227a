//! Index pages: posts laid out oldest first, ten to a page; which pages
//! are rewritten, how they link to each other, and where they are written.
use vstd::prelude::*;
use crate::order::{
    is_permutation, is_stable_sort, lemma_stable_sort_increasing, sorts_before, stable_sort,
    Instant,
};
use crate::post::{is_serial_of, Post, SerialPost};
use crate::text::{
    chars_equal, chars_of, decimal, decimal_chars, extend_chars, lemma_decimal_injective,
    lemma_decimal_len, string_from_chars,
};

verus! {

broadcast use vstd::string::group_string_axioms;

/// How many posts an index page holds.
pub const POSTS_PER_PAGE: usize = 10;

/// One index page to be written.
pub struct PagePlan {
    /// The page's number; 0 for the page of the remaining posts.
    pub index: u32,
    /// The number of the page before it; 0 where there is none.
    pub prev: u32,
    /// The number of the page after it; 0 where the next page is the last
    /// one, -1 where this page is the last one.
    pub next: i32,
    /// Positions of the page's posts, newest first.
    pub posts: Vec<usize>,
}

/// The layout of a list of posts on index pages.
pub struct IndexLayout {
    /// Positions of all posts, oldest first (a stable sort by date).
    pub order: Vec<usize>,
    /// The pages to be written, in order.
    pub pages: Vec<PagePlan>,
}

/// The posts of full page `k` (counting from 0), in date order.
pub open spec fn chunk(order: Seq<usize>, k: nat) -> Seq<usize> {
    order.subrange(10 * k as int, 10 * k + 10int)
}

/// The posts after the last full page, in date order.
pub open spec fn tail_chunk(order: Seq<usize>) -> Seq<usize> {
    order.subrange(10 * (order.len() / 10) as int, order.len() as int)
}

/// Some post of `c` is marked changed.
pub open spec fn has_change(changed: Seq<bool>, c: Seq<usize>) -> bool {
    exists|j: int| 0 <= j < c.len() && changed[#[trigger] c[j] as int]
}

/// Whether the file of full page `k` is known to exist.
pub open spec fn page_exists(existing: Seq<bool>, k: nat) -> bool {
    k < existing.len() && existing[k as int]
}

/// Full page `k` is rewritten when one of its posts changed or its file is
/// missing.
pub open spec fn full_page_built(
    order: Seq<usize>,
    changed: Seq<bool>,
    existing: Seq<bool>,
    k: nat,
) -> bool {
    has_change(changed, chunk(order, k)) || !page_exists(existing, k)
}

/// The full pages among the first `m` that are rewritten, in order.
pub open spec fn built_pages(
    order: Seq<usize>,
    changed: Seq<bool>,
    existing: Seq<bool>,
    m: nat,
) -> Seq<nat>
    decreases m,
{
    if m == 0 {
        Seq::<nat>::empty()
    } else {
        let b = built_pages(order, changed, existing, (m - 1) as nat);
        if full_page_built(order, changed, existing, (m - 1) as nat) {
            b.push((m - 1) as nat)
        } else {
            b
        }
    }
}

/// The `next` link of full page `k` when there are `n` posts: the number
/// of the following page, 0 where the following page is the last one, -1
/// where page `k` is itself the last one.
pub open spec fn page_next(n: nat, k: nat) -> int {
    let rest = n - 10 * (k + 1);
    if rest > 10 {
        k + 2int
    } else if rest == 0 {
        -1
    } else {
        0
    }
}

/// `d` holds the positions of `c`, each once, newest first; posts of the
/// same instant by increasing position.
pub open spec fn is_display_order(keys: Seq<Instant>, c: Seq<usize>, d: Seq<usize>) -> bool {
    &&& d.len() == c.len()
    &&& forall|i: int| 0 <= i < d.len() ==> c.contains(#[trigger] d[i])
    &&& forall|x: usize| #[trigger] c.contains(x) ==> d.contains(x)
    &&& forall|i: int, j: int| 0 <= i < j < d.len() ==> sorts_before(keys, d[i], d[j], true)
}

/// `p` is full page `k` of the layout `order` of `keys`.
pub open spec fn is_full_page(p: PagePlan, keys: Seq<Instant>, order: Seq<usize>, k: nat) -> bool {
    &&& p.index == k + 1
    &&& p.prev == k
    &&& p.next == page_next(keys.len(), k)
    &&& is_display_order(keys, chunk(order, k), p.posts@)
}

/// `p` is the page of the posts after the last full page.
pub open spec fn is_tail_page(p: PagePlan, keys: Seq<Instant>, order: Seq<usize>) -> bool {
    &&& p.index == 0
    &&& p.prev == keys.len() / 10
    &&& p.next == -1
    &&& is_display_order(keys, tail_chunk(order), p.posts@)
}

/// The first pages are the rewritten full pages `ks`, in order.
pub open spec fn full_pages_match(
    pages: Seq<PagePlan>,
    ks: Seq<nat>,
    keys: Seq<Instant>,
    order: Seq<usize>,
) -> bool {
    &&& pages.len() >= ks.len()
    &&& forall|i: int| 0 <= i < ks.len() ==> is_full_page(#[trigger] pages[i], keys, order, ks[i])
}

/// `layout` lays out posts with the given instants and changed marks, the
/// files of the full pages that exist being `existing`: posts oldest first,
/// ten to a full page; the full pages with a changed post or a missing file
/// are rewritten; the page of the remaining posts, if any, always is.
pub open spec fn is_layout(
    layout: IndexLayout,
    keys: Seq<Instant>,
    changed: Seq<bool>,
    existing: Seq<bool>,
) -> bool {
    let order = layout.order@;
    let n = keys.len();
    let ks = built_pages(order, changed, existing, n / 10);
    &&& is_stable_sort(keys, order, false)
    &&& layout.pages@.len() == ks.len() + (if n % 10 != 0 { 1int } else { 0int })
    &&& full_pages_match(layout.pages@, ks, keys, order)
    &&& n % 10 != 0 ==> is_tail_page(layout.pages@.last(), keys, order)
}

/// Among the positions of `c`, those of equal instants run in increasing
/// order.
pub open spec fn ties_by_position(keys: Seq<Instant>, c: Seq<usize>) -> bool {
    forall|i: int, j: int|
        0 <= i < j < c.len() && keys[c[i] as int] == keys[c[j] as int] ==> c[i] < c[j]
}

/// The positions of `c` newest first, posts of the same instant in the
/// order of `c` (a stable sort of `c` by descending instant), where posts
/// of the same instant already run in increasing position in `c`.
pub fn newest_first(keys: &Vec<Instant>, c: &Vec<usize>) -> (d: Vec<usize>)
    requires
        forall|i: int| 0 <= i < c.len() ==> #[trigger] c@[i] < keys.len(),
        ties_by_position(keys@, c@),
    ensures
        is_display_order(keys@, c@, d@),
{
    let mut ck: Vec<Instant> = Vec::new();
    let m = c.len();
    for t in 0..m
        invariant
            m == c.len(),
            ck.len() == t,
            forall|i: int| 0 <= i < c.len() ==> #[trigger] c@[i] < keys.len(),
            forall|u: int| 0 <= u < t ==> #[trigger] ck@[u] == keys@[c@[u] as int],
    {
        ck.push(keys[c[t]]);
    }
    let q = stable_sort(&ck, true);
    let mut d: Vec<usize> = Vec::new();
    for t in 0..m
        invariant
            m == c.len() == ck.len() == q.len(),
            is_stable_sort(ck@, q@, true),
            d.len() == t,
            forall|u: int| 0 <= u < t ==> #[trigger] d@[u] == c@[q@[u] as int],
    {
        d.push(c[q[t]]);
    }
    proof {
        assert forall|i: int| 0 <= i < d.len() implies c@.contains(#[trigger] d@[i]) by {
            assert(d@[i] == c@[q@[i] as int]);
        }
        assert forall|x: usize| #[trigger] c@.contains(x) implies d@.contains(x) by {
            let a = choose|a: int| 0 <= a < c@.len() && c@[a] == x;
            assert(q@.contains(a as usize));
            let b = choose|b: int| 0 <= b < q@.len() && q@[b] == a as usize;
            assert(d@[b] == x);
        }
        assert forall|i: int, j: int| 0 <= i < j < d.len() implies sorts_before(
            keys@,
            d@[i],
            d@[j],
            true,
        ) by {
            lemma_stable_sort_increasing(ck@, q@, true, i, j);
            let a = q@[i] as int;
            let b = q@[j] as int;
            assert(d@[i] == c@[a] && d@[j] == c@[b]);
            assert(ck@[a] == keys@[c@[a] as int]);
            assert(ck@[b] == keys@[c@[b] as int]);
            if ck@[a] == ck@[b] {
                assert(a < b);
            }
        }
    }
    d
}

/// The `next` link of the full page numbered `index` among `length` posts.
fn next_link(index: u32, length: u32) -> (r: i32)
    requires
        1 <= index,
        10 * index <= length,
    ensures
        r == page_next(length as nat, (index - 1) as nat),
{
    if index * 10 < length && length - index * 10 > 10 {
        (index + 1) as i32
    } else if index * 10 == length {
        -1
    } else {
        0
    }
}

proof fn lemma_chunk_increasing(keys: Seq<Instant>, order: Seq<usize>, lo: int, hi: int)
    requires
        is_stable_sort(keys, order, false),
        0 <= lo <= hi <= order.len(),
    ensures
        forall|i: int| 0 <= i < hi - lo ==> #[trigger] order.subrange(lo, hi)[i] < keys.len(),
        forall|i: int, j: int|
            0 <= i < j < hi - lo ==> sorts_before(
                keys,
                order.subrange(lo, hi)[i],
                order.subrange(lo, hi)[j],
                false,
            ),
        ties_by_position(keys, order.subrange(lo, hi)),
{
    let c = order.subrange(lo, hi);
    assert forall|i: int| 0 <= i < hi - lo implies #[trigger] c[i] < keys.len() by {
        assert(c[i] == order[lo + i]);
    }
    assert forall|i: int, j: int| 0 <= i < j < hi - lo implies sorts_before(keys, c[i], c[j], false) by {
        lemma_stable_sort_increasing(keys, order, false, lo + i, lo + j);
    }
    assert(ties_by_position(keys, c));
}

/// Lays out posts with the given instants and changed marks on index pages
/// and decides which pages are written. `existing[k]` tells whether the file of full page `k + 1` exists; pages beyond it
/// count as missing.
pub fn paginate(keys: &Vec<Instant>, changed: &Vec<bool>, existing: &Vec<bool>) -> (layout: IndexLayout)
    requires
        changed.len() == keys.len(),
        keys.len() <= u32::MAX,
    ensures
        is_layout(layout, keys@, changed@, existing@),
{
    let n = keys.len();
    let length = n as u32;
    let order = stable_sort(keys, false);
    let mut pages: Vec<PagePlan> = Vec::new();
    let mut cur: Vec<usize> = Vec::new();
    let mut flag = false;
    let mut index: u32 = 1;
    let ghost ord = order@;
    for j in 0..n
        invariant
            n == keys.len() == changed.len() == order.len(),
            length == n,
            n <= u32::MAX,
            ord == order@,
            is_stable_sort(keys@, ord, false),
            index == j / 10 + 1,
            cur@ == ord.subrange(10 * (j / 10) as int, j as int),
            flag == has_change(changed@, cur@),
            pages@.len() == built_pages(ord, changed@, existing@, (j / 10) as nat).len(),
            full_pages_match(pages@, built_pages(ord, changed@, existing@, (j / 10) as nat), keys@, ord),
    {
        let x = order[j];
        let ghost before = cur@;
        cur.push(x);
        assert(ord.subrange(10 * (j / 10) as int, j + 1) =~= before.push(x));
        if changed[x] {
            flag = true;
            assert(cur@[cur@.len() - 1] == x);
        }
        proof {
            if flag {
                if has_change(changed@, before) {
                    let w = choose|w: int| 0 <= w < before.len() && changed@[before[w] as int];
                    assert(cur@[w] == before[w]);
                }
            } else {
                assert forall|w: int| 0 <= w < cur@.len() implies !changed@[#[trigger] cur@[w] as int] by {
                    if w < before.len() {
                        assert(cur@[w] == before[w]);
                    }
                }
            }
        }
        if cur.len() == POSTS_PER_PAGE {
            let ghost k = (j / 10) as nat;
            assert(j + 1 == 10 * (k + 1));
            assert(cur@ == chunk(ord, k));
            let exists_now = ((index - 1) as usize) < existing.len() && existing[(index - 1) as usize];
            let build = flag || !exists_now;
            assert(build == full_page_built(ord, changed@, existing@, k));
            if build {
                proof {
                    lemma_chunk_increasing(keys@, ord, 10 * k as int, 10 * k + 10int);
                }
                let display = newest_first(keys, &cur);
                let prev = if index == 1 {
                    0
                } else {
                    index - 1
                };
                let next = next_link(index, length);
                let ghost old_pages = pages@;
                pages.push(PagePlan { index, prev, next, posts: display });
                proof {
                    let ks = built_pages(ord, changed@, existing@, (k + 1) as nat);
                    assert(ks == built_pages(ord, changed@, existing@, k).push(k));
                    assert forall|i: int| 0 <= i < ks.len() implies is_full_page(
                        #[trigger] pages@[i],
                        keys@,
                        ord,
                        ks[i],
                    ) by {
                        if i < ks.len() - 1 {
                            assert(pages@[i] == old_pages[i]);
                        }
                    }
                }
            }
            cur = Vec::new();
            flag = false;
            index = index + 1;
            assert((j + 1) / 10 == k + 1);
            assert(ord.subrange(10 * ((j + 1) / 10) as int, j + 1) =~= Seq::<usize>::empty());
        } else {
            assert((j + 1) / 10 == j / 10);
        }
    }
    if cur.len() > 0 {
        proof {
            lemma_chunk_increasing(keys@, ord, 10 * (n / 10) as int, n as int);
        }
        let display = newest_first(keys, &cur);
        let ghost old_pages = pages@;
        pages.push(PagePlan { index: 0, prev: index - 1, next: -1, posts: display });
        proof {
            let ks = built_pages(ord, changed@, existing@, (n / 10) as nat);
            assert forall|i: int| 0 <= i < ks.len() implies is_full_page(
                #[trigger] pages@[i],
                keys@,
                ord,
                ks[i],
            ) by {
                assert(pages@[i] == old_pages[i]);
            }
        }
    }
    IndexLayout { order, pages }
}

// ---------------------------------------------------------------------
// Index files
// ---------------------------------------------------------------------

/// The name of the main index (all posts); any other name is a category.
pub open spec fn is_main_index(name: Seq<char>) -> bool {
    name == "index"@
}

/// The template an index page is rendered with.
pub open spec fn index_template(name: Seq<char>) -> Seq<char> {
    if is_main_index(name) {
        "index.html"@
    } else {
        "cat-index.html"@
    }
}

/// The directory index pages of `name` are written to.
pub open spec fn index_dir(name: Seq<char>) -> Seq<char> {
    if is_main_index(name) {
        "./output/"@
    } else {
        "./output/categories/"@
    }
}

/// The file of page `index` of `name`: `{dir}{name}-{index}.html`.
pub open spec fn numbered_index_path(name: Seq<char>, index: nat) -> Seq<char> {
    index_dir(name) + name + "-"@ + decimal(index) + ".html"@
}

/// The file of the last page of `name`: `{dir}{name}.html`.
pub open spec fn last_index_path(name: Seq<char>) -> Seq<char> {
    index_dir(name) + name + ".html"@
}

/// The file a page is written to: the last page (`next == -1`) under the
/// bare name, the others numbered.
pub open spec fn index_filename(name: Seq<char>, index: nat, next: int) -> Seq<char> {
    if next == -1 {
        last_index_path(name)
    } else {
        numbered_index_path(name, index)
    }
}

/// What a page's template is given besides its posts, and where the
/// rendered page goes.
pub struct IndexRender {
    pub template: String,
    pub filename: String,
    /// `PreviousF`: there is a previous page (numbered `previous`).
    pub previous_f: bool,
    pub previous: u32,
    /// `NextF`: there is a next page (`next`, with 0 for the last page).
    pub next_f: bool,
    pub next: i32,
    /// `NextLast`: the next page is the last one.
    pub next_last: bool,
    /// `Main`: this is the main index rather than a category.
    pub main: bool,
}

/// `r` renders the page numbered `index` of `name` with links `prev` and
/// `next`.
pub open spec fn is_index_render(r: IndexRender, index: u32, prev: u32, next: i32, name: Seq<char>) -> bool {
    &&& r.template@ == index_template(name)
    &&& r.filename@ == index_filename(name, index as nat, next as int)
    &&& r.previous_f == (prev != 0)
    &&& r.previous == prev
    &&& r.next_f == (next != -1)
    &&& r.next == next
    &&& r.next_last == (next == 0)
    &&& r.main == is_main_index(name)
}

fn is_main_name(name: &str) -> (r: bool)
    ensures
        r == is_main_index(name@),
{
    chars_equal(&chars_of(name), &chars_of("index"))
}

fn index_dir_chars(name: &str) -> (r: Vec<char>)
    ensures
        r@ == index_dir(name@),
{
    if is_main_name(name) {
        chars_of("./output/")
    } else {
        chars_of("./output/categories/")
    }
}

/// The file of page `index` of `name` whose existence decides whether an
/// unchanged full page is rewritten.
pub fn check_index_path(name: &str, index: u32) -> (r: String)
    ensures
        r@ == numbered_index_path(name@, index as nat),
{
    let mut v = index_dir_chars(name);
    extend_chars(&mut v, &chars_of(name));
    extend_chars(&mut v, &chars_of("-"));
    extend_chars(&mut v, &decimal_chars(index));
    extend_chars(&mut v, &chars_of(".html"));
    string_from_chars(&v)
}

/// What the index template is handed and where the site builder
/// writes the page numbered `index` of `name`, with links `prev` and `next`.
pub fn build_index(index: u32, prev: u32, next: i32, name: &str) -> (r: IndexRender)
    ensures
        is_index_render(r, index, prev, next, name@),
{
    let main = is_main_name(name);
    let template = if main {
        String::from_str("index.html")
    } else {
        String::from_str("cat-index.html")
    };
    let filename = if next == -1 {
        let mut v = index_dir_chars(name);
        extend_chars(&mut v, &chars_of(name));
        extend_chars(&mut v, &chars_of(".html"));
        string_from_chars(&v)
    } else {
        check_index_path(name, index)
    };
    IndexRender {
        template,
        filename,
        previous_f: prev != 0,
        previous: prev,
        next_f: next != -1,
        next,
        next_last: next == 0,
        main,
    }
}

/// The instants of the listed posts.
pub open spec fn listing_keys(posts: Seq<Post>, listing: Seq<usize>) -> Seq<Instant> {
    listing.map_values(|i: usize| posts[i as int].date)
}

/// The changed marks of the listed posts.
pub open spec fn listing_changed(posts: Seq<Post>, listing: Seq<usize>) -> Seq<bool> {
    listing.map_values(|i: usize| posts[i as int].changed)
}

/// The index pages of a listing of posts, and how each is rendered.
pub struct IndexFiles {
    /// Positions in the layout are positions in the listing.
    pub layout: IndexLayout,
    /// How each page of `layout.pages` is rendered, in the same order.
    pub renders: Vec<IndexRender>,
}

/// Lays out the posts `posts[listing[0]], posts[listing[1]], ...` on the
/// index pages of `name` and says how each page to be written is rendered;
/// `existing[k]` tells whether the file of full page `k + 1` exists.
pub fn create_index_files(
    posts: &Vec<Post>,
    listing: &Vec<usize>,
    name: &str,
    existing: &Vec<bool>,
) -> (files: IndexFiles)
    requires
        forall|i: int| 0 <= i < listing.len() ==> #[trigger] listing@[i] < posts.len(),
        listing.len() <= u32::MAX,
    ensures
        is_layout(
            files.layout,
            listing_keys(posts@, listing@),
            listing_changed(posts@, listing@),
            existing@,
        ),
        files.renders.len() == files.layout.pages.len(),
        forall|i: int|
            0 <= i < files.renders.len() ==> {
                let p = #[trigger] files.layout.pages@[i];
                is_index_render(files.renders@[i], p.index, p.prev, p.next, name@)
            },
{
    let mut keys: Vec<Instant> = Vec::new();
    let mut changed: Vec<bool> = Vec::new();
    let m = listing.len();
    for t in 0..m
        invariant
            m == listing.len(),
            forall|i: int| 0 <= i < listing.len() ==> #[trigger] listing@[i] < posts.len(),
            keys.len() == t,
            changed.len() == t,
            keys@ == listing_keys(posts@, listing@).take(t as int),
            changed@ == listing_changed(posts@, listing@).take(t as int),
    {
        let p = &posts[listing[t]];
        keys.push(p.date);
        changed.push(p.changed);
        assert(keys@ =~= listing_keys(posts@, listing@).take(t + 1));
        assert(changed@ =~= listing_changed(posts@, listing@).take(t + 1));
    }
    assert(keys@ =~= listing_keys(posts@, listing@));
    assert(changed@ =~= listing_changed(posts@, listing@));
    let layout = paginate(&keys, &changed, existing);
    let mut renders: Vec<IndexRender> = Vec::new();
    let np = layout.pages.len();
    for i in 0..np
        invariant
            np == layout.pages.len(),
            renders.len() == i,
            forall|u: int|
                0 <= u < i ==> {
                    let p = #[trigger] layout.pages@[u];
                    is_index_render(renders@[u], p.index, p.prev, p.next, name@)
                },
    {
        let p = &layout.pages[i];
        renders.push(build_index(p.index, p.prev, p.next, name));
    }
    IndexFiles { layout, renders }
}

/// A post or page to be rendered: its template, its file, and the post as
/// the template sees it.
pub struct PostOutput<'a> {
    pub template: String,
    pub filename: String,
    pub data: SerialPost<'a>,
}

/// Which template renders a post of kind `ptype` and where the page is
/// written: `post` (under `./output/posts/`) or `page` (under
/// `./output/pages/`), the template seeing the post unchanged. Posts of no
/// other kind are built.
pub fn build_post<'a>(post: &Post<'a>, ptype: &str) -> (o: PostOutput<'a>)
    requires
        ptype@ == "post"@ || ptype@ == "page"@,
    ensures
        ptype@ == "post"@ ==> o.template@ == "post.html"@ && o.filename@ == "./output/posts/"@ + post.slug@ + ".html"@,
        ptype@ == "page"@ ==> o.template@ == "page.html"@ && o.filename@ == "./output/pages/"@ + post.slug@ + ".html"@,
        is_serial_of(o.data, Post { changed: false, ..*post }),
{
    proof {
        reveal_strlit("post");
        reveal_strlit("page");
        assert("page"@[1] != "post"@[1]);
    }
    let kind = chars_of(ptype);
    let (template, dir) = if chars_equal(&kind, &chars_of("post")) {
        ("post.html", "./output/posts/")
    } else {
        ("page.html", "./output/pages/")
    };
    let mut v = chars_of(dir);
    extend_chars(&mut v, &chars_of(post.slug.as_str()));
    extend_chars(&mut v, &chars_of(".html"));
    let mut data = SerialPost::new(post);
    data.changed = false;
    PostOutput { template: String::from_str(template), filename: string_from_chars(&v), data }
}

// ---------------------------------------------------------------------
// Laws of the layout
// ---------------------------------------------------------------------

/// Law: when every post is marked changed (a full rebuild), every full
/// page is rewritten.
pub proof fn lemma_full_rebuild_writes_every_page(
    order: Seq<usize>,
    changed: Seq<bool>,
    existing: Seq<bool>,
    m: nat,
)
    requires
        is_permutation(order, changed.len()),
        forall|i: int| 0 <= i < changed.len() ==> #[trigger] changed[i],
        10 * m <= order.len(),
    ensures
        built_pages(order, changed, existing, m) == Seq::new(m, |k: int| k as nat),
    decreases m,
{
    if m > 0 {
        lemma_full_rebuild_writes_every_page(order, changed, existing, (m - 1) as nat);
        let k = (m - 1) as nat;
        let c = chunk(order, k);
        assert(c[0] == order[10 * k as int]);
        assert(changed[c[0] as int]);
        assert(has_change(changed, c));
        assert(built_pages(order, changed, existing, m) =~= Seq::new(m, |k: int| k as nat));
    }
}

/// Law: when no post changed and the files of the full pages exist, no
/// full page is rewritten (only the page of the remaining posts is).
pub proof fn lemma_quiet_rebuild_keeps_full_pages(
    order: Seq<usize>,
    changed: Seq<bool>,
    existing: Seq<bool>,
    m: nat,
)
    requires
        is_permutation(order, changed.len()),
        10 * m <= order.len(),
        forall|i: int| 0 <= i < changed.len() ==> !#[trigger] changed[i],
        forall|k: nat| k < m ==> #[trigger] page_exists(existing, k),
    ensures
        built_pages(order, changed, existing, m).len() == 0,
    decreases m,
{
    if m > 0 {
        lemma_quiet_rebuild_keeps_full_pages(order, changed, existing, (m - 1) as nat);
        let k = (m - 1) as nat;
        assert(page_exists(existing, k));
        if has_change(changed, chunk(order, k)) {
            let j = choose|j: int| 0 <= j < chunk(order, k).len() && changed[#[trigger] chunk(order, k)[j] as int];
            assert(chunk(order, k)[j] == order[10 * k + j]);
            assert(changed[chunk(order, k)[j] as int]);
        }
    }
}

/// The file page `k` (counting from 0) of a listing of `n` posts is
/// written to: a full page by its number and link, the page of the
/// remaining posts under the bare name.
pub open spec fn page_file(name: Seq<char>, n: nat, k: nat) -> Seq<char> {
    if 10 * (k + 1) <= n {
        index_filename(name, k + 1, page_next(n, k))
    } else {
        last_index_path(name)
    }
}

/// The file a `next` link leads to: the last page when it is 0, the
/// numbered page otherwise.
pub open spec fn next_target(name: Seq<char>, next: int) -> Seq<char> {
    if next == 0 {
        last_index_path(name)
    } else {
        numbered_index_path(name, next as nat)
    }
}

/// Law: the `next` link of a full page that is not the last one leads to
/// the file the following page is written to.
pub proof fn lemma_next_link_targets_following_page(name: Seq<char>, n: nat, k: nat)
    requires
        10 * (k + 1) <= n,
        page_next(n, k) != -1,
    ensures
        next_target(name, page_next(n, k)) == page_file(name, n, k + 1),
{
}

/// Law: the `prev` link of a page after the first leads to the file the
/// page before it is written to.
pub proof fn lemma_prev_link_targets_preceding_page(name: Seq<char>, n: nat, k: nat)
    requires
        1 <= k,
        10 * k < n,
    ensures
        numbered_index_path(name, k) == page_file(name, n, (k - 1) as nat),
{
}

/// Law: exactly one page of a listing of `n > 0` posts, its last, is
/// written under the bare name; the full pages before it are numbered.
pub proof fn lemma_only_last_page_unnumbered(n: nat, k: nat)
    requires
        10 * (k + 1) <= n,
    ensures
        (page_next(n, k) == -1) <==> (n % 10 == 0 && k == n / 10 - 1),
{
}

proof fn lemma_index_paths_differ(name: Seq<char>, a: nat, b: nat)
    ensures
        numbered_index_path(name, a) != last_index_path(name),
        a != b ==> numbered_index_path(name, a) != numbered_index_path(name, b),
{
    reveal_strlit("-");
    reveal_strlit(".html");
    lemma_decimal_len(a);
    let pre = index_dir(name) + name + "-"@;
    let suf = ".html"@;
    assert(numbered_index_path(name, a) =~= pre + decimal(a) + suf);
    assert(numbered_index_path(name, b) =~= pre + decimal(b) + suf);
    assert(numbered_index_path(name, a).len() > last_index_path(name).len());
    if a != b && numbered_index_path(name, a) == numbered_index_path(name, b) {
        let pa = pre + decimal(a) + suf;
        let pb = pre + decimal(b) + suf;
        assert(decimal(a).len() == decimal(b).len());
        assert(pa.subrange(pre.len() as int, pre.len() + decimal(a).len() as int) =~= decimal(a));
        assert(pb.subrange(pre.len() as int, pre.len() + decimal(b).len() as int) =~= decimal(b));
        lemma_decimal_injective(a, b);
    }
}

proof fn lemma_built_pages_increasing(
    order: Seq<usize>,
    changed: Seq<bool>,
    existing: Seq<bool>,
    m: nat,
)
    ensures
        forall|i: int| 0 <= i < built_pages(order, changed, existing, m).len() ==> #[trigger] built_pages(order, changed, existing, m)[i] < m,
        forall|i: int, j: int|
            0 <= i < j < built_pages(order, changed, existing, m).len() ==> built_pages(
                order,
                changed,
                existing,
                m,
            )[i] < built_pages(order, changed, existing, m)[j],
    decreases m,
{
    if m > 0 {
        let b = built_pages(order, changed, existing, (m - 1) as nat);
        lemma_built_pages_increasing(order, changed, existing, (m - 1) as nat);
        let s = built_pages(order, changed, existing, m);
        if full_page_built(order, changed, existing, (m - 1) as nat) {
            assert(s == b.push((m - 1) as nat));
            assert forall|i: int| 0 <= i < s.len() implies #[trigger] s[i] < m by {
                if i < b.len() {
                    assert(s[i] == b[i]);
                }
            }
            assert forall|i: int, j: int| 0 <= i < j < s.len() implies s[i] < s[j] by {
                assert(s[i] == b[i]);
                if j < b.len() {
                    assert(s[j] == b[j]);
                }
            }
        }
    }
}

/// Law: the pages of a layout are written to pairwise different files.
pub proof fn lemma_page_files_distinct(
    layout: IndexLayout,
    keys: Seq<Instant>,
    changed: Seq<bool>,
    existing: Seq<bool>,
    name: Seq<char>,
)
    requires
        is_layout(layout, keys, changed, existing),
    ensures
        forall|i: int, j: int|
            0 <= i < j < layout.pages@.len() ==> index_filename(
                name,
                layout.pages@[i].index as nat,
                layout.pages@[i].next as int,
            ) != index_filename(name, layout.pages@[j].index as nat, layout.pages@[j].next as int),
{
    let n = keys.len();
    let pages = layout.pages@;
    let ks = built_pages(layout.order@, changed, existing, n / 10);
    lemma_built_pages_increasing(layout.order@, changed, existing, n / 10);
    assert forall|i: int, j: int| 0 <= i < j < pages.len() implies index_filename(
        name,
        pages[i].index as nat,
        pages[i].next as int,
    ) != index_filename(name, pages[j].index as nat, pages[j].next as int) by {
        // page i is a full page
        assert(i < ks.len());
        assert(is_full_page(pages[i], keys, layout.order@, ks[i]));
        lemma_index_paths_differ(name, pages[i].index as nat, pages[j].index as nat);
        lemma_index_paths_differ(name, pages[j].index as nat, pages[i].index as nat);
        if j < ks.len() {
            assert(is_full_page(pages[j], keys, layout.order@, ks[j]));
            assert(ks[i] < ks[j]);
        } else {
            // page j is the page of the remaining posts
            assert(n % 10 != 0);
            assert(j == pages.len() - 1);
        }
    }
}

/// The positions of the sorted order that page `i` of a layout takes its
/// posts from: `[lo, hi)`.
pub open spec fn page_range(keys: Seq<Instant>, ks: Seq<nat>, i: int) -> (int, int) {
    if i < ks.len() {
        (10 * ks[i] as int, 10 * ks[i] + 10int)
    } else {
        (10 * (keys.len() / 10) as int, keys.len() as int)
    }
}

proof fn lemma_page_post_in_range(
    layout: IndexLayout,
    keys: Seq<Instant>,
    changed: Seq<bool>,
    existing: Seq<bool>,
    i: int,
    t: int,
) -> (j: int)
    requires
        is_layout(layout, keys, changed, existing),
        0 <= i < layout.pages@.len(),
        0 <= t < layout.pages@[i].posts@.len(),
    ensures
        ({
            let ks = built_pages(layout.order@, changed, existing, keys.len() / 10);
            let (lo, hi) = page_range(keys, ks, i);
            lo <= j < hi && layout.order@[j] == layout.pages@[i].posts@[t]
        }),
{
    let n = keys.len();
    let order = layout.order@;
    let ks = built_pages(order, changed, existing, n / 10);
    lemma_built_pages_increasing(order, changed, existing, n / 10);
    let p = layout.pages@[i];
    let x = p.posts@[t];
    if i < ks.len() {
        assert(is_full_page(p, keys, order, ks[i]));
        let c = chunk(order, ks[i]);
        assert(c.contains(x));
        let a = choose|a: int| 0 <= a < c.len() && c[a] == x;
        assert(c[a] == order[10 * ks[i] + a]);
        10 * ks[i] + a
    } else {
        assert(n % 10 != 0);
        assert(i == layout.pages@.len() - 1);
        assert(is_tail_page(p, keys, order));
        let c = tail_chunk(order);
        assert(c.contains(x));
        let a = choose|a: int| 0 <= a < c.len() && c[a] == x;
        assert(c[a] == order[10 * (n / 10) + a]);
        10 * (n / 10) as int + a
    }
}

/// Law: no post is laid out on two pages.
pub proof fn lemma_no_post_on_two_pages(
    layout: IndexLayout,
    keys: Seq<Instant>,
    changed: Seq<bool>,
    existing: Seq<bool>,
    i1: int,
    t1: int,
    i2: int,
    t2: int,
)
    requires
        is_layout(layout, keys, changed, existing),
        0 <= i1 < i2 < layout.pages@.len(),
        0 <= t1 < layout.pages@[i1].posts@.len(),
        0 <= t2 < layout.pages@[i2].posts@.len(),
    ensures
        layout.pages@[i1].posts@[t1] != layout.pages@[i2].posts@[t2],
{
    let n = keys.len();
    let ks = built_pages(layout.order@, changed, existing, n / 10);
    lemma_built_pages_increasing(layout.order@, changed, existing, n / 10);
    let j1 = lemma_page_post_in_range(layout, keys, changed, existing, i1, t1);
    let j2 = lemma_page_post_in_range(layout, keys, changed, existing, i2, t2);
    assert(i1 < ks.len());
    if i2 < ks.len() {
        assert(ks[i1] < ks[i2]);
    }
    assert(j1 < j2);
}

/// Law: on a full rebuild (every post marked changed) every post is laid
/// out on some page.
pub proof fn lemma_full_rebuild_lists_every_post(
    layout: IndexLayout,
    keys: Seq<Instant>,
    changed: Seq<bool>,
    existing: Seq<bool>,
    x: usize,
)
    requires
        is_layout(layout, keys, changed, existing),
        changed.len() == keys.len(),
        forall|i: int| 0 <= i < changed.len() ==> #[trigger] changed[i],
        x < keys.len(),
    ensures
        exists|i: int, t: int|
            0 <= i < layout.pages@.len() && 0 <= t < layout.pages@[i].posts@.len()
                && layout.pages@[i].posts@[t] == x,
{
    let n = keys.len();
    let order = layout.order@;
    lemma_full_rebuild_writes_every_page(order, changed, existing, n / 10);
    let ks = built_pages(order, changed, existing, n / 10);
    assert(order.contains(x));
    let j = choose|j: int| 0 <= j < order.len() && order[j] == x;
    if j < 10 * (n / 10) {
        let k = j / 10;
        assert(ks[k] == k);
        let p = layout.pages@[k];
        assert(is_full_page(p, keys, order, ks[k]));
        let c = chunk(order, k as nat);
        assert(c[j - 10 * k] == x);
        assert(c.contains(x));
        assert(p.posts@.contains(x));
        let t = choose|t: int| 0 <= t < p.posts@.len() && p.posts@[t] == x;
        assert(layout.pages@[k].posts@[t] == x);
    } else {
        assert(n % 10 != 0);
        let i = layout.pages@.len() - 1;
        let p = layout.pages@[i];
        assert(is_tail_page(p, keys, order));
        let c = tail_chunk(order);
        assert(c[j - 10 * (n / 10)] == x);
        assert(c.contains(x));
        assert(p.posts@.contains(x));
        let t = choose|t: int| 0 <= t < p.posts@.len() && p.posts@[t] == x;
        assert(layout.pages@[i].posts@[t] == x);
    }
}

// ---------------------------------------------------------------------
// Which full pages are rewritten
// ---------------------------------------------------------------------

proof fn lemma_built_pages_members(
    order: Seq<usize>,
    changed: Seq<bool>,
    existing: Seq<bool>,
    m: nat,
)
    ensures
        forall|i: int|
            0 <= i < built_pages(order, changed, existing, m).len() ==> {
                let k = #[trigger] built_pages(order, changed, existing, m)[i];
                k < m && full_page_built(order, changed, existing, k)
            },
        forall|k: nat|
            k < m && #[trigger] full_page_built(order, changed, existing, k) ==> exists|i: int|
                0 <= i < built_pages(order, changed, existing, m).len() && built_pages(
                    order,
                    changed,
                    existing,
                    m,
                )[i] == k,
    decreases m,
{
    if m > 0 {
        let b = built_pages(order, changed, existing, (m - 1) as nat);
        lemma_built_pages_members(order, changed, existing, (m - 1) as nat);
        let s = built_pages(order, changed, existing, m);
        assert forall|i: int| 0 <= i < s.len() implies {
            let k = #[trigger] s[i];
            k < m && full_page_built(order, changed, existing, k)
        } by {
            if i < b.len() {
                assert(s[i] == b[i]);
            }
        }
        assert forall|k: nat| k < m && #[trigger] full_page_built(order, changed, existing, k) implies exists|i: int|
            0 <= i < s.len() && s[i] == k by {
            if k < m - 1 {
                let i = choose|i: int| 0 <= i < b.len() && b[i] == k;
                assert(s[i] == b[i]);
            } else {
                assert(s[s.len() - 1] == k);
            }
        }
    }
}

/// Law: a full page that holds a post marked changed, or whose file is
/// missing, is among the pages written; a full page whose ten posts are
/// all unchanged and whose file exists is not. (Full page `k + 1` holds
/// the posts `order[10 k] .. order[10 k + 9]`.)
pub proof fn lemma_changed_page_written(
    layout: IndexLayout,
    keys: Seq<Instant>,
    changed: Seq<bool>,
    existing: Seq<bool>,
    k: nat,
)
    requires
        is_layout(layout, keys, changed, existing),
        k < keys.len() / 10,
    ensures
        (exists|j: int| 0 <= j < 10 && changed[#[trigger] layout.order@[10 * k + j] as int])
            ==> exists|i: int| 0 <= i < layout.pages.len() && (#[trigger] layout.pages@[i]).index == k + 1,
        (k >= existing.len() || !existing[k as int])
            ==> exists|i: int| 0 <= i < layout.pages.len() && (#[trigger] layout.pages@[i]).index == k + 1,
        (forall|j: int| 0 <= j < 10 ==> !changed[#[trigger] layout.order@[10 * k + j] as int]) && k
            < existing.len() && existing[k as int]
            ==> forall|i: int| 0 <= i < layout.pages.len() ==> (#[trigger] layout.pages@[i]).index != k + 1,
{
    let order = layout.order@;
    let n = keys.len();
    let ks = built_pages(order, changed, existing, n / 10);
    let pages = layout.pages@;
    lemma_built_pages_members(order, changed, existing, n / 10);
    assert(order.len() == n);
    assert(10 * k + 10 <= n) by (nonlinear_arith)
        requires
            k < n / 10,
    ;
    let c = chunk(order, k);
    if exists|j: int| 0 <= j < 10 && changed[#[trigger] order[10 * k + j] as int] {
        let j = choose|j: int| 0 <= j < 10 && changed[#[trigger] order[10 * k + j] as int];
        assert(c[j] == order[10 * k + j]);
        assert(has_change(changed, c));
    }
    if full_page_built(order, changed, existing, k) {
        let i = choose|i: int| 0 <= i < ks.len() && ks[i] == k;
        assert(is_full_page(pages[i], keys, order, ks[i]));
    }
    if (forall|j: int| 0 <= j < 10 ==> !changed[#[trigger] order[10 * k + j] as int]) && k < existing.len()
        && existing[k as int] {
        assert(!has_change(changed, c)) by {
            if has_change(changed, c) {
                let j = choose|j: int| 0 <= j < c.len() && changed[#[trigger] c[j] as int];
                assert(c[j] == order[10 * k + j]);
            }
        }
        assert forall|i: int| 0 <= i < pages.len() implies (#[trigger] pages[i]).index != k + 1 by {
            if i < ks.len() {
                assert(is_full_page(pages[i], keys, order, ks[i]));
            } else {
                assert(n % 10 != 0);
                assert(i == pages.len() - 1);
            }
        }
    }
}

} // verus!
