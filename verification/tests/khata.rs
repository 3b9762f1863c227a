use khata::feed::{build_feeds, feed_path, save_rss_text};
use khata::index::{build_index, build_post, check_index_path, create_index_files, newest_first, paginate};
use khata::meta::read_metadata;
use khata::order::{stable_sort, Instant};
use khata::post::{insert_entry, read_post, tags_of_line, try_read_post, Configuration, PageLink, Post, SerialPost};
use khata::site::{is_stale, rebuild};
use khata::slug::{create_slug, new_post_path, normalize_input, slug_from_words};
use khata::text::{chars_of, decimal_chars, split_chars, string_from_chars, strip_trailing_hyphens, trim, trim_end};

fn conf() -> Configuration {
    Configuration {
        author: "Kushal".to_string(),
        title: "My Blog".to_string(),
        url: "https://example.org/".to_string(),
        content_footer: String::new(),
        disqus: String::new(),
        email: String::new(),
        description: String::new(),
        logo: String::new(),
        links: vec![PageLink { link: "/about".to_string(), text: "About".to_string() }],
        withamp: false,
    }
}

fn chars(s: &str) -> Vec<char> {
    s.chars().collect()
}

fn sorted_tags(mut v: Vec<(String, String)>) -> Vec<(String, String)> {
    v.sort();
    v
}

const SAMPLE: &str = ".. title: Hello World\n.. slug: hello-world\n.. date: 2020-01-31T20:15:00+05:30\n.. tags: Rust, Verus Lang\n.. link:\n.. description:\n-->\n\n# Hello\n\nSome *text*.\n";

// ------------------------------------------------------------------ text

#[test]
fn text_chars_and_strings_round_trip() {
    let v = chars_of("héllo");
    assert_eq!(v, vec!['h', 'é', 'l', 'l', 'o']);
    assert_eq!(string_from_chars(&v), "héllo");
}

#[test]
fn text_trim_removes_whitespace() {
    assert_eq!(trim(&chars("  a b \t\n")), chars("a b"));
    assert_eq!(trim_end(&chars("  a b \t\n")), chars("  a b"));
    assert_eq!(trim(&chars("   ")), Vec::<char>::new());
    assert_eq!(trim(&chars("\u{a0}x\u{3000}")), chars("x"));
}

#[test]
fn text_split_like_std() {
    let parts: Vec<String> = split_chars(&chars("a,,b,"), ',').iter().map(|p| p.iter().collect()).collect();
    assert_eq!(parts, vec!["a", "", "b", ""]);
    let parts: Vec<String> = split_chars(&chars(""), ',').iter().map(|p| p.iter().collect()).collect();
    assert_eq!(parts, vec![""]);
}

#[test]
fn text_strip_trailing_hyphens() {
    assert_eq!(strip_trailing_hyphens(&chars("a-b---")), chars("a-b"));
    assert_eq!(strip_trailing_hyphens(&chars("---")), Vec::<char>::new());
}

#[test]
fn text_decimal() {
    assert_eq!(decimal_chars(0), vec!['0']);
    assert_eq!(decimal_chars(1234), chars("1234"));
    assert_eq!(decimal_chars(u32::MAX), chars("4294967295"));
}

// ------------------------------------------------------------------ slugs

#[test]
fn slug_of_a_title() {
    assert_eq!(create_slug("Hello, World! 2020".to_string()), "hello-world-2020");
    assert_eq!(create_slug("  --Rust & Verus-- ".to_string()), "rust-verus");
    assert_eq!(create_slug("".to_string()), "");
    assert_eq!(create_slug("Café au lait".to_string()), "caf-au-lait");
}

#[test]
fn slug_of_a_slug_is_itself() {
    for s in ["Hello, World! 2020", "  --Rust & Verus-- ", "", "Café au lait", "a--b__C"] {
        let once = create_slug(s.to_string());
        assert_eq!(create_slug(once.clone()), once);
    }
}

#[test]
fn slug_of_joined_texts() {
    let a = "Hello, World";
    let b = "Rust 2020!";
    let joined = format!("{} {}", a, b);
    assert_eq!(
        create_slug(joined),
        format!("{}-{}", create_slug(a.to_string()), create_slug(b.to_string()))
    );
}

#[test]
fn slug_shape() {
    let s = create_slug("--A..b  c9__Ünï--".to_string());
    assert_eq!(s, "a-b-c9-n");
    assert!(s.chars().all(|c| c.is_ascii_lowercase() || c.is_ascii_digit() || c == '-'));
    assert!(!s.contains("--"));
    assert_eq!(create_slug("!!! ---".to_string()), "");
}

#[test]
fn slug_from_words_joins_and_lowercases() {
    let words = vec!["ABC".to_string(), "d1".to_string()];
    assert_eq!(slug_from_words(&words), "abc-d1");
    let words = vec!["a-".to_string(), "B--".to_string()];
    assert_eq!(slug_from_words(&words), "a--b");
    assert_eq!(slug_from_words(&Vec::new()), "");
}

#[test]
fn lowercase_unicode() {
    assert_eq!(normalize_input("ÀB ÉTÉ"), "àb été");
}

#[test]
fn input_is_trimmed_and_lowercased() {
    assert_eq!(normalize_input("My Title  \n"), "my title");
    assert_eq!(normalize_input("Hello World  \n"), "hello world");
    assert_eq!(normalize_input("My First Post\r\n\t"), "my first post");
    assert_eq!(normalize_input("  Keep Leading\u{3000}"), "  keep leading");
    assert_eq!(normalize_input("\n"), "");
}

#[test]
fn new_post_path_under_posts() {
    assert_eq!(new_post_path("my-title"), "./posts/my-title.md");
}

// ------------------------------------------------------------------ metadata and posts

#[test]
fn metadata_of_sample() {
    let m = read_metadata(SAMPLE).unwrap();
    assert_eq!(m.title, "Hello World");
    assert_eq!(m.slug, "hello-world");
    assert_eq!(m.date, "2020-01-31T20:15:00+05:30");
    assert_eq!(m.dates, vec!["2020-01-31T20:15:00+05:30".to_string()]);
    assert_eq!(m.author, "");
    assert_eq!(m.tagline, "Rust, Verus Lang");
}

#[test]
fn metadata_stops_at_marker() {
    let m = read_metadata(".. title: A\n--> end\n.. title: B\n.. title:").unwrap();
    assert_eq!(m.title, "A");
}

#[test]
fn metadata_refuses_short_lines() {
    assert!(read_metadata(".. title:").is_none());
    assert!(read_metadata(".. title:é rest").is_none());
    assert!(read_metadata(".. date:").is_none());
    assert!(read_metadata("-->\n.. title:").is_some());
}

#[test]
fn metadata_value_skips_one_character() {
    let m = read_metadata(".. title:X\n").unwrap();
    assert_eq!(m.title, "");
    let m = read_metadata(".. title:XY\n").unwrap();
    assert_eq!(m.title, "Y");
}

#[test]
fn metadata_blank_tags_are_uncategorized() {
    let m = read_metadata(".. tags:    \n").unwrap();
    assert_eq!(m.tagline, "Uncategorized");
}

#[test]
fn read_post_of_sample() {
    let c = conf();
    let p = read_post(SAMPLE, &c);
    assert_eq!(p.title, "Hello World");
    assert_eq!(p.slug, "hello-world");
    assert_eq!(p.sdate, "2020-01-31T20:15:00+05:30");
    assert_eq!(p.author, "Kushal");
    assert_eq!(p.date, Instant { secs: 1580481900, nanos: 0 });
    assert_eq!(p.url, "https://example.org/posts/hello-world.html");
    assert!(!p.changed);
    assert_eq!(
        sorted_tags(p.tags.clone()),
        vec![("rust".to_string(), "Rust".to_string()), ("verus-lang".to_string(), "Verus Lang".to_string())]
    );
    assert!(p.body.contains("<h1>Hello</h1>"));
    assert!(p.body.contains("<em>text</em>"));
    assert_eq!(p.hash, "8e4f249d3b64576e2e3c9d3e49d2e8a643d4621374b5630ab4d8c9394808f4a0");
}

#[test]
fn read_post_with_author_line_keeps_it() {
    let c = conf();
    let p = read_post(".. author: Someone\n-->\n", &c);
    assert_eq!(p.author, "Someone");
}

#[test]
fn read_post_with_blank_author_line_takes_configured() {
    let c = conf();
    let p = read_post(".. author: \n-->\n", &c);
    assert_eq!(p.author, "Kushal");
}

#[test]
fn read_post_marker_first_line_ends_metadata() {
    let c = conf();
    let p = read_post("-->\n.. title: Not metadata\n.. author: Nobody\n", &c);
    assert_eq!(p.title, "");
    assert_eq!(p.author, "Kushal");
    assert_eq!(p.hash.len(), 64);
}

#[test]
fn read_post_without_tags_line_has_empty_tag() {
    let c = conf();
    let p = read_post(".. title: T\n", &c);
    assert_eq!(p.tags, vec![(String::new(), String::new())]);
}

#[test]
fn read_post_blank_tags_line() {
    let c = conf();
    let p = read_post(".. tags: \n", &c);
    assert_eq!(p.tags, vec![("uncategorized".to_string(), "Uncategorized".to_string())]);
}

#[test]
fn read_post_last_date_wins() {
    let c = conf();
    let p = read_post(".. date: 2020-01-31T20:15:00+05:30\n.. date: 1970-01-01T00:00:10+00:00\n", &c);
    assert_eq!(p.date, Instant { secs: 10, nanos: 0 });
    assert_eq!(p.sdate, "1970-01-01T00:00:10+00:00");
}

#[test]
fn try_read_post_refuses_what_panics() {
    let c = conf();
    assert!(try_read_post(".. date: yesterday\n", &c).is_none());
    assert!(try_read_post(".. slug:", &c).is_none());
    assert!(try_read_post(SAMPLE, &c).is_some());
}

#[test]
fn tags_same_slug_later_wins() {
    let t = tags_of_line("Rust, rust ,Go");
    assert_eq!(
        sorted_tags(t),
        vec![("go".to_string(), "Go".to_string()), ("rust".to_string(), "rust".to_string())]
    );
}

#[test]
fn insert_entry_replaces() {
    let mut e = vec![("a".to_string(), "1".to_string())];
    insert_entry(&mut e, "b".to_string(), "2".to_string());
    insert_entry(&mut e, "a".to_string(), "3".to_string());
    assert_eq!(e, vec![("a".to_string(), "3".to_string()), ("b".to_string(), "2".to_string())]);
}

#[test]
fn markdown_body_with_extensions() {
    let c = conf();
    assert_eq!(read_post("# Hi", &c).body, "<h1>Hi</h1>\n");
    assert!(read_post("~~x~~", &c).body.contains("<del>x</del>"));
    assert!(read_post("- [x] done", &c).body.contains("checkbox"));
    assert!(read_post("|a|b|\n|-|-|\n|1|2|", &c).body.contains("<table>"));
}

#[test]
fn hash_is_lower_hex_sha256() {
    let c = conf();
    assert_eq!(read_post("abc", &c).hash, "ba7816bf8f01cfea414140de5dae2223b00361a396177a9cb410ff61f20015ad");
}

#[test]
fn date_parsing() {
    let c = conf();
    let p = read_post(".. date: 2020-01-31T20:15:00+05:30", &c);
    assert_eq!(p.date, Instant { secs: 1580481900, nanos: 0 });
    assert!(try_read_post(".. date: 2020-01-31", &c).is_none());
}

#[test]
fn serial_post_copies() {
    let c = conf();
    let p = read_post(SAMPLE, &c);
    let s = SerialPost::new(&p);
    assert_eq!(s.title, p.title);
    assert_eq!(s.tags, p.tags);
    assert_eq!(s.url, p.url);
    assert_eq!(s.changed, p.changed);
}

// ------------------------------------------------------------------ ordering

fn at(s: i64) -> Instant {
    Instant { secs: s, nanos: 0 }
}

#[test]
fn stable_sort_both_ways() {
    let keys = vec![at(3), at(1), at(2), at(1)];
    assert_eq!(stable_sort(&keys, false), vec![1, 3, 2, 0]);
    assert_eq!(stable_sort(&keys, true), vec![0, 2, 1, 3]);
    let keys = vec![Instant { secs: 5, nanos: 2 }, Instant { secs: 5, nanos: 1 }];
    assert_eq!(stable_sort(&keys, false), vec![1, 0]);
    assert_eq!(stable_sort(&Vec::new(), false), Vec::<usize>::new());
}

#[test]
fn newest_first_keeps_ties_in_order() {
    let keys = vec![at(1), at(5), at(5), at(3)];
    assert_eq!(newest_first(&keys, &vec![0, 1, 2, 3]), vec![1, 2, 3, 0]);
}

// ------------------------------------------------------------------ index pages

#[test]
fn paginate_twenty_five_changed_posts() {
    let keys: Vec<Instant> = (0..25).map(|i| at(100 - i)).collect();
    let changed = vec![true; 25];
    let layout = paginate(&keys, &changed, &vec![true, true]);
    assert_eq!(layout.order, (0..25).rev().collect::<Vec<usize>>());
    assert_eq!(layout.pages.len(), 3);
    let p = &layout.pages[0];
    assert_eq!((p.index, p.prev, p.next), (1, 0, 2));
    assert_eq!(p.posts, (15..25).collect::<Vec<usize>>());
    let p = &layout.pages[1];
    assert_eq!((p.index, p.prev, p.next), (2, 1, 0));
    assert_eq!(p.posts, (5..15).collect::<Vec<usize>>());
    let p = &layout.pages[2];
    assert_eq!((p.index, p.prev, p.next), (0, 2, -1));
    assert_eq!(p.posts, vec![0, 1, 2, 3, 4]);
}

#[test]
fn paginate_twenty_posts_last_full_page_is_last() {
    let keys: Vec<Instant> = (0..20).map(at).collect();
    let layout = paginate(&keys, &vec![false; 20], &vec![]);
    assert_eq!(layout.pages.len(), 2);
    assert_eq!((layout.pages[0].index, layout.pages[0].prev, layout.pages[0].next), (1, 0, 0));
    assert_eq!((layout.pages[1].index, layout.pages[1].prev, layout.pages[1].next), (2, 1, -1));
    assert_eq!(layout.pages[1].posts, (10..20).rev().collect::<Vec<usize>>());
}

#[test]
fn paginate_thirty_one_posts_links() {
    let keys: Vec<Instant> = (0..31).map(at).collect();
    let layout = paginate(&keys, &vec![true; 31], &vec![]);
    let links: Vec<(u32, u32, i32)> = layout.pages.iter().map(|p| (p.index, p.prev, p.next)).collect();
    assert_eq!(links, vec![(1, 0, 2), (2, 1, 3), (3, 2, 0), (0, 3, -1)]);
}

#[test]
fn paginate_quiet_rebuild_writes_only_tail() {
    let keys: Vec<Instant> = (0..25).map(at).collect();
    let layout = paginate(&keys, &vec![false; 25], &vec![true, true]);
    assert_eq!(layout.pages.len(), 1);
    assert_eq!(layout.pages[0].index, 0);
}

#[test]
fn paginate_missing_page_is_written() {
    let keys: Vec<Instant> = (0..25).map(at).collect();
    let layout = paginate(&keys, &vec![false; 25], &vec![true, false]);
    let idx: Vec<u32> = layout.pages.iter().map(|p| p.index).collect();
    assert_eq!(idx, vec![2, 0]);
    let mut changed = vec![false; 25];
    changed[3] = true;
    let layout = paginate(&keys, &changed, &vec![true, true]);
    let idx: Vec<u32> = layout.pages.iter().map(|p| p.index).collect();
    assert_eq!(idx, vec![1, 0]);
}

#[test]
fn paginate_empty() {
    let layout = paginate(&Vec::new(), &Vec::new(), &Vec::new());
    assert!(layout.pages.is_empty());
}

#[test]
fn index_paths_and_templates() {
    let r = build_index(1, 0, 2, "index");
    assert_eq!(r.filename, "./output/index-1.html");
    assert_eq!(r.template, "index.html");
    assert!(r.main && !r.previous_f && r.next_f && !r.next_last);
    let r = build_index(0, 2, -1, "rust");
    assert_eq!(r.filename, "./output/categories/rust.html");
    assert_eq!(r.template, "cat-index.html");
    assert!(!r.main && r.previous_f && !r.next_f);
    let r = build_index(3, 2, 0, "rust");
    assert_eq!(r.filename, "./output/categories/rust-3.html");
    assert!(r.next_f && r.next_last);
    assert_eq!(check_index_path("index", 12), "./output/index-12.html");
    assert_eq!(check_index_path("go", 1), "./output/categories/go-1.html");
}

#[test]
fn post_outputs() {
    let c = conf();
    let mut p = read_post(SAMPLE, &c);
    p.changed = true;
    let o = build_post(&p, "post");
    assert_eq!(o.template, "post.html");
    assert_eq!(o.filename, "./output/posts/hello-world.html");
    assert_eq!(o.data.title, "Hello World");
    assert!(!o.data.changed);
    let o = build_post(&p, "page");
    assert_eq!(o.template, "page.html");
    assert_eq!(o.filename, "./output/pages/hello-world.html");
}

fn post_at<'a>(c: &'a Configuration, title: &str, secs: i64, tags: &[(&str, &str)]) -> Post<'a> {
    Post {
        title: title.to_string(),
        slug: title.to_lowercase(),
        author: String::new(),
        body: format!("<p>{}</p>", title),
        hash: String::new(),
        date: at(secs),
        sdate: String::new(),
        tags: tags.iter().map(|(k, v)| (k.to_string(), v.to_string())).collect(),
        changed: false,
        url: format!("https://example.org/posts/{}.html", title.to_lowercase()),
        conf: c,
    }
}

#[test]
fn create_index_files_of_listing() {
    let c = conf();
    let posts: Vec<Post> = (0..12).map(|i| post_at(&c, &format!("P{}", i), i as i64, &[])).collect();
    let listing: Vec<usize> = (0..12).rev().collect();
    let files = create_index_files(&posts, &listing, "index", &vec![true]);
    // all unchanged, page 1 exists: only the remaining posts' page
    assert_eq!(files.layout.pages.len(), 1);
    assert_eq!(files.renders[0].filename, "./output/index.html");
    // listing positions 0 and 1 hold the newest posts 11 and 10
    assert_eq!(files.layout.pages[0].posts, vec![0, 1]);
}

// ------------------------------------------------------------------ feeds

#[test]
fn feed_paths_and_file_text() {
    assert_eq!(feed_path("cmain"), "./output/rss.xml");
    assert_eq!(feed_path("rust"), "./output/categories/rust.xml");
    assert_eq!(save_rss_text("<rss/>"), "<?xml version=\"1.0\" encoding=\"UTF-8\"?><rss/>\n");
}


#[test]
fn feed_of_posts() {
    let c = conf();
    let mut posts = vec![post_at(&c, "A", 1, &[]), post_at(&c, "B", 2, &[])];
    posts[1].changed = true;
    let f = build_feeds(&posts, &vec![1, 0], "cmain", &c).expect("clock in range");
    assert_eq!(f.path, "./output/rss.xml");
    assert_eq!(f.channel.title, "My Blog");
    assert_eq!(f.channel.link, "https://example.org/");
    assert_eq!(f.channel.description, "My Blog");
    let titles: Vec<&str> = f.channel.items.iter().map(|i| i.title.as_str()).collect();
    assert_eq!(titles, vec!["B", "A"]);
    let now = chrono::DateTime::from_timestamp(f.generated_at.secs, f.generated_at.nanos).unwrap();
    assert_eq!(f.channel.items[0].pub_date, now.to_rfc2822());
    let own = chrono::DateTime::from_timestamp(1, 0).unwrap().with_timezone(&chrono::Local).to_rfc2822();
    assert_eq!(f.channel.items[1].pub_date, own);
    assert!(f.contents.starts_with("<?xml version=\"1.0\" encoding=\"UTF-8\"?>"));
    assert!(f.contents.contains("<channel><title>My Blog</title><link>https://example.org/</link><description>My Blog</description>"));
    assert!(f.contents.contains("<item><title>B</title><link>https://example.org/posts/b.html</link><description><![CDATA[<p>B</p>]]></description>"));
    assert!(f.contents.ends_with("</rss>\n"));
}

// ------------------------------------------------------------------ rebuild

#[test]
fn rebuild_everything() {
    let c = conf();
    let mut posts: Vec<Post> = (0..12)
        .map(|i| {
            let tags: &[(&str, &str)] = if i % 2 == 0 { &[("rust", "Rust")] } else { &[("go", "Go"), ("rust", "rust")] };
            post_at(&c, &format!("P{}", i), i as i64, tags)
        })
        .collect();
    let stale = vec![false; 12];
    let plan = rebuild(&mut posts, true, &stale);
    assert_eq!(plan.build_posts, (0..12).collect::<Vec<usize>>());
    assert!(posts.iter().all(|p| p.changed));
    assert_eq!(
        sorted_tags(plan.categories.clone()),
        vec![("go".to_string(), "Go".to_string()), ("rust".to_string(), "rust".to_string())]
    );
    assert_eq!(plan.jobs.len(), 2);
    for job in &plan.jobs {
        if job.slug == "rust" {
            assert_eq!(job.listing, (0..12).rev().collect::<Vec<usize>>());
            assert_eq!(job.feed, (2..12).rev().collect::<Vec<usize>>());
        } else {
            assert_eq!(job.slug, "go");
            assert_eq!(job.listing, vec![11, 9, 7, 5, 3, 1]);
            assert_eq!(job.feed, job.listing);
        }
    }
    assert_eq!(plan.index_listing, (0..12).collect::<Vec<usize>>());
    assert_eq!(plan.main_feed, Some((2..12).rev().collect::<Vec<usize>>()));
}

#[test]
fn rebuild_quietly() {
    let c = conf();
    let mut posts = vec![post_at(&c, "A", 1, &[("rust", "Rust")])];
    let plan = rebuild(&mut posts, false, &vec![false]);
    assert!(plan.build_posts.is_empty());
    assert!(!posts[0].changed);
    assert!(plan.jobs.is_empty());
    assert_eq!(plan.main_feed, None);
    assert_eq!(plan.categories, vec![("rust".to_string(), "Rust".to_string())]);
}

#[test]
fn rebuild_builds_stale_posts_in_a_plain_run() {
    let c = conf();
    let mut posts = vec![
        post_at(&c, "A", 1, &[("rust", "Rust")]),
        post_at(&c, "B", 2, &[("go", "Go")]),
        post_at(&c, "C", 3, &[("rust", "Rust")]),
    ];
    let plan = rebuild(&mut posts, false, &vec![false, true, false]);
    assert_eq!(plan.build_posts, vec![1]);
    assert!(!posts[0].changed);
    assert!(posts[1].changed);
    assert!(!posts[2].changed);
    assert_eq!(plan.jobs.len(), 1);
    assert_eq!(plan.jobs[0].slug, "go");
    assert_eq!(plan.jobs[0].listing, vec![1]);
    assert_eq!(plan.main_feed, Some(vec![2, 1, 0]));
    assert_eq!(plan.index_listing, vec![0, 1, 2]);
}

#[test]
fn rebuild_nothing_to_rebuild() {
    let mut posts: Vec<Post> = Vec::new();
    let plan = rebuild(&mut posts, true, &Vec::new());
    assert_eq!(plan.main_feed, None);
    assert!(plan.jobs.is_empty());
}

#[test]
fn compatibility_paths() {
    assert_eq!(khata::utils::create_slug("A b".to_string()), "a-b");
    let c = conf();
    let p = khata::libkhata::read_post(SAMPLE, &c);
    assert_eq!(p.slug, "hello-world");
}


#[test]
fn layout_files_distinct_and_every_post_once() {
    let keys: Vec<Instant> = (0..31).map(|i| at((i * 7) % 13)).collect();
    let layout = paginate(&keys, &vec![true; 31], &vec![true, true, true]);
    let mut names: Vec<String> = layout
        .pages
        .iter()
        .map(|p| build_index(p.index, p.prev, p.next, "index").filename)
        .collect();
    names.sort();
    names.dedup();
    assert_eq!(names.len(), layout.pages.len());
    let mut seen: Vec<usize> = layout.pages.iter().flat_map(|p| p.posts.clone()).collect();
    seen.sort();
    assert_eq!(seen, (0..31).collect::<Vec<usize>>());
    // the pages run oldest first, each page newest first
    for p in &layout.pages {
        for w in p.posts.windows(2) {
            assert!(keys[w[0]].secs > keys[w[1]].secs || (keys[w[0]] == keys[w[1]] && w[0] < w[1]));
        }
    }
}

#[test]
fn category_files_stay_inside_output() {
    let slug = create_slug("../../etc/passwd".to_string());
    assert_eq!(slug, "etc-passwd");
    assert_eq!(feed_path(&slug), "./output/categories/etc-passwd.xml");
    assert_eq!(check_index_path(&slug, 2), "./output/categories/etc-passwd-2.html");
}

#[test]
fn staleness_of_built_pages() {
    assert!(is_stale(None, Some(at(5))));
    assert!(is_stale(Some(at(5)), None));
    assert!(is_stale(Some(at(4)), Some(at(5))));
    assert!(!is_stale(Some(at(5)), Some(at(5))));
    assert!(!is_stale(Some(at(6)), Some(at(5))));
    assert!(is_stale(Some(Instant { secs: 5, nanos: 1 }), Some(Instant { secs: 5, nanos: 2 })));
}

#[test]
fn feed_of_unchanged_posts_dates_each_by_its_own_instant() {
    let c = conf();
    let posts = vec![post_at(&c, "A", 1, &[]), post_at(&c, "B", 2, &[])];
    let f = build_feeds(&posts, &vec![0, 1], "rust", &c).expect("no clock date needed");
    assert_eq!(f.path, "./output/categories/rust.xml");
    for (item, secs) in f.channel.items.iter().zip([1i64, 2]) {
        let own = chrono::DateTime::from_timestamp(secs, 0).unwrap().with_timezone(&chrono::Local).to_rfc2822();
        assert_eq!(item.pub_date, own);
    }
}

#[test]
fn text_after_the_end_marker_is_not_metadata() {
    let c = conf();
    let head = ".. title: T\n.. slug: t\n.. tags: Rust, Go\n.. date: 2020-01-31T20:15:00+05:30\n-->\n";
    let p1 = read_post(head, &c);
    let p2 = read_post(&format!("{}.. title: Other\n.. author: X\nBody", head), &c);
    assert_eq!(p1.title, p2.title);
    assert_eq!(p1.slug, p2.slug);
    assert_eq!(p1.sdate, p2.sdate);
    assert_eq!(p1.date, p2.date);
    assert_eq!(p1.author, p2.author);
    assert_eq!(p1.url, p2.url);
    assert_eq!(sorted_tags(p1.tags.clone()), sorted_tags(p2.tags.clone()));
}
