# khata

The logic of a small static blogging tool, verified with Verus.

A post is a Markdown file that starts with a block of metadata lines
(`.. title:`, `.. date:`, `.. author:`, `.. slug:`, `.. tags:`) ended by a
line that starts with `-->`. The site is built into `./output`: one page per
post, paginated index pages (ten posts each, for all posts and for each
tag), and RSS feeds.

Layout:

- `src/` — the verified library.
  - `text.rs`: characters and strings (trimming, splitting, decimal numbers).
  - `slug.rs`: slugs and the normalised title of a new post.
  - `meta.rs`: the metadata block of a post.
  - `post.rs`: the configuration, posts, tags, reading a post.
  - `order.rs`: instants and the stable sort of posts by date.
  - `index.rs`: laying posts out on index pages, their links and files.
  - `feed.rs`: RSS feeds.
  - `site.rs`: planning a rebuild of the site (new and edited posts, or
    everything), and where its files go.
  - `utils.rs`, `libkhata.rs`: re-exports of the entry points, grouped as
    the program uses them.
- `app/` — the program: command line, files, templates (tera), the
  configuration file (serde_json).
- `tests/` — tests of the library.
