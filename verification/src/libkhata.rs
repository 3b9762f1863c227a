//! The site builder's entry points, gathered under one module.
pub use crate::feed::{build_feeds, feed_path, save_rss_text};
pub use crate::index::{build_index, build_post, check_index_path, create_index_files};
pub use crate::post::{read_post, try_read_post, Configuration, PageLink, Post, SerialPost};
pub use crate::site::{rebuild, Catpage};
