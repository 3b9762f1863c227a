//! Helpers for new posts: slugs, the normalised title typed in, and the
//! path a new post is written to.
pub use crate::slug::{create_slug, new_post_path, normalize_input};
