//! Khata: the logic of a small static blogging tool.
//!
//! The library reads the metadata block of a post, derives slugs and tag
//! maps, orders posts by date, lays them out on paginated index pages,
//! chooses the posts of each RSS feed and plans a rebuild of the site.
//! Reading and writing files, rendering templates and parsing the
//! configuration are left to the program around it.
pub mod text;
pub mod slug;
pub mod meta;
pub mod order;
pub mod post;
pub mod index;
pub mod feed;
pub mod site;
pub mod utils;
pub mod libkhata;
