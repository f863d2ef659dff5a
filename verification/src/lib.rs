//! Core of a personal blog server: parsing of markdown posts with
//! key/value frontmatter, ordering and publish-state filtering of the
//! post collection, per-post view counting, and durable persistence of
//! view counts.

use vstd::prelude::*;

pub mod counter;
pub mod date;
pub mod frontmatter;
pub mod posts;
pub mod store;
pub mod text;

pub use counter::{HitRecord, ViewCounter};
pub use date::Date;
pub use posts::{Post, PostError, PostMeta};
pub use store::{PersistenceStore, StoreError};
