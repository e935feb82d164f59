//! Core of a static-site document pipeline: a document record that flows
//! through pure transforms (frontmatter parsing, permalink assignment, tag
//! indexing, wikilink resolution), together with the text utilities and
//! pipeline combinators those transforms are built from.

pub mod absolutize;
pub mod config;
pub mod doc;
pub mod docs;
pub mod error;
pub mod frontmatter;
pub mod html;
pub mod json;
pub mod markdown;
pub mod paths;
pub mod permalink;
pub mod strutil;
pub mod stub;
pub mod value;
pub mod tags;
pub mod text;
pub mod time;
pub mod token_template;
pub mod wikilink;

pub use crate::config::Config;
pub use crate::doc::Doc;
pub use crate::docs::SortKey;
pub use crate::error::Error;
pub use crate::error::ErrorKind;
pub use crate::stub::Stub;
pub use crate::time::Time;
pub use crate::value::Value;
pub use crate::wikilink::Wikilink;
