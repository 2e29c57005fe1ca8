//! Title rewriting for RSS feeds.
//!
//! An ordered set of pattern rules rewrites the titles of the items of a
//! feed; every other part of the document passes through unchanged.

pub mod config;
pub mod pattern;
pub mod rewriter;
pub mod rules;
pub mod template;
pub mod text;
pub mod xml;

pub use config::{AppConfig, ConversionConfig, LoggingConfig, RssConfig, ServerConfig};
pub use rewriter::{rewrite_events, rewrite_feed, ParseError, ParseScope};
pub use rules::{TitleConverter, TitleRule};
pub use template::expand_template;
pub use xml::{EventKind, XmlEvent};
