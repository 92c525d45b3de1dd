//! Turns an HTML document into one self-contained HTML text: local scripts
//! and stylesheets are inlined, `@import` chains expanded with their
//! `url(...)` references moved to stay valid, and fonts optionally embedded
//! as base64 data. Files come from a [`store::FileStore`] that the caller
//! fills with what each read gave.

pub mod css;
pub mod document;
pub mod error;
pub mod fonts;
pub mod html;
pub mod output;
pub mod paths;
pub mod store;
pub mod text;

pub use css::inline_css;
pub use error::{Config, FilePathError};
pub use html::inline_html_string;
