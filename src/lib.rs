//! A pretty-printer and minifier for HTML documents, with embedded scripts and
//! style sheets handed to dedicated JavaScript and CSS formatters.
pub mod config;
pub mod css;
pub mod files;
pub mod html;
pub mod javascript;
pub mod markup;
pub mod text;

pub use config::{Config, Css, IndentKind, JavaScript};

