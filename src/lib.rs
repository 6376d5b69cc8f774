//! Text and path helpers: splitting comma-separated parameter lists,
//! escaping file names for display, and decoding `file://` URIs.

mod text;

pub mod about;
pub mod comma;
pub mod escape;
pub mod platform;
pub mod uri;

pub use about::about_comments;
pub use comma::split_at_comma;
pub use escape::escape_filename;
pub use platform::Platform;
pub use uri::decode_uri;
