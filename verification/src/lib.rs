//! Parsing of free-form Western-style person names into structured fields:
//! title, first, middle, last, suffix, and parenthesized nicknames.

pub mod classify;
pub mod laws;
pub mod nick;
pub mod person;
pub mod text;

pub use person::PersonName;

pub use nick::extract_nicknames;
pub use nick::find_nickname_start_end;

pub use classify::is_initial;
pub use classify::is_prefix;
pub use classify::is_suffix;
pub use classify::is_title;
