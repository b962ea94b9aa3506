//! Identity derivation, sanitizing and validation of the records that the
//! pubky.app client stores on a homeserver.
pub mod encoding;
pub mod text;
pub mod ids;
pub mod error;
pub mod tag;
pub mod post;
