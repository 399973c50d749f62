//! Flashcard deck conversion: record text form, streaming JSON-array and
//! list-markup readers, a two-phase staging buffer, and the request and
//! response shapes of the remote deck service.

pub mod text;
pub mod card;
pub mod error;
pub mod commit;
pub mod json;
pub mod export;
pub mod markdown;
pub mod request;
pub mod response;
pub mod file;
