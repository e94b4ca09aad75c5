//! Podcast chapters: a canonical chapter model and the codecs that read and
//! write it as a structured chapters document, as timestamp lines in an
//! episode description, and as chapter frames of an audio tag.
pub mod description;
pub mod document;
pub mod model;
pub mod number;
pub mod tag;
pub mod text;
pub mod time;

pub use description::{from_description, to_description, TimestampType};
pub use document::{from_document, to_document, PodcastNamespaceChapter, PodcastNamespaceChapters};
pub use model::{Chapter, Image, Link, RemoteEntity, Url};
pub use tag::{chapters_from_frames, chapters_from_tag, frames_from_chapters, write_chapters};
pub use time::Duration;
