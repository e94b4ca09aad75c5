//! The canonical chapter model shared by every codec.
use vstd::prelude::*;

use crate::time::Duration;

verus! {

#[verifier::external_type_specification]
#[verifier::external_body]
pub struct ExUuid(uuid::Uuid);

/// Relies on the `Clone` that `uuid::Uuid` derives (it is also `Copy`): the
/// clone is the same identifier.
pub assume_specification[ <uuid::Uuid as Clone>::clone ](u: &uuid::Uuid) -> (r: uuid::Uuid)
    ensures
        r == *u,
;

/// What `url::Url::parse` makes of a string: the serialization of the parsed
/// URL, or `None` where the string is not a valid absolute URL.
pub uninterp spec fn parsed_url(s: Seq<char>) -> Option<Seq<char>>;

/// Relies on `url::Url::parse`: it either fails or yields a URL, and which,
/// with which serialization (`String::from(Url)`), depends on the string alone.
#[verifier::external_body]
fn parse_url_text(s: &str) -> (r: Result<String, String>)
    ensures
        match r {
            Ok(t) => parsed_url(s@) == Some(t@),
            Err(_) => parsed_url(s@) is None,
        },
{
    match url::Url::parse(s) {
        Ok(u) => Ok(u.into()),
        Err(e) => Err(e.to_string()),
    }
}

/// An absolute URL, held as its normalized serialization.
#[derive(Clone, Debug, PartialEq, Eq)]
pub struct Url {
    serialization: String,
}

impl View for Url {
    type V = Seq<char>;

    closed spec fn view(&self) -> Seq<char> {
        self.serialization@
    }
}

impl Url {
    /// Parses an absolute URL; the error is the parser's message.
    pub fn parse(s: &str) -> (r: Result<Url, String>)
        ensures
            match r {
                Ok(u) => parsed_url(s@) == Some(u@),
                Err(_) => parsed_url(s@) is None,
            },
    {
        match parse_url_text(s) {
            Ok(t) => Ok(Url { serialization: t }),
            Err(e) => Err(e),
        }
    }

    /// The serialization of the URL.
    pub fn as_str(&self) -> (r: &str)
        ensures
            r@ == self@,
    {
        self.serialization.as_str()
    }
}

/// A chapter image. Only images given by URL are supported.
#[derive(Clone, Debug, PartialEq, Eq)]
pub enum Image {
    /// The URL of the image.
    Url(Url),
}

impl View for Image {
    /// The URL text of the image.
    type V = Seq<char>;

    open spec fn view(&self) -> Seq<char> {
        match self {
            Image::Url(u) => u@,
        }
    }
}

/// A web link of a chapter.
#[derive(Clone, Debug, PartialEq, Eq)]
pub struct Link {
    /// The URL of the link.
    pub url: Url,
    /// The title of the link, distinct from the chapter's title.
    pub title: Option<String>,
}

/// A link as URL text and optional title text.
pub struct LinkView {
    pub url: Seq<char>,
    pub title: Option<Seq<char>>,
}

/// The text of an optional string.
pub open spec fn opt_text(o: Option<String>) -> Option<Seq<char>> {
    match o {
        Some(s) => Some(s@),
        None => None,
    }
}

impl View for Link {
    type V = LinkView;

    open spec fn view(&self) -> LinkView {
        LinkView { url: self.url@, title: opt_text(self.title) }
    }
}

/// A remote item of the podcast namespace: a feed, or an item of a feed.
#[derive(Clone, Debug, PartialEq, Eq)]
pub enum RemoteEntity {
    /// A podcast feed, by its GUID.
    Feed { guid: uuid::Uuid },
    /// A podcast item, by the GUID of its feed and its own GUID.
    Item { feed_guid: uuid::Uuid, guid: String },
}

pub enum RemoteEntityView {
    Feed { guid: uuid::Uuid },
    Item { feed_guid: uuid::Uuid, guid: Seq<char> },
}

impl View for RemoteEntity {
    type V = RemoteEntityView;

    open spec fn view(&self) -> RemoteEntityView {
        match self {
            RemoteEntity::Feed { guid } => RemoteEntityView::Feed { guid: *guid },
            RemoteEntity::Item { feed_guid, guid } => RemoteEntityView::Item {
                feed_guid: *feed_guid,
                guid: guid@,
            },
        }
    }
}

/// A timestamped marker within an episode.
#[derive(Clone, Debug, PartialEq, Eq)]
pub struct Chapter {
    /// The start of the chapter.
    pub start: Duration,
    /// The end of the chapter.
    pub end: Option<Duration>,
    /// The title of the chapter.
    pub title: Option<String>,
    /// The chapter art.
    pub image: Option<Image>,
    /// A web page or document related to the chapter.
    pub link: Option<Link>,
    /// Whether the chapter is left out of tables of contents and jump points.
    pub hidden: bool,
    /// A remote item that the chapter refers to.
    pub remote_entity: Option<RemoteEntity>,
}

/// A chapter as plain values: offsets in milliseconds, texts as character
/// sequences.
pub struct ChapterView {
    pub start: int,
    pub end: Option<int>,
    pub title: Option<Seq<char>>,
    pub image: Option<Seq<char>>,
    pub link: Option<LinkView>,
    pub hidden: bool,
    pub remote_entity: Option<RemoteEntityView>,
}

pub open spec fn opt_ms(o: Option<Duration>) -> Option<int> {
    match o {
        Some(d) => Some(d.ms as int),
        None => None,
    }
}

pub open spec fn opt_image(o: Option<Image>) -> Option<Seq<char>> {
    match o {
        Some(i) => Some(i@),
        None => None,
    }
}

pub open spec fn opt_link(o: Option<Link>) -> Option<LinkView> {
    match o {
        Some(l) => Some(l@),
        None => None,
    }
}

pub open spec fn opt_remote(o: Option<RemoteEntity>) -> Option<RemoteEntityView> {
    match o {
        Some(r) => Some(r@),
        None => None,
    }
}

impl View for Chapter {
    type V = ChapterView;

    open spec fn view(&self) -> ChapterView {
        ChapterView {
            start: self.start.ms as int,
            end: opt_ms(self.end),
            title: opt_text(self.title),
            image: opt_image(self.image),
            link: opt_link(self.link),
            hidden: self.hidden,
            remote_entity: opt_remote(self.remote_entity),
        }
    }
}

/// The views of a sequence of chapters.
pub open spec fn chapters_view(cs: Seq<Chapter>) -> Seq<ChapterView> {
    cs.map_values(|c: Chapter| c@)
}

impl Default for Chapter {
    /// A visible chapter at the start of the episode, with nothing else set.
    fn default() -> (r: Chapter)
        ensures
            r.start.ms == 0,
            r.end is None,
            r.title is None,
            r.image is None,
            r.link is None,
            !r.hidden,
            r.remote_entity is None,
    {
        Chapter {
            start: Duration::zero(),
            end: None,
            title: None,
            image: None,
            link: None,
            hidden: false,
            remote_entity: None,
        }
    }
}

} // verus!
