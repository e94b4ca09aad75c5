//! The structured-document codec: chapters as records of a versioned chapters
//! document (`startTime`, `endTime`, `title`, `img`, `url`, `toc`).
use vstd::prelude::*;
use vstd::string::*;

use crate::model::{
    chapters_view, opt_text, parsed_url, Chapter, ChapterView, Image, Link, LinkView, Url,
};
use crate::number::{
    format_seconds, lemma_seconds_round_trip, millis_of_text, parse_seconds, seconds_text,
};

verus! {

/// One chapter record of the document. Times are number texts of seconds,
/// as they stand in the document; URLs are unchecked strings.
#[derive(Clone, Debug, PartialEq, Eq)]
pub struct PodcastNamespaceChapter {
    /// `startTime`: the start in seconds.
    pub start_time: String,
    /// `endTime`: the end in seconds.
    pub end_time: Option<String>,
    /// `title`.
    pub title: Option<String>,
    /// `img`: the URL of the chapter art.
    pub img: Option<String>,
    /// `url`: the URL of a related web page.
    pub url: Option<String>,
    /// `toc`: whether the chapter shows in tables of contents.
    pub toc: Option<bool>,
}

/// The chapters document: a schema version and the chapter records.
#[derive(Clone, Debug, PartialEq, Eq)]
pub struct PodcastNamespaceChapters {
    pub version: String,
    pub chapters: Vec<PodcastNamespaceChapter>,
}

/// A record as plain values.
pub struct RecordView {
    pub start_time: Seq<char>,
    pub end_time: Option<Seq<char>>,
    pub title: Option<Seq<char>>,
    pub img: Option<Seq<char>>,
    pub url: Option<Seq<char>>,
    pub toc: Option<bool>,
}

impl View for PodcastNamespaceChapter {
    type V = RecordView;

    open spec fn view(&self) -> RecordView {
        RecordView {
            start_time: self.start_time@,
            end_time: opt_text(self.end_time),
            title: opt_text(self.title),
            img: opt_text(self.img),
            url: opt_text(self.url),
            toc: self.toc,
        }
    }
}

pub open spec fn records_view(rs: Seq<PodcastNamespaceChapter>) -> Seq<RecordView> {
    rs.map_values(|r: PodcastNamespaceChapter| r@)
}

/// The schema version that written documents declare.
pub open spec fn schema_version() -> Seq<char> {
    "1.2.0"@
}

/// The record of chapter `c`: times as number text, the image and link
/// URLs, and `toc: false` for a hidden chapter only.
pub open spec fn record_of(c: ChapterView) -> RecordView {
    RecordView {
        start_time: seconds_text(c.start),
        end_time: match c.end {
            Some(e) => Some(seconds_text(e)),
            None => None,
        },
        title: c.title,
        img: c.image,
        url: match c.link {
            Some(l) => Some(l.url),
            None => None,
        },
        toc: if c.hidden {
            Some(false)
        } else {
            None
        },
    }
}

/// The image of an `img` field: dropped where the URL does not parse.
pub open spec fn image_of(img: Option<Seq<char>>) -> Option<Seq<char>> {
    match img {
        Some(s) => parsed_url(s),
        None => None,
    }
}

/// The link of a `url` field: dropped where the URL does not parse.
pub open spec fn link_of(url: Option<Seq<char>>) -> Option<LinkView> {
    match url {
        Some(s) => match parsed_url(s) {
            Some(u) => Some(LinkView { url: u, title: None }),
            None => None,
        },
        None => None,
    }
}

/// The end of a record, `Some(None)` where it has none; `None` where its
/// `endTime` is not a number.
pub open spec fn end_of(end_time: Option<Seq<char>>) -> Option<Option<int>> {
    match end_time {
        None => Some(None),
        Some(t) => match millis_of_text(t) {
            Some(v) => Some(Some(v)),
            None => None,
        },
    }
}

/// The chapter of record `r`; `None` where a time is not a number.
pub open spec fn chapter_of(r: RecordView) -> Option<ChapterView> {
    match (millis_of_text(r.start_time), end_of(r.end_time)) {
        (Some(start), Some(end)) => Some(
            ChapterView {
                start,
                end,
                title: r.title,
                image: image_of(r.img),
                link: link_of(r.url),
                hidden: !match r.toc {
                    Some(b) => b,
                    None => true,
                },
                remote_entity: None,
            },
        ),
        _ => None,
    }
}

/// The chapters of records `rs`; `None` where one of them has a time that is
/// not a number.
pub open spec fn document_chapters(rs: Seq<RecordView>) -> Option<Seq<ChapterView>> {
    if forall|i: int| 0 <= i < rs.len() ==> (#[trigger] chapter_of(rs[i])) is Some {
        Some(rs.map_values(|r: RecordView| chapter_of(r).unwrap()))
    } else {
        None
    }
}

fn clone_text(o: &Option<String>) -> (r: Option<String>)
    ensures
        opt_text(r) == opt_text(*o),
{
    match o {
        Some(s) => Some(s.clone()),
        None => None,
    }
}

impl PodcastNamespaceChapter {
    /// The record of a chapter.
    pub fn from_chapter(chapter: &Chapter) -> (r: PodcastNamespaceChapter)
        ensures
            r@ == record_of(chapter@),
    {
        let end_time = match chapter.end {
            Some(e) => Some(format_seconds(e)),
            None => None,
        };
        let img = match &chapter.image {
            Some(Image::Url(u)) => Some(String::from_str(u.as_str())),
            None => None,
        };
        let url = match &chapter.link {
            Some(l) => Some(String::from_str(l.url.as_str())),
            None => None,
        };
        PodcastNamespaceChapter {
            start_time: format_seconds(chapter.start),
            end_time,
            title: clone_text(&chapter.title),
            img,
            url,
            toc: if chapter.hidden {
                Some(false)
            } else {
                None
            },
        }
    }
}

impl Chapter {
    /// The chapter of a record. Malformed URLs are dropped; a time that is
    /// not a number is an error.
    pub fn from_record(record: &PodcastNamespaceChapter) -> (r: Result<Chapter, String>)
        ensures
            match chapter_of(record@) {
                Some(v) => r matches Ok(c) && c@ == v,
                None => r is Err,
            },
    {
        let start = match parse_seconds(record.start_time.as_str()) {
            Some(d) => d,
            None => {
                return Err(String::from_str("startTime is not a number"));
            },
        };
        let end = match &record.end_time {
            Some(t) => match parse_seconds(t.as_str()) {
                Some(d) => Some(d),
                None => {
                    return Err(String::from_str("endTime is not a number"));
                },
            },
            None => None,
        };
        let image = match &record.img {
            Some(s) => match Url::parse(s.as_str()) {
                Ok(u) => Some(Image::Url(u)),
                Err(_) => None,
            },
            None => None,
        };
        let link = match &record.url {
            Some(s) => match Url::parse(s.as_str()) {
                Ok(u) => Some(Link { url: u, title: None }),
                Err(_) => None,
            },
            None => None,
        };
        let hidden = match record.toc {
            Some(b) => !b,
            None => false,
        };
        Ok(
            Chapter {
                start,
                end,
                title: clone_text(&record.title),
                image,
                link,
                hidden,
                remote_entity: None,
            },
        )
    }
}

/// Writes chapters as a chapters document of the current schema version.
pub fn to_document(chapters: &[Chapter]) -> (d: PodcastNamespaceChapters)
    ensures
        d.version@ == schema_version(),
        records_view(d.chapters@) == chapters_view(chapters@).map_values(
            |c: ChapterView| record_of(c),
        ),
{
    let mut records: Vec<PodcastNamespaceChapter> = Vec::new();
    let mut i: usize = 0;
    while i < chapters.len()
        invariant
            i <= chapters@.len(),
            records_view(records@) == chapters_view(chapters@.take(i as int)).map_values(
                |c: ChapterView| record_of(c),
            ),
        decreases chapters@.len() - i,
    {
        let r = PodcastNamespaceChapter::from_chapter(&chapters[i]);
        let ghost before = records@;
        records.push(r);
        assert(records_view(before.push(r)) =~= records_view(before).push(r@));
        assert(chapters_view(chapters@.take(i + 1)).map_values(|c: ChapterView| record_of(c))
            =~= chapters_view(chapters@.take(i as int)).map_values(|c: ChapterView| record_of(c)).push(
            record_of(chapters@[i as int]@),
        ));
        i = i + 1;
    }
    assert(chapters@.take(i as int) =~= chapters@);
    proof {
        reveal_strlit("1.2.0");
    }
    PodcastNamespaceChapters { version: String::from_str("1.2.0"), chapters: records }
}

/// Reads the chapters of a chapters document, in record order. A record
/// whose time is not a number fails the whole read.
pub fn from_document(document: &PodcastNamespaceChapters) -> (r: Result<Vec<Chapter>, String>)
    ensures
        match document_chapters(records_view(document.chapters@)) {
            Some(cs) => r matches Ok(v) && chapters_view(v@) == cs,
            None => r is Err,
        },
{
    let ghost rs = records_view(document.chapters@);
    let mut chapters: Vec<Chapter> = Vec::new();
    let mut i: usize = 0;
    while i < document.chapters.len()
        invariant
            i <= document.chapters@.len(),
            rs == records_view(document.chapters@),
            forall|j: int| 0 <= j < i ==> (#[trigger] chapter_of(rs[j])) is Some,
            chapters_view(chapters@) == rs.take(i as int).map_values(
                |r: RecordView| chapter_of(r).unwrap(),
            ),
        decreases document.chapters@.len() - i,
    {
        assert(rs[i as int] == document.chapters@[i as int]@);
        match Chapter::from_record(&document.chapters[i]) {
            Err(e) => {
                return Err(e);
            },
            Ok(c) => {
                let ghost before = chapters@;
                chapters.push(c);
                assert(chapters_view(before.push(c)) =~= chapters_view(before).push(c@));
                assert(rs.take(i + 1).map_values(|r: RecordView| chapter_of(r).unwrap())
                    =~= rs.take(i as int).map_values(|r: RecordView| chapter_of(r).unwrap()).push(
                    chapter_of(rs[i as int]).unwrap(),
                ));
            },
        }
        i = i + 1;
    }
    assert(rs.take(i as int) =~= rs);
    Ok(chapters)
}

/// Whether the document can hold chapter `c`: its URLs read back as
/// themselves, its link has no title of its own, and it refers to no remote
/// entity.
pub open spec fn fits_document(c: ChapterView) -> bool {
    &&& c.remote_entity is None
    &&& (c.image matches Some(u) ==> parsed_url(u) == Some(u))
    &&& (c.link matches Some(l) ==> l.title is None && parsed_url(l.url) == Some(l.url))
}

/// Writing chapters as a document and reading the document back gives the
/// same chapters, for chapters whose fields the document can hold.
pub proof fn lemma_document_round_trip(chapters: Seq<Chapter>)
    requires
        forall|i: int| 0 <= i < chapters.len() ==> fits_document(#[trigger] chapters[i]@),
    ensures
        document_chapters(chapters_view(chapters).map_values(|c: ChapterView| record_of(c)))
            == Some(chapters_view(chapters)),
{
    let cs = chapters_view(chapters);
    let rs = cs.map_values(|c: ChapterView| record_of(c));
    assert forall|i: int| 0 <= i < rs.len() implies #[trigger] chapter_of(rs[i]) == Some(cs[i]) by {
        assert(cs[i] == chapters[i]@);
        assert(fits_document(chapters[i]@));
        lemma_seconds_round_trip(cs[i].start);
        match cs[i].end {
            Some(e) => {
                lemma_seconds_round_trip(e);
            },
            None => {},
        }
    }
    assert(rs.map_values(|r: RecordView| chapter_of(r).unwrap()) =~= cs);
}

/// `toc` and `hidden` are each other's inverse: a record with `toc: false`
/// reads as hidden and any other as visible; a hidden chapter is written
/// with `toc: false` and a visible one without `toc`.
pub proof fn lemma_toc_polarity(r: RecordView, c: ChapterView)
    ensures
        chapter_of(r) matches Some(x) ==> x.hidden == (r.toc == Some(false)),
        record_of(c).toc == if c.hidden {
            Some(false)
        } else {
            None::<bool>
        },
{
}

} // verus!
