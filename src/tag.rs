//! The binary-tag codec: chapters as chapter frames of an audio file's tag,
//! with their title and link sub-frames.
use vstd::prelude::*;
use vstd::string::*;

use crate::model::{chapters_view, parsed_url, Chapter, ChapterView, Link, LinkView, Url};
use crate::number::lemma_decimal;
use crate::text::{chars_of, decimal, push_decimal, trim, trim_bounds};
use crate::time::Duration;
use id3::TagLike;

verus! {

#[verifier::external_type_specification]
#[verifier::external_body]
pub struct ExTag(id3::Tag);

#[verifier::external_type_specification]
#[verifier::external_body]
pub struct ExContent(id3::Content);

/// What a frame inside a chapter frame holds.
#[derive(Debug, PartialEq, Eq)]
pub enum FrameContent {
    /// A text frame.
    Text(String),
    /// A web link frame.
    Link(String),
    /// A user-defined web link frame: a link and its description.
    ExtendedLink { link: String, description: String },
    /// A frame of any other kind, which chapters do not read.
    Other(id3::Content),
}

/// A frame inside a chapter frame: its four-character id and its content.
#[derive(Debug, PartialEq, Eq)]
pub struct SubFrame {
    pub id: String,
    pub content: FrameContent,
}

/// A chapter frame: its element id, start and end in milliseconds, start and
/// end byte offsets, and its sub-frames.
#[derive(Debug, PartialEq, Eq)]
pub struct ChapterFrame {
    pub element_id: String,
    pub start_time: u32,
    pub end_time: u32,
    pub start_offset: u32,
    pub end_offset: u32,
    pub frames: Vec<SubFrame>,
}

pub enum FrameContentView {
    Text(Seq<char>),
    Link(Seq<char>),
    ExtendedLink(Seq<char>, Seq<char>),
    Other,
}

pub struct SubFrameView {
    pub id: Seq<char>,
    pub content: FrameContentView,
}

pub struct ChapterFrameView {
    pub element_id: Seq<char>,
    pub start_time: int,
    pub end_time: int,
    pub start_offset: int,
    pub end_offset: int,
    pub frames: Seq<SubFrameView>,
}

impl View for FrameContent {
    type V = FrameContentView;

    open spec fn view(&self) -> FrameContentView {
        match self {
            FrameContent::Text(t) => FrameContentView::Text(t@),
            FrameContent::Link(u) => FrameContentView::Link(u@),
            FrameContent::ExtendedLink { link, description } => FrameContentView::ExtendedLink(
                link@,
                description@,
            ),
            FrameContent::Other(_) => FrameContentView::Other,
        }
    }
}

impl View for SubFrame {
    type V = SubFrameView;

    open spec fn view(&self) -> SubFrameView {
        SubFrameView { id: self.id@, content: self.content@ }
    }
}

impl View for ChapterFrame {
    type V = ChapterFrameView;

    open spec fn view(&self) -> ChapterFrameView {
        ChapterFrameView {
            element_id: self.element_id@,
            start_time: self.start_time as int,
            end_time: self.end_time as int,
            start_offset: self.start_offset as int,
            end_offset: self.end_offset as int,
            frames: self.frames@.map_values(|f: SubFrame| f@),
        }
    }
}

pub open spec fn frames_view(fs: Seq<ChapterFrame>) -> Seq<ChapterFrameView> {
    fs.map_values(|f: ChapterFrame| f@)
}

/// Whether every link sub-frame holds a URL that parses.
pub open spec fn links_parse(fs: Seq<SubFrameView>) -> bool {
    forall|i: int|
        0 <= i < fs.len() ==> match (#[trigger] fs[i]).content {
            FrameContentView::Link(u) => parsed_url(u) is Some,
            FrameContentView::ExtendedLink(l, _) => parsed_url(l) is Some,
            _ => true,
        }
}

/// The title of sub-frames `fs`: the text of the last text frame.
pub open spec fn last_title(fs: Seq<SubFrameView>) -> Option<Seq<char>>
    decreases fs.len(),
{
    if fs.len() == 0 {
        None
    } else {
        match fs.last().content {
            FrameContentView::Text(t) => Some(t),
            _ => last_title(fs.drop_last()),
        }
    }
}

/// The link of sub-frames `fs`: from the last link frame, titled by its
/// trimmed description where that is not empty.
pub open spec fn last_link(fs: Seq<SubFrameView>) -> Option<LinkView>
    decreases fs.len(),
{
    if fs.len() == 0 {
        None
    } else {
        match fs.last().content {
            FrameContentView::Link(u) => Some(LinkView { url: parsed_url(u).unwrap(), title: None }),
            FrameContentView::ExtendedLink(l, d) => Some(
                LinkView {
                    url: parsed_url(l).unwrap(),
                    title: if trim(d).len() == 0 {
                        None
                    } else {
                        Some(trim(d))
                    },
                },
            ),
            _ => last_link(fs.drop_last()),
        }
    }
}

/// The chapter of a chapter frame: an end equal to the start marks an
/// instant and is dropped.
pub open spec fn frame_chapter(f: ChapterFrameView) -> ChapterView {
    ChapterView {
        start: f.start_time,
        end: if f.end_time == f.start_time {
            None
        } else {
            Some(f.end_time)
        },
        title: last_title(f.frames),
        image: None,
        link: last_link(f.frames),
        hidden: false,
        remote_entity: None,
    }
}

/// Inserts `c` into `s` after every chapter that starts no later.
pub open spec fn insert_by_start(s: Seq<ChapterView>, c: ChapterView) -> Seq<ChapterView>
    decreases s.len(),
{
    if s.len() == 0 {
        seq![c]
    } else if s.last().start <= c.start {
        s.push(c)
    } else {
        insert_by_start(s.drop_last(), c).push(s.last())
    }
}

/// `cs` sorted by start; chapters with equal starts keep their order.
pub open spec fn sort_by_start(cs: Seq<ChapterView>) -> Seq<ChapterView>
    decreases cs.len(),
{
    if cs.len() == 0 {
        cs
    } else {
        insert_by_start(sort_by_start(cs.drop_last()), cs.last())
    }
}

pub open spec fn sorted_by_start(cs: Seq<ChapterView>) -> bool {
    forall|i: int, j: int| 0 <= i < j < cs.len() ==> cs[i].start <= cs[j].start
}

/// The chapters of chapter frames `fs`, sorted by start; `None` where a link
/// sub-frame holds a URL that does not parse.
pub open spec fn tag_chapters(fs: Seq<ChapterFrameView>) -> Option<Seq<ChapterView>> {
    if forall|i: int| 0 <= i < fs.len() ==> links_parse(#[trigger] fs[i].frames) {
        Some(sort_by_start(fs.map_values(|f: ChapterFrameView| frame_chapter(f))))
    } else {
        None
    }
}

/// `s` without leading and trailing white space.
fn trimmed(s: &str) -> (r: String)
    ensures
        r@ == trim(s@),
{
    let chars = chars_of(s);
    let (a, b) = trim_bounds(&chars, 0, chars.len());
    assert(chars@.subrange(0, chars@.len() as int) =~= chars@);
    String::from_str(s.substring_char(a, b))
}

/// Reads one chapter frame: the last text frame gives the title, the last
/// link frame the link. A link frame whose URL does not parse is an error.
pub fn chapter_from_frame(frame: &ChapterFrame) -> (r: Result<Chapter, String>)
    ensures
        links_parse(frame@.frames) ==> (r matches Ok(c) && c@ == frame_chapter(frame@)),
        !links_parse(frame@.frames) ==> r is Err,
{
    let ghost fs = frame@.frames;
    let mut title: Option<String> = None;
    let mut link: Option<Link> = None;
    let mut k: usize = 0;
    while k < frame.frames.len()
        invariant
            k <= frame.frames@.len(),
            fs == frame@.frames,
            fs == frame.frames@.map_values(|f: SubFrame| f@),
            crate::model::opt_text(title) == last_title(fs.take(k as int)),
            crate::model::opt_link(link) == last_link(fs.take(k as int)),
            links_parse(fs.take(k as int)),
        decreases frame.frames@.len() - k,
    {
        let ghost before = fs.take(k as int);
        assert(fs.take(k + 1).drop_last() =~= before);
        assert(fs.take(k + 1).last() == frame.frames@[k as int]@);
        match &frame.frames[k].content {
            FrameContent::Text(t) => {
                title = Some(t.clone());
            },
            FrameContent::Link(u) => {
                match Url::parse(u.as_str()) {
                    Ok(url) => {
                        link = Some(Link { url, title: None });
                    },
                    Err(e) => {
                        assert(!links_parse(fs)) by {
                            assert(fs[k as int] == frame.frames@[k as int]@);
                        }
                        return Err(e);
                    },
                }
            },
            FrameContent::ExtendedLink { link: l, description } => {
                match Url::parse(l.as_str()) {
                    Ok(url) => {
                        let d = trimmed(description.as_str());
                        let link_title = if d.as_str().unicode_len() == 0 {
                            None
                        } else {
                            Some(d)
                        };
                        link = Some(Link { url, title: link_title });
                    },
                    Err(e) => {
                        assert(!links_parse(fs)) by {
                            assert(fs[k as int] == frame.frames@[k as int]@);
                        }
                        return Err(e);
                    },
                }
            },
            FrameContent::Other(_) => {},
        }
        k = k + 1;
        assert(links_parse(fs.take(k as int))) by {
            assert forall|i: int| 0 <= i < k implies match (#[trigger] fs.take(k as int)[i]).content {
                FrameContentView::Link(u) => parsed_url(u) is Some,
                FrameContentView::ExtendedLink(l, _) => parsed_url(l) is Some,
                _ => true,
            } by {
                if i < k - 1 {
                    assert(fs.take(k as int)[i] == before[i]);
                }
            }
        }
    }
    assert(fs.take(k as int) =~= fs);
    let start = Duration::milliseconds(frame.start_time as i64);
    let end = if frame.end_time == frame.start_time {
        None
    } else {
        Some(Duration::milliseconds(frame.end_time as i64))
    };
    Ok(
        Chapter {
            start,
            end,
            title,
            image: None,
            link,
            hidden: false,
            remote_entity: None,
        },
    )
}

/// Inserting at the first position after which every chapter starts later
/// is `insert_by_start`.
proof fn lemma_insert_at(s: Seq<ChapterView>, c: ChapterView, j: int)
    requires
        0 <= j <= s.len(),
        forall|k: int| j <= k < s.len() ==> s[k].start > c.start,
        j > 0 ==> s[j - 1].start <= c.start,
    ensures
        insert_by_start(s, c) == s.insert(j, c),
    decreases s.len(),
{
    if s.len() == 0 {
        assert(s.insert(j, c) =~= seq![c]);
    } else if s.last().start <= c.start {
        assert(j == s.len());
        assert(s.insert(j, c) =~= s.push(c));
    } else {
        lemma_insert_at(s.drop_last(), c, j);
        assert(s.drop_last().insert(j, c).push(s.last()) =~= s.insert(j, c));
    }
}

/// Inserts `c` into `v` after every chapter that starts no later.
fn insert_chapter(v: &mut Vec<Chapter>, c: Chapter)
    ensures
        chapters_view(final(v)@) == insert_by_start(chapters_view(old(v)@), c@),
{
    let ghost s = chapters_view(v@);
    let mut j: usize = v.len();
    while j > 0 && v[j - 1].start.ms > c.start.ms
        invariant
            j <= v@.len(),
            s == chapters_view(v@),
            forall|k: int| j <= k < s.len() ==> s[k].start > c@.start,
        decreases j,
    {
        assert(s[j - 1] == v@[j - 1]@);
        j = j - 1;
    }
    proof {
        if j > 0 {
            assert(s[j - 1] == v@[j - 1]@);
        }
        lemma_insert_at(s, c@, j as int);
    }
    let ghost before = v@;
    v.insert(j, c);
    assert(chapters_view(before.insert(j as int, c)) =~= s.insert(j as int, c@));
}

/// Reads the chapters of chapter frames, sorted by start (chapters with
/// equal starts keep the frames' order). A link sub-frame whose URL does not
/// parse fails the whole read.
pub fn chapters_from_frames(frames: &[ChapterFrame]) -> (r: Result<Vec<Chapter>, String>)
    ensures
        match tag_chapters(frames_view(frames@)) {
            Some(cs) => r matches Ok(v) && chapters_view(v@) == cs,
            None => r is Err,
        },
        r matches Ok(v) ==> sorted_by_start(chapters_view(v@)),
{
    let ghost fs = frames_view(frames@);
    let ghost ms = fs.map_values(|f: ChapterFrameView| frame_chapter(f));
    let mut chapters: Vec<Chapter> = Vec::new();
    let mut i: usize = 0;
    while i < frames.len()
        invariant
            i <= frames@.len(),
            fs == frames_view(frames@),
            ms == fs.map_values(|f: ChapterFrameView| frame_chapter(f)),
            forall|j: int| 0 <= j < i ==> links_parse(#[trigger] fs[j].frames),
            chapters_view(chapters@) == sort_by_start(ms.take(i as int)),
        decreases frames@.len() - i,
    {
        assert(fs[i as int] == frames@[i as int]@);
        match chapter_from_frame(&frames[i]) {
            Err(e) => {
                return Err(e);
            },
            Ok(c) => {
                insert_chapter(&mut chapters, c);
                assert(ms.take(i + 1).drop_last() =~= ms.take(i as int));
                assert(ms.take(i + 1).last() == c@);
            },
        }
        i = i + 1;
    }
    assert(ms.take(i as int) =~= ms);
    proof {
        lemma_sort_sorted(ms);
    }
    Ok(chapters)
}

proof fn lemma_insert_sorted(s: Seq<ChapterView>, c: ChapterView)
    requires
        sorted_by_start(s),
    ensures
        sorted_by_start(insert_by_start(s, c)),
        insert_by_start(s, c).len() == s.len() + 1,
        forall|k: int|
            0 <= k < insert_by_start(s, c).len() ==> (#[trigger] insert_by_start(s, c)[k] == c
                || s.contains(insert_by_start(s, c)[k])),
    decreases s.len(),
{
    if s.len() > 0 && s.last().start > c.start {
        let t = s.drop_last();
        assert(sorted_by_start(t));
        lemma_insert_sorted(t, c);
        let u = insert_by_start(t, c);
        assert forall|k: int| 0 <= k < u.len() implies (#[trigger] u[k]).start <= s.last().start by {
            if u[k] != c {
                let w = choose|w: int| 0 <= w < t.len() && t[w] == u[k];
                assert(s[w] == t[w]);
            }
        }
        assert forall|k: int| 0 <= k < u.len() && u[k] != c implies s.contains(#[trigger] u[k]) by {
            let w = choose|w: int| 0 <= w < t.len() && t[w] == u[k];
            assert(s[w] == t[w]);
        }
        assert(u.push(s.last())[u.len() as int] == s[s.len() - 1]);
    }
}

/// Sorting by start leaves the chapters in ascending order of start.
pub proof fn lemma_sort_sorted(cs: Seq<ChapterView>)
    ensures
        sorted_by_start(sort_by_start(cs)),
        sort_by_start(cs).len() == cs.len(),
    decreases cs.len(),
{
    if cs.len() > 0 {
        lemma_sort_sorted(cs.drop_last());
        lemma_insert_sorted(sort_by_start(cs.drop_last()), cs.last());
    }
}

/// `v` clamped to the range of `u32`, the range of a frame's offsets.
pub open spec fn clamp_u32(v: int) -> int {
    if v < 0 {
        0
    } else if v > u32::MAX {
        u32::MAX as int
    } else {
        v
    }
}

/// The element id of the chapter at index `i`: `chp` and its 1-based number.
pub open spec fn element_id(i: int) -> Seq<char> {
    seq!['c', 'h', 'p'] + decimal((i + 1) as nat)
}

/// The title sub-frame of a chapter, if it has a title.
pub open spec fn title_frames(c: ChapterView) -> Seq<SubFrameView> {
    match c.title {
        Some(t) => seq![SubFrameView { id: seq!['T', 'I', 'T', '2'], content: FrameContentView::Text(t) }],
        None => Seq::empty(),
    }
}

/// The link sub-frame of a chapter, if it has a link: a user-defined link
/// frame described by the link's title, or by nothing.
pub open spec fn link_frames(c: ChapterView) -> Seq<SubFrameView> {
    match c.link {
        Some(l) => seq![
            SubFrameView {
                id: seq!['W', 'X', 'X', 'X'],
                content: FrameContentView::ExtendedLink(
                    l.url,
                    match l.title {
                        Some(t) => t,
                        None => Seq::empty(),
                    },
                ),
            },
        ],
        None => Seq::empty(),
    }
}

/// The chapter frame of chapter `c` at index `i`: an absent end is written
/// as the start, so that it reads back as absent; no byte offsets are given.
pub open spec fn chapter_frame(c: ChapterView, i: int) -> ChapterFrameView {
    ChapterFrameView {
        element_id: element_id(i),
        start_time: clamp_u32(c.start),
        end_time: clamp_u32(
            match c.end {
                Some(e) => e,
                None => c.start,
            },
        ),
        start_offset: 0,
        end_offset: 0,
        frames: title_frames(c) + link_frames(c),
    }
}

/// The chapter frames of chapters `cs`, in their order.
pub open spec fn chapter_frames(cs: Seq<ChapterView>) -> Seq<ChapterFrameView> {
    Seq::new(cs.len(), |i: int| chapter_frame(cs[i], i))
}

fn clamp_to_u32(d: Duration) -> (r: u32)
    ensures
        r == clamp_u32(d.ms as int),
{
    if d.ms < 0 {
        0
    } else if d.ms > u32::MAX as i64 {
        u32::MAX
    } else {
        d.ms as u32
    }
}

/// The chapter frame of a chapter at index `index`.
pub fn frame_from_chapter(chapter: &Chapter, index: usize) -> (r: ChapterFrame)
    requires
        index < usize::MAX,
    ensures
        r@ == chapter_frame(chapter@, index as int),
{
    proof {
        reveal_strlit("chp");
        reveal_strlit("TIT2");
        reveal_strlit("WXXX");
        assert("chp"@ =~= seq!['c', 'h', 'p']);
        assert("TIT2"@ =~= seq!['T', 'I', 'T', '2']);
        assert("WXXX"@ =~= seq!['W', 'X', 'X', 'X']);
    }
    let mut element_id = String::from_str("chp");
    push_decimal(&mut element_id, (index + 1) as u64);
    let end = match chapter.end {
        Some(e) => e,
        None => chapter.start,
    };
    let mut frames: Vec<SubFrame> = Vec::new();
    match &chapter.title {
        Some(t) => {
            let f = SubFrame { id: String::from_str("TIT2"), content: FrameContent::Text(t.clone()) };
            assert(f@ == SubFrameView { id: seq!['T', 'I', 'T', '2'], content: FrameContentView::Text(t@) });
            frames.push(f);
        },
        None => {},
    }
    assert(frames@.map_values(|f: SubFrame| f@) =~= title_frames(chapter@));
    let ghost titled = frames@;
    match &chapter.link {
        Some(l) => {
            let description = match &l.title {
                Some(t) => t.clone(),
                None => String::new(),
            };
            let f = SubFrame {
                id: String::from_str("WXXX"),
                content: FrameContent::ExtendedLink {
                    link: String::from_str(l.url.as_str()),
                    description,
                },
            };
            assert(link_frames(chapter@) == seq![f@]);
            frames.push(f);
            assert(frames@.map_values(|f: SubFrame| f@) =~= titled.map_values(|f: SubFrame| f@)
                + link_frames(chapter@));
        },
        None => {
            assert(frames@.map_values(|f: SubFrame| f@) =~= titled.map_values(|f: SubFrame| f@)
                + link_frames(chapter@));
        },
    }
    let r = ChapterFrame {
        element_id,
        start_time: clamp_to_u32(chapter.start),
        end_time: clamp_to_u32(end),
        start_offset: 0,
        end_offset: 0,
        frames,
    };
    assert(r@.frames =~= title_frames(chapter@) + link_frames(chapter@));
    r
}

/// The chapter frames of chapters, in their order (not re-sorted), with
/// element ids `chp1`, `chp2`, ...
pub fn frames_from_chapters(chapters: &[Chapter]) -> (r: Vec<ChapterFrame>)
    ensures
        frames_view(r@) == chapter_frames(chapters_view(chapters@)),
{
    let ghost cs = chapters_view(chapters@);
    let mut frames: Vec<ChapterFrame> = Vec::new();
    let mut i: usize = 0;
    while i < chapters.len()
        invariant
            i <= chapters@.len(),
            cs == chapters_view(chapters@),
            frames_view(frames@) == chapter_frames(cs.take(i as int)),
        decreases chapters@.len() - i,
    {
        let f = frame_from_chapter(&chapters[i], i);
        let ghost before = frames@;
        frames.push(f);
        assert(frames_view(before.push(f)) =~= frames_view(before).push(f@));
        assert(chapter_frames(cs.take(i + 1)) =~= chapter_frames(cs.take(i as int)).push(
            chapter_frame(cs[i as int], i as int),
        ));
        i = i + 1;
    }
    assert(cs.take(i as int) =~= cs);
    frames
}

proof fn lemma_insert_multiset(s: Seq<ChapterView>, c: ChapterView)
    ensures
        insert_by_start(s, c).to_multiset() == s.to_multiset().insert(c),
    decreases s.len(),
{
    broadcast use vstd::seq_lib::group_to_multiset_ensures;

    if s.len() > 0 && s.last().start > c.start {
        lemma_insert_multiset(s.drop_last(), c);
        assert(s.drop_last().push(s.last()) =~= s);
    }
}

/// Sorting by start keeps the same chapters, each as often as before.
pub proof fn lemma_sort_permutes(cs: Seq<ChapterView>)
    ensures
        sort_by_start(cs).to_multiset() == cs.to_multiset(),
    decreases cs.len(),
{
    broadcast use vstd::seq_lib::group_to_multiset_ensures;

    if cs.len() > 0 {
        lemma_sort_permutes(cs.drop_last());
        lemma_insert_multiset(sort_by_start(cs.drop_last()), cs.last());
        assert(cs.drop_last().push(cs.last()) =~= cs);
    }
}

/// Sorting chapters that are already in order of start changes nothing.
proof fn lemma_sort_sorted_identity(cs: Seq<ChapterView>)
    requires
        sorted_by_start(cs),
    ensures
        sort_by_start(cs) == cs,
    decreases cs.len(),
{
    if cs.len() > 0 {
        lemma_sort_sorted_identity(cs.drop_last());
        assert(cs.drop_last().push(cs.last()) =~= cs);
    }
}

/// Whether a tag can hold chapter `c`: its offsets fit a frame and its end,
/// if any, differs from its start; it has no image, is visible and refers
/// to no remote entity; its link URL reads back as itself and the link's
/// title, if any, is non-empty text without surrounding white space.
pub open spec fn fits_tag(c: ChapterView) -> bool {
    &&& 0 <= c.start <= u32::MAX
    &&& (c.end matches Some(e) ==> 0 <= e <= u32::MAX && e != c.start)
    &&& c.image is None
    &&& !c.hidden
    &&& c.remote_entity is None
    &&& (c.link matches Some(l) ==> parsed_url(l.url) == Some(l.url) && (l.title matches Some(t)
        ==> trim(t) == t && t.len() > 0))
}

proof fn lemma_trim_empty()
    ensures
        trim(Seq::<char>::empty()) == Seq::<char>::empty(),
{
}

proof fn lemma_frame_round_trip(c: ChapterView, i: int)
    requires
        fits_tag(c),
    ensures
        links_parse(chapter_frame(c, i).frames),
        frame_chapter(chapter_frame(c, i)) == c,
{
    let fs = title_frames(c) + link_frames(c);
    lemma_trim_empty();
    reveal_with_fuel(last_title, 3);
    reveal_with_fuel(last_link, 3);
    if c.link is Some {
        assert(fs.drop_last() =~= title_frames(c));
        assert(fs.last() == link_frames(c)[0]);
    } else {
        assert(fs =~= title_frames(c));
    }
    if c.title is Some {
        assert(title_frames(c).drop_last() =~= Seq::<SubFrameView>::empty());
    }
    assert(last_title(fs) == c.title);
    assert(last_link(fs) == c.link);
    assert(chapter_frame(c, i).frames == fs);
}

/// Writing chapters as chapter frames and reading the frames back gives the
/// same chapters, for chapters in order of start whose fields a tag can
/// hold. In particular an absent end is written as the start and reads back
/// as absent.
pub proof fn lemma_tag_round_trip(cs: Seq<ChapterView>)
    requires
        sorted_by_start(cs),
        forall|i: int| 0 <= i < cs.len() ==> fits_tag(#[trigger] cs[i]),
    ensures
        tag_chapters(chapter_frames(cs)) == Some(cs),
{
    let fs = chapter_frames(cs);
    assert forall|i: int| 0 <= i < fs.len() implies links_parse(#[trigger] fs[i].frames) by {
        lemma_frame_round_trip(cs[i], i);
    }
    assert forall|i: int| 0 <= i < fs.len() implies frame_chapter(#[trigger] fs[i]) == cs[i] by {
        lemma_frame_round_trip(cs[i], i);
    }
    assert(fs.map_values(|f: ChapterFrameView| frame_chapter(f)) =~= cs);
    lemma_sort_sorted_identity(cs);
}

/// The frame id of chapter frames.
pub open spec fn chap_id() -> Seq<char> {
    seq!['C', 'H', 'A', 'P']
}

/// What a tag holds, as far as chapters go: each frame with chapter content,
/// in the tag's order, with the id of the frame that holds it and its
/// sub-frames read as `tag_chapters` reads them.
pub uninterp spec fn tag_chapter_frames(tag: id3::Tag) -> Seq<(Seq<char>, ChapterFrameView)>;

/// Whether `id` is four ASCII characters, a frame id that `id3` accepts.
pub open spec fn is_frame_id(id: Seq<char>) -> bool {
    id.len() == 4 && forall|k: int| 0 <= k < 4 ==> (#[trigger] id[k] as u32) < 128
}

/// Relies on `id3::Tag::chapters`: the chapter contents of the tag's frames
/// in order; each sub-frame's id (`Frame::id`) and content are moved over,
/// contents other than text, link and user-defined link as they are.
#[verifier::external_body]
fn read_tag_chapters(tag: &id3::Tag) -> (r: Vec<ChapterFrame>)
    ensures
        frames_view(r@) == tag_chapter_frames(*tag).map_values(
            |x: (Seq<char>, ChapterFrameView)| x.1,
        ),
{
    tag.chapters().map(|c| ChapterFrame {
        element_id: c.element_id.clone(),
        start_time: c.start_time,
        end_time: c.end_time,
        start_offset: c.start_offset,
        end_offset: c.end_offset,
        frames: c.frames.iter().map(|f| SubFrame { id: f.id().to_string(), content: match f.content() {
            id3::Content::Text(t) => FrameContent::Text(t.clone()),
            id3::Content::Link(l) => FrameContent::Link(l.clone()),
            id3::Content::ExtendedLink(e) => FrameContent::ExtendedLink { link: e.link.clone(), description: e.description.clone() },
            other => FrameContent::Other(other.clone()),
        } }).collect(),
    }).collect()
}

/// Relies on `TagLike::remove_all_chapters`, which is `TagLike::remove("CHAP")`:
/// it drops every frame whose id is `CHAP` and keeps the others in order.
#[verifier::external_body]
fn remove_chapter_frames(tag: &mut id3::Tag)
    ensures
        tag_chapter_frames(*final(tag)) == tag_chapter_frames(*old(tag)).filter(
            |x: (Seq<char>, ChapterFrameView)| x.0 != chap_id(),
        ),
{
    tag.remove_all_chapters();
}

/// Relies on `TagLike::add_frame` with the `CHAP` frame that `From<Chapter>
/// for Frame` makes, and on `Frame::with_content` (which asserts an id of
/// three or four bytes): where no `CHAP` frame of the tag has the same
/// element id, nothing conflicts and the frame is pushed after the others.
/// Its sub-frames are text, link and user-defined link frames, which read
/// back as they were written.
#[verifier::external_body]
fn add_chapter_frame(tag: &mut id3::Tag, frame: ChapterFrame)
    requires
        forall|i: int| 0 <= i < frame.frames@.len() ==> is_frame_id(#[trigger] frame.frames@[i].id@),
        forall|i: int| 0 <= i < frame.frames@.len() ==> !(#[trigger] frame.frames@[i].content is Other),
    ensures
        (forall|i: int|
            0 <= i < tag_chapter_frames(*old(tag)).len() ==> !(#[trigger] tag_chapter_frames(*old(tag))[i].0 == chap_id()
                && tag_chapter_frames(*old(tag))[i].1.element_id == frame@.element_id))
            ==> tag_chapter_frames(*final(tag)) == tag_chapter_frames(*old(tag)).push(
            (chap_id(), frame@),
        ),
{
    let frames = frame.frames.into_iter().map(|s| id3::Frame::with_content(&s.id, match s.content {
        FrameContent::Text(t) => id3::Content::Text(t),
        FrameContent::Link(l) => id3::Content::Link(l),
        FrameContent::ExtendedLink { link, description } => id3::Content::ExtendedLink(id3::frame::ExtendedLink { link, description }),
        FrameContent::Other(c) => c,
    })).collect();
    tag.add_frame(id3::frame::Chapter { element_id: frame.element_id, start_time: frame.start_time, end_time: frame.end_time, start_offset: frame.start_offset, end_offset: frame.end_offset, frames });
}

/// Reads the chapters of a tag's chapter frames (see `chapters_from_frames`).
pub fn chapters_from_tag(tag: &id3::Tag) -> (r: Result<Vec<Chapter>, String>)
    ensures
        match tag_chapters(tag_chapter_frames(*tag).map_values(|x: (Seq<char>, ChapterFrameView)| x.1)) {
            Some(cs) => r matches Ok(v) && chapters_view(v@) == cs,
            None => r is Err,
        },
        r matches Ok(v) ==> sorted_by_start(chapters_view(v@)),
{
    let frames = read_tag_chapters(tag);
    chapters_from_frames(frames.as_slice())
}

proof fn lemma_frame_ids()
    ensures
        is_frame_id(seq!['T', 'I', 'T', '2']),
        is_frame_id(seq!['W', 'X', 'X', 'X']),
{
    let t = seq!['T', 'I', 'T', '2'];
    let w = seq!['W', 'X', 'X', 'X'];
    assert forall|k: int| 0 <= k < 4 implies (#[trigger] t[k] as u32) < 128 && (w[k] as u32) < 128 by {
        if k == 0 {
            assert(t[k] == 'T' && w[k] == 'W');
        } else if k == 1 {
            assert(t[k] == 'I' && w[k] == 'X');
        } else if k == 2 {
            assert(t[k] == 'T' && w[k] == 'X');
        } else {
            assert(t[k] == '2' && w[k] == 'X');
        }
    }
    assert forall|k: int| 0 <= k < 4 implies (#[trigger] w[k] as u32) < 128 by {
        assert((t[k] as u32) < 128 && (w[k] as u32) < 128);
    }
}

/// Distinct chapters get distinct element ids.
proof fn lemma_element_ids_differ(i: int, j: int)
    requires
        0 <= i,
        0 <= j,
        i != j,
    ensures
        element_id(i) != element_id(j),
{
    lemma_decimal((i + 1) as nat);
    lemma_decimal((j + 1) as nat);
    if element_id(i) == element_id(j) {
        assert(element_id(i).subrange(3, element_id(i).len() as int) =~= decimal((i + 1) as nat));
        assert(element_id(j).subrange(3, element_id(j).len() as int) =~= decimal((j + 1) as nat));
    }
}

/// The tag's frames as chapters go, once `write_chapters` has written
/// chapters `cs` into a tag that held `before`: the frames that are not
/// `CHAP` frames, then one `CHAP` frame per chapter.
pub open spec fn written_tag(before: Seq<(Seq<char>, ChapterFrameView)>, cs: Seq<ChapterView>) -> Seq<(Seq<char>, ChapterFrameView)> {
    before.filter(|x: (Seq<char>, ChapterFrameView)| x.0 != chap_id()) + chapter_frames(cs).map_values(
        |f: ChapterFrameView| (chap_id(), f),
    )
}

/// Replaces the chapters of a tag: drops its `CHAP` frames, then adds one
/// chapter frame per chapter, in the chapters' order (not re-sorted).
pub fn write_chapters(tag: &mut id3::Tag, chapters: &[Chapter])
    ensures
        tag_chapter_frames(*final(tag)) == written_tag(tag_chapter_frames(*old(tag)), chapters_view(chapters@)),
{
    broadcast use vstd::seq_lib::group_filter_ensures;

    let ghost cs = chapters_view(chapters@);
    let ghost kept = tag_chapter_frames(*tag).filter(|x: (Seq<char>, ChapterFrameView)| x.0 != chap_id());
    remove_chapter_frames(tag);
    proof {
        reveal_strlit("TIT2");
        reveal_strlit("WXXX");
    }
    let mut i: usize = 0;
    while i < chapters.len()
        invariant
            i <= chapters@.len(),
            cs == chapters_view(chapters@),
            forall|k: int| 0 <= k < kept.len() ==> (#[trigger] kept[k]).0 != chap_id(),
            tag_chapter_frames(*tag) == kept + chapter_frames(cs.take(i as int)).map_values(
                |f: ChapterFrameView| (chap_id(), f),
            ),
        decreases chapters@.len() - i,
    {
        let f = frame_from_chapter(&chapters[i], i);
        let ghost model = tag_chapter_frames(*tag);
        let ghost fv = f@;
        assert(fv == chapter_frame(cs[i as int], i as int));
        assert forall|k: int| 0 <= k < f.frames@.len() implies is_frame_id(#[trigger] f.frames@[k].id@) by {
            assert(f.frames@[k]@ == fv.frames[k]);
            lemma_frame_ids();
            let c = cs[i as int];
            let tf = title_frames(c);
            let lf = link_frames(c);
            assert(fv.frames == tf + lf);
            assert(fv.frames.len() == f.frames@.len());
            if k < tf.len() {
                assert(fv.frames[k] == tf[k]);
            } else {
                assert(fv.frames[k] == lf[k - tf.len()]);
            }
        }
        assert forall|k: int| 0 <= k < f.frames@.len() implies !(#[trigger] f.frames@[k].content is Other) by {
            assert(f.frames@[k]@ == fv.frames[k]);
            let c = cs[i as int];
            let tf = title_frames(c);
            let lf = link_frames(c);
            assert(fv.frames == tf + lf);
            assert(fv.frames.len() == f.frames@.len());
            if k < tf.len() {
                assert(fv.frames[k] == tf[k]);
            } else {
                assert(fv.frames[k] == lf[k - tf.len()]);
            }
        }
        assert forall|k: int| 0 <= k < model.len() implies !(#[trigger] model[k].0 == chap_id()
            && model[k].1.element_id == fv.element_id) by {
            if k >= kept.len() {
                let w = k - kept.len();
                assert(model[k].1 == chapter_frame(cs[w], w));
                lemma_element_ids_differ(w, i as int);
            }
        }
        add_chapter_frame(tag, f);
        assert(chapter_frames(cs.take(i + 1)) =~= chapter_frames(cs.take(i as int)).push(fv));
        assert(tag_chapter_frames(*tag) =~= kept + chapter_frames(cs.take(i + 1)).map_values(
            |f: ChapterFrameView| (chap_id(), f),
        ));
        i = i + 1;
    }
    assert(cs.take(i as int) =~= cs);
}

/// Writing chapters into a tag and reading the tag's chapters back gives
/// the same chapters, for chapters in order of start whose fields a tag can
/// hold, where every frame of chapter content in the tag was a `CHAP` frame
/// (as in every tag read from a file).
pub proof fn lemma_written_tag_reads_back(
    before: Seq<(Seq<char>, ChapterFrameView)>,
    cs: Seq<ChapterView>,
)
    requires
        forall|k: int| 0 <= k < before.len() ==> (#[trigger] before[k]).0 == chap_id(),
        sorted_by_start(cs),
        forall|i: int| 0 <= i < cs.len() ==> fits_tag(#[trigger] cs[i]),
    ensures
        tag_chapters(
            written_tag(before, cs).map_values(|x: (Seq<char>, ChapterFrameView)| x.1),
        ) == Some(cs),
{
    broadcast use vstd::seq_lib::group_filter_ensures;

    let kept = before.filter(|x: (Seq<char>, ChapterFrameView)| x.0 != chap_id());
    assert(kept.len() == 0) by {
        if kept.len() > 0 {
            assert(kept.contains(kept[0]));
            before.lemma_filter_contains_rev(|x: (Seq<char>, ChapterFrameView)| x.0 != chap_id(), kept[0]);
            assert(kept[0].0 != chap_id());
        }
    }
    assert(written_tag(before, cs).map_values(|x: (Seq<char>, ChapterFrameView)| x.1)
        =~= chapter_frames(cs));
    lemma_tag_round_trip(cs);
}

} // verus!
