use chapters::tag::{
    chapters_from_frames, chapters_from_tag, frames_from_chapters, write_chapters, ChapterFrame,
    FrameContent, SubFrame,
};
use chapters::{Chapter, Duration, Link, Url};
use id3::TagLike;

fn frame(start: u32, end: u32, frames: Vec<SubFrame>) -> ChapterFrame {
    ChapterFrame {
        element_id: String::from("c"),
        start_time: start,
        end_time: end,
        start_offset: 0,
        end_offset: 0,
        frames,
    }
}

fn text(t: &str) -> SubFrame {
    SubFrame { id: String::from("TIT2"), content: FrameContent::Text(String::from(t)) }
}

#[test]
fn instant_frames_read_without_end() {
    let chapters = chapters_from_frames(&[frame(5000, 5000, vec![]), frame(0, 42000, vec![])]).unwrap();
    assert_eq!(chapters[0].start, Duration::zero());
    assert_eq!(chapters[0].end, Some(Duration::seconds(42)));
    assert_eq!(chapters[1].end, None);
}

#[test]
fn frames_read_sorted_by_start() {
    let frames = vec![
        frame(42000, 42000, vec![text("Status quo")]),
        frame(0, 0, vec![text("Introduction")]),
        frame(9000, 9000, vec![text("Thanks")]),
        frame(9000, 9000, vec![text("Thanks again")]),
    ];
    let titles: Vec<String> = chapters_from_frames(&frames)
        .unwrap()
        .into_iter()
        .map(|c| c.title.unwrap())
        .collect();
    assert_eq!(titles, vec!["Introduction", "Thanks", "Thanks again", "Status quo"]);
}

#[test]
fn sub_frames_give_title_and_link() {
    let frames = vec![frame(
        0,
        0,
        vec![
            text("First"),
            SubFrame { id: String::from("WOAR"), content: FrameContent::Link(String::from("https://a.example")) },
            text("Second"),
            SubFrame {
                id: String::from("WXXX"),
                content: FrameContent::ExtendedLink {
                    link: String::from("https://www.osti.gov/trinity.htm"),
                    description: String::from("  The Trinity Test "),
                },
            },
            SubFrame {
                id: String::from("COMM"),
                content: FrameContent::Other(id3::Content::Comment(id3::frame::Comment {
                    lang: String::from("eng"),
                    description: String::new(),
                    text: String::from("a comment"),
                })),
            },
        ],
    )];
    let chapter = &chapters_from_frames(&frames).unwrap()[0];
    assert_eq!(chapter.title.as_deref(), Some("Second"));
    let link = chapter.link.as_ref().unwrap();
    assert_eq!(link.url.as_str(), "https://www.osti.gov/trinity.htm");
    assert_eq!(link.title.as_deref(), Some("The Trinity Test"));

    let blank = vec![frame(
        0,
        0,
        vec![SubFrame {
            id: String::from("WXXX"),
            content: FrameContent::ExtendedLink { link: String::from("https://www.nasa.gov"), description: String::from("  ") },
        }],
    )];
    let link = chapters_from_frames(&blank).unwrap()[0].link.clone().unwrap();
    assert_eq!(link.title, None);
    assert_eq!(link.url.as_str(), "https://www.nasa.gov/");
}

#[test]
fn bad_link_url_fails_the_tag() {
    let frames = vec![frame(
        0,
        0,
        vec![SubFrame { id: String::from("WOAR"), content: FrameContent::Link(String::from("not a url")) }],
    )];
    assert!(chapters_from_frames(&frames).is_err());
}

#[test]
fn empty_tag_has_no_chapters() {
    assert_eq!(chapters_from_frames(&[]), Ok(vec![]));
    assert_eq!(frames_from_chapters(&[]), vec![]);
}

#[test]
fn chapters_write_as_frames() {
    let chapters = vec![
        Chapter {
            start: Duration::seconds(0),
            title: Some(String::from("Introduction")),
            link: Some(Link { url: Url::parse("https://www.rice.edu").unwrap(), title: None }),
            ..Default::default()
        },
        Chapter {
            start: Duration::seconds(42),
            end: Some(Duration::seconds(50)),
            ..Default::default()
        },
        Chapter { start: Duration::seconds(-1), ..Default::default() },
    ];
    let frames = frames_from_chapters(&chapters);
    assert_eq!(
        frames[0],
        ChapterFrame {
            element_id: String::from("chp1"),
            start_time: 0,
            end_time: 0,
            start_offset: 0,
            end_offset: 0,
            frames: vec![
                text("Introduction"),
                SubFrame {
                    id: String::from("WXXX"),
                    content: FrameContent::ExtendedLink {
                        link: String::from("https://www.rice.edu/"),
                        description: String::new(),
                    },
                },
            ],
        }
    );
    assert_eq!(
        frames[1],
        ChapterFrame {
            element_id: String::from("chp2"),
            start_time: 42000,
            end_time: 50000,
            start_offset: 0,
            end_offset: 0,
            frames: vec![],
        }
    );
    assert_eq!(frames[2].start_time, 0);
    assert_eq!(frames[2].element_id, "chp3");
}

#[test]
fn tag_round_trip() {
    let chapters = vec![
        Chapter {
            start: Duration::seconds(0),
            title: Some(String::from("Introduction")),
            link: Some(Link { url: Url::parse("https://www.rice.edu").unwrap(), title: None }),
            ..Default::default()
        },
        Chapter {
            start: Duration::seconds(42),
            title: Some(String::from("Status quo")),
            ..Default::default()
        },
        Chapter {
            start: Duration::minutes(5).plus(Duration::seconds(8)),
            end: Some(Duration::minutes(8)),
            title: Some(String::from("On being first")),
            link: Some(Link {
                url: Url::parse("https://www.osti.gov/opennet/manhattan-project-history/Events/1945/trinity.htm").unwrap(),
                title: Some(String::from("The Trinity Test")),
            }),
            ..Default::default()
        },
    ];
    assert_eq!(chapters_from_frames(&frames_from_chapters(&chapters)), Ok(chapters));
}

fn sample_chapters() -> Vec<Chapter> {
    vec![
        Chapter {
            start: Duration::seconds(0),
            title: Some(String::from("Introduction")),
            ..Default::default()
        },
        Chapter {
            start: Duration::seconds(9),
            end: Some(Duration::seconds(42)),
            title: Some(String::from("Thanks")),
            link: Some(Link {
                url: Url::parse("https://www.nasa.gov/mission_pages/apollo/missions/apollo11.html").unwrap(),
                title: Some(String::from("Apollo 11")),
            }),
            ..Default::default()
        },
    ]
}

#[test]
fn chapters_written_into_a_tag_replace_its_chapters() {
    let mut tag = id3::Tag::new();
    tag.set_title("Episode");
    tag.add_frame(id3::frame::Chapter {
        element_id: String::from("old"),
        start_time: 1,
        end_time: 2,
        start_offset: 0,
        end_offset: 0,
        frames: vec![],
    });
    let chapters = sample_chapters();
    write_chapters(&mut tag, &chapters);
    let ids: Vec<&str> = tag.chapters().map(|c| c.element_id.as_str()).collect();
    assert_eq!(ids, vec!["chp1", "chp2"]);
    let second = tag.chapters().nth(1).unwrap();
    assert_eq!((second.start_time, second.end_time), (9000, 42000));
    assert_eq!(second.frames.len(), 2);
    assert_eq!(second.frames[0].id(), "TIT2");
    assert_eq!(second.frames[1].id(), "WXXX");
    assert_eq!(tag.title(), Some("Episode"));
    assert_eq!(chapters_from_tag(&tag), Ok(chapters));
}

#[test]
fn tag_without_chapters_reads_empty() {
    let mut tag = id3::Tag::new();
    tag.set_title("Episode");
    assert_eq!(chapters_from_tag(&tag), Ok(vec![]));
}

#[test]
fn tag_chapters_read_sorted_with_other_sub_frames_ignored() {
    let mut tag = id3::Tag::new();
    for (id, start, title) in [("b", 5000u32, "Second"), ("a", 1000u32, "First")] {
        tag.add_frame(id3::frame::Chapter {
            element_id: String::from(id),
            start_time: start,
            end_time: start,
            start_offset: 0,
            end_offset: 0,
            frames: vec![
                id3::Frame::text("TIT2", title),
                id3::Frame::with_content(
                    "COMM",
                    id3::Content::Comment(id3::frame::Comment {
                        lang: String::from("eng"),
                        description: String::new(),
                        text: String::from("note"),
                    }),
                ),
            ],
        });
    }
    let chapters = chapters_from_tag(&tag).unwrap();
    assert_eq!(chapters.len(), 2);
    assert_eq!(chapters[0].title.as_deref(), Some("First"));
    assert_eq!(chapters[0].start, Duration::seconds(1));
    assert_eq!(chapters[0].end, None);
    assert_eq!(chapters[1].title.as_deref(), Some("Second"));
}
