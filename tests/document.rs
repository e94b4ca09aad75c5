use chapters::document::{from_document, to_document, PodcastNamespaceChapter, PodcastNamespaceChapters};
use chapters::number::{format_seconds, parse_seconds};
use chapters::{Chapter, Duration, Image, Link, Url};

fn url(s: &str) -> Url {
    Url::parse(s).unwrap()
}

fn record(start_time: &str) -> PodcastNamespaceChapter {
    PodcastNamespaceChapter {
        start_time: String::from(start_time),
        end_time: None,
        title: None,
        img: None,
        url: None,
        toc: None,
    }
}

#[test]
fn test_json() {
    let expected = vec![
        Chapter {
            start: Duration::seconds(0),
            title: Some(String::from("Intro")),
            ..Default::default()
        },
        Chapter {
            start: Duration::seconds(168),
            title: Some(String::from("Hearing Aids")),
            image: Some(Image::Url(url("https://example.com/images/hearing_aids.jpg"))),
            ..Default::default()
        },
        Chapter {
            start: Duration::seconds(260),
            title: Some(String::from("Progress Report")),
            ..Default::default()
        },
        Chapter {
            start: Duration::seconds(410),
            title: Some(String::from("Namespace")),
            image: Some(Image::Url(url("https://example.com/images/namepsace_example.jpg"))),
            link: Some(Link {
                url: url("https://github.com/Podcastindex-org/podcast-namespace"),
                title: None,
            }),
            ..Default::default()
        },
        Chapter {
            start: Duration::seconds(3990),
            title: Some(String::from("Just Break Up")),
            image: Some(Image::Url(url("https://example.com/images/justbreakuppod.png"))),
            ..Default::default()
        },
        Chapter {
            start: Duration::seconds(4600),
            title: Some(String::from("Donations")),
            link: Some(Link { url: url("https://example.com/paypal_link"), title: None }),
            ..Default::default()
        },
        Chapter {
            start: Duration::seconds(5510),
            title: Some(String::from("The Big Players")),
            ..Default::default()
        },
        Chapter {
            start: Duration::seconds(5854),
            title: Some(String::from("Spread the Word")),
            ..Default::default()
        },
        Chapter {
            start: Duration::seconds(6089),
            title: Some(String::from("Outro")),
            ..Default::default()
        },
    ];
    let document = to_document(&expected);
    assert_eq!(document.version, "1.2.0");
    assert_eq!(document.chapters[1].start_time, "168");
    assert_eq!(
        document.chapters[3].url.as_deref(),
        Some("https://github.com/Podcastindex-org/podcast-namespace")
    );
    assert_eq!(from_document(&document), Ok(expected));

    let empty = PodcastNamespaceChapters { version: String::from("1.2.0"), chapters: vec![] };
    assert_eq!(from_document(&empty), Ok(vec![]));
    assert_eq!(to_document(&[]), empty);
}

#[test]
fn test_to_json() {
    let chapters = vec![
        Chapter {
            start: Duration::seconds(0),
            end: Some(Duration::seconds(10).plus(Duration::milliseconds(400))),
            title: Some(String::from("Start")),
            link: Some(Link { url: url("https://example.com"), title: Some(String::from("Example")) }),
            image: Some(Image::Url(url("https://example.com/image.png"))),
            hidden: false,
            remote_entity: None,
        },
        Chapter {
            start: Duration::seconds(10).plus(Duration::milliseconds(400)),
            end: None,
            title: None,
            link: None,
            image: None,
            hidden: false,
            remote_entity: None,
        },
    ];
    let document = to_document(&chapters);
    assert_eq!(
        document.chapters[0],
        PodcastNamespaceChapter {
            start_time: String::from("0"),
            end_time: Some(String::from("10.4")),
            title: Some(String::from("Start")),
            img: Some(String::from("https://example.com/image.png")),
            url: Some(String::from("https://example.com/")),
            toc: None,
        }
    );
    assert_eq!(document.chapters[1], record("10.4"));
}

#[test]
fn seconds_are_integers_when_whole() {
    assert_eq!(format_seconds(Duration::seconds(45)), "45");
    assert_eq!(format_seconds(Duration::milliseconds(130_500)), "130.5");
    assert_eq!(format_seconds(Duration::zero()), "0");
    assert_eq!(format_seconds(Duration::milliseconds(1)), "0.001");
    assert_eq!(format_seconds(Duration::milliseconds(10)), "0.01");
    assert_eq!(format_seconds(Duration::milliseconds(1_230)), "1.23");
    assert_eq!(format_seconds(Duration::milliseconds(-500)), "-0.5");
    assert_eq!(format_seconds(Duration::seconds(-3)), "-3");
    assert_eq!(format_seconds(Duration::milliseconds(i64::MIN)), "-9223372036854775.808");
}

#[test]
fn seconds_text_reads_at_millisecond_precision() {
    let ms = |t: &str| parse_seconds(t).map(|d| d.num_milliseconds());
    assert_eq!(ms("45"), Some(45_000));
    assert_eq!(ms("45.0"), Some(45_000));
    assert_eq!(ms("130.5"), Some(130_500));
    assert_eq!(ms("30.5"), Some(30_500));
    assert_eq!(ms("0.0015"), Some(1));
    assert_eq!(ms("-0.0015"), Some(-1));
    assert_eq!(ms("1e3"), Some(1_000_000));
    assert_eq!(ms("1.5e-2"), Some(15));
    assert_eq!(ms("2E+1"), Some(20_000));
    assert_eq!(ms("-0.0"), Some(0));
    assert_eq!(ms("99999999999999999999"), Some(i64::MAX));
    assert_eq!(ms("-99999999999999999999"), Some(i64::MIN));
    assert_eq!(ms(""), None);
    assert_eq!(ms("abc"), None);
    assert_eq!(ms("1."), None);
    assert_eq!(ms("1e"), None);
    assert_eq!(ms("1e1000"), None);
    assert_eq!(ms("-"), None);
}

#[test]
fn toc_false_reads_as_hidden() {
    let mut hidden = record("55");
    hidden.title = Some(String::from("X"));
    hidden.toc = Some(false);
    let chapter = Chapter::from_record(&hidden).unwrap();
    assert!(chapter.hidden);
    assert_eq!(chapter.start, Duration::seconds(55));
    assert!(!Chapter::from_record(&record("55")).unwrap().hidden);
    let mut shown = record("55");
    shown.toc = Some(true);
    assert!(!Chapter::from_record(&shown).unwrap().hidden);
}

#[test]
fn hidden_writes_toc_false_and_visible_omits_it() {
    let hidden = Chapter { start: Duration::seconds(65), hidden: true, ..Default::default() };
    let visible = Chapter { start: Duration::seconds(65), ..Default::default() };
    assert_eq!(PodcastNamespaceChapter::from_chapter(&hidden).toc, Some(false));
    assert_eq!(PodcastNamespaceChapter::from_chapter(&visible).toc, None);
}

#[test]
fn malformed_urls_are_dropped_from_records() {
    let mut r = record("1");
    r.img = Some(String::from("not a url"));
    r.url = Some(String::from("https://example.com/page"));
    let chapter = Chapter::from_record(&r).unwrap();
    assert_eq!(chapter.image, None);
    assert_eq!(chapter.link.unwrap().url.as_str(), "https://example.com/page");
}

#[test]
fn malformed_start_time_fails_the_document() {
    let document = PodcastNamespaceChapters {
        version: String::from("1.2.0"),
        chapters: vec![record("1"), record("one")],
    };
    assert!(from_document(&document).is_err());
    let mut bad_end = record("1");
    bad_end.end_time = Some(String::from("x"));
    assert!(Chapter::from_record(&bad_end).is_err());
}

#[test]
fn document_round_trip_with_fractions_and_end() {
    let chapters = vec![
        Chapter {
            start: Duration::milliseconds(30_500),
            end: Some(Duration::seconds(60)),
            title: Some(String::from("Chapter 1")),
            image: Some(Image::Url(url("https://example.com/chapter-1.jpg"))),
            link: Some(Link { url: url("https://example.com/chapter-1"), title: None }),
            ..Default::default()
        },
        Chapter { start: Duration::seconds(55), hidden: true, ..Default::default() },
    ];
    assert_eq!(from_document(&to_document(&chapters)), Ok(chapters));
}

#[test]
fn urls_are_normalized_by_the_parser() {
    assert_eq!(url("https://example.com").as_str(), "https://example.com/");
    assert_eq!(url("HTTPS://Example.COM/a/../b").as_str(), "https://example.com/b");
    assert!(Url::parse("relative/path").is_err());
}
