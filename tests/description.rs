use chapters::description::{duration_to_timestamp, from_description, to_description, TimestampType};
use chapters::{Chapter, Duration, Link, Url};

fn titled(seconds: i64, title: &str) -> Chapter {
    Chapter {
        start: Duration::seconds(seconds),
        title: Some(String::from(title)),
        ..Default::default()
    }
}

#[test]
fn test_from_description() {
    let description = "In this episode we talk about a western.\n\
        \n\
        Chapters:\n\
        00:00 - Intro\n\
        04:45 - Plot summary\n\
        10:11 - Sergio Leone\n\
        16:58 - Ennio Morricone\n\
        22:30 - Charles Bronson\n\
        27:22 - Henry Fonda\n\
        32:21 - Conclusion\n\
        \n\
        Thanks for listening!\n";
    let expected = vec![
        Chapter {
            start: Duration::seconds(0),
            title: Some(String::from("Intro")),
            ..Default::default()
        },
        Chapter {
            start: Duration::minutes(4).plus(Duration::seconds(45)),
            title: Some(String::from("Plot summary")),
            ..Default::default()
        },
        Chapter {
            start: Duration::minutes(10).plus(Duration::seconds(11)),
            title: Some(String::from("Sergio Leone")),
            ..Default::default()
        },
        Chapter {
            start: Duration::minutes(16).plus(Duration::seconds(58)),
            title: Some(String::from("Ennio Morricone")),
            ..Default::default()
        },
        Chapter {
            start: Duration::minutes(22).plus(Duration::seconds(30)),
            title: Some(String::from("Charles Bronson")),
            ..Default::default()
        },
        Chapter {
            start: Duration::minutes(27).plus(Duration::seconds(22)),
            title: Some(String::from("Henry Fonda")),
            ..Default::default()
        },
        Chapter {
            start: Duration::minutes(32).plus(Duration::seconds(21)),
            title: Some(String::from("Conclusion")),
            ..Default::default()
        },
    ];
    assert_eq!(from_description(description), Ok(expected));
}

#[test]
fn description_block_ends_at_first_non_matching_line() {
    let description = "00:00 - Intro\n05:04 - Baboons\n09:58 - Steve Jobs\nAnd more\n10:00 - Later\n";
    let chapters = from_description(description).unwrap();
    assert_eq!(
        chapters,
        vec![titled(0, "Intro"), titled(304, "Baboons"), titled(598, "Steve Jobs")]
    );
}

#[test]
fn description_skips_prose_before_the_block() {
    let description = "\n  In this episode, \"The Movement\"!\n\n  00:00 - The Movement  \r\n05:04 - Baboons\n";
    let chapters = from_description(description).unwrap();
    assert_eq!(chapters, vec![titled(0, "The Movement"), titled(304, "Baboons")]);
}

#[test]
fn description_notations_in_priority_order() {
    assert_eq!(TimestampType::from_line("00:00 - Intro"), Some(TimestampType::MmSs));
    assert_eq!(TimestampType::from_line("01:02:03 - Intro"), Some(TimestampType::HhMmSs));
    assert_eq!(TimestampType::from_line("(01:02) Intro"), Some(TimestampType::MmSsParentheses));
    assert_eq!(
        TimestampType::from_line("(01:02:03)? Intro"),
        Some(TimestampType::HhMmSsParentheses)
    );
    assert_eq!(TimestampType::from_line("61:00 - Intro"), None);
    assert_eq!(TimestampType::from_line("00:00Intro"), None);
    assert_eq!(TimestampType::from_line("00:00 "), None);
    assert_eq!(TimestampType::from_line(""), None);
}

#[test]
fn description_hours_and_separators() {
    let description = "Show notes\n(01:02:03)... First\n(10:00:00) - Second\n";
    let chapters = from_description(description).unwrap();
    assert_eq!(chapters, vec![titled(3723, "First"), titled(36000, "Second")]);
}

#[test]
fn description_title_is_trimmed_and_separators_leave_one_character() {
    let chapters = from_description("00:10 -\tTabbed title\n00:20 - -\n").unwrap();
    assert_eq!(chapters, vec![titled(10, "Tabbed title"), titled(20, "-")]);
}

#[test]
fn description_empty_text_has_no_chapters() {
    assert_eq!(from_description(""), Ok(vec![]));
    assert_eq!(from_description("no timestamps here\n"), Ok(vec![]));
}

#[test]
fn description_write_under_an_hour_uses_minutes() {
    let chapters = vec![
        Chapter {
            start: Duration::zero(),
            title: Some(String::from("The Movement")),
            link: Some(Link {
                url: Url::parse("https://example.com/the-movement").unwrap(),
                title: None,
            }),
            ..Default::default()
        },
        titled(304, "Baboons"),
        titled(598, "Steve Jobs"),
    ];
    assert_eq!(
        to_description(&chapters).unwrap(),
        "00:00 - The Movement\n05:04 - Baboons\n09:58 - Steve Jobs\n"
    );
}

#[test]
fn description_write_from_an_hour_uses_hours_on_every_line() {
    let chapters = vec![titled(5, "Start"), titled(3600, "Hour"), titled(3723, "Later")];
    assert_eq!(
        to_description(&chapters).unwrap(),
        "00:00:05 - Start\n01:00:00 - Hour\n01:02:03 - Later\n"
    );
}

#[test]
fn description_write_keeps_input_order() {
    let chapters = vec![titled(60, "B"), titled(0, "A")];
    assert_eq!(to_description(&chapters).unwrap(), "01:00 - B\n00:00 - A\n");
}

#[test]
fn description_write_without_title_fails() {
    let chapters = vec![titled(0, "A"), Chapter { start: Duration::seconds(10), ..Default::default() }];
    assert!(to_description(&chapters).is_err());
}

#[test]
fn description_round_trip() {
    let chapters = vec![titled(0, "Intro"), titled(125, "Middle"), titled(3599, "End")];
    let text = to_description(&chapters).unwrap();
    assert_eq!(from_description(&text).unwrap(), chapters);
}

#[test]
fn timestamps_of_each_notation() {
    let d = Duration::milliseconds(3_723_900);
    assert_eq!(duration_to_timestamp(d, TimestampType::MmSs), "02:03");
    assert_eq!(duration_to_timestamp(d, TimestampType::HhMmSs), "01:02:03");
    assert_eq!(duration_to_timestamp(d, TimestampType::MmSsParentheses), "(02:03)");
    assert_eq!(duration_to_timestamp(d, TimestampType::HhMmSsParentheses), "(01:02:03)");
    assert_eq!(duration_to_timestamp(Duration::hours(100), TimestampType::HhMmSs), "100:00:00");
    assert_eq!(duration_to_timestamp(Duration::seconds(-65), TimestampType::MmSs), "-1:-5");
    assert_eq!(duration_to_timestamp(Duration::milliseconds(-500), TimestampType::MmSs), "00:00");
}

#[test]
fn line_patterns_agree_with_a_regex_engine() {
    let notations = [
        TimestampType::MmSs,
        TimestampType::HhMmSs,
        TimestampType::MmSsParentheses,
        TimestampType::HhMmSsParentheses,
    ];
    let lines = [
        "00:00 - Intro",
        "59:59! x",
        "60:00 - x",
        "01:02:03 - Intro",
        "(01:02) Intro",
        "(01:02:03)? Intro",
        "00:00",
        "00:00 -",
        "00:00 - -",
        "00:00Intro",
        "(00:00 Intro",
        "12:34:56:78 x",
    ];
    for notation in notations {
        let re = regex::Regex::new(&notation.line_regex_pattern()).unwrap();
        for line in lines {
            let by_regex = re.captures(line).map(|c| c.name("text").unwrap().as_str().trim().to_string());
            let by_library = notation.parse_line(line).map(|c| c.title.unwrap());
            assert_eq!(by_regex, by_library, "{line}");
        }
    }
    assert_eq!(
        TimestampType::MmSs.line_regex_pattern(),
        r"^(?P<minutes>[0-5]\d):(?P<seconds>[0-5]\d)[.!?\- ]+(?P<text>.+)$"
    );
}
