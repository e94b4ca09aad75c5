//! The free-text description codec: chapters written as timestamp lines
//! ("00:00 - Intro") in an episode's show notes.
use vstd::prelude::*;
use vstd::string::*;

use crate::model::{chapters_view, Chapter, ChapterView};
use crate::text::{
    chars_of, decimal, digit_value, is_digit, push_decimal, trim, trim_bounds,
};
use crate::time::{whole_units, Duration};

verus! {

/// Timestamp notation used in episode descriptions.
#[derive(Clone, Copy, Debug, PartialEq, Eq, Structural)]
pub enum TimestampType {
    /// `MM:SS`, e.g. "12:34".
    MmSs,
    /// `HH:MM:SS`, e.g. "01:23:45".
    HhMmSs,
    /// `MM:SS` within parentheses, e.g. "(12:34)".
    MmSsParentheses,
    /// `HH:MM:SS` within parentheses, e.g. "(01:23:45)".
    HhMmSsParentheses,
}

/// A digit from 0 to 5, the leading digit of minutes and seconds.
pub open spec fn is_low_digit(c: char) -> bool {
    48 <= (c as u32) <= 53
}

/// The value of the two digits at `l[i]` and `l[i + 1]`.
pub open spec fn two_digits(l: Seq<char>, i: int) -> int {
    digit_value(l[i]) * 10 + digit_value(l[i + 1])
}

/// Two digits for hours and a colon at `l[i..i + 3]`.
pub open spec fn hours_at(l: Seq<char>, i: int) -> bool {
    is_digit(l[i]) && is_digit(l[i + 1]) && l[i + 2] == ':'
}

/// Minutes and seconds, each from `00` to `59`, with a colon between them, at
/// `l[i..i + 5]`.
pub open spec fn minutes_seconds_at(l: Seq<char>, i: int) -> bool {
    &&& is_low_digit(l[i])
    &&& is_digit(l[i + 1])
    &&& l[i + 2] == ':'
    &&& is_low_digit(l[i + 3])
    &&& is_digit(l[i + 4])
}

/// The characters that may stand between a timestamp and its title.
pub open spec fn is_separator(c: char) -> bool {
    c == '.' || c == '!' || c == '?' || c == '-' || c == ' '
}

/// The end of the run of separators that starts at `l[i]`.
pub open spec fn separators_end(l: Seq<char>, i: int) -> int
    decreases l.len() - i,
{
    if 0 <= i < l.len() && is_separator(l[i]) {
        separators_end(l, i + 1)
    } else {
        i
    }
}

impl TimestampType {
    /// The number of characters of a timestamp in this notation.
    pub open spec fn stamp_len(self) -> int {
        match self {
            TimestampType::MmSs => 5,
            TimestampType::HhMmSs => 8,
            TimestampType::MmSsParentheses => 7,
            TimestampType::HhMmSsParentheses => 10,
        }
    }

    /// Whether line `l` starts with a timestamp in this notation.
    pub open spec fn starts_line(self, l: Seq<char>) -> bool {
        l.len() >= self.stamp_len() && match self {
            TimestampType::MmSs => minutes_seconds_at(l, 0),
            TimestampType::HhMmSs => hours_at(l, 0) && minutes_seconds_at(l, 3),
            TimestampType::MmSsParentheses => l[0] == '(' && minutes_seconds_at(l, 1) && l[6]
                == ')',
            TimestampType::HhMmSsParentheses => l[0] == '(' && hours_at(l, 1)
                && minutes_seconds_at(l, 4) && l[9] == ')',
        }
    }

    /// The offset in seconds of the timestamp that starts line `l`.
    pub open spec fn stamp_seconds(self, l: Seq<char>) -> int {
        match self {
            TimestampType::MmSs => two_digits(l, 0) * 60 + two_digits(l, 3),
            TimestampType::HhMmSs => two_digits(l, 0) * 3600 + two_digits(l, 3) * 60
                + two_digits(l, 6),
            TimestampType::MmSsParentheses => two_digits(l, 1) * 60 + two_digits(l, 4),
            TimestampType::HhMmSsParentheses => two_digits(l, 1) * 3600 + two_digits(l, 4) * 60
                + two_digits(l, 7),
        }
    }

    /// Where the title text of line `l` starts: after the longest run of
    /// separators that leaves at least one character.
    pub open spec fn text_start(self, l: Seq<char>) -> int {
        let e = separators_end(l, self.stamp_len());
        if e < l.len() {
            e
        } else {
            l.len() - 1
        }
    }

    /// Whether line `l` is a chapter line in this notation: the timestamp, at
    /// least one separator, then a non-empty text.
    pub open spec fn matches_line(self, l: Seq<char>) -> bool {
        let p = self.stamp_len();
        &&& self.starts_line(l)
        &&& separators_end(l, p) > p
        &&& l.len() - p >= 2
    }

    /// The chapter of line `l` in this notation: its start in milliseconds and
    /// its title.
    pub open spec fn line_entry(self, l: Seq<char>) -> Option<(int, Seq<char>)> {
        if self.matches_line(l) {
            Some(
                (
                    self.stamp_seconds(l) * 1000,
                    trim(l.subrange(self.text_start(l), l.len() as int)),
                ),
            )
        } else {
            None
        }
    }
}

/// The first notation, in the order `MM:SS`, `HH:MM:SS`, `(MM:SS)`,
/// `(HH:MM:SS)`, in which `l` is a chapter line.
pub open spec fn detect(l: Seq<char>) -> Option<TimestampType> {
    if TimestampType::MmSs.matches_line(l) {
        Some(TimestampType::MmSs)
    } else if TimestampType::HhMmSs.matches_line(l) {
        Some(TimestampType::HhMmSs)
    } else if TimestampType::MmSsParentheses.matches_line(l) {
        Some(TimestampType::MmSsParentheses)
    } else if TimestampType::HhMmSsParentheses.matches_line(l) {
        Some(TimestampType::HhMmSsParentheses)
    } else {
        None
    }
}

/// The end of the line that starts at `d[i]`: the index of the next newline,
/// or the length.
pub open spec fn line_end(d: Seq<char>, i: int) -> int
    decreases d.len() - i,
{
    if 0 <= i < d.len() && d[i] != '\n' {
        line_end(d, i + 1)
    } else {
        i
    }
}

/// The chapters of text `d` from the line that starts at `d[i]` on, with
/// `locked` the notation detected so far. Lines are trimmed. Until a notation
/// is detected, lines that match none are skipped; once one is, the first
/// line that does not match it ends the scan.
pub open spec fn scan(d: Seq<char>, i: int, locked: Option<TimestampType>) -> Seq<(int, Seq<char>)>
    decreases d.len() - i,
{
    let e = line_end(d, i);
    if i < 0 || e < i || e > d.len() {
        Seq::empty()
    } else {
        let line = trim(d.subrange(i, e));
        let n = if locked is Some {
            locked
        } else {
            detect(line)
        };
        let rest = if e < d.len() {
            scan(d, e + 1, n)
        } else {
            Seq::empty()
        };
        match n {
            None => rest,
            Some(t) => if t.matches_line(line) {
                seq![t.line_entry(line).unwrap()] + rest
            } else {
                Seq::empty()
            },
        }
    }
}

/// The chapter that a description line gives.
pub open spec fn entry_chapter(x: (int, Seq<char>)) -> ChapterView {
    ChapterView {
        start: x.0,
        end: None,
        title: Some(x.1),
        image: None,
        link: None,
        hidden: false,
        remote_entity: None,
    }
}

/// The chapters that description `d` holds.
pub open spec fn description_chapters(d: Seq<char>) -> Seq<ChapterView> {
    scan(d, 0, None).map_values(|x: (int, Seq<char>)| entry_chapter(x))
}

proof fn lemma_separators_end_bounds(l: Seq<char>, i: int)
    requires
        0 <= i <= l.len(),
    ensures
        i <= separators_end(l, i) <= l.len(),
    decreases l.len() - i,
{
    if i < l.len() && is_separator(l[i]) {
        lemma_separators_end_bounds(l, i + 1);
    }
}

proof fn lemma_line_end_bounds(d: Seq<char>, i: int)
    requires
        0 <= i <= d.len(),
    ensures
        i <= line_end(d, i) <= d.len(),
    decreases d.len() - i,
{
    if i < d.len() && d[i] != '\n' {
        lemma_line_end_bounds(d, i + 1);
    }
}

fn is_digit_char(c: char) -> (r: bool)
    ensures
        r == is_digit(c),
{
    let u = c as u32;
    48 <= u && u <= 57
}

fn is_low_digit_char(c: char) -> (r: bool)
    ensures
        r == is_low_digit(c),
{
    let u = c as u32;
    48 <= u && u <= 53
}

fn two_digits_at(l: &Vec<char>, i: usize) -> (r: u64)
    requires
        i <= 10,
        i + 1 < l@.len(),
        is_digit(l@[i as int]),
        is_digit(l@[i + 1]),
    ensures
        r == two_digits(l@, i as int),
        r < 100,
{
    ((l[i] as u32 - 48) * 10 + (l[i + 1] as u32 - 48)) as u64
}

fn hours_at_exec(l: &Vec<char>, i: usize) -> (r: bool)
    requires
        i <= 10,
        i + 3 <= l@.len(),
    ensures
        r == hours_at(l@, i as int),
{
    is_digit_char(l[i]) && is_digit_char(l[i + 1]) && l[i + 2] == ':'
}

fn minutes_seconds_at_exec(l: &Vec<char>, i: usize) -> (r: bool)
    requires
        i <= 10,
        i + 5 <= l@.len(),
    ensures
        r == minutes_seconds_at(l@, i as int),
{
    is_low_digit_char(l[i]) && is_digit_char(l[i + 1]) && l[i + 2] == ':' && is_low_digit_char(
        l[i + 3],
    ) && is_digit_char(l[i + 4])
}

fn is_separator_char(c: char) -> (r: bool)
    ensures
        r == is_separator(c),
{
    c == '.' || c == '!' || c == '?' || c == '-' || c == ' '
}

impl TimestampType {
    fn stamp_length(self) -> (r: usize)
        ensures
            r == self.stamp_len(),
    {
        match self {
            TimestampType::MmSs => 5,
            TimestampType::HhMmSs => 8,
            TimestampType::MmSsParentheses => 7,
            TimestampType::HhMmSsParentheses => 10,
        }
    }

    /// Matches line `l` in this notation: the offset in seconds and the
    /// window of the untrimmed title text.
    fn match_line(self, l: &Vec<char>) -> (r: Option<(u64, usize)>)
        ensures
            r is Some <==> self.matches_line(l@),
            r matches Some(m) ==> m.0 == self.stamp_seconds(l@) && m.1 == self.text_start(l@),
            r matches Some(m) ==> m.0 < 360_000,
    {
        let p = self.stamp_length();
        if l.len() < p {
            return None;
        }
        let starts = match self {
            TimestampType::MmSs => minutes_seconds_at_exec(l, 0),
            TimestampType::HhMmSs => hours_at_exec(l, 0) && minutes_seconds_at_exec(l, 3),
            TimestampType::MmSsParentheses => l[0] == '(' && minutes_seconds_at_exec(l, 1) && l[6]
                == ')',
            TimestampType::HhMmSsParentheses => l[0] == '(' && hours_at_exec(l, 1)
                && minutes_seconds_at_exec(l, 4) && l[9] == ')',
        };
        if !starts {
            return None;
        }
        let seconds: u64 = match self {
            TimestampType::MmSs => two_digits_at(l, 0) * 60 + two_digits_at(l, 3),
            TimestampType::HhMmSs => two_digits_at(l, 0) * 3600 + two_digits_at(l, 3) * 60
                + two_digits_at(l, 6),
            TimestampType::MmSsParentheses => two_digits_at(l, 1) * 60 + two_digits_at(l, 4),
            TimestampType::HhMmSsParentheses => two_digits_at(l, 1) * 3600 + two_digits_at(l, 4)
                * 60 + two_digits_at(l, 7),
        };
        let mut e: usize = p;
        while e < l.len() && is_separator_char(l[e])
            invariant
                p == self.stamp_len(),
                p <= e <= l@.len(),
                separators_end(l@, e as int) == separators_end(l@, p as int),
            decreases l@.len() - e,
        {
            e = e + 1;
        }
        if e == p || l.len() - p < 2 {
            return None;
        }
        let t = if e < l.len() {
            e
        } else {
            l.len() - 1
        };
        Some((seconds, t))
    }

    /// The notation of a chapter line, trying `MM:SS`, `HH:MM:SS`, `(MM:SS)`
    /// and `(HH:MM:SS)` in that order.
    pub fn from_line(line: &str) -> (r: Option<TimestampType>)
        ensures
            r == detect(line@),
    {
        let l = chars_of(line);
        if TimestampType::MmSs.match_line(&l).is_some() {
            Some(TimestampType::MmSs)
        } else if TimestampType::HhMmSs.match_line(&l).is_some() {
            Some(TimestampType::HhMmSs)
        } else if TimestampType::MmSsParentheses.match_line(&l).is_some() {
            Some(TimestampType::MmSsParentheses)
        } else if TimestampType::HhMmSsParentheses.match_line(&l).is_some() {
            Some(TimestampType::HhMmSsParentheses)
        } else {
            None
        }
    }

    /// The chapter of a trimmed line in this notation, if the line is one.
    pub fn parse_line(self, line: &str) -> (r: Option<Chapter>)
        ensures
            match self.line_entry(line@) {
                Some(x) => r matches Some(c) && c@ == entry_chapter(x),
                None => r is None,
            },
    {
        let l = chars_of(line);
        match self.match_line(&l) {
            None => None,
            Some((seconds, t)) => {
                let (a, b) = trim_bounds(&l, t, l.len());
                let title = String::from_str(line.substring_char(a, b));
                Some(
                    Chapter {
                        start: Duration::milliseconds((seconds * 1000) as i64),
                        end: None,
                        title: Some(title),
                        image: None,
                        link: None,
                        hidden: false,
                        remote_entity: None,
                    },
                )
            },
        }
    }
}

fn find_line_end(d: &Vec<char>, i: usize) -> (r: usize)
    requires
        i <= d@.len(),
    ensures
        r == line_end(d@, i as int),
        i <= r <= d@.len(),
{
    let mut k: usize = i;
    while k < d.len() && d[k] != '\n'
        invariant
            i <= k <= d@.len(),
            line_end(d@, k as int) == line_end(d@, i as int),
        decreases d@.len() - k,
    {
        k = k + 1;
    }
    k
}

/// Reads chapters from an episode description: the first block of
/// timestamp lines, in the first notation that a line matches.
pub fn from_description(description: &str) -> (r: Result<Vec<Chapter>, String>)
    ensures
        r matches Ok(cs) && chapters_view(cs@) == description_chapters(description@),
{
    let d = chars_of(description);
    let ghost dv = d@;
    let mut chapters: Vec<Chapter> = Vec::new();
    let mut locked: Option<TimestampType> = None;
    let ghost mut done: Seq<(int, Seq<char>)> = Seq::empty();
    let mut i: usize = 0;
    proof {
        lemma_line_end_bounds(dv, 0);
    }
    loop
        invariant
            d@ == dv,
            dv == description@,
            i <= dv.len(),
            done + scan(dv, i as int, locked) == scan(dv, 0, None),
            chapters_view(chapters@) == done.map_values(|x: (int, Seq<char>)| entry_chapter(x)),
        decreases dv.len() - i,
    {
        let ghost locked0 = locked;
        let e = find_line_end(&d, i);
        let (a, b) = trim_bounds(&d, i, e);
        let line = description.substring_char(a, b);
        let ghost lv = trim(dv.subrange(i as int, e as int));
        if locked.is_none() {
            locked = TimestampType::from_line(line);
        }
        let ghost rest = if e < dv.len() {
            scan(dv, e + 1, locked)
        } else {
            Seq::empty()
        };
        assert(line@ == lv);
        assert(locked == if locked0 is Some {
            locked0
        } else {
            detect(lv)
        });
        match locked {
            None => {
                assert(scan(dv, i as int, locked0) == rest);
            },
            Some(t) => {
                match t.parse_line(line) {
                    Some(c) => {
                        let ghost x = t.line_entry(lv).unwrap();
                        let ghost before = chapters@;
                        let ghost done0 = done;
                        assert(scan(dv, i as int, locked0) == seq![x] + rest);
                        assert(done.push(x) + rest =~= done + (seq![x] + rest));
                        proof {
                            done = done.push(x);
                        }
                        chapters.push(c);
                        assert(chapters_view(before.push(c)) =~= chapters_view(before).push(c@));
                        assert(done0.push(x).map_values(|x: (int, Seq<char>)| entry_chapter(x))
                            =~= done0.map_values(|x: (int, Seq<char>)| entry_chapter(x)).push(
                            entry_chapter(x),
                        ));
                    },
                    None => {
                        assert(scan(dv, i as int, locked0) == Seq::<(int, Seq<char>)>::empty());
                        assert(done =~= done + Seq::<(int, Seq<char>)>::empty());
                        return Ok(chapters);
                    },
                }
            },
        }
        if e >= d.len() {
            assert(done =~= done + Seq::<(int, Seq<char>)>::empty());
            return Ok(chapters);
        }
        i = e + 1;
    }
}

/// A clock field as `{:02}` prints it: at least two digits, zero-padded, and a
/// minus sign before negative values.
pub open spec fn two_digit_text(n: int) -> Seq<char> {
    if n < 0 {
        seq!['-'] + decimal((-n) as nat)
    } else if n < 10 {
        seq!['0'] + decimal(n as nat)
    } else {
        decimal(n as nat)
    }
}

/// The timestamp of an offset of `ms` milliseconds in notation `t`: whole
/// hours, then the minutes and seconds left over, each truncated toward zero.
pub open spec fn timestamp_text(ms: int, t: TimestampType) -> Seq<char> {
    let (h, m, sec) = clock_fields(ms);
    clock_text(h, m, sec, t)
}

/// A timestamp of the given clock fields in notation `t`.
pub open spec fn clock_text(h: int, m: int, sec: int, t: TimestampType) -> Seq<char> {
    let mm_ss = two_digit_text(m) + seq![':'] + two_digit_text(sec);
    let hh_mm_ss = two_digit_text(h) + seq![':'] + mm_ss;
    match t {
        TimestampType::MmSs => mm_ss,
        TimestampType::HhMmSs => hh_mm_ss,
        TimestampType::MmSsParentheses => seq!['('] + mm_ss + seq![')'],
        TimestampType::HhMmSsParentheses => seq!['('] + hh_mm_ss + seq![')'],
    }
}

/// Whether some chapter starts an hour or more into the episode.
pub open spec fn reaches_an_hour(cs: Seq<ChapterView>) -> bool {
    exists|i: int| 0 <= i < cs.len() && #[trigger] cs[i].start >= 3_600_000
}

/// The notation a description is written in: `HH:MM:SS` where some chapter
/// starts an hour or more in, else `MM:SS`.
pub open spec fn notation_for(cs: Seq<ChapterView>) -> TimestampType {
    if reaches_an_hour(cs) {
        TimestampType::HhMmSs
    } else {
        TimestampType::MmSs
    }
}

/// The description line of chapter `c`: `<timestamp> - <title>` and a newline.
pub open spec fn description_line(c: ChapterView, t: TimestampType) -> Seq<char> {
    timestamp_text(c.start, t) + seq![' ', '-', ' '] + c.title.unwrap() + seq!['\n']
}

/// The lines of chapters `cs`, in their order.
pub open spec fn description_lines(cs: Seq<ChapterView>, t: TimestampType) -> Seq<char>
    decreases cs.len(),
{
    if cs.len() == 0 {
        Seq::empty()
    } else {
        description_lines(cs.drop_last(), t) + description_line(cs.last(), t)
    }
}

/// Whether every chapter has a title.
pub open spec fn all_titled(cs: Seq<ChapterView>) -> bool {
    forall|i: int| 0 <= i < cs.len() ==> (#[trigger] cs[i]).title is Some
}

/// The description text of chapters `cs`, or `None` where one has no title.
pub open spec fn description_text(cs: Seq<ChapterView>) -> Option<Seq<char>> {
    if all_titled(cs) {
        Some(description_lines(cs, notation_for(cs)))
    } else {
        None
    }
}

/// Appends a clock field of magnitude `n`, negative where `negative` holds.
fn push_two_digits(s: &mut String, n: u64, negative: bool)
    ensures
        final(s)@ == old(s)@ + two_digit_text(signed(negative, n as int)),
{
    proof {
        reveal_strlit("-");
        reveal_strlit("0");
    }
    if negative && n > 0 {
        s.append("-");
        push_decimal(s, n);
    } else if n < 10 {
        s.append("0");
        push_decimal(s, n);
    } else {
        push_decimal(s, n);
    }
    assert(final(s)@ =~= old(s)@ + two_digit_text(signed(negative, n as int)));
}

/// The hours, minutes and seconds of a timestamp of `ms` milliseconds.
#[verifier::opaque]
pub open spec fn clock_fields(ms: int) -> (int, int, int) {
    let s = whole_units(ms, 1000);
    let h = whole_units(s, 3600);
    let m = whole_units(s, 60) - h * 60;
    (h, m, s - m * 60 - h * 3600)
}

/// A magnitude with the sign of an offset.
pub open spec fn signed(negative: bool, n: int) -> int {
    if negative {
        -n
    } else {
        n
    }
}

proof fn lemma_whole_units_of_magnitude(ms: int, magnitude: int, unit: int)
    requires
        unit > 0,
        magnitude == if ms < 0 {
            -ms
        } else {
            ms
        },
    ensures
        whole_units(ms, unit) == signed(ms < 0, magnitude / unit),
        magnitude / unit >= 0,
{
    if ms < 0 && magnitude / unit == 0 {
        assert(whole_units(ms, unit) == 0);
    }
}

/// The clock fields of an offset, as magnitudes and a sign.
fn clock_magnitudes(duration: Duration) -> (r: (u64, u64, u64, bool))
    ensures
        r.0 < 1_000_000_000_000_000_000,
        r.1 < 60,
        r.2 < 60,
        clock_fields(duration.ms as int) == (
            signed(r.3, r.0 as int),
            signed(r.3, r.1 as int),
            signed(r.3, r.2 as int),
        ),
{
    let negative = duration.ms < 0;
    let magnitude: u64 = if negative {
        (-(duration.ms + 1)) as u64 + 1
    } else {
        duration.ms as u64
    };
    let total_seconds = magnitude / 1000;
    let total_minutes = total_seconds / 60;
    let hours = total_seconds / 3600;
    proof {
        let ms = duration.ms as int;
        lemma_whole_units_of_magnitude(ms, magnitude as int, 1000);
        let s = whole_units(ms, 1000);
        lemma_whole_units_of_magnitude(s, total_seconds as int, 3600);
        lemma_whole_units_of_magnitude(s, total_seconds as int, 60);
        vstd::arithmetic::div_mod::lemma_div_denominator(total_seconds as int, 60, 60);
        reveal(clock_fields);
    }
    let minutes = total_minutes - hours * 60;
    let seconds = total_seconds - total_minutes * 60;
    (hours, minutes, seconds, negative)
}

/// The timestamp of `duration` in notation `timestamp_type`.
pub fn duration_to_timestamp(duration: Duration, timestamp_type: TimestampType) -> (r: String)
    ensures
        r@ == timestamp_text(duration.ms as int, timestamp_type),
{
    let (hours, minutes, seconds, negative) = clock_magnitudes(duration);
    let mut s = String::new();
    push_clock(&mut s, hours, minutes, seconds, negative, timestamp_type);
    s
}

/// Appends a timestamp of the given clock fields, as magnitudes and a sign.
fn push_clock(s: &mut String, hours: u64, minutes: u64, seconds: u64, negative: bool, t: TimestampType)
    ensures
        final(s)@ == old(s)@ + clock_text(
            signed(negative, hours as int),
            signed(negative, minutes as int),
            signed(negative, seconds as int),
            t,
        ),
{
    proof {
        reveal_strlit(":");
        reveal_strlit("(");
        reveal_strlit(")");
    }
    let parenthesized = match t {
        TimestampType::MmSsParentheses | TimestampType::HhMmSsParentheses => true,
        _ => false,
    };
    let with_hours = match t {
        TimestampType::HhMmSs | TimestampType::HhMmSsParentheses => true,
        _ => false,
    };
    if parenthesized {
        s.append("(");
    }
    if with_hours {
        push_two_digits(s, hours, negative);
        s.append(":");
    }
    push_two_digits(s, minutes, negative);
    s.append(":");
    push_two_digits(s, seconds, negative);
    if parenthesized {
        s.append(")");
    }
    assert(final(s)@ =~= old(s)@ + clock_text(
        signed(negative, hours as int),
        signed(negative, minutes as int),
        signed(negative, seconds as int),
        t,
    ));
}

/// Writes chapters as description lines, `<timestamp> - <title>`, in their
/// order; the notation is `HH:MM:SS` where some chapter starts an hour or
/// more in, else `MM:SS`. Every chapter needs a title.
pub fn to_description(chapters: &[Chapter]) -> (r: Result<String, String>)
    ensures
        match description_text(chapters_view(chapters@)) {
            Some(t) => r matches Ok(s) && s@ == t,
            None => r is Err,
        },
{
    let ghost cs = chapters_view(chapters@);
    let mut long = false;
    let mut k: usize = 0;
    while k < chapters.len()
        invariant
            k <= chapters@.len(),
            cs == chapters_view(chapters@),
            long <==> exists|i: int| 0 <= i < k && #[trigger] cs[i].start >= 3_600_000,
        decreases chapters@.len() - k,
    {
        assert(cs[k as int].start == chapters@[k as int].start.ms);
        if chapters[k].start.ms >= 3_600_000 {
            long = true;
        }
        k = k + 1;
    }
    let timestamp_type = if long {
        TimestampType::HhMmSs
    } else {
        TimestampType::MmSs
    };
    assert(timestamp_type == notation_for(cs));
    let mut description = String::new();
    let mut i: usize = 0;
    while i < chapters.len()
        invariant
            i <= chapters@.len(),
            cs == chapters_view(chapters@),
            timestamp_type == notation_for(cs),
            forall|j: int| 0 <= j < i ==> (#[trigger] cs[j]).title is Some,
            description@ == description_lines(cs.take(i as int), timestamp_type),
        decreases chapters@.len() - i,
    {
        match &chapters[i].title {
            None => {
                assert(cs[i as int].title is None);
                return Err(String::from_str("Chapter title is missing"));
            },
            Some(title) => {
                let stamp = duration_to_timestamp(chapters[i].start, timestamp_type);
                proof {
                    reveal_strlit(" - ");
                    reveal_strlit("\n");
                }
                description.append(stamp.as_str());
                description.append(" - ");
                description.append(title.as_str());
                description.append("\n");
                assert(cs.take(i + 1).drop_last() =~= cs.take(i as int));
                assert(description@ =~= description_lines(cs.take(i + 1), timestamp_type));
            },
        }
        i = i + 1;
    }
    assert(cs.take(i as int) =~= cs);
    Ok(description)
}

impl TimestampType {
    /// The regular expression of a timestamp in this notation, anchored at
    /// the start, with named groups for its fields.
    pub open spec fn pattern_text(self) -> Seq<char> {
        match self {
            TimestampType::MmSs => r"^(?P<minutes>[0-5]\d):(?P<seconds>[0-5]\d)"@,
            TimestampType::HhMmSs => r"^(?P<hours>\d{2}):(?P<minutes>[0-5]\d):(?P<seconds>[0-5]\d)"@,
            TimestampType::MmSsParentheses => r"^\((?P<minutes>[0-5]\d):(?P<seconds>[0-5]\d)\)"@,
            TimestampType::HhMmSsParentheses => r"^\((?P<hours>\d{2}):(?P<minutes>[0-5]\d):(?P<seconds>[0-5]\d)\)"@,
        }
    }

    /// The regular expression of a timestamp in this notation (see
    /// `starts_line`), for use with a regular expression engine. Digits are
    /// ASCII digits in this library's reading.
    pub fn regex_pattern(&self) -> (r: &'static str)
        ensures
            r@ == self.pattern_text(),
    {
        match self {
            TimestampType::MmSs => r"^(?P<minutes>[0-5]\d):(?P<seconds>[0-5]\d)",
            TimestampType::HhMmSs => r"^(?P<hours>\d{2}):(?P<minutes>[0-5]\d):(?P<seconds>[0-5]\d)",
            TimestampType::MmSsParentheses => r"^\((?P<minutes>[0-5]\d):(?P<seconds>[0-5]\d)\)",
            TimestampType::HhMmSsParentheses => r"^\((?P<hours>\d{2}):(?P<minutes>[0-5]\d):(?P<seconds>[0-5]\d)\)",
        }
    }

    /// The regular expression of a whole chapter line in this notation (see
    /// `matches_line`): the timestamp, one or more of `.`, `!`, `?`, `-` and
    /// space, then the title text in the group `text`.
    pub fn line_regex_pattern(&self) -> (r: String)
        ensures
            r@ == self.pattern_text() + r"[.!?\- ]+(?P<text>.+)$"@,
    {
        let mut r = String::from_str(self.regex_pattern());
        r.append(r"[.!?\- ]+(?P<text>.+)$");
        r
    }
}

/// Once a notation is detected, the first line that does not match it ends
/// the scan: no later line gives a chapter, whether it matches or not.
pub proof fn lemma_scan_stops_at_mismatch(d: Seq<char>, i: int, t: TimestampType)
    requires
        0 <= i <= d.len(),
        !t.matches_line(trim(d.subrange(i, line_end(d, i)))),
    ensures
        scan(d, i, Some(t)) == Seq::<(int, Seq<char>)>::empty(),
{
    lemma_line_end_bounds(d, i);
}

/// Before a notation is detected, a line that matches none is skipped, and
/// a line that matches one gives its chapter and fixes that notation for
/// the lines after it.
pub proof fn lemma_scan_detects(d: Seq<char>, i: int)
    requires
        0 <= i <= d.len(),
    ensures
        ({
            let e = line_end(d, i);
            let line = trim(d.subrange(i, e));
            &&& detect(line) is None ==> scan(d, i, None) == if e < d.len() {
                scan(d, e + 1, None)
            } else {
                Seq::empty()
            }
            &&& detect(line) matches Some(t) ==> scan(d, i, None) == seq![
                t.line_entry(line).unwrap(),
            ] + if e < d.len() {
                scan(d, e + 1, Some(t))
            } else {
                Seq::empty()
            }
        }),
{
    lemma_line_end_bounds(d, i);
}

/// A description is written in `MM:SS` where every chapter starts within
/// the first hour, and in `HH:MM:SS`, on every line, where one starts later.
pub proof fn lemma_notation_choice(cs: Seq<ChapterView>)
    ensures
        (forall|i: int| 0 <= i < cs.len() ==> #[trigger] cs[i].start < 3_600_000) ==> notation_for(
            cs,
        ) == TimestampType::MmSs,
        (exists|i: int| 0 <= i < cs.len() && #[trigger] cs[i].start >= 3_600_000) ==> notation_for(
            cs,
        ) == TimestampType::HhMmSs,
{
}

} // verus!
