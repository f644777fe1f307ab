//! Sensor value handling: the label-to-value snapshot consumed by a render
//! pass, the synthetic date/time labels, key-value source line parsing, and
//! regular-expression label filters.

use vstd::prelude::*;

use chrono::{Datelike, Timelike};

use crate::strutil::{digit_char, spec_u64_string, str_eq, push_u64};

verus! {

/// A wall-clock date and time, split into plain components.
#[derive(Debug, Clone, Copy, PartialEq, Eq, Structural)]
pub struct DateTime {
    pub year: i32,
    pub month: u8,
    pub day: u8,
    pub hour: u8,
    pub minute: u8,
    pub second: u8,
}

impl DateTime {
    /// Component ranges of a calendar clock reading.
    pub open spec fn wf(self) -> bool {
        1 <= self.month <= 12 && 1 <= self.day <= 31 && self.hour <= 23 && self.minute <= 59
            && self.second <= 59
    }
}

/// Relies on `chrono::Local::now` and the `Datelike`/`Timelike` accessors:
/// the month is 1 to 12, the day 1 to 31, hour, minute and second within a
/// day.  Which moment comes back depends on the system clock.
#[verifier::external_body]
pub fn local_now() -> (r: DateTime)
    ensures
        r.wf(),
{
    let now = chrono::Local::now();
    DateTime {
        year: now.year(),
        month: now.month() as u8,
        day: now.day() as u8,
        hour: now.hour() as u8,
        minute: now.minute() as u8,
        second: now.second() as u8,
    }
}

/// Two zero-padded decimal digits.
pub open spec fn spec_two_digits(n: int) -> Seq<char> {
    seq![digit_char(n / 10), digit_char(n % 10)]
}

/// The decimal string of a year, with a sign for years before year zero.
pub open spec fn spec_year_string(y: int) -> Seq<char> {
    if y >= 0 {
        spec_u64_string(y as u64)
    } else {
        seq!['-'] + spec_u64_string((-y) as u64)
    }
}

fn push_two_digits(out: &mut String, n: u8)
    requires
        n < 100,
    ensures
        final(out)@ == old(out)@ + spec_two_digits(n as int),
{
    out.push(crate::strutil::digit_to_char(n / 10));
    out.push(crate::strutil::digit_to_char(n % 10));
    proof {
        assert(final(out)@ =~= old(out)@ + spec_two_digits(n as int));
    }
}

fn push_year(out: &mut String, y: i32)
    ensures
        final(out)@ == old(out)@ + spec_year_string(y as int),
{
    if y >= 0 {
        push_u64(out, y as u64);
    } else {
        out.push('-');
        let mag = -(y as i64);
        push_u64(out, mag as u64);
        proof {
            assert(final(out)@ =~= old(out)@ + spec_year_string(y as int));
        }
    }
}

/// The value of a synthetic date/time label, if the label is one.
pub open spec fn spec_date_time_value(label: Seq<char>, now: DateTime) -> Option<Seq<char>> {
    let year = spec_year_string(now.year as int);
    let month = spec_two_digits(now.month as int);
    let day = spec_two_digits(now.day as int);
    let hour = spec_two_digits(now.hour as int);
    let minute = spec_two_digits(now.minute as int);
    let second = spec_two_digits(now.second as int);
    if label == "DATE_year"@ {
        Some(year)
    } else if label == "DATE_month"@ {
        Some(month)
    } else if label == "DATE_day"@ {
        Some(day)
    } else if label == "DATE_hour"@ {
        Some(hour)
    } else if label == "DATE_minute"@ {
        Some(minute)
    } else if label == "DATE_second"@ {
        Some(second)
    } else if label == "DATE_m_d_h_m_1"@ {
        Some(month + seq!['\u{6708}'] + day + seq!['\u{65e5}', ' ', ' '] + hour + seq![':'] + minute)
    } else if label == "DATE_m_d_h_m_2"@ {
        Some(month + seq!['/'] + day + seq![' ', ' '] + hour + seq![':'] + minute)
    } else if label == "DATE_m_d_1"@ {
        Some(month + seq!['\u{6708}'] + day + seq!['\u{65e5}'])
    } else if label == "DATE_m_d_2"@ {
        Some(month + seq!['-'] + day)
    } else if label == "DATE_y_m_d_1"@ {
        Some(year + seq!['\u{5e74}'] + month + seq!['\u{6708}'] + day + seq!['\u{65e5}'])
    } else if label == "DATE_y_m_d_2"@ {
        Some(year + seq!['-'] + month + seq!['-'] + day)
    } else if label == "DATE_y_m_d_3"@ {
        Some(year + seq!['/'] + month + seq!['/'] + day)
    } else if label == "DATE_y_m_d_4"@ {
        Some(year + seq![' '] + month + seq![' '] + day)
    } else if label == "DATE_h_m_s_1"@ {
        Some(hour + seq![':'] + minute + seq![':'] + second)
    } else if label == "DATE_h_m_s_2"@ {
        Some(
            hour + seq!['\u{65f6}'] + minute + seq!['\u{5206}'] + second + seq!['\u{79d2}'],
        )
    } else if label == "DATE_h_m_s_3"@ {
        Some(hour + seq![' '] + minute + seq![' '] + second)
    } else if label == "DATE_h_m_1"@ {
        Some(hour + seq!['\u{65f6}'] + minute + seq!['\u{5206}'])
    } else if label == "DATE_h_m_2"@ {
        Some(hour + seq![' ', ':', ' '] + minute)
    } else if label == "DATE_h_m_3"@ {
        Some(hour + seq![':'] + minute)
    } else {
        None
    }
}

/// Computes the value of a synthetic date/time label from the given clock
/// reading, in the same formats the display vendor's application uses.
pub fn get_date_time_value(label: &str, now: &DateTime) -> (r: Option<String>)
    requires
        now.wf(),
    ensures
        match r {
            Some(v) => spec_date_time_value(label@, *now) == Some(v@),
            None => spec_date_time_value(label@, *now) is None,
        },
{
    let mut out = String::new();
    if str_eq(label, "DATE_year") {
        push_year(&mut out, now.year);
        Some(out)
    } else if str_eq(label, "DATE_month") {
        push_two_digits(&mut out, now.month);
        Some(out)
    } else if str_eq(label, "DATE_day") {
        push_two_digits(&mut out, now.day);
        Some(out)
    } else if str_eq(label, "DATE_hour") {
        push_two_digits(&mut out, now.hour);
        Some(out)
    } else if str_eq(label, "DATE_minute") {
        push_two_digits(&mut out, now.minute);
        Some(out)
    } else if str_eq(label, "DATE_second") {
        push_two_digits(&mut out, now.second);
        Some(out)
    } else if str_eq(label, "DATE_m_d_h_m_1") {
        push_two_digits(&mut out, now.month);
        out.push('\u{6708}');
        push_two_digits(&mut out, now.day);
        out.push('\u{65e5}');
        out.push(' ');
        out.push(' ');
        push_two_digits(&mut out, now.hour);
        out.push(':');
        push_two_digits(&mut out, now.minute);
        proof {
            assert(Some(out@) =~= spec_date_time_value(label@, *now));
        }
        Some(out)
    } else if str_eq(label, "DATE_m_d_h_m_2") {
        push_two_digits(&mut out, now.month);
        out.push('/');
        push_two_digits(&mut out, now.day);
        out.push(' ');
        out.push(' ');
        push_two_digits(&mut out, now.hour);
        out.push(':');
        push_two_digits(&mut out, now.minute);
        proof {
            assert(Some(out@) =~= spec_date_time_value(label@, *now));
        }
        Some(out)
    } else if str_eq(label, "DATE_m_d_1") {
        push_two_digits(&mut out, now.month);
        out.push('\u{6708}');
        push_two_digits(&mut out, now.day);
        out.push('\u{65e5}');
        proof {
            assert(Some(out@) =~= spec_date_time_value(label@, *now));
        }
        Some(out)
    } else if str_eq(label, "DATE_m_d_2") {
        push_two_digits(&mut out, now.month);
        out.push('-');
        push_two_digits(&mut out, now.day);
        proof {
            assert(Some(out@) =~= spec_date_time_value(label@, *now));
        }
        Some(out)
    } else if str_eq(label, "DATE_y_m_d_1") {
        push_year(&mut out, now.year);
        out.push('\u{5e74}');
        push_two_digits(&mut out, now.month);
        out.push('\u{6708}');
        push_two_digits(&mut out, now.day);
        out.push('\u{65e5}');
        proof {
            assert(Some(out@) =~= spec_date_time_value(label@, *now));
        }
        Some(out)
    } else if str_eq(label, "DATE_y_m_d_2") {
        push_year(&mut out, now.year);
        out.push('-');
        push_two_digits(&mut out, now.month);
        out.push('-');
        push_two_digits(&mut out, now.day);
        proof {
            assert(Some(out@) =~= spec_date_time_value(label@, *now));
        }
        Some(out)
    } else if str_eq(label, "DATE_y_m_d_3") {
        push_year(&mut out, now.year);
        out.push('/');
        push_two_digits(&mut out, now.month);
        out.push('/');
        push_two_digits(&mut out, now.day);
        proof {
            assert(Some(out@) =~= spec_date_time_value(label@, *now));
        }
        Some(out)
    } else if str_eq(label, "DATE_y_m_d_4") {
        push_year(&mut out, now.year);
        out.push(' ');
        push_two_digits(&mut out, now.month);
        out.push(' ');
        push_two_digits(&mut out, now.day);
        proof {
            assert(Some(out@) =~= spec_date_time_value(label@, *now));
        }
        Some(out)
    } else if str_eq(label, "DATE_h_m_s_1") {
        push_two_digits(&mut out, now.hour);
        out.push(':');
        push_two_digits(&mut out, now.minute);
        out.push(':');
        push_two_digits(&mut out, now.second);
        proof {
            assert(Some(out@) =~= spec_date_time_value(label@, *now));
        }
        Some(out)
    } else if str_eq(label, "DATE_h_m_s_2") {
        push_two_digits(&mut out, now.hour);
        out.push('\u{65f6}');
        push_two_digits(&mut out, now.minute);
        out.push('\u{5206}');
        push_two_digits(&mut out, now.second);
        out.push('\u{79d2}');
        proof {
            assert(Some(out@) =~= spec_date_time_value(label@, *now));
        }
        Some(out)
    } else if str_eq(label, "DATE_h_m_s_3") {
        push_two_digits(&mut out, now.hour);
        out.push(' ');
        push_two_digits(&mut out, now.minute);
        out.push(' ');
        push_two_digits(&mut out, now.second);
        proof {
            assert(Some(out@) =~= spec_date_time_value(label@, *now));
        }
        Some(out)
    } else if str_eq(label, "DATE_h_m_1") {
        push_two_digits(&mut out, now.hour);
        out.push('\u{65f6}');
        push_two_digits(&mut out, now.minute);
        out.push('\u{5206}');
        proof {
            assert(Some(out@) =~= spec_date_time_value(label@, *now));
        }
        Some(out)
    } else if str_eq(label, "DATE_h_m_2") {
        push_two_digits(&mut out, now.hour);
        out.push(' ');
        out.push(':');
        out.push(' ');
        push_two_digits(&mut out, now.minute);
        proof {
            assert(Some(out@) =~= spec_date_time_value(label@, *now));
        }
        Some(out)
    } else if str_eq(label, "DATE_h_m_3") {
        push_two_digits(&mut out, now.hour);
        out.push(':');
        push_two_digits(&mut out, now.minute);
        proof {
            assert(Some(out@) =~= spec_date_time_value(label@, *now));
        }
        Some(out)
    } else {
        None
    }
}

/// ASCII whitespace, as trimmed from key-value source lines.
pub open spec fn is_space_char(c: char) -> bool {
    c == ' ' || c == '\t' || c == '\n' || c == '\r' || c == '\u{b}' || c == '\u{c}'
}

/// Index of the first character that is not whitespace; the length if all
/// are.
pub open spec fn spec_trim_start(s: Seq<char>) -> int
    decreases s.len(),
{
    if s.len() == 0 {
        0
    } else if is_space_char(s[0]) {
        1 + spec_trim_start(s.skip(1))
    } else {
        0
    }
}

/// Index after the last character that is not whitespace; 0 if all are.
pub open spec fn spec_trim_end(s: Seq<char>) -> int
    decreases s.len(),
{
    if s.len() == 0 {
        0
    } else if is_space_char(s.last()) {
        spec_trim_end(s.drop_last())
    } else {
        s.len() as int
    }
}

/// The sequence with surrounding whitespace removed.
pub open spec fn spec_trim(s: Seq<char>) -> Seq<char> {
    let a = spec_trim_start(s);
    let b = spec_trim_end(s);
    if a <= b {
        s.subrange(a, b)
    } else {
        Seq::empty()
    }
}

proof fn lemma_trim_start_bounds(s: Seq<char>)
    ensures
        0 <= spec_trim_start(s) <= s.len(),
        forall|j: int| 0 <= j < spec_trim_start(s) ==> is_space_char(#[trigger] s[j]),
        spec_trim_start(s) < s.len() ==> !is_space_char(s[spec_trim_start(s)]),
    decreases s.len(),
{
    if s.len() == 0 {
    } else if is_space_char(s[0]) {
        lemma_trim_start_bounds(s.skip(1));
        assert forall|j: int| 0 <= j < spec_trim_start(s) implies is_space_char(
            #[trigger] s[j],
        ) by {
            if j > 0 {
                assert(s.skip(1)[j - 1] == s[j]);
                assert(is_space_char(s.skip(1)[j - 1]));
            }
        }
        if spec_trim_start(s) < s.len() {
            assert(s.skip(1)[spec_trim_start(s) - 1] == s[spec_trim_start(s)]);
        }
    } else {
    }
}

proof fn lemma_trim_end_bounds(s: Seq<char>)
    ensures
        0 <= spec_trim_end(s) <= s.len(),
        forall|j: int| spec_trim_end(s) <= j < s.len() ==> is_space_char(#[trigger] s[j]),
        spec_trim_end(s) > 0 ==> !is_space_char(s[spec_trim_end(s) - 1]),
    decreases s.len(),
{
    if s.len() == 0 {
    } else if is_space_char(s.last()) {
        lemma_trim_end_bounds(s.drop_last());
        assert forall|j: int| spec_trim_end(s) <= j < s.len() implies is_space_char(
            #[trigger] s[j],
        ) by {
            if j < s.len() - 1 {
                assert(s.drop_last()[j] == s[j]);
                assert(is_space_char(s.drop_last()[j]));
            }
        }
        if spec_trim_end(s) > 0 {
            assert(s.drop_last()[spec_trim_end(s) - 1] == s[spec_trim_end(s) - 1]);
        }
    } else {
    }
}

fn is_space(c: char) -> (r: bool)
    ensures
        r == is_space_char(c),
{
    c == ' ' || c == '\t' || c == '\n' || c == '\r' || c == '\u{b}' || c == '\u{c}'
}

/// The slice of `s` with surrounding ASCII whitespace removed.
pub fn trim(s: &str) -> (r: &str)
    ensures
        r@ == spec_trim(s@),
{
    let len = s.unicode_len();
    proof {
        assert(s@.skip(0) =~= s@);
    }
    let mut a: usize = 0;
    while a < len && is_space(s.get_char(a))
        invariant
            0 <= a <= len,
            len == s@.len(),
            spec_trim_start(s@) == a + spec_trim_start(s@.skip(a as int)),
        decreases len - a,
    {
        proof {
            let t = s@.skip(a as int);
            assert(t[0] == s@[a as int]);
            assert(t.skip(1) =~= s@.skip(a + 1));
        }
        a += 1;
    }
    proof {
        if a < len {
            let t = s@.skip(a as int);
            assert(t[0] == s@[a as int]);
        } else {
            assert(s@.skip(a as int).len() == 0);
        }
        assert(spec_trim_start(s@) == a);
    }
    proof {
        assert(s@.take(len as int) =~= s@);
    }
    let mut b: usize = len;
    while b > a && is_space(s.get_char(b - 1))
        invariant
            a <= b <= len,
            len == s@.len(),
            spec_trim_start(s@) == a,
            spec_trim_end(s@) == spec_trim_end(s@.take(b as int)),
        decreases b,
    {
        proof {
            let t = s@.take(b as int);
            assert(t.last() == s@[b - 1]);
            assert(t.drop_last() =~= s@.take(b - 1));
        }
        b -= 1;
    }
    proof {
        lemma_trim_start_bounds(s@);
        let t = s@.take(b as int);
        if b > a {
            assert(t.last() == s@[b - 1]);
            assert(spec_trim_end(t) == b);
        } else {
            assert(b == a);
            assert forall|j: int| 0 <= j < t.len() implies is_space_char(#[trigger] t[j]) by {
                assert(t[j] == s@[j]);
            }
            lemma_trim_end_prefix_spaces(t);
            assert(spec_trim_end(t) <= a);
            lemma_trim_end_bounds(s@);
            if spec_trim_end(s@) < a {
                assert(is_space_char(s@[spec_trim_end(s@)])
                    == !is_space_char(s@[spec_trim_end(s@)]) ==> false);
            }
        }
    }
    let r = s.substring_char(a, b);
    proof {
        if spec_trim_start(s@) <= spec_trim_end(s@) {
            assert(r@ =~= spec_trim(s@));
        } else {
            assert(r@ =~= spec_trim(s@));
        }
    }
    r
}

proof fn lemma_trim_end_prefix_spaces(t: Seq<char>)
    requires
        forall|j: int| 0 <= j < t.len() ==> is_space_char(#[trigger] t[j]),
    ensures
        spec_trim_end(t) == 0,
    decreases t.len(),
{
    if t.len() == 0 {
    } else {
        assert(is_space_char(t.last()));
        assert(forall|j: int| 0 <= j < t.len() - 1 ==> t.drop_last()[j] == t[j]);
        lemma_trim_end_prefix_spaces(t.drop_last());
    }
}

/// Index of the first `:`, if any.
pub open spec fn spec_colon_pos(s: Seq<char>) -> Option<int>
    decreases s.len(),
{
    if s.len() == 0 {
        None
    } else if s[0] == ':' {
        Some(0int)
    } else {
        match spec_colon_pos(s.skip(1)) {
            Some(i) => Some(i + 1),
            None => None,
        }
    }
}

proof fn lemma_colon_pos_props(t: Seq<char>)
    ensures
        match spec_colon_pos(t) {
            Some(i) => 0 <= i < t.len() && t[i] == ':' && (forall|j: int|
                0 <= j < i ==> t[j] != ':'),
            None => forall|j: int| 0 <= j < t.len() ==> t[j] != ':',
        },
    decreases t.len(),
{
    if t.len() == 0 {
    } else if t[0] == ':' {
    } else {
        lemma_colon_pos_props(t.skip(1));
        match spec_colon_pos(t.skip(1)) {
            Some(i) => {
                assert(t.skip(1)[i] == t[i + 1]);
                assert forall|j: int| 0 <= j < i + 1 implies t[j] != ':' by {
                    if j > 0 {
                        assert(t.skip(1)[j - 1] == t[j]);
                    }
                }
            },
            None => {
                assert forall|j: int| 0 <= j < t.len() implies t[j] != ':' by {
                    if j > 0 {
                        assert(t.skip(1)[j - 1] == t[j]);
                    }
                }
            },
        }
    }
}

proof fn lemma_colon_pos_at(t: Seq<char>, i: int)
    requires
        0 <= i < t.len(),
        t[i] == ':',
        forall|j: int| 0 <= j < i ==> t[j] != ':',
    ensures
        spec_colon_pos(t) == Some(i),
    decreases i,
{
    if i == 0 {
    } else {
        assert(t[0] != ':');
        assert(forall|j: int| 0 <= j < t.len() - 1 ==> t.skip(1)[j] == t[j + 1]);
        lemma_colon_pos_at(t.skip(1), i - 1);
    }
}

/// What one key-value source line yields: nothing for a blank or comment
/// line or one without a separator, else the trimmed key and value around
/// the first `:`.
pub open spec fn spec_key_value_line(line: Seq<char>) -> Option<(Seq<char>, Seq<char>)> {
    let t = spec_trim(line);
    if t.len() == 0 || t[0] == '#' {
        None
    } else {
        match spec_colon_pos(t) {
            Some(i) => Some((spec_trim(t.take(i)), spec_trim(t.skip(i + 1)))),
            None => None,
        }
    }
}

/// Parses one line of a key-value sensor source: blank lines, `#` comments
/// and lines without a `:` separator yield nothing; otherwise the key and
/// value around the first `:` are returned, both trimmed.
pub fn parse_key_value_line(line: &str) -> (r: Option<(String, String)>)
    ensures
        match r {
            Some(kv) => spec_key_value_line(line@) == Some((kv.0@, kv.1@)),
            None => spec_key_value_line(line@) is None,
        },
{
    let t = trim(line);
    let tlen = t.unicode_len();
    if tlen == 0 {
        return None;
    }
    if t.get_char(0) == '#' {
        return None;
    }
    let mut i: usize = 0;
    while i < tlen
        invariant
            0 <= i <= tlen,
            tlen == t@.len(),
            t@ == spec_trim(line@),
            t@.len() > 0,
            t@[0] != '#',
            forall|j: int| 0 <= j < i ==> t@[j] != ':',
        decreases tlen - i,
    {
        if t.get_char(i) == ':' {
            proof {
                lemma_colon_pos_at(t@, i as int);
            }
            let key = trim(t.substring_char(0, i));
            let value = trim(t.substring_char(i + 1, tlen));
            proof {
                assert(t@.subrange(0, i as int) =~= t@.take(i as int));
                assert(t@.subrange(i + 1, tlen as int) =~= t@.skip(i + 1));
                assert(t@ == spec_trim(line@));
                assert(t@.len() > 0);
                assert(t@[0] != '#');
                assert(spec_colon_pos(spec_trim(line@)) == Some(i as int));
                assert(key@ == spec_trim(t@.take(i as int)));
                assert(value@ == spec_trim(t@.skip(i + 1)));
                assert(spec_key_value_line(line@) == Some((key@, value@)));
            }
            return Some((key.to_owned(), value.to_owned()));
        }
        i += 1;
    }
    proof {
        lemma_colon_pos_props(t@);
        if spec_colon_pos(t@) is Some {
            assert(false);
        }
    }
    None
}

/// A filter line: trimmed; blank lines and `#` comments yield nothing.
pub open spec fn spec_filter_pattern_line(line: Seq<char>) -> Option<Seq<char>> {
    let t = spec_trim(line);
    if t.len() == 0 || t[0] == '#' {
        None
    } else {
        Some(t)
    }
}

/// Extracts the pattern from one line of a sensor filter file: blank lines
/// and `#` comments yield nothing, every other line is a pattern.
pub fn filter_pattern_line(line: &str) -> (r: Option<String>)
    ensures
        match r {
            Some(p) => spec_filter_pattern_line(line@) == Some(p@),
            None => spec_filter_pattern_line(line@) is None,
        },
{
    let t = trim(line);
    if t.unicode_len() == 0 {
        return None;
    }
    if t.get_char(0) == '#' {
        return None;
    }
    Some(t.to_owned())
}

#[verifier::external_type_specification]
#[verifier::external_body]
pub struct ExRegex(regex::Regex);

/// What a compiled regular expression pattern matches on a given text.
pub uninterp spec fn regex_matches(pattern: Seq<char>, text: Seq<char>) -> bool;

/// A sensor label filter: a regular expression kept with its pattern.
pub struct SensorFilter {
    pattern: String,
    re: regex::Regex,
}

impl SensorFilter {
    pub closed spec fn spec_pattern(&self) -> Seq<char> {
        self.pattern@
    }

    /// Relies on `regex::Regex::new`: compiles the pattern, or fails on an
    /// invalid pattern.
    #[verifier::external_body]
    pub fn compile(pattern: &str) -> (r: Option<SensorFilter>)
        ensures
            match r {
                Some(f) => f.spec_pattern() == pattern@,
                None => true,
            },
    {
        match regex::Regex::new(pattern) {
            Ok(re) => Some(SensorFilter { pattern: pattern.to_string(), re }),
            Err(_) => None,
        }
    }

    /// Relies on `regex::Regex::is_match`: whether the compiled pattern
    /// matches somewhere in the text.
    #[verifier::external_body]
    pub fn is_match(&self, text: &str) -> (r: bool)
        ensures
            r == regex_matches(self.spec_pattern(), text@),
    {
        self.re.is_match(text)
    }
}

/// Whether any of the filters matches the key.
pub fn is_filtered(key: &str, filters: &Vec<SensorFilter>) -> (r: bool)
    ensures
        r == exists|i: int|
            0 <= i < filters@.len() && regex_matches(
                #[trigger] filters@[i].spec_pattern(),
                key@,
            ),
{
    let n = filters.len();
    let mut i: usize = 0;
    while i < n
        invariant
            0 <= i <= n,
            n == filters@.len(),
            forall|j: int|
                0 <= j < i ==> !regex_matches(#[trigger] filters@[j].spec_pattern(), key@),
        decreases n - i,
    {
        if filters[i].is_match(key) {
            return true;
        }
        i += 1;
    }
    false
}

/// The label-to-value snapshot one render pass reads: an association list
/// with unique keys, read through its map view.
pub struct SensorValues {
    entries: Vec<(String, String)>,
}

impl SensorValues {
    /// The lookup a key resolves to, newest entry first.
    pub closed spec fn spec_get_in(s: Seq<(String, String)>, k: Seq<char>) -> Option<Seq<char>>
        decreases s.len(),
    {
        if s.len() == 0 {
            None
        } else if s.last().0@ == k {
            Some(s.last().1@)
        } else {
            Self::spec_get_in(s.drop_last(), k)
        }
    }

    /// The value stored for a label, if any.
    pub open spec fn spec_get(&self, k: Seq<char>) -> Option<Seq<char>> {
        Self::spec_get_in(self.spec_entries(), k)
    }

    pub closed spec fn spec_entries(&self) -> Seq<(String, String)> {
        self.entries@
    }

    /// Keys are unique.
    pub closed spec fn wf(&self) -> bool {
        forall|i: int, j: int|
            0 <= i < j < self.entries@.len() ==> #[trigger] self.entries@[i].0@ != #[trigger] self.entries@[j].0@
    }

    /// An empty snapshot.
    pub fn new() -> (r: SensorValues)
        ensures
            r.wf(),
            forall|k: Seq<char>| r.spec_get(k) is None,
    {
        SensorValues { entries: Vec::new() }
    }

    /// Looks a label up.
    pub fn get(&self, label: &str) -> (r: Option<String>)
        ensures
            match r {
                Some(v) => self.spec_get(label@) == Some(v@),
                None => self.spec_get(label@) is None,
            },
    {
        let n = self.entries.len();
        proof {
            assert(self.entries@.take(n as int) =~= self.entries@);
        }
        let mut i: usize = n;
        while i > 0
            invariant
                0 <= i <= n,
                n == self.entries@.len(),
                self.spec_get(label@) == Self::spec_get_in(self.entries@.take(i as int), label@),
            decreases i,
        {
            proof {
                assert(self.entries@.take(i as int).last() == self.entries@[i - 1]);
                assert(self.entries@.take(i as int).drop_last() =~= self.entries@.take(i - 1));
            }
            if str_eq(self.entries[i - 1].0.as_str(), label) {
                return Some(self.entries[i - 1].1.clone());
            }
            i -= 1;
        }
        proof {
            assert(self.entries@.take(0) =~= Seq::<(String, String)>::empty());
        }
        None
    }
}

/// Stores a sensor reading: an existing entry for the label is replaced,
/// otherwise a new entry is added.
pub fn add_sensor(sensors: &mut SensorValues, label: &str, value: &str)
    requires
        old(sensors).wf(),
    ensures
        final(sensors).wf(),
        final(sensors).spec_get(label@) == Some(value@),
        forall|k: Seq<char>|
            k != label@ ==> #[trigger] final(sensors).spec_get(k) == old(sensors).spec_get(k),
{
    let n = sensors.entries.len();
    let mut i: usize = 0;
    while i < n
        invariant
            0 <= i <= n,
            n == sensors.entries@.len(),
            sensors.entries@ == old(sensors).entries@,
            sensors.wf(),
            forall|j: int| 0 <= j < i ==> #[trigger] sensors.entries@[j].0@ != label@,
        decreases n - i,
    {
        if str_eq(sensors.entries[i].0.as_str(), label) {
            let ghost pre = sensors.entries@;
            let pair = (label.to_owned(), value.to_owned());
            let ghost pv = pair;
            sensors.entries.set(i, pair);
            proof {
                assert(pre[i as int].0@ == label@);
                assert forall|j: int| 0 <= j < pre.len() && j != i implies #[trigger] pre[j].0@
                    != pre[i as int].0@ by {
                    if j < i {
                    } else {
                        assert(pre[i as int].0@ != pre[j].0@);
                    }
                }
                lemma_get_after_update(pre, i as int, pv);
                assert(sensors.entries@ == pre.update(i as int, pv));
                assert(sensors.wf()) by {
                    let e = sensors.entries@;
                    assert forall|a: int, b: int| 0 <= a < b < e.len() implies #[trigger] e[a].0@
                        != #[trigger] e[b].0@ by {
                        if a == i {
                            assert(e[a].0@ == pre[i as int].0@);
                            assert(e[b] == pre[b]);
                        } else if b == i {
                            assert(e[b].0@ == pre[i as int].0@);
                            assert(e[a] == pre[a]);
                        } else {
                            assert(e[a] == pre[a]);
                            assert(e[b] == pre[b]);
                        }
                    }
                }
            }
            return ;
        }
        i += 1;
    }
    let ghost pre = sensors.entries@;
    let pair = (label.to_owned(), value.to_owned());
    let ghost pv = pair;
    sensors.entries.push(pair);
    proof {
        assert(sensors.entries@ == pre.push(pv));
        assert(sensors.entries@.drop_last() =~= pre);
        assert(sensors.entries@.last() == pv);
        assert forall|k: Seq<char>| k != label@ implies #[trigger] final(sensors).spec_get(k)
            == old(sensors).spec_get(k) by {
            assert(SensorValues::spec_get_in(sensors.entries@, k) == SensorValues::spec_get_in(
                pre,
                k,
            ));
        }
        assert(sensors.wf()) by {
            let e = sensors.entries@;
            assert forall|a: int, b: int| 0 <= a < b < e.len() implies #[trigger] e[a].0@
                != #[trigger] e[b].0@ by {
                if b == e.len() - 1 {
                    assert(e[a] == pre[a]);
                    assert(e[b].0@ == label@);
                } else {
                    assert(e[a] == pre[a]);
                    assert(e[b] == pre[b]);
                }
            }
        }
    }
}

/// Replacing the entry at a position whose key also occurs nowhere else
/// changes exactly that key's lookup.
proof fn lemma_get_after_update(s: Seq<(String, String)>, i: int, p: (String, String))
    requires
        0 <= i < s.len(),
        forall|j: int| 0 <= j < s.len() && j != i ==> #[trigger] s[j].0@ != s[i].0@,
        p.0@ == s[i].0@,
    ensures
        SensorValues::spec_get_in(s.update(i, p), p.0@) == Some(p.1@),
        forall|k: Seq<char>|
            k != p.0@ ==> #[trigger] SensorValues::spec_get_in(s.update(i, p), k)
                == SensorValues::spec_get_in(s, k),
    decreases s.len(),
{
    let t = s.update(i, p);
    if i == s.len() - 1 {
        assert(t.last() == p);
        assert(t.drop_last() =~= s.drop_last());
        assert forall|k: Seq<char>| k != p.0@ implies #[trigger] SensorValues::spec_get_in(t, k)
            == SensorValues::spec_get_in(s, k) by {
            assert(s.last().0@ == p.0@);
        }
    } else {
        assert(t.last() == s.last());
        assert(t.drop_last() =~= s.drop_last().update(i, p));
        assert(forall|j: int|
            0 <= j < s.len() - 1 && j != i ==> #[trigger] s.drop_last()[j].0@ != s.drop_last()[i].0@);
        lemma_get_after_update(s.drop_last(), i, p);
        assert(s.last().0@ != p.0@);
        assert(SensorValues::spec_get_in(t, p.0@) == Some(p.1@));
        assert forall|k: Seq<char>| k != p.0@ implies #[trigger] SensorValues::spec_get_in(t, k)
            == SensorValues::spec_get_in(s, k) by {
            if s.last().0@ == k {
            } else {
                assert(SensorValues::spec_get_in(t.drop_last(), k) == SensorValues::spec_get_in(
                    s.drop_last(),
                    k,
                ));
            }
        }
    }
}

} // verus!
