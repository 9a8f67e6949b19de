//! Time units of the CF conventions, such as
//! `seconds since 1992-10-8 15:15:42.5 -6:00`: a unit of duration, the word
//! `since`, and a reference date, time and time zone.
//!
//! The grammar is a parsing expression grammar: each alternative is tried in
//! order and the first that matches is taken, and the whole text must be
//! consumed. Each piece of it is a spec function from a text and a position
//! to the value read and the position after it.
use vstd::prelude::*;
use vstd::string::StrSliceExecFns;

verus! {

/// Parsing error
#[derive(Debug)]
pub struct ParseError(String);

/// Base duration between time points
#[allow(missing_docs)]
#[derive(Debug, PartialEq, Eq, Structural, PartialOrd, Ord, Copy, Clone)]
pub enum Duration {
    Years,
    Months,
    Days,
    Hours,
    Minutes,
    Seconds,
    Milliseconds,
    Microseconds,
}

/// A date as it is written: year, month and day, unchecked.
#[derive(Debug, Clone, Copy, PartialEq, Eq, Structural)]
pub struct Date {
    pub year: u32,
    pub month: u32,
    pub day: u32,
}

/// A time of day as it is written, unchecked.
#[derive(Debug, Clone, Copy, PartialEq, Eq, Structural)]
pub struct Time {
    pub hour: i32,
    pub minute: u32,
    pub second: u32,
    pub millisecond: u32,
    pub microsecond: u32,
}

/// A time zone offset.
#[derive(Copy, Clone, Debug, PartialEq, Eq, Structural)]
pub struct Tz {
    hour: i8,
    minute: u8,
}

/// A reference date, time and time zone.
#[derive(Debug, Copy, Clone, PartialEq, Eq, Structural)]
pub struct DateTime {
    pub date: Date,
    pub time: Time,
    pub tz: Tz,
}

impl Default for Date {
    fn default() -> (r: Self)
        ensures
            r == (Date { year: 0, month: 0, day: 0 }),
    {
        Date { year: 0, month: 0, day: 0 }
    }
}

impl Default for Time {
    fn default() -> (r: Self)
        ensures
            r == zero_time(0, 0),
    {
        zero_time_exec(0, 0)
    }
}

impl Default for Tz {
    fn default() -> (r: Self)
        ensures
            r == utc(),
    {
        Tz { hour: 0, minute: 0 }
    }
}

impl Default for DateTime {
    fn default() -> (r: Self)
        ensures
            r == at_midnight(Date { year: 0, month: 0, day: 0 }, utc()),
    {
        DateTime {
            date: Date { year: 0, month: 0, day: 0 },
            time: zero_time_exec(0, 0),
            tz: Tz { hour: 0, minute: 0 },
        }
    }
}

/// The offset of `hour` hours and `minute` minutes.
pub closed spec fn tz_of(hour: i8, minute: u8) -> Tz {
    Tz { hour, minute }
}

/// The offset of universal time.
pub open spec fn utc() -> Tz {
    tz_of(0, 0)
}

impl Tz {
    /// The hours of the offset.
    pub closed spec fn hours(self) -> i8 {
        self.hour
    }

    /// The minutes of the offset.
    pub closed spec fn minutes(self) -> u8 {
        self.minute
    }
}

/// An offset is given by its hours and minutes.
pub proof fn lemma_tz_of(tz: Tz)
    ensures
        tz == tz_of(tz.hours(), tz.minutes()),
        tz_of(tz.hours(), tz.minutes()).hours() == tz.hours(),
{
}

/// The time `hour:minute` with no seconds.
pub open spec fn zero_time(hour: i32, minute: u32) -> Time {
    Time { hour, minute, second: 0, millisecond: 0, microsecond: 0 }
}

fn zero_time_exec(hour: i32, minute: u32) -> (r: Time)
    ensures
        r == zero_time(hour, minute),
{
    Time { hour, minute, second: 0, millisecond: 0, microsecond: 0 }
}

/// The start of the date, in the time zone.
pub open spec fn at_midnight(date: Date, tz: Tz) -> DateTime {
    DateTime { date, time: zero_time(0, 0), tz }
}

/// The character is a decimal digit.
pub open spec fn is_digit(c: char) -> bool {
    '0' <= c <= '9'
}

/// The value of a decimal digit.
pub open spec fn digit_val(c: char) -> int {
    c as int - '0' as int
}

/// The end of the run of digits that starts at `i`.
pub open spec fn digits_end(s: Seq<char>, i: int) -> int
    decreases s.len() - i,
{
    if 0 <= i < s.len() && is_digit(s[i]) {
        digits_end(s, i + 1)
    } else {
        i
    }
}

/// The value of the digits from `i` up to `j`.
pub open spec fn digits_value(s: Seq<char>, i: int, j: int) -> int
    decreases j - i,
{
    if j <= i {
        0
    } else {
        digits_value(s, i, j - 1) * 10 + digit_val(s[j - 1])
    }
}

/// An unsigned number of at most `max`: its value and the position after it.
pub open spec fn p_unsigned(s: Seq<char>, i: int, max: int) -> Option<(int, int)> {
    let j = digits_end(s, i);
    if j > i && digits_value(s, i, j) <= max {
        Some((digits_value(s, i, j), j))
    } else {
        None
    }
}

/// The position after an optional sign at `i`.
pub open spec fn after_sign(s: Seq<char>, i: int) -> int {
    if 0 <= i < s.len() && (s[i] == '-' || s[i] == '+') {
        i + 1
    } else {
        i
    }
}

/// A minus sign stands at `i`.
pub open spec fn minus_at(s: Seq<char>, i: int) -> bool {
    0 <= i < s.len() && s[i] == '-'
}

/// A number with an optional sign, between `min` and `max`.
pub open spec fn p_signed(s: Seq<char>, i: int, min: int, max: int) -> Option<(int, int)> {
    let k = after_sign(s, i);
    let j = digits_end(s, k);
    let v = if minus_at(s, i) {
        -digits_value(s, k, j)
    } else {
        digits_value(s, k, j)
    };
    if j > k && min <= v <= max {
        Some((v, j))
    } else {
        None
    }
}

/// The text `t` stands at `i`.
pub open spec fn tag_at(s: Seq<char>, i: int, t: Seq<char>) -> bool {
    0 <= i && i + t.len() <= s.len() && s.subrange(i, i + t.len()) == t
}

/// The character `c` stands at `i`.
pub open spec fn char_at(s: Seq<char>, i: int, c: char) -> bool {
    0 <= i < s.len() && s[i] == c
}

/// The end of the run of spaces and tabs that starts at `i`.
pub open spec fn blanks_end(s: Seq<char>, i: int) -> int
    decreases s.len() - i,
{
    if 0 <= i < s.len() && (s[i] == ' ' || s[i] == '\t') {
        blanks_end(s, i + 1)
    } else {
        i
    }
}

/// One or more spaces or tabs: the position after them.
pub open spec fn p_space1(s: Seq<char>, i: int) -> Option<int> {
    if blanks_end(s, i) > i {
        Some(blanks_end(s, i))
    } else {
        None
    }
}

proof fn lemma_digits_end_bounds(s: Seq<char>, i: int)
    requires
        0 <= i <= s.len(),
    ensures
        i <= digits_end(s, i) <= s.len(),
        forall|k: int| i <= k < digits_end(s, i) ==> is_digit(#[trigger] s[k]),
        digits_end(s, i) < s.len() ==> !is_digit(s[digits_end(s, i)]),
    decreases s.len() - i,
{
    if i < s.len() && is_digit(s[i]) {
        lemma_digits_end_bounds(s, i + 1);
    }
}

proof fn lemma_blanks_end_bounds(s: Seq<char>, i: int)
    requires
        0 <= i <= s.len(),
    ensures
        i <= blanks_end(s, i) <= s.len(),
    decreases s.len() - i,
{
    if i < s.len() && (s[i] == ' ' || s[i] == '\t') {
        lemma_blanks_end_bounds(s, i + 1);
    }
}

proof fn lemma_digits_value_grows(s: Seq<char>, i: int, j: int)
    requires
        i <= j,
        forall|k: int| i <= k < j ==> is_digit(#[trigger] s[k]),
    ensures
        digits_value(s, i, j) >= 0,
        forall|m: int| i <= m <= j ==> #[trigger] digits_value(s, i, m) <= digits_value(s, i, j),
    decreases j - i,
{
    if j > i {
        lemma_digits_value_grows(s, i, j - 1);
    }
}

fn run_end(s: &[char], i: usize) -> (r: usize)
    requires
        i <= s@.len(),
    ensures
        r == digits_end(s@, i as int),
{
    let mut j = i;
    while j < s.len() && '0' <= s[j] && s[j] <= '9'
        invariant
            i <= j <= s@.len(),
            digits_end(s@, i as int) == digits_end(s@, j as int),
        decreases s@.len() - j,
    {
        j = j + 1;
    }
    j
}

fn blank_end(s: &[char], i: usize) -> (r: usize)
    requires
        i <= s@.len(),
    ensures
        r == blanks_end(s@, i as int),
{
    let mut j = i;
    while j < s.len() && (s[j] == ' ' || s[j] == '\t')
        invariant
            i <= j <= s@.len(),
            blanks_end(s@, i as int) == blanks_end(s@, j as int),
        decreases s@.len() - j,
    {
        j = j + 1;
    }
    j
}

fn space1(s: &[char], i: usize) -> (r: Option<usize>)
    requires
        i <= s@.len(),
    ensures
        r matches Some(j) ==> p_space1(s@, i as int) == Some(j as int),
        r is None ==> p_space1(s@, i as int) is None,
{
    let j = blank_end(s, i);
    if j > i {
        Some(j)
    } else {
        None
    }
}

/// The value of the digits from `i` up to `j`, where it is at most `max`.
fn digits_upto(s: &[char], i: usize, j: usize, max: u64) -> (r: Option<u64>)
    requires
        i <= j <= s@.len(),
        forall|k: int| i <= k < j ==> is_digit(#[trigger] s@[k]),
    ensures
        r matches Some(v) ==> v == digits_value(s@, i as int, j as int) && v <= max,
        r is None ==> digits_value(s@, i as int, j as int) > max,
{
    let mut acc: u64 = 0;
    let mut k = i;
    while k < j
        invariant
            i <= k <= j <= s@.len(),
            forall|x: int| i <= x < j ==> is_digit(#[trigger] s@[x]),
            acc == digits_value(s@, i as int, k as int),
            acc <= max,
        decreases j - k,
    {
        let d = (s[k] as u32 - '0' as u32) as u64;
        assert(is_digit(s@[k as int]));
        if d > max || acc > (max - d) / 10 {
            proof {
                let a = acc as int;
                let m = max as int;
                let e = d as int;
                assert(a * 10 + e > m) by (nonlinear_arith)
                    requires
                        e > m || a > (m - e) / 10,
                        a >= 0,
                        e >= 0,
                        m >= 0,
                ;
                lemma_digits_value_grows(s@, i as int, j as int);
                assert(digits_value(s@, i as int, k + 1) == acc * 10 + d);
            }
            return None;
        }
        proof {
            let a = acc as int;
            let m = max as int;
            let e = d as int;
            assert(a * 10 + e <= m) by (nonlinear_arith)
                requires
                    e <= m,
                    a <= (m - e) / 10,
                    a >= 0,
            ;
        }
        acc = acc * 10 + d;
        k = k + 1;
    }
    Some(acc)
}

fn unsigned_at(s: &[char], i: usize, max: u64) -> (r: Option<(u64, usize)>)
    requires
        i <= s@.len(),
    ensures
        r matches Some((v, j)) ==> p_unsigned(s@, i as int, max as int) == Some((v as int, j as int)),
        r is None ==> p_unsigned(s@, i as int, max as int) is None,
{
    let j = run_end(s, i);
    proof {
        lemma_digits_end_bounds(s@, i as int);
    }
    if j == i {
        return None;
    }
    match digits_upto(s, i, j, max) {
        Some(v) => Some((v, j)),
        None => None,
    }
}

fn signed_at(s: &[char], i: usize, min: i64, max: i64) -> (r: Option<(i64, usize)>)
    requires
        i <= s@.len(),
        min <= 0 <= max,
    ensures
        r matches Some((v, j)) ==> p_signed(s@, i as int, min as int, max as int) == Some((v as int, j as int)),
        r is None ==> p_signed(s@, i as int, min as int, max as int) is None,
{
    let neg = i < s.len() && s[i] == '-';
    let k = if i < s.len() && (s[i] == '-' || s[i] == '+') {
        i + 1
    } else {
        i
    };
    let j = run_end(s, k);
    proof {
        lemma_digits_end_bounds(s@, k as int);
    }
    if j == k {
        return None;
    }
    let bound: u64 = if neg {
        (-(min as i128)) as u64
    } else {
        max as u64
    };
    match digits_upto(s, k, j, bound) {
        Some(m) => {
            let v: i64 = if neg {
                -(m as i128) as i64
            } else {
                m as i64
            };
            Some((v, j))
        },
        None => None,
    }
}

/// The views of the texts.
pub open spec fn views(ts: Seq<&str>) -> Seq<Seq<char>> {
    ts.map_values(|t: &str| t@)
}

/// The position after the first of the texts `tags` that stands at `i`.
pub open spec fn first_match(s: Seq<char>, i: int, tags: Seq<Seq<char>>) -> Option<int>
    decreases tags.len(),
{
    if tags.len() == 0 {
        None
    } else if tag_at(s, i, tags[0]) {
        Some(i + tags[0].len())
    } else {
        first_match(s, i, tags.drop_first())
    }
}

fn tag_end(s: &[char], i: usize, t: &str) -> (r: Option<usize>)
    requires
        i <= s@.len(),
    ensures
        r matches Some(j) ==> tag_at(s@, i as int, t@) && j == i + t@.len(),
        r is None ==> !tag_at(s@, i as int, t@),
{
    let n = t.unicode_len();
    let sl = s.len();
    if n > sl - i {
        return None;
    }
    let mut k: usize = 0;
    while k < n
        invariant
            n == t@.len(),
            sl == s@.len(),
            i + n <= sl,
            k <= n,
            forall|x: int| 0 <= x < k ==> s@[i + x] == t@[x],
        decreases n - k,
    {
        if s[i + k] != t.get_char(k) {
            assert(s@.subrange(i as int, i + n)[k as int] != t@[k as int]);
            return None;
        }
        k = k + 1;
    }
    assert(s@.subrange(i as int, i + n) =~= t@);
    Some(i + n)
}

fn first_tag(s: &[char], i: usize, tags: &[&str]) -> (r: Option<usize>)
    requires
        i <= s@.len(),
    ensures
        r matches Some(j) ==> first_match(s@, i as int, views(tags@)) == Some(j as int),
        r is None ==> first_match(s@, i as int, views(tags@)) is None,
{
    let mut k: usize = 0;
    assert(views(tags@).subrange(0, tags@.len() as int) =~= views(tags@));
    while k < tags.len()
        invariant
            i <= s@.len(),
            k <= tags@.len(),
            first_match(s@, i as int, views(tags@)) == first_match(s@, i as int, views(tags@).subrange(k as int, tags@.len() as int)),
        decreases tags@.len() - k,
    {
        let ghost rest = views(tags@).subrange(k as int, tags@.len() as int);
        assert(rest[0] == tags@[k as int]@);
        assert(rest.drop_first() =~= views(tags@).subrange(k + 1, tags@.len() as int));
        match tag_end(s, i, tags[k]) {
            Some(j) => {
                return Some(j);
            },
            None => {},
        }
        k = k + 1;
    }
    assert(views(tags@).subrange(k as int, tags@.len() as int).len() == 0);
    None
}

/// The names of a year.
pub open spec fn years_tags() -> Seq<Seq<char>> {
    seq!["common_years"@, "common_year"@]
}

/// The names of a month.
pub open spec fn months_tags() -> Seq<Seq<char>> {
    seq!["months"@, "month"@]
}

/// The names of a day.
pub open spec fn days_tags() -> Seq<Seq<char>> {
    seq!["days"@, "day"@, "d"@]
}

/// The names of an hour.
pub open spec fn hours_tags() -> Seq<Seq<char>> {
    seq!["hours"@, "hour"@, "hrs"@, "hr"@, "h"@]
}

/// The names of a minute.
pub open spec fn minutes_tags() -> Seq<Seq<char>> {
    seq!["minutes"@, "minute"@, "mins"@, "min"@]
}

/// The names of a second.
pub open spec fn seconds_tags() -> Seq<Seq<char>> {
    seq!["seconds"@, "second"@, "secs"@, "sec"@, "s"@]
}

/// The names of a millisecond.
pub open spec fn milliseconds_tags() -> Seq<Seq<char>> {
    seq!["milliseconds"@, "millisecond"@, "millisecs"@, "millisec"@, "msecs"@, "msec"@, "ms"@]
}

/// The names of a microsecond.
pub open spec fn microseconds_tags() -> Seq<Seq<char>> {
    seq!["microseconds"@, "microsecond"@, "microsecs"@, "microsec"@]
}

/// The unit of duration at `i`: the first group, in this order, one of whose
/// names, tried in order, stands there.
pub open spec fn p_duration(s: Seq<char>, i: int) -> Option<(Duration, int)> {
    if let Some(j) = first_match(s, i, years_tags()) {
        Some((Duration::Years, j))
    } else if let Some(j) = first_match(s, i, months_tags()) {
        Some((Duration::Months, j))
    } else if let Some(j) = first_match(s, i, days_tags()) {
        Some((Duration::Days, j))
    } else if let Some(j) = first_match(s, i, hours_tags()) {
        Some((Duration::Hours, j))
    } else if let Some(j) = first_match(s, i, minutes_tags()) {
        Some((Duration::Minutes, j))
    } else if let Some(j) = first_match(s, i, seconds_tags()) {
        Some((Duration::Seconds, j))
    } else if let Some(j) = first_match(s, i, milliseconds_tags()) {
        Some((Duration::Milliseconds, j))
    } else if let Some(j) = first_match(s, i, microseconds_tags()) {
        Some((Duration::Microseconds, j))
    } else {
        None
    }
}

fn duration_at(s: &[char], i: usize) -> (r: Option<(Duration, usize)>)
    requires
        i <= s@.len(),
    ensures
        r matches Some((d, j)) ==> p_duration(s@, i as int) == Some((d, j as int)),
        r is None ==> p_duration(s@, i as int) is None,
{
    let years = ["common_years", "common_year"];
    assert(views(years@) =~= years_tags());
    if let Some(j) = first_tag(s, i, &years) {
        return Some((Duration::Years, j));
    }
    let months = ["months", "month"];
    assert(views(months@) =~= months_tags());
    if let Some(j) = first_tag(s, i, &months) {
        return Some((Duration::Months, j));
    }
    let days = ["days", "day", "d"];
    assert(views(days@) =~= days_tags());
    if let Some(j) = first_tag(s, i, &days) {
        return Some((Duration::Days, j));
    }
    let hours = ["hours", "hour", "hrs", "hr", "h"];
    assert(views(hours@) =~= hours_tags());
    if let Some(j) = first_tag(s, i, &hours) {
        return Some((Duration::Hours, j));
    }
    let minutes = ["minutes", "minute", "mins", "min"];
    assert(views(minutes@) =~= minutes_tags());
    if let Some(j) = first_tag(s, i, &minutes) {
        return Some((Duration::Minutes, j));
    }
    let seconds = ["seconds", "second", "secs", "sec", "s"];
    assert(views(seconds@) =~= seconds_tags());
    if let Some(j) = first_tag(s, i, &seconds) {
        return Some((Duration::Seconds, j));
    }
    let millis = ["milliseconds", "millisecond", "millisecs", "millisec", "msecs", "msec", "ms"];
    assert(views(millis@) =~= milliseconds_tags());
    if let Some(j) = first_tag(s, i, &millis) {
        return Some((Duration::Milliseconds, j));
    }
    let micros = ["microseconds", "microsecond", "microsecs", "microsec"];
    assert(views(micros@) =~= microseconds_tags());
    if let Some(j) = first_tag(s, i, &micros) {
        return Some((Duration::Microseconds, j));
    }
    None
}

/// The digit `p` places after position `a`, before `e`; zero beyond.
pub open spec fn frac_digit(s: Seq<char>, a: int, e: int, p: int) -> int {
    if a + p < e {
        digit_val(s[a + p])
    } else {
        0
    }
}

/// The digits from `i` up to `j` as a number of at most `2^32`: the value,
/// or `2^32` when it is larger.
pub open spec fn capped_value(s: Seq<char>, i: int, j: int) -> int {
    if digits_value(s, i, j) > 0x1_0000_0000 {
        0x1_0000_0000
    } else {
        digits_value(s, i, j)
    }
}

/// The whole seconds, milliseconds and microseconds of a number of seconds
/// whose integer digits run from `k` to `j` and whose fraction digits run
/// from `a` to `e`: a negative number gives zeros, whole seconds beyond
/// `u32::MAX` give `u32::MAX`, and fraction digits beyond the sixth are
/// dropped.
pub open spec fn second_parts(s: Seq<char>, k: int, j: int, a: int, e: int, neg: bool) -> (int, int, int) {
    if neg {
        (0, 0, 0)
    } else {
        (
            if capped_value(s, k, j) > u32::MAX {
                u32::MAX as int
            } else {
                capped_value(s, k, j)
            },
            100 * frac_digit(s, a, e, 0) + 10 * frac_digit(s, a, e, 1) + frac_digit(s, a, e, 2),
            100 * frac_digit(s, a, e, 3) + 10 * frac_digit(s, a, e, 4) + frac_digit(s, a, e, 5),
        )
    }
}

/// A decimal number of seconds: an optional sign, then digits with an
/// optional point and fraction digits, or a point and fraction digits.
pub open spec fn p_seconds(s: Seq<char>, i: int) -> Option<((int, int, int), int)> {
    let k = after_sign(s, i);
    let j = digits_end(s, k);
    let neg = minus_at(s, i);
    if j > k {
        if char_at(s, j, '.') {
            let e = digits_end(s, j + 1);
            Some((second_parts(s, k, j, j + 1, e, neg), e))
        } else {
            Some((second_parts(s, k, j, j, j, neg), j))
        }
    } else if char_at(s, k, '.') && digits_end(s, k + 1) > k + 1 {
        let e = digits_end(s, k + 1);
        Some((second_parts(s, k, k, k + 1, e, neg), e))
    } else {
        None
    }
}

proof fn lemma_capped_step(s: Seq<char>, i: int, j: int)
    requires
        i <= j,
        0 <= j < s.len(),
        is_digit(s[j]),
    ensures
        capped_value(s, i, j + 1) == if capped_value(s, i, j) * 10 + digit_val(s[j]) > 0x1_0000_0000 {
            0x1_0000_0000
        } else {
            capped_value(s, i, j) * 10 + digit_val(s[j])
        },
{
    assert(digits_value(s, i, j + 1) == digits_value(s, i, j) * 10 + digit_val(s[j]));
}

fn capped_at(s: &[char], i: usize, j: usize) -> (r: u64)
    requires
        i <= j <= s@.len(),
        forall|k: int| i <= k < j ==> is_digit(#[trigger] s@[k]),
    ensures
        r == capped_value(s@, i as int, j as int),
{
    let mut acc: u64 = 0;
    let mut k = i;
    while k < j
        invariant
            i <= k <= j <= s@.len(),
            forall|x: int| i <= x < j ==> is_digit(#[trigger] s@[x]),
            acc == capped_value(s@, i as int, k as int),
        decreases j - k,
    {
        assert(is_digit(s@[k as int]));
        let d = (s[k] as u32 - '0' as u32) as u64;
        proof {
            lemma_capped_step(s@, i as int, k as int);
        }
        let next = acc * 10 + d;
        acc = if next > 0x1_0000_0000 {
            0x1_0000_0000
        } else {
            next
        };
        k = k + 1;
    }
    acc
}

fn frac_digit_at(s: &[char], a: usize, e: usize, p: usize) -> (r: u32)
    requires
        a <= e <= s@.len(),
        p < 6,
        forall|k: int| a <= k < e ==> is_digit(#[trigger] s@[k]),
    ensures
        r == frac_digit(s@, a as int, e as int, p as int),
        r <= 9,
{
    if p < e - a {
        assert(is_digit(s@[a + p]));
        s[a + p] as u32 - '0' as u32
    } else {
        0
    }
}

fn parts_at(s: &[char], k: usize, j: usize, a: usize, e: usize, neg: bool) -> (r: (u32, u32, u32))
    requires
        k <= j <= s@.len(),
        a <= e <= s@.len(),
        forall|x: int| k <= x < j ==> is_digit(#[trigger] s@[x]),
        forall|x: int| a <= x < e ==> is_digit(#[trigger] s@[x]),
    ensures
        (r.0 as int, r.1 as int, r.2 as int) == second_parts(s@, k as int, j as int, a as int, e as int, neg),
{
    if neg {
        return (0, 0, 0);
    }
    let c = capped_at(s, k, j);
    let whole: u32 = if c > u32::MAX as u64 {
        u32::MAX
    } else {
        c as u32
    };
    let ms = 100 * frac_digit_at(s, a, e, 0) + 10 * frac_digit_at(s, a, e, 1) + frac_digit_at(s, a, e, 2);
    let us = 100 * frac_digit_at(s, a, e, 3) + 10 * frac_digit_at(s, a, e, 4) + frac_digit_at(s, a, e, 5);
    (whole, ms, us)
}

fn seconds_at(s: &[char], i: usize) -> (r: Option<((u32, u32, u32), usize)>)
    requires
        i <= s@.len(),
    ensures
        r matches Some((t, j)) ==> p_seconds(s@, i as int) == Some(((t.0 as int, t.1 as int, t.2 as int), j as int)),
        r is None ==> p_seconds(s@, i as int) is None,
{
    let neg = i < s.len() && s[i] == '-';
    let k = if i < s.len() && (s[i] == '-' || s[i] == '+') {
        i + 1
    } else {
        i
    };
    let j = run_end(s, k);
    proof {
        lemma_digits_end_bounds(s@, k as int);
    }
    if j > k {
        if j < s.len() && s[j] == '.' {
            let e = run_end(s, j + 1);
            proof {
                lemma_digits_end_bounds(s@, j + 1);
            }
            Some((parts_at(s, k, j, j + 1, e, neg), e))
        } else {
            Some((parts_at(s, k, j, j, j, neg), j))
        }
    } else if k < s.len() && s[k] == '.' {
        let e = run_end(s, k + 1);
        proof {
            lemma_digits_end_bounds(s@, k + 1);
        }
        if e > k + 1 {
            Some((parts_at(s, k, k, k + 1, e, neg), e))
        } else {
            None
        }
    } else {
        None
    }
}

/// Hours, a colon and minutes: the hour and minute and the position after.
pub open spec fn p_hour_minute(s: Seq<char>, i: int) -> Option<(int, int, int)> {
    match p_signed(s, i, i32::MIN as int, i32::MAX as int) {
        Some((h, a)) => if char_at(s, a, ':') {
            match p_unsigned(s, a + 1, u32::MAX as int) {
                Some((m, b)) => Some((h, m, b)),
                None => None,
            }
        } else {
            None
        },
        None => None,
    }
}

/// A time: hours, minutes and seconds, or else hours and minutes.
pub open spec fn p_time(s: Seq<char>, i: int) -> Option<(Time, int)> {
    match p_hour_minute(s, i) {
        Some((h, m, b)) => {
            let hms = if char_at(s, b, ':') {
                match p_seconds(s, b + 1) {
                    Some(((sec, ms, us), e)) => Some((
                        Time {
                            hour: h as i32,
                            minute: m as u32,
                            second: sec as u32,
                            millisecond: ms as u32,
                            microsecond: us as u32,
                        },
                        e,
                    )),
                    None => None,
                }
            } else {
                None
            };
            if hms is Some {
                hms
            } else {
                Some((zero_time(h as i32, m as u32), b))
            }
        },
        None => None,
    }
}

fn hour_minute_at(s: &[char], i: usize) -> (r: Option<(i32, u32, usize)>)
    requires
        i <= s@.len(),
    ensures
        r matches Some((h, m, b)) ==> p_hour_minute(s@, i as int) == Some((h as int, m as int, b as int)),
        r is None ==> p_hour_minute(s@, i as int) is None,
{
    match signed_at(s, i, i32::MIN as i64, i32::MAX as i64) {
        Some((h, a)) => {
            if a < s.len() && s[a] == ':' {
                match unsigned_at(s, a + 1, u32::MAX as u64) {
                    Some((m, b)) => Some((h as i32, m as u32, b)),
                    None => None,
                }
            } else {
                None
            }
        },
        None => None,
    }
}

fn time_at(s: &[char], i: usize) -> (r: Option<(Time, usize)>)
    requires
        i <= s@.len(),
    ensures
        r matches Some((t, j)) ==> p_time(s@, i as int) == Some((t, j as int)),
        r is None ==> p_time(s@, i as int) is None,
{
    match hour_minute_at(s, i) {
        Some((h, m, b)) => {
            proof {
                lemma_unsigned_end(s@, i as int);
            }
            if b < s.len() && s[b] == ':' {
                if let Some(((sec, ms, us), e)) = seconds_at(s, b + 1) {
                    return Some((Time { hour: h, minute: m, second: sec, millisecond: ms, microsecond: us }, e));
                }
            }
            Some((zero_time_exec(h, m), b))
        },
        None => None,
    }
}

proof fn lemma_unsigned_end(s: Seq<char>, i: int)
    requires
        0 <= i <= s.len(),
    ensures
        p_hour_minute(s, i) matches Some((h, m, b)) ==> b <= s.len(),
{
    let k = after_sign(s, i);
    lemma_digits_end_bounds(s, k);
    if let Some((h, a)) = p_signed(s, i, i32::MIN as int, i32::MAX as int) {
        if char_at(s, a, ':') {
            lemma_digits_end_bounds(s, a + 1);
        }
    }
}

/// A time zone: an optional plus sign, then hours (with their own optional
/// sign), a colon and minutes; or else `Z`; or else `UTC`.
pub open spec fn p_tz(s: Seq<char>, i: int) -> Option<(Tz, int)> {
    let k = if char_at(s, i, '+') {
        i + 1
    } else {
        i
    };
    let hm = match p_signed(s, k, -128, 127) {
        Some((h, a)) => if char_at(s, a, ':') {
            match p_unsigned(s, a + 1, 255) {
                Some((m, b)) => Some((tz_of(h as i8, m as u8), b)),
                None => None,
            }
        } else {
            None
        },
        None => None,
    };
    if hm is Some {
        hm
    } else if char_at(s, i, 'Z') {
        Some((utc(), i + 1))
    } else if tag_at(s, i, "UTC"@) {
        Some((utc(), i + "UTC"@.len()))
    } else {
        None
    }
}

fn tz_at(s: &[char], i: usize) -> (r: Option<(Tz, usize)>)
    requires
        i <= s@.len(),
    ensures
        r matches Some((t, j)) ==> p_tz(s@, i as int) == Some((t, j as int)),
        r is None ==> p_tz(s@, i as int) is None,
{
    let k = if i < s.len() && s[i] == '+' {
        i + 1
    } else {
        i
    };
    if let Some((h, a)) = signed_at(s, k, -128, 127) {
        proof {
            lemma_digits_end_bounds(s@, after_sign(s@, k as int));
        }
        if a < s.len() && s[a] == ':' {
            if let Some((m, b)) = unsigned_at(s, a + 1, 255) {
                return Some((Tz { hour: h as i8, minute: m as u8 }, b));
            }
        }
    }
    if i < s.len() && s[i] == 'Z' {
        return Some((Tz { hour: 0, minute: 0 }, i + 1));
    }
    match tag_end(s, i, "UTC") {
        Some(j) => Some((Tz { hour: 0, minute: 0 }, j)),
        None => None,
    }
}

/// A date: year, month and day, each an unsigned number, separated by `-`.
pub open spec fn p_date(s: Seq<char>, i: int) -> Option<(Date, int)> {
    match p_unsigned(s, i, u32::MAX as int) {
        Some((y, a)) => if char_at(s, a, '-') {
            match p_unsigned(s, a + 1, u32::MAX as int) {
                Some((m, b)) => if char_at(s, b, '-') {
                    match p_unsigned(s, b + 1, u32::MAX as int) {
                        Some((d, c)) => Some((Date { year: y as u32, month: m as u32, day: d as u32 }, c)),
                        None => None,
                    }
                } else {
                    None
                },
                None => None,
            }
        } else {
            None
        },
        None => None,
    }
}

fn date_at(s: &[char], i: usize) -> (r: Option<(Date, usize)>)
    requires
        i <= s@.len(),
    ensures
        r matches Some((t, j)) ==> p_date(s@, i as int) == Some((t, j as int)),
        r is None ==> p_date(s@, i as int) is None,
{
    let (y, a) = unsigned_at(s, i, u32::MAX as u64)?;
    proof {
        lemma_digits_end_bounds(s@, i as int);
    }
    if !(a < s.len() && s[a] == '-') {
        return None;
    }
    let (m, b) = unsigned_at(s, a + 1, u32::MAX as u64)?;
    proof {
        lemma_digits_end_bounds(s@, a + 1);
    }
    if !(b < s.len() && s[b] == '-') {
        return None;
    }
    let (d, c) = unsigned_at(s, b + 1, u32::MAX as u64)?;
    Some((Date { year: y as u32, month: m as u32, day: d as u32 }, c))
}

/// What separates a date from a time: spaces, or else `T`.
pub open spec fn p_sep(s: Seq<char>, i: int) -> Option<int> {
    if p_space1(s, i) is Some {
        p_space1(s, i)
    } else if char_at(s, i, 'T') {
        Some(i + 1)
    } else {
        None
    }
}

fn sep_at(s: &[char], i: usize) -> (r: Option<usize>)
    requires
        i <= s@.len(),
    ensures
        r matches Some(j) ==> p_sep(s@, i as int) == Some(j as int),
        r is None ==> p_sep(s@, i as int) is None,
{
    if let Some(j) = space1(s, i) {
        return Some(j);
    }
    if i < s.len() && s[i] == 'T' {
        Some(i + 1)
    } else {
        None
    }
}

/// A date, a separator and a time.
pub open spec fn p_date_time(s: Seq<char>, i: int) -> Option<(Date, Time, int)> {
    match p_date(s, i) {
        Some((date, a)) => match p_sep(s, a) {
            Some(b) => match p_time(s, b) {
                Some((time, c)) => Some((date, time, c)),
                None => None,
            },
            None => None,
        },
        None => None,
    }
}

/// A reference date and time, with the first of these forms that reads:
/// date, time, spaces and zone; date, time and a zone that starts with `+`,
/// `-` or `Z`; date and time; date, spaces and zone; date alone. A missing
/// time is midnight and a missing zone universal time.
pub open spec fn p_datetime(s: Seq<char>, i: int) -> Option<(DateTime, int)> {
    let spaced = match p_date_time(s, i) {
        Some((date, time, c)) => match p_space1(s, c) {
            Some(d) => match p_tz(s, d) {
                Some((tz, e)) => Some((DateTime { date, time, tz }, e)),
                None => None,
            },
            None => None,
        },
        None => None,
    };
    let joined = match p_date_time(s, i) {
        Some((date, time, c)) => if char_at(s, c, '+') || char_at(s, c, '-') || char_at(s, c, 'Z') {
            match p_tz(s, c) {
                Some((tz, e)) => Some((DateTime { date, time, tz }, e)),
                None => None,
            }
        } else {
            None
        },
        None => None,
    };
    let no_zone = match p_date_time(s, i) {
        Some((date, time, c)) => Some((DateTime { date, time, tz: utc() }, c)),
        None => None,
    };
    let date_zone = match p_date(s, i) {
        Some((date, a)) => match p_space1(s, a) {
            Some(b) => match p_tz(s, b) {
                Some((tz, e)) => Some((at_midnight(date, tz), e)),
                None => None,
            },
            None => None,
        },
        None => None,
    };
    let date_only = match p_date(s, i) {
        Some((date, a)) => Some((at_midnight(date, utc()), a)),
        None => None,
    };
    if spaced is Some {
        spaced
    } else if joined is Some {
        joined
    } else if no_zone is Some {
        no_zone
    } else if date_zone is Some {
        date_zone
    } else {
        date_only
    }
}

proof fn lemma_positions(s: Seq<char>, i: int)
    requires
        0 <= i <= s.len(),
    ensures
        p_date(s, i) matches Some((d, a)) ==> i <= a <= s.len(),
        p_sep(s, i) matches Some(b) ==> i <= b <= s.len(),
        p_space1(s, i) matches Some(b) ==> i <= b <= s.len(),
        p_time(s, i) matches Some((t, c)) ==> i <= c <= s.len(),
        p_tz(s, i) matches Some((t, c)) ==> i <= c <= s.len(),
        p_duration(s, i) matches Some((d, c)) ==> i <= c <= s.len(),
{
    lemma_blanks_end_bounds(s, i);
    lemma_digits_end_bounds(s, i);
    if let Some((y, a)) = p_unsigned(s, i, u32::MAX as int) {
        if char_at(s, a, '-') {
            lemma_digits_end_bounds(s, a + 1);
            if let Some((m, b)) = p_unsigned(s, a + 1, u32::MAX as int) {
                if char_at(s, b, '-') {
                    lemma_digits_end_bounds(s, b + 1);
                }
            }
        }
    }
    let k = after_sign(s, i);
    lemma_digits_end_bounds(s, k);
    if let Some((h, a)) = p_signed(s, i, i32::MIN as int, i32::MAX as int) {
        if char_at(s, a, ':') {
            lemma_digits_end_bounds(s, a + 1);
            if let Some((m, b)) = p_unsigned(s, a + 1, u32::MAX as int) {
                if char_at(s, b, ':') {
                    let k2 = after_sign(s, b + 1);
                    lemma_digits_end_bounds(s, k2);
                    let j2 = digits_end(s, k2);
                    if j2 < s.len() {
                        lemma_digits_end_bounds(s, j2 + 1);
                    }
                    if k2 < s.len() {
                        lemma_digits_end_bounds(s, k2 + 1);
                    }
                }
            }
        }
    }
    let kz = if char_at(s, i, '+') {
        i + 1
    } else {
        i
    };
    lemma_digits_end_bounds(s, after_sign(s, kz));
    if let Some((h, a)) = p_signed(s, kz, -128, 127) {
        if char_at(s, a, ':') {
            lemma_digits_end_bounds(s, a + 1);
        }
    }
    lemma_first_match_bounds(s, i, years_tags());
    lemma_first_match_bounds(s, i, months_tags());
    lemma_first_match_bounds(s, i, days_tags());
    lemma_first_match_bounds(s, i, hours_tags());
    lemma_first_match_bounds(s, i, minutes_tags());
    lemma_first_match_bounds(s, i, seconds_tags());
    lemma_first_match_bounds(s, i, milliseconds_tags());
    lemma_first_match_bounds(s, i, microseconds_tags());
}

proof fn lemma_first_match_bounds(s: Seq<char>, i: int, tags: Seq<Seq<char>>)
    requires
        0 <= i <= s.len(),
    ensures
        first_match(s, i, tags) matches Some(j) ==> i <= j <= s.len(),
    decreases tags.len(),
{
    if tags.len() > 0 && !tag_at(s, i, tags[0]) {
        lemma_first_match_bounds(s, i, tags.drop_first());
    }
}

fn date_time_at(s: &[char], i: usize) -> (r: Option<(Date, Time, usize)>)
    requires
        i <= s@.len(),
    ensures
        r matches Some((d, t, c)) ==> p_date_time(s@, i as int) == Some((d, t, c as int)),
        r is None ==> p_date_time(s@, i as int) is None,
{
    let (date, a) = date_at(s, i)?;
    proof {
        lemma_positions(s@, i as int);
    }
    let b = sep_at(s, a)?;
    proof {
        lemma_positions(s@, a as int);
    }
    let (time, c) = time_at(s, b)?;
    Some((date, time, c))
}

fn datetime_at(s: &[char], i: usize) -> (r: Option<(DateTime, usize)>)
    requires
        i <= s@.len(),
    ensures
        r matches Some((t, j)) ==> p_datetime(s@, i as int) == Some((t, j as int)),
        r is None ==> p_datetime(s@, i as int) is None,
{
    proof {
        lemma_positions(s@, i as int);
    }
    let dt = date_time_at(s, i);
    if let Some((date, time, c)) = dt {
        proof {
            lemma_positions(s@, p_date(s@, i as int).unwrap().1);
            lemma_positions(s@, p_sep(s@, p_date(s@, i as int).unwrap().1).unwrap());
            lemma_positions(s@, c as int);
        }
        if let Some(d) = space1(s, c) {
            proof {
                lemma_positions(s@, d as int);
            }
            if let Some((tz, e)) = tz_at(s, d) {
                return Some((DateTime { date, time, tz }, e));
            }
        }
        if c < s.len() && (s[c] == '+' || s[c] == '-' || s[c] == 'Z') {
            if let Some((tz, e)) = tz_at(s, c) {
                return Some((DateTime { date, time, tz }, e));
            }
        }
        return Some((DateTime { date, time, tz: Tz { hour: 0, minute: 0 } }, c));
    }
    let (date, a) = date_at(s, i)?;
    proof {
        lemma_positions(s@, a as int);
    }
    if let Some(b) = space1(s, a) {
        proof {
            lemma_positions(s@, b as int);
        }
        if let Some((tz, e)) = tz_at(s, b) {
            return Some((DateTime { date, time: zero_time_exec(0, 0), tz }, e));
        }
    }
    Some((DateTime { date, time: zero_time_exec(0, 0), tz: Tz { hour: 0, minute: 0 } }, a))
}

/// Spaces, the word `since`, and spaces: the position after them.
pub open spec fn p_since(s: Seq<char>, i: int) -> Option<int> {
    match p_space1(s, i) {
        Some(a) => if tag_at(s, a, "since"@) {
            p_space1(s, a + "since"@.len())
        } else {
            None
        },
        None => None,
    }
}

/// What a unit text means: its unit of duration and its reference date and
/// time, when the whole text reads as a unit, `since` and a reference.
pub open spec fn cf_units(s: Seq<char>) -> Option<(Duration, DateTime)> {
    match p_duration(s, 0) {
        Some((d, j)) => match p_since(s, j) {
            Some(k) => match p_datetime(s, k) {
                Some((dt, e)) => if e == s.len() {
                    Some((d, dt))
                } else {
                    None
                },
                None => None,
            },
            None => None,
        },
        None => None,
    }
}

fn chars_of(input: &str) -> (r: Vec<char>)
    ensures
        r@ == input@,
{
    let n = input.unicode_len();
    let mut out: Vec<char> = Vec::new();
    for i in 0..n
        invariant
            n == input@.len(),
            out@ == input@.subrange(0, i as int),
    {
        out.push(input.get_char(i));
        assert(out@ =~= input@.subrange(0, i + 1));
    }
    assert(input@.subrange(0, n as int) =~= input@);
    out
}

/// Parse a CF compatible string into two components
pub fn cf_parser(input: &str) -> (r: Result<(Duration, DateTime), ParseError>)
    ensures
        match cf_units(input@) {
            Some(x) => r == Ok::<(Duration, DateTime), ParseError>(x),
            None => r is Err,
        },
{
    let chars = chars_of(input);
    let s = chars.as_slice();
    let refused = Err(ParseError("not a unit of the form `<unit> since <date>`".to_owned()));
    let (d, j) = match duration_at(s, 0) {
        Some(x) => x,
        None => return refused,
    };
    proof {
        lemma_positions(s@, 0);
    }
    let a = match space1(s, j) {
        Some(a) => a,
        None => return refused,
    };
    proof {
        lemma_positions(s@, j as int);
    }
    let b = match tag_end(s, a, "since") {
        Some(b) => b,
        None => return refused,
    };
    let k = match space1(s, b) {
        Some(k) => k,
        None => return refused,
    };
    proof {
        lemma_positions(s@, b as int);
    }
    let (dt, e) = match datetime_at(s, k) {
        Some(x) => x,
        None => return refused,
    };
    if e != s.len() {
        return refused;
    }
    Ok((d, dt))
}

/// The text is a name of the unit, as CF units and udunits name it.
pub open spec fn unit_named(d: Duration, w: Seq<char>) -> bool {
    match d {
        Duration::Years => w == "common_years"@ || w == "common_year"@,
        Duration::Months => w == "months"@ || w == "month"@,
        Duration::Days => w == "days"@ || w == "day"@ || w == "d"@,
        Duration::Hours => w == "hours"@ || w == "hour"@ || w == "hrs"@ || w == "hr"@ || w == "h"@,
        Duration::Minutes => w == "minutes"@ || w == "minute"@ || w == "mins"@ || w == "min"@,
        Duration::Seconds => w == "seconds"@ || w == "second"@ || w == "secs"@ || w == "sec"@ || w == "s"@,
        Duration::Milliseconds => w == "milliseconds"@ || w == "millisecond"@ || w == "millisecs"@
            || w == "millisec"@ || w == "msecs"@ || w == "msec"@ || w == "ms"@,
        Duration::Microseconds => w == "microseconds"@ || w == "microsecond"@ || w == "microsecs"@
            || w == "microsec"@,
    }
}

proof fn lemma_first_match_is_a_tag(s: Seq<char>, i: int, tags: Seq<Seq<char>>)
    ensures
        first_match(s, i, tags) matches Some(j) ==> exists|k: int|
            0 <= k < tags.len() && #[trigger] tags[k] == s.subrange(i, j),
    decreases tags.len(),
{
    if tags.len() > 0 {
        if tag_at(s, i, tags[0]) {
            assert(tags[0] == s.subrange(i, i + tags[0].len()));
        } else {
            lemma_first_match_is_a_tag(s, i, tags.drop_first());
            if let Some(j) = first_match(s, i, tags) {
                let k = choose|k: int| 0 <= k < tags.drop_first().len() && #[trigger] tags.drop_first()[k] == s.subrange(i, j);
                assert(tags[k + 1] == s.subrange(i, j));
            }
        }
    }
}

/// The unit of duration that is read is the one that the text read names:
/// wherever a unit is read, the text it takes up is one of that unit's
/// names.
pub proof fn lemma_duration_named(s: Seq<char>, i: int)
    ensures
        p_duration(s, i) matches Some((d, j)) ==> unit_named(d, s.subrange(i, j)),
{
    lemma_first_match_is_a_tag(s, i, years_tags());
    lemma_first_match_is_a_tag(s, i, months_tags());
    lemma_first_match_is_a_tag(s, i, days_tags());
    lemma_first_match_is_a_tag(s, i, hours_tags());
    lemma_first_match_is_a_tag(s, i, minutes_tags());
    lemma_first_match_is_a_tag(s, i, seconds_tags());
    lemma_first_match_is_a_tag(s, i, milliseconds_tags());
    lemma_first_match_is_a_tag(s, i, microseconds_tags());
}

/// A unit text begins with a name of the unit that it is read as.
pub proof fn lemma_units_named(s: Seq<char>)
    ensures
        cf_units(s) matches Some((d, _)) ==> exists|j: int| 0 <= j <= s.len() && unit_named(d, #[trigger] s.subrange(0, j)),
{
    lemma_duration_named(s, 0);
    if let Some((d, j)) = p_duration(s, 0) {
        if cf_units(s) is Some {
            assert(unit_named(d, s.subrange(0, j)));
            assert(0 <= j <= s.len()) by {
                lemma_first_match_bounds(s, 0, years_tags());
                lemma_first_match_bounds(s, 0, months_tags());
                lemma_first_match_bounds(s, 0, days_tags());
                lemma_first_match_bounds(s, 0, hours_tags());
                lemma_first_match_bounds(s, 0, minutes_tags());
                lemma_first_match_bounds(s, 0, seconds_tags());
                lemma_first_match_bounds(s, 0, milliseconds_tags());
                lemma_first_match_bounds(s, 0, microseconds_tags());
            }
        }
    }
}

proof fn lemma_first_match_finds(s: Seq<char>, i: int, tags: Seq<Seq<char>>, k: int)
    requires
        0 <= k < tags.len(),
        tag_at(s, i, tags[k]),
    ensures
        first_match(s, i, tags) is Some,
    decreases tags.len(),
{
    if !tag_at(s, i, tags[0]) {
        assert(tags.drop_first()[k - 1] == tags[k]);
        lemma_first_match_finds(s, i, tags.drop_first(), k - 1);
    }
}

/// Where a name of a unit stands, a unit is read: no unit name is passed
/// over.
pub proof fn lemma_named_duration_read(s: Seq<char>, i: int, d: Duration, w: Seq<char>)
    requires
        unit_named(d, w),
        tag_at(s, i, w),
    ensures
        p_duration(s, i) is Some,
{
    let tags = match d {
        Duration::Years => years_tags(),
        Duration::Months => months_tags(),
        Duration::Days => days_tags(),
        Duration::Hours => hours_tags(),
        Duration::Minutes => minutes_tags(),
        Duration::Seconds => seconds_tags(),
        Duration::Milliseconds => milliseconds_tags(),
        Duration::Microseconds => microseconds_tags(),
    };
    let k = choose|k: int| 0 <= k < tags.len() && tags[k] == w;
    assert(exists|k: int| 0 <= k < tags.len() && tags[k] == w) by {
        if w == tags[0] {
            assert(tags[0] == w);
        } else if tags.len() > 1 && w == tags[1] {
            assert(tags[1] == w);
        } else if tags.len() > 2 && w == tags[2] {
            assert(tags[2] == w);
        } else if tags.len() > 3 && w == tags[3] {
            assert(tags[3] == w);
        } else if tags.len() > 4 && w == tags[4] {
            assert(tags[4] == w);
        } else if tags.len() > 5 && w == tags[5] {
            assert(tags[5] == w);
        } else {
            assert(tags[6] == w);
        }
    }
    lemma_first_match_finds(s, i, tags, k);
}

} // verus!
