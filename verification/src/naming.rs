//! The names of the files that artifacts are written to.

use vstd::prelude::*;
use vstd::string::*;
use chrono::{Datelike, Timelike};
use crate::text::{
    decimal, digit_char, padded_decimal, push_padded_decimal, push_signed_decimal, signed_decimal,
};

verus! {

/// A moment of the calendar, to the millisecond.
#[derive(Clone, Copy, Debug, PartialEq, Eq, Structural)]
pub struct Timestamp {
    pub year: i32,
    pub month: u32,
    pub day: u32,
    pub hour: u32,
    pub minute: u32,
    pub second: u32,
    pub millisecond: u32,
}

impl Timestamp {
    /// Month, day and time of day are such as a calendar has them. The
    /// milliseconds pass 999 only in a leap second.
    pub open spec fn on_calendar(self) -> bool {
        &&& 1 <= self.month <= 12
        &&& 1 <= self.day <= 31
        &&& self.hour <= 23
        &&& self.minute <= 59
        &&& self.second <= 59
        &&& self.millisecond <= 1999
    }
}

/// The name of the file for a proof made at `at`:
/// `proof_`, the date as `Y-MM-DD`, `_`, the time as `HH-MM-SS`, `-`, the
/// milliseconds in three digits, and `.json`.
pub open spec fn timestamped_name(at: Timestamp) -> Seq<char> {
    "proof_"@ + signed_decimal(at.year as int) + "-"@ + padded_decimal(at.month as nat, 2) + "-"@
        + padded_decimal(at.day as nat, 2) + "_"@ + padded_decimal(at.hour as nat, 2) + "-"@
        + padded_decimal(at.minute as nat, 2) + "-"@ + padded_decimal(at.second as nat, 2) + "-"@
        + padded_decimal(at.millisecond as nat, 3) + ".json"@
}

/// The year of a stamp: in four digits from year 0 to year 9999, and
/// behind its sign, in four digits or more, outside of them.
pub open spec fn stamp_year(year: int) -> Seq<char> {
    if year < 0 {
        seq!['-'] + padded_decimal((-year) as nat, 4)
    } else if year > 9999 {
        seq!['+'] + padded_decimal(year as nat, 4)
    } else {
        padded_decimal(year as nat, 4)
    }
}

/// The stamp of the second that `at` lies in: the date as `YYYY-MM-DD`,
/// `_`, and the time as `HH-MM-SS`.
pub open spec fn stamp_of(at: Timestamp) -> Seq<char> {
    stamp_year(at.year as int) + "-"@ + padded_decimal(at.month as nat, 2) + "-"@
        + padded_decimal(at.day as nat, 2) + "_"@ + padded_decimal(at.hour as nat, 2) + "-"@
        + padded_decimal(at.minute as nat, 2) + "-"@ + padded_decimal(at.second as nat, 2)
}

/// The nineteen characters of a stamp in the years 0 to 9999.
#[verifier::opaque]
pub open spec fn stamp_chars(at: Timestamp) -> Seq<char> {
    seq![
        digit_char(at.year as int / 1000),
        digit_char(at.year as int / 100 % 10),
        digit_char(at.year as int / 10 % 10),
        digit_char(at.year as int % 10),
        '-',
        digit_char(at.month as int / 10),
        digit_char(at.month as int % 10),
        '-',
        digit_char(at.day as int / 10),
        digit_char(at.day as int % 10),
        '_',
        digit_char(at.hour as int / 10),
        digit_char(at.hour as int % 10),
        '-',
        digit_char(at.minute as int / 10),
        digit_char(at.minute as int % 10),
        '-',
        digit_char(at.second as int / 10),
        digit_char(at.second as int % 10),
    ]
}

/// The moments lie in one second.
pub open spec fn same_second(a: Timestamp, b: Timestamp) -> bool {
    &&& a.year == b.year
    &&& a.month == b.month
    &&& a.day == b.day
    &&& a.hour == b.hour
    &&& a.minute == b.minute
    &&& a.second == b.second
}

/// A number below 100 is padded to its two digits.
pub proof fn lemma_two_digits(n: nat)
    requires
        n < 100,
    ensures
        padded_decimal(n, 2) == seq![digit_char(n as int / 10), digit_char(n as int % 10)],
{
    reveal(digit_char);
    reveal_with_fuel(decimal, 3);
    if n < 10 {
        assert(padded_decimal(n, 2) =~= seq![digit_char(0), digit_char(n as int)]);
    } else {
        assert(padded_decimal(n, 2) =~= seq![digit_char(n as int / 10), digit_char(n as int % 10)]);
    }
}

/// A number below 10000 is padded to its four digits.
pub proof fn lemma_four_digits(n: nat)
    requires
        n < 10000,
    ensures
        padded_decimal(n, 4) == seq![
            digit_char(n as int / 1000),
            digit_char(n as int / 100 % 10),
            digit_char(n as int / 10 % 10),
            digit_char(n as int % 10),
        ],
{
    reveal(digit_char);
    reveal_with_fuel(decimal, 5);
    let digits = seq![
        digit_char(n as int / 1000),
        digit_char(n as int / 100 % 10),
        digit_char(n as int / 10 % 10),
        digit_char(n as int % 10),
    ];
    if n < 10 {
        assert(padded_decimal(n, 4) =~= digits);
    } else if n < 100 {
        assert(padded_decimal(n, 4) =~= digits);
    } else if n < 1000 {
        assert(padded_decimal(n, 4) =~= digits);
    } else {
        assert(padded_decimal(n, 4) =~= digits);
    }
}

/// Six fields of four, two, two, two, two and two characters, joined as
/// a stamp joins them, are nineteen characters.
proof fn lemma_joined(
    year: Seq<char>,
    month: Seq<char>,
    day: Seq<char>,
    hour: Seq<char>,
    minute: Seq<char>,
    second: Seq<char>,
)
    requires
        year.len() == 4,
        month.len() == 2,
        day.len() == 2,
        hour.len() == 2,
        minute.len() == 2,
        second.len() == 2,
    ensures
        year + "-"@ + month + "-"@ + day + "_"@ + hour + "-"@ + minute + "-"@ + second == seq![
            year[0],
            year[1],
            year[2],
            year[3],
            '-',
            month[0],
            month[1],
            '-',
            day[0],
            day[1],
            '_',
            hour[0],
            hour[1],
            '-',
            minute[0],
            minute[1],
            '-',
            second[0],
            second[1],
        ],
{
    reveal_strlit("-");
    reveal_strlit("_");
    assert("-"@ =~= seq!['-']);
    assert("_"@ =~= seq!['_']);
    let date = year + "-"@ + month + "-"@ + day;
    assert(date =~= seq![
        year[0],
        year[1],
        year[2],
        year[3],
        '-',
        month[0],
        month[1],
        '-',
        day[0],
        day[1],
    ]);
    let time = hour + "-"@ + minute + "-"@ + second;
    assert(time =~= seq![
        hour[0],
        hour[1],
        '-',
        minute[0],
        minute[1],
        '-',
        second[0],
        second[1],
    ]);
    assert(year + "-"@ + month + "-"@ + day + "_"@ + hour + "-"@ + minute + "-"@ + second
        =~= date + "_"@ + time);
    assert(date + "_"@ + time =~= seq![
        year[0],
        year[1],
        year[2],
        year[3],
        '-',
        month[0],
        month[1],
        '-',
        day[0],
        day[1],
        '_',
        hour[0],
        hour[1],
        '-',
        minute[0],
        minute[1],
        '-',
        second[0],
        second[1],
    ]);
}

/// In the years 0 to 9999 a stamp has nineteen characters: digits in
/// fields of four, two, two, two, two and two, with `-` and `_` between
/// them.
pub proof fn lemma_stamp_form(at: Timestamp)
    requires
        at.on_calendar(),
        0 <= at.year <= 9999,
    ensures
        stamp_of(at) == stamp_chars(at),
        stamp_of(at).len() == 19,
{
    let year = padded_decimal(at.year as nat, 4);
    let month = padded_decimal(at.month as nat, 2);
    let day = padded_decimal(at.day as nat, 2);
    let hour = padded_decimal(at.hour as nat, 2);
    let minute = padded_decimal(at.minute as nat, 2);
    let second = padded_decimal(at.second as nat, 2);
    lemma_four_digits(at.year as nat);
    lemma_two_digits(at.month as nat);
    lemma_two_digits(at.day as nat);
    lemma_two_digits(at.hour as nat);
    lemma_two_digits(at.minute as nat);
    lemma_two_digits(at.second as nat);
    lemma_joined(year, month, day, hour, minute, second);
    assert(stamp_year(at.year as int) == year);
    lemma_stamp_chars(
        at,
        year + "-"@ + month + "-"@ + day + "_"@ + hour + "-"@ + minute + "-"@ + second,
    );
}

/// A text of the nineteen characters of a stamp is those characters.
proof fn lemma_stamp_chars(at: Timestamp, text: Seq<char>)
    requires
        text.len() == 19,
        text[0] == digit_char(at.year as int / 1000),
        text[1] == digit_char(at.year as int / 100 % 10),
        text[2] == digit_char(at.year as int / 10 % 10),
        text[3] == digit_char(at.year as int % 10),
        text[4] == '-',
        text[5] == digit_char(at.month as int / 10),
        text[6] == digit_char(at.month as int % 10),
        text[7] == '-',
        text[8] == digit_char(at.day as int / 10),
        text[9] == digit_char(at.day as int % 10),
        text[10] == '_',
        text[11] == digit_char(at.hour as int / 10),
        text[12] == digit_char(at.hour as int % 10),
        text[13] == '-',
        text[14] == digit_char(at.minute as int / 10),
        text[15] == digit_char(at.minute as int % 10),
        text[16] == '-',
        text[17] == digit_char(at.second as int / 10),
        text[18] == digit_char(at.second as int % 10),
    ensures
        text == stamp_chars(at),
{
    reveal(stamp_chars);
    assert(text =~= stamp_chars(at));
}

/// Different digits have different characters.
pub proof fn lemma_digit_char_injective(d: int, e: int)
    requires
        0 <= d <= 9,
        0 <= e <= 9,
        digit_char(d) == digit_char(e),
    ensures
        d == e,
{
    reveal(digit_char);
}

/// Numbers below 100 with the same two digits are the same number.
pub proof fn lemma_two_digit_field(n: int, m: int)
    requires
        0 <= n < 100,
        0 <= m < 100,
        digit_char(n / 10) == digit_char(m / 10),
        digit_char(n % 10) == digit_char(m % 10),
    ensures
        n == m,
{
    lemma_digit_char_injective(n / 10, m / 10);
    lemma_digit_char_injective(n % 10, m % 10);
}

/// Numbers below 10000 with the same four digits are the same number.
pub proof fn lemma_four_digit_field(n: int, m: int)
    requires
        0 <= n < 10000,
        0 <= m < 10000,
        digit_char(n / 1000) == digit_char(m / 1000),
        digit_char(n / 100 % 10) == digit_char(m / 100 % 10),
        digit_char(n / 10 % 10) == digit_char(m / 10 % 10),
        digit_char(n % 10) == digit_char(m % 10),
    ensures
        n == m,
{
    lemma_digit_char_injective(n / 1000, m / 1000);
    lemma_digit_char_injective(n / 100 % 10, m / 100 % 10);
    lemma_digit_char_injective(n / 10 % 10, m / 10 % 10);
    lemma_digit_char_injective(n % 10, m % 10);
    lemma_four_digit_sum(n);
    lemma_four_digit_sum(m);
}

/// A number below 10000 is the sum of its four digits, each at its place.
proof fn lemma_four_digit_sum(n: int)
    requires
        0 <= n < 10000,
    ensures
        n == 1000 * (n / 1000) + 100 * (n / 100 % 10) + 10 * (n / 10 % 10) + n % 10,
{
    let tens = n / 10;
    let hundreds = tens / 10;
    let thousands = hundreds / 10;
    assert(n == 10 * tens + n % 10);
    assert(tens == 10 * hundreds + tens % 10);
    assert(hundreds == 10 * thousands + hundreds % 10);
    assert(n / 100 == hundreds);
    assert(n / 1000 == thousands);
}

/// The characters of a stamp, each where it stands.
proof fn lemma_stamp_digits(at: Timestamp)
    ensures
        stamp_chars(at).len() == 19,
        stamp_chars(at)[4] == '-',
        stamp_chars(at)[7] == '-',
        stamp_chars(at)[10] == '_',
        stamp_chars(at)[13] == '-',
        stamp_chars(at)[16] == '-',
        stamp_chars(at)[0] == digit_char(at.year as int / 1000),
        stamp_chars(at)[1] == digit_char(at.year as int / 100 % 10),
        stamp_chars(at)[2] == digit_char(at.year as int / 10 % 10),
        stamp_chars(at)[3] == digit_char(at.year as int % 10),
        stamp_chars(at)[5] == digit_char(at.month as int / 10),
        stamp_chars(at)[6] == digit_char(at.month as int % 10),
        stamp_chars(at)[8] == digit_char(at.day as int / 10),
        stamp_chars(at)[9] == digit_char(at.day as int % 10),
        stamp_chars(at)[11] == digit_char(at.hour as int / 10),
        stamp_chars(at)[12] == digit_char(at.hour as int % 10),
        stamp_chars(at)[14] == digit_char(at.minute as int / 10),
        stamp_chars(at)[15] == digit_char(at.minute as int % 10),
        stamp_chars(at)[17] == digit_char(at.second as int / 10),
        stamp_chars(at)[18] == digit_char(at.second as int % 10),
{
    reveal(stamp_chars);
}

/// In the years 0 to 9999 two moments get the same stamp exactly when
/// they lie in one second.
pub proof fn lemma_stamp_same_second(a: Timestamp, b: Timestamp)
    requires
        a.on_calendar(),
        b.on_calendar(),
        0 <= a.year <= 9999,
        0 <= b.year <= 9999,
    ensures
        stamp_of(a) == stamp_of(b) <==> same_second(a, b),
{
    lemma_stamp_form(a);
    lemma_stamp_form(b);
    if same_second(a, b) {
        assert(stamp_of(a) == stamp_of(b));
    }
    if stamp_chars(a) == stamp_chars(b) {
        lemma_stamp_digits(a);
        lemma_stamp_digits(b);
        lemma_four_digit_field(a.year as int, b.year as int);
        lemma_two_digit_field(a.month as int, b.month as int);
        lemma_two_digit_field(a.day as int, b.day as int);
        lemma_two_digit_field(a.hour as int, b.hour as int);
        lemma_two_digit_field(a.minute as int, b.minute as int);
        lemma_two_digit_field(a.second as int, b.second as int);
    }
}

/// `a` lies in an earlier second than `b`.
pub open spec fn second_before(a: Timestamp, b: Timestamp) -> bool {
    a.year < b.year || (a.year == b.year && (a.month < b.month || (a.month == b.month && (a.day
        < b.day || (a.day == b.day && (a.hour < b.hour || (a.hour == b.hour && (a.minute
        < b.minute || (a.minute == b.minute && a.second < b.second)))))))))
}

/// `a` stands before `b` in the order of texts: where they first differ,
/// `a` has the lower character.
pub open spec fn text_before(a: Seq<char>, b: Seq<char>) -> bool {
    exists|k: int|
        0 <= k < a.len() && k < b.len() && #[trigger] a.take(k) == b.take(k) && (a[k] as u32) < (
        b[k] as u32)
}

/// A lower digit has a lower character.
pub proof fn lemma_digit_char_order(d: int, e: int)
    requires
        0 <= d < e <= 9,
    ensures
        (digit_char(d) as u32) < (digit_char(e) as u32),
{
    reveal(digit_char);
}

/// Texts that agree up to a place where the first has the lower character
/// stand in that order.
proof fn lemma_first_difference(s: Seq<char>, t: Seq<char>, k: int)
    requires
        0 <= k < s.len(),
        k < t.len(),
        forall|i: int| 0 <= i < k ==> s[i] == t[i],
        (s[k] as u32) < (t[k] as u32),
    ensures
        text_before(s, t),
{
    assert(s.take(k) =~= t.take(k));
}

/// Texts that agree up to a field of two digits, of which the first holds
/// the lower number, stand in that order.
proof fn lemma_two_digit_order(s: Seq<char>, t: Seq<char>, k: int, n: int, m: int)
    requires
        0 <= k,
        k + 1 < s.len(),
        k + 1 < t.len(),
        forall|i: int| 0 <= i < k ==> s[i] == t[i],
        0 <= n < m < 100,
        s[k] == digit_char(n / 10),
        s[k + 1] == digit_char(n % 10),
        t[k] == digit_char(m / 10),
        t[k + 1] == digit_char(m % 10),
    ensures
        text_before(s, t),
{
    if n / 10 < m / 10 {
        lemma_digit_char_order(n / 10, m / 10);
        lemma_first_difference(s, t, k);
    } else {
        assert(n / 10 == m / 10);
        lemma_digit_char_order(n % 10, m % 10);
        lemma_first_difference(s, t, k + 1);
    }
}

/// Texts that start with a field of four digits, of which the first holds
/// the lower number, stand in that order.
proof fn lemma_four_digit_order(s: Seq<char>, t: Seq<char>, n: int, m: int)
    requires
        4 <= s.len(),
        4 <= t.len(),
        0 <= n < m < 10000,
        s[0] == digit_char(n / 1000),
        s[1] == digit_char(n / 100 % 10),
        s[2] == digit_char(n / 10 % 10),
        s[3] == digit_char(n % 10),
        t[0] == digit_char(m / 1000),
        t[1] == digit_char(m / 100 % 10),
        t[2] == digit_char(m / 10 % 10),
        t[3] == digit_char(m % 10),
    ensures
        text_before(s, t),
{
    lemma_four_digit_sum(n);
    lemma_four_digit_sum(m);
    if n / 1000 < m / 1000 {
        lemma_digit_char_order(n / 1000, m / 1000);
        lemma_first_difference(s, t, 0);
    } else if n / 100 % 10 < m / 100 % 10 {
        assert(n / 1000 == m / 1000);
        lemma_digit_char_order(n / 100 % 10, m / 100 % 10);
        lemma_first_difference(s, t, 1);
    } else if n / 10 % 10 < m / 10 % 10 {
        assert(n / 1000 == m / 1000);
        assert(n / 100 % 10 == m / 100 % 10);
        lemma_digit_char_order(n / 10 % 10, m / 10 % 10);
        lemma_first_difference(s, t, 2);
    } else {
        assert(n / 1000 == m / 1000);
        assert(n / 100 % 10 == m / 100 % 10);
        assert(n / 10 % 10 == m / 10 % 10);
        lemma_digit_char_order(n % 10, m % 10);
        lemma_first_difference(s, t, 3);
    }
}

/// The characters of two stamps agree in front of the first field in
/// which the moments differ.
proof fn lemma_stamps_agree(a: Timestamp, b: Timestamp, k: int)
    requires
        k == 0 || k == 5 || k == 8 || k == 11 || k == 14 || k == 17,
        k > 0 ==> a.year == b.year,
        k > 5 ==> a.month == b.month,
        k > 8 ==> a.day == b.day,
        k > 11 ==> a.hour == b.hour,
        k > 14 ==> a.minute == b.minute,
    ensures
        forall|i: int| 0 <= i < k ==> stamp_chars(a)[i] == stamp_chars(b)[i],
{
    reveal(stamp_chars);
}

/// In the years 0 to 9999 the stamp of an earlier second stands before
/// the stamp of a later one in the order of texts.
pub proof fn lemma_stamp_order(a: Timestamp, b: Timestamp)
    requires
        a.on_calendar(),
        b.on_calendar(),
        0 <= a.year <= 9999,
        0 <= b.year <= 9999,
        second_before(a, b),
    ensures
        text_before(stamp_of(a), stamp_of(b)),
{
    lemma_stamp_form(a);
    lemma_stamp_form(b);
    lemma_stamp_chars_order(a, b);
}

/// `lemma_stamp_order`, of the nineteen characters.
proof fn lemma_stamp_chars_order(a: Timestamp, b: Timestamp)
    requires
        a.on_calendar(),
        b.on_calendar(),
        0 <= a.year <= 9999,
        0 <= b.year <= 9999,
        second_before(a, b),
    ensures
        text_before(stamp_chars(a), stamp_chars(b)),
{
    lemma_stamp_digits(a);
    lemma_stamp_digits(b);
    let s = stamp_chars(a);
    let t = stamp_chars(b);
    if a.year < b.year {
        lemma_four_digit_order(s, t, a.year as int, b.year as int);
    } else if a.month < b.month {
        lemma_stamps_agree(a, b, 5);
        lemma_two_digit_order(s, t, 5, a.month as int, b.month as int);
    } else if a.day < b.day {
        lemma_stamps_agree(a, b, 8);
        lemma_two_digit_order(s, t, 8, a.day as int, b.day as int);
    } else if a.hour < b.hour {
        lemma_stamps_agree(a, b, 11);
        lemma_two_digit_order(s, t, 11, a.hour as int, b.hour as int);
    } else if a.minute < b.minute {
        lemma_stamps_agree(a, b, 14);
        lemma_two_digit_order(s, t, 14, a.minute as int, b.minute as int);
    } else {
        lemma_stamps_agree(a, b, 17);
        lemma_two_digit_order(s, t, 17, a.second as int, b.second as int);
    }
}

/// The path of one artifact of a run stamped `stamp`: in `data`, the
/// artifact's name, `_`, the stamp, and `.json`.
pub open spec fn artifact_path(name: Seq<char>, stamp: Seq<char>) -> Seq<char> {
    "data/"@ + name + "_"@ + stamp + ".json"@
}

/// The paths of the three artifacts of one run.
#[derive(Debug)]
pub struct ArtifactPaths {
    pub proof: String,
    pub verification_key: String,
    pub public_inputs: String,
}

/// The paths are those of the run stamped `stamp`.
pub open spec fn paths_of(paths: ArtifactPaths, stamp: Seq<char>) -> bool {
    &&& paths.proof@ == artifact_path("proof"@, stamp)
    &&& paths.verification_key@ == artifact_path("vk"@, stamp)
    &&& paths.public_inputs@ == artifact_path("public"@, stamp)
}

/// `chrono::Local::now`, taken apart by `Datelike` and `Timelike`: the
/// machine's local time. Only the ranges that chrono documents for the
/// parts are claimed.
#[verifier::external_body]
fn local_now() -> (now: Timestamp)
    ensures
        now.on_calendar(),
{
    let now = chrono::Local::now();
    Timestamp {
        year: now.year(),
        month: now.month(),
        day: now.day(),
        hour: now.hour(),
        minute: now.minute(),
        second: now.second(),
        millisecond: now.timestamp_subsec_millis(),
    }
}

/// `chrono::Utc::now`, taken apart by `Datelike` and `Timelike`: the
/// time in UTC. Only the ranges that chrono documents for the parts are
/// claimed.
#[verifier::external_body]
fn utc_now() -> (now: Timestamp)
    ensures
        now.on_calendar(),
{
    let now = chrono::Utc::now();
    Timestamp {
        year: now.year(),
        month: now.month(),
        day: now.day(),
        hour: now.hour(),
        minute: now.minute(),
        second: now.second(),
        millisecond: now.timestamp_subsec_millis(),
    }
}

/// The stamp of the second that `at` lies in. In the years 0 to 9999 it
/// has the nineteen characters of `stamp_chars`.
pub fn stamp_text(at: &Timestamp) -> (stamp: String)
    ensures
        stamp@ == stamp_of(*at),
        at.on_calendar() && 0 <= at.year <= 9999 ==> stamp@ == stamp_chars(*at) && stamp@.len()
            == 19,
{
    proof {
        if at.on_calendar() && 0 <= at.year <= 9999 {
            lemma_stamp_form(*at);
        }
    }
    let mut stamp = String::new();
    if at.year < 0 {
        proof {
            reveal_strlit("-");
        }
        stamp.append("-");
        push_padded_decimal(&mut stamp, (0 - at.year as i64) as u32, 4);
        assert(stamp@ =~= stamp_year(at.year as int));
    } else {
        if at.year > 9999 {
            proof {
                reveal_strlit("+");
            }
            stamp.append("+");
        }
        push_padded_decimal(&mut stamp, at.year as u32, 4);
        assert(stamp@ =~= stamp_year(at.year as int));
    }
    stamp.append("-");
    push_padded_decimal(&mut stamp, at.month, 2);
    stamp.append("-");
    push_padded_decimal(&mut stamp, at.day, 2);
    stamp.append("_");
    push_padded_decimal(&mut stamp, at.hour, 2);
    stamp.append("-");
    push_padded_decimal(&mut stamp, at.minute, 2);
    stamp.append("-");
    push_padded_decimal(&mut stamp, at.second, 2);
    stamp
}

/// The stamp of the current second, by the time in UTC.
pub fn get_timestamp() -> (stamp: String)
    ensures
        exists|at: Timestamp| at.on_calendar() && stamp@ == stamp_of(at),
{
    let now = utc_now();
    stamp_text(&now)
}

/// The path of one artifact of a run.
pub fn artifact_path_of(name: &str, stamp: &str) -> (path: String)
    ensures
        path@ == artifact_path(name@, stamp@),
{
    let mut path = String::from_str("data/");
    path.append(name);
    path.append("_");
    path.append(stamp);
    path.append(".json");
    path
}

/// The paths of the three artifacts of the run stamped `stamp`.
pub fn artifact_paths(stamp: &str) -> (paths: ArtifactPaths)
    ensures
        paths_of(paths, stamp@),
{
    ArtifactPaths {
        proof: artifact_path_of("proof", stamp),
        verification_key: artifact_path_of("vk", stamp),
        public_inputs: artifact_path_of("public", stamp),
    }
}

/// The paths of the three artifacts of a run that starts now: all three
/// carry the stamp of the current second, by the time in UTC.
pub fn stamped_artifact_paths() -> (paths: ArtifactPaths)
    ensures
        exists|at: Timestamp| at.on_calendar() && paths_of(paths, stamp_of(at)),
{
    let now = utc_now();
    let stamp = stamp_text(&now);
    let paths = artifact_paths(stamp.as_str());
    assert(paths_of(paths, stamp_of(now)));
    paths
}

/// The name of the file for a proof made at `at`.
pub fn timestamped_filename(at: &Timestamp) -> (name: String)
    ensures
        name@ == timestamped_name(*at),
{
    let mut name = String::from_str("proof_");
    push_signed_decimal(&mut name, at.year);
    name.append("-");
    push_padded_decimal(&mut name, at.month, 2);
    name.append("-");
    push_padded_decimal(&mut name, at.day, 2);
    name.append("_");
    push_padded_decimal(&mut name, at.hour, 2);
    name.append("-");
    push_padded_decimal(&mut name, at.minute, 2);
    name.append("-");
    push_padded_decimal(&mut name, at.second, 2);
    name.append("-");
    push_padded_decimal(&mut name, at.millisecond, 3);
    name.append(".json");
    name
}

/// The name of the file for a proof made now, by the machine's local
/// time.
pub fn generate_timestamped_filename() -> (name: String)
    ensures
        exists|at: Timestamp| at.on_calendar() && name@ == timestamped_name(at),
{
    let now = local_now();
    timestamped_filename(&now)
}

} // verus!
