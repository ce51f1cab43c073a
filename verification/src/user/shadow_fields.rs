//! A record of the shadow table.
use vstd::prelude::*;

use crate::error::{ErrorView, UserLibError};
use crate::number::{decimal, decimal_chars, i64_of, int_chars, int_text, is_canonical_int};
use crate::number::{lemma_value_decimal, lemma_value_positive, parse_i64, parse_u64, u64_of};
use crate::text::{chars_of, join, join_chars, lemma_join_split, split, split_chars, string_of};
use crate::text::views;
use crate::user::passwd_fields::{name_valid, valid_name};

verus! {

/// A day has this many seconds.
pub const SECONDS_PER_DAY: i64 = 86400;

/// The first day that chrono holds, counted from the epoch: 1 January of
/// the year -262143, which is 262144 BCE.
pub const FIRST_DAY: i64 = -96_465_292;

/// The last day that chrono holds, counted from the epoch: 31 December of
/// the year 262142.
pub const LAST_DAY: i64 = 95_026_236;

/// Whether chrono has an instant at that many seconds since the epoch: the
/// day that holds the second is none before its first day and none after
/// its last.
pub open spec fn instant_in_range(secs: int) -> bool {
    FIRST_DAY <= secs / 86400 <= LAST_DAY
}

/// Calls `DateTime::from_timestamp` of chrono with no nanoseconds and, on
/// the instant that comes back, `DateTime::timestamp`. chrono gives `None`
/// exactly where the day that holds the second lies outside the dates that
/// it can hold, from `NaiveDate::MIN` to `NaiveDate::MAX`; from an instant
/// that it has made it reads the same number of seconds again.
#[verifier::external_body]
fn utc_timestamp(secs: i64) -> (r: Option<i64>)
    ensures
        r is Some <==> instant_in_range(secs as int),
        r matches Some(t) ==> t == secs,
{
    match chrono::DateTime::from_timestamp(secs, 0) {
        Some(instant) => Some(instant.timestamp()),
        None => None,
    }
}

/// Whether chrono can hold a duration of that many days: a duration is at
/// most `i64::MAX` milliseconds long in either direction.
pub open spec fn duration_in_range(days: int) -> bool {
    -i64::MAX <= days * 86_400_000 <= i64::MAX
}

/// Calls `TimeDelta::try_days` of chrono and, on the duration that comes
/// back, `TimeDelta::num_days`. chrono gives `None` for a duration of more
/// than `i64::MAX` milliseconds in either direction; from a duration made of
/// whole days it reads the same number of days again.
#[verifier::external_body]
fn whole_days(days: i64) -> (r: Option<i64>)
    ensures
        r is Some <==> duration_in_range(days as int),
        r matches Some(d) ==> d == days,
{
    match chrono::Duration::try_days(days) {
        Some(duration) => Some(duration.num_days()),
        None => None,
    }
}

/// A record (line) of the shadow table.
#[derive(Debug, PartialEq, Eq, Clone)]
pub struct Shadow {
    source: String,
    username: String,
    password: String,
    last_change: Option<i64>,
    earliest_change: Option<i64>,
    latest_change: Option<i64>,
    warn_period: Option<i64>,
    deactivated: Option<i64>,
    deactivated_since: Option<i64>,
    extensions: Option<u64>,
}

/// A record of the shadow table as a mathematical value. The three dates
/// are seconds since the epoch, the three durations are days.
pub struct ShadowView {
    pub source: Seq<char>,
    pub username: Seq<char>,
    pub password: Seq<char>,
    pub last_change: Option<i64>,
    pub earliest_change: Option<i64>,
    pub latest_change: Option<i64>,
    pub warn_period: Option<i64>,
    pub deactivated: Option<i64>,
    pub deactivated_since: Option<i64>,
    pub extensions: Option<u64>,
}

impl View for Shadow {
    type V = ShadowView;

    closed spec fn view(&self) -> ShadowView {
        ShadowView {
            source: self.source@,
            username: self.username@,
            password: self.password@,
            last_change: self.last_change,
            earliest_change: self.earliest_change,
            latest_change: self.latest_change,
            warn_period: self.warn_period,
            deactivated: self.deactivated,
            deactivated_since: self.deactivated_since,
            extensions: self.extensions,
        }
    }
}

/// A date field of a line: empty for no date, else the number of the day
/// since the epoch that holds the instant.
pub open spec fn date_text(date: Option<i64>) -> Seq<char> {
    match date {
        None => Seq::<char>::empty(),
        Some(secs) => int_text(secs as int / 86400),
    }
}

/// A duration field of a line: empty for none, else the number of days.
pub open spec fn duration_text(duration: Option<i64>) -> Seq<char> {
    match duration {
        None => Seq::<char>::empty(),
        Some(days) => int_text(days as int),
    }
}

/// The last field of a line: empty for none, else the number.
pub open spec fn extension_text(extension: Option<u64>) -> Seq<char> {
    match extension {
        None => Seq::<char>::empty(),
        Some(n) => decimal(n as nat),
    }
}

impl ShadowView {
    /// The nine fields of the record's line.
    pub open spec fn fields(self) -> Seq<Seq<char>> {
        seq![
            self.username,
            self.password,
            date_text(self.last_change),
            date_text(self.earliest_change),
            date_text(self.latest_change),
            duration_text(self.warn_period),
            duration_text(self.deactivated),
            duration_text(self.deactivated_since),
            extension_text(self.extensions),
        ]
    }

    /// The record as a line of the shadow table.
    pub open spec fn line(self) -> Seq<char> {
        join(self.fields(), ':')
    }
}

/// The second that a date field speaks of: none where the field is empty,
/// else the first second of the day whose number it holds, counted from
/// the epoch. `None` where the field is no number, or the second is beyond
/// what an `i64` counts.
pub open spec fn day_start(field: Seq<char>) -> Option<Option<i64>> {
    if field.len() == 0 {
        Some(None)
    } else {
        match i64_of(field) {
            None => None,
            Some(days) => if i64::MIN <= days * 86400 <= i64::MAX {
                Some(Some((days * 86400) as i64))
            } else {
                None
            },
        }
    }
}

/// What a date field denotes: nothing where it is empty, else the first
/// second of the day whose number it holds. `None` where the field is no
/// number or chrono has no such instant.
pub open spec fn date_of(field: Seq<char>) -> Option<Option<i64>> {
    match day_start(field) {
        None => None,
        Some(None) => Some(None),
        Some(Some(secs)) => if instant_in_range(secs as int) {
            Some(Some(secs))
        } else {
            None
        },
    }
}

/// What a duration field denotes: nothing where it is empty, else that
/// many days. `None` where the field is no number or chrono has no such
/// duration.
pub open spec fn duration_of(field: Seq<char>) -> Option<Option<i64>> {
    if field.len() == 0 {
        Some(None)
    } else {
        match i64_of(field) {
            None => None,
            Some(days) => if duration_in_range(days as int) {
                Some(Some(days))
            } else {
                None
            },
        }
    }
}

/// What the last field denotes: nothing where it is empty, else a number.
pub open spec fn extension_of(field: Seq<char>) -> Option<Option<u64>> {
    if field.len() == 0 {
        Some(None)
    } else {
        match u64_of(field) {
            None => None,
            Some(n) => Some(Some(n)),
        }
    }
}

/// The outcome of a line that is malformed, in words.
pub open spec fn message(text: Seq<char>) -> Result<ShadowView, ErrorView> {
    Err(ErrorView::Message(text))
}

/// What a line of the shadow table denotes: nine fields between colons, a
/// valid user name, any password, three dates, three durations and a number.
/// The first field that is malformed gives the error.
pub open spec fn parse_shadow(line: Seq<char>) -> Result<ShadowView, ErrorView> {
    let f = split(line, ':');
    if f.len() != 9 {
        message("Failed to parse: not enough elements"@)
    } else if !name_valid(f[0]) {
        message("Invalid username"@)
    } else if date_of(f[2]) is None || date_of(f[3]) is None || date_of(f[4]) is None {
        message("Invalid date"@)
    } else if duration_of(f[5]) is None || duration_of(f[6]) is None || duration_of(f[7]) is None {
        message("Invalid duration"@)
    } else if extension_of(f[8]) is None {
        message("Invalid number"@)
    } else {
        Ok(
            ShadowView {
                source: line,
                username: f[0],
                password: f[1],
                last_change: date_of(f[2])->Some_0,
                earliest_change: date_of(f[3])->Some_0,
                latest_change: date_of(f[4])->Some_0,
                warn_period: duration_of(f[5])->Some_0,
                deactivated: duration_of(f[6])->Some_0,
                deactivated_since: duration_of(f[7])->Some_0,
                extensions: extension_of(f[8])->Some_0,
            },
        )
    }
}

/// Whether a numeric field is empty or the shortest text of its number.
pub open spec fn is_plain_number(field: Seq<char>) -> bool {
    field.len() == 0 || is_canonical_int(field)
}

/// Whether `line` is a line of the shadow table whose numbers are written
/// in the shortest way: no plus sign, no leading zero, no negative zero.
pub open spec fn is_well_formed_shadow_line(line: Seq<char>) -> bool {
    let f = split(line, ':');
    &&& parse_shadow(line) is Ok
    &&& forall|i: int| 2 <= i < 9 ==> is_plain_number(#[trigger] f[i])
}

/// The shortest text of an integer is the text of the number it denotes.
pub proof fn lemma_int_text(field: Seq<char>)
    requires
        is_canonical_int(field),
        i64_of(field) is Some,
    ensures
        int_text(i64_of(field)->Some_0 as int) == field,
{
    if field.len() > 0 && field[0] == '-' {
        let body = field.drop_first();
        lemma_value_decimal(body);
        if body.len() == 1 {
            assert(body[0] != '0') by {
                if body[0] == '0' {
                    assert(body == seq!['0']);
                }
            }
        }
        lemma_value_positive(body);
        assert(seq!['-'] + body == field);
    } else {
        assert(field[0] != '+');
        lemma_value_decimal(field);
    }
}

/// The shortest text of a natural number is the text of the number it
/// denotes.
pub proof fn lemma_decimal_text(field: Seq<char>)
    requires
        is_canonical_int(field),
        u64_of(field) is Some,
    ensures
        decimal(u64_of(field)->Some_0 as nat) == field,
{
    assert(field[0] != '+');
    lemma_value_decimal(field);
}

/// Every well-formed line of the shadow table is written back as it was
/// read.
pub proof fn lemma_shadow_round_trip(line: Seq<char>)
    requires
        is_well_formed_shadow_line(line),
    ensures
        parse_shadow(line)->Ok_0.line() == line,
{
    let f = split(line, ':');
    let s = parse_shadow(line)->Ok_0;
    lemma_join_split(line, ':');
    assert forall|i: int| 2 <= i < 5 implies date_text(date_of(f[i])->Some_0) == f[i] by {
        assert(is_plain_number(f[i]));
        if f[i].len() > 0 {
            lemma_int_text(f[i]);
            let days = i64_of(f[i])->Some_0;
            assert((days * 86400) / 86400 == days);
        }
    }
    assert forall|i: int| 5 <= i < 8 implies duration_text(duration_of(f[i])->Some_0) == f[i] by {
        assert(is_plain_number(f[i]));
        if f[i].len() > 0 {
            lemma_int_text(f[i]);
        }
    }
    assert(extension_text(extension_of(f[8])->Some_0) == f[8]) by {
        assert(is_plain_number(f[8]));
        if f[8].len() > 0 {
            lemma_decimal_text(f[8]);
        }
    }
    assert(s.fields() == f);
}

/// The second that a date field speaks of.
pub fn day_start_of(field: &Vec<char>) -> (r: Option<Option<i64>>)
    ensures
        r == day_start(field@),
{
    if field.len() == 0 {
        return Some(None);
    }
    match parse_i64(field) {
        None => None,
        Some(days) => match days.checked_mul(SECONDS_PER_DAY) {
            None => None,
            Some(secs) => Some(Some(secs)),
        },
    }
}

/// Reads a date field: the instant that chrono makes of the second that
/// the field speaks of.
pub fn date_since_epoch(field: &Vec<char>) -> (r: Option<Option<i64>>)
    ensures
        r == date_of(field@),
{
    match day_start_of(field) {
        None => None,
        Some(None) => Some(None),
        Some(Some(secs)) => match utc_timestamp(secs) {
            None => None,
            Some(t) => Some(Some(t)),
        },
    }
}

/// Reads a duration field: the duration of whole days that chrono makes
/// of the number that the field holds.
pub fn duration_for_days(field: &Vec<char>) -> (r: Option<Option<i64>>)
    ensures
        r == duration_of(field@),
{
    if field.len() == 0 {
        return Some(None);
    }
    match parse_i64(field) {
        None => None,
        Some(days) => match whole_days(days) {
            None => None,
            Some(d) => Some(Some(d)),
        },
    }
}

/// Reads the last field.
fn parse_extension(field: &Vec<char>) -> (r: Option<Option<u64>>)
    ensures
        r == extension_of(field@),
{
    if field.len() == 0 {
        return Some(None);
    }
    match parse_u64(field) {
        None => None,
        Some(n) => Some(Some(n)),
    }
}

/// The characters of a date field.
fn date_chars(date: Option<i64>) -> (out: Vec<char>)
    ensures
        out@ == date_text(date),
{
    match date {
        None => Vec::new(),
        Some(secs) => {
            let whole: i64 = secs / SECONDS_PER_DAY;
            let day: i64 = if secs % SECONDS_PER_DAY < 0 {
                whole - 1
            } else {
                whole
            };
            assert(day == secs as int / 86400);
            int_chars(day)
        },
    }
}

/// The characters of a duration field.
fn duration_chars(duration: Option<i64>) -> (out: Vec<char>)
    ensures
        out@ == duration_text(duration),
{
    match duration {
        None => Vec::new(),
        Some(days) => int_chars(days),
    }
}

/// The result of reading a line, as a mathematical value.
pub open spec fn shadow_result(r: Result<Shadow, UserLibError>) -> Result<ShadowView, ErrorView> {
    match r {
        Ok(s) => Ok(s@),
        Err(e) => Err(e@),
    }
}

impl Shadow {
    /// Reads a line of the shadow table.
    pub fn parse_line(line: &str) -> (r: Result<Shadow, UserLibError>)
        ensures
            shadow_result(r) == parse_shadow(line@),
    {
        let chars = chars_of(line);
        let f = split_chars(&chars, ':');
        if f.len() != 9 {
            return Err(UserLibError::message("Failed to parse: not enough elements"));
        }
        assert(forall|i: int| 0 <= i < 9 ==> (#[trigger] views(f@)[i]) == f@[i]@);
        if !valid_name(&f[0]) {
            return Err(UserLibError::message("Invalid username"));
        }
        let last_change = date_since_epoch(&f[2]);
        let earliest_change = date_since_epoch(&f[3]);
        let latest_change = date_since_epoch(&f[4]);
        if last_change.is_none() || earliest_change.is_none() || latest_change.is_none() {
            return Err(UserLibError::message("Invalid date"));
        }
        let warn_period = duration_for_days(&f[5]);
        let deactivated = duration_for_days(&f[6]);
        let deactivated_since = duration_for_days(&f[7]);
        if warn_period.is_none() || deactivated.is_none() || deactivated_since.is_none() {
            return Err(UserLibError::message("Invalid duration"));
        }
        let extensions = parse_extension(&f[8]);
        if extensions.is_none() {
            return Err(UserLibError::message("Invalid number"));
        }
        Ok(
            Shadow {
                source: line.to_owned(),
                username: string_of(&f[0]),
                password: string_of(&f[1]),
                last_change: last_change.unwrap(),
                earliest_change: earliest_change.unwrap(),
                latest_change: latest_change.unwrap(),
                warn_period: warn_period.unwrap(),
                deactivated: deactivated.unwrap(),
                deactivated_since: deactivated_since.unwrap(),
                extensions: extensions.unwrap(),
            },
        )
    }

    /// The record of a new user: no passphrase that could match, changed on
    /// the day of the epoch, to be changed within 99999 days, with a warning
    /// seven days before.
    pub fn new_entry(username: &str) -> (s: Shadow)
        ensures
            s@ == (ShadowView {
                source: Seq::<char>::empty(),
                username: username@,
                password: "!!"@,
                last_change: Some(0i64),
                earliest_change: Some(0i64),
                latest_change: Some(8_639_913_600i64),
                warn_period: Some(7i64),
                deactivated: None,
                deactivated_since: None,
                extensions: None,
            }),
    {
        Shadow {
            source: String::new(),
            username: username.to_owned(),
            password: "!!".to_owned(),
            last_change: Some(0),
            earliest_change: Some(0),
            latest_change: Some(8_639_913_600),
            warn_period: Some(7),
            deactivated: None,
            deactivated_since: None,
            extensions: None,
        }
    }

    /// A copy of the record.
    pub fn duplicate(&self) -> (r: Shadow)
        ensures
            r@ == self@,
    {
        Shadow {
            source: self.source.clone(),
            username: self.username.clone(),
            password: self.password.clone(),
            last_change: self.last_change,
            earliest_change: self.earliest_change,
            latest_change: self.latest_change,
            warn_period: self.warn_period,
            deactivated: self.deactivated,
            deactivated_since: self.deactivated_since,
            extensions: self.extensions,
        }
    }

    /// The name of the user that the record belongs to.
    pub fn get_username(&self) -> (r: &str)
        ensures
            r@ == self@.username,
    {
        self.username.as_str()
    }

    /// The instant of the last change of the passphrase, in seconds since
    /// the epoch.
    pub fn get_last_change(&self) -> (r: Option<i64>)
        ensures
            r == self@.last_change,
    {
        self.last_change
    }

    /// Gives the record to a user of another name.
    pub fn set_username(&mut self, username: String)
        ensures
            final(self)@ == (ShadowView { username: username@, ..old(self)@ }),
    {
        self.username = username;
    }

    /// The hashed passphrase.
    pub fn get_password(&self) -> (r: &str)
        ensures
            r@ == self@.password,
    {
        self.password.as_str()
    }

    /// The line that the record was read from; empty for a record that was
    /// not read from a table.
    pub fn get_source(&self) -> (r: &str)
        ensures
            r@ == self@.source,
    {
        self.source.as_str()
    }

    /// `content` without the lines that are this record's source line.
    pub fn remove_in(&self, content: &str) -> (r: String)
        ensures
            r@ == crate::text::without_line(content@, self@.source),
    {
        crate::text::remove_line(content, self.source.as_str())
    }

    /// The characters of the record as a line of the shadow table.
    pub fn line_chars(&self) -> (out: Vec<char>)
        ensures
            out@ == self@.line(),
    {
        let mut f: Vec<Vec<char>> = Vec::new();
        f.push(chars_of(self.username.as_str()));
        f.push(chars_of(self.password.as_str()));
        f.push(date_chars(self.last_change));
        f.push(date_chars(self.earliest_change));
        f.push(date_chars(self.latest_change));
        f.push(duration_chars(self.warn_period));
        f.push(duration_chars(self.deactivated));
        f.push(duration_chars(self.deactivated_since));
        f.push(
            match self.extensions {
                None => Vec::new(),
                Some(n) => decimal_chars(n),
            },
        );
        assert(views(f@) == self@.fields());
        join_chars(&f, ':')
    }

    /// The record as a line of the shadow table.
    pub fn to_string(&self) -> (s: String)
        ensures
            s@ == self@.line(),
    {
        let chars = self.line_chars();
        string_of(&chars)
    }
}

impl std::str::FromStr for Shadow {
    type Err = UserLibError;

    fn from_str(line: &str) -> (r: Result<Shadow, UserLibError>)
        ensures
            shadow_result(r) == parse_shadow(line@),
    {
        Shadow::parse_line(line)
    }
}

} // verus!
