//! CSL-JSON dates: fixed dates parsed from `raw` strings, dates given as
//! sequences of integer parts, ranges of both, and the conversions between them.

use vstd::prelude::*;

use crate::item::NumberOrString;
use crate::scan::{digit_run_len, DateScanner};
use crate::text::{all_digits, is_ascii_digit, nat_to_decimal};
use crate::text::{
    lemma_nat_to_decimal, lemma_parse_i16_of_decimal, parse_i16, parse_u8, spec_parse_i16,
    spec_parse_u8,
};

verus! {

/// A date defined by fixed components. `month` and `day` count from zero.
#[derive(Debug, Clone, Copy, Hash, PartialEq, Eq, Structural)]
pub struct FixedDate {
    pub year: i16,
    pub month: Option<u8>,
    pub day: Option<u8>,
}

/// A range of dates defined by fixed components.
#[derive(Debug, Clone, Copy, Hash, PartialEq, Eq, Structural)]
pub struct FixedDateRange {
    /// The start of the range.
    pub start: FixedDate,
    /// The optional end of the range.
    pub end: Option<FixedDate>,
}

/// A date defined by an arbitrary sequence of integer components.
#[derive(Clone, Debug, Hash, PartialEq, Eq)]
pub struct VecDate(pub Vec<i16>);

/// A range of dates defined by arbitrary sequences of integer components.
#[derive(Clone, Debug, Hash, PartialEq, Eq)]
pub struct VecDateRange(pub Vec<VecDate>);

/// The representation of a date.
#[derive(Clone, Debug, Hash, PartialEq, Eq)]
pub enum DateValue {
    Raw { raw: FixedDateRange, literal: Option<String>, season: Option<String> },
    DateParts { date_parts: VecDateRange, literal: Option<String>, season: Option<String> },
}

/// A date part that is neither a number nor an empty string nor a numeral.
#[derive(Clone, Debug, PartialEq, Eq)]
pub struct InvalidNumber {
    /// The text that could not be read as a number.
    pub text: String,
}

/* ---------------------------------------------------------------------- */
/* The date grammar: YEAR[-MONTH[-DAY]], ranges START[/END]                */
/* ---------------------------------------------------------------------- */

/// Whether `t` holds a `-` at index `p`.
pub open spec fn dash_at(t: Seq<char>, p: int) -> bool {
    0 <= p < t.len() && t[p] == '-'
}

/// The run of ASCII digits of `t` that starts at index `p`.
pub open spec fn digit_run(t: Seq<char>, p: int) -> Seq<char> {
    t.subrange(p, p + digit_run_len(t, p))
}

/// The day part that follows a month: what parsing from index `p` gives.
pub open spec fn spec_parse_day(t: Seq<char>, p: int, year: i16, month: u8) -> (
    Option<FixedDate>,
    int,
) {
    let end = p + digit_run_len(t, p);
    match spec_parse_u8(digit_run(t, p)) {
        None => (None, end),
        Some(d) => if d < 1 || d > 32 {
            (None, end)
        } else {
            (Some(FixedDate { year, month: Some(month), day: Some((d - 1) as u8) }), end)
        },
    }
}

/// The month part (and what follows it) after a year: what parsing from index
/// `p` gives.
pub open spec fn spec_parse_month(t: Seq<char>, p: int, year: i16) -> (Option<FixedDate>, int) {
    let end = p + digit_run_len(t, p);
    match spec_parse_u8(digit_run(t, p)) {
        None => (None, end),
        Some(m) => if m < 1 || m > 12 {
            (None, end)
        } else if !dash_at(t, end) {
            (Some(FixedDate { year, month: Some((m - 1) as u8), day: None }), end)
        } else {
            spec_parse_day(t, end + 1, year, (m - 1) as u8)
        },
    }
}

/// What reading a date `YEAR[-MONTH[-DAY]]` from index `i` of `t` gives: the
/// date, if there is one, and the index that reading stopped at. Months are
/// written `1` to `12` and days `1` to `32`; both are stored counting from
/// zero.
pub open spec fn spec_parse_date(t: Seq<char>, i: int) -> (Option<FixedDate>, int) {
    let end = i + digit_run_len(t, i);
    match spec_parse_i16(digit_run(t, i)) {
        None => (None, end),
        Some(year) => if !dash_at(t, end) {
            (Some(FixedDate { year, month: None, day: None }), end)
        } else {
            spec_parse_month(t, end + 1, year)
        },
    }
}

/// What reading a date range `START[/END]` from `t` gives. Reading stops
/// after the end date; when the character after the start date is not `/`,
/// the range has no end.
pub open spec fn spec_parse_date_range(t: Seq<char>) -> Option<FixedDateRange> {
    let (start, p) = spec_parse_date(t, 0);
    match start {
        None => None,
        Some(start) => if p < t.len() && t[p] == '/' {
            match spec_parse_date(t, p + 1).0 {
                Some(end) => Some(FixedDateRange { start, end: Some(end) }),
                None => None,
            }
        } else {
            Some(FixedDateRange { start, end: None })
        },
    }
}

/// Whether the character behind the scanner's cursor is `-`.
fn dash_ahead(s: &DateScanner) -> (res: bool)
    requires
        s.wf(),
    ensures
        res == dash_at(s.text(), s.pos()),
{
    proof { s.lemma_pos_bound(); }
    match s.peek() {
        Some(c) => c == '-',
        None => false,
    }
}

/// Reads a date `YEAR[-MONTH[-DAY]]` at the scanner's cursor.
fn parse_date(s: &mut DateScanner) -> (res: Option<FixedDate>)
    requires
        old(s).wf(),
    ensures
        final(s).wf(),
        final(s).text() == old(s).text(),
        (res, final(s).pos()) == spec_parse_date(old(s).text(), old(s).pos()),
{
    let year = s.eat_digits();
    let year = match parse_i16(year) {
        Some(y) => y,
        None => return None,
    };
    if !dash_ahead(s) {
        return Some(FixedDate { year, month: None, day: None });
    }
    s.eat();

    let month = s.eat_digits();
    let month = match parse_u8(month) {
        Some(m) => m,
        None => return None,
    };
    let month = month.wrapping_sub(1);
    if month > 11 {
        return None;
    }

    if !dash_ahead(s) {
        return Some(FixedDate { year, month: Some(month), day: None });
    }
    s.eat();

    let day = s.eat_digits();
    let day = match parse_u8(day) {
        Some(d) => d,
        None => return None,
    };
    let day = day.wrapping_sub(1);
    if day > 31 {
        return None;
    }

    Some(FixedDate { year, month: Some(month), day: Some(day) })
}

impl FixedDate {
    /// Parses a date `YEAR[-MONTH[-DAY]]` from the start of `s`. What follows
    /// the date is not looked at.
    pub fn parse(s: &str) -> (res: Result<FixedDate, ()>)
        ensures
            res == ok_or_unit(spec_parse_date(s@, 0).0),
    {
        let mut sc = DateScanner::new(s);
        match parse_date(&mut sc) {
            Some(d) => Ok(d),
            None => Err(()),
        }
    }
}

impl FixedDateRange {
    /// Parses a date range `START[/END]` from the start of `s`.
    pub fn parse(s: &str) -> (res: Result<FixedDateRange, ()>)
        ensures
            res == ok_or_unit(spec_parse_date_range(s@)),
    {
        let mut sc = DateScanner::new(s);
        let start = match parse_date(&mut sc) {
            Some(d) => d,
            None => return Err(()),
        };
        let slash = match sc.eat() {
            Some(c) => c == '/',
            None => false,
        };
        let end = if slash {
            match parse_date(&mut sc) {
                Some(d) => Some(d),
                None => return Err(()),
            }
        } else {
            None
        };
        Ok(FixedDateRange { start, end })
    }
}

impl core::str::FromStr for FixedDate {
    type Err = ();

    fn from_str(s: &str) -> (res: Result<Self, Self::Err>)
        ensures
            res == ok_or_unit(spec_parse_date(s@, 0).0),
    {
        FixedDate::parse(s)
    }
}

impl core::str::FromStr for FixedDateRange {
    type Err = ();

    fn from_str(s: &str) -> (res: Result<Self, Self::Err>)
        ensures
            res == ok_or_unit(spec_parse_date_range(s@)),
    {
        FixedDateRange::parse(s)
    }
}

/* ---------------------------------------------------------------------- */
/* Conversions between fixed dates and dates given by integer parts        */
/* ---------------------------------------------------------------------- */

/// The integer parts of a fixed date: the year, then the month and the day
/// as they are stored (the day only after a month).
pub open spec fn fixed_date_parts(d: FixedDate) -> Seq<i16> {
    match d.month {
        None => seq![d.year],
        Some(m) => match d.day {
            None => seq![d.year, m as i16],
            Some(day) => seq![d.year, m as i16, day as i16],
        },
    }
}

/// The byte that the part `p` gives as a zero-based month or day: `p - 1`
/// cut down to its low eight bits.
pub open spec fn zero_based_part(p: i16) -> u8 {
    ((p as int - 1) % 256) as u8
}

/// The fixed date that a non-empty sequence of integer parts gives: the
/// first part is the year, the second (if any) the month and the third (if
/// any) the day, both counted down by one. Further parts are ignored.
pub open spec fn spec_fixed_date_from_parts(p: Seq<i16>) -> FixedDate {
    FixedDate {
        year: p[0],
        month: if p.len() > 1 { Some(zero_based_part(p[1])) } else { None },
        day: if p.len() > 2 { Some(zero_based_part(p[2])) } else { None },
    }
}

/// The parts of a fixed date range: one sequence for the start and, when the
/// range has an end, one for the end.
pub open spec fn fixed_range_parts(r: FixedDateRange) -> Seq<Seq<i16>> {
    match r.end {
        None => seq![fixed_date_parts(r.start)],
        Some(e) => seq![fixed_date_parts(r.start), fixed_date_parts(e)],
    }
}

/// Whether converting `p` to a fixed range reads only non-empty dates: the
/// first and second date, where present, have at least one part.
pub open spec fn range_parts_readable(p: Seq<Seq<i16>>) -> bool {
    &&& (p.len() >= 1 ==> p[0].len() > 0)
    &&& (p.len() >= 2 ==> p[1].len() > 0)
}

/// The fixed range that the parts `p` give: one or two dates; none or more
/// than two give no range.
pub open spec fn spec_fixed_range_from_parts(p: Seq<Seq<i16>>) -> Option<FixedDateRange> {
    if p.len() == 0 || p.len() > 2 {
        None
    } else {
        Some(
            FixedDateRange {
                start: spec_fixed_date_from_parts(p[0]),
                end: if p.len() == 2 { Some(spec_fixed_date_from_parts(p[1])) } else { None },
            },
        )
    }
}

/// `Some` as `Ok`, `None` as `Err(())`.
pub open spec fn ok_or_unit<T>(o: Option<T>) -> Result<T, ()> {
    match o {
        Some(v) => Ok(v),
        None => Err(()),
    }
}

impl VecDate {
    /// The parts of this date.
    pub open spec fn parts(&self) -> Seq<i16> {
        self.0@
    }

    /// The integer parts of a fixed date: year, then month and day when present.
    pub fn from_fixed(value: FixedDate) -> (res: VecDate)
        ensures
            res.parts() == fixed_date_parts(value),
    {
        let mut v: Vec<i16> = Vec::new();
        v.push(value.year);
        if let Some(month) = value.month {
            v.push(month as i16);
            if let Some(day) = value.day {
                v.push(day as i16);
            }
        }
        VecDate(v)
    }
}

impl VecDateRange {
    /// The parts of each date of this range.
    pub open spec fn parts(&self) -> Seq<Seq<i16>> {
        self.0@.map_values(|d: VecDate| d.0@)
    }

    /// The dates of a fixed range as integer parts.
    pub fn from_fixed_range(value: FixedDateRange) -> (res: VecDateRange)
        ensures
            res.parts() =~= fixed_range_parts(value),
    {
        let mut v: Vec<VecDate> = Vec::new();
        v.push(VecDate::from_fixed(value.start));
        if let Some(end) = value.end {
            v.push(VecDate::from_fixed(end));
        }
        VecDateRange(v)
    }

    /// The date parts that a date value stands for: a fixed range is turned
    /// into parts, parts are kept as they are.
    pub fn from_date_value(value: DateValue) -> (res: VecDateRange)
        ensures
            match value {
                DateValue::Raw { raw, .. } => res.parts() == fixed_range_parts(raw),
                DateValue::DateParts { date_parts, .. } => res == date_parts,
            },
    {
        match value {
            DateValue::Raw { raw, .. } => VecDateRange::from_fixed_range(raw),
            DateValue::DateParts { date_parts, .. } => date_parts,
        }
    }
}

/// A part read as a zero-based month or day.
fn zero_based(p: i16) -> (r: u8)
    ensures
        r == zero_based_part(p),
{
    (((p as i32 + 65535) as u32) % 256) as u8
}

/// The fixed date that the non-empty parts `p` give.
fn fixed_date_from_parts(p: &Vec<i16>) -> (res: FixedDate)
    requires
        p@.len() > 0,
    ensures
        res == spec_fixed_date_from_parts(p@),
{
    let year = p[0];
    let month = if p.len() > 1 { Some(zero_based(p[1])) } else { None };
    let day = if p.len() > 2 { Some(zero_based(p[2])) } else { None };
    FixedDate { year, month, day }
}

impl FixedDate {
    /// The fixed date that a non-empty date of integer parts gives.
    pub fn from_vec_date(value: VecDate) -> (res: FixedDate)
        requires
            value.parts().len() > 0,
        ensures
            res == spec_fixed_date_from_parts(value.parts()),
    {
        fixed_date_from_parts(&value.0)
    }
}

impl FixedDateRange {
    /// The fixed range that a range of one or two dates gives; `Err(())` for
    /// none or more than two.
    pub fn try_from_vec_range(value: VecDateRange) -> (res: Result<FixedDateRange, ()>)
        requires
            range_parts_readable(value.parts()),
        ensures
            res == ok_or_unit(spec_fixed_range_from_parts(value.parts())),
    {
        let v = &value.0;
        if v.len() == 0 {
            return Err(());
        }
        assert(value.parts()[0] == v@[0].0@);
        let start = fixed_date_from_parts(&v[0].0);
        let end = if v.len() > 1 {
            assert(value.parts()[1] == v@[1].0@);
            Some(fixed_date_from_parts(&v[1].0))
        } else {
            None
        };
        if v.len() > 2 {
            return Err(());
        }
        Ok(FixedDateRange { start, end })
    }

    /// The fixed range of a date value: a fixed range as it is, date parts
    /// converted.
    pub fn try_from_date_value(value: DateValue) -> (res: Result<FixedDateRange, ()>)
        requires
            value is DateParts ==> range_parts_readable(value->date_parts.parts()),
        ensures
            match value {
                DateValue::Raw { raw, .. } => res == Ok::<FixedDateRange, ()>(raw),
                DateValue::DateParts { date_parts, .. } => res == ok_or_unit(
                    spec_fixed_range_from_parts(date_parts.parts()),
                ),
            },
    {
        match value {
            DateValue::Raw { raw, .. } => Ok(raw),
            DateValue::DateParts { date_parts, .. } => FixedDateRange::try_from_vec_range(
                date_parts,
            ),
        }
    }
}

/* ---------------------------------------------------------------------- */
/* Reading dates as CSL-JSON writes them                                   */
/* ---------------------------------------------------------------------- */

/// What one date part gives: a number is kept, an empty string is skipped
/// (`None`), and any other string is read as an `i16` numeral; a string that
/// is not one is the error.
pub open spec fn spec_date_part(x: NumberOrString) -> Result<Option<i16>, Seq<char>> {
    match x {
        NumberOrString::Number(n) => Ok(Some(n)),
        NumberOrString::String(s) => spec_date_part_text(s@),
    }
}

/// What a date part written as the string `t` gives: nothing when `t` is
/// empty, the number when `t` is an `i16` numeral, and the error `t`
/// otherwise.
pub open spec fn spec_date_part_text(t: Seq<char>) -> Result<Option<i16>, Seq<char>> {
    if t.len() == 0 {
        Ok(None)
    } else {
        match spec_parse_i16(t) {
            Some(n) => Ok(Some(n)),
            None => Err(t),
        }
    }
}

/// What a list of date parts gives: the parts in order, without the skipped
/// ones, or the first string that is not a numeral.
pub open spec fn spec_date_parts(parts: Seq<NumberOrString>) -> Result<Seq<i16>, Seq<char>>
    decreases parts.len(),
{
    if parts.len() == 0 {
        Ok(seq![])
    } else {
        match spec_date_parts(parts.drop_last()) {
            Err(e) => Err(e),
            Ok(done) => match spec_date_part(parts.last()) {
                Err(e) => Err(e),
                Ok(None) => Ok(done),
                Ok(Some(n)) => Ok(done.push(n)),
            },
        }
    }
}

/// Whether `text` is the text of `value`, and absent when `value` is.
pub open spec fn text_of(text: Option<String>, value: Option<NumberOrString>) -> bool {
    match value {
        None => text is None,
        Some(x) => text matches Some(t) && t@ == x.spec_text(),
    }
}

/// The text of an optional number or string.
pub fn opt_into_string(value: Option<NumberOrString>) -> (res: Option<String>)
    ensures
        text_of(res, value),
{
    match value {
        Some(x) => Some(x.into_string()),
        None => None,
    }
}

impl VecDate {
    /// Reads a date from its parts as CSL-JSON writes them: numbers, or
    /// strings that are numerals; empty strings are left out.
    pub fn from_parts(parts: Vec<NumberOrString>) -> (res: Result<VecDate, InvalidNumber>)
        ensures
            match spec_date_parts(parts@) {
                Ok(p) => res matches Ok(d) && d.parts() == p,
                Err(e) => res matches Err(err) && err.text@ == e,
            },
    {
        let mut out: Vec<i16> = Vec::new();
        let mut i: usize = 0;
        while i < parts.len()
            invariant
                i <= parts@.len(),
                spec_date_parts(parts@.take(i as int)) == Ok::<Seq<i16>, Seq<char>>(out@),
            decreases parts@.len() - i,
        {
            assert(parts@.take(i + 1).drop_last() =~= parts@.take(i as int));
            assert(parts@.take(i + 1).last() == parts@[i as int]);
            match &parts[i] {
                NumberOrString::Number(n) => {
                    out.push(*n);
                },
                NumberOrString::String(s) => {
                    if !s.as_str().is_empty() {
                        match parse_i16(s.as_str()) {
                            Some(n) => out.push(n),
                            None => {
                                proof { lemma_date_parts_error_stays(parts@, i as int + 1); }
                                return Err(InvalidNumber { text: s.clone() });
                            },
                        }
                    }
                },
            }
            i = i + 1;
        }
        assert(parts@.take(parts@.len() as int) =~= parts@);
        Ok(VecDate(out))
    }
}

/// Once a prefix of the parts fails, every longer prefix fails the same way.
proof fn lemma_date_parts_error_stays(parts: Seq<NumberOrString>, k: int)
    requires
        0 <= k <= parts.len(),
        spec_date_parts(parts.take(k)) is Err,
    ensures
        spec_date_parts(parts) == spec_date_parts(parts.take(k)),
    decreases parts.len() - k,
{
    if k < parts.len() {
        assert(parts.take(k + 1).drop_last() =~= parts.take(k));
        lemma_date_parts_error_stays(parts, k + 1);
    } else {
        assert(parts.take(k) =~= parts);
    }
}

impl DateValue {
    /// A date given as a `raw` string, with its season as text.
    pub fn from_raw_repr(
        raw: FixedDateRange,
        literal: Option<String>,
        season: Option<NumberOrString>,
    ) -> (res: DateValue)
        ensures
            res matches DateValue::Raw { raw: r, literal: l, season: s } && r == raw && l
                == literal && text_of(s, season),
    {
        DateValue::Raw { raw, literal, season: opt_into_string(season) }
    }

    /// A date given as `date-parts`, with its season as text.
    pub fn from_parts_repr(
        date_parts: VecDateRange,
        literal: Option<String>,
        season: Option<NumberOrString>,
    ) -> (res: DateValue)
        ensures
            res matches DateValue::DateParts { date_parts: d, literal: l, season: s } && d
                == date_parts && l == literal && text_of(s, season),
    {
        DateValue::DateParts { date_parts, literal, season: opt_into_string(season) }
    }
}

/* ---------------------------------------------------------------------- */
/* Laws                                                                    */
/* ---------------------------------------------------------------------- */

/// A date part reads the same whether it is given as itself or as its text:
/// a number and its decimal numeral give the same part, so turning parts
/// into strings (as seasons and locators are) loses nothing.
pub proof fn lemma_date_part_as_text(x: NumberOrString)
    ensures
        spec_date_part_text(x.spec_text()) == spec_date_part(x),
{
    match x {
        NumberOrString::Number(n) => {
            lemma_parse_i16_of_decimal(n);
            if n >= 0 {
                lemma_nat_to_decimal(n as nat);
            }
        },
        NumberOrString::String(_) => {},
    }
}

/// Whether a fixed date is one that the date grammar can give: a month below
/// 12, a day below 32, and a day only after a month.
pub open spec fn date_in_range(d: FixedDate) -> bool {
    &&& (d.month matches Some(m) ==> m < 12)
    &&& (d.day matches Some(x) ==> x < 32)
    &&& (d.day is Some ==> d.month is Some)
}

/// Every date that reading a date gives has its month below 12 and its day
/// below 32, and reading never moves past the end of the text.
pub proof fn lemma_parsed_date_in_range(t: Seq<char>, i: int)
    requires
        0 <= i <= t.len(),
    ensures
        spec_parse_date(t, i).0 matches Some(d) ==> date_in_range(d),
        i <= spec_parse_date(t, i).1 <= t.len(),
{
    crate::scan::lemma_digit_run_bound(t, i);
    let y_end = i + digit_run_len(t, i);
    if dash_at(t, y_end) {
        let m_start = y_end + 1;
        crate::scan::lemma_digit_run_bound(t, m_start);
        let m_end = m_start + digit_run_len(t, m_start);
        if dash_at(t, m_end) {
            crate::scan::lemma_digit_run_bound(t, m_end + 1);
        }
    }
}

/// Every range that reading a range gives has dates in range.
pub proof fn lemma_parsed_range_in_range(t: Seq<char>)
    ensures
        spec_parse_date_range(t) matches Some(r) ==> date_in_range(r.start) && (r.end matches Some(
            e,
        ) ==> date_in_range(e)),
{
    lemma_parsed_date_in_range(t, 0);
    let p = spec_parse_date(t, 0).1;
    if 0 <= p < t.len() {
        lemma_parsed_date_in_range(t, p + 1);
    }
}

/// A range read from a text starts with the date read from the same text;
/// when no date can be read there is no range; and when the date is not
/// followed by `/`, the range is that date alone.
pub proof fn lemma_range_starts_with_date(t: Seq<char>)
    ensures
        spec_parse_date_range(t) matches Some(r) ==> spec_parse_date(t, 0).0 == Some(r.start),
        spec_parse_date(t, 0).0 is None ==> spec_parse_date_range(t) is None,
        spec_parse_date(t, 0).0 matches Some(d) ==> {
            let p = spec_parse_date(t, 0).1;
            !(p < t.len() && t[p] == '/') ==> spec_parse_date_range(t) == Some(
                FixedDateRange { start: d, end: None },
            )
        },
{
}

/// A stored month or day after a trip through integer parts: the parts hold
/// it as it is stored and reading them counts it down by one (modulo 256).
pub open spec fn part_round_trip(x: u8) -> u8 {
    ((x as int + 255) % 256) as u8
}

/// A fixed date after a trip through integer parts.
pub open spec fn date_round_trip(d: FixedDate) -> FixedDate {
    FixedDate {
        year: d.year,
        month: match d.month {
            Some(m) => Some(part_round_trip(m)),
            None => None,
        },
        day: match d.month {
            Some(_) => match d.day {
                Some(x) => Some(part_round_trip(x)),
                None => None,
            },
            None => None,
        },
    }
}

/// Turning a fixed range into integer parts and back always succeeds (and
/// never reads an empty date), keeps the years and whether there is an end,
/// and counts stored months and days down by one; a range whose dates have no
/// month comes back unchanged.
pub proof fn lemma_fixed_range_round_trip(r: FixedDateRange)
    ensures
        range_parts_readable(fixed_range_parts(r)),
        spec_fixed_range_from_parts(fixed_range_parts(r)) == Some(
            FixedDateRange {
                start: date_round_trip(r.start),
                end: match r.end {
                    Some(e) => Some(date_round_trip(e)),
                    None => None,
                },
            },
        ),
        r.start.month is None && r.start.day is None && (r.end matches Some(e) ==> e.month is None
            && e.day is None) ==> spec_fixed_range_from_parts(fixed_range_parts(r)) == Some(r),
{
    lemma_fixed_date_round_trip(r.start);
    if let Some(e) = r.end {
        lemma_fixed_date_round_trip(e);
    }
}

/// One fixed date through integer parts and back.
proof fn lemma_fixed_date_round_trip(d: FixedDate)
    ensures
        fixed_date_parts(d).len() > 0,
        spec_fixed_date_from_parts(fixed_date_parts(d)) == date_round_trip(d),
{
}

/// When the start date is followed by `/`, the end of the range is exactly
/// the date read after the slash, whatever its shape; when no date can be
/// read there, there is no range.
pub proof fn lemma_range_end_after_slash(t: Seq<char>)
    ensures
        spec_parse_date(t, 0).0 matches Some(start) ==> {
            let p = spec_parse_date(t, 0).1;
            (0 <= p < t.len() && t[p] == '/') ==> {
                &&& (spec_parse_date(t, p + 1).0 matches Some(e) ==> spec_parse_date_range(t)
                    == Some(FixedDateRange { start, end: Some(e) }))
                &&& (spec_parse_date(t, p + 1).0 is None ==> spec_parse_date_range(t) is None)
            }
        },
{
}

/// A run of digits `a[i..]` followed by text that does not start with a
/// digit ends where `a` ends.
proof fn lemma_digit_run_of_numeral(a: Seq<char>, b: Seq<char>, i: int)
    requires
        0 <= i <= a.len(),
        all_digits(a),
        b.len() > 0 ==> !is_ascii_digit(b[0]),
    ensures
        digit_run_len(a + b, i) == a.len() - i,
    decreases a.len() - i,
{
    let t = a + b;
    if i < a.len() {
        assert(t[i] == a[i]);
        assert(is_ascii_digit(a[i]));
        lemma_digit_run_of_numeral(a, b, i + 1);
    } else if b.len() > 0 {
        assert(t[i] == b[0]);
    }
}

/// Writing two non-negative years as `Y1/Y2` and reading the text as a range
/// gives the range from the first year to the second; writing one year alone
/// gives the range of that year with no end.
pub proof fn lemma_year_range_text_round_trip(y1: i16, y2: i16)
    requires
        y1 >= 0,
        y2 >= 0,
    ensures
        spec_parse_date_range(nat_to_decimal(y1 as nat) + seq!['/'] + nat_to_decimal(y2 as nat))
            == Some(
            FixedDateRange {
                start: FixedDate { year: y1, month: None, day: None },
                end: Some(FixedDate { year: y2, month: None, day: None }),
            },
        ),
        spec_parse_date_range(nat_to_decimal(y1 as nat)) == Some(
            FixedDateRange { start: FixedDate { year: y1, month: None, day: None }, end: None },
        ),
{
    let a = nat_to_decimal(y1 as nat);
    let b = nat_to_decimal(y2 as nat);
    lemma_nat_to_decimal(y1 as nat);
    lemma_nat_to_decimal(y2 as nat);
    lemma_parse_i16_of_decimal(y1);
    lemma_parse_i16_of_decimal(y2);
    let rest = seq!['/'] + b;
    let t = a + rest;
    assert(a + seq!['/'] + b =~= t);
    lemma_digit_run_of_numeral(a, rest, 0);
    assert(digit_run(t, 0) =~= a);
    assert(t[a.len() as int] == '/');
    assert(spec_parse_date(t, 0) == (Some(FixedDate { year: y1, month: None, day: None }), a.len() as int));
    let tail = Seq::<char>::empty();
    assert(t =~= (a + seq!['/']) + b);
    assert(t =~= (a + seq!['/']) + b + tail);
    let pre = a + seq!['/'];
    lemma_digit_run_shifted(pre, b, tail);
    assert(digit_run(t, a.len() as int + 1) =~= b);
    assert(spec_parse_date(t, a.len() as int + 1) == (Some(FixedDate { year: y2, month: None, day: None }), t.len() as int));

    lemma_digit_run_of_numeral(a, tail, 0);
    assert(a + tail =~= a);
    assert(digit_run(a, 0) =~= a);
}

/// In `pre + a + b` with `a` all digits and `b` empty, the run that starts
/// after `pre` is `a`.
proof fn lemma_digit_run_shifted(pre: Seq<char>, a: Seq<char>, b: Seq<char>)
    requires
        all_digits(a),
        b.len() == 0,
    ensures
        digit_run_len(pre + a + b, pre.len() as int) == a.len(),
{
    lemma_digit_run_from(pre, a, 0);
    assert(pre + a + b =~= pre + a);
}

/// In `pre + a` with `a` all digits, the run from `pre.len() + i` reaches the end.
proof fn lemma_digit_run_from(pre: Seq<char>, a: Seq<char>, i: int)
    requires
        0 <= i <= a.len(),
        all_digits(a),
    ensures
        digit_run_len(pre + a, pre.len() + i) == a.len() - i,
    decreases a.len() - i,
{
    let t = pre + a;
    if i < a.len() {
        assert(t[pre.len() + i] == a[i]);
        assert(is_ascii_digit(a[i]));
        lemma_digit_run_from(pre, a, i + 1);
    }
}

/// The parts that are all numbers.
pub open spec fn numbers(ns: Seq<i16>) -> Seq<NumberOrString> {
    ns.map_values(|n: i16| NumberOrString::Number(n))
}

/// Whether a part is the empty string, the one kind of part that is skipped.
pub open spec fn is_empty_string(x: NumberOrString) -> bool {
    x matches NumberOrString::String(s) && s@.len() == 0
}

/// How many of `parts` are not empty strings.
pub open spec fn kept_count(parts: Seq<NumberOrString>) -> nat
    decreases parts.len(),
{
    if parts.len() == 0 {
        0
    } else {
        kept_count(parts.drop_last()) + if is_empty_string(parts.last()) {
            0nat
        } else {
            1nat
        }
    }
}

/// Whether a part can be read: a number, an empty string, or an `i16`
/// numeral.
pub open spec fn part_readable(x: NumberOrString) -> bool {
    match x {
        NumberOrString::Number(_) => true,
        NumberOrString::String(s) => s@.len() == 0 || spec_parse_i16(s@) is Some,
    }
}

/// The number that a part which is not an empty string stands for.
pub open spec fn part_number(x: NumberOrString) -> i16 {
    match x {
        NumberOrString::Number(n) => n,
        NumberOrString::String(s) => spec_parse_i16(s@).unwrap(),
    }
}

/// Reading parts that are all numbers gives exactly those numbers, in order.
pub proof fn lemma_date_parts_of_numbers(ns: Seq<i16>)
    ensures
        spec_date_parts(numbers(ns)) == Ok::<Seq<i16>, Seq<char>>(ns),
    decreases ns.len(),
{
    if ns.len() > 0 {
        assert(numbers(ns).drop_last() =~= numbers(ns.drop_last()));
        assert(numbers(ns).last() == NumberOrString::Number(ns.last()));
        lemma_date_parts_of_numbers(ns.drop_last());
        assert(ns.drop_last().push(ns.last()) =~= ns);
    } else {
        assert(ns =~= Seq::<i16>::empty());
    }
}

/// Reading date parts succeeds exactly when every non-empty string among
/// them is an `i16` numeral; the result then has one number for each part
/// that is not an empty string, in order: the part numbered `i` among the
/// kept parts is the number the `i`-th kept part stands for.
pub proof fn lemma_date_parts_keep_each_part(parts: Seq<NumberOrString>)
    ensures
        spec_date_parts(parts) is Ok <==> forall|i: int|
            0 <= i < parts.len() ==> part_readable(#[trigger] parts[i]),
        spec_date_parts(parts) matches Ok(r) ==> {
            &&& r.len() == kept_count(parts)
            &&& forall|i: int|
                0 <= i < parts.len() && !is_empty_string(#[trigger] parts[i]) ==> r[kept_count(
                    parts.take(i),
                ) as int] == part_number(parts[i])
        },
{
    lemma_date_parts_ok_iff(parts);
    if spec_date_parts(parts) is Ok {
        lemma_date_parts_content(parts);
    }
}

/// Reading date parts succeeds exactly when every part is readable.
proof fn lemma_date_parts_ok_iff(parts: Seq<NumberOrString>)
    ensures
        spec_date_parts(parts) is Ok <==> forall|i: int|
            0 <= i < parts.len() ==> part_readable(#[trigger] parts[i]),
    decreases parts.len(),
{
    if parts.len() > 0 {
        let init = parts.drop_last();
        let x = parts.last();
        lemma_date_parts_ok_iff(init);
        assert(x == parts[parts.len() - 1]);
        assert(spec_date_part(x) is Ok <==> part_readable(x));
        if forall|i: int| 0 <= i < parts.len() ==> part_readable(#[trigger] parts[i]) {
            assert forall|i: int| 0 <= i < init.len() implies part_readable(#[trigger] init[i]) by {
                assert(init[i] == parts[i]);
            }
        } else {
            let i = choose|i: int| 0 <= i < parts.len() && !part_readable(#[trigger] parts[i]);
            if i < init.len() {
                assert(init[i] == parts[i]);
            }
        }
    }
}

/// What successful reading of date parts gives, part by part.
proof fn lemma_date_parts_content(parts: Seq<NumberOrString>)
    requires
        spec_date_parts(parts) is Ok,
    ensures
        spec_date_parts(parts) matches Ok(r) ==> {
            &&& r.len() == kept_count(parts)
            &&& forall|i: int|
                0 <= i < parts.len() && !is_empty_string(#[trigger] parts[i]) ==> r[kept_count(
                    parts.take(i),
                ) as int] == part_number(parts[i])
        },
    decreases parts.len(),
{
    if parts.len() > 0 {
        let init = parts.drop_last();
        let x = parts.last();
        lemma_date_parts_content(init);
        let r = spec_date_parts(parts)->Ok_0;
        let d = spec_date_parts(init)->Ok_0;
        assert(parts.take(init.len() as int) =~= init);
        assert(x == parts[init.len() as int]);
        assert forall|i: int|
            0 <= i < parts.len() && !is_empty_string(#[trigger] parts[i]) implies r[kept_count(
            parts.take(i),
        ) as int] == part_number(parts[i]) by {
            if i < init.len() {
                assert(init[i] == parts[i]);
                assert(init.take(i) =~= parts.take(i));
                lemma_kept_count_prefix(init, i);
            }
        }
    } else {
        assert(spec_date_parts(parts)->Ok_0 =~= Seq::<i16>::empty());
    }
}

/// A prefix keeps no more parts than the whole.
proof fn lemma_kept_count_prefix(parts: Seq<NumberOrString>, i: int)
    requires
        0 <= i < parts.len(),
    ensures
        kept_count(parts.take(i)) + (if is_empty_string(parts[i]) { 0nat } else { 1nat })
            <= kept_count(parts),
    decreases parts.len(),
{
    if i < parts.len() - 1 {
        assert(parts.drop_last().take(i) =~= parts.take(i));
        assert(parts.drop_last()[i] == parts[i]);
        lemma_kept_count_prefix(parts.drop_last(), i);
    } else {
        assert(parts.take(i) =~= parts.drop_last());
    }
}

/// In `pre + a + b`, with `a` all digits and `b` not starting with a digit,
/// the run of digits after `pre` is `a`.
proof fn lemma_digit_run_mid(pre: Seq<char>, a: Seq<char>, b: Seq<char>, i: int)
    requires
        0 <= i <= a.len(),
        all_digits(a),
        b.len() > 0 ==> !is_ascii_digit(b[0]),
    ensures
        digit_run_len(pre + a + b, pre.len() + i) == a.len() - i,
    decreases a.len() - i,
{
    let t = pre + a + b;
    if i < a.len() {
        assert(t[pre.len() + i] == a[i]);
        assert(is_ascii_digit(a[i]));
        lemma_digit_run_mid(pre, a, b, i + 1);
    } else if b.len() > 0 {
        assert(t[pre.len() + i] == b[0]);
    }
}

/// The decimal numeral of a byte reads back as that byte.
proof fn lemma_parse_u8_of_decimal(m: u8)
    ensures
        spec_parse_u8(nat_to_decimal(m as nat)) == Some(m),
{
    lemma_nat_to_decimal(m as nat);
    let s = nat_to_decimal(m as nat);
    assert(is_ascii_digit(s[0]));
}

/// Writing a date with a non-negative year as `YEAR-MONTH-DAY` (or
/// `YEAR-MONTH`) and reading it back gives that date, with month and day
/// stored counting from zero, and reading stops at the end of the text. A
/// month outside `1..=12`, or a day outside `1..=32`, makes the text no date.
pub proof fn lemma_date_text_round_trip(y: i16, m: u8, d: u8)
    requires
        y >= 0,
    ensures
        ({
            let t = nat_to_decimal(y as nat) + seq!['-'] + nat_to_decimal(m as nat);
            &&& 1 <= m <= 12 ==> spec_parse_date(t, 0) == (
                Some(FixedDate { year: y, month: Some((m - 1) as u8), day: None }),
                t.len() as int,
            )
            &&& !(1 <= m <= 12) ==> spec_parse_date(t, 0).0 is None
        }),
        ({
            let t = nat_to_decimal(y as nat) + seq!['-'] + nat_to_decimal(m as nat) + seq!['-']
                + nat_to_decimal(d as nat);
            &&& 1 <= m <= 12 && 1 <= d <= 32 ==> spec_parse_date(t, 0) == (
                Some(FixedDate { year: y, month: Some((m - 1) as u8), day: Some((d - 1) as u8) }),
                t.len() as int,
            )
            &&& !(1 <= m <= 12 && 1 <= d <= 32) ==> spec_parse_date(t, 0).0 is None
        }),
{
    let ys = nat_to_decimal(y as nat);
    let ms = nat_to_decimal(m as nat);
    let ds = nat_to_decimal(d as nat);
    lemma_nat_to_decimal(y as nat);
    lemma_nat_to_decimal(m as nat);
    lemma_nat_to_decimal(d as nat);
    lemma_parse_i16_of_decimal(y);
    lemma_parse_u8_of_decimal(m);
    lemma_parse_u8_of_decimal(d);
    let e = Seq::<char>::empty();
    let dash = seq!['-'];

    // YEAR-MONTH
    let t = ys + dash + ms;
    assert(t =~= e + ys + (dash + ms));
    lemma_digit_run_mid(e, ys, dash + ms, 0);
    assert(digit_run(t, 0) =~= ys);
    assert(t[ys.len() as int] == '-');
    let p = ys.len() as int + 1;
    assert(t =~= (ys + dash) + ms + e);
    lemma_digit_run_mid(ys + dash, ms, e, 0);
    assert(digit_run(t, p) =~= ms);
    assert(!dash_at(t, p + ms.len()));

    // YEAR-MONTH-DAY
    let t2 = ys + dash + ms + dash + ds;
    assert(t2 =~= e + ys + (dash + ms + dash + ds));
    lemma_digit_run_mid(e, ys, dash + ms + dash + ds, 0);
    assert(digit_run(t2, 0) =~= ys);
    assert(t2[ys.len() as int] == '-');
    assert(t2 =~= (ys + dash) + ms + (dash + ds));
    lemma_digit_run_mid(ys + dash, ms, dash + ds, 0);
    assert(digit_run(t2, p) =~= ms);
    let q = p + ms.len();
    assert(t2[q] == '-');
    assert(t2 =~= (ys + dash + ms + dash) + ds + e);
    lemma_digit_run_mid(ys + dash + ms + dash, ds, e, 0);
    assert(digit_run(t2, q + 1) =~= ds);
}

/// When reading date parts fails, the error is the text of the first part
/// that cannot be read, a non-empty string that is no `i16` numeral.
pub proof fn lemma_date_parts_first_error(parts: Seq<NumberOrString>)
    ensures
        spec_date_parts(parts) matches Err(e) ==> exists|i: int|
            0 <= i < parts.len() && (#[trigger] parts[i] matches NumberOrString::String(s) && s@
                == e) && !part_readable(parts[i]) && forall|j: int|
                0 <= j < i ==> part_readable(#[trigger] parts[j]),
    decreases parts.len(),
{
    if parts.len() > 0 {
        let init = parts.drop_last();
        lemma_date_parts_first_error(init);
        lemma_date_parts_ok_iff(init);
        if let Err(e) = spec_date_parts(parts) {
            if let Err(e2) = spec_date_parts(init) {
                let i = choose|i: int|
                    0 <= i < init.len() && (#[trigger] init[i] matches NumberOrString::String(s)
                        && s@ == e2) && !part_readable(init[i]) && forall|j: int|
                        0 <= j < i ==> part_readable(#[trigger] init[j]);
                assert(parts[i] == init[i]);
                assert forall|j: int| 0 <= j < i implies part_readable(#[trigger] parts[j]) by {
                    assert(parts[j] == init[j]);
                }
            } else {
                let i = init.len() as int;
                assert(parts[i] == parts.last());
                assert forall|j: int| 0 <= j < i implies part_readable(#[trigger] parts[j]) by {
                    assert(parts[j] == init[j]);
                }
            }
        }
    }
}

} // verus!
